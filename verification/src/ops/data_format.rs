//! Operations that change how the data of a dish is written: base64, the
//! radixes from 2 to 36, and regular expressions.

use vstd::prelude::*;
use vstd::string::StringExecFns;
use vstd::utf8::decode_utf8;
use vstd::utf8::valid_utf8;
use crate::integer_argument;
use crate::ops::failure;
use crate::ops::holds;
use crate::string_argument;
use crate::text::decimal_text;
use crate::text::format_decimal;
use crate::text::format_radix;
use crate::text::join2;
use crate::text::join3;
use crate::text::join_all;
use crate::text::joined;
use crate::text::radix_text;
use crate::text::split_words;
use crate::text::string_from_utf8;
use crate::text::texts;
use crate::text::words;
use crate::DishData;
use crate::DishDataV;
use crate::DishError;
use crate::DishResult;
use crate::Operation;
use crate::OperationArgType;
use crate::OperationArgV;
use crate::OperationArguments;
use crate::OperationInfo;
use crate::OperationInfoV;

verus! {

// ---------------------------------------------------------------------------
// base64
// ---------------------------------------------------------------------------
/// The standard base64 encoding of `bytes`, with padding, as the crate
/// `base64` writes it.
pub uninterp spec fn base64_encoded(bytes: Seq<u8>) -> Seq<char>;

/// What the crate `base64` decodes `text` to: the bytes, or the text of its
/// error.
pub uninterp spec fn base64_decoded(text: Seq<u8>) -> Result<Seq<u8>, Seq<char>>;

/// Encodes bytes in base64.
///
/// Trusted: calls `base64::encode`; the contract only names its result.
#[verifier::external_body]
fn base64_encode(bytes: &[u8]) -> (r: String)
    ensures
        r@ == base64_encoded(bytes@),
{
    base64::encode(bytes)
}

/// Decodes base64.
///
/// Trusted: calls `base64::decode` and, where it fails, takes the text of
/// its error; the contract only names the two.
#[verifier::external_body]
fn base64_decode(text: &[u8]) -> (r: Result<Vec<u8>, String>)
    ensures
        match base64_decoded(text@) {
            Ok(bytes) => r is Ok && r->Ok_0@ == bytes,
            Err(message) => r is Err && r->Err_0@ == message,
        },
{
    match base64::decode(text) {
        Ok(bytes) => Ok(bytes),
        Err(e) => Err(e.to_string()),
    }
}

/// What `from-base64` makes of the data: text is decoded into bytes; bytes
/// are refused.
pub open spec fn from_base64_outcome(data: DishDataV) -> Result<DishDataV, Seq<char>> {
    match data {
        DishDataV::Bin(_) => Err("cannot convert binary data from base64"@),
        DishDataV::Str(_) => from_base64_decoded(base64_decoded(data.bytes())),
    }
}

/// What `from-base64` makes of what the decoder returned.
pub open spec fn from_base64_decoded(decoded: Result<Seq<u8>, Seq<char>>) -> Result<
    DishDataV,
    Seq<char>,
> {
    match decoded {
        Ok(bytes) => Ok(DishDataV::Bin(bytes)),
        Err(message) => Err("base64 decode error: "@ + message),
    }
}

/// Puts what the decoder returned into the dish: the bytes, or the error
/// with its reason.
pub fn finish_from_base64(decoded: Result<Vec<u8>, String>, dish: &mut DishData) -> (r: DishResult)
    ensures
        holds(
            from_base64_decoded(
                match decoded {
                    Ok(bytes) => Ok(bytes@),
                    Err(message) => Err(message@),
                },
            ),
            r,
            old(dish)@,
            final(dish)@,
        ),
{
    match decoded {
        Ok(bytes) => {
            *dish = DishData::Bin(bytes);
            Ok(())
        },
        Err(message) => Err(DishError(join2("base64 decode error: ", message.as_str()))),
    }
}

/// What the language knows of `from-base64`.
pub open spec fn from_base64_info() -> OperationInfoV {
    OperationInfoV {
        name: "from-base64"@,
        description: "converts from base64"@,
        authors: seq!["s-viour"@],
        category: "Data Format"@,
        arguments: Seq::empty(),
        op: Operation::FromBase64,
    }
}

/// Describes `from-base64`.
pub fn opinfo_from_base64() -> (r: OperationInfo)
    ensures
        r@ == from_base64_info(),
{
    let r = OperationInfo {
        name: "from-base64",
        description: "converts from base64",
        authors: vec!["s-viour"],
        category: "Data Format",
        arguments: Vec::new(),
        op: Operation::FromBase64,
    };
    assert(r@.authors =~= from_base64_info().authors);
    assert(r@.arguments =~= from_base64_info().arguments);
    r
}

/// Decodes the text of the dish from base64.
pub fn from_base64(args: &OperationArguments, dish: &mut DishData) -> (r: DishResult)
    ensures
        holds(from_base64_outcome(old(dish)@), r, old(dish)@, final(dish)@),
{
    let decoded = match dish {
        DishData::Str(s) => base64_decode(s.as_str().as_bytes()),
        DishData::Bin(_) => {
            return failure("cannot convert binary data from base64");
        },
    };
    finish_from_base64(decoded, dish)
}

/// What `to-base64` makes of the data: its bytes in base64.
pub open spec fn to_base64_outcome(data: DishDataV) -> Result<DishDataV, Seq<char>> {
    Ok(DishDataV::Str(base64_encoded(data.bytes())))
}

/// What the language knows of `to-base64`.
pub open spec fn to_base64_info() -> OperationInfoV {
    OperationInfoV {
        name: "to-base64"@,
        description: "converts to base64"@,
        authors: seq!["s-viour"@],
        category: "Data Format"@,
        arguments: Seq::empty(),
        op: Operation::ToBase64,
    }
}

/// Describes `to-base64`.
pub fn opinfo_to_base64() -> (r: OperationInfo)
    ensures
        r@ == to_base64_info(),
{
    let r = OperationInfo {
        name: "to-base64",
        description: "converts to base64",
        authors: vec!["s-viour"],
        category: "Data Format",
        arguments: Vec::new(),
        op: Operation::ToBase64,
    };
    assert(r@.authors =~= to_base64_info().authors);
    assert(r@.arguments =~= to_base64_info().arguments);
    r
}

/// Encodes the dish in base64.
pub fn to_base64(args: &OperationArguments, dish: &mut DishData) -> (r: DishResult)
    ensures
        holds(to_base64_outcome(old(dish)@), r, old(dish)@, final(dish)@),
{
    let encoded = base64_encode(dish.as_bytes());
    *dish = DishData::Str(encoded);
    Ok(())
}

// ---------------------------------------------------------------------------
// Writing bytes in a radix
// ---------------------------------------------------------------------------
/// Each of `bytes` written in `radix`.
pub open spec fn radix_words(bytes: Seq<u8>, radix: nat) -> Seq<Seq<char>> {
    Seq::new(bytes.len(), |i: int| radix_text(bytes[i] as nat, radix))
}

/// What writing the data in `radix` makes of it: each of its bytes in that
/// radix, with single spaces between them.
pub open spec fn to_radix_text(data: DishDataV, radix: nat) -> Result<DishDataV, Seq<char>> {
    Ok(DishDataV::Str(joined(radix_words(data.bytes(), radix), " "@, data.bytes().len())))
}

/// Writes a byte in a radix.
///
/// Trusted: formats `radix_fmt::radix(x, base)`, which the crate documents
/// as the number in that base, with the digits `0`..`9` and `a`..`z`, most
/// significant first. The crate refuses a base outside 2 to 36.
#[verifier::external_body]
fn radix_formatted(x: u8, base: u8) -> (r: String)
    requires
        2 <= base <= 36,
    ensures
        r@ == radix_text(x as nat, base as nat),
{
    format!("{}", radix_fmt::radix(x, base))
}

/// Writes the dish in `radix`: 2, 8, 10 and 16 by the library's own
/// formatter, the others by `radix_fmt`.
fn write_radix(dish: &mut DishData, radix: u8) -> (r: DishResult)
    requires
        2 <= radix <= 36,
    ensures
        holds(to_radix_text(old(dish)@, radix as nat), r, old(dish)@, final(dish)@),
{
    let bytes = dish.as_bytes();
    let mut parts: Vec<String> = Vec::new();
    let mut i: usize = 0;
    while i < bytes.len()
        invariant
            i <= bytes@.len(),
            2 <= radix <= 36,
            parts@.len() == i,
            forall|j: int| 0 <= j < i ==> parts@[j]@ == radix_text(bytes@[j] as nat, radix as nat),
        decreases bytes.len() - i,
    {
        let part = if radix == 2 || radix == 8 || radix == 10 || radix == 16 {
            format_radix(bytes[i] as u64, radix as u64)
        } else {
            radix_formatted(bytes[i], radix)
        };
        parts.push(part);
        i = i + 1;
    }
    assert(texts(parts@) =~= radix_words(bytes@, radix as nat));
    let text = join_all(&parts, " ");
    *dish = DishData::Str(text);
    Ok(())
}

/// What `to-decimal` makes of the data.
pub open spec fn to_decimal_outcome(data: DishDataV) -> Result<DishDataV, Seq<char>> {
    to_radix_text(data, 10)
}

/// What `to-octal` makes of the data.
pub open spec fn to_octal_outcome(data: DishDataV) -> Result<DishDataV, Seq<char>> {
    to_radix_text(data, 8)
}

/// What `to-hex` makes of the data.
pub open spec fn to_hex_outcome(data: DishDataV) -> Result<DishDataV, Seq<char>> {
    to_radix_text(data, 16)
}

/// What `to-binary` makes of the data.
pub open spec fn to_binary_outcome(data: DishDataV) -> Result<DishDataV, Seq<char>> {
    to_radix_text(data, 2)
}

/// The text of the error of a conversion between integer types that does
/// not fit.
pub open spec fn out_of_range() -> Seq<char> {
    "invalid radix. out of range integral type conversion attempted"@
}

/// The error for a radix that cannot be written or read.
pub open spec fn unsupported_radix(radix: int) -> Seq<char>
    recommends
        radix >= 0,
{
    "unsupported radix `"@ + decimal_text(radix as nat) + "`"@
}

/// What `to-radix` makes of the data: its bytes written in the radix of the
/// argument `radix`, which must be one from 2 to 36.
pub open spec fn to_radix_outcome(
    args: Option<Map<Seq<char>, OperationArgV>>,
    data: DishDataV,
) -> Result<DishDataV, Seq<char>> {
    match integer_argument(args, "radix"@) {
        Err(e) => Err(e),
        Ok(radix) => if radix < 0 || radix > 255 {
            Err(out_of_range())
        } else if radix < 2 || radix > 36 {
            Err(unsupported_radix(radix as int))
        } else {
            to_radix_text(data, radix as nat)
        },
    }
}

/// What the language knows of `to-decimal`.
pub open spec fn to_decimal_info() -> OperationInfoV {
    OperationInfoV {
        name: "to-decimal"@,
        description: "converts data to a decimal string"@,
        authors: seq!["s-viour"@],
        category: "Data Format"@,
        arguments: Seq::empty(),
        op: Operation::ToDecimal,
    }
}

/// Describes `to-decimal`.
pub fn opinfo_to_decimal() -> (r: OperationInfo)
    ensures
        r@ == to_decimal_info(),
{
    let r = OperationInfo {
        name: "to-decimal",
        description: "converts data to a decimal string",
        authors: vec!["s-viour"],
        category: "Data Format",
        arguments: Vec::new(),
        op: Operation::ToDecimal,
    };
    assert(r@.authors =~= to_decimal_info().authors);
    assert(r@.arguments =~= to_decimal_info().arguments);
    r
}

/// Writes the bytes of the dish in decimal.
pub fn to_decimal(args: &OperationArguments, dish: &mut DishData) -> (r: DishResult)
    ensures
        holds(to_decimal_outcome(old(dish)@), r, old(dish)@, final(dish)@),
{
    write_radix(dish, 10)
}

/// What the language knows of `to-octal`.
pub open spec fn to_octal_info() -> OperationInfoV {
    OperationInfoV {
        name: "to-octal"@,
        description: "converts data to an octal string"@,
        authors: seq!["s-viour"@],
        category: "Data Format"@,
        arguments: Seq::empty(),
        op: Operation::ToOctal,
    }
}

/// Describes `to-octal`.
pub fn opinfo_to_octal() -> (r: OperationInfo)
    ensures
        r@ == to_octal_info(),
{
    let r = OperationInfo {
        name: "to-octal",
        description: "converts data to an octal string",
        authors: vec!["s-viour"],
        category: "Data Format",
        arguments: Vec::new(),
        op: Operation::ToOctal,
    };
    assert(r@.authors =~= to_octal_info().authors);
    assert(r@.arguments =~= to_octal_info().arguments);
    r
}

/// Writes the bytes of the dish in octal.
pub fn to_octal(args: &OperationArguments, dish: &mut DishData) -> (r: DishResult)
    ensures
        holds(to_octal_outcome(old(dish)@), r, old(dish)@, final(dish)@),
{
    write_radix(dish, 8)
}

/// What the language knows of `to-hex`.
pub open spec fn to_hex_info() -> OperationInfoV {
    OperationInfoV {
        name: "to-hex"@,
        description: "converts data into a hexadecimal encoded string"@,
        authors: seq!["s-viour"@],
        category: "Data Format"@,
        arguments: Seq::empty(),
        op: Operation::ToHex,
    }
}

/// Describes `to-hex`.
pub fn opinfo_to_hex() -> (r: OperationInfo)
    ensures
        r@ == to_hex_info(),
{
    let r = OperationInfo {
        name: "to-hex",
        description: "converts data into a hexadecimal encoded string",
        authors: vec!["s-viour"],
        category: "Data Format",
        arguments: Vec::new(),
        op: Operation::ToHex,
    };
    assert(r@.authors =~= to_hex_info().authors);
    assert(r@.arguments =~= to_hex_info().arguments);
    r
}

/// Writes the bytes of the dish in hexadecimal.
pub fn to_hex(args: &OperationArguments, dish: &mut DishData) -> (r: DishResult)
    ensures
        holds(to_hex_outcome(old(dish)@), r, old(dish)@, final(dish)@),
{
    write_radix(dish, 16)
}

/// What the language knows of `to-binary`.
pub open spec fn to_binary_info() -> OperationInfoV {
    OperationInfoV {
        name: "to-binary"@,
        description: "converts data into a binary-encoded string"@,
        authors: seq!["s-viour"@],
        category: "Data Format"@,
        arguments: Seq::empty(),
        op: Operation::ToBinary,
    }
}

/// Describes `to-binary`.
pub fn opinfo_to_binary() -> (r: OperationInfo)
    ensures
        r@ == to_binary_info(),
{
    let r = OperationInfo {
        name: "to-binary",
        description: "converts data into a binary-encoded string",
        authors: vec!["s-viour"],
        category: "Data Format",
        arguments: Vec::new(),
        op: Operation::ToBinary,
    };
    assert(r@.authors =~= to_binary_info().authors);
    assert(r@.arguments =~= to_binary_info().arguments);
    r
}

/// Writes the bytes of the dish in binary.
pub fn to_binary(args: &OperationArguments, dish: &mut DishData) -> (r: DishResult)
    ensures
        holds(to_binary_outcome(old(dish)@), r, old(dish)@, final(dish)@),
{
    write_radix(dish, 2)
}

/// What the language knows of `to-radix`.
pub open spec fn to_radix_info() -> OperationInfoV {
    OperationInfoV {
        name: "to-radix"@,
        description: "converts data into an encoded string of a given radix"@,
        authors: seq!["s-viour"@],
        category: "Data Format"@,
        arguments: seq![("radix"@, OperationArgType::Integer)],
        op: Operation::ToRadix,
    }
}

/// Describes `to-radix`.
pub fn opinfo_to_radix() -> (r: OperationInfo)
    ensures
        r@ == to_radix_info(),
{
    let r = OperationInfo {
        name: "to-radix",
        description: "converts data into an encoded string of a given radix",
        authors: vec!["s-viour"],
        category: "Data Format",
        arguments: vec![("radix", OperationArgType::Integer)],
        op: Operation::ToRadix,
    };
    assert(r@.authors =~= to_radix_info().authors);
    assert(r@.arguments =~= to_radix_info().arguments);
    r
}

/// Writes the bytes of the dish in the radix of the argument `radix`.
pub fn to_radix(args: &OperationArguments, dish: &mut DishData) -> (r: DishResult)
    ensures
        holds(to_radix_outcome(args@, old(dish)@), r, old(dish)@, final(dish)@),
{
    let radix = match args.get_integer("radix") {
        Err(e) => {
            return Err(e);
        },
        Ok(n) => n,
    };
    if radix < 0 || radix > 255 {
        return failure("invalid radix. out of range integral type conversion attempted");
    }
    if radix < 2 || radix > 36 {
        let number = format_decimal(radix as usize);
        return Err(DishError(join3("unsupported radix `", number.as_str(), "`")));
    }
    write_radix(dish, radix as u8)
}

// ---------------------------------------------------------------------------
// Reading bytes in a radix
// ---------------------------------------------------------------------------
/// The value of `c` as a digit in `radix`: `0`..`9`, then the letters in
/// either case; nothing where `c` is no digit of that radix.
pub open spec fn digit_in_radix(c: char, radix: nat) -> Option<nat> {
    let v: nat = if '0' <= c <= '9' {
        (c as u32 - 48) as nat
    } else if 'a' <= c <= 'z' {
        (c as u32 - 87) as nat
    } else if 'A' <= c <= 'Z' {
        (c as u32 - 55) as nat
    } else {
        36
    };
    if v < radix {
        Some(v)
    } else {
        None
    }
}

/// The byte that the digits of `w` from `i` on write behind `acc`. What
/// is no digit is an error, and so is a value above 255, whichever comes
/// first.
pub open spec fn parse_digits(w: Seq<char>, radix: nat, i: int, acc: nat) -> Result<u8, Seq<char>>
    decreases w.len() - i,
{
    if i < 0 || i >= w.len() {
        Ok(acc as u8)
    } else {
        match digit_in_radix(w[i], radix) {
            None => Err("invalid digit found in string"@),
            Some(d) => if acc * radix + d > 255 {
                Err("number too large to fit in target type"@)
            } else {
                parse_digits(w, radix, i + 1, acc * radix + d)
            },
        }
    }
}

/// The byte that the word `w` writes in `radix`: digits, with a `+` before
/// them where there is one.
pub open spec fn parse_byte(w: Seq<char>, radix: nat) -> Result<u8, Seq<char>> {
    if w.len() == 0 {
        Err("cannot parse integer from empty string"@)
    } else if w.len() == 1 && (w[0] == '+' || w[0] == '-') {
        Err("invalid digit found in string"@)
    } else if w[0] == '+' {
        parse_digits(w, radix, 1, 0)
    } else {
        parse_digits(w, radix, 0, 0)
    }
}

/// The bytes that the first `n` of `list` write, or the error of the first
/// word that writes none.
pub open spec fn parse_bytes(list: Seq<Seq<char>>, radix: nat, n: nat) -> Result<
    Seq<u8>,
    Seq<char>,
>
    decreases n,
{
    if n == 0 || n > list.len() {
        Ok(Seq::empty())
    } else {
        match parse_bytes(list, radix, (n - 1) as nat) {
            Err(e) => Err(e),
            Ok(bytes) => match parse_byte(list[n - 1], radix) {
                Err(e) => Err(e),
                Ok(b) => Ok(bytes.push(b)),
            },
        }
    }
}

/// What reading the data in `radix` makes of it: the words of the text
/// are read as bytes; the bytes become text where they are UTF-8, and stay
/// bytes where they are not. Data that is bytes already is refused, and
/// so are words in a radix that is none from 2 to 36.
pub open spec fn from_radix_text(data: DishDataV, radix: nat) -> Result<DishDataV, Seq<char>> {
    match data {
        DishDataV::Bin(_) => Err("cannot convert binary data from radix "@ + decimal_text(radix)),
        DishDataV::Str(s) => if words(s).len() == 0 {
            Ok(DishDataV::Str(Seq::empty()))
        } else if radix < 2 || radix > 36 {
            Err(unsupported_radix(radix as int))
        } else {
            match parse_bytes(words(s), radix, words(s).len()) {
                Err(e) => Err(e),
                Ok(bytes) => if valid_utf8(bytes) {
                    Ok(DishDataV::Str(decode_utf8(bytes)))
                } else {
                    Ok(DishDataV::Bin(bytes))
                },
            }
        },
    }
}

fn digit_value_in(c: char, radix: u32) -> (r: Option<u32>)
    requires
        2 <= radix <= 36,
    ensures
        match digit_in_radix(c, radix as nat) {
            Some(d) => r == Some(d as u32),
            None => r is None,
        },
{
    let v: u32 = if '0' <= c && c <= '9' {
        c as u32 - 48
    } else if 'a' <= c && c <= 'z' {
        c as u32 - 87
    } else if 'A' <= c && c <= 'Z' {
        c as u32 - 55
    } else {
        36
    };
    if v < radix {
        Some(v)
    } else {
        None
    }
}

/// Reads the byte that a word writes in `radix`.
pub fn read_byte_in_radix(word: &Vec<char>, radix: u32) -> (r: Result<u8, DishError>)
    requires
        2 <= radix <= 36,
    ensures
        match parse_byte(word@, radix as nat) {
            Ok(b) => r == Ok::<u8, DishError>(b),
            Err(e) => r is Err && r->Err_0@ == e,
        },
{
    if word.len() == 0 {
        return Err(DishError(String::from_str("cannot parse integer from empty string")));
    }
    if word.len() == 1 && (word[0] == '+' || word[0] == '-') {
        return Err(DishError(String::from_str("invalid digit found in string")));
    }
    let mut i: usize = if word[0] == '+' {
        1
    } else {
        0
    };
    let mut acc: u32 = 0;
    let ghost start = i as int;
    while i < word.len()
        invariant
            i <= word.len(),
            2 <= radix <= 36,
            acc <= 255,
            parse_byte(word@, radix as nat) == parse_digits(word@, radix as nat, start, 0),
            parse_digits(word@, radix as nat, start, 0) == parse_digits(
                word@,
                radix as nat,
                i as int,
                acc as nat,
            ),
        decreases word.len() - i,
    {
        match digit_value_in(word[i], radix) {
            None => {
                return Err(DishError(String::from_str("invalid digit found in string")));
            },
            Some(d) => {
                assert(acc * radix <= 255 * 36) by (nonlinear_arith)
                    requires
                        acc <= 255,
                        radix <= 36,
                ;
                let next: u32 = acc * radix + d;
                if next > 255 {
                    return Err(
                        DishError(String::from_str("number too large to fit in target type")),
                    );
                }
                acc = next;
            },
        }
        i = i + 1;
    }
    Ok(acc as u8)
}

/// Reads the text of the dish as bytes written in `radix`.
pub fn from_radix_helper(radix: u32, dish: &mut DishData) -> (r: DishResult)
    ensures
        holds(from_radix_text(old(dish)@, radix as nat), r, old(dish)@, final(dish)@),
{
    let list = match dish {
        DishData::Str(s) => split_words(s.as_str()),
        DishData::Bin(_) => {
            let number = format_decimal(radix as usize);
            return Err(
                DishError(join2("cannot convert binary data from radix ", number.as_str())),
            );
        },
    };
    let ghost views = words(dish@->Str_0);
    if list.len() == 0 {
        *dish = DishData::Str(String::new());
        return Ok(());
    }
    if radix < 2 || radix > 36 {
        let number = format_decimal(radix as usize);
        return Err(DishError(join3("unsupported radix `", number.as_str(), "`")));
    }
    let mut bytes: Vec<u8> = Vec::new();
    let mut i: usize = 0;
    while i < list.len()
        invariant
            i <= list.len(),
            2 <= radix <= 36,
            views == crate::text::word_views(list@),
            dish@ == old(dish)@,
            dish@ is Str,
            views == words(dish@->Str_0),
            parse_bytes(views, radix as nat, i as nat) == Ok::<Seq<u8>, Seq<char>>(bytes@),
        decreases list.len() - i,
    {
        assert(views[i as int] == list@[i as int]@);
        match read_byte_in_radix(&list[i], radix) {
            Err(e) => {
                proof {
                    lemma_parse_bytes_error(views, radix as nat, (i + 1) as nat, list.len() as nat);
                }
                return Err(e);
            },
            Ok(b) => {
                bytes.push(b);
            },
        }
        i = i + 1;
    }
    match string_from_utf8(bytes.clone()) {
        Some(s) => {
            *dish = DishData::Str(s);
        },
        None => {
            *dish = DishData::Bin(bytes);
        },
    }
    Ok(())
}

/// An error among the first words is the error of the whole list.
pub proof fn lemma_parse_bytes_error(list: Seq<Seq<char>>, radix: nat, n: nat, m: nat)
    requires
        n <= m <= list.len(),
        parse_bytes(list, radix, n) is Err,
    ensures
        parse_bytes(list, radix, m) == parse_bytes(list, radix, n),
    decreases m,
{
    if n < m {
        lemma_parse_bytes_error(list, radix, n, (m - 1) as nat);
    }
}

/// What `from-decimal` makes of the data.
pub open spec fn from_decimal_outcome(data: DishDataV) -> Result<DishDataV, Seq<char>> {
    from_radix_text(data, 10)
}

/// What `from-octal` makes of the data.
pub open spec fn from_octal_outcome(data: DishDataV) -> Result<DishDataV, Seq<char>> {
    from_radix_text(data, 8)
}

/// What `from-hex` makes of the data.
pub open spec fn from_hex_outcome(data: DishDataV) -> Result<DishDataV, Seq<char>> {
    from_radix_text(data, 16)
}

/// What `from-binary` makes of the data.
pub open spec fn from_binary_outcome(data: DishDataV) -> Result<DishDataV, Seq<char>> {
    from_radix_text(data, 2)
}

/// What `from-radix` makes of the data: its words read in the radix of the
/// argument `radix`.
pub open spec fn from_radix_outcome(
    args: Option<Map<Seq<char>, OperationArgV>>,
    data: DishDataV,
) -> Result<DishDataV, Seq<char>> {
    match integer_argument(args, "radix"@) {
        Err(e) => Err(e),
        Ok(radix) => if radix < 0 || radix > u32::MAX {
            Err(out_of_range())
        } else {
            from_radix_text(data, radix as nat)
        },
    }
}

/// What the language knows of `from-decimal`.
pub open spec fn from_decimal_info() -> OperationInfoV {
    OperationInfoV {
        name: "from-decimal"@,
        description: "converts a decimal-encoded string to its raw form"@,
        authors: seq!["s-viour"@],
        category: "Data Format"@,
        arguments: Seq::empty(),
        op: Operation::FromDecimal,
    }
}

/// Describes `from-decimal`.
pub fn opinfo_from_decimal() -> (r: OperationInfo)
    ensures
        r@ == from_decimal_info(),
{
    let r = OperationInfo {
        name: "from-decimal",
        description: "converts a decimal-encoded string to its raw form",
        authors: vec!["s-viour"],
        category: "Data Format",
        arguments: Vec::new(),
        op: Operation::FromDecimal,
    };
    assert(r@.authors =~= from_decimal_info().authors);
    assert(r@.arguments =~= from_decimal_info().arguments);
    r
}

/// Reads the text of the dish as bytes written in decimal.
pub fn from_decimal(args: &OperationArguments, dish: &mut DishData) -> (r: DishResult)
    ensures
        holds(from_decimal_outcome(old(dish)@), r, old(dish)@, final(dish)@),
{
    from_radix_helper(10, dish)
}

/// What the language knows of `from-octal`.
pub open spec fn from_octal_info() -> OperationInfoV {
    OperationInfoV {
        name: "from-octal"@,
        description: "converts an octal-encoded string to its raw form"@,
        authors: seq!["s-viour"@],
        category: "Data Format"@,
        arguments: Seq::empty(),
        op: Operation::FromOctal,
    }
}

/// Describes `from-octal`.
pub fn opinfo_from_octal() -> (r: OperationInfo)
    ensures
        r@ == from_octal_info(),
{
    let r = OperationInfo {
        name: "from-octal",
        description: "converts an octal-encoded string to its raw form",
        authors: vec!["s-viour"],
        category: "Data Format",
        arguments: Vec::new(),
        op: Operation::FromOctal,
    };
    assert(r@.authors =~= from_octal_info().authors);
    assert(r@.arguments =~= from_octal_info().arguments);
    r
}

/// Reads the text of the dish as bytes written in octal.
pub fn from_octal(args: &OperationArguments, dish: &mut DishData) -> (r: DishResult)
    ensures
        holds(from_octal_outcome(old(dish)@), r, old(dish)@, final(dish)@),
{
    from_radix_helper(8, dish)
}

/// What the language knows of `from-hex`.
pub open spec fn from_hex_info() -> OperationInfoV {
    OperationInfoV {
        name: "from-hex"@,
        description: "converts a hexadecimal encoded string into its raw form"@,
        authors: seq!["s-viour"@],
        category: "Data Format"@,
        arguments: Seq::empty(),
        op: Operation::FromHex,
    }
}

/// Describes `from-hex`.
pub fn opinfo_from_hex() -> (r: OperationInfo)
    ensures
        r@ == from_hex_info(),
{
    let r = OperationInfo {
        name: "from-hex",
        description: "converts a hexadecimal encoded string into its raw form",
        authors: vec!["s-viour"],
        category: "Data Format",
        arguments: Vec::new(),
        op: Operation::FromHex,
    };
    assert(r@.authors =~= from_hex_info().authors);
    assert(r@.arguments =~= from_hex_info().arguments);
    r
}

/// Reads the text of the dish as bytes written in hexadecimal.
pub fn from_hex(args: &OperationArguments, dish: &mut DishData) -> (r: DishResult)
    ensures
        holds(from_hex_outcome(old(dish)@), r, old(dish)@, final(dish)@),
{
    from_radix_helper(16, dish)
}

/// What the language knows of `from-binary`.
pub open spec fn from_binary_info() -> OperationInfoV {
    OperationInfoV {
        name: "from-binary"@,
        description: "converts a binary encoded string into its raw form"@,
        authors: seq!["s-viour"@],
        category: "Data Format"@,
        arguments: Seq::empty(),
        op: Operation::FromBinary,
    }
}

/// Describes `from-binary`.
pub fn opinfo_from_binary() -> (r: OperationInfo)
    ensures
        r@ == from_binary_info(),
{
    let r = OperationInfo {
        name: "from-binary",
        description: "converts a binary encoded string into its raw form",
        authors: vec!["s-viour"],
        category: "Data Format",
        arguments: Vec::new(),
        op: Operation::FromBinary,
    };
    assert(r@.authors =~= from_binary_info().authors);
    assert(r@.arguments =~= from_binary_info().arguments);
    r
}

/// Reads the text of the dish as bytes written in binary.
pub fn from_binary(args: &OperationArguments, dish: &mut DishData) -> (r: DishResult)
    ensures
        holds(from_binary_outcome(old(dish)@), r, old(dish)@, final(dish)@),
{
    from_radix_helper(2, dish)
}

/// What the language knows of `from-radix`.
pub open spec fn from_radix_info() -> OperationInfoV {
    OperationInfoV {
        name: "from-radix"@,
        description: "converts data in a given radix back into its raw form"@,
        authors: seq!["s-viour"@],
        category: "Data Format"@,
        arguments: seq![("radix"@, OperationArgType::Integer)],
        op: Operation::FromRadix,
    }
}

/// Describes `from-radix`.
pub fn opinfo_from_radix() -> (r: OperationInfo)
    ensures
        r@ == from_radix_info(),
{
    let r = OperationInfo {
        name: "from-radix",
        description: "converts data in a given radix back into its raw form",
        authors: vec!["s-viour"],
        category: "Data Format",
        arguments: vec![("radix", OperationArgType::Integer)],
        op: Operation::FromRadix,
    };
    assert(r@.authors =~= from_radix_info().authors);
    assert(r@.arguments =~= from_radix_info().arguments);
    r
}

/// Reads the text of the dish as bytes written in the radix of the
/// argument `radix`.
pub fn from_radix(args: &OperationArguments, dish: &mut DishData) -> (r: DishResult)
    ensures
        holds(from_radix_outcome(args@, old(dish)@), r, old(dish)@, final(dish)@),
{
    let radix = match args.get_integer("radix") {
        Err(e) => {
            return Err(e);
        },
        Ok(n) => n,
    };
    if radix < 0 || radix > 0xffff_ffff {
        return failure("invalid radix. out of range integral type conversion attempted");
    }
    from_radix_helper(radix as u32, dish)
}

// ---------------------------------------------------------------------------
// Regular expressions
// ---------------------------------------------------------------------------
/// The text of the error that the crate `regex` finds in a pattern, or
/// nothing where the pattern is one.
pub uninterp spec fn regex_syntax_error(pattern: Seq<char>) -> Option<Seq<char>>;

/// The matches of a pattern in a text, from left to right, none overlapping
/// another, as the crate `regex` finds them.
pub uninterp spec fn regex_found(pattern: Seq<char>, text: Seq<char>) -> Seq<Seq<char>>;

/// The text with every match of the pattern replaced, as the crate `regex`
/// does it; `$` and a name or number in the replacement stand for a group
/// of the match.
pub uninterp spec fn regex_replaced(
    pattern: Seq<char>,
    text: Seq<char>,
    replacement: Seq<char>,
) -> Seq<char>;

/// Checks a pattern.
///
/// Trusted: calls `regex::Regex::new` and takes the text of its error; the
/// contract only names the result.
#[verifier::external_body]
fn regex_check(pattern: &str) -> (r: Option<String>)
    ensures
        match regex_syntax_error(pattern@) {
            Some(message) => r is Some && r->Some_0@ == message,
            None => r is None,
        },
{
    match regex::Regex::new(pattern) {
        Ok(_) => None,
        Err(e) => Some(e.to_string()),
    }
}

/// Finds the matches of a pattern.
///
/// Trusted: calls `regex::Regex::find_iter` on the compiled pattern and
/// copies each match; the contract only names the result. A pattern that
/// does not compile is left out.
#[verifier::external_body]
fn regex_find_all(pattern: &str, text: &str) -> (r: Vec<String>)
    requires
        regex_syntax_error(pattern@) is None,
    ensures
        texts(r@) == regex_found(pattern@, text@),
{
    let re = regex::Regex::new(pattern).unwrap();
    re.find_iter(text).map(|m| m.as_str().to_string()).collect()
}

/// Replaces the matches of a pattern.
///
/// Trusted: calls `regex::Regex::replace_all` on the compiled pattern; the
/// contract only names the result. A pattern that does not compile is left
/// out.
#[verifier::external_body]
fn regex_replace_all(pattern: &str, text: &str, replacement: &str) -> (r: String)
    requires
        regex_syntax_error(pattern@) is None,
    ensures
        r@ == regex_replaced(pattern@, text@, replacement@),
{
    let re = regex::Regex::new(pattern).unwrap();
    re.replace_all(text, replacement).into_owned()
}

/// What `regex-match` makes of the data: the matches of the argument
/// `pattern` in the text, one on each line.
pub open spec fn regex_match_outcome(
    args: Option<Map<Seq<char>, OperationArgV>>,
    data: DishDataV,
) -> Result<DishDataV, Seq<char>> {
    match string_argument(args, "pattern"@) {
        Err(e) => Err(e),
        Ok(pattern) => match regex_syntax_error(pattern) {
            Some(message) => Err(message),
            None => match data {
                DishDataV::Bin(_) => Err("dish should be string, got binary"@),
                DishDataV::Str(s) => Ok(
                    DishDataV::Str(
                        joined(regex_found(pattern, s), "\n"@, regex_found(pattern, s).len()),
                    ),
                ),
            },
        },
    }
}

/// What the language knows of `regex-match`.
pub open spec fn regex_match_info() -> OperationInfoV {
    OperationInfoV {
        name: "regex-match"@,
        description: "finds substrings that match regex"@,
        authors: seq!["Egggggg"@],
        category: "Data Format"@,
        arguments: seq![("pattern"@, OperationArgType::String)],
        op: Operation::RegexMatch,
    }
}

/// Describes `regex-match`.
pub fn opinfo_regex_match() -> (r: OperationInfo)
    ensures
        r@ == regex_match_info(),
{
    let r = OperationInfo {
        name: "regex-match",
        description: "finds substrings that match regex",
        authors: vec!["Egggggg"],
        category: "Data Format",
        arguments: vec![("pattern", OperationArgType::String)],
        op: Operation::RegexMatch,
    };
    assert(r@.authors =~= regex_match_info().authors);
    assert(r@.arguments =~= regex_match_info().arguments);
    r
}

/// Replaces the text of the dish by the matches of the argument `pattern`
/// in it.
pub fn regex_match(args: &OperationArguments, dish: &mut DishData) -> (r: DishResult)
    ensures
        holds(regex_match_outcome(args@, old(dish)@), r, old(dish)@, final(dish)@),
{
    let pattern = match args.get_string("pattern") {
        Err(e) => {
            return Err(e);
        },
        Ok(p) => p,
    };
    match regex_check(pattern.as_str()) {
        Some(message) => {
            return Err(DishError(message));
        },
        None => {},
    }
    let found = match dish {
        DishData::Str(s) => regex_find_all(pattern.as_str(), s.as_str()),
        DishData::Bin(_) => {
            return failure("dish should be string, got binary");
        },
    };
    *dish = DishData::Str(join_all(&found, "\n"));
    Ok(())
}

/// What `regex-replace` makes of the data: the text with every match of
/// the argument `pattern` replaced by the argument `replacement`.
pub open spec fn regex_replace_outcome(
    args: Option<Map<Seq<char>, OperationArgV>>,
    data: DishDataV,
) -> Result<DishDataV, Seq<char>> {
    match string_argument(args, "pattern"@) {
        Err(e) => Err(e),
        Ok(pattern) => match string_argument(args, "replacement"@) {
            Err(e) => Err(e),
            Ok(replacement) => match regex_syntax_error(pattern) {
                Some(message) => Err(message),
                None => match data {
                    DishDataV::Bin(_) => Err("dish should be string, got binary"@),
                    DishDataV::Str(s) => Ok(
                        DishDataV::Str(regex_replaced(pattern, s, replacement)),
                    ),
                },
            },
        },
    }
}

/// What the language knows of `regex-replace`.
pub open spec fn regex_replace_info() -> OperationInfoV {
    OperationInfoV {
        name: "regex-replace"@,
        description: "replaces substrings using regex groups"@,
        authors: seq!["Egggggg"@],
        category: "Data Format"@,
        arguments: seq![("pattern"@, OperationArgType::String), ("replacement"@, OperationArgType::String)],
        op: Operation::RegexReplace,
    }
}

/// Describes `regex-replace`.
pub fn opinfo_regex_replace() -> (r: OperationInfo)
    ensures
        r@ == regex_replace_info(),
{
    let r = OperationInfo {
        name: "regex-replace",
        description: "replaces substrings using regex groups",
        authors: vec!["Egggggg"],
        category: "Data Format",
        arguments: vec![("pattern", OperationArgType::String), ("replacement", OperationArgType::String)],
        op: Operation::RegexReplace,
    };
    assert(r@.authors =~= regex_replace_info().authors);
    assert(r@.arguments =~= regex_replace_info().arguments);
    r
}

/// Replaces every match of the argument `pattern` in the text of the dish
/// by the argument `replacement`.
pub fn regex_replace(args: &OperationArguments, dish: &mut DishData) -> (r: DishResult)
    ensures
        holds(regex_replace_outcome(args@, old(dish)@), r, old(dish)@, final(dish)@),
{
    let pattern = match args.get_string("pattern") {
        Err(e) => {
            return Err(e);
        },
        Ok(p) => p,
    };
    let replacement = match args.get_string("replacement") {
        Err(e) => {
            return Err(e);
        },
        Ok(p) => p,
    };
    match regex_check(pattern.as_str()) {
        Some(message) => {
            return Err(DishError(message));
        },
        None => {},
    }
    let replaced = match dish {
        DishData::Str(s) => regex_replace_all(pattern.as_str(), s.as_str(), replacement.as_str()),
        DishData::Bin(_) => {
            return failure("dish should be string, got binary");
        },
    };
    *dish = DishData::Str(replaced);
    Ok(())
}

} // verus!
