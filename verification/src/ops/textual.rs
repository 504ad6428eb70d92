//! Operations on text: rotating letters and reversing.

use vstd::prelude::*;
use crate::integer_argument;
use crate::ops::holds;
use crate::text::chars_of;
use crate::text::string_of;
use crate::DishData;
use crate::DishDataV;
use crate::DishResult;
use crate::OperationArgType;
use crate::OperationArgV;
use crate::OperationArguments;
use crate::OperationInfo;
use crate::OperationInfoV;
use crate::Operation;

verus! {

/// The remainder of `a` by 26 with the sign of `a`.
pub open spec fn signed_remainder_26(a: int) -> int {
    if a >= 0 {
        a % 26
    } else {
        -((-a) % 26)
    }
}

/// The byte `c` with its letter moved `n` places on in the alphabet:
/// an upper-case or lower-case ASCII letter is counted from the start of
/// its alphabet, and wraps around behind `Z` or `z`; any other byte stays.
/// A negative `n` leaves the alphabet at its start.
pub open spec fn rot_byte(n: i64, c: u8) -> u8 {
    if 65 <= c <= 90 {
        (signed_remainder_26(c + n - 65) + 65) as u8
    } else if 97 <= c <= 122 {
        (signed_remainder_26(c + n - 97) + 97) as u8
    } else {
        c
    }
}

/// The character `c` with its letter moved `n` places on.
pub open spec fn rot_char(n: i64, c: char) -> char {
    if c as u32 <= 127 {
        rot_byte(n, c as u8) as char
    } else {
        c
    }
}

/// What `rot13` makes of the data: every letter moved on by the argument
/// `n`.
pub open spec fn rot13_outcome(
    args: Option<Map<Seq<char>, OperationArgV>>,
    data: DishDataV,
) -> Result<DishDataV, Seq<char>> {
    match integer_argument(args, "n"@) {
        Err(e) => Err(e),
        Ok(n) => Ok(
            match data {
                DishDataV::Str(s) => DishDataV::Str(s.map_values(|c: char| rot_char(n, c))),
                DishDataV::Bin(b) => DishDataV::Bin(b.map_values(|c: u8| rot_byte(n, c))),
            },
        ),
    }
}

fn rotate(n: i64, c: u8) -> (r: u8)
    ensures
        r == rot_byte(n, c),
        r <= 127 || r == c,
{
    let base: i128 = if 65 <= c && c <= 90 {
        65
    } else if 97 <= c && c <= 122 {
        97
    } else {
        return c;
    };
    let a: i128 = c as i128 + n as i128 - base;
    let rem: i128 = if a >= 0 {
        (a as u128 % 26) as i128
    } else {
        -((((-a) as u128) % 26) as i128)
    };
    (rem + base) as u8
}

/// Moves the letters of every byte of `s` on by `n`.
pub fn rot13_helper_bin(n: i64, s: &mut Vec<u8>)
    ensures
        final(s)@ == old(s)@.map_values(|c: u8| rot_byte(n, c)),
{
    let mut i: usize = 0;
    let ghost before = s@;
    while i < s.len()
        invariant
            i <= s.len(),
            s.len() == before.len(),
            forall|j: int| 0 <= j < i ==> s@[j] == rot_byte(n, before[j]),
            forall|j: int| i <= j < s.len() ==> s@[j] == before[j],
        decreases s.len() - i,
    {
        let c = s[i];
        s[i] = rotate(n, c);
        i = i + 1;
    }
    assert(s@ =~= before.map_values(|c: u8| rot_byte(n, c)));
}

/// Moves the letters of `s` on by `n`.
pub fn rot13_helper_str(n: i64, s: &mut String)
    ensures
        final(s)@ == old(s)@.map_values(|c: char| rot_char(n, c)),
{
    let chars = chars_of(s.as_str());
    let mut out: Vec<char> = Vec::new();
    let mut i: usize = 0;
    while i < chars.len()
        invariant
            i <= chars.len(),
            out@.len() == i,
            forall|j: int| 0 <= j < i ==> out@[j] == rot_char(n, chars@[j]),
        decreases chars.len() - i,
    {
        let c = chars[i];
        if c as u32 <= 127 {
            out.push(rotate(n, c as u8) as char);
        } else {
            out.push(c);
        }
        i = i + 1;
    }
    assert(out@ =~= chars@.map_values(|c: char| rot_char(n, c)));
    *s = string_of(&out);
}

/// What the language knows of `rot13`.
pub open spec fn rot13_info() -> OperationInfoV {
    OperationInfoV {
        name: "rot13"@,
        description: "rotates characters in the input by the specified amount"@,
        authors: seq!["s-viour"@],
        category: "Textual"@,
        arguments: seq![("n"@, OperationArgType::Integer)],
        op: Operation::Rot13,
    }
}

/// Describes `rot13`.
pub fn opinfo_rot13() -> (r: OperationInfo)
    ensures
        r@ == rot13_info(),
{
    let r = OperationInfo {
        name: "rot13",
        description: "rotates characters in the input by the specified amount",
        authors: vec!["s-viour"],
        category: "Textual",
        arguments: vec![("n", OperationArgType::Integer)],
        op: Operation::Rot13,
    };
    assert(r@.authors =~= rot13_info().authors);
    assert(r@.arguments =~= rot13_info().arguments);
    r
}

/// Moves every letter of the dish on by the argument `n`.
pub fn rot13(args: &OperationArguments, dish: &mut DishData) -> (r: DishResult)
    ensures
        holds(rot13_outcome(args@, old(dish)@), r, old(dish)@, final(dish)@),
{
    let n = match args.get_integer("n") {
        Err(e) => {
            return Err(e);
        },
        Ok(n) => n,
    };
    match dish {
        DishData::Str(s) => {
            rot13_helper_str(n, s);
            Ok(())
        },
        DishData::Bin(b) => {
            rot13_helper_bin(n, b);
            Ok(())
        },
    }
}

/// What `reverse` makes of the data: its characters, or its bytes, from
/// the last to the first.
pub open spec fn reverse_outcome(data: DishDataV) -> Result<DishDataV, Seq<char>> {
    Ok(
        match data {
            DishDataV::Str(s) => DishDataV::Str(s.reverse()),
            DishDataV::Bin(b) => DishDataV::Bin(b.reverse()),
        },
    )
}

/// What the language knows of `reverse`.
pub open spec fn reverse_info() -> OperationInfoV {
    OperationInfoV {
        name: "reverse"@,
        description: "reverses the input"@,
        authors: seq!["s-viour"@],
        category: "Textual"@,
        arguments: Seq::empty(),
        op: Operation::Reverse,
    }
}

/// Describes `reverse`.
pub fn opinfo_reverse() -> (r: OperationInfo)
    ensures
        r@ == reverse_info(),
{
    let r = OperationInfo {
        name: "reverse",
        description: "reverses the input",
        authors: vec!["s-viour"],
        category: "Textual",
        arguments: Vec::new(),
        op: Operation::Reverse,
    };
    assert(r@.authors =~= reverse_info().authors);
    assert(r@.arguments =~= reverse_info().arguments);
    r
}

/// Reverses the dish.
pub fn reverse(args: &OperationArguments, dish: &mut DishData) -> (r: DishResult)
    ensures
        holds(reverse_outcome(old(dish)@), r, old(dish)@, final(dish)@),
{
    match dish {
        DishData::Str(s) => {
            let chars = chars_of(s.as_str());
            let mut out: Vec<char> = Vec::new();
            let mut i: usize = chars.len();
            while i > 0
                invariant
                    i <= chars.len(),
                    out@.len() == chars.len() - i,
                    forall|j: int| 0 <= j < out@.len() ==> out@[j] == chars@[chars.len() - 1 - j],
                decreases i,
            {
                i = i - 1;
                out.push(chars[i]);
            }
            assert(out@ =~= chars@.reverse());
            *s = string_of(&out);
            Ok(())
        },
        DishData::Bin(b) => {
            let mut out: Vec<u8> = Vec::new();
            let mut i: usize = b.len();
            while i > 0
                invariant
                    i <= b.len(),
                    out@.len() == b.len() - i,
                    forall|j: int| 0 <= j < out@.len() ==> out@[j] == b@[b.len() - 1 - j],
                decreases i,
            {
                i = i - 1;
                out.push(b[i]);
            }
            assert(out@ =~= b@.reverse());
            *b = out;
            Ok(())
        },
    }
}


/// There and back: moving the letters on by `n` and then by `m`, where
/// neither is negative and the two make up a whole number of alphabets,
/// gives every byte and every character back.
pub proof fn lemma_rot_there_and_back(n: i64, m: i64, b: u8, c: char)
    requires
        n >= 0,
        m >= 0,
        (n + m) % 26 == 0,
    ensures
        rot_byte(m, rot_byte(n, b)) == b,
        rot_char(m, rot_char(n, c)) == c,
{
    lemma_rot_byte_back(n, m, b);
    if c as u32 <= 127 {
        lemma_rot_byte_back(n, m, c as u8);
        let moved = rot_byte(n, c as u8);
        assert(moved <= 127);
        assert((moved as char) as u8 == moved);
    }
}

/// There and back, for one byte.
proof fn lemma_rot_byte_back(n: i64, m: i64, b: u8)
    requires
        n >= 0,
        m >= 0,
        (n + m) % 26 == 0,
    ensures
        rot_byte(m, rot_byte(n, b)) == b,
        65 <= b <= 90 ==> 65 <= rot_byte(n, b) <= 90,
        97 <= b <= 122 ==> 97 <= rot_byte(n, b) <= 122,
        !(65 <= b <= 90) && !(97 <= b <= 122) ==> rot_byte(n, b) == b,
{
    if 65 <= b <= 90 {
        lemma_turn_back(n as int, m as int, b - 65);
    } else if 97 <= b <= 122 {
        lemma_turn_back(n as int, m as int, b - 97);
    }
}

/// A place in the alphabet, moved on by `n` and then by `m`, is the place
/// it was.
proof fn lemma_turn_back(n: int, m: int, k: int)
    requires
        n >= 0,
        m >= 0,
        (n + m) % 26 == 0,
        0 <= k < 26,
    ensures
        0 <= (k + n) % 26 < 26,
        ((k + n) % 26 + m) % 26 == k,
{
    let q = (k + n) / 26;
    let r = (k + n) % 26;
    let w = (n + m) / 26;
    assert(k + n == 26 * q + r && 0 <= r < 26) by (nonlinear_arith)
        requires
            q == (k + n) / 26,
            r == (k + n) % 26,
    ;
    assert(n + m == 26 * w) by (nonlinear_arith)
        requires
            w == (n + m) / 26,
            (n + m) % 26 == 0,
    ;
    assert(r + m == 26 * (w - q) + k);
    assert((r + m) % 26 == k) by (nonlinear_arith)
        requires
            r + m == 26 * (w - q) + k,
            0 <= k < 26,
    ;
}

} // verus!
