//! Reading text into expressions: the tokenizer and the parser.
//!
//! The grammar:
//!
//! ```text
//! expr    := atom | list | quoted
//! list    := '(' expr* ')'
//! quoted  := "'" expr                  ; read as (quote expr)
//! atom    := bool | string | dish | bytes | number | symbol
//! bool    := "true" | "false"
//! string  := '"' any-but-quote* '"'
//! dish    := 'd' string | 'd' bytes
//! bytes   := '[' byte* ']'             ; separated by blanks or commas
//! number  := ["-"] digits ["." digits]
//! symbol  := first-char symbol-char*   ; first-char is no digit
//! ```

use vstd::prelude::*;
use vstd::string::StringExecFns;
use crate::lisp::DishStore;
use crate::lisp::Error;
use crate::lisp::ErrorKind;
use crate::lisp::ErrorV;
use crate::lisp::ExprV;
use crate::lisp::Expression;
use crate::lisp::models;
use crate::number::digit_value;
use crate::number::digits_of_text;
use crate::number::is_decimal_digit;
use crate::number::is_digit_run;
use crate::number::is_number_literal;
use crate::number::lemma_magnitude_first;
use crate::number::literal_number;
use crate::number::magnitude;
use crate::number::numeral_of_units;
use crate::number::Number;
use crate::text::chars_of;
use crate::text::is_white;
use crate::text::is_whitespace;
use crate::text::join3;
use crate::text::same_text;
use crate::text::string_of_range;
use crate::Dish;
use crate::DishDataV;
use crate::DishV;

verus! {

/// Whether `c` is alphabetic, as Unicode's derived property `Alphabetic`
/// says. The library asks this of characters above ASCII only.
pub uninterp spec fn is_alphabetic(c: char) -> bool;

/// Whether `c` is alphabetic or numeric, as Unicode's properties say. The
/// library asks this of characters above ASCII only.
pub uninterp spec fn is_alphanumeric(c: char) -> bool;

/// Trusted: `char::is_alphabetic` is a function of the character alone; the
/// contract only names its result.
pub assume_specification[ char::is_alphabetic ](c: char) -> (r: bool)
    ensures
        r == is_alphabetic(c),
;

/// Trusted: `char::is_alphanumeric` is a function of the character alone;
/// the contract only names its result.
pub assume_specification[ char::is_alphanumeric ](c: char) -> (r: bool)
    ensures
        r == is_alphanumeric(c),
;

/// A syntax error with the given message.
pub open spec fn syntax_error(message: Seq<char>) -> ErrorV {
    ErrorV { kind: ErrorKind::Syntax, message }
}

// ---------------------------------------------------------------------------
// Tokens
// ---------------------------------------------------------------------------
/// The characters that end a run of symbol or number characters.
pub open spec fn is_delimiter(c: char) -> bool {
    is_whitespace(c) || c == '(' || c == ')' || c == '"' || c == '\'' || c == '[' || c == ']'
}

/// The place of the first `c` in `s` at or behind `i`, or the length of `s`
/// where there is none.
pub open spec fn find_from(s: Seq<char>, c: char, i: int) -> int
    decreases s.len() - i,
{
    if i < 0 || i >= s.len() {
        s.len() as int
    } else if s[i] == c {
        i
    } else {
        find_from(s, c, i + 1)
    }
}

/// The end of the run of characters that starts at `i` and holds no
/// delimiter.
pub open spec fn run_end(s: Seq<char>, i: int) -> int
    decreases s.len() - i,
{
    if i < 0 || i >= s.len() || is_delimiter(s[i]) {
        i
    } else {
        run_end(s, i + 1)
    }
}

/// The end of the token that starts at `i`, where `s[i]` is no blank:
///   * a parenthesis or a quote mark is a token by itself;
///   * a string runs to its closing `"`, a byte list to its `]`, each
///     with a `d` before it where there is one;
///   * anything else runs to the next delimiter.
pub open spec fn token_end(s: Seq<char>, i: int) -> Result<int, ErrorV>
    recommends
        0 <= i < s.len(),
{
    let c = s[i];
    if c == '(' || c == ')' || c == '\'' {
        Ok(i + 1)
    } else if c == '"' {
        closing(s, i + 1, '"', "unterminated string"@)
    } else if c == '[' {
        closing(s, i + 1, ']', "unterminated byte list"@)
    } else if c == ']' {
        Err(syntax_error("unexpected `]`"@))
    } else if c == 'd' && i + 1 < s.len() && s[i + 1] == '"' {
        closing(s, i + 2, '"', "unterminated string"@)
    } else if c == 'd' && i + 1 < s.len() && s[i + 1] == '[' {
        closing(s, i + 2, ']', "unterminated byte list"@)
    } else {
        Ok(run_end(s, i + 1))
    }
}

/// The place behind the first `c` at or behind `i`; an error with the
/// given message where there is none.
pub open spec fn closing(s: Seq<char>, i: int, c: char, message: Seq<char>) -> Result<
    int,
    ErrorV,
> {
    let j = find_from(s, c, i);
    if j < s.len() {
        Ok(j + 1)
    } else {
        Err(syntax_error(message))
    }
}

/// The tokens of `s` from `i` on.
pub open spec fn tokens_from(s: Seq<char>, i: int) -> Result<Seq<Seq<char>>, ErrorV>
    decreases s.len() - i,
{
    if i < 0 || i >= s.len() {
        Ok(Seq::empty())
    } else if is_whitespace(s[i]) {
        tokens_from(s, i + 1)
    } else {
        match token_end(s, i) {
            Err(e) => Err(e),
            Ok(j) => if i < j <= s.len() {
                match tokens_from(s, j) {
                    Err(e) => Err(e),
                    Ok(rest) => Ok(seq![s.subrange(i, j)] + rest),
                }
            } else {
                Ok(Seq::empty())
            },
        }
    }
}

/// The tokens of a text: blanks separate them and are no token.
pub open spec fn tokens(s: Seq<char>) -> Result<Seq<Seq<char>>, ErrorV> {
    tokens_from(s, 0)
}

/// The texts of a list of tokens.
pub open spec fn token_views(v: Seq<String>) -> Seq<Seq<char>> {
    Seq::new(v.len(), |i: int| v[i]@)
}

/// The place of the first `c` at or behind `from`.
fn find_char(chars: &Vec<char>, c: char, from: usize) -> (r: usize)
    requires
        from <= chars.len(),
    ensures
        r == find_from(chars@, c, from as int),
        from <= r <= chars.len(),
{
    let mut j: usize = from;
    while j < chars.len() && chars[j] != c
        invariant
            from <= j <= chars.len(),
            find_from(chars@, c, from as int) == find_from(chars@, c, j as int),
        decreases chars.len() - j,
    {
        j = j + 1;
    }
    j
}

/// Whether `c` ends a run of symbol or number characters.
fn is_delimiter_char(c: char) -> (r: bool)
    ensures
        r == is_delimiter(c),
{
    is_white(c) || c == '(' || c == ')' || c == '"' || c == '\'' || c == '[' || c == ']'
}

/// The end of the run that starts at `from`.
fn find_run_end(chars: &Vec<char>, from: usize) -> (r: usize)
    requires
        from <= chars.len(),
    ensures
        r == run_end(chars@, from as int),
        from <= r <= chars.len(),
{
    let mut j: usize = from;
    while j < chars.len() && !is_delimiter_char(chars[j])
        invariant
            from <= j <= chars.len(),
            run_end(chars@, from as int) == run_end(chars@, j as int),
        decreases chars.len() - j,
    {
        j = j + 1;
    }
    j
}

/// The place behind the first `c` at or behind `from`.
fn find_closing(chars: &Vec<char>, from: usize, c: char, message: &str) -> (r: Result<
    usize,
    Error,
>)
    requires
        from <= chars.len(),
    ensures
        match closing(chars@, from as int, c, message@) {
            Ok(j) => r == Ok::<usize, Error>(j as usize) && from < j <= chars.len(),
            Err(e) => r is Err && r->Err_0@ == e,
        },
{
    let j = find_char(chars, c, from);
    if j < chars.len() {
        Ok(j + 1)
    } else {
        Err(Error::new(ErrorKind::Syntax, message))
    }
}

/// The end of the token that starts at `i`.
fn find_token_end(chars: &Vec<char>, i: usize) -> (r: Result<usize, Error>)
    requires
        i < chars.len(),
    ensures
        match token_end(chars@, i as int) {
            Ok(j) => r == Ok::<usize, Error>(j as usize) && i < j <= chars.len(),
            Err(e) => r is Err && r->Err_0@ == e,
        },
{
    let c = chars[i];
    if c == '(' || c == ')' || c == '\'' {
        Ok(i + 1)
    } else if c == '"' {
        find_closing(chars, i + 1, '"', "unterminated string")
    } else if c == '[' {
        find_closing(chars, i + 1, ']', "unterminated byte list")
    } else if c == ']' {
        Err(Error::new(ErrorKind::Syntax, "unexpected `]`"))
    } else if c == 'd' && i + 1 < chars.len() && chars[i + 1] == '"' {
        find_closing(chars, i + 2, '"', "unterminated string")
    } else if c == 'd' && i + 1 < chars.len() && chars[i + 1] == '[' {
        find_closing(chars, i + 2, ']', "unterminated byte list")
    } else {
        Ok(find_run_end(chars, i + 1))
    }
}

/// What is left of the tokens once the first ones are known.
pub open spec fn with_tokens(first: Seq<Seq<char>>, rest: Result<Seq<Seq<char>>, ErrorV>) -> Result<
    Seq<Seq<char>>,
    ErrorV,
> {
    match rest {
        Ok(more) => Ok(first + more),
        Err(e) => Err(e),
    }
}

/// Splits a text into its tokens, as [`tokens`] says: parentheses and quote
/// marks one by one, strings with their quotes, byte lists with their
/// brackets, and what stands between blanks and these. A string or a byte
/// list that is not closed is an error.
pub fn tokenize(expr: &str) -> (r: Result<Vec<String>, Error>)
    ensures
        match tokens(expr@) {
            Ok(list) => r is Ok && token_views(r->Ok_0@) == list,
            Err(e) => r is Err && r->Err_0@ == e,
        },
{
    let chars = chars_of(expr);
    let mut out: Vec<String> = Vec::new();
    let mut i: usize = 0;
    assert(token_views(out@) =~= Seq::<Seq<char>>::empty());
    assert(with_tokens(Seq::empty(), tokens(expr@)) == tokens(expr@)) by {
        match tokens(expr@) {
            Ok(list) => {
                assert(Seq::<Seq<char>>::empty() + list =~= list);
            },
            Err(_) => {},
        }
    }
    while i < chars.len()
        invariant
            i <= chars.len(),
            chars@ == expr@,
            tokens(expr@) == with_tokens(token_views(out@), tokens_from(chars@, i as int)),
        decreases chars.len() - i,
    {
        if is_white(chars[i]) {
            i = i + 1;
        } else {
            match find_token_end(&chars, i) {
                Err(e) => {
                    return Err(e);
                },
                Ok(j) => {
                    let token = string_of_range(&chars, i, j);
                    proof {
                        let before = token_views(out@);
                        let after = token_views(out@.push(token));
                        assert(after =~= before.push(token@));
                        match tokens_from(chars@, j as int) {
                            Ok(rest) => {
                                assert(before + (seq![token@] + rest) =~= after + rest);
                            },
                            Err(_) => {},
                        }
                    }
                    out.push(token);
                    i = j;
                },
            }
        }
    }
    proof {
        assert(token_views(out@) + Seq::<Seq<char>>::empty() =~= token_views(out@));
    }
    Ok(out)
}

// ---------------------------------------------------------------------------
// Atoms
// ---------------------------------------------------------------------------
/// Whether `c` is one of the marks that a symbol may hold.
pub open spec fn is_symbol_mark(c: char) -> bool {
    c == '*' || c == '=' || c == '+' || c == '!' || c == '-' || c == '_' || c == '?' || c == '<'
        || c == '>' || c == ':'
}

/// Whether `c` is a letter: one of ASCII, or a character above ASCII that
/// is alphabetic.
pub open spec fn is_letter(c: char) -> bool {
    if c as u32 <= 127 {
        'a' <= c <= 'z' || 'A' <= c <= 'Z'
    } else {
        is_alphabetic(c)
    }
}

/// Whether `c` is a letter or a digit: one of ASCII, or a character above
/// ASCII that is alphabetic or numeric.
pub open spec fn is_letter_or_digit(c: char) -> bool {
    if c as u32 <= 127 {
        'a' <= c <= 'z' || 'A' <= c <= 'Z' || '0' <= c <= '9'
    } else {
        is_alphanumeric(c)
    }
}

/// Whether a symbol may start with `c`: a letter or a mark.
pub open spec fn is_symbol_start(c: char) -> bool {
    is_letter(c) || is_symbol_mark(c)
}

/// Whether a symbol may go on with `c`: a letter, a digit or a mark.
pub open spec fn is_symbol_char(c: char) -> bool {
    is_letter_or_digit(c) || is_symbol_mark(c)
}

/// Whether `t` is a symbol.
pub open spec fn is_symbol(t: Seq<char>) -> bool {
    &&& t.len() > 0
    &&& is_symbol_start(t[0])
    &&& forall|i: int| 1 <= i < t.len() ==> is_symbol_char(#[trigger] t[i])
}

/// What separates the bytes of a byte list: a blank or a comma.
pub open spec fn is_byte_separator(c: char) -> bool {
    is_whitespace(c) || c == ','
}

/// The end of the word that starts at `i`: the next separator.
pub open spec fn word_end(s: Seq<char>, i: int) -> int
    decreases s.len() - i,
{
    if i < 0 || i >= s.len() || is_byte_separator(s[i]) {
        i
    } else {
        word_end(s, i + 1)
    }
}

/// The byte that a word writes in decimal.
pub open spec fn byte_of_word(w: Seq<char>) -> Result<u8, ErrorV> {
    if !is_digit_run(w) {
        Err(syntax_error("invalid digit found in string"@))
    } else if magnitude(digits_of_text(w)) > 255 {
        Err(syntax_error("number too large to fit in target type"@))
    } else {
        Ok(magnitude(digits_of_text(w)) as u8)
    }
}

/// The bytes that `s` lists from `i` on.
pub open spec fn bytes_from(s: Seq<char>, i: int) -> Result<Seq<u8>, ErrorV>
    decreases s.len() - i,
{
    if i < 0 || i >= s.len() {
        Ok(Seq::empty())
    } else if is_byte_separator(s[i]) {
        bytes_from(s, i + 1)
    } else {
        let j = word_end(s, i + 1);
        match byte_of_word(s.subrange(i, j)) {
            Err(e) => Err(e),
            Ok(b) => if i < j <= s.len() {
                match bytes_from(s, j) {
                    Err(e) => Err(e),
                    Ok(rest) => Ok(seq![b] + rest),
                }
            } else {
                Ok(Seq::empty())
            },
        }
    }
}

/// The bytes that the inside of a byte list writes: decimal numbers up to
/// 255, separated by blanks or commas.
pub open spec fn byte_list(s: Seq<char>) -> Result<Seq<u8>, ErrorV> {
    bytes_from(s, 0)
}

/// What an atom is: an expression, or the data of a dish that is yet to be
/// put into the store.
pub enum AtomV {
    Plain(ExprV),
    Dish(DishDataV),
}

/// The whole number `b` as an expression.
pub open spec fn byte_number(b: u8) -> ExprV {
    ExprV::Number(numeral_of_units(b as int, 0))
}

/// The error for a token that is no atom.
pub open spec fn unexpected_token(t: Seq<char>) -> ErrorV {
    syntax_error("unexpected token '"@ + t + "'."@)
}

/// What a token that is no parenthesis and no quote mark stands for:
///   * `true` and `false` are the booleans;
///   * text between `"` is a string, with a `d` before it a dish of text;
///   * a byte list is a list of numbers, with a `d` before it a dish of
///     bytes;
///   * a numeric literal is a number;
///   * a symbol is a symbol;
///   * anything else is an error.
pub open spec fn atom(t: Seq<char>) -> Result<AtomV, ErrorV> {
    let n = t.len() as int;
    if t == "true"@ {
        Ok(AtomV::Plain(ExprV::Bool(true)))
    } else if t == "false"@ {
        Ok(AtomV::Plain(ExprV::Bool(false)))
    } else if n >= 2 && t[0] == '"' && t[n - 1] == '"' {
        Ok(AtomV::Plain(ExprV::Str(t.subrange(1, n - 1))))
    } else if n >= 3 && t[0] == 'd' && t[1] == '"' && t[n - 1] == '"' {
        Ok(AtomV::Dish(DishDataV::Str(t.subrange(2, n - 1))))
    } else if n >= 3 && t[0] == 'd' && t[1] == '[' && t[n - 1] == ']' {
        match byte_list(t.subrange(2, n - 1)) {
            Ok(bytes) => Ok(AtomV::Dish(DishDataV::Bin(bytes))),
            Err(e) => Err(e),
        }
    } else if n >= 2 && t[0] == '[' && t[n - 1] == ']' {
        match byte_list(t.subrange(1, n - 1)) {
            Ok(bytes) => Ok(
                AtomV::Plain(ExprV::List(Seq::new(bytes.len(), |i: int| byte_number(bytes[i])))),
            ),
            Err(e) => Err(e),
        }
    } else if is_number_literal(t) {
        Ok(AtomV::Plain(ExprV::Number(literal_number(t))))
    } else if is_symbol(t) {
        Ok(AtomV::Plain(ExprV::Symbol(t)))
    } else {
        Err(unexpected_token(t))
    }
}

fn is_symbol_mark_char(c: char) -> (r: bool)
    ensures
        r == is_symbol_mark(c),
{
    c == '*' || c == '=' || c == '+' || c == '!' || c == '-' || c == '_' || c == '?' || c == '<'
        || c == '>' || c == ':'
}

/// Whether a symbol may start with `c`.
pub fn is_symbol_fchar(c: char) -> (r: bool)
    ensures
        r == is_symbol_start(c),
{
    let letter = if c as u32 <= 127 {
        ('a' <= c && c <= 'z') || ('A' <= c && c <= 'Z')
    } else {
        c.is_alphabetic()
    };
    letter || is_symbol_mark_char(c)
}

/// Whether a symbol may go on with `c`.
pub fn is_symbol_rchar(c: char) -> (r: bool)
    ensures
        r == is_symbol_char(c),
{
    let letter_or_digit = if c as u32 <= 127 {
        ('a' <= c && c <= 'z') || ('A' <= c && c <= 'Z') || ('0' <= c && c <= '9')
    } else {
        c.is_alphanumeric()
    };
    letter_or_digit || is_symbol_mark_char(c)
}

fn is_symbol_text(chars: &Vec<char>) -> (r: bool)
    ensures
        r == is_symbol(chars@),
{
    if chars.len() == 0 || !is_symbol_fchar(chars[0]) {
        return false;
    }
    let mut i: usize = 1;
    while i < chars.len()
        invariant
            1 <= i <= chars.len(),
            forall|j: int| 1 <= j < i ==> is_symbol_char(#[trigger] chars@[j]),
        decreases chars.len() - i,
    {
        if !is_symbol_rchar(chars[i]) {
            return false;
        }
        i = i + 1;
    }
    true
}

fn is_byte_separator_char(c: char) -> (r: bool)
    ensures
        r == is_byte_separator(c),
{
    is_white(c) || c == ','
}

/// The byte that the word `chars[from..to]` writes.
fn read_byte(chars: &Vec<char>, from: usize, to: usize) -> (r: Result<u8, Error>)
    requires
        from <= to <= chars.len(),
    ensures
        match byte_of_word(chars@.subrange(from as int, to as int)) {
            Ok(b) => r == Ok::<u8, Error>(b),
            Err(e) => r is Err && r->Err_0@ == e,
        },
{
    let ghost word = chars@.subrange(from as int, to as int);
    let mut k: usize = from;
    while k < to
        invariant
            from <= k <= to <= chars.len(),
            word == chars@.subrange(from as int, to as int),
            forall|j: int| 0 <= j < k - from ==> is_decimal_digit(#[trigger] word[j]),
        decreases to - k,
    {
        let c = chars[k];
        if !('0' <= c && c <= '9') {
            assert(word[k - from] == c);
            return Err(Error::new(ErrorKind::Syntax, "invalid digit found in string"));
        }
        k = k + 1;
    }
    if from == to {
        return Err(Error::new(ErrorKind::Syntax, "invalid digit found in string"));
    }
    let mut value: u32 = 0;
    let mut large = false;
    let mut i: usize = from;
    assert(digits_of_text(word.take(0)) =~= Seq::<u8>::empty());
    while i < to
        invariant
            from <= i <= to <= chars.len(),
            word == chars@.subrange(from as int, to as int),
            is_digit_run(word),
            value <= 255,
            !large ==> value == magnitude(digits_of_text(word.take(i - from))),
            large ==> magnitude(digits_of_text(word.take(i - from))) > 255,
        decreases to - i,
    {
        let c = chars[i];
        proof {
            let shorter = word.take(i - from);
            let longer = word.take(i - from + 1);
            assert(word[i - from] == c);
            assert(is_decimal_digit(word[i - from]));
            assert(digits_of_text(longer) =~= seq![digit_value(c)] + digits_of_text(shorter));
            lemma_magnitude_first(digits_of_text(longer));
            assert(digits_of_text(longer).drop_first() =~= digits_of_text(shorter));
        }
        if !large {
            let next: u32 = value * 10 + (c as u32 - 48);
            if next > 255 {
                large = true;
            } else {
                value = next;
            }
        }
        i = i + 1;
    }
    assert(word.take(to - from) =~= word);
    if large {
        Err(Error::new(ErrorKind::Syntax, "number too large to fit in target type"))
    } else {
        Ok(value as u8)
    }
}

/// What is left of the bytes once the first ones are known.
pub open spec fn with_bytes(first: Seq<u8>, rest: Result<Seq<u8>, ErrorV>) -> Result<
    Seq<u8>,
    ErrorV,
> {
    match rest {
        Ok(more) => Ok(first + more),
        Err(e) => Err(e),
    }
}

/// Reads the inside of a byte list, as [`byte_list`] says.
pub fn read_bytes(chars: &Vec<char>) -> (r: Result<Vec<u8>, Error>)
    ensures
        match byte_list(chars@) {
            Ok(bytes) => r is Ok && r->Ok_0@ == bytes,
            Err(e) => r is Err && r->Err_0@ == e,
        },
{
    let mut out: Vec<u8> = Vec::new();
    let mut i: usize = 0;
    assert(with_bytes(Seq::empty(), byte_list(chars@)) == byte_list(chars@)) by {
        match byte_list(chars@) {
            Ok(list) => {
                assert(Seq::<u8>::empty() + list =~= list);
            },
            Err(_) => {},
        }
    }
    while i < chars.len()
        invariant
            i <= chars.len(),
            byte_list(chars@) == with_bytes(out@, bytes_from(chars@, i as int)),
        decreases chars.len() - i,
    {
        if is_byte_separator_char(chars[i]) {
            i = i + 1;
        } else {
            let mut j: usize = i + 1;
            while j < chars.len() && !is_byte_separator_char(chars[j])
                invariant
                    i < j <= chars.len(),
                    word_end(chars@, i + 1) == word_end(chars@, j as int),
                decreases chars.len() - j,
            {
                j = j + 1;
            }
            match read_byte(chars, i, j) {
                Err(e) => {
                    return Err(e);
                },
                Ok(b) => {
                    proof {
                        match bytes_from(chars@, j as int) {
                            Ok(rest) => {
                                assert(out@ + (seq![b] + rest) =~= out@.push(b) + rest);
                            },
                            Err(_) => {},
                        }
                    }
                    out.push(b);
                    i = j;
                },
            }
        }
    }
    proof {
        assert(out@ + Seq::<u8>::empty() =~= out@);
    }
    Ok(out)
}

/// What a parsed atom is, before a dish has been put into the store.
pub enum Atom {
    Plain(Expression),
    Dish(Dish),
}

impl Atom {
    /// The model of the atom.
    pub open spec fn model(&self) -> AtomV {
        match self {
            Atom::Plain(e) => AtomV::Plain(e@),
            Atom::Dish(d) => AtomV::Dish(d@->Success_0),
        }
    }
}

/// The numbers of a byte list, as a list.
fn byte_numbers(bytes: &Vec<u8>) -> (r: Expression)
    ensures
        r@ == ExprV::List(Seq::new(bytes@.len(), |i: int| byte_number(bytes@[i]))),
{
    let mut items: Vec<Expression> = Vec::new();
    let mut i: usize = 0;
    while i < bytes.len()
        invariant
            i <= bytes.len(),
            items@.len() == i,
            forall|j: int| 0 <= j < i ==> items@[j].model() == byte_number(bytes@[j]),
        decreases bytes.len() - i,
    {
        items.push(Expression::Number(Number::from_i64(bytes[i] as i64)));
        i = i + 1;
    }
    let r = Expression::List(items);
    assert(r.model()->List_0 =~= Seq::new(bytes@.len(), |i: int| byte_number(bytes@[i])));
    r
}

/// Reads one token that is no parenthesis and no quote mark, as [`atom`]
/// says.
pub fn read_atom(token: &str) -> (r: Result<Atom, Error>)
    ensures
        match atom(token@) {
            Ok(a) => r is Ok && r->Ok_0.model() == a && (a is Dish ==> r->Ok_0 is Dish
                && r->Ok_0->Dish_0@ is Success),
            Err(e) => r is Err && r->Err_0@ == e,
        },
{
    if same_text(token, "true") {
        return Ok(Atom::Plain(Expression::Bool(true)));
    }
    if same_text(token, "false") {
        return Ok(Atom::Plain(Expression::Bool(false)));
    }
    let chars = chars_of(token);
    let n = chars.len();
    if n >= 2 && chars[0] == '"' && chars[n - 1] == '"' {
        return Ok(Atom::Plain(Expression::String(string_of_range(&chars, 1, n - 1))));
    }
    if n >= 3 && chars[0] == 'd' && chars[1] == '"' && chars[n - 1] == '"' {
        return Ok(Atom::Dish(Dish::from_string(string_of_range(&chars, 2, n - 1))));
    }
    let listed = n >= 3 && chars[0] == 'd' && chars[1] == '[' && chars[n - 1] == ']';
    let bare = n >= 2 && chars[0] == '[' && chars[n - 1] == ']';
    if listed || bare {
        let start: usize = if listed {
            2
        } else {
            1
        };
        let mut inner: Vec<char> = Vec::new();
        let mut k: usize = start;
        while k < n - 1
            invariant
                start <= k <= n - 1,
                n == chars.len(),
                inner@ == chars@.subrange(start as int, k as int),
            decreases n - k,
        {
            inner.push(chars[k]);
            assert(chars@.subrange(start as int, k + 1) =~= chars@.subrange(
                start as int,
                k as int,
            ).push(chars@[k as int]));
            k = k + 1;
        }
        return match read_bytes(&inner) {
            Err(e) => Err(e),
            Ok(bytes) => if listed {
                Ok(Atom::Dish(Dish::from_bytes(bytes)))
            } else {
                Ok(Atom::Plain(byte_numbers(&bytes)))
            },
        };
    }
    match Number::parse(&chars) {
        Some(number) => Ok(Atom::Plain(Expression::Number(number))),
        None => if is_symbol_text(&chars) {
            Ok(Atom::Plain(Expression::Symbol(token.to_owned())))
        } else {
            let message = join3("unexpected token '", token, "'.");
            Err(Error { kind: ErrorKind::Syntax, message })
        },
    }
}

// ---------------------------------------------------------------------------
// Expressions
// ---------------------------------------------------------------------------
/// A parsed expression, the place behind it, and the store of dishes with
/// those of the expression in it.
pub struct Parsed {
    pub expr: ExprV,
    pub next: int,
    pub dishes: Seq<DishV>,
}

/// `(quote e)`.
pub open spec fn quoted(e: ExprV) -> ExprV {
    ExprV::List(seq![ExprV::Symbol("quote"@), e])
}

/// The expression that starts with the token at `pos`.
///   * `(` opens a list, which goes on to its `)`;
///   * `'` before an expression quotes it, at any depth;
///   * any other token is an atom; the dish of a dish literal is put into
///     the store, and the expression holds its handle.
pub open spec fn parse_at(toks: Seq<Seq<char>>, pos: int, dishes: Seq<DishV>) -> Result<
    Parsed,
    ErrorV,
>
    decreases toks.len() - pos, 0nat,
{
    if pos < 0 || pos >= toks.len() {
        Err(syntax_error("could not get token"@))
    } else if toks[pos] == "("@ {
        parse_list(toks, pos + 1, dishes, Seq::empty())
    } else if toks[pos] == ")"@ {
        Err(syntax_error("unexpected `)`"@))
    } else if toks[pos] == "'"@ {
        match parse_at(toks, pos + 1, dishes) {
            Err(e) => Err(e),
            Ok(p) => Ok(Parsed { expr: quoted(p.expr), next: p.next, dishes: p.dishes }),
        }
    } else {
        match atom(toks[pos]) {
            Err(e) => Err(e),
            Ok(AtomV::Plain(e)) => Ok(Parsed { expr: e, next: pos + 1, dishes }),
            Ok(AtomV::Dish(data)) => Ok(
                Parsed {
                    expr: ExprV::Dish(dishes.len()),
                    next: pos + 1,
                    dishes: dishes.push(DishV::Success(data)),
                },
            ),
        }
    }
}

/// The list whose first items are `items` and whose next item, or closing
/// parenthesis, is the token at `pos`.
pub open spec fn parse_list(
    toks: Seq<Seq<char>>,
    pos: int,
    dishes: Seq<DishV>,
    items: Seq<ExprV>,
) -> Result<Parsed, ErrorV>
    decreases toks.len() - pos, 1nat,
{
    if pos < 0 || pos >= toks.len() {
        Err(syntax_error("unclosed parenthesis"@))
    } else if toks[pos] == ")"@ {
        Ok(Parsed { expr: ExprV::List(items), next: pos + 1, dishes })
    } else {
        match parse_at(toks, pos, dishes) {
            Err(e) => Err(e),
            Ok(p) => if pos < p.next <= toks.len() {
                parse_list(toks, p.next, p.dishes, items.push(p.expr))
            } else {
                Err(syntax_error("unclosed parenthesis"@))
            },
        }
    }
}

/// The expression that a text writes, and the store with its dishes. The
/// text must hold one expression and nothing behind it.
pub open spec fn parse_text(s: Seq<char>, dishes: Seq<DishV>) -> Result<
    (ExprV, Seq<DishV>),
    ErrorV,
> {
    match tokens(s) {
        Err(e) => Err(e),
        Ok(toks) => match parse_at(toks, 0, dishes) {
            Err(e) => Err(e),
            Ok(p) => if p.next == toks.len() {
                Ok((p.expr, p.dishes))
            } else {
                Err(syntax_error("unexpected input"@))
            },
        },
    }
}

/// Whether `a` is the start of `b`.
pub open spec fn is_prefix<T>(a: Seq<T>, b: Seq<T>) -> bool {
    a.len() <= b.len() && b.take(a.len() as int) == a
}

/// Reads the atom of one token, putting the dish of a dish literal into the
/// store.
pub fn parse_atom(token: &str, dishes: &mut DishStore) -> (r: Result<Expression, Error>)
    ensures
        match atom(token@) {
            Ok(AtomV::Plain(e)) => r is Ok && r->Ok_0@ == e && final(dishes)@ == old(dishes)@,
            Ok(AtomV::Dish(data)) => r is Ok && r->Ok_0@ == ExprV::Dish(old(dishes)@.len())
                && final(dishes)@ == old(dishes)@.push(DishV::Success(data)),
            Err(e) => r is Err && r->Err_0@ == e && final(dishes)@ == old(dishes)@,
        },
{
    match read_atom(token) {
        Err(e) => Err(e),
        Ok(Atom::Plain(e)) => Ok(e),
        Ok(Atom::Dish(d)) => {
            let handle = dishes.insert(d);
            Ok(Expression::Dish(handle))
        },
    }
}

/// Reads the expression that starts with the token at `pos`, as
/// [`parse_at`] says, and returns it with the place behind it. The dishes
/// of dish literals are put into the store; where the tokens are no
/// expression, the store is left as it was.
pub fn parse(tokens: &Vec<String>, pos: usize, dishes: &mut DishStore) -> (r: Result<
    (Expression, usize),
    Error,
>)
    ensures
        match parse_at(token_views(tokens@), pos as int, old(dishes)@) {
            Ok(p) => r is Ok && r->Ok_0.0@ == p.expr && r->Ok_0.1 == p.next && pos < p.next
                <= tokens.len() && final(dishes)@ == p.dishes && is_prefix(
                old(dishes)@,
                final(dishes)@,
            ),
            Err(e) => r is Err && r->Err_0@ == e && final(dishes)@ == old(dishes)@,
        },
    decreases tokens.len() - pos, 0nat,
{
    let ghost toks = token_views(tokens@);
    if pos >= tokens.len() {
        assert(old(dishes)@.take(old(dishes)@.len() as int) =~= old(dishes)@);
        return Err(Error::new(ErrorKind::Syntax, "could not get token"));
    }
    let token = tokens[pos].as_str();
    assert(toks[pos as int] == token@);
    if same_text(token, "(") {
        read_seq(tokens, pos + 1, dishes)
    } else if same_text(token, ")") {
        assert(old(dishes)@.take(old(dishes)@.len() as int) =~= old(dishes)@);
        Err(Error::new(ErrorKind::Syntax, "unexpected `)`"))
    } else if same_text(token, "'") {
        match parse(tokens, pos + 1, dishes) {
            Err(e) => Err(e),
            Ok((e, next)) => {
                let head = Expression::Symbol(String::from_str("quote"));
                let ghost head_model = head@;
                let ghost inner = e@;
                let mut items: Vec<Expression> = Vec::new();
                items.push(head);
                items.push(e);
                let r = Expression::List(items);
                assert(r.model()->List_0 =~= seq![head_model, inner]);
                Ok((r, next))
            },
        }
    } else {
        let r = parse_atom(token, dishes);
        proof {
            assert(old(dishes)@.take(old(dishes)@.len() as int) =~= old(dishes)@);
            if dishes@.len() > old(dishes)@.len() {
                assert(dishes@.take(old(dishes)@.len() as int) =~= old(dishes)@);
            }
        }
        match r {
            Err(e) => Err(e),
            Ok(e) => Ok((e, pos + 1)),
        }
    }
}

/// Reads the items of a list up to its closing parenthesis, as
/// [`parse_list`] says; `pos` is the place behind the opening one. Where
/// the list is not closed, or an item is no expression, the store is left
/// as it was.
pub fn read_seq(tokens: &Vec<String>, pos: usize, dishes: &mut DishStore) -> (r: Result<
    (Expression, usize),
    Error,
>)
    ensures
        match parse_list(token_views(tokens@), pos as int, old(dishes)@, Seq::empty()) {
            Ok(p) => r is Ok && r->Ok_0.0@ == p.expr && r->Ok_0.1 == p.next && pos < p.next
                <= tokens.len() && final(dishes)@ == p.dishes && is_prefix(
                old(dishes)@,
                final(dishes)@,
            ),
            Err(e) => r is Err && r->Err_0@ == e && final(dishes)@ == old(dishes)@,
        },
    decreases tokens.len() - pos, 1nat,
{
    let ghost toks = token_views(tokens@);
    let ghost whole = parse_list(toks, pos as int, old(dishes)@, Seq::empty());
    let mut items: Vec<Expression> = Vec::new();
    let mut at: usize = pos;
    assert(models(items@) =~= Seq::<ExprV>::empty());
    assert(old(dishes)@.take(old(dishes)@.len() as int) =~= old(dishes)@);
    if pos > tokens.len() {
        return Err(Error::new(ErrorKind::Syntax, "unclosed parenthesis"));
    }
    let mark = dishes.len();
    loop
        invariant
            pos <= at <= tokens.len(),
            toks == token_views(tokens@),
            mark == old(dishes)@.len(),
            is_prefix(old(dishes)@, dishes@),
            whole == parse_list(toks, pos as int, old(dishes)@, Seq::empty()),
            whole == parse_list(toks, at as int, dishes@, models(items@)),
        decreases tokens.len() - at,
    {
        if at >= tokens.len() {
            dishes.truncate(mark);
            return Err(Error::new(ErrorKind::Syntax, "unclosed parenthesis"));
        }
        assert(toks[at as int] == tokens@[at as int]@);
        if same_text(tokens[at].as_str(), ")") {
            let r = Expression::List(items);
            assert(r.model()->List_0 =~= models(items@));
            return Ok((r, at + 1));
        }
        let ghost before = dishes@;
        match parse(tokens, at, dishes) {
            Err(e) => {
                dishes.truncate(mark);
                return Err(e);
            },
            Ok((e, next)) => {
                proof {
                    lemma_prefix_chain(old(dishes)@, before, dishes@);
                    assert(models(items@.push(e)) =~= models(items@).push(e@));
                }
                items.push(e);
                at = next;
            },
        }
    }
}

/// A start of a start is a start.
pub proof fn lemma_prefix_chain<T>(a: Seq<T>, b: Seq<T>, c: Seq<T>)
    requires
        is_prefix(a, b),
        is_prefix(b, c),
    ensures
        is_prefix(a, c),
{
    assert(c.take(a.len() as int) =~= b.take(a.len() as int));
}

/// Reads text into expressions.
pub struct Reader {}

impl Reader {
    /// A reader.
    pub fn new() -> Reader {
        Reader {  }
    }

    /// Reads the one expression that `s` writes, as [`parse_text`] says.
    /// The dishes of its dish literals are put into the store; where the
    /// text is no expression, the store is left as it was.
    pub fn parse(&self, s: &String, dishes: &mut DishStore) -> (r: Result<Expression, Error>)
        ensures
            match parse_text(s@, old(dishes)@) {
                Ok((e, d)) => r is Ok && r->Ok_0@ == e && final(dishes)@ == d,
                Err(e) => r is Err && r->Err_0@ == e && final(dishes)@ == old(dishes)@,
            },
    {
        let tokens = match tokenize(s.as_str()) {
            Err(e) => {
                return Err(e);
            },
            Ok(tokens) => tokens,
        };
        let mark = dishes.len();
        match parse(&tokens, 0, dishes) {
            Err(e) => Err(e),
            Ok((e, next)) => {
                if next == tokens.len() {
                    Ok(e)
                } else {
                    dishes.truncate(mark);
                    Err(Error::new(ErrorKind::Syntax, "unexpected input"))
                }
            },
        }
    }
}

} // verus!
