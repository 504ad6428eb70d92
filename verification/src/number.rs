//! The interpreter's numbers: exact decimal numerals of any length.
//!
//! A number is a sign, a sequence of decimal digits and a scale, the count of
//! digits that stand behind the decimal point. Every number is kept in its
//! one canonical form, so two numbers are equal exactly when their parts are.

use vstd::prelude::*;
use crate::text::digit_char;
use crate::text::digit_to_char;
use crate::text::push_char;

verus! {

/// Ten to the power `e`.
pub open spec fn pow10(e: nat) -> nat
    decreases e,
{
    if e == 0 {
        1
    } else {
        10 * pow10((e - 1) as nat)
    }
}

/// The natural number that `digits` write, least significant digit first.
pub open spec fn magnitude(digits: Seq<u8>) -> nat
    decreases digits.len(),
{
    if digits.len() == 0 {
        0
    } else {
        magnitude(digits.drop_last()) + digits.last() as nat * pow10((digits.len() - 1) as nat)
    }
}

/// The digits of `n`, least significant first, without leading zeros; none
/// for zero.
pub open spec fn le_digits(n: nat) -> Seq<u8>
    decreases n,
{
    if n == 0 {
        Seq::empty()
    } else {
        seq![(n % 10) as u8] + le_digits(n / 10)
    }
}

/// Whether every element is a decimal digit.
pub open spec fn all_digits(digits: Seq<u8>) -> bool {
    forall|i: int| 0 <= i < digits.len() ==> digits[i] < 10
}

/// The mathematical model of a [`Number`]: the value
/// `(-1)^negative * magnitude(digits) / 10^scale`.
pub struct NumberV {
    pub negative: bool,
    /// Decimal digits, least significant first.
    pub digits: Seq<u8>,
    /// How many of the digits stand behind the decimal point.
    pub scale: nat,
}

impl NumberV {
    /// The canonical form: decimal digits, no leading zero, no trailing zero
    /// behind the point, and zero written without digits, sign or scale.
    pub open spec fn canonical(self) -> bool {
        &&& all_digits(self.digits)
        &&& self.digits.len() > 0 ==> self.digits.last() != 0
        &&& self.digits.len() == 0 ==> !self.negative && self.scale == 0
        &&& self.scale > 0 ==> self.digits.len() > 0 && self.digits[0] != 0
    }

    /// Zero.
    pub open spec fn zero() -> NumberV {
        NumberV { negative: false, digits: Seq::empty(), scale: 0 }
    }

    /// The value counted in units of `10^-k`, for `k >= scale`.
    pub open spec fn units(self, k: nat) -> int
        recommends
            k >= self.scale,
    {
        let m = magnitude(self.digits) * pow10((k - self.scale) as nat);
        if self.negative {
            -(m as int)
        } else {
            m as int
        }
    }

    /// The digits before the decimal point, least significant first; none
    /// where the value is below one.
    pub open spec fn integer_digits(self) -> Seq<u8> {
        if self.scale <= self.digits.len() {
            self.digits.skip(self.scale as int)
        } else {
            Seq::empty()
        }
    }

    /// The value rounded toward zero.
    pub open spec fn truncated(self) -> int {
        let m = magnitude(self.integer_digits());
        if self.negative {
            -(m as int)
        } else {
            m as int
        }
    }

    /// The value rounded toward zero and brought into the range of `i64`.
    pub open spec fn to_i64(self) -> i64 {
        let t = self.truncated();
        if t > i64::MAX {
            i64::MAX
        } else if t < i64::MIN {
            i64::MIN
        } else {
            t as i64
        }
    }
}

/// The canonical numeral of `(-1)^negative * m / 10^scale`.
pub open spec fn numeral(negative: bool, m: nat, scale: nat) -> NumberV
    decreases scale,
{
    if m == 0 {
        NumberV::zero()
    } else if scale > 0 && m % 10 == 0 {
        numeral(negative, m / 10, (scale - 1) as nat)
    } else {
        NumberV { negative, digits: le_digits(m), scale }
    }
}

/// The canonical numeral of `u / 10^scale`.
pub open spec fn numeral_of_units(u: int, scale: nat) -> NumberV {
    numeral(u < 0, vstd::math::abs(u) as nat, scale)
}

/// The sum of two numbers.
pub open spec fn sum(a: NumberV, b: NumberV) -> NumberV {
    let k = if a.scale >= b.scale {
        a.scale
    } else {
        b.scale
    };
    numeral_of_units(a.units(k) + b.units(k), k)
}

/// The number with the opposite sign.
pub open spec fn negated(a: NumberV) -> NumberV {
    if a.digits.len() == 0 {
        a
    } else {
        NumberV { negative: !a.negative, digits: a.digits, scale: a.scale }
    }
}

/// The difference of two numbers.
pub open spec fn difference(a: NumberV, b: NumberV) -> NumberV {
    sum(a, negated(b))
}

/// The digits `digits[0..count]` as characters, most significant first.
pub open spec fn digits_text(digits: Seq<u8>) -> Seq<char> {
    Seq::new(digits.len(), |i: int| digit_char(digits[digits.len() - 1 - i] as nat))
}

/// The `scale` digits behind the decimal point, most significant first,
/// with zeros where the numeral has no digit.
pub open spec fn fraction_text(digits: Seq<u8>, scale: nat) -> Seq<char> {
    Seq::new(
        scale,
        |i: int|
            if scale - 1 - i < digits.len() {
                digit_char(digits[scale - 1 - i] as nat)
            } else {
                '0'
            },
    )
}

/// How a number is written: a `-` where it is negative, the digits before
/// the point (`0` where there are none), and, where the scale is not zero,
/// a point and the digits behind it.
pub open spec fn number_text(v: NumberV) -> Seq<char> {
    let sign = if v.negative {
        seq!['-']
    } else {
        Seq::empty()
    };
    let whole = if v.integer_digits().len() == 0 {
        seq!['0']
    } else {
        digits_text(v.integer_digits())
    };
    let fraction = if v.scale == 0 {
        Seq::empty()
    } else {
        seq!['.'] + fraction_text(v.digits, v.scale)
    };
    sign + whole + fraction
}

/// Whether `c` is one of `0`..`9`.
pub open spec fn is_decimal_digit(c: char) -> bool {
    '0' <= c <= '9'
}

/// Whether `s` is one or more decimal digits.
pub open spec fn is_digit_run(s: Seq<char>) -> bool {
    s.len() > 0 && forall|i: int| 0 <= i < s.len() ==> is_decimal_digit(#[trigger] s[i])
}

/// The value of a digit character; zero for any other.
pub open spec fn digit_value(c: char) -> u8 {
    if is_decimal_digit(c) {
        (c as u32 - 48) as u8
    } else {
        0
    }
}

/// The digit values of a run of digit characters, least significant first.
pub open spec fn digits_of_text(s: Seq<char>) -> Seq<u8> {
    Seq::new(s.len(), |i: int| digit_value(s[s.len() - 1 - i]))
}

/// Where the decimal point stands in `s`, or the length of `s` if there is
/// none.
pub open spec fn point_position(s: Seq<char>) -> int
    decreases s.len(),
{
    if s.len() == 0 || s[0] == '.' {
        0
    } else {
        1 + point_position(s.drop_first())
    }
}

/// The parts of a numeric literal: whether it starts with `-`, the digits
/// before the point, and the digits behind it.
pub struct LiteralParts {
    pub negative: bool,
    pub whole: Seq<char>,
    pub fraction: Seq<char>,
    pub has_point: bool,
}

/// Splits `s` at an optional leading `-` and at the first `.`.
pub open spec fn literal_parts(s: Seq<char>) -> LiteralParts {
    let negative = s.len() > 0 && s[0] == '-';
    let body = if negative {
        s.drop_first()
    } else {
        s
    };
    let p = point_position(body);
    LiteralParts {
        negative,
        whole: body.take(p),
        fraction: if p < body.len() {
            body.skip(p + 1)
        } else {
            Seq::empty()
        },
        has_point: p < body.len(),
    }
}

/// Whether `s` is a numeric literal: an optional `-`, one or more digits
/// and, optionally, a point followed by one or more digits.
pub open spec fn is_number_literal(s: Seq<char>) -> bool {
    let parts = literal_parts(s);
    &&& is_digit_run(parts.whole)
    &&& parts.has_point ==> is_digit_run(parts.fraction)
}

/// The number that a numeric literal writes.
pub open spec fn literal_number(s: Seq<char>) -> NumberV
    recommends
        is_number_literal(s),
{
    let parts = literal_parts(s);
    numeral(
        parts.negative,
        magnitude(digits_of_text(parts.whole + parts.fraction)),
        parts.fraction.len(),
    )
}

// ---------------------------------------------------------------------------
// Facts about digits and magnitudes.
// ---------------------------------------------------------------------------
pub proof fn lemma_pow10_positive(e: nat)
    ensures
        pow10(e) > 0,
    decreases e,
{
    if e > 0 {
        lemma_pow10_positive((e - 1) as nat);
    }
}

/// The magnitude, read from the least significant digit.
pub proof fn lemma_magnitude_first(digits: Seq<u8>)
    requires
        digits.len() > 0,
    ensures
        magnitude(digits) == digits[0] as nat + 10 * magnitude(digits.drop_first()),
    decreases digits.len(),
{
    let front = digits.drop_last();
    let rest = digits.drop_first();
    let n = (digits.len() - 1) as nat;
    let d = digits.last() as nat;
    assert(magnitude(digits) == magnitude(front) + d * pow10(n));
    if digits.len() == 1 {
        assert(front =~= Seq::<u8>::empty());
        assert(rest =~= Seq::<u8>::empty());
        assert(magnitude(front) == 0);
        assert(magnitude(rest) == 0);
        assert(pow10(0) == 1);
        assert(d * 1 == d);
    } else {
        lemma_magnitude_first(front);
        assert(front.drop_first() =~= rest.drop_last());
        assert(front[0] == digits[0]);
        assert(rest.last() == digits.last());
        let p = pow10((n - 1) as nat);
        assert(pow10(n) == 10 * p);
        assert(magnitude(rest) == magnitude(rest.drop_last()) + d * p);
        assert(magnitude(front) == digits[0] as nat + 10 * magnitude(rest.drop_last()));
        assert(10 * (d * p) == d * (10 * p)) by (nonlinear_arith);
    }
}

/// A magnitude of `n` digits is below `10^n`.
pub proof fn lemma_magnitude_bound(digits: Seq<u8>)
    requires
        all_digits(digits),
    ensures
        magnitude(digits) < pow10(digits.len()),
    decreases digits.len(),
{
    if digits.len() > 0 {
        lemma_magnitude_bound(digits.drop_last());
        let n = (digits.len() - 1) as nat;
        assert(digits.last() as nat * pow10(n) <= 9 * pow10(n)) by (nonlinear_arith)
            requires
                digits.last() < 10,
        ;
    }
}

/// A numeral whose most significant digit is not zero is not zero.
pub proof fn lemma_magnitude_positive(digits: Seq<u8>)
    requires
        digits.len() > 0,
        digits.last() != 0,
    ensures
        magnitude(digits) > 0,
{
    let n = (digits.len() - 1) as nat;
    lemma_pow10_positive(n);
    assert(digits.last() as nat * pow10(n) > 0) by (nonlinear_arith)
        requires
            digits.last() > 0,
            pow10(n) > 0,
    ;
}

/// The magnitude of one numeral written above another.
pub proof fn lemma_magnitude_concat(low: Seq<u8>, high: Seq<u8>)
    ensures
        magnitude(low + high) == magnitude(low) + pow10(low.len()) * magnitude(high),
    decreases high.len(),
{
    let p = pow10(low.len());
    if high.len() == 0 {
        assert(low + high =~= low);
        assert(p * 0 == 0);
    } else {
        lemma_magnitude_concat(low, high.drop_last());
        assert((low + high).drop_last() =~= low + high.drop_last());
        assert((low + high).last() == high.last());
        let n = (high.len() - 1) as nat;
        lemma_pow10_sum(low.len(), n);
        let d = high.last() as nat;
        let h = magnitude(high.drop_last());
        let q = pow10(n);
        assert((low + high).len() - 1 == low.len() + n);
        assert(magnitude(low + high) == magnitude(low) + p * h + d * pow10(low.len() + n));
        assert(p * (h + d * q) == p * h + d * (p * q)) by (nonlinear_arith);
    }
}

pub proof fn lemma_pow10_sum(a: nat, b: nat)
    ensures
        pow10(a + b) == pow10(a) * pow10(b),
    decreases b,
{
    if b == 0 {
        assert(pow10(a) * 1 == pow10(a));
    } else {
        lemma_pow10_sum(a, (b - 1) as nat);
        assert(pow10(a + b) == 10 * pow10((a + b - 1) as nat));
        assert(10 * (pow10(a) * pow10((b - 1) as nat)) == pow10(a) * (10 * pow10((b - 1) as nat)))
            by (nonlinear_arith);
    }
}

/// Zeros write zero.
pub proof fn lemma_magnitude_zeros(digits: Seq<u8>)
    requires
        forall|i: int| 0 <= i < digits.len() ==> digits[i] == 0,
    ensures
        magnitude(digits) == 0,
    decreases digits.len(),
{
    if digits.len() > 0 {
        lemma_magnitude_zeros(digits.drop_last());
    }
}

/// A numeral without leading zeros is the digits of its magnitude.
pub proof fn lemma_digits_of_magnitude(digits: Seq<u8>)
    requires
        all_digits(digits),
        digits.len() > 0 ==> digits.last() != 0,
    ensures
        le_digits(magnitude(digits)) == digits,
    decreases digits.len(),
{
    if digits.len() == 0 {
    } else {
        lemma_magnitude_first(digits);
        lemma_magnitude_positive(digits);
        let rest = digits.drop_first();
        if rest.len() > 0 {
            assert(rest.last() == digits.last());
        }
        lemma_digits_of_magnitude(rest);
        let m = magnitude(digits);
        let r = magnitude(rest);
        assert(m % 10 == digits[0] as nat && m / 10 == r) by (nonlinear_arith)
            requires
                m == digits[0] as nat + 10 * r,
                digits[0] < 10,
        ;
        assert(seq![digits[0]] + rest =~= digits);
    }
}


/// The magnitude of a numeral is ten times what its digits above the first
/// write, where the first is zero.
proof fn lemma_numeral_strip(negative: bool, digits: Seq<u8>, scale: nat)
    requires
        all_digits(digits),
        digits.len() > 0,
        digits.last() != 0,
        scale > 0,
        digits[0] == 0,
    ensures
        digits.len() > 1,
        numeral(negative, magnitude(digits), scale) == numeral(
            negative,
            magnitude(digits.drop_first()),
            (scale - 1) as nat,
        ),
{
    lemma_magnitude_first(digits);
    lemma_magnitude_positive(digits);
    let m = magnitude(digits);
    let r = magnitude(digits.drop_first());
    assert(m % 10 == 0 && m / 10 == r) by (nonlinear_arith)
        requires
            m == 10 * r,
    ;
}

/// A canonical numeral is the numeral of its own value.
pub proof fn lemma_numeral_of_canonical(v: NumberV)
    requires
        v.canonical(),
    ensures
        numeral(v.negative, magnitude(v.digits), v.scale) == v,
{
    if v.digits.len() == 0 {
        assert(v.digits =~= Seq::<u8>::empty());
    } else {
        lemma_magnitude_first(v.digits);
        lemma_magnitude_positive(v.digits);
        lemma_digits_of_magnitude(v.digits);
        let m = magnitude(v.digits);
        let r = magnitude(v.digits.drop_first());
        assert(m % 10 == v.digits[0] as nat) by (nonlinear_arith)
            requires
                m == v.digits[0] as nat + 10 * r,
                v.digits[0] < 10,
        ;
    }
}

/// The position of the decimal point, found by scanning.
pub proof fn lemma_point_position(s: Seq<char>, i: int)
    requires
        0 <= i <= s.len(),
        forall|j: int| 0 <= j < i ==> s[j] != '.',
    ensures
        point_position(s) >= i,
        point_position(s) <= s.len(),
        (i == s.len() || s[i] == '.') ==> point_position(s) == i,
    decreases s.len(),
{
    if s.len() == 0 || s[0] == '.' {
    } else {
        let rest = s.drop_first();
        if i > 0 {
            assert forall|j: int| 0 <= j < i - 1 implies rest[j] != '.' by {
                assert(rest[j] == s[j + 1]);
            }
            lemma_point_position(rest, i - 1);
        } else {
            lemma_point_position(rest, 0);
        }
    }
}

/// A number of the interpreter: an exact decimal numeral.
#[derive(Debug)]
pub struct Number {
    negative: bool,
    digits: Vec<u8>,
    scale: usize,
}

impl Clone for Number {
    /// A copy of the number.
    fn clone(&self) -> (r: Number)
        ensures
            r@ == self@,
    {
        self.copy()
    }
}

impl View for Number {
    type V = NumberV;

    closed spec fn view(&self) -> NumberV {
        NumberV { negative: self.negative, digits: self.digits@, scale: self.scale as nat }
    }
}

impl Number {
    #[verifier::type_invariant]
    spec fn well_formed(self) -> bool {
        self@.canonical()
    }

    /// Brings a sign, digits and a scale into canonical form.
    fn normalized(negative: bool, digits: Vec<u8>, scale: usize) -> (r: Number)
        requires
            all_digits(digits@),
        ensures
            r@ == numeral(negative, magnitude(digits@), scale as nat),
    {
        let ghost target = numeral(negative, magnitude(digits@), scale as nat);
        let mut digits = digits;
        while digits.len() > 0 && digits[digits.len() - 1] == 0
            invariant
                all_digits(digits@),
                numeral(negative, magnitude(digits@), scale as nat) == target,
            decreases digits.len(),
        {
            assert(digits@.last() as nat * pow10((digits@.len() - 1) as nat) == 0)
                by (nonlinear_arith)
                requires
                    digits@.last() == 0,
            ;
            digits.pop();
        }
        if digits.len() == 0 {
            assert(digits@ =~= Seq::<u8>::empty());
            return Number { negative: false, digits, scale: 0 };
        }
        let mut scale = scale;
        while scale > 0 && digits[0] == 0
            invariant
                all_digits(digits@),
                digits.len() > 0,
                digits@.last() != 0,
                numeral(negative, magnitude(digits@), scale as nat) == target,
            decreases scale,
        {
            proof {
                lemma_numeral_strip(negative, digits@, scale as nat);
            }
            let ghost before = digits@;
            digits.remove(0);
            assert(digits@ =~= before.drop_first());
            scale = scale - 1;
        }
        proof {
            lemma_numeral_of_canonical(
                NumberV { negative, digits: digits@, scale: scale as nat },
            );
        }
        Number { negative, digits, scale }
    }

    /// Zero.
    pub fn zero() -> (r: Number)
        ensures
            r@ == NumberV::zero(),
    {
        Number { negative: false, digits: Vec::new(), scale: 0 }
    }

    /// The whole number `n`.
    pub fn from_i64(n: i64) -> (r: Number)
        ensures
            r@ == numeral_of_units(n as int, 0),
    {
        let negative = n < 0;
        let mut m: u64 = if n < 0 {
            (-(n as i128)) as u64
        } else {
            n as u64
        };
        let ghost total = m as nat;
        let mut digits: Vec<u8> = Vec::new();
        assert(pow10(0) == 1);
        assert(magnitude(digits@) == 0);
        while m > 0
            invariant
                all_digits(digits@),
                total == magnitude(digits@) + pow10(digits@.len()) * (m as nat),
            decreases m,
        {
            let d: u8 = (m % 10) as u8;
            proof {
                let ghost k = digits@.len();
                let ghost q = (m / 10) as nat;
                assert(digits@.push(d).drop_last() =~= digits@);
                assert(pow10(k + 1) == 10 * pow10(k));
                assert(pow10(k) * (m as nat) == (d as nat) * pow10(k) + pow10(k + 1) * q)
                    by (nonlinear_arith)
                    requires
                        m as nat == 10 * q + d as nat,
                        pow10(k + 1) == 10 * pow10(k),
                ;
            }
            digits.push(d);
            m = m / 10;
        }
        assert(pow10(digits@.len()) * 0 == 0);
        Number::normalized(negative, digits, 0)
    }

    /// Reads a numeric literal: an optional `-`, digits and, optionally, a
    /// point and more digits. Anything else is no number.
    pub fn parse(text: &Vec<char>) -> (r: Option<Number>)
        ensures
            r is Some <==> is_number_literal(text@),
            r is Some ==> r->Some_0@ == literal_number(text@),
    {
        let negative = text.len() > 0 && text[0] == '-';
        let start: usize = if negative {
            1
        } else {
            0
        };
        let mut body: Vec<char> = Vec::new();
        let mut k: usize = start;
        while k < text.len()
            invariant
                start <= k <= text.len(),
                body@ == text@.subrange(start as int, k as int),
            decreases text.len() - k,
        {
            body.push(text[k]);
            assert(text@.subrange(start as int, k as int).push(text@[k as int]) =~= text@.subrange(
                start as int,
                k + 1,
            ));
            k = k + 1;
        }
        let ghost parts = literal_parts(text@);
        proof {
            if negative {
                assert(body@ =~= text@.drop_first());
            } else {
                assert(body@ =~= text@);
            }
        }
        let n = body.len();
        let ghost point = point_position(body@);
        let mut be: Vec<u8> = Vec::new();
        let mut p: usize = 0;
        while p < n && body[p] != '.'
            invariant
                p <= n,
                n == body.len(),
                parts == literal_parts(text@),
                point == point_position(body@),
                parts.whole == body@.take(point),
                forall|j: int| 0 <= j < p ==> body@[j] != '.' && is_decimal_digit(body@[j]),
                be@.len() == p,
                forall|j: int| 0 <= j < p ==> be@[j] == digit_value(body@[j]),
            decreases n - p,
        {
            let c = body[p];
            if !('0' <= c && c <= '9') {
                proof {
                    lemma_point_position(body@, p + 1);
                    assert(parts.whole[p as int] == body@[p as int]);
                    assert(!is_decimal_digit(parts.whole[p as int]));
                }
                return None;
            }
            be.push((c as u32 - 48) as u8);
            p = p + 1;
        }
        proof {
            lemma_point_position(body@, p as int);
            assert(point == p);
            assert(parts.whole =~= body@.take(p as int));
        }
        if p == 0 {
            return None;
        }
        assert(is_digit_run(parts.whole)) by {
            assert forall|j: int| 0 <= j < parts.whole.len() implies is_decimal_digit(
                #[trigger] parts.whole[j],
            ) by {
                assert(parts.whole[j] == body@[j]);
            }
        }
        let has_point = p < n;
        let mut q: usize = p;
        if has_point {
            q = p + 1;
            assert(parts.fraction =~= body@.skip(p + 1));
            while q < n
                invariant
                    p < q <= n,
                    n == body.len(),
                    parts == literal_parts(text@),
                    parts.has_point,
                    parts.fraction == body@.skip(p + 1),
                    forall|j: int| p < j < q ==> is_decimal_digit(body@[j]),
                    be@.len() == q - 1,
                    forall|j: int| 0 <= j < p ==> be@[j] == digit_value(body@[j]),
                    forall|j: int| p < j < q ==> be@[j - 1] == digit_value(body@[j]),
                decreases n - q,
            {
                let c = body[q];
                if !('0' <= c && c <= '9') {
                    proof {
                        assert(parts.fraction[q - p - 1] == c);
                        assert(!is_decimal_digit(parts.fraction[q - p - 1]));
                    }
                    return None;
                }
                be.push((c as u32 - 48) as u8);
                q = q + 1;
            }
            if q == p + 1 {
                assert(parts.fraction.len() == 0);
                return None;
            }
            assert(is_digit_run(parts.fraction)) by {
                assert forall|j: int| 0 <= j < parts.fraction.len() implies is_decimal_digit(
                    #[trigger] parts.fraction[j],
                ) by {
                    assert(parts.fraction[j] == body@[p + 1 + j]);
                }
            }
        } else {
            assert(parts.fraction =~= Seq::<char>::empty());
        }
        let ghost all = parts.whole + parts.fraction;
        assert(be@.len() == all.len());
        assert forall|j: int| 0 <= j < all.len() implies be@[j] == digit_value(all[j]) && be@[j]
            < 10 by {
            if j < p {
                assert(all[j] == body@[j]);
            } else {
                assert(all[j] == parts.fraction[j - p]);
                assert(all[j] == body@[j + 1]);
            }
        }
        let mut le: Vec<u8> = Vec::new();
        let mut i: usize = be.len();
        while i > 0
            invariant
                i <= be.len(),
                le@.len() == be.len() - i,
                forall|j: int| 0 <= j < be.len() ==> be@[j] < 10,
                forall|j: int| 0 <= j < le@.len() ==> le@[j] == be@[be.len() - 1 - j],
            decreases i,
        {
            i = i - 1;
            le.push(be[i]);
        }
        assert(le@ =~= digits_of_text(all));
        let frac_len: usize = if has_point {
            n - p - 1
        } else {
            0
        };
        Some(Number::normalized(negative, le, frac_len))
    }

    /// Reads a numeric literal from a string, as [`Number::parse`] does from
    /// characters.
    pub fn read(text: &str) -> (r: Option<Number>)
        ensures
            r is Some <==> is_number_literal(text@),
            r is Some ==> r->Some_0@ == literal_number(text@),
    {
        let chars = crate::text::chars_of(text);
        Number::parse(&chars)
    }

    /// Whether two numbers have the same value.
    pub fn equals(&self, other: &Number) -> (r: bool)
        ensures
            r == (self@ == other@),
    {
        if self.negative != other.negative || self.scale != other.scale || self.digits.len()
            != other.digits.len() {
            return false;
        }
        let mut i: usize = 0;
        while i < self.digits.len()
            invariant
                i <= self.digits.len(),
                self.digits.len() == other.digits.len(),
                forall|j: int| 0 <= j < i ==> self.digits@[j] == other.digits@[j],
            decreases self.digits.len() - i,
        {
            if self.digits[i] != other.digits[i] {
                return false;
            }
            i = i + 1;
        }
        assert(self.digits@ =~= other.digits@);
        true
    }

    /// A copy of the number.
    pub fn copy(&self) -> (r: Number)
        ensures
            r@ == self@,
    {
        proof {
            use_type_invariant(self);
        }
        let mut digits: Vec<u8> = Vec::new();
        let mut i: usize = 0;
        while i < self.digits.len()
            invariant
                i <= self.digits.len(),
                digits@ == self.digits@.take(i as int),
            decreases self.digits.len() - i,
        {
            digits.push(self.digits[i]);
            assert(self.digits@.take(i as int).push(self.digits@[i as int]) =~= self.digits@.take(
                i + 1,
            ));
            i = i + 1;
        }
        assert(self.digits@.take(self.digits.len() as int) =~= self.digits@);
        Number { negative: self.negative, digits, scale: self.scale }
    }

    /// The number as text, as [`number_text`] writes it.
    pub fn to_text(&self) -> (r: String)
        ensures
            r@ == number_text(self@),
    {
        proof {
            use_type_invariant(self);
        }
        let mut out = String::new();
        if self.negative {
            push_char(&mut out, '-');
        }
        let ghost sign = out@;
        let len = self.digits.len();
        if len <= self.scale {
            push_char(&mut out, '0');
        } else {
            let ghost whole = self@.integer_digits();
            let mut i: usize = len;
            while i > self.scale
                invariant
                    self.scale <= i <= len,
                    len == self.digits.len(),
                    whole == self.digits@.skip(self.scale as int),
                    all_digits(self.digits@),
                    out@ == sign + digits_text(whole).take(len - i),
                decreases i,
            {
                i = i - 1;
                push_char(&mut out, digit_to_char(self.digits[i]));
                assert(digits_text(whole).take(len - i) =~= digits_text(whole).take(len - i - 1).push(
                    digit_char(self.digits@[i as int] as nat),
                ));
            }
            assert(digits_text(whole).take(len - self.scale) =~= digits_text(whole));
        }
        if self.scale > 0 {
            let ghost head = out@;
            push_char(&mut out, '.');
            let ghost fraction = fraction_text(self.digits@, self.scale as nat);
            let mut i: usize = self.scale;
            while i > 0
                invariant
                    i <= self.scale,
                    len == self.digits.len(),
                    all_digits(self.digits@),
                    fraction == fraction_text(self.digits@, self.scale as nat),
                    out@ == head + seq!['.'] + fraction.take(self.scale - i),
                decreases i,
            {
                i = i - 1;
                let c = if i < len {
                    digit_to_char(self.digits[i])
                } else {
                    '0'
                };
                push_char(&mut out, c);
                assert(fraction.take(self.scale - i) =~= fraction.take(self.scale - i - 1).push(c));
            }
            assert(fraction.take(self.scale as int) =~= fraction);
            assert(out@ =~= head + (seq!['.'] + fraction));
        }
        assert(out@ =~= number_text(self@));
        out
    }
}


/// The first `i` digits of a numeral, or all of them where it has fewer.
pub open spec fn low_digits(digits: Seq<u8>, i: int) -> Seq<u8> {
    if i <= digits.len() {
        digits.take(i)
    } else {
        digits
    }
}

/// The digit at place `i`, zero above the last one.
pub open spec fn digit_at(digits: Seq<u8>, i: int) -> nat {
    if 0 <= i < digits.len() {
        digits[i] as nat
    } else {
        0
    }
}

proof fn lemma_low_digits_step(digits: Seq<u8>, i: int)
    requires
        0 <= i,
    ensures
        magnitude(low_digits(digits, i + 1)) == magnitude(low_digits(digits, i)) + digit_at(
            digits,
            i,
        ) * pow10(i as nat),
{
    let p = pow10(i as nat);
    if i < digits.len() {
        let longer = digits.take(i + 1);
        assert(longer.drop_last() =~= digits.take(i));
        assert(longer.len() == i + 1);
        assert(longer.last() == digits[i]);
        assert(magnitude(longer) == magnitude(longer.drop_last()) + longer.last() as nat * pow10(
            (longer.len() - 1) as nat,
        ));
    } else {
        assert(digits.take(digits.len() as int) =~= digits);
        assert(low_digits(digits, i + 1) == digits);
        assert(low_digits(digits, i) == digits);
        assert(0 * p == 0);
    }
}

/// A numeral is at least what its digits from place `j` on write.
proof fn lemma_magnitude_skip(digits: Seq<u8>, j: int)
    requires
        0 <= j <= digits.len(),
    ensures
        magnitude(digits) == magnitude(digits.take(j)) + pow10(j as nat) * magnitude(
            digits.skip(j),
        ),
        magnitude(digits) >= magnitude(digits.skip(j)),
{
    lemma_magnitude_concat(digits.take(j), digits.skip(j));
    assert(digits.take(j) + digits.skip(j) =~= digits);
    lemma_pow10_positive(j as nat);
    assert(pow10(j as nat) * magnitude(digits.skip(j)) >= magnitude(digits.skip(j)))
        by (nonlinear_arith)
        requires
            pow10(j as nat) >= 1,
    ;
}

/// `digits` with `shift` zeros put below them: ten to the `shift` times
/// as much.
fn shifted(digits: &Vec<u8>, shift: usize) -> (r: Vec<u8>)
    requires
        all_digits(digits@),
    ensures
        all_digits(r@),
        magnitude(r@) == magnitude(digits@) * pow10(shift as nat),
{
    let mut out: Vec<u8> = Vec::new();
    let mut i: usize = 0;
    while i < shift
        invariant
            i <= shift,
            out@.len() == i,
            forall|j: int| 0 <= j < i ==> out@[j] == 0,
        decreases shift - i,
    {
        out.push(0);
        i = i + 1;
    }
    let ghost zeros = out@;
    let mut k: usize = 0;
    while k < digits.len()
        invariant
            k <= digits.len(),
            out@ == zeros + digits@.take(k as int),
        decreases digits.len() - k,
    {
        out.push(digits[k]);
        assert(zeros + digits@.take(k + 1) =~= (zeros + digits@.take(k as int)).push(
            digits@[k as int],
        ));
        k = k + 1;
    }
    proof {
        assert(digits@.take(digits.len() as int) =~= digits@);
        lemma_magnitude_zeros(zeros);
        lemma_magnitude_concat(zeros, digits@);
        assert(pow10(shift as nat) * magnitude(digits@) == magnitude(digits@) * pow10(
            shift as nat,
        )) by (nonlinear_arith);
    }
    out
}

/// The digits of the sum of two magnitudes.
fn add_magnitudes(a: &Vec<u8>, b: &Vec<u8>) -> (r: Vec<u8>)
    requires
        all_digits(a@),
        all_digits(b@),
    ensures
        all_digits(r@),
        magnitude(r@) == magnitude(a@) + magnitude(b@),
{
    let n: usize = if a.len() >= b.len() {
        a.len()
    } else {
        b.len()
    };
    let mut out: Vec<u8> = Vec::new();
    let mut carry: u8 = 0;
    let mut i: usize = 0;
    assert(pow10(0) == 1);
    assert(a@.take(0) =~= Seq::<u8>::empty() && b@.take(0) =~= Seq::<u8>::empty());
    while i < n
        invariant
            i <= n,
            n >= a.len(),
            n >= b.len(),
            all_digits(a@),
            all_digits(b@),
            all_digits(out@),
            out@.len() == i,
            carry <= 1,
            magnitude(out@) + carry as nat * pow10(i as nat) == magnitude(low_digits(a@, i as int))
                + magnitude(low_digits(b@, i as int)),
        decreases n - i,
    {
        let x: u8 = if i < a.len() {
            a[i]
        } else {
            0
        };
        let y: u8 = if i < b.len() {
            b[i]
        } else {
            0
        };
        let t: u8 = x + y + carry;
        let d: u8 = t % 10;
        let c: u8 = t / 10;
        proof {
            lemma_low_digits_step(a@, i as int);
            lemma_low_digits_step(b@, i as int);
            assert(out@.push(d).drop_last() =~= out@);
            let p = pow10(i as nat);
            assert(pow10((i + 1) as nat) == 10 * p);
            assert(d as nat * p + c as nat * (10 * p) == x as nat * p + y as nat * p + carry as nat
                * p) by (nonlinear_arith)
                requires
                    d as nat + 10 * c as nat == x as nat + y as nat + carry as nat,
            ;
        }
        out.push(d);
        carry = c;
        i = i + 1;
    }
    proof {
        assert(out@.push(carry).drop_last() =~= out@);
        assert(a@.take(a@.len() as int) =~= a@);
        assert(b@.take(b@.len() as int) =~= b@);
        assert(low_digits(a@, n as int) == a@);
        assert(low_digits(b@, n as int) == b@);
    }
    out.push(carry);
    out
}

/// The digits of `a - b` where that is not negative; otherwise the second
/// part of the result is true and the digits mean nothing.
fn subtract_magnitudes(a: &Vec<u8>, b: &Vec<u8>) -> (r: (Vec<u8>, bool))
    requires
        all_digits(a@),
        all_digits(b@),
    ensures
        all_digits(r.0@),
        r.1 <==> magnitude(a@) < magnitude(b@),
        !r.1 ==> magnitude(r.0@) == magnitude(a@) - magnitude(b@),
{
    let n: usize = if a.len() >= b.len() {
        a.len()
    } else {
        b.len()
    };
    let mut out: Vec<u8> = Vec::new();
    let mut borrow: u8 = 0;
    let mut i: usize = 0;
    assert(pow10(0) == 1);
    assert(a@.take(0) =~= Seq::<u8>::empty() && b@.take(0) =~= Seq::<u8>::empty());
    while i < n
        invariant
            i <= n,
            n >= a.len(),
            n >= b.len(),
            all_digits(a@),
            all_digits(b@),
            all_digits(out@),
            out@.len() == i,
            borrow <= 1,
            magnitude(out@) - borrow as int * pow10(i as nat) == magnitude(low_digits(a@, i as int))
                - magnitude(low_digits(b@, i as int)),
        decreases n - i,
    {
        let x: u8 = if i < a.len() {
            a[i]
        } else {
            0
        };
        let y: u8 = if i < b.len() {
            b[i]
        } else {
            0
        };
        let need: u8 = y + borrow;
        let d: u8 = if x >= need {
            x - need
        } else {
            x + 10 - need
        };
        let c: u8 = if x >= need {
            0
        } else {
            1
        };
        proof {
            lemma_low_digits_step(a@, i as int);
            lemma_low_digits_step(b@, i as int);
            assert(out@.push(d).drop_last() =~= out@);
            let p = pow10(i as nat);
            assert(pow10((i + 1) as nat) == 10 * p);
            assert(d as int * p - c as int * (10 * p) == x as int * p - y as int * p - borrow as int
                * p) by (nonlinear_arith)
                requires
                    d as int - 10 * c as int == x as int - y as int - borrow as int,
            ;
        }
        out.push(d);
        borrow = c;
        i = i + 1;
    }
    proof {
        lemma_magnitude_bound(out@);
        lemma_pow10_positive(n as nat);
        assert(a@.take(a@.len() as int) =~= a@);
        assert(b@.take(b@.len() as int) =~= b@);
        assert(low_digits(a@, n as int) == a@);
        assert(low_digits(b@, n as int) == b@);
        if borrow == 1 {
            assert(borrow as int * pow10(n as nat) == pow10(n as nat));
        } else {
            assert(borrow as int * pow10(n as nat) == 0);
        }
    }
    (out, borrow == 1)
}

impl Number {
    /// The number with the opposite sign.
    pub fn negate(&self) -> (r: Number)
        ensures
            r@ == negated(self@),
    {
        proof {
            use_type_invariant(self);
        }
        let c = self.copy();
        proof {
            use_type_invariant(&c);
        }
        if c.digits.len() == 0 {
            c
        } else {
            Number { negative: !c.negative, digits: c.digits, scale: c.scale }
        }
    }

    /// The sum of two numbers, exactly.
    pub fn add(&self, other: &Number) -> (r: Number)
        ensures
            r@ == sum(self@, other@),
    {
        proof {
            use_type_invariant(self);
            use_type_invariant(other);
        }
        let k: usize = if self.scale >= other.scale {
            self.scale
        } else {
            other.scale
        };
        let a = shifted(&self.digits, k - self.scale);
        let b = shifted(&other.digits, k - other.scale);
        let ghost ma = magnitude(a@);
        let ghost mb = magnitude(b@);
        assert(self@.units(k as nat) == if self.negative {
            -(ma as int)
        } else {
            ma as int
        });
        assert(other@.units(k as nat) == if other.negative {
            -(mb as int)
        } else {
            mb as int
        });
        if self.negative == other.negative {
            let c = add_magnitudes(&a, &b);
            Number::normalized(self.negative, c, k)
        } else {
            let (c, below) = subtract_magnitudes(&a, &b);
            if below {
                let (c2, below2) = subtract_magnitudes(&b, &a);
                Number::normalized(other.negative, c2, k)
            } else {
                Number::normalized(self.negative, c, k)
            }
        }
    }

    /// The difference of two numbers, exactly.
    pub fn subtract(&self, other: &Number) -> (r: Number)
        ensures
            r@ == difference(self@, other@),
    {
        let minus = other.negate();
        self.add(&minus)
    }

    /// The number rounded toward zero, or the nearest `i64` where that is
    /// out of range.
    pub fn to_i64(&self) -> (r: i64)
        ensures
            r == self@.to_i64(),
    {
        proof {
            use_type_invariant(self);
        }
        let len = self.digits.len();
        if len <= self.scale {
            assert(self@.integer_digits() =~= Seq::<u8>::empty());
            return 0;
        }
        let ghost whole = self@.integer_digits();
        let limit: u128 = 9223372036854775808;
        let mut acc: u128 = 0;
        let mut i: usize = len;
        assert(self.digits@.skip(len as int) =~= Seq::<u8>::empty());
        while i > self.scale
            invariant
                self.scale <= i <= len,
                len == self.digits.len(),
                all_digits(self.digits@),
                whole == self.digits@.skip(self.scale as int),
                limit == 9223372036854775808,
                acc <= limit,
                acc == magnitude(self.digits@.skip(i as int)),
            decreases i,
        {
            i = i - 1;
            let d: u128 = self.digits[i] as u128;
            proof {
                lemma_magnitude_first(self.digits@.skip(i as int));
                assert(self.digits@.skip(i as int).drop_first() =~= self.digits@.skip(i + 1));
            }
            let next: u128 = acc * 10 + d;
            if next > limit {
                proof {
                    assert(whole.skip(i - self.scale) =~= self.digits@.skip(i as int));
                    lemma_magnitude_skip(whole, i - self.scale);
                }
                return if self.negative {
                    i64::MIN
                } else {
                    i64::MAX
                };
            }
            acc = next;
        }
        if self.negative {
            (-(acc as i128)) as i64
        } else if acc == limit {
            i64::MAX
        } else {
            acc as i64
        }
    }
}


/// The character of a digit is a digit character, and writes that digit.
pub proof fn lemma_digit_char(d: u8)
    requires
        d < 10,
    ensures
        is_decimal_digit(digit_char(d as nat)),
        digit_value(digit_char(d as nat)) == d,
        digit_char(d as nat) != '-',
        digit_char(d as nat) != '.',
{
}

/// What a number shows of itself before the decimal point.
pub open spec fn whole_text(v: NumberV) -> Seq<char> {
    if v.integer_digits().len() == 0 {
        seq!['0']
    } else {
        digits_text(v.integer_digits())
    }
}

/// The text of a number reads as that number: a number that is shown
/// and read again is the number it was.
pub proof fn lemma_number_round_trip(v: NumberV)
    requires
        v.canonical(),
    ensures
        is_number_literal(number_text(v)),
        literal_number(number_text(v)) == v,
{
    let text = number_text(v);
    let whole = whole_text(v);
    let frac = fraction_text(v.digits, v.scale);
    let len = v.digits.len() as int;
    let scale = v.scale as int;
    let sign: Seq<char> = if v.negative {
        seq!['-']
    } else {
        Seq::empty()
    };
    let tail: Seq<char> = if v.scale == 0 {
        Seq::empty()
    } else {
        seq!['.'] + frac
    };
    assert(text == sign + whole + tail);
    // The digits before and behind the point are digit characters.
    assert forall|j: int| 0 <= j < whole.len() implies is_decimal_digit(#[trigger] whole[j])
        && whole[j] != '.' by {
        if v.integer_digits().len() == 0 {
        } else {
            let d = v.integer_digits()[v.integer_digits().len() - 1 - j];
            assert(d == v.digits[scale + v.integer_digits().len() - 1 - j]);
            lemma_digit_char(d);
        }
    }
    assert forall|j: int| 0 <= j < frac.len() implies is_decimal_digit(#[trigger] frac[j]) by {
        if scale - 1 - j < len {
            lemma_digit_char(v.digits[scale - 1 - j]);
        }
    }
    // The sign.
    let parts = literal_parts(text);
    assert(whole.len() > 0);
    assert(text[0] == if v.negative {
        '-'
    } else {
        whole[0]
    });
    assert(parts.negative == v.negative);
    let body = whole + tail;
    if v.negative {
        assert(text.drop_first() =~= body);
    } else {
        assert(text =~= body);
    }
    // The point.
    assert forall|j: int| 0 <= j < whole.len() implies body[j] != '.' by {
        assert(body[j] == whole[j]);
    }
    lemma_point_position(body, whole.len() as int);
    assert(parts.whole =~= whole);
    assert(parts.has_point == (v.scale > 0));
    if v.scale > 0 {
        assert(parts.fraction =~= frac);
    } else {
        assert(parts.fraction =~= Seq::<char>::empty());
        assert(frac =~= Seq::<char>::empty());
    }
    assert(parts.fraction == frac);
    assert(is_digit_run(parts.whole));
    // The digits.
    let all = whole + frac;
    let le = digits_of_text(all);
    let extra = (all.len() - len) as nat;
    let zeros = Seq::new(extra, |i: int| 0u8);
    assert(le =~= v.digits + zeros) by {
        assert forall|i: int| 0 <= i < le.len() implies le[i] == (v.digits + zeros)[i] by {
            let c = all[all.len() - 1 - i];
            if i < scale {
                assert(c == frac[scale - 1 - i]);
                if i < len {
                    lemma_digit_char(v.digits[i]);
                }
            } else {
                assert(c == whole[whole.len() - 1 - (i - scale)]);
                if v.integer_digits().len() > 0 {
                    let d = v.integer_digits()[i - scale];
                    assert(d == v.digits[i]);
                    lemma_digit_char(d);
                }
            }
        }
    }
    lemma_magnitude_concat(v.digits, zeros);
    lemma_magnitude_zeros(zeros);
    assert(pow10(v.digits.len()) * 0 == 0);
    lemma_numeral_of_canonical(v);
}


/// The digits of a number above zero are decimal digits, and the last of
/// them is not zero.
pub proof fn lemma_le_digits(n: nat)
    ensures
        all_digits(le_digits(n)),
        n > 0 ==> le_digits(n).len() > 0 && le_digits(n).last() != 0 && le_digits(n)[0] == n % 10,
        n == 0 ==> le_digits(n).len() == 0,
    decreases n,
{
    if n > 0 {
        lemma_le_digits(n / 10);
        let rest = le_digits(n / 10);
        let all = seq![(n % 10) as u8] + rest;
        assert(le_digits(n) == all);
        assert forall|i: int| 0 <= i < all.len() implies all[i] < 10 by {
            if i > 0 {
                assert(all[i] == rest[i - 1]);
            }
        }
        if n / 10 > 0 {
            assert(all.last() == rest.last());
        } else {
            assert(rest.len() == 0);
            assert(all.last() == (n % 10) as u8);
        }
    }
}

/// A numeral made by [`numeral`] is canonical.
pub proof fn lemma_numeral_canonical(negative: bool, m: nat, scale: nat)
    ensures
        numeral(negative, m, scale).canonical(),
    decreases scale,
{
    if m == 0 {
    } else if scale > 0 && m % 10 == 0 {
        lemma_numeral_canonical(negative, m / 10, (scale - 1) as nat);
    } else {
        lemma_le_digits(m);
    }
}

/// Every numeric literal, canonical or not, is shown as a text that reads
/// as the same number.
pub proof fn lemma_literal_round_trip(text: Seq<char>)
    requires
        is_number_literal(text),
    ensures
        literal_number(text).canonical(),
        is_number_literal(number_text(literal_number(text))),
        literal_number(number_text(literal_number(text))) == literal_number(text),
{
    let parts = literal_parts(text);
    lemma_numeral_canonical(
        parts.negative,
        magnitude(digits_of_text(parts.whole + parts.fraction)),
        parts.fraction.len(),
    );
    lemma_number_round_trip(literal_number(text));
}

} // verus!
