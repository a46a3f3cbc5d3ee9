//! Decimal numbers as DynamoDB's `N` type holds them.
//!
//! A [`Number`] has the shape of a `rust_decimal::Decimal`: a sign, a 96-bit
//! magnitude and a scale (the count of digits after the decimal point, at most
//! 28). Its value is `± magnitude / 10^scale`. Parsing, printing and comparing
//! are done by `rust_decimal`.
use vstd::prelude::*;
use vstd::arithmetic::power::pow;

use std::str::FromStr;
use rust_decimal::Decimal;

verus! {

/// The largest magnitude a decimal can hold (`2^96 - 1`).
pub const MAX_MAGNITUDE: u128 = 0xFFFF_FFFF_FFFF_FFFF_FFFF_FFFFu128;

/// The largest scale a decimal can hold.
pub const MAX_SCALE: u32 = 28u32;

/// A decimal number `± magnitude / 10^scale`.
#[derive(Clone, Copy, Debug, PartialEq, Eq)]
pub struct Number {
    pub negative: bool,
    pub magnitude: u128,
    pub scale: u32,
}

impl Number {
    /// Within the range that a `rust_decimal::Decimal` can represent. A zero
    /// may carry either sign, as a `Decimal` may (`-0.1e-28` parses to a
    /// negative zero); it compares equal to an unsigned zero.
    pub open spec fn wf(self) -> bool {
        &&& self.magnitude <= MAX_MAGNITUDE
        &&& self.scale <= MAX_SCALE
    }

    /// The signed magnitude, `± magnitude`.
    pub open spec fn signed(self) -> int {
        if self.negative {
            -(self.magnitude as int)
        } else {
            self.magnitude as int
        }
    }

    /// The plain-value view used by contracts: sign, magnitude, scale.
    pub open spec fn parts(self) -> (bool, nat, nat) {
        (self.negative, self.magnitude as nat, self.scale as nat)
    }

    /// The number for an integer: scale 0.
    pub fn from_int(v: i64) -> (r: Number)
        ensures
            r.wf(),
            r.scale == 0,
            r.signed() == v as int,
            r.negative == (v < 0),
            r.magnitude == if v < 0 { -(v as int) } else { v as int },
    {
        if v < 0 {
            let m: u128 = (0i128 - (v as i128)) as u128;
            Number { negative: true, magnitude: m, scale: 0 }
        } else {
            Number { negative: false, magnitude: v as u128, scale: 0 }
        }
    }
}

impl From<i32> for Number {
    fn from(v: i32) -> (r: Number) {
        Number::from_int(v as i64)
    }
}

impl vstd::std_specs::convert::FromSpecImpl<i32> for Number {
    open spec fn obeys_from_spec() -> bool {
        true
    }

    open spec fn from_spec(v: i32) -> Number {
        if v < 0 {
            Number { negative: true, magnitude: (-(v as int)) as u128, scale: 0 }
        } else {
            Number { negative: false, magnitude: v as u128, scale: 0 }
        }
    }
}

/// `10^e`.
pub open spec fn pow10(e: nat) -> int {
    pow(10, e)
}

/// `a < b` as numbers.
pub open spec fn num_lt(a: Number, b: Number) -> bool {
    a.signed() * pow10(b.scale as nat) < b.signed() * pow10(a.scale as nat)
}

/// `a == b` as numbers (whatever their scales).
pub open spec fn num_eq(a: Number, b: Number) -> bool {
    a.signed() * pow10(b.scale as nat) == b.signed() * pow10(a.scale as nat)
}

/// Three-way numeric comparison: -1, 0 or 1.
pub open spec fn num_order(a: Number, b: Number) -> int {
    if num_lt(a, b) {
        -1
    } else if num_eq(a, b) {
        0
    } else {
        1
    }
}

pub proof fn lemma_pow10_positive(e: nat)
    ensures
        pow10(e) > 0,
{
    vstd::arithmetic::power::lemma_pow_positive(10, e);
}

/// Numeric comparison is a strict order that is total up to numeric equality.
pub proof fn lemma_num_order(a: Number, b: Number)
    ensures
        num_lt(a, b) ==> !num_lt(b, a) && !num_eq(a, b),
        num_eq(a, b) == num_eq(b, a),
        num_lt(a, b) || num_lt(b, a) || num_eq(a, b),
        num_order(a, b) == -num_order(b, a),
{
}

pub proof fn lemma_num_lt_transitive(a: Number, b: Number, c: Number)
    requires
        num_lt(a, b),
        num_lt(b, c),
    ensures
        num_lt(a, c),
{
    let (x, y, z) = (a.signed(), b.signed(), c.signed());
    let (pa, pb, pc) = (pow10(a.scale as nat), pow10(b.scale as nat), pow10(c.scale as nat));
    lemma_pow10_positive(a.scale as nat);
    lemma_pow10_positive(b.scale as nat);
    lemma_pow10_positive(c.scale as nat);
    assert(x * pc < z * pa) by (nonlinear_arith)
        requires
            x * pb < y * pa,
            y * pc < z * pb,
            pa > 0,
            pb > 0,
            pc > 0,
    {
        assert(x * pb * pc < y * pa * pc);
        assert(y * pc * pa < z * pb * pa);
        assert(x * pc * pb < z * pa * pb);
    }
}

pub proof fn lemma_num_eq_transitive(a: Number, b: Number, c: Number)
    requires
        num_eq(a, b),
        num_eq(b, c),
    ensures
        num_eq(a, c),
{
    let (x, y, z) = (a.signed(), b.signed(), c.signed());
    let (pa, pb, pc) = (pow10(a.scale as nat), pow10(b.scale as nat), pow10(c.scale as nat));
    lemma_pow10_positive(b.scale as nat);
    assert(x * pc == z * pa) by (nonlinear_arith)
        requires
            x * pb == y * pa,
            y * pc == z * pb,
            pb > 0,
    {
        assert(x * pb * pc == y * pa * pc);
        assert(y * pc * pa == z * pb * pa);
        assert((x * pc - z * pa) * pb == 0);
    }
}

pub proof fn lemma_num_lt_eq(a: Number, b: Number, c: Number)
    ensures
        num_lt(a, b) && num_eq(b, c) ==> num_lt(a, c),
        num_eq(a, b) && num_lt(b, c) ==> num_lt(a, c),
{
    let (x, y, z) = (a.signed(), b.signed(), c.signed());
    let (pa, pb, pc) = (pow10(a.scale as nat), pow10(b.scale as nat), pow10(c.scale as nat));
    lemma_pow10_positive(a.scale as nat);
    lemma_pow10_positive(b.scale as nat);
    lemma_pow10_positive(c.scale as nat);
    if num_lt(a, b) && num_eq(b, c) {
        assert(x * pc < z * pa) by (nonlinear_arith)
            requires
                x * pb < y * pa,
                y * pc == z * pb,
                pa > 0,
                pb > 0,
                pc > 0,
        {
            assert(x * pb * pc < y * pa * pc);
            assert(y * pc * pa == z * pb * pa);
        }
    }
    if num_eq(a, b) && num_lt(b, c) {
        assert(x * pc < z * pa) by (nonlinear_arith)
            requires
                x * pb == y * pa,
                y * pc < z * pb,
                pa > 0,
                pb > 0,
                pc > 0,
        {
            assert(x * pb * pc == y * pa * pc);
            assert(y * pc * pa < z * pb * pa);
        }
    }
}

/// The decimal digits of `m`, most significant first, without leading
/// zeros (empty for zero).
pub open spec fn digits_of(m: nat) -> Seq<char>
    decreases m,
{
    if m == 0 {
        Seq::empty()
    } else {
        digits_of(m / 10).push(((48 + m % 10) as u8) as char)
    }
}

/// `n` characters `'0'`.
pub open spec fn zeros(n: nat) -> Seq<char> {
    Seq::new(n, |i: int| '0')
}

/// `"0"` in place of an empty run of whole digits.
pub open spec fn whole_part(whole: Seq<char>) -> Seq<char> {
    if whole.len() == 0 {
        seq!['0']
    } else {
        whole
    }
}

/// The text `rust_decimal` prints for a number: the magnitude's digits,
/// left-padded with zeros to at least `scale` digits, a `.` before the last
/// `scale` of them (with `0` for an empty whole part), and a leading `-` when
/// the sign is negative.
pub open spec fn decimal_text(n: Number) -> Seq<char> {
    let d = digits_of(n.magnitude as nat);
    let s = n.scale as nat;
    let padded = if d.len() < s {
        zeros((s - d.len()) as nat) + d
    } else {
        d
    };
    let whole = padded.take(padded.len() - s);
    let frac = padded.skip(padded.len() - s);
    let body = if s == 0 {
        whole_part(whole)
    } else {
        whole_part(whole) + seq!['.'] + frac
    };
    if n.negative {
        seq!['-'] + body
    } else {
        body
    }
}

/// What `rust_decimal::Decimal::from_str` makes of a text: the sign,
/// magnitude and scale of the decimal, or the text of its error.
pub uninterp spec fn decimal_parse(text: Seq<char>) -> Result<(bool, nat, nat), Seq<char>>;

/// Parses a decimal number with `Decimal::from_str`. On success the result
/// carries the parsed decimal's sign, magnitude and scale, which are within a
/// decimal's range (a zero may come back with either sign); on failure, the
/// error's message.
#[verifier::external_body]
pub fn parse_number(text: &str) -> (r: Result<Number, String>)
    ensures
        match r {
            Ok(n) => n.wf() && decimal_parse(text@) == Ok::<(bool, nat, nat), Seq<char>>(
                n.parts(),
            ),
            Err(e) => decimal_parse(text@) == Err::<(bool, nat, nat), Seq<char>>(e@),
        },
{
    match Decimal::from_str(text) {
        Ok(d) => Ok(Number {
            negative: d.is_sign_negative(),
            magnitude: d.mantissa().unsigned_abs(),
            scale: d.scale(),
        }),
        Err(e) => Err(e.to_string()),
    }
}

/// Prints a number as `rust_decimal`'s `Display` does (see [`decimal_text`]).
#[verifier::external_body]
pub fn number_text(n: &Number) -> (r: String)
    requires
        n.wf(),
    ensures
        r@ == decimal_text(*n),
{
    let mut d = Decimal::from_i128_with_scale(n.magnitude as i128, n.scale);
    d.set_sign_negative(n.negative);
    d.to_string()
}

/// Compares two numbers by value with `Decimal`'s `<` and `==`: -1, 0 or 1
/// as `a` is below, equal to or above `b`, whatever their scales.
#[verifier::external_body]
pub fn compare_numbers(a: &Number, b: &Number) -> (r: i8)
    requires
        a.wf(),
        b.wf(),
    ensures
        r as int == num_order(*a, *b),
{
    let mut x = Decimal::from_i128_with_scale(a.magnitude as i128, a.scale);
    x.set_sign_negative(a.negative);
    let mut y = Decimal::from_i128_with_scale(b.magnitude as i128, b.scale);
    y.set_sign_negative(b.negative);
    if x < y {
        -1
    } else if x == y {
        0
    } else {
        1
    }
}

} // verus!
