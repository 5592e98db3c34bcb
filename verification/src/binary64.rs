//! Percentages as the usage services report them: IEEE 754 binary64 numbers, held
//! by their bit patterns and worked on in integer arithmetic.
//!
//! A number that is not NaN is a signed whole multiple of 2^-1074, the smallest
//! positive one. [`Binary64::magnitude`] is that multiple, so that the number `n`
//! has magnitude `n * unit()`. The infinities fit in: they have the magnitude that
//! follows the largest finite one.

use vstd::arithmetic::div_mod::*;
use vstd::arithmetic::mul::*;
use vstd::arithmetic::power2::*;
use vstd::bits::*;
use vstd::prelude::*;

use crate::text;

verus! {

/// 2^52: the weight of the exponent field, and the implicit leading digit.
pub const HIDDEN: u64 = 0x0010_0000_0000_0000;

/// 2^63: the weight of the sign bit.
pub const SIGN: u64 = 0x8000_0000_0000_0000;

/// The bit pattern of 1.
pub const ONE_BITS: u64 = 0x3FF0_0000_0000_0000;

/// The bit pattern of 100.
pub const HUNDRED_BITS: u64 = 0x4059_0000_0000_0000;

/// A binary64 number, by its bit pattern.
#[derive(Clone, Copy, Debug, PartialEq, Eq, Structural)]
pub struct Binary64 {
    pub bits: u64,
}

/// The magnitude of the number 1.
pub open spec fn unit() -> nat {
    pow2(1074)
}

impl Binary64 {
    /// The sign bit is set.
    pub open spec fn sign(self) -> bool {
        self.bits >= SIGN
    }

    /// The exponent field.
    pub open spec fn exponent(self) -> nat {
        ((self.bits / HIDDEN) % 2048) as nat
    }

    /// The fraction field.
    pub open spec fn fraction(self) -> nat {
        (self.bits % HIDDEN) as nat
    }

    pub open spec fn nan(self) -> bool {
        self.exponent() == 2047 && self.fraction() != 0
    }

    pub open spec fn infinite(self) -> bool {
        self.exponent() == 2047 && self.fraction() == 0
    }

    /// The digits of the number: `magnitude` is this times a power of two.
    pub open spec fn significand(self) -> nat {
        if self.exponent() == 0 {
            self.fraction()
        } else {
            HIDDEN as nat + self.fraction()
        }
    }

    /// The power of two by which the digits count.
    pub open spec fn scale(self) -> nat {
        if self.exponent() == 0 {
            0
        } else {
            (self.exponent() - 1) as nat
        }
    }

    /// The absolute value of a number other than NaN, in units of 2^-1074.
    pub open spec fn magnitude(self) -> nat {
        self.significand() * pow2(self.scale())
    }

    /// The value of a number other than NaN, in units of 2^-1074.
    pub open spec fn value(self) -> int {
        if self.sign() {
            -self.magnitude()
        } else {
            self.magnitude() as int
        }
    }

    /// An integer that orders the numbers as their values do.
    pub open spec fn key(self) -> int {
        if self.sign() {
            SIGN - self.bits
        } else {
            self.bits as int
        }
    }

    /// The number is at most `other`. NaN compares with nothing.
    pub open spec fn le(self, other: Binary64) -> bool {
        !self.nan() && !other.nan() && self.value() <= other.value()
    }
}

/// Of two patterns without the sign bit the smaller one has the smaller magnitude.
proof fn lemma_magnitude_order(a: Binary64, b: Binary64)
    requires
        a.bits < b.bits < SIGN,
    ensures
        a.magnitude() < b.magnitude(),
{
    let h = HIDDEN as nat;
    let ea = a.exponent();
    let eb = b.exponent();
    assert(a.bits / HIDDEN < 2048);
    assert(b.bits / HIDDEN < 2048);
    assert(a.bits == ea * h + a.fraction());
    assert(b.bits == eb * h + b.fraction());
    let pa = pow2(a.scale());
    let pb = pow2(b.scale());
    lemma_pow2_pos(a.scale());
    lemma_pow2_pos(b.scale());
    if ea == eb {
        lemma_mul_strict_inequality(a.significand() as int, b.significand() as int, pa as int);
    } else {
        assert(ea < eb);
        if ea == 0 {
            lemma2_to64();
            assert(a.magnitude() == a.fraction()) by {
                lemma_mul_basics(a.fraction() as int);
            }
            assert(h <= b.significand() * pb) by (nonlinear_arith)
                requires
                    pb >= 1,
                    b.significand() >= h,
            ;
        } else {
            lemma_mul_strict_inequality(a.significand() as int, 2 * h as int, pa as int);
            lemma_pow2_unfold(ea);
            assert(2 * h * pa == h * pow2(ea)) by (nonlinear_arith)
                requires
                    pow2(ea) == 2 * pa,
            ;
            if ea < b.scale() {
                lemma_pow2_strictly_increases(ea, b.scale());
            }
            lemma_mul_inequality(pow2(ea) as int, pb as int, h as int);
            lemma_mul_inequality(h as int, b.significand() as int, pb as int);
            lemma_mul_is_commutative(h as int, pow2(ea) as int);
            lemma_mul_is_commutative(h as int, pb as int);
        }
    }
}

/// The sign bit does not touch the magnitude.
proof fn lemma_sign_is_separate(a: Binary64)
    requires
        a.sign(),
    ensures
        a.magnitude() == (Binary64 { bits: (a.bits - SIGN) as u64 }).magnitude(),
{
    let b = Binary64 { bits: (a.bits - SIGN) as u64 };
    assert(SIGN == 2048 * HIDDEN);
    assert(a.bits == b.bits + 2048 * HIDDEN);
    assert(a.bits / HIDDEN == b.bits / HIDDEN + 2048);
    assert(a.fraction() == b.fraction());
    assert(a.exponent() == b.exponent());
}

/// The pattern 0 has magnitude 0.
proof fn lemma_zero()
    ensures
        (Binary64 { bits: 0 }).magnitude() == 0,
{
    lemma_mul_basics(pow2(0) as int);
}

/// Only the two zeros have magnitude 0.
proof fn lemma_positive(a: Binary64)
    requires
        0 < a.bits < SIGN,
    ensures
        a.magnitude() > 0,
{
    lemma_zero();
    lemma_magnitude_order(Binary64 { bits: 0 }, a);
}

/// Keys order the numbers as their values do.
pub proof fn lemma_key_order(a: Binary64, b: Binary64)
    ensures
        (a.key() <= b.key()) == (a.value() <= b.value()),
        (a.key() < b.key()) == (a.value() < b.value()),
{
    let pa = Binary64 {
        bits: if a.sign() {
            (a.bits - SIGN) as u64
        } else {
            a.bits
        },
    };
    let pb = Binary64 {
        bits: if b.sign() {
            (b.bits - SIGN) as u64
        } else {
            b.bits
        },
    };
    if a.sign() {
        lemma_sign_is_separate(a);
    }
    if b.sign() {
        lemma_sign_is_separate(b);
    }
    lemma_zero();
    if pa.bits > 0 {
        lemma_positive(pa);
    }
    if pb.bits > 0 {
        lemma_positive(pb);
    }
    if pa.bits < pb.bits {
        lemma_magnitude_order(pa, pb);
    } else if pb.bits < pa.bits {
        lemma_magnitude_order(pb, pa);
    }
}

/// A normal number whose digits are a whole number of ones.
proof fn lemma_whole_number(x: Binary64, n: nat)
    requires
        !x.sign(),
        1 <= x.exponent() <= 1075,
        x.significand() == n * pow2((1075 - x.exponent()) as nat),
    ensures
        x.magnitude() == n * unit(),
        x.value() == n * unit(),
{
    let k = (1075 - x.exponent()) as nat;
    lemma_pow2_adds(k, x.scale());
    lemma_mul_is_associative(n as int, pow2(k) as int, pow2(x.scale()) as int);
}

/// What the named patterns are worth.
pub proof fn lemma_named_patterns()
    ensures
        (Binary64 { bits: 0 }).value() == 0,
        (Binary64 { bits: ONE_BITS }).value() == unit(),
        (Binary64 { bits: HUNDRED_BITS }).value() == 100 * unit(),
        unit() > 0,
{
    lemma2_to64_rest();
    lemma_pow2_pos(1074);
    lemma_zero();
    assert(ONE_BITS / HIDDEN == 1023 && ONE_BITS % HIDDEN == 0);
    lemma_whole_number(Binary64 { bits: ONE_BITS }, 1);
    assert(HUNDRED_BITS / HIDDEN == 1029 && HUNDRED_BITS % HIDDEN == 0x9_0000_0000_0000);
    lemma_whole_number(Binary64 { bits: HUNDRED_BITS }, 100);
}

impl Binary64 {
    /// Tests for NaN.
    pub fn is_nan(self) -> (yes: bool)
        ensures
            yes == self.nan(),
    {
        (self.bits / HIDDEN) % 2048 == 2047 && self.bits % HIDDEN != 0
    }

    /// Tests for an infinity of either sign.
    pub fn is_infinite(self) -> (yes: bool)
        ensures
            yes == self.infinite(),
    {
        (self.bits / HIDDEN) % 2048 == 2047 && self.bits % HIDDEN == 0
    }

    /// Tests `self <= other`.
    pub fn at_most(self, other: Binary64) -> (yes: bool)
        ensures
            yes == self.le(other),
    {
        proof {
            lemma_key_order(self, other);
        }
        if self.is_nan() || other.is_nan() {
            return false;
        }
        if self.bits >= SIGN {
            if other.bits >= SIGN {
                self.bits >= other.bits
            } else {
                true
            }
        } else {
            if other.bits >= SIGN {
                self.bits == 0 && other.bits == SIGN
            } else {
                self.bits <= other.bits
            }
        }
    }

    /// Tests for a zero of either sign.
    pub fn is_zero(self) -> (yes: bool)
        ensures
            yes == (!self.nan() && self.value() == 0),
    {
        proof {
            lemma_named_patterns();
            lemma_key_order(self, Binary64 { bits: 0 });
        }
        self.bits == 0 || self.bits == SIGN
    }
}

/// A utilization within 0 and 1. NaN, an infinity and a negative number count as 0.
pub open spec fn clamped(raw: Binary64) -> Binary64 {
    if raw.nan() || raw.infinite() || raw.value() < 0 {
        Binary64 { bits: 0 }
    } else if raw.value() > unit() {
        Binary64 { bits: ONE_BITS }
    } else {
        raw
    }
}

/// Brings a reported utilization into the range from 0 to 1.
pub fn clamp_utilization(raw: Binary64) -> (fraction: Binary64)
    ensures
        fraction == clamped(raw),
        !fraction.nan(),
        0 <= fraction.value() <= unit(),
{
    proof {
        lemma_named_patterns();
        lemma_key_order(raw, Binary64 { bits: 0 });
        lemma_key_order(raw, Binary64 { bits: ONE_BITS });
        assert(ONE_BITS / HIDDEN == 1023 && ONE_BITS % HIDDEN == 0);
    }
    if raw.is_nan() || raw.is_infinite() || raw.bits > SIGN {
        return Binary64 { bits: 0 };
    }
    if raw.bits != SIGN && raw.bits > ONE_BITS {
        return Binary64 { bits: ONE_BITS };
    }
    raw
}

/// 2 to the power `k`.
fn power_of_two(k: u32) -> (p: u64)
    requires
        k < 64,
    ensures
        p == pow2(k as nat),
{
    proof {
        lemma2_to64();
        lemma2_to64_rest();
        if k < 63 {
            lemma_pow2_strictly_increases(k as nat, 63);
        }
        assert(1 * pow2(k as nat) == pow2(k as nat));
        lemma_u64_shl_is_mul(1, k as u64);
    }
    1u64 << (k as u64)
}

impl Binary64 {
    /// The exponent field.
    fn exponent_field(self) -> (e: u64)
        ensures
            e == self.exponent(),
            e < 2048,
    {
        (self.bits / HIDDEN) % 2048
    }

    /// The digits of the number (see [`Binary64::significand`]).
    fn digits(self) -> (m: u64)
        ensures
            m == self.significand(),
            m < 2 * HIDDEN,
            self.exponent() > 0 ==> m >= HIDDEN,
    {
        if self.exponent_field() == 0 {
            self.bits % HIDDEN
        } else {
            HIDDEN + self.bits % HIDDEN
        }
    }
}

/// A common factor cancels from a quotient.
proof fn lemma_cancel(a: nat, b: nat, p: nat)
    requires
        b > 0,
        p > 0,
    ensures
        (a * p) / (b * p) == a / b,
        (a * p) % (b * p) == (a % b) * p,
{
    lemma_div_denominator((a * p) as int, p as int, b as int);
    lemma_div_by_multiple(a as int, p as int);
    lemma_mul_is_commutative(b as int, p as int);
    lemma_mul_strictly_positive(b as int, p as int);
    let q = a / b;
    let r = a % b;
    lemma_fundamental_div_mod(a as int, b as int);
    lemma_fundamental_div_mod((a * p) as int, (b * p) as int);
    assert(a * p == (b * p) * q + r * p) by (nonlinear_arith)
        requires
            a == b * q + r,
    ;
}

/// The nearest whole number to `magnitude`, halves away from zero.
pub open spec fn rounded_away(magnitude: nat) -> nat {
    (magnitude + pow2(1073)) / unit()
}

/// The nearest whole number to `magnitude`, halves to the even neighbour.
pub open spec fn rounded_even(magnitude: nat) -> nat {
    let whole = magnitude / unit();
    let rest = magnitude % unit();
    if 2 * rest < unit() || (2 * rest == unit() && whole % 2 == 0) {
        whole
    } else {
        whole + 1
    }
}

/// The whole number is the one next to `magnitude`: not more than half away, and even if it
/// is half away.
pub open spec fn nearest_whole(magnitude: nat, whole: nat) -> bool {
    let off = whole * unit() - magnitude;
    (-unit() < 2 * off && 2 * off < unit()) || ((2 * off == unit() || 2 * off == -unit()) && whole
        % 2 == 0)
}

/// Rounding to even gives the nearest whole number, and there is only one.
pub proof fn law_rounded_even_is_nearest(magnitude: nat, whole: nat)
    ensures
        nearest_whole(magnitude, rounded_even(magnitude)),
        nearest_whole(magnitude, whole) ==> whole == rounded_even(magnitude),
{
    let u = unit() as int;
    lemma_pow2_pos(1074);
    let q = magnitude as int / u;
    let r = magnitude as int % u;
    lemma_fundamental_div_mod(magnitude as int, u);
    assert(u * q == q * u) by (nonlinear_arith);
    assert((q + 1) * u == q * u + u) by (nonlinear_arith);
    if nearest_whole(magnitude, whole) {
        let w = whole as int;
        if w <= q - 1 {
            assert(w * u <= q * u - u) by (nonlinear_arith)
                requires
                    w <= q - 1,
                    u > 0,
            ;
        } else if w >= q + 2 {
            assert(w * u >= q * u + 2 * u) by (nonlinear_arith)
                requires
                    w >= q + 2,
                    u > 0,
            ;
        }
    }
}

/// Rounding away from zero gives the nearest whole number, the larger of two that are
/// equally near.
pub proof fn law_rounded_away_is_nearest(magnitude: nat)
    ensures
        -unit() <= 2 * (magnitude - rounded_away(magnitude) * unit()) < unit(),
{
    lemma_pow2_pos(1074);
    lemma_pow2_unfold(1074);
    let u = unit() as int;
    let n = magnitude + pow2(1073);
    lemma_fundamental_div_mod(n as int, u);
    assert(u * (n as int / u) == (n as int / u) * u) by (nonlinear_arith);
}

/// What is drawn of a percentage is the nearest whole number, held within 0 and 999.
pub proof fn law_render_key_is_nearest(percent: Binary64)
    requires
        !percent.nan(),
    ensures
        render_key(percent) <= 999,
        percent.value() <= 0 ==> render_key(percent) == 0,
        0 <= 2 * percent.value() < 1997 * unit() ==> -unit() <= 2 * (percent.value()
            - render_key(percent) * unit()) < unit(),
        2 * percent.value() >= 1997 * unit() ==> render_key(percent) == 999,
{
    let mag = percent.magnitude();
    law_rounded_away_is_nearest(mag);
    lemma_pow2_pos(1074);
    let r = rounded_away(mag) as int;
    let u = unit() as int;
    if r >= 999 {
        assert(r * u >= 999 * u) by (nonlinear_arith)
            requires
                r >= 999,
                u > 0,
        ;
    } else {
        assert(r * u <= 998 * u) by (nonlinear_arith)
            requires
                r <= 998,
                u > 0,
        ;
    }
    if r >= 1 {
        assert(r * u >= u) by (nonlinear_arith)
            requires
                r >= 1,
                u > 0,
        ;
    }
    if percent.value() == 0 {
        assert(mag == 0);
    }
}

/// The part of a usage value that affects how the badge is drawn: the rounded
/// percentage brought into the range from 0 to 999. NaN counts as 0.
pub open spec fn render_key(percent: Binary64) -> u32 {
    if percent.nan() || percent.sign() {
        0
    } else if rounded_away(percent.magnitude()) >= 999 {
        999
    } else {
        rounded_away(percent.magnitude()) as u32
    }
}

/// A number with exponent field `e` is less than 2^(e - 1022) ones, and not less
/// than half of that if the field is not zero.
proof fn lemma_magnitude_bounds(x: Binary64)
    ensures
        x.magnitude() < pow2(x.scale() + 53),
        x.exponent() > 0 ==> x.magnitude() >= pow2(x.scale() + 52),
{
    lemma2_to64_rest();
    let p = pow2(x.scale());
    lemma_pow2_pos(x.scale());
    lemma_pow2_adds(53, x.scale());
    lemma_pow2_adds(52, x.scale());
    lemma_mul_strict_inequality(x.significand() as int, pow2(53) as int, p as int);
    if x.exponent() > 0 {
        lemma_mul_inequality(pow2(52) as int, x.significand() as int, p as int);
    }
}

/// The rendered number of a percentage (see [`render_key`]).
pub fn render_percent(percent: Binary64) -> (key: u32)
    ensures
        key == render_key(percent),
        key <= 999,
{
    if percent.is_nan() || percent.bits >= SIGN {
        return 0;
    }
    let e = percent.exponent_field();
    let m = percent.digits();
    let ghost mag = percent.magnitude();
    proof {
        lemma_magnitude_bounds(percent);
        lemma_pow2_pos(1074);
        lemma_pow2_unfold(1074);
    }
    if e >= 1033 {
        proof {
            // At least 1024 ones.
            lemma_pow2_adds(10, 1074);
            lemma2_to64();
            if percent.scale() + 52 > 1084 {
                lemma_pow2_strictly_increases(1084, percent.scale() + 52);
            }
            assert(mag >= 1024 * unit());
            lemma_div_is_ordered(1024 * unit() as int, (mag + pow2(1073)) as int, unit() as int);
            lemma_div_by_multiple(1024, unit() as int);
        }
        return 999;
    }
    if e < 1022 {
        proof {
            // Less than half a one.
            if percent.scale() + 53 < 1073 {
                lemma_pow2_strictly_increases(percent.scale() + 53, 1073);
            }
            assert(mag + pow2(1073) < unit());
            lemma_basic_div((mag + pow2(1073)) as int, unit() as int);
        }
        return 0;
    }
    let k: u32 = 1075 - e as u32;
    let half = power_of_two(k - 1);
    let whole = power_of_two(k);
    proof {
        lemma2_to64_rest();
        lemma_pow2_unfold(k as nat);
        if k < 53 {
            lemma_pow2_strictly_increases(k as nat, 53);
        }
        let p = pow2(percent.scale());
        lemma_pow2_pos(percent.scale());
        lemma_pow2_adds(k as nat, percent.scale());
        lemma_pow2_adds((k - 1) as nat, percent.scale());
        lemma_mul_is_distributive_add_other_way(p as int, m as int, half as int);
        lemma_cancel((m + half) as nat, whole as nat, p);
        assert(rounded_away(mag) == (m + half) / whole as int);
    }
    let rounded = (m + half) / whole;
    if rounded >= 999 {
        999
    } else {
        rounded as u32
    }
}

/// The number that decimal digits write, least significant first.
pub open spec fn digits_value(digits: Seq<u8>) -> nat
    decreases digits.len(),
{
    if digits.len() == 0 {
        0
    } else {
        digits[0] as nat + 10 * digits_value(digits.drop_first())
    }
}

/// Decimal digits, least significant first, without leading zeros.
pub open spec fn is_digit_list(digits: Seq<u8>) -> bool {
    &&& digits.len() > 0
    &&& forall|i: int| 0 <= i < digits.len() ==> #[trigger] digits[i] < 10
    &&& digits.last() > 0
}

/// The digits of twice the number, plus a carry.
spec fn doubled(digits: Seq<u8>, carry: nat) -> Seq<u8>
    decreases digits.len(),
{
    if digits.len() == 0 {
        if carry == 0 {
            Seq::empty()
        } else {
            seq![carry as u8]
        }
    } else {
        let sum = 2 * digits[0] as nat + carry;
        seq![(sum % 10) as u8] + doubled(digits.drop_first(), sum / 10)
    }
}

/// Doubling digits doubles the number.
proof fn lemma_doubled(digits: Seq<u8>, carry: nat)
    requires
        forall|i: int| 0 <= i < digits.len() ==> #[trigger] digits[i] < 10,
        carry <= 1,
    ensures
        digits_value(doubled(digits, carry)) == 2 * digits_value(digits) + carry,
        forall|i: int|
            0 <= i < doubled(digits, carry).len() ==> #[trigger] doubled(digits, carry)[i] < 10,
        digits.len() > 0 && digits.last() > 0 ==> doubled(digits, carry).len() > 0 && doubled(
            digits,
            carry,
        ).last() > 0,
        doubled(digits, carry).len() >= digits.len(),
    decreases digits.len(),
{
    let out = doubled(digits, carry);
    if digits.len() == 0 {
        if carry > 0 {
            assert(out.drop_first().len() == 0);
            assert(digits_value(out.drop_first()) == 0);
        }
    } else {
        let sum = 2 * digits[0] as nat + carry;
        let rest = digits.drop_first();
        lemma_doubled(rest, sum / 10);
        assert(out.drop_first() =~= doubled(rest, sum / 10));
        assert forall|i: int| 0 <= i < out.len() implies #[trigger] out[i] < 10 by {
            if i > 0 {
                assert(out[i] == doubled(rest, sum / 10)[i - 1]);
            }
        }
        if digits.last() > 0 {
            if rest.len() > 0 {
                assert(rest.last() == digits.last());
                assert(out.last() == doubled(rest, sum / 10).last());
            } else if sum >= 10 {
                assert(doubled(rest, sum / 10) =~= seq![(sum / 10) as u8]);
            }
        }
    }
}

/// Doubles the number that `digits` write.
fn double_digits(digits: &Vec<u8>) -> (twice: Vec<u8>)
    requires
        is_digit_list(digits@),
    ensures
        is_digit_list(twice@),
        digits_value(twice@) == 2 * digits_value(digits@),
{
    let mut twice: Vec<u8> = Vec::new();
    let mut carry: u8 = 0;
    let mut i: usize = 0;
    assert(digits@.skip(0) == digits@);
    assert(twice@ + doubled(digits@, 0) =~= doubled(digits@, 0));
    while i < digits.len()
        invariant
            i <= digits@.len(),
            carry <= 1,
            forall|j: int| 0 <= j < digits@.len() ==> #[trigger] digits@[j] < 10,
            twice@ + doubled(digits@.skip(i as int), carry as nat) == doubled(digits@, 0),
        decreases digits@.len() - i,
    {
        let ghost rest = digits@.skip(i as int);
        let ghost before = twice@;
        let sum: u8 = 2 * digits[i] + carry;
        assert(rest[0] == digits@[i as int]);
        twice.push(sum % 10);
        proof {
            assert(rest.drop_first() == digits@.skip(i + 1));
            assert(twice@ + doubled(digits@.skip(i + 1), (sum / 10) as nat) =~= before + doubled(
                rest,
                carry as nat,
            ));
        }
        carry = sum / 10;
        i += 1;
    }
    let ghost before = twice@;
    if carry > 0 {
        twice.push(carry);
    }
    proof {
        assert(twice@ =~= before + doubled(digits@.skip(i as int), carry as nat));
        lemma_doubled(digits@, 0);
    }
    twice
}

/// The digits of `n`, least significant first.
fn digits_of(n: u64) -> (digits: Vec<u8>)
    requires
        n > 0,
    ensures
        is_digit_list(digits@),
        digits_value(digits@) == n,
    decreases n,
{
    if n < 10 {
        let mut digits: Vec<u8> = Vec::new();
        digits.push(n as u8);
        assert(digits@.drop_first().len() == 0);
        assert(digits_value(digits@.drop_first()) == 0);
        digits
    } else {
        let rest = digits_of(n / 10);
        let mut digits: Vec<u8> = Vec::new();
        digits.push((n % 10) as u8);
        let mut i: usize = 0;
        while i < rest.len()
            invariant
                i <= rest@.len(),
                digits@ == seq![(n % 10) as u8] + rest@.take(i as int),
            decreases rest@.len() - i,
        {
            digits.push(rest[i]);
            assert(digits@ =~= seq![(n % 10) as u8] + rest@.take(i + 1));
            i += 1;
        }
        assert(digits@.drop_first() =~= rest@);
        assert forall|j: int| 0 <= j < digits@.len() implies #[trigger] digits@[j] < 10 by {
            if j > 0 {
                assert(digits@[j] == rest@[j - 1]);
            }
        }
        digits
    }
}

/// The characters of decimal digits, most significant first.
pub open spec fn digit_characters(digits: Seq<u8>) -> Seq<char> {
    Seq::new(digits.len(), |i: int| text::decimal_digit(digits[digits.len() - 1 - i] as nat))
}

/// A digit list writes its number.
proof fn lemma_digit_characters(digits: Seq<u8>)
    requires
        is_digit_list(digits),
    ensures
        digit_characters(digits) == text::decimal(digits_value(digits)),
        digits_value(digits) > 0,
    decreases digits.len(),
{
    let n = digits_value(digits);
    let rest = digits.drop_first();
    if rest.len() == 0 {
        assert(digits_value(rest) == 0);
        assert(n == digits[0]);
        assert(digit_characters(digits) =~= text::decimal(n));
    } else {
        assert(rest.last() == digits.last());
        lemma_digit_characters(rest);
        let v = digits_value(rest);
        assert(n / 10 == v && n % 10 == digits[0]);
        assert(digit_characters(digits) =~= digit_characters(rest).push(
            text::decimal_digit(digits[0] as nat),
        ));
    }
}

/// Writes decimal digits, most significant first.
fn digits_text(digits: &Vec<u8>) -> (s: String)
    requires
        is_digit_list(digits@),
    ensures
        s@ == text::decimal(digits_value(digits@)),
{
    let mut s = String::new();
    let mut left: usize = digits.len();
    while left > 0
        invariant
            left <= digits@.len(),
            is_digit_list(digits@),
            s@ == digit_characters(digits@).take(digits@.len() - left),
        decreases left,
    {
        left -= 1;
        s.push(text::digit_char(digits[left]));
        assert(digit_characters(digits@).take(digits@.len() - left) =~= digit_characters(
            digits@,
        ).take(digits@.len() - left - 1).push(text::decimal_digit(digits@[left as int] as nat)));
    }
    proof {
        assert(digit_characters(digits@).take(digits@.len() as int) =~= digit_characters(digits@));
        lemma_digit_characters(digits@);
    }
    s
}

/// A number rounded to a whole one and written in decimal, as formatting it with no
/// decimal places does.
pub open spec fn whole_text(x: Binary64) -> Seq<char> {
    if x.nan() {
        "NaN"@
    } else {
        let digits = if x.infinite() {
            "inf"@
        } else {
            text::decimal(rounded_even(x.magnitude()))
        };
        if x.sign() {
            "-"@ + digits
        } else {
            digits
        }
    }
}

/// Writes the rounded absolute value of a finite number.
fn magnitude_text(x: Binary64) -> (s: String)
    requires
        !x.nan(),
        !x.infinite(),
    ensures
        s@ == text::decimal(rounded_even(x.magnitude())),
{
    let e = x.exponent_field();
    let m = x.digits();
    let ghost mag = x.magnitude();
    proof {
        lemma_magnitude_bounds(x);
        lemma_pow2_pos(1074);
        lemma2_to64();
        lemma2_to64_rest();
    }
    if e >= 1075 {
        // A whole number: the digits, doubled once for every place.
        let mut digits = digits_of(m);
        let mut done: u64 = 0;
        assert(m * pow2(0) == m) by {
            lemma_mul_basics(m as int);
        }
        while done < e - 1075
            invariant
                done <= e - 1075,
                1075 <= e < 2048,
                is_digit_list(digits@),
                digits_value(digits@) == m * pow2(done as nat),
            decreases e - done,
        {
            digits = double_digits(&digits);
            proof {
                lemma_pow2_unfold((done + 1) as nat);
                assert(2 * (m * pow2(done as nat)) == m * (2 * pow2(done as nat)))
                    by (nonlinear_arith);
            }
            done += 1;
        }
        proof {
            let n = digits_value(digits@);
            lemma_pow2_adds((e - 1075) as nat, 1074);
            lemma_mul_is_associative(m as int, pow2((e - 1075) as nat) as int, unit() as int);
            assert(mag == n * unit());
            lemma_div_by_multiple(n as int, unit() as int);
            lemma_mod_multiples_basic(n as int, unit() as int);
            assert(rounded_even(mag) == n);
        }
        return digits_text(&digits);
    }
    if e < 1021 {
        proof {
            // Less than a quarter.
            lemma_pow2_unfold(1074);
            if x.scale() + 53 < 1073 {
                lemma_pow2_strictly_increases(x.scale() + 53, 1073);
            }
            lemma_basic_div(mag as int, unit() as int);
            lemma_small_mod(mag, unit());
            assert(rounded_even(mag) == 0);
        }
        return text::decimal_text(0);
    }
    let k: u32 = 1075 - e as u32;
    let one = power_of_two(k);
    let whole = m / one;
    let rest = m % one;
    proof {
        if k < 54 {
            lemma_pow2_strictly_increases(k as nat, 54);
        }
        let p = pow2(x.scale());
        lemma_pow2_pos(x.scale());
        lemma_pow2_pos(k as nat);
        lemma_pow2_adds(k as nat, x.scale());
        lemma_cancel(m as nat, one as nat, p);
        assert(mag / unit() == whole && mag % unit() == rest * p);
        assert((2 * rest < one) == (2 * (rest * p) < one * p)) by (nonlinear_arith)
            requires
                p > 0,
        ;
        assert((2 * rest == one) == (2 * (rest * p) == one * p)) by (nonlinear_arith)
            requires
                p > 0,
        ;
    }
    if 2 * rest < one || (2 * rest == one && whole % 2 == 0) {
        text::decimal_text(whole)
    } else {
        text::decimal_text(whole + 1)
    }
}

/// Writes a number without decimal places (see [`whole_text`]).
pub fn format_whole(x: Binary64) -> (s: String)
    ensures
        s@ == whole_text(x),
{
    if x.is_nan() {
        return text::copy("NaN");
    }
    let mut s = String::new();
    if x.bits >= SIGN {
        text::append(&mut s, "-");
    }
    if x.is_infinite() {
        text::append(&mut s, "inf");
    } else {
        let digits = magnitude_text(x);
        text::append(&mut s, digits.as_str());
    }
    assert(Seq::<char>::empty() + "inf"@ =~= "inf"@);
    assert(s@ =~= whole_text(x));
    s
}

/// How far two magnitudes are apart.
pub open spec fn distance(a: nat, b: nat) -> nat {
    if a <= b {
        (b - a) as nat
    } else {
        (a - b) as nat
    }
}

/// `y` is the binary64 number to which the exact quotient `n / d` rounds: no number is
/// nearer, and of two that are equally near `y` is the even one.
pub open spec fn quotient_rounds_to(n: nat, d: nat, y: Binary64) -> bool {
    &&& !y.nan()
    &&& !y.infinite()
    &&& !y.sign()
    &&& forall|z: Binary64|
        !z.nan() && !z.sign() ==> distance(d * #[trigger] z.magnitude(), n) >= distance(
            d * y.magnitude(),
            n,
        )
    &&& forall|z: Binary64|
        !z.nan() && !z.sign() && z != y && distance(d * #[trigger] z.magnitude(), n) == distance(
            d * y.magnitude(),
            n,
        ) ==> y.bits % 2 == 0
}

/// `y` is the binary64 number to which the exact non-negative result `exact` rounds.
pub open spec fn rounds_to(exact: nat, y: Binary64) -> bool {
    quotient_rounds_to(exact, 1, y)
}

/// The pattern made of digits and a power of two.
proof fn lemma_composed(q: nat, s: nat, x: Binary64)
    requires
        q <= 2 * HIDDEN,
        q >= HIDDEN || s == 0,
        s <= 2000,
        x.bits == s * HIDDEN + q,
    ensures
        x.magnitude() == q * pow2(s),
        !x.sign(),
        !x.nan(),
        !x.infinite(),
{
    let h = HIDDEN as nat;
    lemma2_to64();
    if q < h {
        assert(x.bits / HIDDEN == 0);
        assert(x.bits % HIDDEN == q);
    } else if q < 2 * h {
        assert(x.bits == (s + 1) * h + (q - h));
        lemma_fundamental_div_mod_converse(x.bits as int, h as int, s as int + 1, q - h);
        assert(x.exponent() == s + 1);
        assert(x.significand() == q);
    } else {
        assert(x.bits == (s + 2) * h);
        lemma_fundamental_div_mod_converse(x.bits as int, h as int, s as int + 2, 0);
        assert(x.exponent() == s + 2);
        assert(x.significand() == h);
        lemma_pow2_unfold(s + 1);
        assert(h * (2 * pow2(s)) == q * pow2(s)) by (nonlinear_arith)
            requires
                q == 2 * h,
        ;
    }
}

/// Above 2^52 times 2^s every number is a multiple of 2^s.
proof fn lemma_grid(z: Binary64, s: nat)
    requires
        z.magnitude() >= HIDDEN * pow2(s),
    ensures
        z.magnitude() % pow2(s) == 0,
{
    lemma_magnitude_bounds(z);
    lemma2_to64();
    lemma2_to64_rest();
    lemma_pow2_pos(s);
    lemma_pow2_adds(52, s);
    if z.scale() < s {
        if z.scale() + 53 < s + 52 {
            lemma_pow2_strictly_increases(z.scale() + 53, s + 52);
        }
        assert(false);
    }
    let d = (z.scale() - s) as nat;
    lemma_pow2_adds(d, s);
    lemma_mul_is_associative(z.significand() as int, pow2(d) as int, pow2(s) as int);
    lemma_mod_multiples_basic((z.significand() * pow2(d)) as int, pow2(s) as int);
}

/// Between two neighbouring multiples of 2^s from 2^52 times 2^s on there is no
/// number.
proof fn lemma_no_number_between(z: Binary64, q: nat, s: nat)
    requires
        q >= HIDDEN,
    ensures
        z.magnitude() <= q * pow2(s) || z.magnitude() >= (q + 1) * pow2(s),
{
    let g = pow2(s);
    lemma_pow2_pos(s);
    let v = z.magnitude();
    if q * g < v && v < (q + 1) * g {
        assert(HIDDEN * g <= q * g) by (nonlinear_arith)
            requires
                q >= HIDDEN,
        ;
        lemma_grid(z, s);
        lemma_fundamental_div_mod(v as int, g as int);
        let t = v / g;
        assert(t * g == v) by (nonlinear_arith)
            requires
                v == g * t,
        ;
        assert(q < t && t < q + 1) by (nonlinear_arith)
            requires
                q * g < t * g,
                t * g < (q + 1) * g,
                g > 0,
        ;
    }
}

/// Rounding to the nearer of two neighbouring numbers, the even one of two that are
/// equally near, is rounding.
proof fn lemma_rounds(n: nat, d: nat, q: nat, s: nat, up: bool, y: Binary64)
    requires
        d > 0,
        HIDDEN <= q < 2 * HIDDEN,
        s <= 2000,
        d * (q * pow2(s)) <= n < d * ((q + 1) * pow2(s)),
        y.bits == s * HIDDEN + q + (if up {
            1int
        } else {
            0
        }),
        up ==> 2 * n >= d * ((2 * q + 1) * pow2(s)),
        !up ==> 2 * n <= d * ((2 * q + 1) * pow2(s)),
        2 * n == d * ((2 * q + 1) * pow2(s)) ==> up == (q % 2 == 1),
    ensures
        quotient_rounds_to(n, d, y),
{
    let g = pow2(s);
    lemma_pow2_pos(s);
    let r = if up {
        q + 1
    } else {
        q
    };
    lemma_composed(r, s, y);
    let low = d * (q * g);
    let high = d * ((q + 1) * g);
    assert(d * ((2 * q + 1) * g) == low + high) by (nonlinear_arith)
        requires
            low == d * (q * g),
            high == d * ((q + 1) * g),
    ;
    assert(low < high) by (nonlinear_arith)
        requires
            low == d * (q * g),
            high == d * ((q + 1) * g),
            d > 0,
            g > 0,
    ;
    assert forall|z: Binary64| !z.nan() && !z.sign() implies d * #[trigger] z.magnitude() <= low || d
        * z.magnitude() >= high by {
        lemma_no_number_between(z, q, s);
        if z.magnitude() <= q * g {
            lemma_mul_inequality(z.magnitude() as int, (q * g) as int, d as int);
        } else {
            lemma_mul_inequality(((q + 1) * g) as int, z.magnitude() as int, d as int);
        }
        lemma_mul_is_commutative(d as int, z.magnitude() as int);
        lemma_mul_is_commutative(d as int, (q * g) as int);
        lemma_mul_is_commutative(d as int, ((q + 1) * g) as int);
    }
    assert(d * y.magnitude() == if up {
        high
    } else {
        low
    });
    assert forall|z: Binary64|
        !z.nan() && !z.sign() && z != y && distance(d * #[trigger] z.magnitude(), n) == distance(
            d * y.magnitude(),
            n,
        ) implies y.bits % 2 == 0 by {
        if d * z.magnitude() == d * y.magnitude() {
            lemma_mul_equality_converse(d as int, z.magnitude() as int, y.magnitude() as int);
            lemma_key_order(z, y);
            assert(z.bits == y.bits);
        } else {
            assert(2 * n == low + high);
            assert(r % 2 == 0);
            assert(y.bits % 2 == 0) by (nonlinear_arith)
                requires
                    y.bits == s * HIDDEN + r,
                    r % 2 == 0,
                    HIDDEN == 2 * 0x0008_0000_0000_0000,
            ;
        }
    }
}

/// An exact quotient rounds to one number only.
pub proof fn law_rounding_is_unique(n: nat, d: nat, y: Binary64, z: Binary64)
    requires
        d > 0,
        quotient_rounds_to(n, d, y),
        quotient_rounds_to(n, d, z),
    ensures
        y == z,
{
    if y.bits != z.bits {
        lemma_key_order(y, z);
        assert(distance(d * y.magnitude(), n) == distance(d * z.magnitude(), n));
        assert(y.bits % 2 == 0 && z.bits % 2 == 0);
        let between = Binary64 {
            bits: if y.bits < z.bits {
                (y.bits + 1) as u64
            } else {
                (z.bits + 1) as u64
            },
        };
        lemma_finite_bits(y);
        lemma_finite_bits(z);
        lemma_finite_bits(between);
        lemma_key_order(y, between);
        lemma_key_order(between, z);
        let (small, large) = if y.bits < z.bits {
            (y, z)
        } else {
            (z, y)
        };
        assert(small.magnitude() < between.magnitude() < large.magnitude());
        lemma_mul_strict_inequality(
            small.magnitude() as int,
            between.magnitude() as int,
            d as int,
        );
        lemma_mul_strict_inequality(
            between.magnitude() as int,
            large.magnitude() as int,
            d as int,
        );
        lemma_mul_is_commutative(d as int, small.magnitude() as int);
        lemma_mul_is_commutative(d as int, between.magnitude() as int);
        lemma_mul_is_commutative(d as int, large.magnitude() as int);
        assert(distance(d * between.magnitude(), n) < distance(d * y.magnitude(), n));
    }
}

/// Rounding does not step over a number: what is on one side of it stays there.
proof fn lemma_rounding_stays(n: nat, d: nat, y: Binary64, b: Binary64)
    requires
        d > 0,
        quotient_rounds_to(n, d, y),
        !b.nan(),
        !b.sign(),
    ensures
        d * b.magnitude() <= n ==> b.magnitude() <= y.magnitude(),
        d * b.magnitude() >= n ==> y.magnitude() <= b.magnitude(),
{
    assert(distance(d * b.magnitude(), n) >= distance(d * y.magnitude(), n));
    lemma_mul_is_commutative(d as int, b.magnitude() as int);
    lemma_mul_is_commutative(d as int, y.magnitude() as int);
    if y.magnitude() < b.magnitude() {
        lemma_mul_strict_inequality(y.magnitude() as int, b.magnitude() as int, d as int);
    } else if b.magnitude() < y.magnitude() {
        lemma_mul_strict_inequality(b.magnitude() as int, y.magnitude() as int, d as int);
    }
}

/// The finite positive patterns are those below the infinity.
proof fn lemma_finite_bits(y: Binary64)
    ensures
        (y.bits < 2047 * HIDDEN) == (!y.sign() && !y.nan() && !y.infinite()),
{
    if y.bits < SIGN {
        assert(y.bits / HIDDEN < 2048);
    }
}

/// The number to which the exact quotient `n / d` rounds.
pub open spec fn quotient(n: nat, d: nat) -> Binary64 {
    choose|y: Binary64| quotient_rounds_to(n, d, y)
}

/// The number to which an exact result rounds.
pub open spec fn rounded(exact: nat) -> Binary64 {
    quotient(exact, 1)
}

/// The binary64 number to which `fraction * 100` rounds. Minus zero stays what it is.
pub open spec fn hundredfold(fraction: Binary64) -> Binary64 {
    if fraction.sign() {
        fraction
    } else {
        rounded(100 * fraction.magnitude())
    }
}

/// A percentage from a fraction between 0 and 1: `fraction * 100` in binary64.
pub fn percent_of(fraction: Binary64) -> (percent: Binary64)
    requires
        !fraction.nan(),
        0 <= fraction.value() <= unit(),
    ensures
        percent == hundredfold(fraction),
        !fraction.sign() ==> rounds_to(100 * fraction.magnitude(), percent),
        !percent.nan(),
        0 <= percent.value() <= 100 * unit(),
        (percent.value() == 0) == (fraction.value() == 0),
{
    let percent = scaled_percent(fraction);
    proof {
        if !fraction.sign() {
            law_rounding_is_unique(
                100 * fraction.magnitude(),
                1,
                hundredfold(fraction),
                percent,
            );
            lemma_named_patterns();
            lemma_finite_bits(Binary64 { bits: HUNDRED_BITS });
            assert(distance(
                (Binary64 { bits: HUNDRED_BITS }).magnitude(),
                100 * fraction.magnitude(),
            ) >= distance(percent.magnitude(), 100 * fraction.magnitude()));
            lemma_zero();
            assert(distance((Binary64 { bits: 0 }).magnitude(), 100 * fraction.magnitude())
                >= distance(percent.magnitude(), 100 * fraction.magnitude()));
            if fraction.value() > 0 && percent.value() == 0 {
                // The fraction itself is nearer to a hundred of it than zero is.
                assert(distance(fraction.magnitude(), 100 * fraction.magnitude())
                    < distance(percent.magnitude(), 100 * fraction.magnitude()));
            }
        }
    }
    percent
}

/// Multiplies by 100 and rounds.
fn scaled_percent(fraction: Binary64) -> (percent: Binary64)
    requires
        !fraction.nan(),
        0 <= fraction.value() <= unit(),
    ensures
        fraction.sign() ==> percent == fraction,
        !fraction.sign() ==> rounds_to(100 * fraction.magnitude(), percent),
{
    if fraction.bits >= SIGN {
        // Minus zero stays what it is.
        return fraction;
    }
    let m = fraction.digits();
    let e = fraction.exponent_field();
    let scale: u64 = if e == 0 {
        0
    } else {
        e - 1
    };
    proof {
        lemma_named_patterns();
        lemma_key_order(fraction, Binary64 { bits: ONE_BITS });
        assert(fraction.bits <= ONE_BITS);
        assert(scale <= 1022);
        lemma2_to64();
        lemma_pow2_pos(scale as nat);
        lemma_mul_is_associative(100, m as int, pow2(scale as nat) as int);
    }
    let product: u64 = 100 * m;
    let ghost exact = 100 * fraction.magnitude();
    assert(exact == product * pow2(scale as nat));
    // Halve until the digits fit.
    let mut q: u64 = product;
    let mut k: u32 = 0;
    let mut g: u64 = 1;
    while q >= 2 * HIDDEN
        invariant
            k <= 7,
            g == pow2(k as nat),
            q == product as nat / g as nat,
            product < 128 * 2 * HIDDEN,
            k > 0 ==> q >= HIDDEN,
            g <= 128,
            g > 0,
        decreases q,
    {
        proof {
            lemma2_to64();
            if k == 7 {
                assert(g == 128);
                assert(product as nat / 128 < 2 * HIDDEN);
            }
            lemma_pow2_unfold((k + 1) as nat);
            lemma_div_denominator(product as int, g as int, 2);
            if k < 6 {
                lemma_pow2_strictly_increases((k + 1) as nat, 7);
            }
        }
        q = q / 2;
        g = g * 2;
        k += 1;
    }
    let s: u64 = scale + k as u64;
    if k == 0 {
        let percent = Binary64 { bits: s * HIDDEN + q };
        proof {
            if e > 0 {
                assert(product >= 100 * HIDDEN);
            }
            assert(product as nat / 1 == product);
            lemma_composed(q as nat, s as nat, percent);
            assert(percent.magnitude() == exact);
            assert forall|z: Binary64|
                !z.nan() && !z.sign() && z != percent && distance(#[trigger] z.magnitude(), exact)
                    == distance(percent.magnitude(), exact) implies percent.bits % 2 == 0 by {
                lemma_key_order(z, percent);
                assert(z.bits == percent.bits);
            }
        }
        return percent;
    }
    let rest = product % g;
    let up = 2 * rest > g || (2 * rest == g && q % 2 == 1);
    proof {
        let p = pow2(scale as nat);
        let w = pow2(s as nat);
        lemma_pow2_adds(k as nat, scale as nat);
        lemma_fundamental_div_mod(product as int, g as int);
        assert(w == g * p);
        assert(exact == q * w + rest * p) by (nonlinear_arith)
            requires
                exact == product * p,
                product == g * q + rest,
                w == g * p,
        ;
        assert(rest * p < w) by (nonlinear_arith)
            requires
                rest < g,
                w == g * p,
                p > 0,
        ;
        assert((q + 1) * w == q * w + w) by (nonlinear_arith);
        assert(2 * exact == 2 * (q * w) + 2 * (rest * p));
        assert((2 * q + 1) * w == 2 * (q * w) + w) by (nonlinear_arith);
        assert((2 * rest > g) == (2 * (rest * p) > w)) by (nonlinear_arith)
            requires
                w == g * p,
                p > 0,
        ;
        assert((2 * rest == g) == (2 * (rest * p) == w)) by (nonlinear_arith)
            requires
                w == g * p,
                p > 0,
        ;
    }
    let percent = Binary64 {
        bits: s * HIDDEN + q + if up {
            1
        } else {
            0
        },
    };
    proof {
        lemma_rounds(exact, 1, q as nat, s as nat, up, percent);
    }
    percent
}

/// 2^60: digits that are fewer than this are made more before they are divided.
const MANY_DIGITS: u128 = 0x1000_0000_0000_0000;

/// 2^120: more digits than are ever divided.
pub const DIGITS_LIMIT: u128 = 0x0100_0000_0000_0000_0000_0000_0000_0000;

/// Rounds the quotient of `n * 2^s` and `d`.
fn round_quotient(n: u128, s: u64, d: u64) -> (y: Binary64)
    requires
        0 < n < DIGITS_LIMIT,
        60 <= s <= 1100,
        1 <= d <= 32,
    ensures
        quotient_rounds_to(n as nat * pow2(s as nat), d as nat, y),
        y == quotient(n as nat * pow2(s as nat), d as nat),
{
    let ghost exact = n as nat * pow2(s as nat);
    let mut num: u128 = n;
    let mut scale: u64 = s;
    if n < MANY_DIGITS {
        num = n * MANY_DIGITS;
        scale = s - 60;
        proof {
            lemma2_to64_rest();
            lemma_pow2_adds(60, scale as nat);
            lemma_mul_is_associative(n as int, MANY_DIGITS as int, pow2(scale as nat) as int);
            assert(num >= MANY_DIGITS);
        }
    }
    assert(exact == num * pow2(scale as nat));
    // Halve until the digits fit.
    let mut g: u128 = d as u128;
    let mut k: u64 = 0;
    proof {
        lemma2_to64();
        assert(d * pow2(0) == d);
        assert(num / g >= HIDDEN) by (nonlinear_arith)
            requires
                num >= 0x1000_0000_0000_0000,
                1 <= g <= 32,
                HIDDEN == 0x0010_0000_0000_0000,
        ;
    }
    while num / g >= 2 * HIDDEN as u128
        invariant
            g == d * pow2(k as nat),
            g > 0,
            1 <= d <= 32,
            num < DIGITS_LIMIT,
            k <= 67,
            g < 0x10_0000_0000_0000_0000,
            num / g >= HIDDEN,
        decreases num / g,
    {
        let ghost before = num / g;
        proof {
            lemma_fundamental_div_mod(num as int, g as int);
            assert(g < 0x8_0000_0000_0000_0000) by (nonlinear_arith)
                requires
                    num == g * (num / g) + num % g,
                    num % g >= 0,
                    num / g >= 0x0020_0000_0000_0000,
                    num < 0x0100_0000_0000_0000_0000_0000_0000_0000,
            ;
            lemma_pow2_unfold((k + 1) as nat);
            assert(d * (2 * pow2(k as nat)) == 2 * (d * pow2(k as nat))) by (nonlinear_arith);
            lemma_div_denominator(num as int, g as int, 2);
            if k >= 67 {
                lemma2_to64();
                lemma2_to64_rest();
                lemma_pow2_adds(60, 7);
                if k > 67 {
                    lemma_pow2_strictly_increases(67, k as nat);
                }
                assert(pow2(k as nat) <= d * pow2(k as nat)) by (nonlinear_arith)
                    requires
                        d >= 1,
                ;
                assert(false);
            }
        }
        g = g * 2;
        k = k + 1;
    }
    let q: u64 = (num / g) as u64;
    let rest = num % g;
    let up = rest * 2 > g || (rest * 2 == g && q % 2 == 1);
    let total = scale + k;
    let y = Binary64 {
        bits: total * HIDDEN + q + if up {
            1
        } else {
            0
        },
    };
    proof {
        let p = pow2(scale as nat);
        let w = pow2(total as nat);
        let dd = d as nat;
        lemma_pow2_pos(scale as nat);
        lemma_pow2_adds(k as nat, scale as nat);
        lemma_fundamental_div_mod(num as int, g as int);
        assert(dd * w == g * p) by (nonlinear_arith)
            requires
                w == pow2(k as nat) * p,
                g == dd * pow2(k as nat),
        ;
        let part = rest * p;
        assert(dd * (q * w) == q * (g * p)) by (nonlinear_arith)
            requires
                dd * w == g * p,
        ;
        assert(exact == dd * (q * w) + part) by (nonlinear_arith)
            requires
                exact == num * p,
                num == g * q + rest,
                dd * (q * w) == q * (g * p),
                part == rest * p,
        ;
        assert(part < g * p) by (nonlinear_arith)
            requires
                rest < g,
                part == rest * p,
                p > 0,
        ;
        assert(dd * ((q + 1) * w) == dd * (q * w) + dd * w) by (nonlinear_arith);
        assert(dd * ((2 * q + 1) * w) == 2 * (dd * (q * w)) + dd * w) by (nonlinear_arith);
        assert((2 * rest > g) == (2 * part > g * p)) by (nonlinear_arith)
            requires
                part == rest * p,
                p > 0,
        ;
        assert((2 * rest == g) == (2 * part == g * p)) by (nonlinear_arith)
            requires
                part == rest * p,
                p > 0,
        ;
        lemma_rounds(exact, dd, q as nat, total as nat, up, y);
        law_rounding_is_unique(exact, dd, y, quotient(exact, dd));
    }
    y
}

/// The bit patterns of the percentages at which badges change.
pub const FIFTY_BITS: u64 = 0x4049_0000_0000_0000;

pub const SEVENTY_BITS: u64 = 0x4051_8000_0000_0000;

pub const EIGHTY_FIVE_BITS: u64 = 0x4055_4000_0000_0000;

pub const NINETY_BITS: u64 = 0x4056_8000_0000_0000;

pub const NINETY_FIVE_BITS: u64 = 0x4057_C000_0000_0000;

/// The bit pattern of 255, the largest value of a colour channel.
pub const CHANNEL_MAX_BITS: u64 = 0x406F_E000_0000_0000;

/// What the patterns of percentages are worth.
pub proof fn lemma_percent_patterns()
    ensures
        (Binary64 { bits: FIFTY_BITS }).value() == 50 * unit(),
        (Binary64 { bits: SEVENTY_BITS }).value() == 70 * unit(),
        (Binary64 { bits: EIGHTY_FIVE_BITS }).value() == 85 * unit(),
        (Binary64 { bits: NINETY_BITS }).value() == 90 * unit(),
        (Binary64 { bits: NINETY_FIVE_BITS }).value() == 95 * unit(),
        (Binary64 { bits: CHANNEL_MAX_BITS }).value() == 255 * unit(),
        !(Binary64 { bits: FIFTY_BITS }).nan(),
        !(Binary64 { bits: SEVENTY_BITS }).nan(),
        !(Binary64 { bits: EIGHTY_FIVE_BITS }).nan(),
        !(Binary64 { bits: NINETY_BITS }).nan(),
        !(Binary64 { bits: NINETY_FIVE_BITS }).nan(),
        !(Binary64 { bits: HUNDRED_BITS }).nan(),
        !(Binary64 { bits: CHANNEL_MAX_BITS }).nan(),
{
    lemma2_to64_rest();
    assert(FIFTY_BITS / HIDDEN == 1028 && FIFTY_BITS % HIDDEN == 0x9_0000_0000_0000);
    lemma_whole_number(Binary64 { bits: FIFTY_BITS }, 50);
    assert(SEVENTY_BITS / HIDDEN == 1029 && SEVENTY_BITS % HIDDEN == 0x1_8000_0000_0000);
    lemma_whole_number(Binary64 { bits: SEVENTY_BITS }, 70);
    assert(EIGHTY_FIVE_BITS / HIDDEN == 1029 && EIGHTY_FIVE_BITS % HIDDEN == 0x5_4000_0000_0000);
    lemma_whole_number(Binary64 { bits: EIGHTY_FIVE_BITS }, 85);
    assert(NINETY_BITS / HIDDEN == 1029 && NINETY_BITS % HIDDEN == 0x6_8000_0000_0000);
    lemma_whole_number(Binary64 { bits: NINETY_BITS }, 90);
    assert(NINETY_FIVE_BITS / HIDDEN == 1029 && NINETY_FIVE_BITS % HIDDEN == 0x7_C000_0000_0000);
    lemma_whole_number(Binary64 { bits: NINETY_FIVE_BITS }, 95);
    assert(HUNDRED_BITS / HIDDEN == 1029 && HUNDRED_BITS % HIDDEN == 0x9_0000_0000_0000);
    assert(CHANNEL_MAX_BITS / HIDDEN == 1030 && CHANNEL_MAX_BITS % HIDDEN == 0xF_E000_0000_0000);
    lemma_whole_number(Binary64 { bits: CHANNEL_MAX_BITS }, 255);
}

/// How far a percentage is on the way between two whole ones, from 0 to 1: the quotient of
/// the two distances, each worked out in binary64.
pub open spec fn position(percent: Binary64, from: nat, to: nat) -> Binary64 {
    quotient(
        rounded((percent.value() - from * unit()) as nat).magnitude(),
        (to - from) as nat,
    )
}

/// Digits times a power of two are a binary64 number.
proof fn lemma_representable(q: nat, s: nat) -> (y: Binary64)
    requires
        0 < q < 2 * HIDDEN,
        s <= 2000,
    ensures
        y.magnitude() == q * pow2(s),
        !y.nan(),
        !y.infinite(),
        !y.sign(),
    decreases s,
{
    if q >= HIDDEN || s == 0 {
        let y = Binary64 { bits: (s * HIDDEN + q) as u64 };
        assert(s * HIDDEN + q <= u64::MAX) by (nonlinear_arith)
            requires
                s <= 2000,
                q < 2 * HIDDEN,
                HIDDEN == 0x0010_0000_0000_0000,
        ;
        lemma_composed(q, s, y);
        y
    } else {
        lemma_pow2_unfold(s);
        assert((2 * q) * pow2((s - 1) as nat) == q * pow2(s)) by (nonlinear_arith)
            requires
                pow2(s) == 2 * pow2((s - 1) as nat),
        ;
        lemma_representable(2 * q, (s - 1) as nat)
    }
}

/// An exact result that is a number rounds to that number.
proof fn lemma_exact_result(y: Binary64)
    requires
        !y.nan(),
        !y.infinite(),
        !y.sign(),
    ensures
        rounds_to(y.magnitude(), y),
        rounded(y.magnitude()) == y,
{
    assert forall|z: Binary64|
        !z.nan() && !z.sign() && z != y && distance(1 * #[trigger] z.magnitude(), y.magnitude())
            == distance(1 * y.magnitude(), y.magnitude()) implies y.bits % 2 == 0 by {
        lemma_key_order(z, y);
        assert(z.bits == y.bits);
    }
    law_rounding_is_unique(y.magnitude(), 1, y, rounded(y.magnitude()));
}

/// Works out how far a percentage is on the way between two whole ones.
pub(crate) fn position_between(percent: Binary64, from: u64, to: u64) -> (t: Binary64)
    requires
        !percent.nan(),
        50 <= from < to <= 100,
        to - from <= 32,
        from * unit() < percent.value() <= to * unit(),
    ensures
        t == position(percent, from as nat, to as nat),
        !t.nan(),
        !t.sign(),
        !t.infinite(),
        pow2(1022) <= t.magnitude() <= unit(),
{
    let m = percent.digits();
    let e = percent.exponent_field();
    let ghost mag = percent.magnitude();
    proof {
        lemma2_to64();
        lemma2_to64_rest();
        lemma_named_patterns();
        assert(0 <= from * unit()) by (nonlinear_arith)
            requires
                unit() > 0,
                from >= 50,
        ;
        assert(percent.value() > 0);
        assert(percent.value() == mag);
        // More than 32 and less than 128.
        lemma_magnitude_bounds(percent);
        lemma_pow2_adds(5, 1074);
        lemma_pow2_adds(7, 1074);
        assert(32 * unit() < mag < 128 * unit()) by (nonlinear_arith)
            requires
                from * unit() < mag,
                mag <= to * unit(),
                from >= 50,
                to <= 100,
                unit() > 0,
        ;
        if percent.scale() + 53 <= 1079 {
            if percent.scale() + 53 < 1079 {
                lemma_pow2_strictly_increases(percent.scale() + 53, 1079);
            }
            assert(false);
        }
        if percent.scale() + 52 >= 1081 {
            if percent.scale() + 52 > 1081 {
                lemma_pow2_strictly_increases(1081, percent.scale() + 52);
            }
            assert(false);
        }
        assert(1028 <= e <= 1029);
    }
    let k: u32 = 1075 - e as u32;
    let one = power_of_two(k);
    let scale: u64 = e - 1;
    proof {
        let p = pow2(scale as nat);
        lemma_pow2_pos(scale as nat);
        lemma_pow2_adds(k as nat, scale as nat);
        assert(from * unit() == (from * one) * p) by (nonlinear_arith)
            requires
                unit() == one * p,
        ;
        assert(from * one < m) by (nonlinear_arith)
            requires
                (from * one) * p < m * p,
                p > 0,
        ;
        if k < 47 {
            lemma_pow2_strictly_increases(k as nat, 47);
        }
        assert(from * one <= 100 * 0x8000_0000_0000) by (nonlinear_arith)
            requires
                from <= 100,
                one <= 0x8000_0000_0000,
        ;
    }
    let digits: u64 = m - from * one;
    let span: u64 = to - from;
    let t = round_quotient(digits as u128, scale, span);
    proof {
        let p = pow2(scale as nat);
        let exact = digits as nat * p;
        assert(exact == mag - from * unit()) by (nonlinear_arith)
            requires
                digits == m - from * one,
                exact == digits * p,
                mag == m * p,
                from * unit() == (from * one) * p,
        ;
        // The distance is a binary64 number.
        let apart = lemma_representable(digits as nat, scale as nat);
        lemma_exact_result(apart);
        // Not more than 1.
        assert(span * unit() == to * unit() - from * unit()) by (nonlinear_arith)
            requires
                span == to - from,
        ;
        lemma_finite_bits(Binary64 { bits: ONE_BITS });
        lemma_rounding_stays(exact, span as nat, t, Binary64 { bits: ONE_BITS });
        // Not less than 2^-52.
        let small = Binary64 { bits: (971 * HIDDEN) as u64 };
        lemma_composed(HIDDEN as nat, 970, small);
        lemma_pow2_adds(52, 970);
        lemma_pow2_adds(5, 1022);
        if scale > 1027 {
            lemma_pow2_strictly_increases(1027, scale as nat);
        }
        assert(span * small.magnitude() <= exact) by (nonlinear_arith)
            requires
                span <= 32,
                small.magnitude() == pow2(1022),
                32 * pow2(1022) <= p,
                exact == digits * p,
                digits >= 1,
        ;
        lemma_rounding_stays(exact, span as nat, t, small);
    }
    t
}

/// A colour channel on the way from `start` to `end`: the start, moved by the part `t` of
/// the gap, in binary64, and then rounded to a whole number.
pub open spec fn mixed_channel(start: u8, end: u8, t: Binary64) -> u8 {
    let step = if end >= start {
        rounded((end - start) as nat * t.magnitude()).value()
    } else {
        -rounded((start - end) as nat * t.magnitude()).value()
    };
    rounded_away(rounded((start * unit() + step) as nat).magnitude()) as u8
}

/// 2 to the power `k`.
fn wide_power_of_two(k: u64) -> (p: u128)
    requires
        k <= 104,
    ensures
        p == pow2(k as nat),
        1 <= p <= 0x100_0000_0000_0000_0000_0000_0000,
{
    let mut p: u128 = 1;
    let mut i: u64 = 0;
    proof {
        lemma2_to64();
        lemma2_to64_rest();
        lemma_pow2_adds(64, 40);
    }
    while i < k
        invariant
            i <= k <= 104,
            p == pow2(i as nat),
            pow2(104) == 0x100_0000_0000_0000_0000_0000_0000,
        decreases k - i,
    {
        proof {
            lemma_pow2_unfold((i + 1) as nat);
            lemma_pow2_strictly_increases(i as nat, 104);
        }
        p = p * 2;
        i += 1;
    }
    proof {
        lemma_pow2_pos(k as nat);
        if k < 104 {
            lemma_pow2_strictly_increases(k as nat, 104);
        }
    }
    p
}

/// A small whole number in the range that its leading digit gives is a binary64 number.
proof fn lemma_whole_in_range(n: nat, i: nat) -> (y: Binary64)
    requires
        i <= 7,
        pow2(i) <= n < 2 * pow2(i),
    ensures
        y.magnitude() == n * unit(),
        !y.nan(),
        !y.infinite(),
        !y.sign(),
{
    lemma2_to64();
    lemma2_to64_rest();
    let k = (52 - i) as nat;
    let s = 1022 + i;
    let q = n * pow2(k);
    lemma_pow2_pos(k);
    lemma_pow2_adds(k, i);
    lemma_pow2_adds(k, s);
    assert(HIDDEN <= q < 2 * HIDDEN) by (nonlinear_arith)
        requires
            q == n * pow2(k),
            pow2(i) <= n,
            n < 2 * pow2(i),
            pow2(k) > 0,
            pow2(k) * pow2(i) == HIDDEN,
    ;
    let y = Binary64 { bits: (s * HIDDEN + q) as u64 };
    lemma_composed(q, s, y);
    lemma_mul_is_associative(n as int, pow2(k) as int, pow2(s) as int);
    y
}

/// The values of a colour channel are binary64 numbers.
proof fn lemma_channel_number(n: u8) -> (y: Binary64)
    ensures
        y.magnitude() == n * unit(),
        !y.nan(),
        !y.infinite(),
        !y.sign(),
{
    lemma2_to64();
    lemma_zero();
    if n == 0 {
        Binary64 { bits: 0 }
    } else if n < 2 {
        lemma_whole_in_range(n as nat, 0)
    } else if n < 4 {
        lemma_whole_in_range(n as nat, 1)
    } else if n < 8 {
        lemma_whole_in_range(n as nat, 2)
    } else if n < 16 {
        lemma_whole_in_range(n as nat, 3)
    } else if n < 32 {
        lemma_whole_in_range(n as nat, 4)
    } else if n < 64 {
        lemma_whole_in_range(n as nat, 5)
    } else if n < 128 {
        lemma_whole_in_range(n as nat, 6)
    } else {
        lemma_whole_in_range(n as nat, 7)
    }
}

/// The exponent of a number between 2^-52 and `n` ones.
proof fn lemma_exponent_range(x: Binary64, i: nat)
    requires
        pow2(1022) <= x.magnitude() < pow2(1074 + i),
        i <= 8,
    ensures
        x.exponent() >= 1,
        970 <= x.scale() <= 1021 + i,
{
    lemma_magnitude_bounds(x);
    if x.scale() + 53 <= 1022 {
        if x.scale() + 53 < 1022 {
            lemma_pow2_strictly_increases(x.scale() + 53, 1022);
        }
        assert(false);
    }
    if x.scale() + 52 >= 1074 + i {
        if x.scale() + 52 > 1074 + i {
            lemma_pow2_strictly_increases(1074 + i, x.scale() + 52);
        }
        assert(false);
    }
}

/// The part `t` of a gap between two channels, in binary64.
fn channel_step(gap: u8, t: Binary64) -> (step: Binary64)
    requires
        !t.nan(),
        !t.sign(),
        pow2(1022) <= t.magnitude() <= unit(),
    ensures
        step == rounded(gap as nat * t.magnitude()),
        !step.nan(),
        !step.sign(),
        !step.infinite(),
        gap == 0 ==> step.bits == 0,
        gap > 0 ==> pow2(1022) <= step.magnitude(),
        step.magnitude() <= gap * unit(),
{
    if gap == 0 {
        proof {
            lemma_zero();
            lemma_exact_result(Binary64 { bits: 0 });
        }
        return Binary64 { bits: 0 };
    }
    let m = t.digits();
    let e = t.exponent_field();
    proof {
        lemma_pow2_unfold(1075);
        lemma_pow2_pos(1074);
        lemma_exponent_range(t, 1);
    }
    assert(0 < gap * m < 0x100 * 0x20_0000_0000_0000) by (nonlinear_arith)
        requires
            1 <= gap <= 255,
            1 <= m < 0x20_0000_0000_0000,
    ;
    let n: u128 = gap as u128 * m as u128;
    let step = round_quotient(n, e - 1, 1);
    proof {
        let p = pow2(t.scale());
        let exact = gap as nat * t.magnitude();
        lemma_mul_is_associative(gap as int, m as int, p as int);
        assert(n * p == exact);
        assert(t.magnitude() <= exact) by (nonlinear_arith)
            requires
                exact == gap as nat * t.magnitude(),
                gap >= 1,
        ;
        lemma_rounding_stays(exact, 1, step, t);
        let most = lemma_channel_number(gap);
        assert(exact <= gap * unit()) by (nonlinear_arith)
            requires
                exact == gap as nat * t.magnitude(),
                t.magnitude() <= unit(),
        ;
        lemma_rounding_stays(exact, 1, step, most);
    }
    step
}

/// A channel moved up or down by a step, in binary64.
fn channel_sum(start: u8, grows: bool, step: Binary64) -> (sum: Binary64)
    requires
        !step.nan(),
        !step.sign(),
        !step.infinite(),
        step.bits == 0 || pow2(1022) <= step.magnitude(),
        step.magnitude() <= 255 * unit(),
        !grows ==> step.magnitude() <= start * unit(),
    ensures
        ({
            let exact = if grows {
                start * unit() + step.magnitude()
            } else {
                start * unit() - step.magnitude()
            };
            &&& exact >= 0
            &&& rounds_to(exact as nat, sum)
            &&& sum == rounded(exact as nat)
        }),
{
    proof {
        lemma_zero();
        lemma_named_patterns();
        lemma_exact_result(Binary64 { bits: 0 });
        lemma2_to64();
        lemma2_to64_rest();
    }
    if step.bits == 0 {
        if start == 0 {
            assert(start * unit() == 0) by {
                lemma_mul_basics(unit() as int);
            }
            return Binary64 { bits: 0 };
        }
        proof {
            lemma_pow2_adds(60, 1014);
            lemma_mul_is_associative(start as int, MANY_DIGITS as int, pow2(1014) as int);
        }
        return round_quotient(start as u128 * MANY_DIGITS, 1014, 1);
    }
    proof {
        lemma_pow2_adds(8, 1074);
        assert(step.magnitude() < pow2(1082));
        lemma_exponent_range(step, 8);
    }
    let m = step.digits();
    let scale: u64 = step.exponent_field() - 1;
    let one = wide_power_of_two(1074 - scale);
    let ghost p = pow2(scale as nat);
    assert(start * one <= 255 * 0x100_0000_0000_0000_0000_0000_0000) by (nonlinear_arith)
        requires
            start <= 255,
            one <= 0x100_0000_0000_0000_0000_0000_0000,
    ;
    let base: u128 = start as u128 * one;
    proof {
        lemma_pow2_pos(scale as nat);
        lemma_pow2_adds((1074 - scale) as nat, scale as nat);
        assert(start * unit() == base * p) by (nonlinear_arith)
            requires
                unit() == one * p,
                base == start * one,
        ;
        if !grows {
            assert(m <= base) by (nonlinear_arith)
                requires
                    m * p <= base * p,
                    p > 0,
            ;
        }
    }
    let n: u128 = if grows {
        base + m as u128
    } else {
        base - m as u128
    };
    let ghost exact = if grows {
        start * unit() + step.magnitude()
    } else {
        start * unit() - step.magnitude()
    };
    proof {
        if grows {
            lemma_mul_is_distributive_add_other_way(p as int, base as int, m as int);
        } else {
            lemma_mul_is_distributive_sub_other_way(p as int, base as int, m as int);
        }
        assert(exact == n * p);
    }
    if n == 0 {
        assert(exact == 0) by {
            lemma_mul_basics(p as int);
        }
        return Binary64 { bits: 0 };
    }
    round_quotient(n, scale, 1)
}

/// A sum that lies between two channel values rounds to one between them.
proof fn lemma_sum_bounds(exact: nat, sum: Binary64, low: u8, high: u8)
    requires
        rounds_to(exact, sum),
        low * unit() <= exact <= high * unit(),
    ensures
        low <= rounded_away(sum.magnitude()) <= high,
{
    let least = lemma_channel_number(low);
    let most = lemma_channel_number(high);
    lemma_rounding_stays(exact, 1, sum, least);
    lemma_rounding_stays(exact, 1, sum, most);
    lemma_named_patterns();
    lemma_pow2_unfold(1074);
    let half = pow2(1073);
    let u = unit();
    let mag = sum.magnitude();
    lemma_div_is_ordered(low * u, (mag + half) as int, u as int);
    lemma_div_is_ordered((mag + half) as int, high * u + half, u as int);
    lemma_div_by_multiple(low as int, u as int);
    lemma_fundamental_div_mod_converse(high * u + half, u as int, high as int, half as int);
}

/// Works out a colour channel on the way from `start` to `end` (see [`mixed_channel`]).
pub(crate) fn lerp_channel(start: u8, end: u8, t: Binary64) -> (channel: u8)
    requires
        !t.nan(),
        !t.sign(),
        pow2(1022) <= t.magnitude() <= unit(),
    ensures
        channel == mixed_channel(start, end, t),
        start <= end ==> start <= channel <= end,
        end <= start ==> end <= channel <= start,
{
    let grows = end >= start;
    let gap: u8 = if grows {
        end - start
    } else {
        start - end
    };
    proof {
        lemma_named_patterns();
        lemma_zero();
        assert(gap * unit() <= 255 * unit()) by (nonlinear_arith)
            requires
                gap <= 255,
        ;
        assert(grows ==> start * unit() + gap * unit() == end * unit()) by (nonlinear_arith)
            requires
                grows ==> gap == end - start,
        ;
        assert(!grows ==> start * unit() - gap * unit() == end * unit()) by (nonlinear_arith)
            requires
                !grows ==> gap == start - end,
        ;
        assert(0 <= end * unit()) by (nonlinear_arith);
    }
    let step = channel_step(gap, t);
    let sum = channel_sum(start, grows, step);
    proof {
        if grows {
            lemma_sum_bounds((start * unit() + step.magnitude()) as nat, sum, start, end);
        } else {
            lemma_sum_bounds((start * unit() - step.magnitude()) as nat, sum, end, start);
        }
    }
    render_percent(sum) as u8
}

/// A whole number as a binary64 number.
pub open spec fn whole(n: nat) -> Binary64 {
    rounded(n * unit())
}

/// Makes a binary64 number of a whole one. It is worth exactly that.
pub fn from_whole(n: u32) -> (x: Binary64)
    ensures
        x == whole(n as nat),
        !x.nan(),
        !x.infinite(),
        !x.sign(),
        x.value() == n * unit(),
{
    if n == 0 {
        proof {
            lemma_zero();
            lemma_mul_basics(unit() as int);
            lemma_exact_result(Binary64 { bits: 0 });
        }
        return Binary64 { bits: 0 };
    }
    let x = round_quotient(n as u128, 1074, 1);
    proof {
        let y = lemma_representable(n as nat, 1074);
        lemma_exact_result(y);
    }
    x
}

/// A quotient without a rest that is a number rounds to that number.
proof fn lemma_exact_quotient(y: Binary64, d: nat)
    requires
        d > 0,
        !y.nan(),
        !y.infinite(),
        !y.sign(),
    ensures
        quotient(d * y.magnitude(), d) == y,
{
    let n = d * y.magnitude();
    assert forall|z: Binary64|
        !z.nan() && !z.sign() && z != y && distance(d * #[trigger] z.magnitude(), n) == distance(
            d * y.magnitude(),
            n,
        ) implies y.bits % 2 == 0 by {
        lemma_mul_equality_converse(d as int, z.magnitude() as int, y.magnitude() as int);
        lemma_key_order(z, y);
        assert(z.bits == y.bits);
    }
    assert(quotient_rounds_to(n, d, y));
    law_rounding_is_unique(n, d, y, quotient(n, d));
}

/// A percentage at the end of its way has gone the whole of it.
pub proof fn lemma_position_at_end(percent: Binary64, from: nat, to: nat)
    requires
        from < to <= 255,
        percent.value() == to * unit(),
    ensures
        position(percent, from, to) == (Binary64 { bits: ONE_BITS }),
{
    let span = (to - from) as nat;
    lemma_named_patterns();
    let apart = lemma_channel_number(span as u8);
    lemma_exact_result(apart);
    assert(to * unit() - from * unit() == span * unit()) by (nonlinear_arith)
        requires
            span == to - from,
    ;
    lemma_finite_bits(Binary64 { bits: ONE_BITS });
    lemma_exact_quotient(Binary64 { bits: ONE_BITS }, span);
}

/// A colour channel that has gone the whole way is at its end.
pub proof fn lemma_mixed_whole(start: u8, end: u8)
    ensures
        mixed_channel(start, end, Binary64 { bits: ONE_BITS }) == end,
{
    lemma_named_patterns();
    lemma_finite_bits(Binary64 { bits: ONE_BITS });
    let gap: u8 = if end >= start {
        (end - start) as u8
    } else {
        (start - end) as u8
    };
    let step = lemma_channel_number(gap);
    lemma_exact_result(step);
    let last = lemma_channel_number(end);
    lemma_exact_result(last);
    if end >= start {
        assert(start * unit() + gap * unit() == end * unit()) by (nonlinear_arith)
            requires
                gap == end - start,
        ;
    } else {
        assert(start * unit() - gap * unit() == end * unit()) by (nonlinear_arith)
            requires
                gap == start - end,
        ;
    }
    lemma_sum_bounds((end * unit()) as nat, last, end, end);
}

/// A hundred times a number is the binary64 number next to that, and exact at 0 and 1.
pub proof fn law_hundredfold_in_numbers(fraction: Binary64, nearest: Binary64)
    ensures
        !fraction.sign() && rounds_to(100 * fraction.magnitude(), nearest) ==> hundredfold(fraction)
            == nearest,
        fraction.value() == 0 ==> hundredfold(fraction).value() == 0,
        fraction.value() == unit() ==> hundredfold(fraction).value() == 100 * unit(),
{
    lemma_named_patterns();
    if !fraction.sign() {
        if rounds_to(100 * fraction.magnitude(), nearest) {
            law_rounding_is_unique(100 * fraction.magnitude(), 1, hundredfold(fraction), nearest);
        }
        lemma_finite_bits(Binary64 { bits: HUNDRED_BITS });
        lemma_finite_bits(Binary64 { bits: 0 });
        lemma_zero();
        lemma_exact_result(Binary64 { bits: HUNDRED_BITS });
        lemma_exact_result(Binary64 { bits: 0 });
    }
}

/// A utilization is held within 0 and 1: one in between stays what it is.
pub proof fn law_clamped_in_numbers(raw: Binary64)
    ensures
        0 <= clamped(raw).value() <= unit(),
        !raw.nan() && !raw.infinite() && 0 <= raw.value() <= unit() ==> clamped(raw) == raw,
        !raw.nan() && !raw.infinite() && raw.value() > unit() ==> clamped(raw).value() == unit(),
        raw.nan() || raw.infinite() || raw.value() < 0 ==> clamped(raw).value() == 0,
{
    lemma_named_patterns();
}

/// A whole number below 1000 is worth exactly that in binary64.
pub proof fn lemma_whole_is_exact(n: nat)
    requires
        n < 1000,
    ensures
        !whole(n).nan(),
        !whole(n).sign(),
        whole(n).value() == n * unit(),
{
    if n == 0 {
        lemma_zero();
        lemma_mul_basics(unit() as int);
        lemma_finite_bits(Binary64 { bits: 0 });
        lemma_exact_result(Binary64 { bits: 0 });
    } else {
        let y = lemma_representable(n, 1074);
        lemma_exact_result(y);
    }
}

/// The position of a percentage between two whole ones is found in two roundings: of the
/// distance from the first, and of that divided by the distance between the two.
pub proof fn law_position_in_numbers(
    percent: Binary64,
    from: nat,
    to: nat,
    gone: Binary64,
    part: Binary64,
)
    requires
        from < to,
        percent.value() >= from * unit(),
        rounds_to((percent.value() - from * unit()) as nat, gone),
        quotient_rounds_to(gone.magnitude(), (to - from) as nat, part),
    ensures
        position(percent, from, to) == part,
{
    let exact = (percent.value() - from * unit()) as nat;
    law_rounding_is_unique(exact, 1, rounded(exact), gone);
    law_rounding_is_unique(
        gone.magnitude(),
        (to - from) as nat,
        quotient(gone.magnitude(), (to - from) as nat),
        part,
    );
}

/// A channel on the way from one to another is found in two roundings, of the part of the gap
/// and of the sum, and is the whole number next to that, the larger of two that are equally
/// near.
pub proof fn law_mixed_channel_in_numbers(
    start: u8,
    end: u8,
    t: Binary64,
    step: Binary64,
    sum: Binary64,
    channel: u8,
)
    requires
        end >= start ==> rounds_to((end - start) as nat * t.magnitude(), step) && rounds_to(
            start as nat * unit() + step.magnitude(),
            sum,
        ),
        end < start ==> rounds_to((start - end) as nat * t.magnitude(), step)
            && step.magnitude() <= start * unit() && rounds_to(
            (start * unit() - step.magnitude()) as nat,
            sum,
        ),
        -unit() <= 2 * (sum.magnitude() - channel * unit()) < unit(),
    ensures
        mixed_channel(start, end, t) == channel,
{
    let gap = if end >= start {
        (end - start) as nat
    } else {
        (start - end) as nat
    };
    law_rounding_is_unique(gap * t.magnitude(), 1, rounded(gap * t.magnitude()), step);
    let exact = if end >= start {
        (start * unit() + step.magnitude()) as nat
    } else {
        (start * unit() - step.magnitude()) as nat
    };
    law_rounding_is_unique(exact, 1, rounded(exact), sum);
    law_rounded_away_is_nearest(sum.magnitude());
    lemma_pow2_pos(1074);
    let u = unit() as int;
    let r = rounded_away(sum.magnitude()) as int;
    let c = channel as int;
    if r < c {
        assert(r * u <= c * u - u) by (nonlinear_arith)
            requires
                r <= c - 1,
                u > 0,
        ;
    } else if r > c {
        assert(r * u >= c * u + u) by (nonlinear_arith)
            requires
                r >= c + 1,
                u > 0,
        ;
    }
}

/// What is written of a number is the word for it if it is none or not finite, else the
/// nearest whole number, with a minus sign in front if it has one.
pub proof fn law_whole_text_in_numbers(x: Binary64, whole: nat)
    ensures
        x.nan() ==> whole_text(x) == "NaN"@,
        x.infinite() && !x.sign() ==> whole_text(x) == "inf"@,
        x.infinite() && x.sign() ==> whole_text(x) == "-"@ + "inf"@,
        !x.nan() && !x.infinite() && nearest_whole(x.magnitude(), whole) ==> whole_text(x) == (
        if x.sign() {
            "-"@ + text::decimal(whole)
        } else {
            text::decimal(whole)
        }),
{
    law_rounded_even_is_nearest(x.magnitude(), whole);
}

} // verus!
