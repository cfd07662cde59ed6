//! Points in time and durations in seconds, held as IEEE 754 binary64 bit
//! patterns, with the operations of that format.

use crate::rounding;
use vstd::arithmetic::power2;
use vstd::prelude::*;

verus! {

/// What a bit pattern stands for. A finite value is counted in units of the
/// smallest positive number of the format, two to the power of minus 1074.
pub enum TimeValue {
    Nan,
    NegInfinity,
    Finite(int),
    Infinity,
}

/// A time in seconds.
#[derive(Clone, Copy, Debug)]
pub struct Seconds {
    pub bits: u64,
}

/// The eleven exponent bits of a bit pattern.
pub open spec fn exponent_field(bits: u64) -> nat {
    ((bits / 0x10_0000_0000_0000) % 2048) as nat
}

/// The fifty-two fraction bits of a bit pattern.
pub open spec fn fraction_field(bits: u64) -> nat {
    (bits % 0x10_0000_0000_0000) as nat
}

/// Whether the sign bit is set.
pub open spec fn sign_field(bits: u64) -> bool {
    bits >= 0x8000_0000_0000_0000
}

/// The significand of a finite bit pattern, with its implicit leading bit.
pub open spec fn significand(bits: u64) -> nat {
    if exponent_field(bits) == 0 {
        fraction_field(bits)
    } else {
        0x10_0000_0000_0000 + fraction_field(bits)
    }
}

/// The power of two by which the significand is scaled.
pub open spec fn scale(bits: u64) -> nat {
    if exponent_field(bits) == 0 {
        0
    } else {
        (exponent_field(bits) - 1) as nat
    }
}

/// The distance of a finite bit pattern from zero.
pub open spec fn magnitude(bits: u64) -> nat {
    significand(bits) * power2::pow2(scale(bits))
}

/// `n` with the sign that `negative` says.
pub open spec fn signed(negative: bool, n: nat) -> int {
    if negative {
        -(n as int)
    } else {
        n as int
    }
}

/// The distance of an integer from zero.
pub open spec fn distance(n: int) -> nat {
    if n < 0 {
        (-n) as nat
    } else {
        n as nat
    }
}

/// The value in the format that is nearest to `n`; beyond the largest finite
/// value, an infinity.
pub open spec fn nearest(n: int) -> TimeValue {
    let r = rounding::round_to_even(distance(n));
    if r < power2::pow2(2098) {
        TimeValue::Finite(signed(n < 0, r))
    } else if n < 0 {
        TimeValue::NegInfinity
    } else {
        TimeValue::Infinity
    }
}

impl TimeValue {
    /// The sum of two values.
    pub open spec fn plus(self, other: TimeValue) -> TimeValue {
        match (self, other) {
            (TimeValue::Nan, _) => TimeValue::Nan,
            (_, TimeValue::Nan) => TimeValue::Nan,
            (TimeValue::Finite(a), TimeValue::Finite(b)) => nearest(a + b),
            (TimeValue::Infinity, TimeValue::NegInfinity) => TimeValue::Nan,
            (TimeValue::NegInfinity, TimeValue::Infinity) => TimeValue::Nan,
            (TimeValue::Finite(_), x) => x,
            (x, _) => x,
        }
    }

    /// The same distance from zero on the other side.
    pub open spec fn opposite(self) -> TimeValue {
        match self {
            TimeValue::Nan => TimeValue::Nan,
            TimeValue::NegInfinity => TimeValue::Infinity,
            TimeValue::Infinity => TimeValue::NegInfinity,
            TimeValue::Finite(a) => TimeValue::Finite(-a),
        }
    }

    /// The difference of two values.
    pub open spec fn minus(self, other: TimeValue) -> TimeValue {
        self.plus(other.opposite())
    }

    /// Whether this value comes before the other; false if either is no number.
    pub open spec fn before(self, other: TimeValue) -> bool {
        match (self, other) {
            (TimeValue::Nan, _) => false,
            (_, TimeValue::Nan) => false,
            (TimeValue::Finite(a), TimeValue::Finite(b)) => a < b,
            (TimeValue::NegInfinity, TimeValue::NegInfinity) => false,
            (TimeValue::NegInfinity, _) => true,
            (_, TimeValue::NegInfinity) => false,
            (TimeValue::Infinity, _) => false,
            (_, TimeValue::Infinity) => true,
        }
    }

    /// The later of two values; a number is preferred to what is none.
    pub open spec fn later(self, other: TimeValue) -> TimeValue {
        if self is Nan || self.before(other) {
            other
        } else {
            self
        }
    }

    /// The earlier of two values; a number is preferred to what is none.
    pub open spec fn earlier(self, other: TimeValue) -> TimeValue {
        if self is Nan || other.before(self) {
            other
        } else {
            self
        }
    }
}

impl View for Seconds {
    type V = TimeValue;

    open spec fn view(&self) -> TimeValue {
        let negative = sign_field(self.bits);
        if exponent_field(self.bits) == 2047 {
            if fraction_field(self.bits) != 0 {
                TimeValue::Nan
            } else if negative {
                TimeValue::NegInfinity
            } else {
                TimeValue::Infinity
            }
        } else {
            TimeValue::Finite(signed(negative, magnitude(self.bits)))
        }
    }
}

/// How the fields make up a bit pattern.
proof fn lemma_fields(bits: u64)
    ensures
        exponent_field(bits) < 2048,
        fraction_field(bits) < 0x10_0000_0000_0000,
        significand(bits) < 0x20_0000_0000_0000,
        bits == (if sign_field(bits) {
            0x8000_0000_0000_0000int
        } else {
            0
        }) + exponent_field(bits) * 0x10_0000_0000_0000 + fraction_field(bits),
{
}

/// A finite bit pattern lies below two to the power of 2098.
proof fn lemma_magnitude_bound(bits: u64)
    requires
        exponent_field(bits) < 2047,
    ensures
        magnitude(bits) < power2::pow2(2098),
{
    lemma_fields(bits);
    rounding::lemma_pow2_small();
    let e = scale(bits);
    power2::lemma_pow2_adds(53, e);
    power2::lemma_pow2_pos(e);
    assert(significand(bits) * power2::pow2(e) < 0x20_0000_0000_0000 * power2::pow2(e))
        by (nonlinear_arith)
        requires
            significand(bits) < 0x20_0000_0000_0000,
            power2::pow2(e) > 0,
    ;
    if 53 + e < 2098 {
        power2::lemma_pow2_strictly_increases(53 + e, 2098);
    }
}

/// Without their sign, finite bit patterns are ordered as what they stand for.
proof fn lemma_magnitude_monotone(a: u64, b: u64)
    requires
        exponent_field(a) < 2047,
        exponent_field(b) < 2047,
        a % 0x8000_0000_0000_0000 < b % 0x8000_0000_0000_0000,
    ensures
        magnitude(a) < magnitude(b),
{
    lemma_fields(a);
    lemma_fields(b);
    rounding::lemma_pow2_small();
    let (sa, sb) = (scale(a), scale(b));
    let (ma, mb) = (significand(a), significand(b));
    power2::lemma_pow2_pos(sa);
    power2::lemma_pow2_pos(sb);
    if exponent_field(a) == exponent_field(b) {
        assert(ma * power2::pow2(sa) < mb * power2::pow2(sa)) by (nonlinear_arith)
            requires
                ma < mb,
                power2::pow2(sa) > 0,
        ;
    } else {
        assert(exponent_field(a) < exponent_field(b));
        if exponent_field(a) == 0 {
            assert(ma * 1 == ma) by (nonlinear_arith);
            assert(mb <= mb * power2::pow2(sb)) by (nonlinear_arith)
                requires
                    power2::pow2(sb) >= 1,
            ;
        } else {
            power2::lemma_pow2_unfold(sa + 1);
            if sa + 1 < sb {
                power2::lemma_pow2_strictly_increases(sa + 1, sb);
            }
            assert(ma * power2::pow2(sa) < mb * power2::pow2(sb)) by (nonlinear_arith)
                requires
                    ma < 0x20_0000_0000_0000,
                    mb >= 0x10_0000_0000_0000,
                    power2::pow2(sa) > 0,
                    power2::pow2(sb) >= 2 * power2::pow2(sa),
            ;
        }
    }
}

/// The sign bit does not bear on the other fields.
proof fn lemma_low_bits(bits: u64)
    ensures
        exponent_field((bits % 0x8000_0000_0000_0000) as u64) == exponent_field(bits),
        fraction_field((bits % 0x8000_0000_0000_0000) as u64) == fraction_field(bits),
        magnitude((bits % 0x8000_0000_0000_0000) as u64) == magnitude(bits),
        exponent_field(bits) < 2047 ==> (magnitude(bits) == 0 <==> bits % 0x8000_0000_0000_0000
            == 0),
{
    lemma_fields(bits);
    rounding::lemma_pow2_small();
    let low = (bits % 0x8000_0000_0000_0000) as u64;
    assert(exponent_field(low) == exponent_field(bits));
    if low == 0 {
        assert(significand(bits) == 0);
        assert(0 * power2::pow2(scale(bits)) == 0) by (nonlinear_arith);
    } else if exponent_field(bits) < 2047 {
        assert(magnitude(0) == 0) by {
            assert(significand(0) == 0);
            assert(0 * power2::pow2(0) == 0) by (nonlinear_arith);
        }
        lemma_magnitude_monotone(0, bits);
    }
}

/// The bit pattern for `sig * 2^exp`, or an infinity.
fn encode(negative: bool, sig: u64, exp: u32) -> (r: Seconds)
    requires
        sig <= 0x20_0000_0000_0000,
        exp <= 0x1000,
    ensures
        ({
            let n = sig * power2::pow2(exp as nat);
            if n < power2::pow2(2098) {
                r@ == TimeValue::Finite(signed(negative, n as nat))
            } else if negative {
                r@ == TimeValue::NegInfinity
            } else {
                r@ == TimeValue::Infinity
            }
        }),
        sig == 0 ==> r.bits == (if negative { 0x8000_0000_0000_0000u64 } else { 0 }),
{
    let sign: u64 = if negative { 0x8000_0000_0000_0000 } else { 0 };
    let ghost n = sig * power2::pow2(exp as nat);
    proof {
        rounding::lemma_pow2_small();
    }
    if sig == 0 {
        let r = Seconds { bits: sign };
        proof {
            assert(0 * power2::pow2(exp as nat) == 0) by (nonlinear_arith);
            assert(0 * power2::pow2(0) == 0) by (nonlinear_arith);
            assert(exponent_field(sign) == 0 && fraction_field(sign) == 0);
            power2::lemma_pow2_pos(2098);
        }
        return r;
    }
    let mut m: u64 = sig;
    let mut e: u32 = exp;
    if m == 0x20_0000_0000_0000 {
        m = 0x10_0000_0000_0000;
        e = e + 1;
        proof {
            power2::lemma_pow2_unfold(e as nat);
            let p = power2::pow2(exp as nat);
            assert(0x20_0000_0000_0000 * p == 0x10_0000_0000_0000 * (2 * p)) by (nonlinear_arith);
        }
    }
    while m < 0x10_0000_0000_0000 && e > 0
        invariant
            0 < m < 0x20_0000_0000_0000,
            e <= 0x1001,
            n == m * power2::pow2(e as nat),
        decreases e,
    {
        proof {
            power2::lemma_pow2_unfold(e as nat);
            let p = power2::pow2((e - 1) as nat);
            assert(m * (2 * p) == (2 * m) * p) by (nonlinear_arith);
        }
        m = m * 2;
        e = e - 1;
    }
    proof {
        power2::lemma_pow2_adds(52, e as nat);
        power2::lemma_pow2_pos(e as nat);
    }
    if m < 0x10_0000_0000_0000 {
        let r = Seconds { bits: sign + m };
        proof {
            assert(exponent_field(r.bits) == 0);
            assert(fraction_field(r.bits) == m);
            lemma_magnitude_bound(r.bits);
        }
        r
    } else if e >= 2046 {
        let r = Seconds { bits: sign + 0x7ff0_0000_0000_0000 };
        proof {
            assert(exponent_field(r.bits) == 2047);
            assert(fraction_field(r.bits) == 0);
            if e > 2046 {
                power2::lemma_pow2_strictly_increases(2098, 52 + e as nat);
            }
            assert(m * power2::pow2(e as nat) >= 0x10_0000_0000_0000 * power2::pow2(e as nat))
                by (nonlinear_arith)
                requires
                    m >= 0x10_0000_0000_0000,
            ;
        }
        r
    } else {
        let field: u64 = e as u64 + 1;
        let r = Seconds { bits: sign + field * 0x10_0000_0000_0000 + (m - 0x10_0000_0000_0000) };
        proof {
            assert(exponent_field(r.bits) == field);
            assert(fraction_field(r.bits) == m - 0x10_0000_0000_0000);
            lemma_magnitude_bound(r.bits);
        }
        r
    }
}

/// The value nearest to `x * 2^exp`.
fn pack(negative: bool, x: u128, exp: u32) -> (r: Seconds)
    requires
        x <= 0x40_0000_0000_0000_0000_0000_0000_0000,
        exp <= 2046,
    ensures
        r@ == nearest(signed(negative, (x * power2::pow2(exp as nat)) as nat)),
        x == 0 ==> r.bits == (if negative { 0x8000_0000_0000_0000u64 } else { 0 }),
{
    let mut unit: u128 = 1;
    let mut dropped: u32 = 0;
    proof {
        rounding::lemma_pow2_small();
        assert(x / 1 == x);
    }
    while x / unit >= 0x20_0000_0000_0000
        invariant
            x <= 0x40_0000_0000_0000_0000_0000_0000_0000,
            unit == power2::pow2(dropped as nat),
            unit >= 1,
            unit <= x || unit == 1,
            rounding::surplus_bits(x as nat) == dropped + rounding::surplus_bits(
                (x / unit) as nat,
            ),
            dropped <= 118,
        decreases x / unit,
    {
        proof {
            rounding::lemma_surplus_of_quotient(x as nat, dropped as nat);
            power2::lemma_pow2_unfold((dropped + 1) as nat);
            assert(unit * 0x20_0000_0000_0000 <= x) by (nonlinear_arith)
                requires
                    x / unit >= 0x20_0000_0000_0000,
                    unit >= 1,
            ;
            assert(x / ((2 * unit) as u128) < x / unit) by (nonlinear_arith)
                requires
                    x / unit >= 0x20_0000_0000_0000,
                    unit >= 1,
                    2 * unit <= u128::MAX,
            ;
            if dropped >= 118 {
                rounding::lemma_pow2_small();
                power2::lemma_pow2_adds(64, 54);
                power2::lemma_pow2_unfold(54);
                if dropped > 118 {
                    power2::lemma_pow2_strictly_increases(118, dropped as nat);
                }
            }
        }
        unit = unit * 2;
        dropped = dropped + 1;
    }
    let quotient: u64 = (x / unit) as u64;
    let remainder: u128 = x % unit;
    let round_up: bool = 2 * remainder > unit || (2 * remainder == unit && quotient % 2 == 1);
    let sig: u64 = if round_up { quotient + 1 } else { quotient };
    proof {
        let n = (x * power2::pow2(exp as nat)) as nat;
        assert(rounding::round_to_even(x as nat) == sig * unit);
        rounding::lemma_round_scales(x as nat, exp as nat);
        power2::lemma_pow2_adds(dropped as nat, exp as nat);
        assert(sig * power2::pow2((dropped + exp) as nat) == (sig * unit) * power2::pow2(
            exp as nat,
        )) by (nonlinear_arith)
            requires
                power2::pow2((dropped + exp) as nat) == unit * power2::pow2(exp as nat),
        ;
        assert(rounding::round_to_even(n) == sig * power2::pow2((dropped + exp) as nat));
        if x == 0 {
            assert(0 * power2::pow2(exp as nat) == 0) by (nonlinear_arith);
            assert(0u128 / unit == 0) by (nonlinear_arith)
                requires
                    unit >= 1,
            ;
            assert(0 * power2::pow2((dropped + exp) as nat) == 0) by (nonlinear_arith);
        } else {
            power2::lemma_pow2_pos(exp as nat);
            assert(n > 0) by (nonlinear_arith)
                requires
                    n == x * power2::pow2(exp as nat),
                    x > 0,
                    power2::pow2(exp as nat) > 0,
            ;
        }
    }
    encode(negative, sig, dropped + exp)
}

/// `m * 2^gap`.
fn shifted(m: u64, gap: u32) -> (r: u128)
    requires
        m < 0x20_0000_0000_0000,
        gap <= 64,
    ensures
        r == m * power2::pow2(gap as nat),
        r < 0x20_0000_0000_0000_0000_0000_0000_0000,
{
    let mut r: u128 = m as u128;
    let mut done: u32 = 0;
    proof {
        rounding::lemma_pow2_small();
        assert(m * 1 == m) by (nonlinear_arith);
    }
    while done < gap
        invariant
            m < 0x20_0000_0000_0000,
            done <= gap <= 64,
            r == m * power2::pow2(done as nat),
            r < 0x20_0000_0000_0000 * power2::pow2(done as nat) <= 0x20_0000_0000_0000
                * power2::pow2(64),
            power2::pow2(64) == 0x1_0000_0000_0000_0000,
        decreases gap - done,
    {
        proof {
            power2::lemma_pow2_unfold((done + 1) as nat);
            let p = power2::pow2(done as nat);
            assert(m * (2 * p) == 2 * (m * p)) by (nonlinear_arith);
            if done + 1 < 64 {
                power2::lemma_pow2_strictly_increases((done + 1) as nat, 64);
            }
        }
        r = r * 2;
        done = done + 1;
    }
    r
}

impl Seconds {
    /// The time that a binary64 bit pattern stands for.
    pub fn from_bits(bits: u64) -> (r: Seconds)
        ensures
            r.bits == bits,
    {
        Seconds { bits }
    }

    /// The binary64 bit pattern.
    pub fn to_bits(self) -> (r: u64)
        ensures
            r == self.bits,
    {
        self.bits
    }

    /// The start of a recording.
    pub fn zero() -> (r: Seconds)
        ensures
            r@ == TimeValue::Finite(0),
            r.bits == 0,
    {
        proof {
            assert(0 * power2::pow2(0) == 0) by (nonlinear_arith);
        }
        Seconds { bits: 0 }
    }

    /// Whether this is no number at all.
    pub fn is_nan(self) -> (r: bool)
        ensures
            r == (self@ is Nan),
    {
        (self.bits / 0x10_0000_0000_0000) % 2048 == 2047 && self.bits % 0x10_0000_0000_0000 != 0
    }

    fn is_infinite(self) -> (r: bool)
        ensures
            r == (self@ is Infinity || self@ is NegInfinity),
    {
        (self.bits / 0x10_0000_0000_0000) % 2048 == 2047 && self.bits % 0x10_0000_0000_0000 == 0
    }

    /// Whether this time comes before another.
    pub fn before(self, other: Seconds) -> (r: bool)
        ensures
            r == self@.before(other@),
    {
        if self.is_nan() || other.is_nan() {
            return false;
        }
        let a: u64 = self.bits % 0x8000_0000_0000_0000;
        let b: u64 = other.bits % 0x8000_0000_0000_0000;
        proof {
            lemma_fields(self.bits);
            lemma_fields(other.bits);
            lemma_low_bits(self.bits);
            lemma_low_bits(other.bits);
            if exponent_field(self.bits) < 2047 && exponent_field(other.bits) < 2047 {
                if a < b {
                    lemma_magnitude_monotone(self.bits, other.bits);
                } else if b < a {
                    lemma_magnitude_monotone(other.bits, self.bits);
                }
            }
        }
        let negative: bool = self.bits >= 0x8000_0000_0000_0000;
        let other_negative: bool = other.bits >= 0x8000_0000_0000_0000;
        if negative && other_negative {
            b < a
        } else if negative {
            a != 0 || b != 0
        } else if other_negative {
            false
        } else {
            a < b
        }
    }

    /// The later of two times; a number is preferred to what is none.
    pub fn later(self, other: Seconds) -> (r: Seconds)
        ensures
            r@ == self@.later(other@),
    {
        if self.is_nan() || self.before(other) {
            other
        } else {
            self
        }
    }

    /// The earlier of two times; a number is preferred to what is none.
    pub fn earlier(self, other: Seconds) -> (r: Seconds)
        ensures
            r@ == self@.earlier(other@),
    {
        if self.is_nan() || other.before(self) {
            other
        } else {
            self
        }
    }

    /// The same distance from zero on the other side.
    pub fn opposite(self) -> (r: Seconds)
        ensures
            r@ == self@.opposite(),
    {
        proof {
            lemma_low_bits(self.bits);
        }
        if self.bits >= 0x8000_0000_0000_0000 {
            let r = Seconds { bits: self.bits - 0x8000_0000_0000_0000 };
            proof {
                lemma_low_bits(r.bits);
            }
            r
        } else {
            let r = Seconds { bits: self.bits + 0x8000_0000_0000_0000 };
            proof {
                lemma_low_bits(r.bits);
            }
            r
        }
    }

    fn sig(self) -> (r: u64)
        ensures
            r == significand(self.bits),
    {
        let fraction: u64 = self.bits % 0x10_0000_0000_0000;
        if (self.bits / 0x10_0000_0000_0000) % 2048 == 0 {
            fraction
        } else {
            0x10_0000_0000_0000 + fraction
        }
    }

    fn exp(self) -> (r: u32)
        ensures
            r == scale(self.bits),
            r <= 2046,
    {
        let field: u32 = ((self.bits / 0x10_0000_0000_0000) % 2048) as u32;
        if field == 0 {
            0
        } else {
            field - 1
        }
    }

    /// The sum of two finite times, the first scaled at least as far as the
    /// second.
    fn plus_finite(self, other: Seconds) -> (r: Seconds)
        requires
            self@ is Finite,
            other@ is Finite,
            scale(self.bits) >= scale(other.bits),
        ensures
            r@ == self@.plus(other@),
    {
        let (m1, e1): (u64, u32) = (self.sig(), self.exp());
        let (m2, e2): (u64, u32) = (other.sig(), other.exp());
        let n1: bool = self.bits >= 0x8000_0000_0000_0000;
        let n2: bool = other.bits >= 0x8000_0000_0000_0000;
        let gap: u32 = e1 - e2;
        let ghost p1 = power2::pow2(e1 as nat);
        let ghost p2 = power2::pow2(e2 as nat);
        proof {
            lemma_fields(self.bits);
            lemma_fields(other.bits);
            rounding::lemma_pow2_small();
            power2::lemma_pow2_pos(e1 as nat);
            power2::lemma_pow2_pos(e2 as nat);
            power2::lemma_pow2_adds(gap as nat, e2 as nat);
        }
        if gap > 64 {
            proof {
                lemma_sum_absorbed(self, other);
            }
            self
        } else {
            let x1: u128 = shifted(m1, gap);
            let x2: u128 = m2 as u128;
            proof {
                assert(x1 * p2 == m1 * p1) by (nonlinear_arith)
                    requires
                        x1 == m1 * power2::pow2(gap as nat),
                        p1 == power2::pow2(gap as nat) * p2,
                ;
                assert((x1 + x2) * p2 == x1 * p2 + x2 * p2) by (nonlinear_arith);
                assert((x1 - x2) * p2 == x1 * p2 - x2 * p2) by (nonlinear_arith);
                assert((x2 - x1) * p2 == x2 * p2 - x1 * p2) by (nonlinear_arith);
                if x1 >= x2 {
                    assert((x1 - x2) * p2 >= 0) by (nonlinear_arith)
                        requires
                            x1 >= x2,
                            p2 > 0,
                    ;
                } else {
                    assert((x2 - x1) * p2 >= 0) by (nonlinear_arith)
                        requires
                            x2 > x1,
                            p2 > 0,
                    ;
                }
            }
            if n1 == n2 {
                pack(n1, x1 + x2, e2)
            } else if x1 > x2 {
                pack(n1, x1 - x2, e2)
            } else {
                pack(n2 && x1 < x2, x2 - x1, e2)
            }
        }
    }

    /// The sum of two times.
    pub fn plus(self, other: Seconds) -> (r: Seconds)
        ensures
            r@ == self@.plus(other@),
    {
        if self.is_nan() || other.is_nan() {
            return Seconds { bits: 0x7ff8_0000_0000_0000 };
        }
        if self.is_infinite() {
            if other.is_infinite() && (self.bits >= 0x8000_0000_0000_0000) != (other.bits
                >= 0x8000_0000_0000_0000) {
                return Seconds { bits: 0x7ff8_0000_0000_0000 };
            }
            return self;
        }
        if other.is_infinite() {
            return other;
        }
        if self.exp() >= other.exp() {
            self.plus_finite(other)
        } else {
            other.plus_finite(self)
        }
    }

    /// The difference of two times.
    pub fn minus(self, other: Seconds) -> (r: Seconds)
        ensures
            r@ == self@.minus(other@),
    {
        self.plus(other.opposite())
    }
}

/// A summand scaled far below the other one does not show in the sum.
proof fn lemma_sum_absorbed(a: Seconds, b: Seconds)
    requires
        a@ is Finite,
        b@ is Finite,
        scale(a.bits) > scale(b.bits) + 64,
    ensures
        a@.plus(b@) == a@,
{
    let (m, e) = (significand(a.bits), scale(a.bits));
    let (m2, e2) = (significand(b.bits), scale(b.bits));
    let t = magnitude(b.bits);
    let p2 = power2::pow2(e2);
    lemma_fields(a.bits);
    lemma_fields(b.bits);
    lemma_magnitude_bound(a.bits);
    rounding::lemma_pow2_small();
    power2::lemma_pow2_pos(e);
    power2::lemma_pow2_pos(e2);
    power2::lemma_pow2_adds(64, e2);
    power2::lemma_pow2_strictly_increases(64 + e2, e);
    assert(4 * t < 0x1_0000_0000_0000_0000 * p2) by (nonlinear_arith)
        requires
            t == m2 * p2,
            m2 < 0x20_0000_0000_0000,
            p2 > 0,
    ;
    assert(m * power2::pow2(e) >= power2::pow2(e)) by (nonlinear_arith)
        requires
            m >= 1,
            power2::pow2(e) > 0,
    ;
    rounding::lemma_round_absorbs_sum(m, e, t);
    if t > 0 {
        rounding::lemma_round_absorbs_difference(m, e, t);
    }
}

/// Whether a number of units is a finite value of the format.
pub open spec fn in_format(n: int) -> bool {
    rounding::short(distance(n)) && distance(n) < power2::pow2(2098)
}

/// A number of the format is its own nearest.
pub proof fn numbers_of_the_format_are_kept(n: int)
    requires
        in_format(n),
    ensures
        nearest(n) == TimeValue::Finite(n),
{
    rounding::short_numbers_are_kept(distance(n));
}

/// Sums are correctly rounded: the sum of two finite values, where it is
/// finite, is a number of the format, and none of the format is nearer to the
/// true sum.
pub proof fn sums_are_correctly_rounded(a: int, b: int, v: int)
    requires
        in_format(v),
        TimeValue::Finite(a).plus(TimeValue::Finite(b)) is Finite,
    ensures
        ({
            let sum = TimeValue::Finite(a).plus(TimeValue::Finite(b))->Finite_0;
            in_format(sum) && distance(sum - (a + b)) <= distance(v - (a + b))
        }),
{
    let n = distance(a + b);
    rounding::no_short_number_is_nearer(n, distance(v));
    let zero: nat = 0;
    assert(zero == zero * power2::pow2(0)) by (nonlinear_arith)
        requires
            zero == 0,
    ;
    assert(rounding::short(zero));
    rounding::no_short_number_is_nearer(n, zero);
}

/// Whole seconds are numbers of the format, and so are their differences.
pub proof fn whole_seconds_are_exact(n: int)
    requires
        -0x20_0000_0000_0000 < n < 0x20_0000_0000_0000,
    ensures
        in_format(n * power2::pow2(1074)),
{
    let unit = power2::pow2(1074);
    power2::lemma_pow2_pos(1074);
    let m = distance(n);
    assert(distance(n * unit) == m * unit) by (nonlinear_arith)
        requires
            unit > 0,
            n < 0 ==> m == -n && distance(n * unit) == if n * unit < 0 {
                -(n * unit)
            } else {
                n * unit
            },
            n >= 0 ==> m == n && distance(n * unit) == if n * unit < 0 {
                -(n * unit)
            } else {
                n * unit
            },
    ;
    assert(rounding::short(m * unit));
    rounding::lemma_pow2_small();
    power2::lemma_pow2_adds(53, 1074);
    power2::lemma_pow2_strictly_increases(1127, 2098);
    assert(m * unit < 0x20_0000_0000_0000 * unit) by (nonlinear_arith)
        requires
            m < 0x20_0000_0000_0000,
            unit > 0,
    ;
}

/// What lies between two numbers of the format is rounded to a finite value on
/// its own side of zero; what lies beyond the format, to infinity on its side.
pub proof fn only_what_lies_beyond_the_format_is_infinite(n: int, v: int)
    requires
        in_format(v),
    ensures
        distance(n) <= distance(v) ==> nearest(n) is Finite,
        n >= power2::pow2(2098) ==> nearest(n) is Infinity,
        -n >= power2::pow2(2098) ==> nearest(n) is NegInfinity,
        nearest(n) matches TimeValue::Finite(r) ==> (n > 0 ==> r >= 0) && (n < 0 ==> r <= 0),
{
    rounding::short_numbers_are_kept(distance(v));
    if distance(n) <= distance(v) {
        rounding::lemma_round_monotone(distance(n), distance(v));
    }
    let one: nat = 1;
    let beyond = power2::pow2(2098);
    assert(beyond == one * beyond) by (nonlinear_arith)
        requires
            one == 1,
    ;
    assert(rounding::short(beyond));
    rounding::short_numbers_are_kept(beyond);
    if distance(n) >= beyond {
        rounding::lemma_round_monotone(beyond, distance(n));
    }
}

/// Order is that of the numbers, from minus infinity to infinity; what is no
/// number comes before nothing and after nothing.
pub proof fn values_are_ordered_as_numbers(a: TimeValue, b: TimeValue, x: int, y: int)
    ensures
        TimeValue::Finite(x).before(TimeValue::Finite(y)) <==> x < y,
        TimeValue::NegInfinity.before(TimeValue::Finite(x)),
        TimeValue::Finite(x).before(TimeValue::Infinity),
        TimeValue::NegInfinity.before(TimeValue::Infinity),
        a is Nan || b is Nan ==> !a.before(b),
        a.before(b) ==> !b.before(a),
        !a.before(a),
        a.later(b) == a || a.later(b) == b,
        a.earlier(b) == a || a.earlier(b) == b,
        !(a is Nan) && !(b is Nan) ==> !a.later(b).before(a) && !a.later(b).before(b) && !a.before(
            a.earlier(b),
        ) && !b.before(a.earlier(b)),
        a is Nan ==> a.later(b) == b && a.earlier(b) == b,
        b is Nan ==> a.later(b) == a && a.earlier(b) == a,
{
}

/// Sums with an infinity or with what is no number, and the laws that sums and
/// differences keep.
pub proof fn sums_of_special_values(a: TimeValue, b: TimeValue, x: int)
    ensures
        a is Nan || b is Nan ==> a.plus(b) is Nan,
        TimeValue::Infinity.plus(TimeValue::NegInfinity) is Nan,
        TimeValue::Infinity.plus(TimeValue::Finite(x)) is Infinity,
        TimeValue::NegInfinity.plus(TimeValue::Finite(x)) is NegInfinity,
        TimeValue::Infinity.plus(TimeValue::Infinity) is Infinity,
        TimeValue::NegInfinity.plus(TimeValue::NegInfinity) is NegInfinity,
        a.plus(b) == b.plus(a),
        a.minus(b) == a.plus(b.opposite()),
        a.opposite().opposite() == a,
        TimeValue::Finite(x).opposite() == TimeValue::Finite(-x),
        TimeValue::Infinity.opposite() is NegInfinity,
{
}

} // verus!
