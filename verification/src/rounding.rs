//! Rounding a natural number to fifty-three significant bits, to nearest with
//! ties to even, and the arithmetic facts that go with it.

use vstd::arithmetic::div_mod;
use vstd::arithmetic::power2;
use vstd::prelude::*;

verus! {

/// The number of low bits that `n` has beyond its fifty-three leading ones.
pub open spec fn surplus_bits(n: nat) -> nat
    decreases n,
{
    if n < 0x20_0000_0000_0000 {
        0
    } else {
        1 + surplus_bits(n / 2)
    }
}

/// The number with at most fifty-three significant bits that is nearest to
/// `n`; of two equally near ones, the one whose last bit is zero.
pub open spec fn round_to_even(n: nat) -> nat {
    let unit = power2::pow2(surplus_bits(n));
    let quotient = n / unit;
    let remainder = n % unit;
    if 2 * remainder > unit || (2 * remainder == unit && quotient % 2 == 1) {
        (quotient + 1) * unit
    } else {
        quotient * unit
    }
}

pub proof fn lemma_pow2_small()
    ensures
        power2::pow2(0) == 1,
        power2::pow2(1) == 2,
        power2::pow2(11) == 0x800,
        power2::pow2(12) == 0x1000,
        power2::pow2(51) == 0x8_0000_0000_0000,
        power2::pow2(52) == 0x10_0000_0000_0000,
        power2::pow2(53) == 0x20_0000_0000_0000,
        power2::pow2(64) == 0x1_0000_0000_0000_0000,
{
    power2::lemma2_to64();
    power2::lemma_pow2_adds(32, 19);
    power2::lemma_pow2_adds(32, 20);
    power2::lemma_pow2_adds(32, 21);
}

/// Halving a number removes one surplus bit.
pub proof fn lemma_surplus_of_quotient(n: nat, k: nat)
    requires
        n / power2::pow2(k) >= 0x20_0000_0000_0000,
        surplus_bits(n) == k + surplus_bits(n / power2::pow2(k)),
    ensures
        surplus_bits(n) == (k + 1) + surplus_bits(n / power2::pow2(k + 1)),
{
    power2::lemma_pow2_pos(k);
    power2::lemma_pow2_unfold(k + 1);
    div_mod::lemma_div_denominator(n as int, power2::pow2(k) as int, 2);
    assert(power2::pow2(k) * 2 == power2::pow2(k + 1)) by (nonlinear_arith)
        requires
            power2::pow2(k + 1) == 2 * power2::pow2(k),
    ;
}

/// A number between two consecutive powers of two has the surplus that its
/// bit length says.
pub proof fn lemma_surplus_between(n: nat, k: nat)
    requires
        power2::pow2(52 + k) <= n < power2::pow2(53 + k),
    ensures
        surplus_bits(n) == k,
    decreases k,
{
    lemma_pow2_small();
    if k > 0 {
        let j = (k - 1) as nat;
        power2::lemma_pow2_unfold(52 + k);
        power2::lemma_pow2_unfold(53 + k);
        assert((52 + k - 1) as nat == 52 + j);
        assert((53 + k - 1) as nat == 53 + j);
        if j > 0 {
            power2::lemma_pow2_strictly_increases(52, 52 + j);
        }
        lemma_surplus_between(n / 2, j);
    }
}

/// Rounding commutes with doubling.
pub proof fn lemma_round_doubles(n: nat)
    ensures
        round_to_even(2 * n) == 2 * round_to_even(n),
{
    lemma_pow2_small();
    let k = surplus_bits(n);
    let unit = power2::pow2(k);
    power2::lemma_pow2_pos(k);
    let q = n / unit;
    let r = n % unit;
    div_mod::lemma_fundamental_div_mod(n as int, unit as int);
    if 2 * n < 0x20_0000_0000_0000 {
        div_mod::lemma_fundamental_div_mod_converse(2 * n as int, 1, 2 * n as int, 0);
        div_mod::lemma_fundamental_div_mod_converse(n as int, 1, n as int, 0);
        assert((2 * n) * 1 == 2 * (n * 1)) by (nonlinear_arith);
    } else {
        assert((2 * n) / 2 == n);
        assert(surplus_bits(2 * n) == k + 1);
        power2::lemma_pow2_unfold(k + 1);
        let unit2 = power2::pow2(k + 1);
        assert(2 * n == unit2 * q + 2 * r) by (nonlinear_arith)
            requires
                n == unit * q + r,
                unit2 == 2 * unit,
        ;
        div_mod::lemma_fundamental_div_mod_converse(2 * n as int, unit2 as int, q as int, 2 * r as int);
        assert((q + 1) * unit2 == 2 * ((q + 1) * unit)) by (nonlinear_arith)
            requires
                unit2 == 2 * unit,
        ;
        assert(q * unit2 == 2 * (q * unit)) by (nonlinear_arith)
            requires
                unit2 == 2 * unit,
        ;
    }
}

/// Rounding commutes with scaling by a power of two.
pub proof fn lemma_round_scales(n: nat, e: nat)
    ensures
        round_to_even(n * power2::pow2(e)) == round_to_even(n) * power2::pow2(e),
    decreases e,
{
    lemma_pow2_small();
    if e == 0 {
        assert(n * 1 == n) by (nonlinear_arith);
        assert(round_to_even(n) * 1 == round_to_even(n)) by (nonlinear_arith);
    } else {
        let d = (e - 1) as nat;
        lemma_round_scales(n, d);
        power2::lemma_pow2_unfold(e);
        lemma_round_doubles(n * power2::pow2(d));
        assert(n * power2::pow2(e) == 2 * (n * power2::pow2(d))) by (nonlinear_arith)
            requires
                power2::pow2(e) == 2 * power2::pow2(d),
        ;
        assert(round_to_even(n) * power2::pow2(e) == 2 * (round_to_even(n) * power2::pow2(d))) by (nonlinear_arith)
            requires
                power2::pow2(e) == 2 * power2::pow2(d),
        ;
    }
}

/// A number of at most fifty-three bits is its own rounding.
pub proof fn lemma_round_small(n: nat)
    requires
        n < 0x20_0000_0000_0000,
    ensures
        round_to_even(n) == n,
{
    lemma_pow2_small();
    div_mod::lemma_fundamental_div_mod_converse(n as int, 1, n as int, 0);
    assert(n * 1 == n) by (nonlinear_arith);
}

/// Adding to a number of fifty-three significant bits something far below its
/// last bit does not show in the rounding.
pub proof fn lemma_round_absorbs_sum(m: nat, e: nat, t: nat)
    requires
        0x10_0000_0000_0000 <= m < 0x20_0000_0000_0000,
        4 * t < power2::pow2(e),
    ensures
        round_to_even(m * power2::pow2(e) + t) == m * power2::pow2(e),
{
    let unit = power2::pow2(e);
    let n = m * unit + t;
    lemma_pow2_small();
    power2::lemma_pow2_pos(e);
    power2::lemma_pow2_adds(52, e);
    power2::lemma_pow2_adds(53, e);
    assert(0x10_0000_0000_0000 * unit <= m * unit) by (nonlinear_arith)
        requires
            0x10_0000_0000_0000 <= m,
    ;
    assert(m * unit + unit <= 0x20_0000_0000_0000 * unit) by (nonlinear_arith)
        requires
            m + 1 <= 0x20_0000_0000_0000,
    ;
    lemma_surplus_between(n, e);
    assert(n == unit * m + t) by (nonlinear_arith)
        requires
            n == m * unit + t,
    ;
    div_mod::lemma_fundamental_div_mod_converse(n as int, unit as int, m as int, t as int);
}

/// Subtracting from a number of fifty-three significant bits something far
/// below its last bit does not show in the rounding.
pub proof fn lemma_round_absorbs_difference(m: nat, e: nat, t: nat)
    requires
        0x10_0000_0000_0000 <= m < 0x20_0000_0000_0000,
        e > 0,
        4 * t < power2::pow2(e),
        0 < t,
    ensures
        t <= m * power2::pow2(e),
        round_to_even((m * power2::pow2(e) - t) as nat) == m * power2::pow2(e),
{
    let unit = power2::pow2(e);
    lemma_pow2_small();
    power2::lemma_pow2_pos(e);
    power2::lemma_pow2_adds(52, e);
    power2::lemma_pow2_adds(53, e);
    assert(0x10_0000_0000_0000 * unit <= m * unit) by (nonlinear_arith)
        requires
            0x10_0000_0000_0000 <= m,
    ;
    let n = (m * unit - t) as nat;
    if m > 0x10_0000_0000_0000 {
        assert(0x10_0000_0000_0000 * unit + unit <= m * unit) by (nonlinear_arith)
            requires
                0x10_0000_0000_0000 + 1 <= m,
        ;
        assert(m * unit <= 0x20_0000_0000_0000 * unit) by (nonlinear_arith)
            requires
                m <= 0x20_0000_0000_0000,
        ;
        lemma_surplus_between(n, e);
        assert(n == unit * (m - 1) + (unit - t)) by (nonlinear_arith)
            requires
                n == m * unit - t,
        ;
        div_mod::lemma_fundamental_div_mod_converse(n as int, unit as int, m - 1, unit - t);
    } else {
        let d = (e - 1) as nat;
        let half = power2::pow2(d);
        power2::lemma_pow2_unfold(e);
        power2::lemma_pow2_adds(52, d);
        power2::lemma_pow2_adds(53, d);
        assert(n == half * (0x20_0000_0000_0000 - 1) + (half - t)) by (nonlinear_arith)
            requires
                n == m * unit - t,
                m == 0x10_0000_0000_0000,
                unit == 2 * half,
        ;
        lemma_surplus_between(n, d);
        div_mod::lemma_fundamental_div_mod_converse(
            n as int,
            half as int,
            0x20_0000_0000_0000 - 1,
            half - t,
        );
        assert((0x20_0000_0000_0000 - 1 + 1) * half == m * unit) by (nonlinear_arith)
            requires
                m == 0x10_0000_0000_0000,
                unit == 2 * half,
        ;
    }
}

/// How large a number with surplus bits is.
pub proof fn lemma_surplus_bounds(n: nat)
    requires
        n >= 0x20_0000_0000_0000,
    ensures
        surplus_bits(n) >= 1,
        power2::pow2(52 + surplus_bits(n)) <= n < power2::pow2(53 + surplus_bits(n)),
    decreases n,
{
    lemma_pow2_small();
    let k = surplus_bits(n);
    let half = n / 2;
    power2::lemma_pow2_unfold(52 + k);
    power2::lemma_pow2_unfold(53 + k);
    assert((52 + k - 1) as nat == 52 + surplus_bits(half));
    assert((53 + k - 1) as nat == 53 + surplus_bits(half));
    if half >= 0x20_0000_0000_0000 {
        lemma_surplus_bounds(half);
    }
}

/// Between which two neighbours of the format a rounding lies.
pub proof fn lemma_round_bounds(n: nat)
    requires
        n >= 0x20_0000_0000_0000,
    ensures
        power2::pow2(52 + surplus_bits(n)) <= round_to_even(n) <= power2::pow2(
            53 + surplus_bits(n),
        ),
{
    let k = surplus_bits(n);
    let unit = power2::pow2(k);
    let q = n / unit;
    lemma_surplus_bounds(n);
    lemma_pow2_small();
    power2::lemma_pow2_pos(k);
    power2::lemma_pow2_adds(52, k);
    power2::lemma_pow2_adds(53, k);
    div_mod::lemma_fundamental_div_mod(n as int, unit as int);
    let r = n % unit;
    assert(0x10_0000_0000_0000 <= q < 0x20_0000_0000_0000) by (nonlinear_arith)
        requires
            n == unit * q + r,
            0 <= r < unit,
            0x10_0000_0000_0000 * unit <= n < 0x20_0000_0000_0000 * unit,
    ;
    assert(0x10_0000_0000_0000 * unit <= q * unit) by (nonlinear_arith)
        requires
            0x10_0000_0000_0000 <= q,
    ;
    assert((q + 1) * unit <= 0x20_0000_0000_0000 * unit) by (nonlinear_arith)
        requires
            q + 1 <= 0x20_0000_0000_0000,
    ;
    assert((q + 1) * unit == q * unit + unit) by (nonlinear_arith);
}

/// Rounding keeps the order.
pub proof fn lemma_round_monotone(m: nat, n: nat)
    requires
        m <= n,
    ensures
        round_to_even(m) <= round_to_even(n),
{
    lemma_pow2_small();
    if n < 0x20_0000_0000_0000 {
        lemma_round_small(m);
        lemma_round_small(n);
    } else {
        lemma_round_bounds(n);
        lemma_surplus_bounds(n);
        let k = surplus_bits(n);
        if m < 0x20_0000_0000_0000 {
            lemma_round_small(m);
            if k > 1 {
                power2::lemma_pow2_strictly_increases(53, 52 + k);
            }
        } else {
            lemma_round_bounds(m);
            lemma_surplus_bounds(m);
            let j = surplus_bits(m);
            if j < k {
                if 53 + j < 52 + k {
                    power2::lemma_pow2_strictly_increases(53 + j, 52 + k);
                }
            } else if j > k {
                if 53 + k < 52 + j {
                    power2::lemma_pow2_strictly_increases(53 + k, 52 + j);
                }
                assert(false);
            } else {
                let unit = power2::pow2(k);
                power2::lemma_pow2_pos(k);
                let (p, q) = (m / unit, n / unit);
                let (r, s) = (m % unit, n % unit);
                div_mod::lemma_fundamental_div_mod(m as int, unit as int);
                div_mod::lemma_fundamental_div_mod(n as int, unit as int);
                assert(p <= q) by (nonlinear_arith)
                    requires
                        m == unit * p + r,
                        n == unit * q + s,
                        m <= n,
                        0 <= r < unit,
                        0 <= s < unit,
                ;
                assert((p + 1) * unit == p * unit + unit) by (nonlinear_arith);
                assert((q + 1) * unit == q * unit + unit) by (nonlinear_arith);
                if p < q {
                    assert((p + 1) * unit <= q * unit) by (nonlinear_arith)
                        requires
                            p + 1 <= q,
                    ;
                } else {
                    assert(r <= s);
                }
            }
        }
    }
}

/// Whether a number has at most fifty-three significant bits.
pub open spec fn short(n: nat) -> bool {
    exists|m: nat, e: nat|
        m < 0x20_0000_0000_0000 && n == #[trigger] (m * power2::pow2(e))
}

/// A number of at most fifty-three significant bits is its own rounding.
pub proof fn short_numbers_are_kept(n: nat)
    requires
        short(n),
    ensures
        round_to_even(n) == n,
{
    let (m, e) = choose|m: nat, e: nat|
        m < 0x20_0000_0000_0000 && n == #[trigger] (m * power2::pow2(e));
    lemma_round_small(m);
    lemma_round_scales(m, e);
}

/// Above `0x10_0000_0000_0000` units, a number of at most fifty-three
/// significant bits is a multiple of the unit.
proof fn lemma_short_is_multiple(v: nat, k: nat)
    requires
        short(v),
        power2::pow2(52 + k) <= v,
    ensures
        exists|w: nat| v == #[trigger] (w * power2::pow2(k)),
{
    let (m, e) = choose|m: nat, e: nat|
        m < 0x20_0000_0000_0000 && v == #[trigger] (m * power2::pow2(e));
    lemma_pow2_small();
    power2::lemma_pow2_pos(e);
    if e < k {
        power2::lemma_pow2_adds(53, e);
        assert(m * power2::pow2(e) < 0x20_0000_0000_0000 * power2::pow2(e)) by (nonlinear_arith)
            requires
                m < 0x20_0000_0000_0000,
                power2::pow2(e) > 0,
        ;
        if 53 + e < 52 + k {
            power2::lemma_pow2_strictly_increases(53 + e, 52 + k);
        }
        assert(false);
    }
    let d = (e - k) as nat;
    power2::lemma_pow2_adds(d, k);
    let w = m * power2::pow2(d);
    assert(m * power2::pow2(e) == w * power2::pow2(k)) by (nonlinear_arith)
        requires
            power2::pow2(e) == power2::pow2(d) * power2::pow2(k),
            w == m * power2::pow2(d),
    ;
}

/// The rounding of a number has at most fifty-three significant bits, and no
/// number of at most fifty-three significant bits is nearer to it.
pub proof fn no_short_number_is_nearer(n: nat, v: nat)
    requires
        short(v),
    ensures
        short(round_to_even(n)),
        v <= n && round_to_even(n) <= n ==> v <= round_to_even(n),
        v >= n && round_to_even(n) >= n ==> v >= round_to_even(n),
        v <= n <= round_to_even(n) ==> round_to_even(n) - n <= n - v,
        round_to_even(n) <= n <= v ==> n - round_to_even(n) <= v - n,
{
    lemma_pow2_small();
    if n < 0x20_0000_0000_0000 {
        lemma_round_small(n);
        assert(n == n * power2::pow2(0));
        assert(short(n));
    } else {
        let k = surplus_bits(n);
        let unit = power2::pow2(k);
        lemma_surplus_bounds(n);
        power2::lemma_pow2_pos(k);
        power2::lemma_pow2_adds(52, k);
        power2::lemma_pow2_adds(53, k);
        let (q, r) = (n / unit, n % unit);
        div_mod::lemma_fundamental_div_mod(n as int, unit as int);
        let (low, high) = (q * unit, (q + 1) * unit);
        assert(low == unit * q && high == low + unit) by (nonlinear_arith)
            requires
                low == q * unit,
                high == (q + 1) * unit,
        ;
        assert(0x10_0000_0000_0000 <= q < 0x20_0000_0000_0000) by (nonlinear_arith)
            requires
                n == unit * q + r,
                0 <= r < unit,
                0x10_0000_0000_0000 * unit <= n < 0x20_0000_0000_0000 * unit,
        ;
        assert(0x10_0000_0000_0000 * unit <= low) by (nonlinear_arith)
            requires
                0x10_0000_0000_0000 <= q,
                low == q * unit,
        ;
        assert(short(low)) by {
            assert(low == q * power2::pow2(k));
        }
        assert(short(high)) by {
            if q + 1 < 0x20_0000_0000_0000 {
                assert(high == (q + 1) * power2::pow2(k));
            } else {
                let h: nat = 0x10_0000_0000_0000;
                power2::lemma_pow2_unfold(k + 1);
                assert(high == h * power2::pow2(k + 1)) by (nonlinear_arith)
                    requires
                        high == (q + 1) * unit,
                        q + 1 == 2 * h,
                        power2::pow2(k + 1) == 2 * unit,
                ;
            }
        }
        if v >= power2::pow2(52 + k) {
            lemma_short_is_multiple(v, k);
            let w = choose|w: nat| v == #[trigger] (w * power2::pow2(k));
            if v <= n {
                assert(w <= q) by (nonlinear_arith)
                    requires
                        w * unit <= n,
                        n == unit * q + r,
                        0 <= r < unit,
                ;
                assert(v <= low) by (nonlinear_arith)
                    requires
                        w <= q,
                        v == w * unit,
                        low == q * unit,
                ;
            }
            if v > low {
                assert(w >= q + 1) by (nonlinear_arith)
                    requires
                        w * unit > q * unit,
                ;
                assert(v >= high) by (nonlinear_arith)
                    requires
                        w >= q + 1,
                        v == w * unit,
                        high == (q + 1) * unit,
                ;
            }
        }
    }
}

/// Of two equally near numbers, the one with fewer significant bits is taken.
pub proof fn a_tie_goes_to_the_shorter(n: nat, v: nat)
    requires
        short(v),
        v != round_to_even(n),
        v + round_to_even(n) == 2 * n,
    ensures
        exists|m: nat, e: nat|
            m < 0x10_0000_0000_0000 && round_to_even(n) == #[trigger] (m * power2::pow2(e)),
{
    lemma_pow2_small();
    if n < 0x20_0000_0000_0000 {
        lemma_round_small(n);
    } else {
        let k = surplus_bits(n);
        let unit = power2::pow2(k);
        lemma_surplus_bounds(n);
        power2::lemma_pow2_pos(k);
        power2::lemma_pow2_adds(52, k);
        power2::lemma_pow2_adds(53, k);
        let (q, r) = (n / unit, n % unit);
        div_mod::lemma_fundamental_div_mod(n as int, unit as int);
        let (low, high) = (q * unit, (q + 1) * unit);
        assert(low == unit * q && high == low + unit) by (nonlinear_arith)
            requires
                low == q * unit,
                high == (q + 1) * unit,
        ;
        assert(0x10_0000_0000_0000 <= q < 0x20_0000_0000_0000) by (nonlinear_arith)
            requires
                n == unit * q + r,
                0 <= r < unit,
                0x10_0000_0000_0000 * unit <= n < 0x20_0000_0000_0000 * unit,
        ;
        assert(0x10_0000_0000_0000 * unit <= low) by (nonlinear_arith)
            requires
                0x10_0000_0000_0000 <= q,
                low == q * unit,
        ;
        if 2 * r != unit {
            // The nearer neighbour is nearer than the other one.
            if v >= power2::pow2(52 + k) {
                lemma_short_is_multiple(v, k);
                let w = choose|w: nat| v == #[trigger] (w * power2::pow2(k));
                assert(w <= q || w >= q + 1);
                if w <= q {
                    assert(w * unit <= low) by (nonlinear_arith)
                        requires
                            w <= q,
                            low == q * unit,
                    ;
                } else {
                    assert(w * unit >= high) by (nonlinear_arith)
                        requires
                            w >= q + 1,
                            high == (q + 1) * unit,
                    ;
                }
            }
            assert(false);
        }
        let even = if q % 2 == 1 {
            q + 1
        } else {
            q
        };
        assert(round_to_even(n) == even * unit);
        let half = even / 2;
        power2::lemma_pow2_unfold(k + 1);
        assert(even * unit == half * power2::pow2(k + 1)) by (nonlinear_arith)
            requires
                even == 2 * half,
                power2::pow2(k + 1) == 2 * unit,
        ;
        if half == 0x10_0000_0000_0000 {
            let quarter: nat = 0x8_0000_0000_0000;
            power2::lemma_pow2_unfold(k + 2);
            assert(half * power2::pow2(k + 1) == quarter * power2::pow2(k + 2)) by (nonlinear_arith)
                requires
                    half == 2 * quarter,
                    power2::pow2(k + 2) == 2 * power2::pow2(k + 1),
            ;
        }
    }
}

} // verus!
