//! Rounding of whole numbers to the 53 significant bits of binary64, and their scaling by
//! powers of two.

use vstd::arithmetic::div_mod::{
    lemma_div_denominator, lemma_div_is_ordered, lemma_fundamental_div_mod,
    lemma_fundamental_div_mod_converse,
};
use vstd::arithmetic::power2::{lemma2_to64, lemma_pow2_pos, lemma_pow2_unfold, pow2};
use vstd::prelude::*;

verus! {

/// The number of significands of 53 bits or fewer.
pub const SIGNIFICANDS: u64 = 0x20_0000_0000_0000;

/// The distance of neighbouring numbers with a significand of 53 bits, at `p`.
pub open spec fn ulp(p: nat) -> nat
    decreases p,
{
    if p < SIGNIFICANDS {
        1
    } else {
        2 * ulp(p / 2)
    }
}

/// The multiple of `unit` nearest to `p`; of two that are equally near, the even one.
pub open spec fn round_even(p: nat, unit: nat) -> nat {
    let q = p / unit;
    let r = p % unit;
    if 2 * r < unit || (2 * r == unit && q % 2 == 0) {
        q * unit
    } else {
        (q + 1) * unit
    }
}

/// `p`, rounded to a significand of 53 bits.
pub open spec fn round_to_double(p: nat) -> nat {
    round_even(p, ulp(p))
}

/// The whole part of `p * 2^e`.
pub open spec fn whole_part(p: nat, e: int) -> nat {
    if e >= 0 {
        p * pow2(e as nat)
    } else {
        p / pow2((-e) as nat)
    }
}

proof fn lemma_ulp_pos(p: nat)
    ensures
        ulp(p) >= 1,
    decreases p,
{
    if p >= SIGNIFICANDS {
        lemma_ulp_pos(p / 2);
    }
}

/// Rounds to a significand of 53 bits.
pub(crate) fn round_significand(p: u128) -> (rounded: u128)
    requires
        p < 0x40_0000_0000_0000_0000_0000,
    ensures
        rounded == round_to_double(p as nat),
        rounded <= 2 * p,
{
    let mut unit: u128 = 1;
    let mut q: u128 = p;
    while q >= 0x20_0000_0000_0000
        invariant
            p < 0x40_0000_0000_0000_0000_0000,
            unit >= 1,
            q == p / unit,
            q * unit <= p,
            ulp(p as nat) == unit * ulp(q as nat),
        decreases q,
    {
        assert(unit <= 0x2_0000_0000) by (nonlinear_arith)
            requires
                q * unit <= p,
                q >= 0x20_0000_0000_0000,
                p < 0x40_0000_0000_0000_0000_0000,
        ;
        proof {
            lemma_div_denominator(p as int, unit as int, 2);
            assert(unit * ulp(q as nat) == (unit * 2) * ulp((q / 2) as nat)) by (nonlinear_arith)
                requires
                    ulp(q as nat) == 2 * ulp((q / 2) as nat),
            ;
            assert((q / 2) * (unit * 2) <= p) by (nonlinear_arith)
                requires
                    q * unit <= p,
                    (q / 2) * 2 <= q,
                    unit >= 1,
            ;
        }
        q = q / 2;
        unit = unit * 2;
    }
    proof {
        lemma_fundamental_div_mod(p as int, unit as int);
        assert(unit * q == q * unit) by (nonlinear_arith);
        assert((q + 1) * unit == q * unit + unit) by (nonlinear_arith);
        assert(ulp(p as nat) == unit) by (nonlinear_arith)
            requires
                ulp(p as nat) == unit * ulp(q as nat),
                ulp(q as nat) == 1,
        ;
    }
    let low: u128 = q * unit;
    let r: u128 = p - low;
    assert(r == p % unit);
    if r < unit - r || (r == unit - r && q % 2 == 0) {
        low
    } else {
        low + unit
    }
}

/// The whole part of `p * 2^e`, or a number of at least `2^63` if it is as large.
pub(crate) fn whole_or_huge(p: u128, e: i32) -> (whole: u128)
    requires
        p < 0x80_0000_0000_0000_0000_0000,
        -1074 <= e <= 971,
    ensures
        whole == whole_part(p as nat, e as int) || (whole >= 0x8000_0000_0000_0000 && whole_part(
            p as nat,
            e as int,
        ) >= 0x8000_0000_0000_0000),
{
    let mut whole: u128 = p;
    let mut step: i32 = 0;
    proof {
        lemma_pow2_zero();
        assert(p * pow2(0) == p && p as nat / pow2(0) == p) by (nonlinear_arith)
            requires
                pow2(0) == 1,
        ;
    }
    if e >= 0 {
        while step < e && whole < 0x8000_0000_0000_0000
            invariant
                0 <= step <= e <= 971,
                whole == p * pow2(step as nat),
                p < 0x80_0000_0000_0000_0000_0000,
                whole < 0x80_0000_0000_0000_0000_0000,
            decreases e - step,
        {
            proof {
                lemma_pow2_unfold((step + 1) as nat);
                assert(p * (2 * pow2(step as nat)) == 2 * (p * pow2(step as nat))) by (nonlinear_arith);
            }
            whole = whole * 2;
            step = step + 1;
        }
        proof {
            lemma_scaled_monotone(p as nat, step as nat, e as nat);
        }
        whole
    } else {
        while step < -e
            invariant
                0 <= step <= -e <= 1074,
                whole == p as nat / pow2(step as nat),
            decreases -e - step,
        {
            proof {
                lemma_pow2_pos(step as nat);
                lemma_pow2_unfold((step + 1) as nat);
                lemma_div_denominator(p as int, pow2(step as nat) as int, 2);
            }
            whole = whole / 2;
            step = step + 1;
        }
        whole
    }
}

pub(crate) proof fn lemma_pow2_zero()
    ensures
        pow2(0) == 1,
{
    lemma2_to64();
}

proof fn lemma_scaled_monotone(p: nat, i: nat, j: nat)
    requires
        i <= j,
    ensures
        p * pow2(i) <= p * pow2(j),
    decreases j,
{
    if i < j {
        lemma_scaled_monotone(p, i, (j - 1) as nat);
        lemma_pow2_unfold(j);
        assert(p * (2 * pow2((j - 1) as nat)) == 2 * (p * pow2((j - 1) as nat))) by (nonlinear_arith);
    }
}

/// `ulp` bounds what it is the distance at.
proof fn lemma_ulp_bounds(p: nat)
    ensures
        ulp(p) >= 1,
        p < SIGNIFICANDS * ulp(p),
        p >= SIGNIFICANDS ==> 0x10_0000_0000_0000 * ulp(p) <= p,
    decreases p,
{
    if p >= SIGNIFICANDS {
        lemma_ulp_bounds(p / 2);
    }
}

/// `ulp` grows with its argument, and at least by a factor of two where it grows.
proof fn lemma_ulp_monotone(p: nat, q: nat)
    requires
        p <= q,
    ensures
        ulp(p) <= ulp(q),
        ulp(p) < ulp(q) ==> 2 * ulp(p) <= ulp(q) && q >= SIGNIFICANDS,
    decreases q,
{
    lemma_ulp_pos(p);
    if q >= SIGNIFICANDS {
        lemma_ulp_pos(q / 2);
        if p >= SIGNIFICANDS {
            lemma_ulp_monotone(p / 2, q / 2);
        }
    }
}

/// What rounding yields lies between the two multiples of the unit around its argument.
proof fn lemma_round_even_between(p: nat, unit: nat)
    requires
        unit >= 1,
    ensures
        (p / unit) * unit <= round_even(p, unit) <= (p / unit + 1) * unit,
{
    let q = p / unit;
    assert(q * unit <= (q + 1) * unit) by (nonlinear_arith);
}

proof fn lemma_round_even_monotone(p: nat, q: nat, unit: nat)
    requires
        unit >= 1,
        p <= q,
    ensures
        round_even(p, unit) <= round_even(q, unit),
{
    lemma_round_even_between(p, unit);
    lemma_round_even_between(q, unit);
    lemma_div_is_ordered(p as int, q as int, unit as int);
    let (a, b) = (p / unit, q / unit);
    if a < b {
        assert((a + 1) * unit <= b * unit) by (nonlinear_arith)
            requires
                a + 1 <= b,
        ;
    } else {
        lemma_fundamental_div_mod(p as int, unit as int);
        lemma_fundamental_div_mod(q as int, unit as int);
        assert(p % unit <= q % unit);
        assert(a * unit <= (a + 1) * unit) by (nonlinear_arith);
    }
}

/// Rounding keeps the order of numbers.
pub(crate) proof fn lemma_round_monotone(p: nat, q: nat)
    requires
        p <= q,
    ensures
        round_to_double(p) <= round_to_double(q),
{
    let (u, v) = (ulp(p), ulp(q));
    lemma_ulp_bounds(p);
    lemma_ulp_bounds(q);
    lemma_ulp_monotone(p, q);
    if u == v {
        lemma_round_even_monotone(p, q, u);
    } else {
        lemma_round_even_between(p, u);
        lemma_round_even_between(q, v);
        lemma_fundamental_div_mod(p as int, u as int);
        lemma_fundamental_div_mod(q as int, v as int);
        let a = p / u;
        let b = q / v;
        assert(a + 1 <= SIGNIFICANDS) by (nonlinear_arith)
            requires
                p < SIGNIFICANDS * u,
                p == u * a + p % u,
                p % u >= 0,
                u >= 1,
        ;
        assert((a + 1) * u <= SIGNIFICANDS * u) by (nonlinear_arith)
            requires
                a + 1 <= SIGNIFICANDS,
        ;
        assert(b >= 0x10_0000_0000_0000) by (nonlinear_arith)
            requires
                0x10_0000_0000_0000 * v <= q,
                q == v * b + q % v,
                q % v < v,
                v >= 1,
        ;
        assert(0x10_0000_0000_0000 * v <= b * v) by (nonlinear_arith)
            requires
                b >= 0x10_0000_0000_0000,
        ;
    }
}

/// A number of 53 significant bits is what it rounds to.
pub(crate) proof fn lemma_round_exact(w: nat, j: nat)
    requires
        w < SIGNIFICANDS,
    ensures
        round_to_double(w * pow2(j)) == w * pow2(j),
{
    let p = w * pow2(j);
    lemma_ulp_divides(w, j);
    lemma_ulp_pos(p);
    lemma_fundamental_div_mod(p as int, ulp(p) as int);
    assert(ulp(p) * (p / ulp(p)) == (p / ulp(p)) * ulp(p)) by (nonlinear_arith);
}

proof fn lemma_ulp_divides(w: nat, j: nat)
    requires
        w < SIGNIFICANDS,
    ensures
        (w * pow2(j)) % ulp(w * pow2(j)) == 0,
    decreases j,
{
    let p = w * pow2(j);
    lemma_pow2_zero();
    if p >= SIGNIFICANDS {
        if j == 0 {
            assert(p == w) by (nonlinear_arith)
                requires
                    p == w * pow2(0),
                    pow2(0) == 1,
            ;
        }
        let h = w * pow2((j - 1) as nat);
        lemma_pow2_unfold(j);
        assert(p == 2 * h) by (nonlinear_arith)
            requires
                p == w * pow2(j),
                h == w * pow2((j - 1) as nat),
                pow2(j) == 2 * pow2((j - 1) as nat),
        ;
        lemma_ulp_divides(w, (j - 1) as nat);
        lemma_ulp_pos(h);
        lemma_double_div_mod(h, ulp(h));
    }
}

proof fn lemma_double_div_mod(p: nat, unit: nat)
    requires
        unit >= 1,
    ensures
        (2 * p) / (2 * unit) == p / unit,
        (2 * p) % (2 * unit) == 2 * (p % unit),
{
    let (q, r) = (p / unit, p % unit);
    lemma_fundamental_div_mod(p as int, unit as int);
    assert(2 * p == q * (2 * unit) + 2 * r) by (nonlinear_arith)
        requires
            p == unit * q + r,
    ;
    lemma_fundamental_div_mod_converse((2 * p) as int, (2 * unit) as int, q as int, (2 * r) as int);
}

/// Rounding commutes with scaling by a power of two.
pub(crate) proof fn lemma_round_scaled(p: nat, k: nat)
    ensures
        round_to_double(p * pow2(k)) == round_to_double(p) * pow2(k),
    decreases k,
{
    lemma_pow2_zero();
    if p < SIGNIFICANDS {
        lemma_round_exact(p, k);
        lemma_round_exact(p, 0);
        assert(p * pow2(0) == p) by (nonlinear_arith)
            requires
                pow2(0) == 1,
        ;
    } else if k == 0 {
        assert(p * pow2(0) == p && round_to_double(p) * pow2(0) == round_to_double(p)) by (nonlinear_arith)
            requires
                pow2(0) == 1,
        ;
    } else {
        let h = p * pow2((k - 1) as nat);
        lemma_round_scaled(p, (k - 1) as nat);
        lemma_pow2_unfold(k);
        lemma_pow2_pos((k - 1) as nat);
        assert(p * pow2(k) == 2 * h && h >= p && round_to_double(p) * pow2(k) == 2 * (round_to_double(p)
            * pow2((k - 1) as nat))) by (nonlinear_arith)
            requires
                h == p * pow2((k - 1) as nat),
                pow2(k) == 2 * pow2((k - 1) as nat),
                pow2((k - 1) as nat) >= 1,
        ;
        let u = ulp(h);
        lemma_ulp_pos(h);
        lemma_double_div_mod(h, u);
        assert(ulp(2 * h) == 2 * u);
        let q = h / u;
        assert(q * (2 * u) == 2 * (q * u) && (q + 1) * (2 * u) == 2 * ((q + 1) * u)) by (nonlinear_arith);
    }
}

/// A factor of two may stand in the number or in the exponent.
proof fn lemma_whole_part_shift_one(p: nat, e: int)
    ensures
        whole_part(2 * p, e) == whole_part(p, e + 1),
{
    lemma_pow2_zero();
    if e >= 0 {
        lemma_pow2_unfold((e + 1) as nat);
        assert((2 * p) * pow2(e as nat) == p * (2 * pow2(e as nat))) by (nonlinear_arith);
    } else {
        lemma_pow2_unfold((-e) as nat);
        lemma_pow2_pos((-e - 1) as nat);
        lemma_double_div_mod(p, pow2((-e - 1) as nat));
        if e == -1 {
            assert(p * pow2(0) == p && p / pow2(0) == p) by (nonlinear_arith)
                requires
                    pow2(0) == 1,
            ;
        }
    }
}

pub(crate) proof fn lemma_whole_part_shift(p: nat, e: int, k: nat)
    ensures
        whole_part(p * pow2(k), e) == whole_part(p, e + k),
    decreases k,
{
    lemma_pow2_zero();
    if k == 0 {
        assert(p * pow2(0) == p) by (nonlinear_arith)
            requires
                pow2(0) == 1,
        ;
    } else {
        let h = p * pow2((k - 1) as nat);
        lemma_pow2_unfold(k);
        assert(p * pow2(k) == 2 * h) by (nonlinear_arith)
            requires
                h == p * pow2((k - 1) as nat),
                pow2(k) == 2 * pow2((k - 1) as nat),
        ;
        lemma_whole_part_shift_one(h, e);
        lemma_whole_part_shift(p, e + 1, (k - 1) as nat);
    }
}

pub(crate) proof fn lemma_whole_part_monotone(p: nat, q: nat, e: int)
    requires
        p <= q,
    ensures
        whole_part(p, e) <= whole_part(q, e),
{
    if e >= 0 {
        assert(p * pow2(e as nat) <= q * pow2(e as nat)) by (nonlinear_arith)
            requires
                p <= q,
        ;
    } else {
        lemma_pow2_pos((-e) as nat);
        lemma_div_is_ordered(p as int, q as int, pow2((-e) as nat) as int);
    }
}

/// Whether `x` is `w * 2^k`, where `w` has 53 bits or fewer.
pub open spec fn is_scaled(x: nat, w: nat, k: nat) -> bool {
    w < 0x20_0000_0000_0000 && x == w * pow2(k)
}

/// Whether 53 significant bits are enough for `x`.
pub open spec fn is_double(x: nat) -> bool {
    exists|w: nat, k: nat| #[trigger] is_scaled(x, w, k)
}

/// Whether `x` is the number of 53 significant bits nearest to `p`: no other one is nearer, and
/// where another one is as near, `x` is an even multiple of the distance between the two.
pub open spec fn is_nearest(p: nat, x: nat) -> bool {
    &&& is_double(x)
    &&& forall|y: nat| #[trigger]
        is_double(y) ==> {
            &&& vstd::math::abs(x - p) <= vstd::math::abs(y - p)
            &&& y != x && vstd::math::abs(x - p) == vstd::math::abs(y - p) ==> x % (2
                * vstd::math::abs(y - x)) == 0
        }
}

proof fn lemma_ulp_is_power(p: nat) -> (j: nat)
    ensures
        ulp(p) == pow2(j),
    decreases p,
{
    lemma_pow2_zero();
    if p < SIGNIFICANDS {
        0
    } else {
        let i = lemma_ulp_is_power(p / 2);
        lemma_pow2_unfold(i + 1);
        i + 1
    }
}

/// Of the multiples of `unit`, rounding yields the nearest, and of two that are equally near, the
/// even one.
proof fn lemma_round_even_nearest(p: nat, unit: nat, t: nat)
    requires
        unit >= 1,
    ensures
        ({
            let (x, y) = (round_even(p, unit), t * unit);
            &&& vstd::math::abs(x - p) <= vstd::math::abs(y - p)
            &&& y != x && vstd::math::abs(x - p) == vstd::math::abs(y - p) ==> x % (2
                * vstd::math::abs(y - x)) == 0
        }),
{
    let (q, r) = (p / unit, p % unit);
    let (x, y) = (round_even(p, unit), t * unit);
    lemma_fundamental_div_mod(p as int, unit as int);
    assert(unit * q == q * unit && (q + 1) * unit == q * unit + unit) by (nonlinear_arith);
    if t <= q {
        assert(y <= q * unit && (t < q ==> y + unit <= q * unit)) by (nonlinear_arith)
            requires
                y == t * unit,
                t <= q,
                unit >= 1,
        ;
    } else {
        assert(y >= q * unit + unit && (t > q + 1 ==> y >= q * unit + 2 * unit)) by (nonlinear_arith)
            requires
                y == t * unit,
                t >= q + 1,
                unit >= 1,
        ;
    }
    if y != x && vstd::math::abs(x - p) == vstd::math::abs(y - p) {
        assert(2 * r == unit);
        assert(vstd::math::abs(y - x) == unit);
        if x == q * unit {
            let m = q / 2;
            assert(x == m * (2 * unit)) by (nonlinear_arith)
                requires
                    x == q * unit,
                    q == 2 * m,
            ;
            lemma_fundamental_div_mod_converse(x as int, (2 * unit) as int, m as int, 0);
        } else {
            let m = (q + 1) / 2;
            assert(x == m * (2 * unit)) by (nonlinear_arith)
                requires
                    x == (q + 1) * unit,
                    q + 1 == 2 * m,
            ;
            lemma_fundamental_div_mod_converse(x as int, (2 * unit) as int, m as int, 0);
        }
    }
}

/// Rounding yields the nearest number of 53 significant bits, and of two that are equally near, the
/// even one.
pub proof fn law_rounds_to_the_nearest(p: nat)
    ensures
        is_nearest(p, round_to_double(p)),
{
    let x = round_to_double(p);
    let u = ulp(p);
    let j = lemma_ulp_is_power(p);
    let q = p / u;
    lemma_ulp_bounds(p);
    lemma_fundamental_div_mod(p as int, u as int);
    assert(u * q == q * u && (q + 1) * u == q * u + u) by (nonlinear_arith);
    assert(q < SIGNIFICANDS) by (nonlinear_arith)
        requires
            u * q <= p,
            p < SIGNIFICANDS * u,
            u >= 1,
    ;
    if x == q * u {
        assert(is_scaled(x, q, j));
    } else if q + 1 < SIGNIFICANDS {
        assert(is_scaled(x, q + 1, j));
    } else {
        lemma_pow2_unfold(j + 1);
        assert(x == 0x10_0000_0000_0000 * pow2(j + 1)) by (nonlinear_arith)
            requires
                x == (q + 1) * u,
                q + 1 == 0x20_0000_0000_0000,
                u == pow2(j),
                pow2(j + 1) == 2 * pow2(j),
        ;
        assert(is_scaled(x, 0x10_0000_0000_0000, j + 1));
    }
    assert forall|y: nat| #[trigger] is_double(y) implies {
        &&& vstd::math::abs(x - p) <= vstd::math::abs(y - p)
        &&& y != x && vstd::math::abs(x - p) == vstd::math::abs(y - p) ==> x % (2 * vstd::math::abs(
            y - x,
        )) == 0
    } by {
        let (w, k) = choose|w: nat, k: nat| #[trigger] is_scaled(y, w, k);
        if k >= j {
            let t = w * pow2((k - j) as nat);
            vstd::arithmetic::power2::lemma_pow2_adds((k - j) as nat, j);
            assert(y == t * u) by (nonlinear_arith)
                requires
                    y == w * pow2(k),
                    t == w * pow2((k - j) as nat),
                    pow2((k - j) as nat) * pow2(j) == pow2(k),
                    u == pow2(j),
            ;
            lemma_round_even_nearest(p, u, t);
        } else {
            lemma_pow2_unfold(j);
            lemma_pow2_pos(k);
            lemma_scaled_monotone(1, k, (j - 1) as nat);
            assert(y < 0x10_0000_0000_0000 * u) by (nonlinear_arith)
                requires
                    y == w * pow2(k),
                    w < 0x20_0000_0000_0000,
                    pow2(k) >= 1,
                    1 * pow2(k) <= 1 * pow2((j - 1) as nat),
                    u == 2 * pow2((j - 1) as nat),
            ;
            assert(q >= 0x10_0000_0000_0000) by (nonlinear_arith)
                requires
                    0x10_0000_0000_0000 * u <= p,
                    p < u * q + u,
                    u >= 1,
            ;
            assert(0x10_0000_0000_0000 * u <= q * u) by (nonlinear_arith)
                requires
                    q >= 0x10_0000_0000_0000,
            ;
        }
    }
}

} // verus!
