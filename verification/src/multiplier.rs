//! The retention multiplier: an IEEE 754 binary64 number, held as its bits, and the
//! product of a retention period with it, cut to whole days.

use crate::rounding;
use vstd::arithmetic::div_mod::{
    lemma_div_multiples_vanish, lemma_div_of0, lemma_fundamental_div_mod,
};
use vstd::arithmetic::power2::{lemma_pow2_pos, lemma_pow2_unfold, pow2};
use vstd::prelude::*;

verus! {

/// The number of significands of one binade: two to the 52nd power.
pub const BINADE: u64 = 0x10_0000_0000_0000;

/// The bits of positive infinity.
pub const INFINITY_BITS: u64 = 0x7ff0_0000_0000_0000;

/// The least bits with the sign bit set.
pub const SIGN_BIT: u64 = 0x8000_0000_0000_0000;

/// A binary64 number, given by its bits.
#[derive(Debug, Clone, Copy, PartialEq, Eq, Structural)]
pub struct Multiplier {
    pub bits: u64,
}

impl Multiplier {
    /// Whether the sign bit is set.
    pub open spec fn is_negative(self) -> bool {
        self.bits >= SIGN_BIT
    }

    /// The low 52 bits.
    pub open spec fn fraction(self) -> nat {
        (self.bits % BINADE) as nat
    }

    /// The 11 bits below the sign bit.
    pub open spec fn biased_exponent(self) -> nat {
        ((self.bits / BINADE) % 0x800) as nat
    }

    /// Whether the bits stand for no number.
    pub open spec fn is_nan(self) -> bool {
        self.biased_exponent() == 0x7ff && self.fraction() != 0
    }

    /// Whether the bits stand for an infinity.
    pub open spec fn is_infinite(self) -> bool {
        self.biased_exponent() == 0x7ff && self.fraction() == 0
    }

    /// Whether the number is zero or less, which a number that is none is not.
    pub open spec fn is_at_most_zero(self) -> bool {
        !self.is_nan() && (self.is_negative() || self.bits == 0)
    }

    /// The magnitude of a finite number is `significand * 2^exponent`.
    pub open spec fn significand(self) -> nat {
        if self.biased_exponent() == 0 {
            self.fraction()
        } else {
            self.fraction() + BINADE as nat
        }
    }

    /// The power of two that the significand is taken times.
    pub open spec fn exponent(self) -> int {
        if self.biased_exponent() == 0 {
            -1074
        } else {
            self.biased_exponent() - 1075
        }
    }
}

/// The `i64` nearest to a number given by sign and whole magnitude.
pub open spec fn saturate(negative: bool, magnitude: nat) -> int {
    if negative {
        if magnitude >= SIGN_BIT {
            i64::MIN as int
        } else {
            -magnitude
        }
    } else {
        if magnitude >= SIGN_BIT {
            i64::MAX as int
        } else {
            magnitude as int
        }
    }
}

/// `days` without its sign.
pub open spec fn magnitude(days: int) -> nat {
    if days < 0 {
        (-days) as nat
    } else {
        days as nat
    }
}

/// The product of `days` and the multiplier in binary64 arithmetic, cut to an `i64`:
/// exact product, rounded to nearest even, the fraction dropped, the ends of the range
/// in place of what lies beyond them, and 0 for what is not a number. Products beyond the
/// exponents of binary64 need no word of their own: small ones have no whole part, and large
/// ones lie beyond the range.
pub open spec fn scaled_days(days: int, m: Multiplier) -> int {
    let negative = (days < 0) != m.is_negative();
    if m.is_nan() || (m.is_infinite() && days == 0) {
        0
    } else if m.is_infinite() {
        saturate(negative, SIGN_BIT as nat)
    } else {
        let product = magnitude(days) * m.significand();
        saturate(negative, rounding::whole_part(rounding::round_to_double(product), m.exponent()))
    }
}

impl Multiplier {
    /// Whether the number is zero or less.
    pub fn at_most_zero(&self) -> (yes: bool)
        ensures
            yes == self.is_at_most_zero(),
    {
        let nan: bool = (self.bits / BINADE) % 0x800 == 0x7ff && self.bits % BINADE != 0;
        !nan && (self.bits >= SIGN_BIT || self.bits == 0)
    }

    /// The product of a number of days and the multiplier, cut to whole days.
    pub fn scale(&self, days: i32) -> (scaled: i64)
        ensures
            scaled == scaled_days(days as int, *self),
    {
        let negative: bool = (days < 0) != (self.bits >= SIGN_BIT);
        let fraction: u64 = self.bits % BINADE;
        let biased: u64 = (self.bits / BINADE) % 0x800;
        if biased == 0x7ff {
            if fraction != 0 || days == 0 {
                return 0;
            }
            return if negative {
                i64::MIN
            } else {
                i64::MAX
            };
        }
        let (significand, exponent): (u64, i32) = if biased == 0 {
            (fraction, -1074)
        } else {
            (fraction + BINADE, biased as i32 - 1075)
        };
        let wide: i64 = days as i64;
        let count: u128 = if wide < 0 {
            (-wide) as u128
        } else {
            wide as u128
        };
        assert(0 <= count * significand < 0x40_0000_0000_0000_0000_0000) by (nonlinear_arith)
            requires
                0 <= count <= 0x8000_0000,
                0 <= significand < 0x20_0000_0000_0000,
        ;
        let product: u128 = rounding::round_significand(count * significand as u128);
        let whole: u128 = rounding::whole_or_huge(product, exponent);
        if whole >= SIGN_BIT as u128 {
            if negative {
                i64::MIN
            } else {
                i64::MAX
            }
        } else if negative {
            -(whole as i64)
        } else {
            whole as i64
        }
    }
}

/// Whether the number is `k`.
pub open spec fn is_whole(m: Multiplier, k: nat) -> bool {
    &&& m.biased_exponent() != 0x7ff
    &&& !m.is_negative()
    &&& if m.exponent() >= 0 {
        m.significand() * pow2(m.exponent() as nat) == k
    } else {
        m.significand() == k * pow2((-m.exponent()) as nat)
    }
}

/// A whole multiplier scales exactly, as long as the product has at most 53 bits.
pub proof fn law_whole_multiplier_is_exact(days: int, m: Multiplier, k: nat)
    requires
        is_whole(m, k),
        magnitude(days) * k < rounding::SIGNIFICANDS,
    ensures
        scaled_days(days, m) == days * k,
{
    let n = magnitude(days);
    let s = m.significand();
    let e = m.exponent();
    let p = n * s;
    let product = n * k;
    if e >= 0 {
        let t = pow2(e as nat);
        lemma_pow2_pos(e as nat);
        assert(p * t == product && p <= product) by (nonlinear_arith)
            requires
                p == n * s,
                product == n * k,
                s * t == k,
                t >= 1,
        ;
        rounding::lemma_round_exact(p, 0);
        rounding::lemma_pow2_zero();
        assert(p * pow2(0) == p) by (nonlinear_arith)
            requires
                pow2(0) == 1,
        ;
    } else {
        let t = pow2((-e) as nat);
        lemma_pow2_pos((-e) as nat);
        assert(p == product * t) by (nonlinear_arith)
            requires
                p == n * s,
                product == n * k,
                s == k * t,
        ;
        rounding::lemma_round_exact(product, (-e) as nat);
        assert(product * t == t * product) by (nonlinear_arith);
        lemma_div_multiples_vanish(product as int, t as int);
    }
    assert(rounding::whole_part(rounding::round_to_double(p), e) == product);
    assert(days < 0 ==> days * k == -(n * k)) by (nonlinear_arith)
        requires
            days < 0 ==> n == -days,
    ;
    assert(n * k >= 0) by (nonlinear_arith);
}

/// For bits up to those of infinity, the order of the bits is that of the numbers: a larger
/// multiplier never makes fewer days.
pub proof fn law_larger_multiplier_makes_no_fewer_days(days: int, m: Multiplier, n: Multiplier)
    requires
        0 <= days,
        m.bits <= n.bits <= INFINITY_BITS,
    ensures
        scaled_days(days, m) <= scaled_days(days, n),
{
    let c = magnitude(days);
    if n.bits < INFINITY_BITS {
        let d = lemma_significands_ordered(m, n);
        let p = c * m.significand();
        let q = c * n.significand();
        assert(p <= q * pow2(d)) by (nonlinear_arith)
            requires
                p == c * m.significand(),
                q == c * n.significand(),
                m.significand() <= n.significand() * pow2(d),
        ;
        rounding::lemma_round_monotone(p, q * pow2(d));
        rounding::lemma_round_scaled(q, d);
        let (x, y) = (rounding::round_to_double(p), rounding::round_to_double(q));
        rounding::lemma_whole_part_monotone(x, y * pow2(d), m.exponent());
        rounding::lemma_whole_part_shift(y, m.exponent(), d);
    } else if days == 0 && m.bits < INFINITY_BITS {
        lemma_no_days(m);
    }
}

/// No days stay no days.
proof fn lemma_no_days(m: Multiplier)
    ensures
        scaled_days(0, m) == 0,
{
    assert(0 * m.significand() == 0) by (nonlinear_arith);
    assert(0 * pow2(0) == 0) by (nonlinear_arith);
    rounding::lemma_round_exact(0, 0);
    if m.exponent() < 0 {
        lemma_pow2_pos((-m.exponent()) as nat);
        lemma_div_of0(pow2((-m.exponent()) as nat) as int);
    } else {
        assert(0 * pow2(m.exponent() as nat) == 0) by (nonlinear_arith);
    }
}

/// How much larger the exponent of the larger of two finite numbers is.
proof fn lemma_significands_ordered(m: Multiplier, n: Multiplier) -> (d: nat)
    requires
        m.bits <= n.bits < INFINITY_BITS,
    ensures
        m.exponent() + d == n.exponent(),
        m.significand() <= n.significand() * pow2(d),
{
    let d = (n.exponent() - m.exponent()) as nat;
    rounding::lemma_pow2_zero();
    let s = n.significand();
    if d == 0 {
        assert(s * pow2(0) == s) by (nonlinear_arith)
            requires
                pow2(0) == 1,
        ;
    } else {
        lemma_pow2_unfold(d);
        lemma_pow2_pos((d - 1) as nat);
        assert(2 * s <= s * pow2(d)) by (nonlinear_arith)
            requires
                pow2(d) == 2 * pow2((d - 1) as nat),
                pow2((d - 1) as nat) >= 1,
        ;
    }
    d
}

/// With a multiplier of zero or more, more days of retention never make fewer days.
pub proof fn law_longer_retention_makes_no_fewer_days(days: int, more: int, m: Multiplier)
    requires
        0 <= days <= more,
        m.bits <= INFINITY_BITS,
    ensures
        scaled_days(days, m) <= scaled_days(more, m),
{
    if m.bits < INFINITY_BITS {
        let p = magnitude(days) * m.significand();
        let q = magnitude(more) * m.significand();
        assert(p <= q) by (nonlinear_arith)
            requires
                p == magnitude(days) * m.significand(),
                q == magnitude(more) * m.significand(),
                magnitude(days) <= magnitude(more),
        ;
        rounding::lemma_round_monotone(p, q);
        rounding::lemma_whole_part_monotone(
            rounding::round_to_double(p),
            rounding::round_to_double(q),
            m.exponent(),
        );
    }
}

/// A multiplier is refused exactly if it is zero or less: plus or minus zero, or a negative number,
/// which minus infinity is, and what is not a number is not.
pub proof fn law_zero_or_less_by_its_bits(m: Multiplier)
    ensures
        m.is_at_most_zero() <==> m.bits == 0 || 0x8000_0000_0000_0000 <= m.bits
            <= 0xfff0_0000_0000_0000,
{
}

/// Whether `whole` is `x * 2^e` without its fraction.
pub open spec fn is_cut(x: nat, e: int, whole: nat) -> bool {
    if e >= 0 {
        whole == x * pow2(e as nat)
    } else {
        whole * pow2((-e) as nat) <= x < (whole + 1) * pow2((-e) as nat)
    }
}

/// Whether `scaled` is the product of `days` and the finite number `(-1)^negative * s * 2^e`: the
/// nearest number of 53 significant bits, without its fraction, and held between the ends of
/// `i64`.
pub open spec fn is_product(days: int, negative: bool, s: nat, e: int, scaled: int) -> bool {
    exists|x: nat, whole: nat|
        {
            &&& rounding::is_nearest(vstd::math::abs(days) * s, x)
            &&& #[trigger] is_cut(x, e, whole)
            &&& scaled == if (days < 0) == negative {
                vstd::math::min(whole as int, i64::MAX as int)
            } else {
                vstd::math::max(-whole, i64::MIN as int)
            }
        }
}

/// Days are scaled as binary64 arithmetic does it, by the number that the bits of the multiplier
/// stand for: a sign, eleven bits of exponent, and 52 bits of fraction.
pub proof fn law_scales_by_what_the_bits_stand_for(
    days: int,
    m: Multiplier,
    negative: bool,
    biased: nat,
    fraction: nat,
)
    requires
        biased < 0x800,
        fraction < 0x10_0000_0000_0000,
        m.bits == (if negative {
            0x8000_0000_0000_0000int
        } else {
            0int
        }) + biased * 0x10_0000_0000_0000 + fraction,
    ensures
        biased == 0x7ff && (fraction != 0 || days == 0) ==> scaled_days(days, m) == 0,
        biased == 0x7ff && fraction == 0 && days != 0 ==> scaled_days(days, m) == if (days < 0)
            == negative {
            i64::MAX as int
        } else {
            i64::MIN as int
        },
        biased == 0 ==> is_product(days, negative, fraction, -1074, scaled_days(days, m)),
        0 < biased < 0x7ff ==> is_product(
            days,
            negative,
            0x10_0000_0000_0000 + fraction,
            biased - 1075,
            scaled_days(days, m),
        ),
{
    assert(m.is_negative() == negative);
    assert(m.fraction() == fraction);
    assert(m.biased_exponent() == biased);
    if biased < 0x7ff {
        let (s, e) = (m.significand(), m.exponent());
        let product = magnitude(days) * s;
        let x = rounding::round_to_double(product);
        let whole = rounding::whole_part(x, e);
        rounding::law_rounds_to_the_nearest(product);
        if e < 0 {
            let t = pow2((-e) as nat);
            lemma_pow2_pos((-e) as nat);
            lemma_fundamental_div_mod(x as int, t as int);
            assert(whole * t <= x < (whole + 1) * t) by (nonlinear_arith)
                requires
                    x == t * whole + x % t,
                    0 <= x % t < t,
            ;
        }
        assert(is_cut(x, e, whole));
        assert(is_product(days, negative, s, e, scaled_days(days, m)));
    }
}

} // verus!
