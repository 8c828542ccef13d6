//! Where a point of the view lies in pixels.
//!
//! A coordinate comes as a fraction of the view in binary64. It is kept by its
//! bits, and the pixel is worked out on integers, to the same pixel that the
//! product in binary64, rounded, gives.

use vstd::arithmetic::div_mod::{lemma_div_denominator, lemma_fundamental_div_mod};
use vstd::arithmetic::power2::{lemma2_to64, lemma2_to64_rest, lemma_pow2_adds, lemma_pow2_pos, lemma_pow2_strictly_increases, lemma_pow2_unfold, pow2};
use vstd::prelude::*;

use crate::binary64::{excess, is_nan, lemma_excess_bound, rounded53, EXPONENT_UNIT, INFINITY_BITS, ONE_BITS, SIGN_BIT};

verus! {

/// The whole number `m` such that the bits, of a number from 0 to 1, stand for `m`
/// divided by two to the power `fraction_places(bits)`.
pub open spec fn significand(bits: u64) -> nat {
    let fraction = (bits % EXPONENT_UNIT) as nat;
    if bits < EXPONENT_UNIT {
        fraction
    } else {
        fraction + EXPONENT_UNIT as nat
    }
}

/// The number of binary places after the point that `significand` leaves out.
pub open spec fn fraction_places(bits: u64) -> nat {
    if bits < EXPONENT_UNIT {
        1074
    } else {
        (1075 - bits / EXPONENT_UNIT) as nat
    }
}

/// `a / b`, rounded to the nearest whole number, up where it lies half way.
pub open spec fn nearest(a: nat, b: nat) -> nat {
    (2 * a + b) / (2 * b)
}

/// The pixel at the fraction with these bits of a view of `extent` pixels. What
/// lies outside the view is taken to its edge.
pub open spec fn pixel_of(bits: u64, extent: u32) -> nat {
    if bits >= SIGN_BIT {
        0
    } else if bits >= ONE_BITS {
        extent as nat
    } else {
        nearest(rounded53(significand(bits) * extent as nat), pow2(fraction_places(bits)))
    }
}

proof fn lemma_pow2_values()
    ensures
        pow2(0) == 1,
        pow2(53) == 0x20_0000_0000_0000,
        pow2(85) == 0x20_0000_0000_0000 * 0x1_0000_0000,
        pow2(101) == 0x20_0000_0000_0000 * 0x1_0000_0000 * 0x1_0000,
{
    lemma2_to64();
    lemma2_to64_rest();
    lemma_pow2_adds(53, 32);
    lemma_pow2_adds(85, 16);
}

/// Rounding up to a multiple of the unit does not pass a multiple of it.
proof fn lemma_pixel_in_view(m: nat, extent: nat, places: nat)
    requires
        m < pow2(53),
        extent < 0x1_0000_0000,
        places >= 53,
    ensures
        nearest(rounded53(m * extent), pow2(places)) <= extent,
{
    lemma_pow2_values();
    let p = m * extent;
    let d = pow2(places);
    if places > 53 {
        lemma_pow2_strictly_increases(53, places);
    }
    assert(p < pow2(85)) by (nonlinear_arith)
        requires
            p == m * extent,
            m < 0x20_0000_0000_0000,
            extent < 0x1_0000_0000,
            pow2(85) == 0x20_0000_0000_0000 * 0x1_0000_0000,
    ;
    lemma_excess_bound(p, 32);
    let k = excess(p);
    let unit = pow2(k);
    lemma_pow2_pos(k);
    lemma_pow2_pos(places);
    lemma_pow2_adds((places - k) as nat, k);
    let c = pow2((places - k) as nat) * extent;
    assert(p <= unit * c && unit * c == d * extent) by (nonlinear_arith)
        requires
            p == m * extent,
            m <= d,
            d == pow2((places - k) as nat) * unit,
            c == pow2((places - k) as nat) * extent,
    ;
    let kept = p / unit;
    let lost = p % unit;
    lemma_fundamental_div_mod(p as int, unit as int);
    let v = rounded53(p);
    if lost == 0 {
        assert(v <= d * extent) by (nonlinear_arith)
            requires
                v == kept * unit,
                p == unit * kept + lost,
                lost == 0,
                p <= unit * c,
                unit * c == d * extent,
        ;
    } else {
        assert(kept + 1 <= c) by (nonlinear_arith)
            requires
                p == unit * kept + lost,
                lost > 0,
                p <= unit * c,
                unit > 0,
        ;
        assert(v <= d * extent) by (nonlinear_arith)
            requires
                v <= (kept + 1) * unit || v <= kept * unit,
                kept + 1 <= c,
                unit > 0,
                unit * c == d * extent,
        ;
    }
    assert((2 * v + d) / (2 * d) <= extent) by (nonlinear_arith)
        requires
            v <= d * extent,
            d > 0,
    ;
}

/// No pixel lies outside the view.
pub proof fn lemma_pixel_in_range(bits: u64, extent: u32)
    ensures
        pixel_of(bits, extent) <= extent,
{
    if bits < ONE_BITS {
        lemma_pow2_values();
        lemma_pixel_in_view(significand(bits), extent as nat, fraction_places(bits));
    }
}

proof fn lemma_small_is_zero(v: nat, places: nat)
    requires
        v < 2 * pow2(85),
        places > 100,
    ensures
        nearest(v, pow2(places)) == 0,
{
    lemma_pow2_values();
    if places > 101 {
        lemma_pow2_strictly_increases(101, places);
    }
    let d = pow2(places);
    assert((2 * v + d) / (2 * d) == 0) by (nonlinear_arith)
        requires
            2 * v < d,
    ;
}

fn power_of_two(n: u32) -> (r: u128)
    requires
        n <= 100,
    ensures
        r == pow2(n as nat),
        0 < r < 0x20_0000_0000_0000 * 0x1_0000_0000 * 0x1_0000,
{
    proof {
        lemma_pow2_values();
        lemma_pow2_strictly_increases(n as nat, 101);
    }
    let mut r: u128 = 1;
    let mut i: u32 = 0;
    while i < n
        invariant
            i <= n <= 100,
            r == pow2(i as nat),
            pow2(n as nat) < 0x20_0000_0000_0000 * 0x1_0000_0000 * 0x1_0000,
        decreases n - i,
    {
        proof {
            lemma_pow2_unfold((i + 1) as nat);
            if i + 1 < n {
                lemma_pow2_strictly_increases((i + 1) as nat, n as nat);
            }
        }
        r = r * 2;
        i += 1;
    }
    proof {
        lemma_pow2_pos(n as nat);
    }
    r
}

fn round53(p: u128) -> (r: u128)
    requires
        p < pow2(85),
    ensures
        r == rounded53(p as nat),
        r < 2 * pow2(85),
{
    proof {
        lemma_pow2_values();
    }
    let mut kept: u128 = p;
    let mut unit: u128 = 1;
    let ghost mut k: nat = 0;
    while kept >= 0x20_0000_0000_0000
        invariant
            p < pow2(85),
            pow2(53) == 0x20_0000_0000_0000,
            pow2(85) == 0x20_0000_0000_0000 * 0x1_0000_0000,
            unit == pow2(k),
            unit > 0,
            kept == p as nat / pow2(k),
            kept * unit <= p,
            excess(p as nat) == k + excess(kept as nat),
        decreases kept,
    {
        assert(unit < 0x1_0000_0000) by (nonlinear_arith)
            requires
                kept >= 0x20_0000_0000_0000,
                kept * unit <= p,
                p < 0x20_0000_0000_0000 * 0x1_0000_0000,
        ;
        proof {
            lemma_pow2_unfold(k + 1);
            lemma_div_denominator(p as int, unit as int, 2);
        }
        let ghost before = kept;
        let ghost unit_before = unit;
        kept = kept / 2;
        unit = unit * 2;
        assert(kept * unit <= p) by (nonlinear_arith)
            requires
                kept == before / 2,
                unit == unit_before * 2,
                before * unit_before <= p,
        ;
        proof {
            k = k + 1;
            assert(unit == pow2(k));
            assert(kept == p as nat / pow2(k));
        }
    }
    let lost = p % unit;
    assert(k == excess(p as nat));
    proof {
        lemma_fundamental_div_mod(p as int, unit as int);
        lemma_excess_bound(p as nat, 32);
        lemma2_to64();
        if k < 32 {
            lemma_pow2_strictly_increases(k, 32);
        }
        assert(kept * unit == p - lost) by (nonlinear_arith)
            requires
                p == unit * kept + lost,
        ;
        assert((kept + 1) * unit == kept * unit + unit) by (nonlinear_arith);
    }
    if 2 * lost > unit || (2 * lost == unit && kept % 2 == 1) {
        (kept + 1) * unit
    } else {
        kept * unit
    }
}

/// A coordinate: a fraction of the view in binary64, a number.
#[derive(Debug, Clone, Copy)]
pub struct Coord {
    bits: u64,
}

impl Coord {
    /// The bits of the fraction.
    pub closed spec fn bits(self) -> u64 {
        self.bits
    }

    /// The coordinate with these bits, unless they are no number.
    pub fn new(bits: u64) -> (r: Option<Coord>)
        ensures
            r is Some == !is_nan(bits),
            r matches Some(c) ==> c.bits() == bits,
    {
        let magnitude: u64 = if bits >= SIGN_BIT {
            bits - SIGN_BIT
        } else {
            bits
        };
        if magnitude > INFINITY_BITS {
            None
        } else {
            Some(Coord { bits })
        }
    }

    /// Whether the coordinate is minus zero.
    pub fn is_minus_zero(self) -> (r: bool)
        ensures
            r == (self.bits() == SIGN_BIT),
    {
        self.bits == SIGN_BIT
    }

    /// The pixel that the coordinate stands for, never outside the view.
    pub fn pixel(self, extent: u32) -> (r: u32)
        ensures
            r == pixel_of(self.bits(), extent),
            r <= extent,
    {
        let bits = self.bits;
        if bits >= SIGN_BIT {
            return 0;
        }
        if bits >= ONE_BITS {
            return extent;
        }
        let fraction: u64 = bits % EXPONENT_UNIT;
        let m: u64 = if bits < EXPONENT_UNIT {
            fraction
        } else {
            fraction + EXPONENT_UNIT
        };
        let places: u64 = if bits < EXPONENT_UNIT {
            1074
        } else {
            1075 - bits / EXPONENT_UNIT
        };
        assert(m == significand(bits) && places == fraction_places(bits));
        assert(53 <= places <= 1074);
        assert(m < 0x20_0000_0000_0000);
        assert(m * extent < 0x20_0000_0000_0000 * 0x1_0000_0000) by (nonlinear_arith)
            requires
                m < 0x20_0000_0000_0000,
                extent < 0x1_0000_0000,
        ;
        let p: u128 = (m as u128) * (extent as u128);
        proof {
            lemma_pow2_values();
        }
        let v = round53(p);
        proof {
            lemma_pixel_in_view(m as nat, extent as nat, places as nat);
        }
        if places > 100 {
            proof {
                lemma_small_is_zero(v as nat, places as nat);
            }
            return 0;
        }
        let d = power_of_two(places as u32);
        let px: u128 = (2 * v + d) / (2 * d);
        px as u32
    }
}

/// A pixel is the one nearest to where the coordinate lies: off by half a pixel at most,
/// but for the rounding of the product. What lies before the view is its first pixel,
/// and what lies behind it its last.
pub proof fn a_pixel_is_the_nearest(bits: u64, extent: u32)
    ensures
        bits >= SIGN_BIT ==> pixel_of(bits, extent) == 0,
        ONE_BITS <= bits < SIGN_BIT ==> pixel_of(bits, extent) == extent,
        bits < ONE_BITS ==> ({
            let d = pow2(fraction_places(bits)) as int;
            let product = significand(bits) * extent;
            -(d + 0x1_0000_0000) <= 2 * (pixel_of(bits, extent) * d - product) <= d + 0x1_0000_0000
        }),
{
    if bits < ONE_BITS {
        lemma_pow2_values();
        lemma2_to64();
        let m = significand(bits);
        let places = fraction_places(bits);
        let d = pow2(places) as int;
        let p = m * extent as nat;
        lemma_pow2_pos(places);
        assert(p < pow2(85)) by (nonlinear_arith)
            requires
                p == m * extent as nat,
                m < 0x20_0000_0000_0000,
                extent < 0x1_0000_0000,
                pow2(85) == 0x20_0000_0000_0000 * 0x1_0000_0000,
        ;
        lemma_excess_bound(p, 32);
        let k = excess(p);
        let unit = pow2(k) as int;
        lemma_pow2_pos(k);
        if k < 32 {
            lemma_pow2_strictly_increases(k, 32);
        }
        lemma_fundamental_div_mod(p as int, unit);
        let kept = p as int / unit;
        let lost = p as int % unit;
        let v = rounded53(p) as int;
        assert((kept + 1) * unit == kept * unit + unit && unit * kept == kept * unit) by (nonlinear_arith);
        assert(-unit <= 2 * (v - p) <= unit);
        let n = nearest(v as nat, d as nat) as int;
        lemma_fundamental_div_mod(2 * v + d, 2 * d);
        assert(-d <= 2 * (n * d - v) <= d) by (nonlinear_arith)
            requires
                2 * v + d == (2 * d) * n + (2 * v + d) % (2 * d),
                0 <= (2 * v + d) % (2 * d) < 2 * d,
        ;
    }
}

} // verus!
