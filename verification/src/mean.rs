//! The mean of numbers in binary64, known by their bits: added up one after the other,
//! divided by their number and brought to binary32, each step rounded to the nearest
//! number, to the even one where it lies half way.
//!
//! Magnitudes are counted in steps of the smallest positive number, two to the power
//! -1074, so that they are whole.

use vstd::arithmetic::div_mod::{lemma_div_denominator, lemma_fundamental_div_mod, lemma_fundamental_div_mod_converse};
use vstd::arithmetic::power2::{lemma2_to64, lemma2_to64_rest, lemma_pow2_adds, lemma_pow2_pos, lemma_pow2_strictly_increases, lemma_pow2_unfold, pow2};
use vstd::prelude::*;

use crate::binary64::{are_fractions, excess, is_finite, is_fraction, is_mean, is_nan, lemma_excess_bound, magnitude, rounded53, signed_steps, small_integers_are_exact, steps, sum_of_steps, EXPONENT_UNIT, INFINITY_BITS, SIGN_BIT};

verus! {

// ---------------------------------------------------------------- what is worked out

/// What bits stand for.
pub enum Amount {
    NoNumber,
    Infinite { negative: bool },
    /// A number of so many steps.
    Finite(int),
}

/// What bits stand for.
pub open spec fn number_of(bits: u64) -> Amount {
    if is_nan(bits) {
        Amount::NoNumber
    } else if is_finite(bits) {
        Amount::Finite(signed_steps(bits))
    } else {
        Amount::Infinite { negative: bits >= SIGN_BIT }
    }
}

/// The magnitude of an integer.
pub open spec fn size(n: int) -> nat {
    if n < 0 {
        (-n) as nat
    } else {
        n as nat
    }
}

/// A number of `n` steps as binary64 keeps it. From two to the power 1024 on it is
/// infinite.
pub open spec fn kept_as(n: int) -> Amount {
    let m = rounded53(size(n));
    if m >= pow2(2098) {
        Amount::Infinite { negative: n < 0 }
    } else if n < 0 {
        Amount::Finite(-m)
    } else {
        Amount::Finite(m as int)
    }
}

/// The sum of two numbers.
pub open spec fn plus(a: Amount, b: Amount) -> Amount {
    match (a, b) {
        (Amount::NoNumber, _) => a,
        (_, Amount::NoNumber) => b,
        (Amount::Infinite { negative: x }, Amount::Infinite { negative: y }) => if x == y {
            a
        } else {
            Amount::NoNumber
        },
        (Amount::Infinite { .. }, _) => a,
        (_, Amount::Infinite { .. }) => b,
        (Amount::Finite(x), Amount::Finite(y)) => kept_as(x + y),
    }
}

/// Numbers added up one after the other.
pub open spec fn added_up(s: Seq<u64>) -> Amount
    decreases s.len(),
{
    if s.len() == 0 {
        Amount::Finite(0)
    } else {
        plus(added_up(s.drop_last()), number_of(s.last()))
    }
}

/// The multiple of `unit` that is nearest to `p / d`, the even one where it lies half way.
pub open spec fn to_multiple(p: nat, d: nat, unit: nat) -> nat {
    let w = d * unit;
    let kept = p / w;
    let lost = p % w;
    if 2 * lost > w || (2 * lost == w && kept % 2 == 1) {
        (kept + 1) * unit
    } else {
        kept * unit
    }
}

/// `p / d` as binary64 keeps it.
pub open spec fn quotient(p: nat, d: nat) -> nat {
    to_multiple(p, d, pow2(excess(p / d)))
}

/// The larger of two numbers.
pub open spec fn larger(a: nat, b: nat) -> nat {
    if a < b {
        b
    } else {
        a
    }
}

/// A magnitude as binary32 keeps it: with 24 binary digits, in steps of two to the
/// power -149 at least.
pub open spec fn single(q: nat) -> nat {
    to_multiple(q, 1, pow2(larger(925, excess(q) + 29)))
}

/// The magnitude of the mean of `n` numbers that add up to `t` steps.
pub open spec fn mean_size(t: int, n: nat) -> nat {
    single(quotient(size(t), rounded53(n)))
}

/// Whether these are the bits of the mean of numbers. In binary32 it is infinite from
/// two to the power 128 on.
pub open spec fn is_mean_of(s: Seq<u64>, bits: u64) -> bool {
    match added_up(s) {
        Amount::NoNumber => is_nan(bits),
        Amount::Infinite { negative } => number_of(bits) == (Amount::Infinite { negative }),
        Amount::Finite(t) => {
            let v = mean_size(t, s.len());
            if v >= pow2(1202) {
                number_of(bits) == (Amount::Infinite { negative: t < 0 })
            } else {
                is_finite(bits) && (bits >= SIGN_BIT) == (t < 0) && steps(magnitude(bits)) == v
            }
        },
    }
}

// ---------------------------------------------------------------- rounding

proof fn lemma_powers()
    ensures
        pow2(0) == 1,
        pow2(1) == 2,
        pow2(52) == 0x10_0000_0000_0000,
        pow2(53) == 0x20_0000_0000_0000,
        pow2(60) == 0x1000_0000_0000_0000,
        pow2(74) == 0x400 * 0x1_0000_0000_0000_0000,
{
    lemma2_to64();
    lemma2_to64_rest();
    lemma_pow2_adds(10, 64);
}

/// The number of digits in excess, by the bounds of the number.
proof fn lemma_excess_is(p: nat, k: nat)
    requires
        k > 0 ==> pow2(52 + k) <= p,
        p < pow2(53 + k),
    ensures
        excess(p) == k,
    decreases k,
{
    if k > 0 {
        lemma_pow2_unfold(53 + k);
        lemma_pow2_unfold(52 + k);
        if k > 1 {
            lemma_pow2_strictly_increases(53, 52 + k);
        }
        lemma_excess_is(p / 2, (k - 1) as nat);
    }
}

/// The bounds of a number, by the number of its digits in excess.
proof fn lemma_excess_bounds(p: nat)
    ensures
        p < pow2(53 + excess(p)),
        excess(p) > 0 ==> pow2(52 + excess(p)) <= p,
    decreases p,
{
    if p >= pow2(53) {
        lemma_pow2_pos(53);
        lemma_excess_bounds(p / 2);
        let k = excess(p / 2);
        lemma_pow2_unfold(53 + k + 1);
        if k > 0 {
            lemma_pow2_unfold(52 + k + 1);
        }
    }
}

proof fn lemma_twice(p: nat)
    ensures
        rounded53(2 * p) == 2 * rounded53(p),
{
    lemma_powers();
    let k = excess(p);
    let unit = pow2(k);
    lemma_pow2_pos(k);
    lemma_pow2_unfold(k + 1);
    lemma_fundamental_div_mod(p as int, unit as int);
    let kept = p / unit;
    let lost = p % unit;
    if 2 * p < pow2(53) {
        assert(excess(p) == 0 && excess(2 * p) == 0);
        assert(p / 1 == p && p % 1 == 0 && (2 * p) / 1 == 2 * p && (2 * p) % 1 == 0);
    } else {
        assert((2 * p) / 2 == p);
        assert(excess(2 * p) == k + 1);
        assert(2 * p == kept * (2 * unit) + 2 * lost) by (nonlinear_arith)
            requires
                p == unit * kept + lost,
        ;
        assert(0 <= lost < unit);
        lemma_fundamental_div_mod_converse((2 * p) as int, (2 * unit) as int, kept as int, (2 * lost) as int);
        assert(kept * (2 * unit) == 2 * (kept * unit)) by (nonlinear_arith);
        assert((kept + 1) * (2 * unit) == 2 * ((kept + 1) * unit)) by (nonlinear_arith);
    }
}

/// Rounding keeps to the scale.
proof fn lemma_scaled(p: nat, e: nat)
    ensures
        rounded53(p * pow2(e)) == rounded53(p) * pow2(e),
    decreases e,
{
    lemma_powers();
    if e > 0 {
        lemma_scaled(p, (e - 1) as nat);
        lemma_pow2_unfold(e);
        lemma_twice(p * pow2((e - 1) as nat));
        let h = pow2((e - 1) as nat);
        assert(p * (2 * h) == 2 * (p * h)) by (nonlinear_arith);
        let q = rounded53(p);
        assert(q * (2 * h) == 2 * (q * h)) by (nonlinear_arith);
    } else {
        assert(pow2(e) == 1);
        assert(p * 1 == p && rounded53(p) * 1 == rounded53(p));
        assert(p * pow2(e) == p && rounded53(p) * pow2(e) == rounded53(p));
    }
}

/// A number is rounded to the multiple of its unit that is less than half a unit away.
proof fn lemma_nearest(p: nat, c: nat)
    requires
        ({
            let unit = pow2(excess(p)) as int;
            -unit < 2 * (p - c * unit) < unit
        }),
    ensures
        rounded53(p) == c * pow2(excess(p)),
{
    let unit = pow2(excess(p)) as int;
    lemma_pow2_pos(excess(p));
    let r = p - c * unit;
    if r >= 0 {
        assert(p == c * unit + r);
        lemma_fundamental_div_mod_converse(p as int, unit, c as int, r);
    } else {
        assert(c > 0) by (nonlinear_arith)
            requires
                p - c * unit < 0,
                p >= 0,
                unit > 0,
                c >= 0,
        ;
        assert((c - 1) * unit == c * unit - unit) by (nonlinear_arith);
        lemma_fundamental_div_mod_converse(p as int, unit, c - 1, r + unit);
    }
}

/// A small number far below a large one is lost when the two are added.
proof fn lemma_far_below(m: nat, d: nat, x: int)
    requires
        pow2(52) <= m < pow2(53),
        d > 60,
        -pow2(53) < x < pow2(53),
    ensures
        m * pow2(d) + x >= 0,
        rounded53((m * pow2(d) + x) as nat) == m * pow2(d),
{
    lemma_powers();
    lemma_pow2_strictly_increases(60, d);
    lemma_pow2_adds(52, d);
    lemma_pow2_adds(53, d);
    lemma_pow2_adds(51, d);
    lemma_pow2_unfold(52);
    lemma_pow2_unfold(d);
    let w = pow2(d) as int;
    let p = m * w + x;
    assert(m * w >= pow2(52) * w && (m + 1) * w <= pow2(53) * w && (m + 1) * w == m * w + w) by (nonlinear_arith)
        requires
            pow2(52) <= m < pow2(53),
            w > 0,
    ;
    if x < 0 && m == pow2(52) {
        lemma_pow2_adds(53, (d - 1) as nat);
        lemma_pow2_adds(52, (d - 1) as nat);
        assert(p < pow2(53 + (d - 1) as nat));
        assert(p >= pow2(52 + (d - 1) as nat));
        lemma_excess_is(p as nat, (d - 1) as nat);
        let h = pow2((d - 1) as nat) as int;
        assert(pow2(53) * h == m * w) by (nonlinear_arith)
            requires
                w == 2 * h,
                m == 0x10_0000_0000_0000,
                pow2(53) == 0x20_0000_0000_0000,
        ;
        lemma_nearest(p as nat, pow2(53));
    } else {
        if x < 0 {
            assert(m * w >= pow2(52) * w + w) by (nonlinear_arith)
                requires
                    m >= pow2(52) + 1,
                    w > 0,
            ;
        }
        lemma_excess_is(p as nat, d);
        lemma_nearest(p as nat, m);
    }
}

// ---------------------------------------------------------------- working it out

/// A magnitude: `digits` times two to the power `scale`, in steps.
struct Magnitude {
    digits: u64,
    scale: u32,
}

impl Magnitude {
    spec fn size(self) -> nat {
        self.digits as nat * pow2(self.scale as nat)
    }

    /// Whether it is written with as many digits as there is room for.
    spec fn is_full(self) -> bool {
        self.digits < 0x20_0000_0000_0000 && (self.scale == 0 || self.digits >= 0x10_0000_0000_0000)
    }
}

fn round_parts(p: u128) -> (r: Magnitude)
    requires
        p < pow2(120),
    ensures
        r.size() == rounded53(p as nat),
        r.digits <= 0x20_0000_0000_0000,
        r.scale == excess(p as nat),
        r.scale <= 67,
        r.scale > 0 ==> r.digits >= 0x10_0000_0000_0000,
{
    proof {
        lemma_powers();
        lemma_pow2_adds(53, 67);
        lemma_pow2_adds(3, 64);
        lemma2_to64();
        lemma2_to64_rest();
        lemma_excess_bound(p as nat, 67);
    }
    let mut kept: u128 = p;
    let mut unit: u128 = 1;
    let mut k: u32 = 0;
    assert(p as nat / 1 == p);
    while kept >= 0x20_0000_0000_0000
        invariant
            pow2(53) == 0x20_0000_0000_0000,
            pow2(67) == 0x8 * 0x1_0000_0000_0000_0000,
            excess(p as nat) <= 67,
            unit == pow2(k as nat),
            unit > 0,
            kept == p as nat / pow2(k as nat),
            excess(p as nat) == k + excess(kept as nat),
            k > 0 ==> kept >= 0x10_0000_0000_0000,
        decreases kept,
    {
        proof {
            lemma_pow2_unfold((k + 1) as nat);
            lemma_div_denominator(p as int, unit as int, 2);
            assert(excess(kept as nat) == 1 + excess((kept / 2) as nat));
            assert(k < 67);
            if k + 1 < 67 {
                lemma_pow2_strictly_increases((k + 1) as nat, 67);
            }
        }
        kept = kept / 2;
        unit = unit * 2;
        k = k + 1;
    }
    assert(k == excess(p as nat));
    let lost = p % unit;
    proof {
        if k < 67 {
            lemma_pow2_strictly_increases(k as nat, 67);
        }
    }
    let digits = if 2 * lost > unit || (2 * lost == unit && kept % 2 == 1) {
        kept + 1
    } else {
        kept
    };
    Magnitude { digits: digits as u64, scale: k }
}

/// The magnitude of `p` times two to the power `scale`, as binary64 keeps it.
fn normal(p: u128, scale: u32) -> (r: Magnitude)
    requires
        p < pow2(120),
        scale <= 4000,
    ensures
        r.size() == rounded53(p as nat * pow2(scale as nat)),
        r.is_full(),
        r.scale <= scale + 68,
{
    let parts = round_parts(p);
    proof {
        lemma_scaled(p as nat, scale as nat);
        lemma_pow2_adds(parts.scale as nat, scale as nat);
        let a = parts.digits as int;
        let b = pow2(parts.scale as nat) as int;
        let c = pow2(scale as nat) as int;
        assert(a * b * c == a * (b * c)) by (nonlinear_arith);
    }
    let mut digits = parts.digits;
    let mut e: u32 = parts.scale + scale;
    let ghost whole = rounded53(p as nat * pow2(scale as nat));
    assert(digits as nat * pow2(e as nat) == whole);
    if digits == 0x20_0000_0000_0000 {
        proof {
            lemma_pow2_unfold((e + 1) as nat);
            let h = pow2(e as nat) as int;
            assert(0x20_0000_0000_0000 * h == 0x10_0000_0000_0000 * (2 * h)) by (nonlinear_arith);
        }
        digits = 0x10_0000_0000_0000;
        e = e + 1;
    }
    while digits < 0x10_0000_0000_0000 && e > 0
        invariant
            digits < 0x20_0000_0000_0000,
            digits as nat * pow2(e as nat) == whole,
            e <= scale + 68,
        decreases e,
    {
        proof {
            lemma_pow2_unfold(e as nat);
            let h = pow2((e - 1) as nat) as int;
            let m = digits as int;
            assert(m * (2 * h) == (2 * m) * h) by (nonlinear_arith);
        }
        digits = digits * 2;
        e = e - 1;
    }
    Magnitude { digits, scale: e }
}

/// A full magnitude is beyond a power of two exactly if its scale says so.
proof fn lemma_beyond(m: Magnitude, x: nat)
    requires
        m.is_full(),
        x > 0,
    ensures
        m.size() >= pow2(52 + x) <==> m.scale >= x,
{
    lemma_powers();
    let e = m.scale as nat;
    let d = m.digits as int;
    lemma_pow2_pos(e);
    lemma_pow2_adds(52, e);
    lemma_pow2_adds(53, e);
    let w = pow2(e) as int;
    if e >= x {
        assert(d * w >= 0x10_0000_0000_0000 * w) by (nonlinear_arith)
            requires
                d >= 0x10_0000_0000_0000,
                w > 0,
        ;
        if e > x {
            lemma_pow2_strictly_increases(52 + x, 52 + e);
        }
    } else {
        assert(d * w < 0x20_0000_0000_0000 * w) by (nonlinear_arith)
            requires
                d < 0x20_0000_0000_0000,
                w > 0,
        ;
        if 53 + e < 52 + x {
            lemma_pow2_strictly_increases(53 + e, 52 + x);
        }
    }
}

/// A sum, or a number to add to it.
enum Sum {
    NoNumber,
    Infinite { negative: bool },
    Finite { negative: bool, magnitude: Magnitude },
}

/// The integer of this sign and magnitude.
spec fn signed(negative: bool, n: nat) -> int {
    if negative {
        -n
    } else {
        n as int
    }
}

impl Sum {
    spec fn amount(self) -> Amount {
        match self {
            Sum::NoNumber => Amount::NoNumber,
            Sum::Infinite { negative } => Amount::Infinite { negative },
            Sum::Finite { negative, magnitude } => Amount::Finite(signed(negative, magnitude.size())),
        }
    }

    spec fn is_sound(self) -> bool {
        self matches Sum::Finite { magnitude, .. } ==> magnitude.is_full() && magnitude.scale <= 2045
    }

    /// The number with these bits.
    fn read(bits: u64) -> (r: Sum)
        ensures
            r.amount() == number_of(bits),
            r.is_sound(),
    {
        let negative = bits >= SIGN_BIT;
        let rest: u64 = if negative {
            bits - SIGN_BIT
        } else {
            bits
        };
        if rest > INFINITY_BITS {
            return Sum::NoNumber;
        }
        if rest == INFINITY_BITS {
            return Sum::Infinite { negative };
        }
        let exponent: u64 = rest / EXPONENT_UNIT;
        let fraction: u64 = rest % EXPONENT_UNIT;
        let magnitude = if exponent == 0 {
            proof {
                lemma_powers();
                assert(fraction as nat * 1 == fraction);
            }
            Magnitude { digits: fraction, scale: 0 }
        } else {
            Magnitude { digits: fraction + EXPONENT_UNIT, scale: (exponent - 1) as u32 }
        };
        assert(magnitude.size() == steps(rest as int));
        Sum::Finite { negative, magnitude }
    }

    /// A finite sum of this sign and magnitude, unless it is too large for one.
    fn of(negative: bool, magnitude: Magnitude) -> (r: Sum)
        requires
            magnitude.is_full(),
        ensures
            r.is_sound(),
            r.amount() == (if magnitude.size() >= pow2(2098) {
                Amount::Infinite { negative }
            } else {
                Amount::Finite(signed(negative, magnitude.size()))
            }),
    {
        proof {
            lemma_beyond(magnitude, 2046);
        }
        if magnitude.scale > 2045 {
            Sum::Infinite { negative }
        } else {
            Sum::Finite { negative, magnitude }
        }
    }

    /// The sum of two finite numbers, the one of the larger scale first.
    fn add_finite(hi_negative: bool, hi: Magnitude, lo_negative: bool, lo: Magnitude) -> (r: Sum)
        requires
            hi.is_full(),
            lo.is_full(),
            lo.scale <= hi.scale <= 2045,
        ensures
            r.is_sound(),
            r.amount() == kept_as(signed(hi_negative, hi.size()) + signed(lo_negative, lo.size())),
    {
        let d = hi.scale - lo.scale;
        let ghost low = lo.scale as nat;
        let ghost w = pow2(low) as int;
        let ghost sum = signed(hi_negative, hi.size()) + signed(lo_negative, lo.size());
        proof {
            lemma_powers();
            lemma_pow2_pos(low);
            lemma_pow2_pos(d as nat);
            lemma_pow2_adds(d as nat, low);
            let a = hi.digits as int;
            let b = pow2(d as nat) as int;
            assert(a * (b * w) == (a * b) * w) by (nonlinear_arith);
        }
        let ghost top = hi.digits as int * pow2(d as nat);
        assert(hi.size() == top * w);
        if d > 60 {
            proof {
                let x = if hi_negative == lo_negative {
                    lo.digits as int
                } else {
                    -(lo.digits as int)
                };
                lemma_far_below(hi.digits as nat, d as nat, x);
                lemma_scaled((top + x) as nat, low);
                assert((top + x) * w == top * w + x * w) by (nonlinear_arith);
                assert((-(lo.digits as int)) * w == -(lo.digits as int * w)) by (nonlinear_arith);
                assert(size(sum) == (top + x) * w);
                assert((top + x) * w >= 0) by (nonlinear_arith)
                    requires
                        top + x >= 0,
                        w > 0,
                ;
                lemma_beyond(hi, 2046);
                lemma_pow2_strictly_increases(60, d as nat);
                assert(top > 0x20_0000_0000_0000) by (nonlinear_arith)
                    requires
                        top == hi.digits as int * pow2(d as nat),
                        hi.digits >= 0x10_0000_0000_0000,
                        pow2(d as nat) > 0x1000_0000_0000_0000,
                ;
                assert((top + x) * w > 0) by (nonlinear_arith)
                    requires
                        top + x > 0,
                        w > 0,
                ;
            }
            return Sum::Finite { negative: hi_negative, magnitude: hi };
        }
        let mut shifted: u128 = hi.digits as u128;
        let mut i: u32 = 0;
        proof {
            lemma_pow2_adds(53, 60);
            lemma_pow2_adds(53, d as nat);
            if d < 60 {
                lemma_pow2_strictly_increases(d as nat, 60);
            }
            lemma_pow2_adds(0x38, 64);
            lemma2_to64_rest();
            lemma2_to64();
            assert(hi.digits as int * 1 == hi.digits);
        }
        while i < d
            invariant
                i <= d <= 60,
                shifted == hi.digits as int * pow2(i as nat),
                hi.digits < 0x20_0000_0000_0000,
                pow2(60) == 0x1000_0000_0000_0000,
            decreases d - i,
        {
            proof {
                lemma_pow2_unfold((i + 1) as nat);
                if i + 1 < 60 {
                    lemma_pow2_strictly_increases((i + 1) as nat, 60);
                }
                let a = hi.digits as int;
                let b = pow2(i as nat) as int;
                assert(a * (2 * b) == 2 * (a * b)) by (nonlinear_arith);
                assert(a * (2 * b) <= 0x20_0000_0000_0000 * 0x1000_0000_0000_0000) by (nonlinear_arith)
                    requires
                        0 <= a < 0x20_0000_0000_0000,
                        0 <= 2 * b <= 0x1000_0000_0000_0000,
                ;
            }
            shifted = shifted * 2;
            i += 1;
        }
        assert(top <= 0x20_0000_0000_0000 * 0x1000_0000_0000_0000) by (nonlinear_arith)
            requires
                top == hi.digits as int * pow2(d as nat),
                0 <= hi.digits < 0x20_0000_0000_0000,
                0 < pow2(d as nat) <= 0x1000_0000_0000_0000,
        ;
        let below = lo.digits as u128;
        let (negative, p): (bool, u128) = if hi_negative == lo_negative {
            (hi_negative, shifted + below)
        } else if shifted >= below {
            (hi_negative, shifted - below)
        } else {
            (lo_negative, below - shifted)
        };
        proof {
            let t = top;
            let b = lo.digits as int;
            assert((t + b) * w == t * w + b * w) by (nonlinear_arith);
            assert((t - b) * w == t * w - b * w) by (nonlinear_arith);
            assert((b - t) * w == b * w - t * w) by (nonlinear_arith);
            assert(p as int * w >= 0) by (nonlinear_arith)
                requires
                    w > 0,
                    p >= 0,
            ;
            assert(sum == signed(negative, (p as int * w) as nat));
            assert(size(sum) == p as nat * pow2(low));
            assert(p > 0 ==> p as int * w > 0) by (nonlinear_arith)
                requires
                    w > 0,
            ;
            assert(0 * w == 0);
            lemma_pow2_strictly_increases(113, 120);
            lemma_pow2_strictly_increases(114, 120);
            lemma_pow2_unfold(114);
        }
        let m = normal(p, lo.scale);
        proof {
            if p == 0 {
                small_integers_are_exact(0);
                assert(m.size() == 0);
                lemma_pow2_pos(2098);
            }
        }
        Sum::of(negative && p > 0, m)
    }

    /// The sum of two numbers.
    fn add(self, other: Sum) -> (r: Sum)
        requires
            self.is_sound(),
            other.is_sound(),
        ensures
            r.is_sound(),
            r.amount() == plus(self.amount(), other.amount()),
    {
        match (self, other) {
            (Sum::NoNumber, _) => Sum::NoNumber,
            (_, Sum::NoNumber) => Sum::NoNumber,
            (Sum::Infinite { negative: x }, Sum::Infinite { negative: y }) => if x == y {
                Sum::Infinite { negative: x }
            } else {
                Sum::NoNumber
            },
            (Sum::Infinite { negative }, _) => Sum::Infinite { negative },
            (_, Sum::Infinite { negative }) => Sum::Infinite { negative },
            (Sum::Finite { negative: x, magnitude: a }, Sum::Finite { negative: y, magnitude: b }) => if a.scale
                >= b.scale {
                Sum::add_finite(x, a, y, b)
            } else {
                Sum::add_finite(y, b, x, a)
            },
        }
    }
}

/// Division by whole numbers on another scale gives the same quotient, and a remainder
/// on that scale.
proof fn lemma_on_scale(p: nat, w: nat, c: nat, kept: nat, l: nat)
    requires
        w > 0,
        c > 0,
        p * c == kept * (w * c) + l,
        l < w * c,
    ensures
        p / w == kept,
        (p % w) * c == l,
{
    let r = p - kept * w;
    assert(r * c == l) by (nonlinear_arith)
        requires
            r == p - kept * w,
            p * c == kept * (w * c) + l,
    ;
    assert(0 <= r < w) by (nonlinear_arith)
        requires
            r * c == l,
            0 <= l < w * c,
            c > 0,
    ;
    lemma_fundamental_div_mod_converse(p as int, w as int, kept as int, r);
}

/// A full magnitude divided by `n`, as binary64 keeps it.
fn divided(m: Magnitude, n: u128) -> (r: Magnitude)
    requires
        m.is_full(),
        m.scale <= 2045,
        0 < n <= 0x1_0000_0000_0000_0000,
    ensures
        r.size() == quotient(m.size(), n as nat),
        r.digits <= 0x20_0000_0000_0000,
        r.scale <= 2200,
{
    let e = m.scale;
    let ghost t = pow2(74) as int;
    let ghost d = m.digits as int;
    proof {
        lemma_powers();
        lemma_pow2_adds(53, 74);
        lemma_pow2_adds(53, 11);
        lemma2_to64_rest();
        lemma2_to64();
        assert(d * t < 0x20_0000_0000_0000 * (0x400 * 0x1_0000_0000_0000_0000)) by (nonlinear_arith)
            requires
                0 <= d < 0x20_0000_0000_0000,
                t == 0x400 * 0x1_0000_0000_0000_0000,
        ;
    }
    let scaled: u128 = m.digits as u128 * 0x400_0000_0000_0000_0000;
    let q: u128 = scaled / n;
    let rest: u128 = scaled % n;
    let ghost num = n as int;
    proof {
        lemma_fundamental_div_mod(scaled as int, num);
        assert(q <= scaled) by (nonlinear_arith)
            requires
                scaled == num * q + rest,
                num >= 1,
                rest >= 0,
        ;
        if e > 0 {
            // Full digits leave a quotient with digits to spare.
            assert(q >= 0x20_0000_0000_0000) by (nonlinear_arith)
                requires
                    scaled == num * q + rest,
                    rest < num,
                    num <= 0x1_0000_0000_0000_0000,
                    scaled == d * t,
                    d >= 0x10_0000_0000_0000,
                    t == 0x400 * 0x1_0000_0000_0000_0000,
            ;
        }
        assert(q < pow2(53 + 74));
        lemma_excess_bound(q as nat, 74);
    }
    let mut kept: u128 = q;
    let mut unit: u128 = 1;
    let mut k: u32 = 0;
    assert(q as nat / 1 == q);
    while kept >= 0x20_0000_0000_0000 || k + e < 74
        invariant
            pow2(53) == 0x20_0000_0000_0000,
            pow2(74) == 0x400 * 0x1_0000_0000_0000_0000,
            e <= 2045,
            excess(q as nat) <= 74,
            k <= 74,
            unit == pow2(k as nat),
            unit > 0,
            kept == q as nat / pow2(k as nat),
            k <= excess(q as nat) ==> excess(q as nat) == k + excess(kept as nat),
            k > excess(q as nat) ==> kept < 0x20_0000_0000_0000,
            k > 0 ==> k <= excess(q as nat) || k + e <= 74,
        decreases 74 - k,
    {
        proof {
            lemma_pow2_unfold((k + 1) as nat);
            lemma_div_denominator(q as int, unit as int, 2);
            if kept >= 0x20_0000_0000_0000 {
                assert(excess(kept as nat) == 1 + excess((kept / 2) as nat));
            }
            assert(k < 74);
            if k + 1 < 74 {
                lemma_pow2_strictly_increases((k + 1) as nat, 74);
            }
        }
        kept = kept / 2;
        unit = unit * 2;
        k = k + 1;
    }
    let lost = q % unit;
    let ghost w = pow2(k as nat) as int;
    proof {
        lemma_fundamental_div_mod(q as int, w);
        if k < 74 {
            lemma_pow2_strictly_increases(k as nat, 74);
        }
    }
    let up = 2 * lost > unit || (2 * lost == unit && (rest > 0 || kept % 2 == 1));
    let digits = if up {
        kept + 1
    } else {
        kept
    };
    let scale: u32 = k + e - 74;
    proof {
        lemma_divided(m.size(), d as nat, e as nat, n as nat, q as nat, rest as nat, k as nat);
    }
    Magnitude { digits: digits as u64, scale }
}

/// What long division on a scale of two to the power 74 says of the quotient.
proof fn lemma_divided(p: nat, d: nat, e: nat, n: nat, q: nat, rest: nat, k: nat)
    requires
        p == d * pow2(e),
        n > 0,
        d * pow2(74) == n * q + rest,
        rest < n,
        k + e >= 74,
        k > 0,
        k >= excess(q),
        k == excess(q) || k + e == 74,
    ensures
        ({
            let kept = q / pow2(k);
            let lost = q % pow2(k);
            let up = 2 * lost > pow2(k) || (2 * lost == pow2(k) && (rest > 0 || kept % 2 == 1));
            let u = pow2((k + e - 74) as nat);
            quotient(p, n) == (if up {
                (kept + 1) * u
            } else {
                kept * u
            })
        }),
{
    let x = (k + e - 74) as nat;
    let u = pow2(x);
    let t = pow2(74);
    let g = pow2(e);
    let h = pow2(k);
    lemma_pow2_pos(x);
    lemma_pow2_pos(74);
    lemma_pow2_pos(e);
    lemma_pow2_pos(k);
    lemma_pow2_adds(x, 74);
    lemma_pow2_adds(k, e);
    assert(u * t == h * g);
    let kept = q / h;
    let lost = q % h;
    lemma_fundamental_div_mod(q as int, h as int);
    let l = (lost * n + rest) * g;
    let w = n * u;
    // The unit is the one that the quotient has.
    lemma_excess_bounds(q);
    let f = p / n;
    lemma_fundamental_div_mod(p as int, n as int);
    assert(p * t == (n * q + rest) * g) by (nonlinear_arith)
        requires
            p == d * g,
            d * t == n * q + rest,
    ;
    assert(q + 1 <= pow2(53 + k)) by {
        if excess(q) < k {
            lemma_pow2_strictly_increases(53 + excess(q), 53 + k);
        }
    }
    lemma_pow2_adds(53 + x, 74);
    lemma_pow2_adds(53 + k, e);
    let top = pow2(53 + x);
    let qtop = pow2(53 + k);
    assert(top * t == qtop * g);
    assert(p < n * top) by (nonlinear_arith)
        requires
            p * t == (n * q + rest) * g,
            rest < n,
            q + 1 <= qtop,
            top * t == qtop * g,
            t > 0,
            g > 0,
            n > 0,
    ;
    assert(f < top) by (nonlinear_arith)
        requires
            p < n * top,
            p == n * f + p % n,
            p % n >= 0,
            n > 0,
    ;
    if x > 0 {
        lemma_pow2_adds(52 + x, 74);
        lemma_pow2_adds(52 + k, e);
        let bottom = pow2(52 + x);
        let qbottom = pow2(52 + k);
        assert(bottom * t == qbottom * g);
        assert(p >= n * bottom) by (nonlinear_arith)
            requires
                p * t == (n * q + rest) * g,
                rest >= 0,
                q >= qbottom,
                bottom * t == qbottom * g,
                t > 0,
                g > 0,
                n > 0,
        ;
        assert(f >= bottom) by (nonlinear_arith)
            requires
                p >= n * bottom,
                p == n * f + p % n,
                p % n < n,
                n > 0,
        ;
    }
    lemma_excess_is(f, x);
    // The quotient and what is left of it.
    assert(w * t == n * (h * g)) by (nonlinear_arith)
        requires
            w == n * u,
            u * t == h * g,
    ;
    assert(p * t == kept * (w * t) + l) by (nonlinear_arith)
        requires
            p * t == (n * q + rest) * g,
            q == h * kept + lost,
            w * t == n * (h * g),
            l == (lost * n + rest) * g,
    ;
    assert(lost * n + rest < h * n) by (nonlinear_arith)
        requires
            lost < h,
            rest < n,
    ;
    assert(l < w * t) by (nonlinear_arith)
        requires
            l == (lost * n + rest) * g,
            lost * n + rest < h * n,
            w * t == n * (h * g),
            g > 0,
    ;
    assert(w > 0) by (nonlinear_arith)
        requires
            w == n * u,
            n > 0,
            u > 0,
    ;
    lemma_on_scale(p, w, t, kept, l);
    let left = p % w;
    lemma_pow2_unfold(k);
    let half = pow2((k - 1) as nat);
    assert(h == 2 * half);
    // Which side of the middle it lies on.
    let inner = 2 * (lost * n + rest);
    let whole = h * n;
    assert(2 * left * t == inner * g && w * t == whole * g) by (nonlinear_arith)
        requires
            left * t == l,
            l == (lost * n + rest) * g,
            inner == 2 * (lost * n + rest),
            w * t == n * (h * g),
            whole == h * n,
    ;
    assert((2 * left > w) == (inner > whole)) by (nonlinear_arith)
        requires
            2 * left * t == inner * g,
            w * t == whole * g,
            t > 0,
            g > 0,
    ;
    assert((2 * left == w) == (inner == whole)) by (nonlinear_arith)
        requires
            2 * left * t == inner * g,
            w * t == whole * g,
            t > 0,
            g > 0,
    ;
    if lost > half {
        assert(inner > whole) by (nonlinear_arith)
            requires
                inner == 2 * (lost * n + rest),
                whole == h * n,
                h == 2 * half,
                lost >= half + 1,
                n > 0,
                rest >= 0,
        ;
    } else if lost == half {
        assert(inner == whole + 2 * rest) by (nonlinear_arith)
            requires
                inner == 2 * (lost * n + rest),
                whole == h * n,
                h == 2 * half,
                lost == half,
        ;
    } else {
        assert(inner < whole) by (nonlinear_arith)
            requires
                inner == 2 * (lost * n + rest),
                whole == h * n,
                h == 2 * half,
                lost + 1 <= half,
                rest < n,
        ;
    }
}

/// A full magnitude as binary32 keeps it.
fn singled(m: Magnitude) -> (r: Magnitude)
    requires
        m.is_full(),
        m.scale <= 2300,
    ensures
        r.size() == single(m.size()),
        r.is_full(),
{
    let y = m.scale;
    let ghost d = m.digits as nat;
    let ghost q = m.size();
    proof {
        lemma_powers();
        lemma_pow2_pos(y as nat);
        lemma_pow2_adds(52, y as nat);
        lemma_pow2_adds(53, y as nat);
        let w = pow2(y as nat) as int;
        assert(d * w < 0x20_0000_0000_0000 * w) by (nonlinear_arith)
            requires
                d < 0x20_0000_0000_0000,
                w > 0,
        ;
        if y > 0 {
            assert(d * w >= 0x10_0000_0000_0000 * w) by (nonlinear_arith)
                requires
                    d >= 0x10_0000_0000_0000,
                    w > 0,
            ;
        }
        lemma_excess_is(q, y as nat);
    }
    let u: u32 = if y + 29 > 925 {
        y + 29
    } else {
        925
    };
    assert(u == larger(925, excess(q) + 29));
    let shift: u32 = u - y;
    let ghost unit = pow2(u as nat) as int;
    let ghost w = pow2(y as nat) as int;
    let ghost h = pow2(shift as nat) as int;
    proof {
        lemma_pow2_adds(shift as nat, y as nat);
        lemma_pow2_pos(shift as nat);
        lemma_pow2_pos(u as nat);
        assert(1 * unit == unit);
    }
    if shift > 60 {
        proof {
            lemma_pow2_strictly_increases(60, shift as nat);
            assert(2 * (d * w) < h * w) by (nonlinear_arith)
                requires
                    d < 0x20_0000_0000_0000,
                    h > 0x1000_0000_0000_0000,
                    w > 0,
            ;
            lemma_fundamental_div_mod_converse(q as int, unit, 0, q as int);
            assert(0 * unit == 0);
            assert(0 * pow2(0) == 0);
        }
        return Magnitude { digits: 0, scale: 0 };
    }
    let mut half_unit: u64 = 1;
    let mut i: u32 = 1;
    proof {
        assert(pow2(0) == 1);
    }
    while i < shift
        invariant
            1 <= i <= shift <= 60,
            half_unit == pow2((i - 1) as nat),
            pow2(60) == 0x1000_0000_0000_0000,
        decreases shift - i,
    {
        proof {
            lemma_pow2_unfold(i as nat);
            if i < 60 {
                lemma_pow2_strictly_increases(i as nat, 60);
            }
        }
        half_unit = half_unit * 2;
        i += 1;
    }
    proof {
        lemma_pow2_unfold(shift as nat);
        if shift < 60 {
            lemma_pow2_strictly_increases(shift as nat, 60);
        }
    }
    let full_unit: u64 = half_unit * 2;
    let kept: u64 = m.digits / full_unit;
    let lost: u64 = m.digits % full_unit;
    let up = lost > half_unit || (lost == half_unit && kept % 2 == 1);
    let ghost c = kept as int;
    let ghost l = lost as int;
    proof {
        lemma_fundamental_div_mod(d as int, h);
        assert(d * w == c * (h * w) + l * w) by (nonlinear_arith)
            requires
                d == h * c + l,
        ;
        assert(l * w < h * w) by (nonlinear_arith)
            requires
                l < h,
                w > 0,
        ;
        assert(0 <= l * w) by (nonlinear_arith)
            requires
                l >= 0,
                w > 0,
        ;
        lemma_fundamental_div_mod_converse(q as int, unit, c, l * w);
        let b = half_unit as int;
        assert(h * w == 2 * (b * w)) by (nonlinear_arith)
            requires
                h == 2 * b,
        ;
        assert((l * w > b * w) == (l > b) && (l * w == b * w) == (l == b)) by (nonlinear_arith)
            requires
                w > 0,
        ;
    }
    let digits: u64 = if up {
        kept + 1
    } else {
        kept
    };
    proof {
        assert(c <= d) by (nonlinear_arith)
            requires
                d == h * c + l,
                h >= 1,
                l >= 0,
                c >= 0,
        ;
        small_integers_are_exact(digits as nat);
        lemma_scaled(digits as nat, u as nat);
        lemma_pow2_strictly_increases(53, 120);
    }
    normal(digits as u128, u)
}

/// The bits of a number of this sign and full magnitude.
fn bits_with(negative: bool, m: Magnitude) -> (r: u64)
    requires
        m.is_full(),
        m.scale <= 2045,
    ensures
        is_finite(r),
        (r >= SIGN_BIT) == negative,
        steps(magnitude(r)) == m.size(),
{
    let rest: u64 = if m.digits < EXPONENT_UNIT {
        proof {
            lemma_powers();
            assert(m.digits as nat * 1 == m.digits);
        }
        m.digits
    } else {
        let exponent: u64 = m.scale as u64 + 1;
        proof {
            let fraction = m.digits - EXPONENT_UNIT;
            lemma_fundamental_div_mod_converse(
                exponent * EXPONENT_UNIT + fraction,
                EXPONENT_UNIT as int,
                exponent as int,
                fraction,
            );
        }
        exponent * EXPONENT_UNIT + (m.digits - EXPONENT_UNIT)
    };
    assert(steps(rest as int) == m.size());
    if negative {
        SIGN_BIT + rest
    } else {
        rest
    }
}

/// A count as binary64 keeps it.
fn rounded_count(n: u64) -> (r: u128)
    requires
        n > 0,
    ensures
        r == rounded53(n as nat),
        0 < r <= 0x1_0000_0000_0000_0000,
{
    proof {
        lemma_powers();
        lemma2_to64();
        lemma2_to64_rest();
        lemma_pow2_strictly_increases(64, 120);
        lemma_excess_bound(n as nat, 11);
        assert(n as nat / 1 == n);
    }
    let parts = round_parts(n as u128);
    let mut r: u128 = parts.digits as u128;
    let mut i: u32 = 0;
    proof {
        assert(parts.digits as int * 1 == parts.digits);
        assert(n % 1 == 0);
    }
    while i < parts.scale
        invariant
            i <= parts.scale <= 11,
            r == parts.digits as int * pow2(i as nat),
            0 < parts.digits <= 0x20_0000_0000_0000,
            0 < r <= 0x1_0000_0000_0000_0000,
            pow2(11) == 0x800,
        decreases parts.scale - i,
    {
        proof {
            lemma_pow2_unfold((i + 1) as nat);
            lemma_pow2_pos(i as nat);
            if i + 1 < 11 {
                lemma_pow2_strictly_increases((i + 1) as nat, 11);
            }
            let a = parts.digits as int;
            let b = pow2(i as nat) as int;
            assert(a * (2 * b) == 2 * (a * b)) by (nonlinear_arith);
            assert(a * (2 * b) <= 0x20_0000_0000_0000 * 0x800) by (nonlinear_arith)
                requires
                    0 <= a <= 0x20_0000_0000_0000,
                    0 <= 2 * b <= 0x800,
            ;
        }
        r = r * 2;
        i += 1;
    }
    r
}

/// The bits of the mean of numbers with these bits, of which there are some.
pub fn mean(all: &Vec<u64>) -> (r: u64)
    requires
        all@.len() > 0,
    ensures
        is_mean_of(all@, r),
{
    proof {
        lemma_powers();
        assert(0 * pow2(0) == 0);
    }
    let mut sum = Sum::Finite { negative: false, magnitude: Magnitude { digits: 0, scale: 0 } };
    let mut i: usize = 0;
    assert(all@.take(0) =~= Seq::empty());
    while i < all.len()
        invariant
            i <= all@.len(),
            sum.is_sound(),
            sum.amount() == added_up(all@.take(i as int)),
        decreases all@.len() - i,
    {
        assert(all@.take(i + 1).drop_last() =~= all@.take(i as int));
        sum = sum.add(Sum::read(all[i]));
        i += 1;
    }
    assert(all@.take(all@.len() as int) =~= all@);
    match sum {
        Sum::NoNumber => INFINITY_BITS + 1,
        Sum::Infinite { negative } => if negative {
            SIGN_BIT + INFINITY_BITS
        } else {
            INFINITY_BITS
        },
        Sum::Finite { negative, magnitude: total } => {
            let ghost t = signed(negative, total.size());
            let below = negative && total.digits > 0;
            proof {
                lemma_pow2_pos(total.scale as nat);
                let d = total.digits as int;
                let w = pow2(total.scale as nat) as int;
                assert((d > 0) == (d * w > 0)) by (nonlinear_arith)
                    requires
                        d >= 0,
                        w > 0,
                ;
                lemma2_to64();
                lemma2_to64_rest();
                lemma_pow2_strictly_increases(64, 120);
            }
            let n = rounded_count(all.len() as u64);
            let q = divided(total, n);
            proof {
                lemma_pow2_strictly_increases(54, 120);
                lemma_powers();
                lemma_pow2_unfold(54);
                small_integers_are_exact(q.digits as nat);
                lemma_scaled(q.digits as nat, q.scale as nat);
            }
            let q = normal(q.digits as u128, q.scale);
            let v = singled(q);
            proof {
                lemma_beyond(v, 1150);
            }
            if v.scale >= 1150 {
                if below {
                    SIGN_BIT + INFINITY_BITS
                } else {
                    INFINITY_BITS
                }
            } else {
                bits_with(below, v)
            }
        },
    }
}

// ---------------------------------------------------------------- laws

/// Rounding to multiples of a unit does not pass a multiple of it, and errs by half a
/// unit at most.
proof fn lemma_to_multiple(p: nat, d: nat, unit: nat, c: nat)
    requires
        d > 0,
        unit > 0,
        p <= d * (c * unit),
    ensures
        to_multiple(p, d, unit) <= c * unit,
        -(d * unit) <= 2 * (to_multiple(p, d, unit) * d - p) <= d * unit,
{
    let w = d * unit;
    assert(w > 0) by (nonlinear_arith)
        requires
            w == d * unit,
            d > 0,
            unit > 0,
    ;
    let kept = p / w;
    let lost = p % w;
    lemma_fundamental_div_mod(p as int, w as int);
    assert(p <= c * w) by (nonlinear_arith)
        requires
            p <= d * (c * unit),
            w == d * unit,
    ;
    if lost == 0 {
        assert(kept <= c) by (nonlinear_arith)
            requires
                p == w * kept + lost,
                lost == 0,
                p <= c * w,
                w > 0,
        ;
    } else {
        assert(kept + 1 <= c) by (nonlinear_arith)
            requires
                p == w * kept + lost,
                lost > 0,
                p <= c * w,
                w > 0,
        ;
    }
    assert(kept <= c ==> kept * unit <= c * unit) by (nonlinear_arith)
        requires
            unit > 0,
    ;
    assert(kept + 1 <= c ==> (kept + 1) * unit <= c * unit) by (nonlinear_arith)
        requires
            unit > 0,
    ;
    assert(kept * unit * d == w * kept) by (nonlinear_arith)
        requires
            w == d * unit,
    ;
    assert((kept + 1) * unit * d == w * kept + w) by (nonlinear_arith)
        requires
            w == d * unit,
    ;
}

/// A number that is not beyond `c` times two to the power `x` is not rounded beyond it
/// either, where the digits of both leave room for that; and by how much it is rounded.
proof fn lemma_rounded_up_to(p: nat, c: nat, x: nat, k: nat)
    requires
        p <= c * pow2(x),
        p < pow2(53 + k),
        k <= x,
    ensures
        rounded53(p) <= c * pow2(x),
        -pow2(k) <= 2 * (rounded53(p) - p) <= pow2(k),
{
    let e = excess(p);
    lemma_excess_bound(p, k);
    let unit = pow2(e);
    lemma_pow2_pos(e);
    lemma_pow2_adds((x - e) as nat, e);
    let f = c * pow2((x - e) as nat);
    assert(f * unit == c * pow2(x)) by (nonlinear_arith)
        requires
            f == c * pow2((x - e) as nat),
            pow2((x - e) as nat) * unit == pow2(x),
    ;
    assert(1 * (f * unit) == f * unit);
    lemma_to_multiple(p, 1, unit, f);
    assert(1 * unit == unit);
    assert(to_multiple(p, 1, unit) == rounded53(p));
    assert(rounded53(p) * 1 == rounded53(p));
    if e < k {
        lemma_pow2_strictly_increases(e, k);
    }
}

/// The sum of scores is no more than their number, and by how much it is rounded where
/// there are not too many.
proof fn lemma_added_up(s: Seq<u64>)
    requires
        are_fractions(s),
        s.len() <= pow2(53),
    ensures
        added_up(s) matches Amount::Finite(t) && 0 <= t <= s.len() * pow2(1074) && (s.len() <= 0x10_0000 ==> -(s.len()
            * pow2(1041)) <= t - sum_of_steps(s) <= s.len() * pow2(1041)),
    decreases s.len(),
{
    lemma_powers();
    if s.len() > 0 {
        let rest = s.drop_last();
        assert forall|i: int| 0 <= i < rest.len() implies is_fraction(#[trigger] rest[i]) by {
            assert(rest[i] == s[i]);
        }
        lemma_added_up(rest);
        let x = signed_steps(s.last());
        assert(is_fraction(s[s.len() - 1]));
        let t = added_up(rest)->Finite_0;
        let n = s.len();
        let one = pow2(1074);
        assert(n * one == rest.len() * one + one) by (nonlinear_arith)
            requires
                n == rest.len() + 1,
        ;
        let p = (t + x) as nat;
        lemma_pow2_adds(53, 1074);
        assert(n * one <= pow2(53) * one) by (nonlinear_arith)
            requires
                n <= pow2(53),
                one >= 0,
        ;
        if p < pow2(1127) {
            lemma_rounded_up_to(p, n, 1074, 1074);
        } else {
            small_integers_are_exact(pow2(53));
            lemma_scaled(pow2(53), 1074);
        }
        lemma_pow2_strictly_increases(1127, 2098);
        if n <= 0x10_0000 {
            lemma2_to64();
            lemma_pow2_adds(20, 1074);
            lemma_pow2_strictly_increases(1094, 1095);
            assert(n * one <= pow2(20) * one) by (nonlinear_arith)
                requires
                    n <= pow2(20),
                    one >= 0,
            ;
            lemma_rounded_up_to(p, n, 1074, 1042);
            lemma_pow2_unfold(1042);
            let err = pow2(1041);
            assert(n * err == rest.len() * err + err) by (nonlinear_arith)
                requires
                    n == rest.len() + 1,
            ;
        }
    } else {
        assert(0 * pow2(1074) == 0 && 0 * pow2(1041) == 0);
    }
}

/// What the mean of scores is bounded by, and by how much it is rounded.
proof fn lemma_mean(s: Seq<u64>)
    requires
        are_fractions(s),
        0 < s.len() <= pow2(53),
    ensures
        added_up(s) matches Amount::Finite(t) && t >= 0 && mean_size(t, s.len()) <= pow2(1074) && (s.len() <= 0x10_0000
            ==> -(s.len() * pow2(1053)) <= s.len() * mean_size(t, s.len()) - sum_of_steps(s) <= s.len() * pow2(1053)),
{
    lemma_powers();
    lemma_added_up(s);
    let t = added_up(s)->Finite_0 as nat;
    let n = s.len();
    small_integers_are_exact(n);
    let one = pow2(1074);
    let f = t / n;
    lemma_fundamental_div_mod(t as int, n as int);
    assert(f <= one) by (nonlinear_arith)
        requires
            t == n * f + t % n,
            t % n >= 0,
            t <= n * one,
            n > 0,
    ;
    lemma_pow2_strictly_increases(1074, 1075);
    lemma_excess_bound(f, 1022);
    let u = excess(f);
    lemma_pow2_pos(u);
    lemma_pow2_adds((1074 - u) as nat, u);
    lemma_to_multiple(t, n, pow2(u), pow2((1074 - u) as nat));
    let q = quotient(t, n);
    lemma_excess_bound(q, 1022);
    let y = larger(925, excess(q) + 29);
    lemma_pow2_pos(y);
    lemma_pow2_adds((1074 - y) as nat, y);
    assert(1 * one == one);
    lemma_to_multiple(q, 1, pow2(y), pow2((1074 - y) as nat));
    let v = single(q);
    assert(v * 1 == v && 1 * pow2(y) == pow2(y));
    if n <= 0x10_0000 {
        lemma_pow2_strictly_increases(u, 1051);
        if y < 1051 {
            lemma_pow2_strictly_increases(y, 1051);
        }
        lemma_pow2_strictly_increases(1041, 1051);
        lemma_pow2_adds(2, 1051);
        let b = pow2(1051) as int;
        let sum = sum_of_steps(s);
        let a = pow2(u) as int;
        let e = pow2(1041) as int;
        assert(pow2(1053) == 4 * b) by {
            lemma2_to64();
        }
        assert(-(n * (4 * b)) <= n * v - sum <= n * (4 * b)) by (nonlinear_arith)
            requires
                n > 0,
                -b <= 2 * (v - q) <= b,
                -(n * a) <= 2 * (q * n - t) <= n * a,
                a <= b,
                -(n * e) <= t - sum <= n * e,
                e <= b,
        ;
    }
}

/// The mean of scores from 0 to 1 is one, as long as there are no more of them than
/// binary64 counts.
pub proof fn a_mean_of_scores_is_a_score(s: Seq<u64>, bits: u64)
    requires
        are_fractions(s),
        0 < s.len() <= pow2(53),
        is_mean_of(s, bits),
    ensures
        is_fraction(bits),
{
    lemma_mean(s);
    lemma_pow2_strictly_increases(1074, 1202);
}

/// What is worked out is the mean, up to two to the power -21, of up to a million scores
/// from 0 to 1.
pub proof fn a_mean_is_near_the_mean(s: Seq<u64>, bits: u64)
    requires
        are_fractions(s),
        0 < s.len() <= 0x10_0000,
        is_mean_of(s, bits),
    ensures
        is_mean(s, bits, 21),
{
    lemma_powers();
    lemma_mean(s);
    lemma_pow2_strictly_increases(1074, 1202);
}

} // verus!
