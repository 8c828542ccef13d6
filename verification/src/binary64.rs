//! Numbers in binary64, known by their bits.

use vstd::arithmetic::div_mod::lemma_fundamental_div_mod_converse;
use vstd::arithmetic::logarithm::{lemma_log0, lemma_log_s, log};
use vstd::arithmetic::power2::{lemma_pow2_adds, lemma_pow2_pos, lemma_pow2_strictly_increases, lemma_pow2_unfold, lemma2_to64, lemma2_to64_rest, pow2};
use vstd::prelude::*;

verus! {

/// The bits of 1.
pub const ONE_BITS: u64 = 0x3FF0_0000_0000_0000;

/// The bit that makes a number negative; alone, the bits of minus zero.
pub const SIGN_BIT: u64 = 0x8000_0000_0000_0000;

/// The bits of infinity. All that lies above, but for the sign, is no number.
pub const INFINITY_BITS: u64 = 0x7FF0_0000_0000_0000;

/// Two to the power 52: the weight of the exponent's lowest bit.
pub const EXPONENT_UNIT: u64 = 0x10_0000_0000_0000;

/// The bits without the sign.
pub open spec fn magnitude(bits: u64) -> int {
    if bits >= SIGN_BIT {
        bits - SIGN_BIT
    } else {
        bits as int
    }
}

/// Whether these are the bits of something that is no number.
pub open spec fn is_nan(bits: u64) -> bool {
    magnitude(bits) > INFINITY_BITS
}

/// Whether these are the bits of a number that is not infinite.
pub open spec fn is_finite(bits: u64) -> bool {
    magnitude(bits) < INFINITY_BITS
}

/// How often the smallest positive number goes into the one with these bits, which
/// is finite and not negative: the number times two to the power 1074.
pub open spec fn steps(bits: int) -> int {
    let exponent = bits / EXPONENT_UNIT as int;
    let fraction = bits % EXPONENT_UNIT as int;
    if exponent == 0 {
        fraction
    } else {
        (fraction + EXPONENT_UNIT) * pow2((exponent - 1) as nat)
    }
}

/// The number with these bits, which is finite, times two to the power 1074.
pub open spec fn signed_steps(bits: u64) -> int {
    if bits >= SIGN_BIT {
        -steps(magnitude(bits))
    } else {
        steps(magnitude(bits))
    }
}

/// Whether these are the bits of a number from 0 to 1.
pub open spec fn is_fraction(bits: u64) -> bool {
    is_finite(bits) && 0 <= signed_steps(bits) <= pow2(1074)
}

/// The sum of the numbers with these bits, which are finite, times two to the power 1074.
pub open spec fn sum_of_steps(s: Seq<u64>) -> int
    decreases s.len(),
{
    if s.len() == 0 {
        0
    } else {
        sum_of_steps(s.drop_last()) + signed_steps(s.last())
    }
}

/// Whether the number with these bits is the mean of numbers, of which there are some,
/// up to two to the power of minus `digits`.
pub open spec fn is_mean(s: Seq<u64>, bits: u64, digits: nat) -> bool {
    let slack = s.len() * pow2((1074 - digits) as nat);
    is_finite(bits) && -slack <= s.len() * signed_steps(bits) - sum_of_steps(s) <= slack
}

/// Whether all of these are the bits of numbers from 0 to 1.
pub open spec fn are_fractions(s: Seq<u64>) -> bool {
    forall|i: int| 0 <= i < s.len() ==> is_fraction(#[trigger] s[i])
}

proof fn sum_of_fractions(s: Seq<u64>)
    requires
        are_fractions(s),
    ensures
        0 <= sum_of_steps(s) <= s.len() * pow2(1074),
    decreases s.len(),
{
    if s.len() > 0 {
        let rest = s.drop_last();
        assert forall|i: int| 0 <= i < rest.len() implies is_fraction(#[trigger] rest[i]) by {
            assert(rest[i] == s[i]);
        }
        sum_of_fractions(rest);
        assert(is_fraction(s[s.len() - 1]));
        assert((rest.len() + 1) * pow2(1074) == rest.len() * pow2(1074) + pow2(1074)) by (nonlinear_arith);
    }
}

/// The mean of numbers from 0 to 1 lies there too, as nearly as it is the mean.
pub proof fn a_mean_of_fractions_is_one(s: Seq<u64>, bits: u64, digits: nat)
    requires
        s.len() > 0,
        are_fractions(s),
        is_mean(s, bits, digits),
    ensures
        -pow2((1074 - digits) as nat) <= signed_steps(bits) <= pow2(1074) + pow2((1074 - digits) as nat),
{
    sum_of_fractions(s);
    let n = s.len() as int;
    let x = signed_steps(bits);
    let t = pow2((1074 - digits) as nat) as int;
    let one = pow2(1074) as int;
    assert(-t <= x <= one + t) by (nonlinear_arith)
        requires
            n > 0,
            -(n * t) <= n * x,
            n * x <= n * one + n * t,
    ;
}

/// Two means of the same numbers are as near to each other as they are to the mean.
pub proof fn means_agree(s: Seq<u64>, a: u64, b: u64, digits: nat, places: nat)
    requires
        s.len() > 0,
        is_mean(s, a, digits),
        is_mean(s, b, places),
    ensures
        ({
            let slack = pow2((1074 - digits) as nat) + pow2((1074 - places) as nat);
            -slack <= signed_steps(a) - signed_steps(b) <= slack
        }),
{
    let n = s.len() as int;
    let x = signed_steps(a);
    let y = signed_steps(b);
    let sum = sum_of_steps(s);
    let t = pow2((1074 - digits) as nat) as int;
    let u = pow2((1074 - places) as nat) as int;
    assert(-(t + u) <= x - y <= t + u) by (nonlinear_arith)
        requires
            n > 0,
            -(n * t) <= n * x - sum <= n * t,
            -(n * u) <= n * y - sum <= n * u,
    ;
}

/// How many low binary digits of `p` do not fit in a significand of 53.
pub open spec fn excess(p: nat) -> nat
    decreases p,
{
    if p < pow2(53) {
        0
    } else {
        proof {
            lemma_pow2_pos(53);
        }
        1 + excess(p / 2)
    }
}

/// `p` rounded to 53 binary digits, to the even neighbour where it lies half way.
pub open spec fn rounded53(p: nat) -> nat {
    let unit = pow2(excess(p));
    let kept = p / unit;
    let lost = p % unit;
    if 2 * lost > unit || (2 * lost == unit && kept % 2 == 1) {
        (kept + 1) * unit
    } else {
        kept * unit
    }
}

/// The bits of the whole number `n`, which has 53 binary digits before its zeros.
pub open spec fn bits_of_whole(n: nat) -> nat {
    if n == 0 {
        0
    } else {
        let e = log(2, n as int) as nat;
        (1023 + e) * pow2(52) + ((n - pow2(e)) * pow2(52) / pow2(e) as int) as nat
    }
}

/// The bits of the number nearest to the integer `n`, the even one where it lies half
/// way between two.
pub open spec fn bits_of_integer(n: int) -> u64 {
    if n >= 0 {
        bits_of_whole(rounded53(n as nat)) as u64
    } else {
        (SIGN_BIT + bits_of_whole(rounded53((-n) as nat))) as u64
    }
}

/// An integer of a magnitude up to two to the power 53 is kept as it is.
pub proof fn small_integers_are_exact(n: nat)
    requires
        n <= pow2(53),
    ensures
        rounded53(n) == n,
{
    lemma2_to64();
    lemma2_to64_rest();
    if n < pow2(53) {
        assert(excess(n) == 0);
        assert(n / 1 == n && n % 1 == 0);
    } else {
        assert(excess(n / 2) == 0);
        assert(excess(n) == 1);
        assert(n % 2 == 0 && (n / 2) * 2 == n);
    }
}

pub proof fn lemma_excess_bound(p: nat, n: nat)
    requires
        p < pow2(53 + n),
    ensures
        excess(p) <= n,
    decreases n,
{
    if p >= pow2(53) {
        if n == 0 {
            assert(false);
        }
        lemma_pow2_unfold(53 + n);
        lemma_excess_bound(p / 2, (n - 1) as nat);
    }
}

proof fn lemma_steps_grow(bits: int)
    requires
        0 <= bits < INFINITY_BITS,
    ensures
        steps(bits) >= 0,
        steps(bits) == 0 <==> bits == 0,
        steps(bits) <= pow2(1074) <==> bits <= ONE_BITS,
{
    let exponent = bits / EXPONENT_UNIT as int;
    let fraction = bits % EXPONENT_UNIT as int;
    lemma2_to64();
    lemma2_to64_rest();
    assert(pow2(52) == EXPONENT_UNIT);
    assert(pow2(53) == 2 * EXPONENT_UNIT);
    lemma_pow2_adds(52, 1022);
    lemma_pow2_adds(53, 1021);
    if exponent == 0 {
        lemma_pow2_strictly_increases(52, 1074);
    } else {
        let p = pow2((exponent - 1) as nat) as int;
        lemma_pow2_pos((exponent - 1) as nat);
        assert((fraction + EXPONENT_UNIT) * p > 0) by (nonlinear_arith)
            requires
                fraction >= 0,
                p > 0,
        ;
        if exponent < 1023 {
            if exponent - 1 < 1021 {
                lemma_pow2_strictly_increases((exponent - 1) as nat, 1021);
            }
            assert((fraction + EXPONENT_UNIT) * p <= 2 * EXPONENT_UNIT * pow2(1021)) by (nonlinear_arith)
                requires
                    0 <= fraction < EXPONENT_UNIT,
                    0 < p <= pow2(1021),
            ;
        } else if exponent == 1023 {
            lemma_pow2_pos(1022);
            assert((fraction + EXPONENT_UNIT) * p <= EXPONENT_UNIT * p <==> fraction <= 0) by (nonlinear_arith)
                requires
                    fraction >= 0,
                    p > 0,
            ;
        } else {
            lemma_pow2_strictly_increases(1022, (exponent - 1) as nat);
            assert((fraction + EXPONENT_UNIT) * p > EXPONENT_UNIT * pow2(1022)) by (nonlinear_arith)
                requires
                    fraction >= 0,
                    p > pow2(1022),
            ;
        }
    }
}

/// Whether these are the bits of a number that is not infinite.
pub fn finite(bits: u64) -> (r: bool)
    ensures
        r == is_finite(bits),
{
    if bits >= SIGN_BIT {
        bits - SIGN_BIT < INFINITY_BITS
    } else {
        bits < INFINITY_BITS
    }
}

/// Whether these are the bits of a number from 0 to 1. Minus zero is one.
pub fn fraction(bits: u64) -> (r: bool)
    ensures
        r == is_fraction(bits),
{
    proof {
        if is_finite(bits) {
            lemma_steps_grow(magnitude(bits));
        }
        lemma_pow2_pos(1074);
    }
    bits <= ONE_BITS || bits == SIGN_BIT
}

proof fn lemma_log_bounds(n: nat)
    requires
        n > 0,
    ensures
        log(2, n as int) >= 0,
        pow2(log(2, n as int) as nat) <= n < pow2(log(2, n as int) as nat + 1),
    decreases n,
{
    lemma2_to64();
    if n == 1 {
        lemma_log0(2, 1);
    } else {
        lemma_log_s(2, n as int);
        lemma_log_bounds(n / 2);
        let e = log(2, (n / 2) as int) as nat;
        lemma_pow2_unfold(e + 1);
        lemma_pow2_unfold(e + 2);
    }
}

/// The bits of a whole number stand for that number.
pub proof fn whole_numbers_have_their_value(n: nat)
    requires
        n <= pow2(53),
    ensures
        bits_of_whole(n) < INFINITY_BITS,
        steps(bits_of_whole(n) as int) == n * pow2(1074),
{
    lemma2_to64();
    lemma2_to64_rest();
    if n > 0 {
        lemma_log_bounds(n);
        let e = log(2, n as int) as nat;
        if e > 53 {
            lemma_pow2_strictly_increases(53, e);
        }
        let two = pow2(52) as int;
        let w = pow2(e) as int;
        lemma_pow2_pos(e);
        lemma_pow2_unfold(e + 1);
        let f = (n - w) * two / w;
        if e <= 52 {
            let h = pow2((52 - e) as nat) as int;
            lemma_pow2_adds((52 - e) as nat, e);
            assert((n - w) * two == ((n - w) * h) * w) by (nonlinear_arith)
                requires
                    two == h * w,
            ;
            lemma_fundamental_div_mod_converse((n - w) * two, w, (n - w) * h, 0);
            assert((n - w) * h + two == n * h && 0 <= (n - w) * h < two) by (nonlinear_arith)
                requires
                    two == h * w,
                    w <= n < 2 * w,
                    h > 0,
            ;
            lemma_pow2_adds((52 - e) as nat, 1022 + e);
            let g = pow2((1022 + e) as nat) as int;
            assert((n * h) * g == n * (h * g)) by (nonlinear_arith);
            lemma_fundamental_div_mod_converse((1023 + e) * two + f, two, (1023 + e) as int, f);
        } else {
            assert(n - w == 0);
            assert(0 * two == 0);
            lemma_fundamental_div_mod_converse(0, w, 0, 0);
            lemma_fundamental_div_mod_converse((1023 + e) * two + f, two, (1023 + e) as int, f);
            lemma_pow2_adds(52, 1075);
            lemma_pow2_adds(53, 1074);
        }
    } else {
        assert(0 * pow2(1074) == 0);
    }
}

/// The bits of 1 are those that are called so.
pub proof fn one_is_one()
    ensures
        bits_of_whole(1) == ONE_BITS,
{
    lemma2_to64();
    lemma2_to64_rest();
    lemma_log0(2, 1);
    assert(0 * pow2(52) == 0);
    lemma_fundamental_div_mod_converse(0, 1, 0, 0);
}

/// The numbers from 0 to 1 are those whose bits are not beyond those of 1, and minus zero.
pub proof fn fractions_end_at_one(bits: u64)
    ensures
        is_fraction(bits) == (bits <= ONE_BITS || bits == SIGN_BIT),
{
    if is_finite(bits) {
        lemma_steps_grow(magnitude(bits));
    }
    lemma_pow2_pos(1074);
}

} // verus!
