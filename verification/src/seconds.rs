//! Media times in seconds, as numbers of double precision hold them: 53 binary
//! digits, to the nearest, halves to even.

use crate::ring::SEC;
use vstd::arithmetic::power2::pow2;
use vstd::prelude::*;

verus! {

/// The least whole number that takes all 53 digits.
pub const FULL: u64 = 4_503_599_627_370_496;

/// As many seconds in units of 100 ns.
pub const FULL_TIME: u128 = 45_035_996_273_704_960_000_000;

/// How far `n` is below `FULL_TIME`.
pub open spec fn below(n: int) -> int {
    if n < FULL_TIME {
        FULL_TIME - n
    } else {
        0
    }
}

/// The whole number nearest to `n / d`, the even one of two that are as near.
pub open spec fn nearest(n: int, d: int) -> int {
    let q = n / d;
    let r = n % d;
    if 2 * r > d || (2 * r == d && q % 2 == 1) {
        q + 1
    } else {
        q
    }
}

/// What the last of the 53 digits of a whole number counts.
pub open spec fn unit(n: int) -> int
    decreases n,
{
    if n < 2 * FULL {
        1
    } else {
        2 * unit(n / 2)
    }
}

/// A whole number in double precision.
pub open spec fn held(n: int) -> int {
    nearest(n, unit(n)) * unit(n)
}

/// How finely a second is divided once `n` units of 100 ns are in seconds.
pub open spec fn division(n: int) -> int
    decreases below(n),
{
    if n <= 0 || n >= FULL_TIME {
        1
    } else {
        2 * division(2 * n)
    }
}

/// The parts of a second that the time `t` is divided into, with its sign left out.
pub open spec fn parts_of_a_second(t: int) -> int {
    division(held(magnitude(t)))
}

/// How many of these parts `t` is in double precision.
pub open spec fn parts(t: int) -> int {
    let n = nearest(held(magnitude(t)) * parts_of_a_second(t), SEC as int);
    if t < 0 {
        -n
    } else {
        n
    }
}

/// A number without its sign.
pub open spec fn magnitude(t: int) -> int {
    if t < 0 {
        -t
    } else {
        t
    }
}

/// A time in whole seconds, with its sign left out: that in double precision, to
/// the nearest, halves to even.
pub open spec fn whole_seconds(t: int) -> int {
    nearest(magnitude(parts(t)), parts_of_a_second(t))
}

/// How `nearest` misses: by half of `d` at most.
proof fn lemma_nearest(n: int, d: int)
    requires
        0 <= n,
        0 < d,
    ensures
        0 <= nearest(n, d),
        n - d <= nearest(n, d) * d <= n + d,
        -d <= 2 * (nearest(n, d) * d - n) <= d,
        nearest(n, d) <= n,
        n % d == 0 ==> nearest(n, d) * d == n,
{
    let q = n / d;
    let r = n % d;
    vstd::arithmetic::div_mod::lemma_fundamental_div_mod(n, d);
    vstd::arithmetic::div_mod::lemma_mod_bound(n, d);
    vstd::arithmetic::div_mod::lemma_div_pos_is_pos(n, d);
    assert(d * q == q * d) by (nonlinear_arith);
    assert((q + 1) * d == q * d + d) by (nonlinear_arith);
    assert(q <= q * d) by (nonlinear_arith)
        requires
            0 <= q,
            0 < d,
    ;
    if nearest(n, d) == q + 1 {
        assert(r >= 1);
    }
}

/// Rounds `n / d` to the nearest whole number, halves to even.
fn round(n: u128, d: u128) -> (q: u128)
    requires
        0 < d,
        2 * d <= u128::MAX,
        n < u128::MAX,
    ensures
        q == nearest(n as int, d as int),
{
    let q: u128 = n / d;
    let r: u128 = n % d;
    proof {
        vstd::arithmetic::div_mod::lemma_mod_bound(n as int, d as int);
        vstd::arithmetic::div_mod::lemma_div_is_ordered_by_denominator(n as int, 1, d as int);
        vstd::arithmetic::div_mod::lemma_div_basics(n as int);
    }
    if 2 * r > d || (2 * r == d && q % 2 == 1) {
        q + 1
    } else {
        q
    }
}

/// Finds what the last of the 53 digits of `n` counts.
fn find_unit(n: u64) -> (u: u64)
    ensures
        u == unit(n as int),
        1 <= u,
        u == 1 || u * FULL <= n,
    decreases n,
{
    if n < 2 * FULL {
        1
    } else {
        2 * find_unit(n / 2)
    }
}

/// Finds how finely a second is divided for `n` units.
fn find_division(n: u128) -> (p: u128)
    ensures
        p == division(n as int),
        1 <= p,
        0 < n < FULL_TIME ==> FULL_TIME <= p * n < 2 * FULL_TIME,
    decreases below(n as int),
{
    if n == 0 || n >= FULL_TIME {
        return 1;
    }
    let p: u128 = find_division(2 * n);
    proof {
        if 2 * n >= FULL_TIME {
            assert(p == 1);
        }
        assert(p * (2 * n) == (2 * p) * n) by (nonlinear_arith);
        assert(2 * p <= (2 * p) * n) by (nonlinear_arith)
            requires
                0 < n,
                0 <= p,
        ;
    }
    2 * p
}

proof fn lemma_division(n: int)
    requires
        0 < n < FULL_TIME,
    ensures
        FULL_TIME <= division(n) * n < 2 * FULL_TIME,
        division(n) >= 1,
        division(n) % 2 == 0,
    decreases below(n),
{
    if 2 * n < FULL_TIME {
        lemma_division(2 * n);
    }
    let p = division(2 * n);
    assert(p * (2 * n) == (2 * p) * n) by (nonlinear_arith);
}

/// A time in seconds and in double precision: `parts` over `of`.
pub struct Seconds {
    pub parts: i128,
    pub of: u128,
}

/// Converts a media time to seconds.
pub fn in_seconds(t: i64) -> (s: Seconds)
    ensures
        s.parts == parts(t as int),
        s.of == parts_of_a_second(t as int),
        1 <= s.of <= 2 * FULL_TIME,
        magnitude(s.parts as int) <= 0x100_0000_0000 * s.of,
        magnitude(s.parts as int) <= 2 * FULL + 1,
{
    let size: u64 = if t < 0 {
        (-(t as i128)) as u64
    } else {
        t as u64
    };
    let u: u64 = find_unit(size);
    let digits: u128 = round(size as u128, u as u128);
    proof {
        lemma_nearest(size as int, u as int);
    }
    let whole: u128 = digits * u as u128;
    assert(whole == held(magnitude(t as int)));
    let of: u128 = find_division(whole);
    proof {
        if whole > 0 {
            lemma_division(whole as int);
        }
        assert(of <= 2 * FULL_TIME) by {
            if whole > 0 {
                assert(of <= of * whole) by (nonlinear_arith)
                    requires
                        0 <= of,
                        1 <= whole,
                ;
            }
        }
        assert(of * whole == whole * of) by (nonlinear_arith);
        assert(whole == 0 ==> whole * of == 0) by (nonlinear_arith);
    }
    let n: u128 = round(whole * of, SEC as u128);
    proof {
        lemma_nearest(whole * of, SEC as int);
        assert(whole * of <= 0x8000_0000_0001_0000 * of) by (nonlinear_arith)
            requires
                whole <= 0x8000_0000_0001_0000,
                0 <= of,
        ;
    }
    let parts: i128 = if t < 0 {
        -(n as i128)
    } else {
        n as i128
    };
    Seconds { parts, of }
}

/// Rounds a media time to whole seconds, with its sign left out.
pub fn round_to_seconds(t: i64) -> (n: u64)
    ensures
        n == whole_seconds(t as int),
{
    let s = in_seconds(t);
    let size: u128 = if s.parts < 0 {
        (-s.parts) as u128
    } else {
        s.parts as u128
    };
    proof {
        lemma_nearest(size as int, s.of as int);
    }
    round(size, s.of) as u64
}

// ---------------------------------------------------------------------------
// Laws
// ---------------------------------------------------------------------------

proof fn lemma_halves_of_magnitude(t: int, h: int)
    requires
        0 <= t < FULL,
    ensures
        2 * parts(t) < h * parts_of_a_second(t) <==> 2 * t < h * SEC,
        2 * parts(t) > h * parts_of_a_second(t) <==> 2 * t > h * SEC,
        parts(t) >= 0,
        parts_of_a_second(t) >= 1,
{
    lemma_nearest(t, 1);
    assert(held(t) == t);
    if t > 0 {
        lemma_division(t);
        let of = division(t);
        lemma_nearest(t * of, SEC as int);
        let n = nearest(t * of, SEC as int);
        assert(of * t == t * of) by (nonlinear_arith);
        assert(0 <= t * of);
        assert(of > SEC) by (nonlinear_arith)
            requires
                t * of >= FULL * SEC,
                0 < t < FULL,
                SEC > 0,
        ;
        let e = 2 * n - h * of;
        let d = 2 * t - h * SEC;
        assert(e * SEC == 2 * (n * SEC - t * of) + of * d) by (nonlinear_arith)
            requires
                e == 2 * n - h * of,
                d == 2 * t - h * SEC,
        ;
        if d > 0 {
            assert(of * d >= of) by (nonlinear_arith)
                requires
                    d >= 1,
                    of > 0,
            ;
        } else if d < 0 {
            assert(of * d <= -of) by (nonlinear_arith)
                requires
                    d <= -1,
                    of > 0,
            ;
        } else {
            let k = of / 2;
            assert(t * of == (h * k) * SEC) by (nonlinear_arith)
                requires
                    2 * t == h * SEC,
                    of == 2 * k,
            ;
            vstd::arithmetic::div_mod::lemma_mod_multiples_basic(h * k, SEC as int);
            assert(of * d == 0) by (nonlinear_arith)
                requires
                    d == 0,
            ;
        }
        assert(parts(t) == n);
    } else {
        lemma_nearest(0, SEC as int);
        assert(parts_of_a_second(t) == 1);
        assert(0 * parts_of_a_second(t) == 0);
        assert(parts(t) == 0);
        assert(h * parts_of_a_second(t) == h);
    }
}

/// Law: a time of less than fourteen years compares with half seconds as the time
/// itself does, so that rounding to double precision does not show.
pub proof fn law_halves(t: int, h: int)
    requires
        -FULL < t < FULL,
    ensures
        2 * parts(t) < h * parts_of_a_second(t) <==> 2 * t < h * SEC,
        2 * parts(t) > h * parts_of_a_second(t) <==> 2 * t > h * SEC,
{
    if t < 0 {
        lemma_halves_of_magnitude(-t, -h);
        let of = parts_of_a_second(t);
        assert((-h) * of == -(h * of)) by (nonlinear_arith);
    } else {
        lemma_halves_of_magnitude(t, h);
    }
}

/// Law: a time of less than fourteen years in whole seconds is the nearest whole
/// number of seconds, the even one of two that are as near.
pub proof fn law_whole_seconds(t: int)
    requires
        -FULL < t < FULL,
    ensures
        whole_seconds(t) == nearest(magnitude(t), SEC as int),
{
    let m = magnitude(t);
    let q = m / (SEC as int);
    let of = parts_of_a_second(m);
    let n = parts(m);
    lemma_halves_of_magnitude(m, 2 * q);
    lemma_halves_of_magnitude(m, 2 * q + 1);
    lemma_halves_of_magnitude(m, 2 * q + 2);
    assert((2 * q) * of == 2 * (q * of)) by (nonlinear_arith);
    assert((2 * q + 1) * of == 2 * (q * of) + of) by (nonlinear_arith);
    assert((2 * q + 2) * of == 2 * (q * of) + 2 * of) by (nonlinear_arith);
    let r = n - q * of;
    assert(n == q * of + r);
    vstd::arithmetic::div_mod::lemma_fundamental_div_mod_converse(n, of, q, r);
}

/// Law: rounding misses by half a unit at most, and gives the even number where two are
/// as near.
pub proof fn law_rounding(n: int, d: int)
    requires
        0 <= n,
        0 < d,
    ensures
        -d <= 2 * (nearest(n, d) * d - n) <= d,
        2 * (nearest(n, d) * d - n) == d ==> nearest(n, d) % 2 == 0,
        2 * (nearest(n, d) * d - n) == -d ==> nearest(n, d) % 2 == 0,
{
    lemma_nearest(n, d);
    let q = n / d;
    vstd::arithmetic::div_mod::lemma_fundamental_div_mod(n, d);
    vstd::arithmetic::div_mod::lemma_mod_bound(n, d);
    assert(d * q == q * d) by (nonlinear_arith);
    assert((q + 1) * d == q * d + d) by (nonlinear_arith);
}

/// Law: a whole number keeps its first 53 binary digits. What the last of them counts is
/// a power of two, and at least 52 more digits stand before it unless it counts one.
pub proof fn law_whole_numbers_keep_their_digits(n: int) -> (k: nat)
    requires
        0 <= n,
    ensures
        unit(n) == pow2(k),
        n < 9_007_199_254_740_992 ==> unit(n) == 1,
        n >= 9_007_199_254_740_992 ==> unit(n) * 4_503_599_627_370_496 <= n < unit(n)
            * 9_007_199_254_740_992,
        held(n) == nearest(n, unit(n)) * unit(n),
    decreases n,
{
    vstd::arithmetic::power2::lemma2_to64();
    if n < 9_007_199_254_740_992 {
        0
    } else {
        let k = law_whole_numbers_keep_their_digits(n / 2);
        vstd::arithmetic::power2::lemma_pow2_unfold(k + 1);
        k + 1
    }
}

/// Law: how many parts a second has is a power of two, and such that a time of less
/// than 2^52 seconds in these parts has 53 binary digits.
pub proof fn law_seconds_are_halved(n: int) -> (k: nat)
    ensures
        division(n) == pow2(k),
        n <= 0 || n >= 45_035_996_273_704_960_000_000 ==> division(n) == 1,
        0 < n < 45_035_996_273_704_960_000_000 ==> 4_503_599_627_370_496 * 10_000_000 <= division(n)
            * n < 9_007_199_254_740_992 * 10_000_000,
    decreases below(n),
{
    vstd::arithmetic::power2::lemma2_to64();
    if n <= 0 || n >= 45_035_996_273_704_960_000_000 {
        0
    } else {
        lemma_division(n);
        let k = law_seconds_are_halved(2 * n);
        vstd::arithmetic::power2::lemma_pow2_unfold(k + 1);
        k + 1
    }
}

/// Law: a time in parts of a second is off by half a part at most, counted from the
/// whole number that its units of 100 ns are in double precision; a time before zero is
/// its opposite's opposite.
pub proof fn law_times_in_parts(t: int)
    ensures
        t > 0 ==> parts(-t) == -parts(t) && parts_of_a_second(-t) == parts_of_a_second(t),
        t >= 0 ==> {
            let exact = held(t) * parts_of_a_second(t);
            &&& -5_000_000 <= parts(t) * 10_000_000 - exact <= 5_000_000
            &&& parts(t) * 10_000_000 - exact == 5_000_000 ==> parts(t) % 2 == 0
            &&& parts(t) * 10_000_000 - exact == -5_000_000 ==> parts(t) % 2 == 0
        },
{
    if t >= 0 {
        let k = law_whole_numbers_keep_their_digits(t);
        vstd::arithmetic::power2::lemma_pow2_pos(k);
        lemma_nearest(t, unit(t));
        let m = nearest(t, unit(t));
        assert(m * unit(t) >= 0) by (nonlinear_arith)
            requires
                m >= 0,
                unit(t) >= 0,
        ;
        let j = law_seconds_are_halved(held(t));
        vstd::arithmetic::power2::lemma_pow2_pos(j);
        let of = parts_of_a_second(t);
        assert(held(t) * of >= 0) by (nonlinear_arith)
            requires
                held(t) >= 0,
                of >= 0,
        ;
        law_rounding(held(t) * of, 10_000_000);
    }
}

/// Law: a time of less than fourteen years in whole seconds is off by half a second at
/// most, and even where it is off by as much.
pub proof fn law_whole_seconds_are_near(t: int)
    requires
        -4_503_599_627_370_496 < t < 4_503_599_627_370_496,
    ensures
        ({
            let size = if t < 0 {
                -t
            } else {
                t
            };
            let miss = whole_seconds(t) * 10_000_000 - size;
            &&& -5_000_000 <= miss <= 5_000_000
            &&& miss == 5_000_000 || miss == -5_000_000 ==> whole_seconds(t) % 2 == 0
        }),
{
    law_whole_seconds(t);
    law_rounding(magnitude(t), 10_000_000);
}

} // verus!
