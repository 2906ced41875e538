use vstd::prelude::*;

use crate::interval::{pow10, Interval};

verus! {

/// A tick spacing of `mult × 10^exp` units, where `mult` is 1, 2 or 5.
#[derive(Clone, Copy, Debug, PartialEq, Eq, Structural)]
pub struct Spacing {
    pub mult: u64,
    pub exp: i32,
}

/// Numerator of the spacing `mult × 10^exp` written as a fraction over [`spacing_den`].
pub open spec fn spacing_num(mult: int, exp: int) -> int {
    if exp >= 0 {
        mult * pow10(exp as nat)
    } else {
        mult
    }
}

/// Denominator of the spacing `mult × 10^exp` written as a fraction.
pub open spec fn spacing_den(exp: int) -> int {
    if exp >= 0 {
        1
    } else {
        pow10((-exp) as nat) as int
    }
}

/// The least integer that is at least `a / b` (`b > 0`).
pub open spec fn ceil_div(a: int, b: int) -> int {
    -((-a) / b)
}

/// The number of multiples of `n / d` that lie in `[lo, hi]`.
pub open spec fn count_multiples(lo: int, hi: int, n: int, d: int) -> int {
    (hi * d) / n - ceil_div(lo * d, n) + 1
}

/// The number of ticks that a spacing of `mult × 10^exp` puts in `[lo, hi]`: one on each of its
/// multiples there.
pub open spec fn tick_count(lo: int, hi: int, mult: int, exp: int) -> int {
    count_multiples(lo, hi, spacing_num(mult, exp), spacing_den(exp))
}

/// `10^k` gives more than `target` ticks in `[lo, hi]`, and `10^(k+1)` at most `target`.
pub open spec fn too_many_at(lo: int, hi: int, target: int, k: int) -> bool {
    tick_count(lo, hi, 1, k) > target && tick_count(lo, hi, 1, k + 1) <= target
}

/// The first of `2 × 10^k`, `5 × 10^k` and `10^(k+1)` that gives at most `target` ticks, as
/// `(mult, exp)`.
pub open spec fn spacing_above(lo: int, hi: int, target: int, k: int) -> (int, int) {
    if tick_count(lo, hi, 2, k) <= target {
        (2, k)
    } else if tick_count(lo, hi, 5, k) <= target {
        (5, k)
    } else {
        (1, k + 1)
    }
}

/// The spacing that `calc_tick_spacing` chooses for `[lo, hi]` and `target` ticks, as
/// `(mult, exp)`.
pub open spec fn nice_spacing(lo: int, hi: int, target: int) -> (int, int) {
    spacing_above(lo, hi, target, choose|k: int| too_many_at(lo, hi, target, k))
}

// ---- arithmetic facts ----

pub(crate) proof fn lemma_floor(x: int, n: int)
    requires
        n > 0,
    ensures
        n * (x / n) <= x,
        x < n * (x / n) + n,
{
    vstd::arithmetic::div_mod::lemma_fundamental_div_mod(x, n);
    vstd::arithmetic::div_mod::lemma_mod_bound(x, n);
}

pub(crate) proof fn lemma_pow10_positive(a: nat)
    ensures
        pow10(a) >= 1,
    decreases a,
{
    if a > 0 {
        lemma_pow10_positive((a - 1) as nat);
    }
}

proof fn lemma_pow10_add(a: nat, b: nat)
    ensures
        pow10(a + b) == pow10(a) * pow10(b),
    decreases a,
{
    if a > 0 {
        lemma_pow10_add((a - 1) as nat, b);
        assert(pow10(a + b) == 10 * pow10((a - 1 + b) as nat));
        vstd::arithmetic::mul::lemma_mul_is_associative(10, pow10((a - 1) as nat) as int, pow10(b) as int);
    }
}

pub(crate) proof fn lemma_pow10_monotone(a: nat, b: nat)
    requires
        a <= b,
    ensures
        pow10(a) <= pow10(b),
    decreases b - a,
{
    if a < b {
        lemma_pow10_monotone(a, (b - 1) as nat);
        lemma_pow10_positive((b - 1) as nat);
    }
}

pub(crate) proof fn lemma_pow10_20()
    ensures
        pow10(20) == 100_000_000_000_000_000_000int,
{
    reveal_with_fuel(pow10, 21);
}

/// Scaling the numerator and denominator of a spacing alike keeps the count.
proof fn lemma_count_scale(lo: int, hi: int, n: int, d: int, c: int)
    requires
        n > 0,
        d > 0,
        c > 0,
    ensures
        count_multiples(lo, hi, n, d) == count_multiples(lo, hi, n * c, d * c),
{
    lemma_div_scale(hi * d, n, c);
    lemma_div_scale(-(lo * d), n, c);
    assert(hi * (d * c) == (hi * d) * c) by (nonlinear_arith);
    assert(-(lo * (d * c)) == (-(lo * d)) * c) by (nonlinear_arith);
}

proof fn lemma_div_scale(x: int, n: int, c: int)
    requires
        n > 0,
        c > 0,
    ensures
        (x * c) / (n * c) == x / n,
{
    lemma_floor(x, n);
    let q = x / n;
    let r = x - n * q;
    assert(x * c == q * (n * c) + r * c) by (nonlinear_arith)
        requires
            r == x - n * q,
    ;
    assert(0 <= r * c < n * c) by (nonlinear_arith)
        requires
            0 <= r < n,
            c > 0,
    ;
    vstd::arithmetic::div_mod::lemma_fundamental_div_mod_converse(x * c, n * c, q, r * c);
}

/// Dividing by a `j` times larger divisor at most divides the floor by `j`.
proof fn lemma_div_coarser(x: int, n: int, j: int)
    requires
        n > 0,
        j >= 1,
    ensures
        x / n >= j * (x / (j * n)),
{
    assert(j * n > 0) by (nonlinear_arith)
        requires
            j >= 1,
            n > 0,
    ;
    lemma_floor(x, n);
    lemma_floor(x, j * n);
    let f1 = x / n;
    let f2 = x / (j * n);
    assert(f1 >= j * f2) by (nonlinear_arith)
        requires
            x < n * f1 + n,
            (j * n) * f2 <= x,
            n > 0,
    ;
}

pub(crate) proof fn lemma_count_nonnegative(lo: int, hi: int, n: int, d: int)
    requires
        lo <= hi,
        n > 0,
        d > 0,
    ensures
        count_multiples(lo, hi, n, d) >= 0,
{
    lemma_floor(hi * d, n);
    lemma_floor(-(lo * d), n);
    let f = (hi * d) / n;
    let g = (-(lo * d)) / n;
    assert(lo * d <= hi * d) by (nonlinear_arith)
        requires
            lo <= hi,
            d > 0,
    ;
    assert(f + g >= -1) by (nonlinear_arith)
        requires
            hi * d < n * f + n,
            -(lo * d) < n * g + n,
            lo * d <= hi * d,
            n > 0,
    ;
}

/// A spacing `j` times coarser gives no more ticks.
proof fn lemma_count_coarser(lo: int, hi: int, n: int, d: int, j: int)
    requires
        lo <= hi,
        n > 0,
        d > 0,
        j >= 1,
    ensures
        count_multiples(lo, hi, n, d) >= count_multiples(lo, hi, j * n, d),
{
    lemma_div_coarser(hi * d, n, j);
    lemma_div_coarser(-(lo * d), n, j);
    lemma_count_nonnegative(lo, hi, n, d);
    assert(j * n > 0) by (nonlinear_arith)
        requires
            j >= 1,
            n > 0,
    ;
    lemma_count_nonnegative(lo, hi, j * n, d);
    let c1 = count_multiples(lo, hi, n, d);
    let c2 = count_multiples(lo, hi, j * n, d);
    assert(c1 - 1 >= j * (c2 - 1)) by (nonlinear_arith)
        requires
            c1 - 1 == (hi * d) / n + (-(lo * d)) / n,
            c2 - 1 == (hi * d) / (j * n) + (-(lo * d)) / (j * n),
            (hi * d) / n >= j * ((hi * d) / (j * n)),
            (-(lo * d)) / n >= j * ((-(lo * d)) / (j * n)),
    ;
    assert(c1 >= c2) by (nonlinear_arith)
        requires
            c1 - 1 >= j * (c2 - 1),
            c1 >= 0,
            c2 >= 0,
            j >= 1,
    ;
}

/// Writes the count of a spacing over the common denominator `10^(-b)`.
proof fn lemma_rebase(lo: int, hi: int, m: int, e: int, b: int)
    requires
        m > 0,
        b <= 0,
        b <= e,
    ensures
        tick_count(lo, hi, m, e) == count_multiples(
            lo,
            hi,
            m * pow10((e - b) as nat),
            pow10((-b) as nat) as int,
        ),
{
    lemma_pow10_positive((e - b) as nat);
    lemma_pow10_positive((-b) as nat);
    if e >= 0 {
        lemma_pow10_positive(e as nat);
        assert(m * pow10(e as nat) > 0) by (nonlinear_arith)
            requires
                m > 0,
                pow10(e as nat) >= 1,
        ;
        lemma_count_scale(lo, hi, m * pow10(e as nat), 1, pow10((-b) as nat) as int);
        lemma_pow10_add(e as nat, (-b) as nat);
        assert((e - b) as nat == e as nat + (-b) as nat);
        vstd::arithmetic::mul::lemma_mul_is_associative(
            m,
            pow10(e as nat) as int,
            pow10((-b) as nat) as int,
        );
    } else {
        lemma_pow10_positive((-e) as nat);
        lemma_count_scale(lo, hi, m, pow10((-e) as nat) as int, pow10((e - b) as nat) as int);
        lemma_pow10_add((-e) as nat, (e - b) as nat);
        assert((-b) as nat == (-e) as nat + (e - b) as nat);
    }
}

/// Ticks of a power of ten give at least as many as those of the next power of ten.
proof fn lemma_count_power_step(lo: int, hi: int, k: int)
    requires
        lo <= hi,
    ensures
        tick_count(lo, hi, 1, k) >= tick_count(lo, hi, 1, k + 1),
{
    let b = if k < 0 { k } else { 0 };
    lemma_rebase(lo, hi, 1, k, b);
    lemma_rebase(lo, hi, 1, k + 1, b);
    let p = pow10((k - b) as nat) as int;
    lemma_pow10_positive((k - b) as nat);
    lemma_pow10_positive((-b) as nat);
    assert(pow10((k + 1 - b) as nat) == 10 * pow10((k - b) as nat));
    lemma_count_coarser(lo, hi, 1 * p, pow10((-b) as nat) as int, 10);
}

/// More generally, coarser powers of ten give no more ticks.
proof fn lemma_count_power_monotone(lo: int, hi: int, a: int, b: int)
    requires
        lo <= hi,
        a <= b,
    ensures
        tick_count(lo, hi, 1, a) >= tick_count(lo, hi, 1, b),
    decreases b - a,
{
    if a < b {
        lemma_count_power_monotone(lo, hi, a, b - 1);
        lemma_count_power_step(lo, hi, b - 1);
    }
}

/// A tenth of `m × 10^k` (`m` being 2 or 5) gives at least as many ticks as `10^k`.
proof fn lemma_count_tenth(lo: int, hi: int, m: int, k: int)
    requires
        lo <= hi,
        m == 2 || m == 5,
    ensures
        tick_count(lo, hi, m, k - 1) >= tick_count(lo, hi, 1, k),
{
    let b = if k - 1 < 0 { k - 1 } else { 0 };
    lemma_rebase(lo, hi, m, k - 1, b);
    lemma_rebase(lo, hi, 1, k, b);
    let p = pow10((k - 1 - b) as nat) as int;
    lemma_pow10_positive((k - 1 - b) as nat);
    lemma_pow10_positive((-b) as nat);
    assert(pow10((k - b) as nat) == 10 * p);
    assert(1 * (10 * p) == (10int / m) * (m * p)) by (nonlinear_arith)
        requires
            m == 2 || m == 5,
    ;
    lemma_count_coarser(lo, hi, m * p, pow10((-b) as nat) as int, 10int / m);
}

/// At most one power of ten is the one just too fine.
proof fn lemma_too_many_unique(lo: int, hi: int, target: int, k1: int, k2: int)
    requires
        lo <= hi,
        too_many_at(lo, hi, target, k1),
        too_many_at(lo, hi, target, k2),
    ensures
        k1 == k2,
{
    if k1 < k2 {
        lemma_count_power_monotone(lo, hi, k1 + 1, k2);
    } else if k2 < k1 {
        lemma_count_power_monotone(lo, hi, k2 + 1, k1);
    }
}

/// A spacing of more than the interval's width holds at most one tick.
proof fn lemma_count_wide(lo: int, hi: int, n: int, d: int)
    requires
        lo <= hi,
        d > 0,
        n > (hi - lo) * d,
    ensures
        count_multiples(lo, hi, n, d) <= 1,
{
    lemma_floor(hi * d, n);
    lemma_floor(-(lo * d), n);
    let f = (hi * d) / n;
    let g = (-(lo * d)) / n;
    assert(n * (f + g) < n * 1) by (nonlinear_arith)
        requires
            n * f <= hi * d,
            n * g <= -(lo * d),
            n > (hi - lo) * d,
    ;
    assert(f + g <= 0) by (nonlinear_arith)
        requires
            n * (f + g) < n * 1,
            n > 0,
    ;
}

/// When `m` divides the denominator, every integer is a multiple of the spacing, and the count
/// is the width over the spacing, plus one.
proof fn lemma_count_fine(lo: int, hi: int, m: int, q: int)
    requires
        m > 0,
        q >= 0,
    ensures
        count_multiples(lo, hi, m, m * q) == (hi - lo) * q + 1,
{
    assert(hi * (m * q) == (hi * q) * m) by (nonlinear_arith);
    assert(-(lo * (m * q)) == (-(lo * q)) * m) by (nonlinear_arith);
    vstd::arithmetic::div_mod::lemma_fundamental_div_mod_converse((hi * q) * m, m, hi * q, 0);
    vstd::arithmetic::div_mod::lemma_fundamental_div_mod_converse(
        (-(lo * q)) * m,
        m,
        -(lo * q),
        0,
    );
    assert(hi * q - lo * q == (hi - lo) * q) by (nonlinear_arith);
}

pub(crate) proof fn lemma_count_negative_exp(lo: int, hi: int, m: int, e: int)
    requires
        m == 1 || m == 2 || m == 5,
        e < 0,
    ensures
        pow10((-e) as nat) % m == 0,
        tick_count(lo, hi, m, e) == (hi - lo) * (pow10((-e) as nat) / m) + 1,
{
    let n = (-e) as nat;
    let q = (10int / m) * pow10((n - 1) as nat);
    lemma_pow10_positive((n - 1) as nat);
    assert(pow10(n) == m * q) by (nonlinear_arith)
        requires
            pow10(n) == 10 * pow10((n - 1) as nat),
            q == (10int / m) * pow10((n - 1) as nat),
            m == 1 || m == 2 || m == 5,
    ;
    vstd::arithmetic::div_mod::lemma_fundamental_div_mod_converse(pow10(n) as int, m, q, 0);
    lemma_count_fine(lo, hi, m, q);
}

/// Some power of ten is the one just too fine, and lies in `[-20, k]`, when `10^(k+1)` gives
/// few enough ticks.
proof fn lemma_too_many_exists(lo: int, hi: int, target: int, k: int)
    requires
        lo < hi,
        hi - lo < 0x1_0000_0000_0000_0000,
        target < 0x1_0000_0000_0000_0000,
        k >= -20,
        tick_count(lo, hi, 1, k + 1) <= target,
    ensures
        exists|j: int| -20 <= j <= k && #[trigger] too_many_at(lo, hi, target, j),
    decreases k + 20,
{
    if tick_count(lo, hi, 1, k) > target {
        assert(too_many_at(lo, hi, target, k));
    } else {
        if k == -20 {
            lemma_count_negative_exp(lo, hi, 1, -20);
            lemma_pow10_20();
            assert((hi - lo) * 100_000_000_000_000_000_000 >= 100_000_000_000_000_000_000)
                by (nonlinear_arith)
                requires
                    hi - lo >= 1,
            ;
        }
        lemma_too_many_exists(lo, hi, target, k - 1);
    }
}

/// For every valid interval and a target of at least two ticks, the chosen spacing is 1, 2 or 5
/// times a power of ten; its ticks number at most `target`, and ticks a tenth as far apart
/// would number more.
pub proof fn lemma_nice_spacing_is_tight(interval: Interval, target: usize)
    requires
        interval.valid(),
        target >= 2,
    ensures
        ({
            let (m, e) = nice_spacing(interval.lo(), interval.hi(), target as int);
            &&& m == 1 || m == 2 || m == 5
            &&& tick_count(interval.lo(), interval.hi(), m, e) <= target
            &&& tick_count(interval.lo(), interval.hi(), m, e - 1) > target
        }),
{
    let lo = interval.lo();
    let hi = interval.hi();
    lemma_top_exponent_fits(lo, hi, target as int);
    lemma_too_many_exists(lo, hi, target as int, 19);
    let k = choose|k: int| too_many_at(lo, hi, target as int, k);
    let (m, e) = spacing_above(lo, hi, target as int, k);
    if m == 2 || m == 5 {
        lemma_count_tenth(lo, hi, m, k);
    }
}

proof fn lemma_top_exponent_fits(lo: int, hi: int, target: int)
    requires
        lo < hi,
        hi - lo < 0x1_0000_0000_0000_0000,
        target >= 1,
    ensures
        tick_count(lo, hi, 1, 20) <= target,
{
    lemma_pow10_20();
    lemma_count_wide(lo, hi, 1 * pow10(20), 1);
}

// ---- executable ----

/// Ten to the power `n`, for `n <= 20`.
pub(crate) fn pow10_u128(n: u32) -> (r: u128)
    requires
        n <= 20,
    ensures
        r == pow10(n as nat),
        r <= 100_000_000_000_000_000_000,
{
    let mut r: u128 = 1;
    let mut i: u32 = 0;
    while i < n
        invariant
            i <= n <= 20,
            r == pow10(i as nat),
        decreases n - i,
    {
        proof {
            lemma_pow10_monotone((i + 1) as nat, 20);
            lemma_pow10_20();
        }
        r = r * 10;
        i = i + 1;
    }
    proof {
        lemma_pow10_monotone(n as nat, 20);
        lemma_pow10_20();
    }
    r
}

pub(crate) proof fn lemma_div_magnitude(x: int, n: int)
    requires
        n >= 1,
    ensures
        x >= 0 ==> 0 <= x / n <= x,
        x < 0 ==> x <= x / n < 0,
{
    lemma_floor(x, n);
    let q = x / n;
    if x >= 0 {
        assert(0 <= q <= x) by (nonlinear_arith)
            requires
                n * q <= x,
                x < n * q + n,
                n >= 1,
                x >= 0,
        ;
    } else {
        assert(x <= q < 0) by (nonlinear_arith)
            requires
                n * q <= x,
                x < n * q + n,
                n >= 1,
                x < 0,
        ;
    }
}

/// Whether the spacing `mult × 10^exp` puts at most `target` ticks in `interval`.
fn fits(interval: Interval, mult: u64, exp: i32, target: usize) -> (r: bool)
    requires
        mult == 1 || mult == 2 || mult == 5,
        -20 <= exp <= 20,
    ensures
        r == (tick_count(interval.lo(), interval.hi(), mult as int, exp as int) <= target),
{
    let lo = interval.min();
    let hi = interval.max();
    proof {
        use_type_invariant(&interval);
    }
    if exp >= 0 {
        let p = pow10_u128(exp as u32);
        proof {
            lemma_pow10_positive(exp as nat);
            assert(1 <= mult * p <= 500_000_000_000_000_000_000) by (nonlinear_arith)
                requires
                    1 <= mult <= 5,
                    1 <= p <= 100_000_000_000_000_000_000,
            ;
        }
        let n: i128 = (mult as u128 * p) as i128;
        proof {
            lemma_div_magnitude(hi as int, n as int);
            lemma_div_magnitude(-lo, n as int);
            assert(hi as int * 1 == hi as int);
            assert(lo as int * 1 == lo as int);
        }
        let last = (hi as i128).checked_div_euclid(n).unwrap();
        let neg_first = (-(lo as i128)).checked_div_euclid(n).unwrap();
        last + neg_first + 1 <= target as i128
    } else {
        let d = pow10_u128((-exp) as u32);
        proof {
            lemma_count_negative_exp(lo as int, hi as int, mult as int, exp as int);
        }
        let q = d / (mult as u128);
        let size = (hi as i128 - lo as i128) as u128;
        match size.checked_mul(q) {
            None => false,
            Some(p) => p < target as u128,
        }
    }
}

/// Finds the power of ten `10^k` whose ticks are too many for `target_count`, while those of
/// `10^(k+1)` are not, and returns `k`.
fn pow_10_just_too_many(interval: Interval, target_count: usize) -> (k: i32)
    requires
        target_count >= 1,
    ensures
        -20 <= k <= 19,
        too_many_at(interval.lo(), interval.hi(), target_count as int, k as int),
{
    let ghost lo = interval.lo();
    let ghost hi = interval.hi();
    proof {
        use_type_invariant(&interval);
        lemma_top_exponent_fits(lo, hi, target_count as int);
    }
    let mut k: i32 = 19;
    loop
        invariant
            -20 <= k <= 19,
            lo == interval.lo(),
            hi == interval.hi(),
            lo < hi,
            hi - lo < 0x1_0000_0000_0000_0000,
            tick_count(lo, hi, 1, k + 1) <= target_count,
        decreases k + 20,
    {
        if !fits(interval, 1, k, target_count) {
            return k;
        }
        proof {
            if k == -20 {
                lemma_count_negative_exp(lo, hi, 1, -20);
                lemma_pow10_20();
                assert((hi - lo) * 100_000_000_000_000_000_000 >= 100_000_000_000_000_000_000)
                    by (nonlinear_arith)
                    requires
                        hi - lo >= 1,
                ;
            }
        }
        k = k - 1;
    }
}

/// Returns the gap between ticks that gives at most `target_count` ticks in `interval`, and is
/// 1, 2 or 5 × 10<sup>k</sup>: the first of `2 × 10^k`, `5 × 10^k` and `10^(k+1)` that gives
/// few enough, where `10^k` gives too many and `10^(k+1)` does not.
///
/// Returns `None` when `target_count` is below 2: no spacing is defined for fewer ticks.
pub fn calc_tick_spacing(interval: Interval, target_count: usize) -> (r: Option<Spacing>)
    ensures
        target_count <= 1 ==> r.is_none(),
        target_count >= 2 ==> r.is_some() && ({
            let (m, e) = nice_spacing(interval.lo(), interval.hi(), target_count as int);
            r.unwrap().mult == m && r.unwrap().exp == e
        }) && -20 <= r.unwrap().exp <= 20,
{
    if target_count <= 1 {
        return None;
    }
    let k = pow_10_just_too_many(interval, target_count);
    proof {
        let lo = interval.lo();
        let hi = interval.hi();
        use_type_invariant(&interval);
        let c = choose|j: int| too_many_at(lo, hi, target_count as int, j);
        lemma_too_many_unique(lo, hi, target_count as int, k as int, c);
    }
    if fits(interval, 2, k, target_count) {
        Some(Spacing { mult: 2, exp: k })
    } else if fits(interval, 5, k, target_count) {
        Some(Spacing { mult: 5, exp: k })
    } else {
        Some(Spacing { mult: 1, exp: k + 1 })
    }
}

} // verus!
