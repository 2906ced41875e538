use vstd::prelude::*;

use crate::spacing::{ceil_div, lemma_div_magnitude, lemma_floor, lemma_pow10_monotone, pow10_u128};

verus! {

/// An interval `[min, max]` of values, with `min < max`.
///
/// Values are integers in a unit that the caller chooses.
#[derive(Clone, Copy, Debug, PartialEq, Eq, Structural)]
pub struct Interval {
    min: i64,
    max: i64,
}

/// The nice values 1, 2, 5, 10, 20, 50, 100, ..., indexed from 0.
pub open spec fn nice_value(i: nat) -> int {
    let m = if i % 3 == 0 {
        1int
    } else if i % 3 == 1 {
        2int
    } else {
        5int
    };
    m * pow10(i / 3)
}

/// `nice_value(i)` is the first nice value whose tenfold exceeds `size`.
pub open spec fn is_rounding_index(size: int, i: nat) -> bool {
    &&& 10 * nice_value(i) > size
    &&& (i == 0 || 10 * nice_value((i - 1) as nat) <= size)
}

/// `[lo, hi]` widened outward to multiples of `step`: the lower bound down to a multiple, the
/// upper bound to the next multiple above it.
pub open spec fn rounded_bounds(lo: int, hi: int, step: int) -> (int, int) {
    ((lo / step) * step, (hi / step + 1) * step)
}

impl Interval {
    /// The lower bound.
    pub closed spec fn lo(self) -> int {
        self.min as int
    }

    /// The upper bound.
    pub closed spec fn hi(self) -> int {
        self.max as int
    }

    /// Both bounds are 64-bit values, and the lower one is below the upper one.
    #[verifier::type_invariant]
    pub open spec fn valid(self) -> bool {
        &&& i64::MIN <= self.lo()
        &&& self.lo() < self.hi()
        &&& self.hi() <= i64::MAX
    }

    /// Constructs an interval from its min and max.
    pub fn new(min: i64, max: i64) -> (r: Self)
        requires
            min < max,
        ensures
            r.lo() == min,
            r.hi() == max,
    {
        Interval { min, max }
    }

    /// The smallest interval that holds all of `values`, or `None` when they hold fewer than
    /// two distinct values.
    pub fn from_values(values: &[i64]) -> (r: Option<Self>)
        ensures
            r.is_some() <==> exists|i: int, j: int|
                0 <= i < values@.len() && 0 <= j < values@.len() && values@[i] < values@[j],
            r.is_some() ==> {
                &&& forall|i: int|
                    0 <= i < values@.len() ==> r.unwrap().lo() <= #[trigger] values@[i] <= r.unwrap().hi()
                &&& exists|i: int| 0 <= i < values@.len() && values@[i] == r.unwrap().lo()
                &&& exists|i: int| 0 <= i < values@.len() && values@[i] == r.unwrap().hi()
            },
    {
        if values.len() == 0 {
            return None;
        }
        let mut min = values[0];
        let mut max = values[0];
        let mut imin: usize = 0;
        let mut imax: usize = 0;
        let mut i: usize = 1;
        while i < values.len()
            invariant
                1 <= i <= values@.len(),
                imin < i,
                imax < i,
                values@[imin as int] == min,
                values@[imax as int] == max,
                forall|j: int| 0 <= j < i ==> min <= #[trigger] values@[j] <= max,
            decreases values@.len() - i,
        {
            if values[i] < min {
                min = values[i];
                imin = i;
            } else if values[i] > max {
                max = values[i];
                imax = i;
            }
            i = i + 1;
        }
        if min < max {
            Some(Interval { min, max })
        } else {
            assert forall|a: int, b: int|
                0 <= a < values@.len() && 0 <= b < values@.len() implies !(values@[a] < values@[b]) by {}
            None
        }
    }

    /// Extends the interval to hold each of `values`.
    pub fn extend(&mut self, values: &[i64])
        ensures
            final(self).lo() == seq_min(old(self).lo(), values@),
            final(self).hi() == seq_max(old(self).hi(), values@),
    {
        let mut i: usize = 0;
        while i < values.len()
            invariant
                0 <= i <= values@.len(),
                self.lo() == seq_min(old(self).lo(), values@.take(i as int)),
                self.hi() == seq_max(old(self).hi(), values@.take(i as int)),
            decreases values@.len() - i,
        {
            proof {
                assert(values@.take(i + 1).drop_last() == values@.take(i as int));
            }
            *self = self.extend_to(values[i]);
            i = i + 1;
        }
        proof {
            assert(values@.take(values@.len() as int) == values@);
        }
    }

    /// Whether this interval is valid: always, as every constructor checks it.
    pub fn is_valid(self) -> (r: bool)
        ensures
            r == (self.lo() < self.hi()),
    {
        proof {
            use_type_invariant(&self);
        }
        self.min < self.max
    }

    /// The `(min, max)` of the interval.
    pub fn as_tuple(self) -> (r: (i64, i64))
        ensures
            r.0 == self.lo(),
            r.1 == self.hi(),
    {
        (self.min, self.max)
    }

    /// The lower bound of the interval.
    pub fn min(&self) -> (r: i64)
        ensures
            r == self.lo(),
    {
        self.min
    }

    /// The upper bound of the interval.
    pub fn max(&self) -> (r: i64)
        ensures
            r == self.hi(),
    {
        self.max
    }

    /// Sets the lower bound of the interval.
    pub fn set_min(&mut self, min: i64)
        requires
            min < old(self).hi(),
        ensures
            final(self).lo() == min,
            final(self).hi() == old(self).hi(),
    {
        self.min = min;
    }

    /// Sets the upper bound of the interval.
    pub fn set_max(&mut self, max: i64)
        requires
            old(self).lo() < max,
        ensures
            final(self).lo() == old(self).lo(),
            final(self).hi() == max,
    {
        self.max = max;
    }

    /// The width of the interval.
    pub fn size(&self) -> (r: u64)
        ensures
            r == self.hi() - self.lo(),
    {
        proof {
            use_type_invariant(self);
        }
        (self.max as i128 - self.min as i128) as u64
    }

    /// Extends the interval to include `val`.
    pub fn extend_to(self, val: i64) -> (r: Self)
        ensures
            r.lo() == if val < self.lo() { val as int } else { self.lo() },
            r.hi() == if val > self.hi() { val as int } else { self.hi() },
    {
        proof {
            use_type_invariant(&self);
        }
        if val < self.min {
            Interval { min: val, max: self.max }
        } else if val > self.max {
            Interval { min: self.min, max: val }
        } else {
            self
        }
    }

    /// Extends the interval to include 0.
    pub fn include_zero(self) -> (r: Self)
        ensures
            r.lo() == if self.lo() > 0 { 0 } else { self.lo() },
            r.hi() == if self.hi() < 0 { 0 } else { self.hi() },
    {
        self.extend_to(0)
    }

    /// The middle of the interval, rounded down.
    pub fn center(self) -> (r: i64)
        ensures
            r == (self.lo() + self.hi()) / 2,
    {
        proof {
            use_type_invariant(&self);
        }
        proof {
            lemma_div_between((self.lo() + self.hi()) / 2, 1);
        }
        ((self.min as i128 + self.max as i128).checked_div_euclid(2).unwrap()) as i64
    }

    /// Scales the interval by `num / den` about its centre, widened outward to whole values:
    /// the lower bound is rounded down and the upper one up. Returns `None` when a bound would
    /// not fit in 64 bits.
    pub fn scale_center(self, num: u32, den: u32) -> (r: Option<Self>)
        requires
            num > 0,
            den > 0,
        ensures
            ({
                let a = (self.lo() + self.hi()) * den - (self.hi() - self.lo()) * num;
                let b = (self.lo() + self.hi()) * den + (self.hi() - self.lo()) * num;
                let lo = a / (2 * den);
                let hi = ceil_div(b, 2 * den);
                &&& r.is_some() <==> (i64::MIN <= lo && hi <= i64::MAX)
                &&& r.is_some() ==> r.unwrap().lo() == lo && r.unwrap().hi() == hi
            }),
    {
        proof {
            use_type_invariant(&self);
        }
        let sum = self.min as i128 + self.max as i128;
        let size = self.max as i128 - self.min as i128;
        proof {
            assert(-0x1_0000_0000_0000_0000 * 0x1_0000_0000 <= sum * den <= 0x1_0000_0000_0000_0000 * 0x1_0000_0000) by (nonlinear_arith)
                requires
                    -0x1_0000_0000_0000_0000 <= sum <= 0x1_0000_0000_0000_0000,
                    0 < den <= 0x1_0000_0000,
            ;
            assert(0 < size * num <= 0x1_0000_0000_0000_0000 * 0x1_0000_0000) by (nonlinear_arith)
                requires
                    0 < size <= 0x1_0000_0000_0000_0000,
                    0 < num <= 0x1_0000_0000,
            ;
        }
        let a = sum * den as i128 - size * num as i128;
        let b = sum * den as i128 + size * num as i128;
        let d = 2 * den as i128;
        proof {
            lemma_div_magnitude(a as int, d as int);
            lemma_div_magnitude(-b, d as int);
            lemma_floor(a as int, d as int);
            lemma_floor(-b, d as int);
        }
        let lo = a.checked_div_euclid(d).unwrap();
        let hi = -((-b).checked_div_euclid(d).unwrap());
        if lo < i64::MIN as i128 || hi > i64::MAX as i128 {
            None
        } else {
            proof {
                assert(lo < hi) by (nonlinear_arith)
                    requires
                        d * lo <= a,
                        a < b,
                        d * (-hi) <= -b,
                        d > 0,
                ;
            }
            Some(Interval { min: lo as i64, max: hi as i64 })
        }
    }

    /// Widens the interval outward to multiples of a round step: the first of 1, 2, 5, 10, 20,
    /// 50, ... whose tenfold exceeds the width. The step is never below one unit, as bounds are
    /// whole units. Returns `None` when a widened bound would not fit in 64 bits.
    pub fn to_rounded(self) -> (r: Option<Self>)
        ensures
            exists|i: nat| {
                &&& #[trigger] is_rounding_index(self.hi() - self.lo(), i)
                &&& {
                    let (lo, hi) = rounded_bounds(self.lo(), self.hi(), nice_value(i));
                    &&& r.is_some() <==> (i64::MIN <= lo && hi <= i64::MAX)
                    &&& r.is_some() ==> r.unwrap().lo() == lo && r.unwrap().hi() == hi
                }
            },
    {
        proof {
            use_type_invariant(&self);
        }
        let size = self.size();
        let i = rounding_index(size);
        let step = nice_value_exec(i);
        proof {
            lemma_nice_value_positive(i as nat);
        }
        let step_i = step as i128;
        proof {
            lemma_div_between(self.min as int, step as int);
            lemma_div_between(self.max as int, step as int);
        }
        let lo_q = (self.min as i128).checked_div_euclid(step_i).unwrap();
        let hi_q = (self.max as i128).checked_div_euclid(step_i).unwrap();
        proof {
            assert(lo_q * step_i > self.min - step_i) by (nonlinear_arith)
                requires
                    self.min < (lo_q + 1) * step_i,
            ;
            assert((hi_q + 1) * step_i <= self.max + step_i) by (nonlinear_arith)
                requires
                    hi_q * step_i <= self.max,
            ;
        }
        let lo = lo_q * step_i;
        let hi = (hi_q + 1) * step_i;
        if lo < i64::MIN as i128 || hi > i64::MAX as i128 {
            None
        } else {
            proof {
                assert(lo <= self.min < self.max < hi);
            }
            Some(Interval { min: lo as i64, max: hi as i64 })
        }
    }
}

/// The least of `start` and `values`.
pub open spec fn seq_min(start: int, values: Seq<i64>) -> int
    decreases values.len(),
{
    if values.len() == 0 {
        start
    } else {
        let m = seq_min(start, values.drop_last());
        if values.last() < m {
            values.last() as int
        } else {
            m
        }
    }
}

/// The greatest of `start` and `values`.
pub open spec fn seq_max(start: int, values: Seq<i64>) -> int
    decreases values.len(),
{
    if values.len() == 0 {
        start
    } else {
        let m = seq_max(start, values.drop_last());
        if values.last() > m {
            values.last() as int
        } else {
            m
        }
    }
}

proof fn lemma_nice_value_positive(i: nat)
    ensures
        nice_value(i) >= 1,
{
    lemma_pow10_monotone(0, i / 3);
}

proof fn lemma_div_between(x: int, n: int)
    requires
        n >= 1,
        i64::MIN <= x <= i64::MAX,
    ensures
        i64::MIN <= x / n <= i64::MAX,
        (x / n) * n <= x,
        x < (x / n + 1) * n,
{
    vstd::arithmetic::div_mod::lemma_fundamental_div_mod(x, n);
    vstd::arithmetic::div_mod::lemma_mod_bound(x, n);
    let q = x / n;
    assert(q * n == n * q) by (nonlinear_arith);
    assert((q + 1) * n == n * q + n) by (nonlinear_arith);
    if x >= 0 {
        assert(0 <= q <= x) by (nonlinear_arith)
            requires
                n * q <= x,
                x < n * q + n,
                n >= 1,
                x >= 0,
        ;
    } else {
        assert(x <= q < 0) by (nonlinear_arith)
            requires
                n * q <= x,
                x < n * q + n,
                n >= 1,
                x < 0,
        ;
    }
}

/// The nice value with index `i`.
fn nice_value_exec(i: u32) -> (r: u128)
    requires
        i <= 59,
    ensures
        r == nice_value(i as nat),
        r <= 50_000_000_000_000_000_000,
{
    let m: u128 = if i % 3 == 0 {
        1
    } else if i % 3 == 1 {
        2
    } else {
        5
    };
    let p = pow10_u128(i / 3);
    proof {
        lemma_pow10_monotone((i / 3) as nat, 19);
        reveal_with_fuel(pow10, 20);
        assert(m * p <= 50_000_000_000_000_000_000) by (nonlinear_arith)
            requires
                m <= 5,
                p <= 10_000_000_000_000_000_000,
        ;
    }
    m * p
}

/// The index of the first nice value whose tenfold exceeds `size`.
fn rounding_index(size: u64) -> (i: u32)
    ensures
        i <= 55,
        is_rounding_index(size as int, i as nat),
{
    let mut i: u32 = 0;
    loop
        invariant
            i <= 55,
            i == 0 || 10 * nice_value((i - 1) as nat) <= size,
        decreases 55 - i,
    {
        let v = nice_value_exec(i);
        if 10 * v > size as u128 {
            return i;
        }
        proof {
            if i == 55 {
                reveal_with_fuel(pow10, 20);
                assert(nice_value(55) == 2_000_000_000_000_000_000);
            }
        }
        i = i + 1;
    }
}



/// Ten to the power `n`.
pub open spec fn pow10(n: nat) -> int
    decreases n,
{
    if n == 0 {
        1
    } else {
        10 * pow10((n - 1) as nat)
    }
}

/// Smallest multiple of `s` that is at least `v` (`s > 0`).
pub open spec fn next_multiple(v: int, s: int) -> int {
    v + (s - v % s) % s
}

/// Largest multiple of `s` that is at most `v` (`s > 0`).
pub open spec fn prev_multiple(v: int, s: int) -> int {
    v - v % s
}

/// Returns the first tick at or after `v`, for ticks every `spacing` units.
///
/// Used to find the first tick to display.
pub fn calc_next_tick(v: i64, spacing: i64) -> (r: i128)
    requires
        spacing > 0,
    ensures
        r == next_multiple(v as int, spacing as int),
        r >= v,
        r < v + spacing,
        (r as int) % (spacing as int) == 0,
{
    let diff = (v as i128).checked_rem_euclid(spacing as i128).unwrap();
    let r = if diff == 0 {
        v as i128
    } else {
        v as i128 - diff + spacing as i128
    };
    proof {
        lemma_multiple_bounds(v as int, spacing as int);
    }
    r
}

/// Returns the last tick at or before `v`, for ticks every `spacing` units.
///
/// Used to find the last tick to display.
pub fn calc_prev_tick(v: i64, spacing: i64) -> (r: i128)
    requires
        spacing > 0,
    ensures
        r == prev_multiple(v as int, spacing as int),
        r <= v,
        r > v - spacing,
        (r as int) % (spacing as int) == 0,
{
    let diff = (v as i128).checked_rem_euclid(spacing as i128).unwrap();
    proof {
        lemma_multiple_bounds(v as int, spacing as int);
    }
    v as i128 - diff
}

proof fn lemma_multiple_bounds(v: int, s: int)
    requires
        s > 0,
    ensures
        next_multiple(v, s) >= v,
        next_multiple(v, s) < v + s,
        next_multiple(v, s) % s == 0,
        v % s == 0 ==> next_multiple(v, s) == v,
        v % s != 0 ==> next_multiple(v, s) == v - v % s + s,
        prev_multiple(v, s) <= v,
        prev_multiple(v, s) > v - s,
        prev_multiple(v, s) % s == 0,
{
    vstd::arithmetic::div_mod::lemma_fundamental_div_mod(v, s);
    vstd::arithmetic::div_mod::lemma_mod_bound(v, s);
    let q = v / s;
    vstd::arithmetic::mul::lemma_mul_is_commutative(q, s);
    assert(prev_multiple(v, s) == q * s);
    vstd::arithmetic::div_mod::lemma_mod_multiples_basic(q, s);
    if v % s == 0 {
        assert((s - v % s) % s == 0) by {
            vstd::arithmetic::div_mod::lemma_mod_self_0(s);
        }
    } else {
        assert((s - v % s) % s == s - v % s) by {
            vstd::arithmetic::div_mod::lemma_small_mod((s - v % s) as nat, s as nat);
        }
        assert(next_multiple(v, s) == (q + 1) * s) by (nonlinear_arith)
            requires
                next_multiple(v, s) == v + (s - v % s),
                v == s * q + v % s,
        ;
        vstd::arithmetic::div_mod::lemma_mod_multiples_basic(q + 1, s);
    }
}

/// Going up from `v` to the next tick is going down from `-v` to the previous one, mirrored:
/// `calc_next_tick(v, s) == -calc_prev_tick(-v, s)`.
pub proof fn lemma_next_tick_mirrors_prev(v: int, s: int)
    requires
        s > 0,
    ensures
        next_multiple(v, s) == -prev_multiple(-v, s),
{
    vstd::arithmetic::div_mod::lemma_fundamental_div_mod(v, s);
    vstd::arithmetic::div_mod::lemma_mod_bound(v, s);
    let q = v / s;
    let r = v % s;
    if r == 0 {
        assert(-v == (-q) * s + 0) by (nonlinear_arith)
            requires
                v == s * q + r,
                r == 0,
        ;
        vstd::arithmetic::div_mod::lemma_fundamental_div_mod_converse(-v, s, -q, 0);
        vstd::arithmetic::div_mod::lemma_mod_self_0(s);
    } else {
        assert(-v == (-q - 1) * s + (s - r)) by (nonlinear_arith)
            requires
                v == s * q + r,
        ;
        vstd::arithmetic::div_mod::lemma_fundamental_div_mod_converse(-v, s, -q - 1, s - r);
        vstd::arithmetic::div_mod::lemma_small_mod((s - r) as nat, s as nat);
    }
}

} // verus!
