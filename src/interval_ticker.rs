use vstd::prelude::*;

use crate::interval::{pow10, Interval};
use crate::spacing::{
    calc_tick_spacing, ceil_div, lemma_count_negative_exp, lemma_count_nonnegative, lemma_floor,
    lemma_nice_spacing_is_tight, lemma_pow10_positive, nice_spacing, pow10_u128, spacing_den,
    spacing_num, tick_count,
};
use crate::text::{decimal_text, decimal_value_text};
use crate::sequence::lemma_scaled_on_axis;
use crate::spacing::lemma_div_magnitude;
use crate::ticker::{Tick, Ticker};

verus! {

/// The most ticks that an axis of length `axis_len` is given: one per 60 units of length.
pub open spec fn target_ticks(axis_len: int) -> int {
    axis_len / 60
}

/// The number of decimal places of a spacing with exponent `exp`.
pub open spec fn decimals(exp: int) -> nat {
    if exp < 0 {
        (-exp) as nat
    } else {
        0
    }
}

/// The ticks of `[lo, hi]` on an axis of length `axis_len`: one on each multiple of the nice
/// spacing for [`target_ticks`], placed by the linear map from `[lo, hi]` onto
/// `[0, axis_len]` (rounded down), and labelled with its value in decimal. None when fewer than
/// two ticks are asked for (or `[lo, hi]` is no valid interval).
pub open spec fn interval_ticks(lo: int, hi: int, axis_len: int) -> Seq<(int, Seq<char>)> {
    let t = target_ticks(axis_len);
    if t < 2 || !(i64::MIN <= lo < hi <= i64::MAX) {
        Seq::empty()
    } else {
        let (m, e) = nice_spacing(lo, hi, t);
        let n = spacing_num(m, e);
        let d = spacing_den(e);
        let first = ceil_div(lo * d, n);
        Seq::new(
            tick_count(lo, hi, m, e) as nat,
            |i: int|
                {
                    // the tick's value, times `d`
                    let v = (first + i) * n;
                    (((v - lo * d) * axis_len) / (d * (hi - lo)), decimal_text(v, decimals(e)))
                },
        )
    }
}

/// What `layout` keeps: the spacing as a fraction `num / den`, with `decimals` places, the
/// index of the first tick, and the number of ticks.
#[derive(Clone, Copy, Debug)]
struct TickLayout {
    axis_len: u32,
    num: i128,
    den: i128,
    decimals: u32,
    first: i128,
    count: usize,
}

/// Ticks for a continuous interval of values, at a nice spacing.
#[derive(Clone, Copy, Debug)]
pub struct IntervalTicker {
    interval: Interval,
    layout: Option<TickLayout>,
}

/// `l` holds what `layout(l.axis_len)` computes for `[lo, hi]`.
spec fn layout_matches(lo: int, hi: int, l: TickLayout) -> bool {
    let t = target_ticks(l.axis_len as int);
    if t < 2 {
        l.count == 0
    } else {
        let (m, e) = nice_spacing(lo, hi, t);
        &&& l.num == spacing_num(m, e)
        &&& l.den == spacing_den(e)
        &&& l.decimals == decimals(e)
        &&& l.decimals <= 20
        &&& 1 <= l.num <= 500_000_000_000_000_000_000
        &&& 1 <= l.den <= 0x4000_0000
        &&& l.first == ceil_div(lo * l.den, l.num as int)
        &&& l.count == tick_count(lo, hi, m, e)
    }
}

impl IntervalTicker {
    /// The interval.
    pub closed spec fn spec_interval(&self) -> Interval {
        self.interval
    }

    #[verifier::type_invariant]
    spec fn layout_valid(self) -> bool {
        match self.layout {
            None => true,
            Some(l) => layout_matches(self.interval.lo(), self.interval.hi(), l),
        }
    }

    /// A ticker for `interval`.
    pub fn new(interval: Interval) -> (r: Self)
        ensures
            r.spec_interval() == interval,
            !r.is_laid_out(),
    {
        IntervalTicker { interval, layout: None }
    }
}

impl Interval {
    /// A ticker for this interval.
    pub fn ticker(self) -> (r: IntervalTicker)
        ensures
            r.spec_interval() == self,
            !r.is_laid_out(),
    {
        IntervalTicker::new(self)
    }
}

proof fn lemma_spacing_positive(m: int, e: int)
    requires
        m >= 1,
    ensures
        spacing_num(m, e) >= 1,
        spacing_den(e) >= 1,
{
    if e >= 0 {
        lemma_pow10_positive(e as nat);
        assert(m * pow10(e as nat) >= 1) by (nonlinear_arith)
            requires
                m >= 1,
                pow10(e as nat) >= 1,
        ;
    } else {
        lemma_pow10_positive((-e) as nat);
    }
}

/// The `i`-th tick of a spacing lies in `[lo, hi]`: its value, times the denominator, lies in
/// `[lo d, hi d]`.
proof fn lemma_tick_value_bounds(lo: int, hi: int, m: int, e: int, i: int)
    requires
        m >= 1,
        0 <= i < tick_count(lo, hi, m, e),
    ensures
        lo * spacing_den(e) <= (ceil_div(lo * spacing_den(e), spacing_num(m, e)) + i) * spacing_num(
            m,
            e,
        ) <= hi * spacing_den(e),
{
    lemma_spacing_positive(m, e);
    let n = spacing_num(m, e);
    let d = spacing_den(e);
    let first = ceil_div(lo * d, n);
    let last = (hi * d) / n;
    lemma_floor(hi * d, n);
    lemma_floor(-(lo * d), n);
    assert((first + i) * n >= lo * d) by (nonlinear_arith)
        requires
            first == -((-(lo * d)) / n),
            n * ((-(lo * d)) / n) <= -(lo * d),
            i >= 0,
            n > 0,
    ;
    assert((first + i) * n <= hi * d) by (nonlinear_arith)
        requires
            first + i <= last,
            n * last <= hi * d,
            n > 0,
    ;
}

impl Ticker for IntervalTicker {
    closed spec fn is_laid_out(&self) -> bool {
        self.layout.is_some()
    }

    closed spec fn laid_out_len(&self) -> int {
        self.layout.unwrap().axis_len as int
    }

    open spec fn ticks_for(&self, axis_len: int) -> Seq<(int, Seq<char>)> {
        interval_ticks(self.spec_interval().lo(), self.spec_interval().hi(), axis_len)
    }

    proof fn lemma_ticks_on_axis(&self, axis_len: int) {
        let lo = self.spec_interval().lo();
        let hi = self.spec_interval().hi();
        let t = target_ticks(axis_len);
        if t >= 2 && i64::MIN <= lo < hi <= i64::MAX {
            lemma_nice_spacing_is_tight(self.spec_interval(), t as usize);
            let (m, e) = nice_spacing(lo, hi, t);
            let n = spacing_num(m, e);
            let d = spacing_den(e);
            lemma_spacing_positive(m, e);
            lemma_count_nonnegative(lo, hi, n, d);
            assert forall|i: int| 0 <= i < self.ticks_for(axis_len).len() implies 0
                <= #[trigger] self.ticks_for(axis_len)[i].0 <= axis_len by {
                lemma_tick_value_bounds(lo, hi, m, e, i);
                let v = (ceil_div(lo * d, n) + i) * n;
                assert(d * (hi - lo) == (hi * d - lo * d)) by (nonlinear_arith);
                assert(d * (hi - lo) > 0) by (nonlinear_arith)
                    requires
                        d > 0,
                        hi - lo > 0,
                ;
                lemma_scaled_on_axis(v - lo * d, d * (hi - lo), axis_len);
            }
        }
    }

    fn layout(&mut self, axis_len: u32) {
        proof {
            use_type_invariant(&*self);
            use_type_invariant(&self.interval);
        }
        let t = (axis_len / 60) as usize;
        let lo = self.interval.min();
        let hi = self.interval.max();
        let l = match calc_tick_spacing(self.interval, t) {
            None => TickLayout { axis_len, num: 1, den: 1, decimals: 0, first: 0, count: 0 },
            Some(s) => {
                let ghost (m, e) = nice_spacing(lo as int, hi as int, t as int);
                proof {
                    lemma_nice_spacing_is_tight(self.interval, t);
                }
                let (num, den, decimals): (i128, i128, u32) = if s.exp >= 0 {
                    let p = pow10_u128(s.exp as u32);
                    proof {
                        lemma_pow10_positive(s.exp as nat);
                        assert(1 <= s.mult * p <= 500_000_000_000_000_000_000) by (nonlinear_arith)
                            requires
                                1 <= s.mult <= 5,
                                1 <= p <= 100_000_000_000_000_000_000,
                        ;
                    }
                    ((s.mult as u128 * p) as i128, 1, 0)
                } else {
                    let d = pow10_u128((-s.exp) as u32);
                    proof {
                        lemma_pow10_positive((-s.exp) as nat);
                        lemma_count_negative_exp(lo as int, hi as int, m, e);
                        let q = pow10((-e) as nat) / m;
                        vstd::arithmetic::div_mod::lemma_fundamental_div_mod(pow10((-e) as nat), m);
                        assert(q <= t) by (nonlinear_arith)
                            requires
                                (hi - lo) * q + 1 <= t,
                                hi - lo >= 1,
                                q >= 0,
                        ;
                        assert(d == pow10((-e) as nat));
                        assert(d == m * q);
                        assert(d <= 0x4000_0000) by (nonlinear_arith)
                            requires
                                d == m * q,
                                0 <= q <= t,
                                m >= 1,
                                t <= 0x8000000,
                                m <= 5,
                        ;
                    }
                    (s.mult as i128, d as i128, (-s.exp) as u32)
                };
                proof {
                    lemma_floor(hi * den, num as int);
                    lemma_floor(-(lo * den), num as int);
                    assert(-0x8000_0000_0000_0000 * 0x4000_0000 <= lo * den <= 0x8000_0000_0000_0000 * 0x4000_0000) by (nonlinear_arith)
                        requires
                            -0x8000_0000_0000_0000 <= lo <= 0x8000_0000_0000_0000,
                            1 <= den <= 0x4000_0000,
                    ;
                    assert(-0x8000_0000_0000_0000 * 0x4000_0000 <= hi * den <= 0x8000_0000_0000_0000 * 0x4000_0000) by (nonlinear_arith)
                        requires
                            -0x8000_0000_0000_0000 <= hi <= 0x8000_0000_0000_0000,
                            1 <= den <= 0x4000_0000,
                    ;
                    lemma_div_magnitude(hi * den, num as int);
                    lemma_div_magnitude(-(lo * den), num as int);
                    lemma_count_nonnegative(lo as int, hi as int, num as int, den as int);
                }
                let last = (hi as i128 * den).checked_div_euclid(num).unwrap();
                let first = -((-(lo as i128 * den)).checked_div_euclid(num).unwrap());
                let count = (last - first + 1) as usize;
                TickLayout { axis_len, num, den, decimals, first, count }
            },
        };
        self.layout = Some(l);
    }

    fn len(&self) -> (r: usize) {
        proof {
            use_type_invariant(self);
            use_type_invariant(&self.interval);
        }
        self.layout.unwrap().count
    }

    fn get(&self, idx: usize) -> (r: Option<Tick>) {
        proof {
            use_type_invariant(self);
            use_type_invariant(&self.interval);
        }
        let l = self.layout.unwrap();
        if idx >= l.count {
            return None;
        }
        let lo = self.interval.min() as i128;
        let hi = self.interval.max() as i128;
        let ghost t = target_ticks(l.axis_len as int);
        let ghost (m, e) = nice_spacing(lo as int, hi as int, t);
        proof {
            assert(t >= 2);
            assert(layout_matches(lo as int, hi as int, l));
            assert(l.num == spacing_num(m, e));
            assert(l.den == spacing_den(e));
            assert(l.count == tick_count(lo as int, hi as int, m, e));
            lemma_spacing_positive(m, e);
            lemma_tick_value_bounds(lo as int, hi as int, m, e, idx as int);
            assert(hi * l.den - lo * l.den == (hi - lo) * l.den) by (nonlinear_arith);
            assert(0 <= (l.first + idx) * l.num - lo * l.den <= (hi - lo) * l.den);
            assert((hi - lo) * l.den <= 0x1_0000_0000_0000_0000 * 0x4000_0000) by (nonlinear_arith)
                requires
                    0 < hi - lo <= 0x1_0000_0000_0000_0000,
                    1 <= l.den <= 0x4000_0000,
            ;
            assert(-0x8000_0000_0000_0000 * 0x4000_0000 <= lo * l.den <= 0x8000_0000_0000_0000 * 0x4000_0000) by (nonlinear_arith)
                requires
                    -0x8000_0000_0000_0000 <= lo <= 0x8000_0000_0000_0000,
                    1 <= l.den <= 0x4000_0000,
            ;
            assert(((l.first + idx) * l.num - lo * l.den) * l.axis_len <= (0x1_0000_0000_0000_0000 * 0x4000_0000) * 0x1_0000_0000) by (nonlinear_arith)
                requires
                    0 <= (l.first + idx) * l.num - lo * l.den <= 0x1_0000_0000_0000_0000 * 0x4000_0000,
                    0 <= l.axis_len <= 0x1_0000_0000,
            ;
            assert(l.den * (hi - lo) == (hi - lo) * l.den) by (nonlinear_arith);
            assert(0 <= ((l.first + idx) * l.num - lo * l.den) * l.axis_len) by (nonlinear_arith)
                requires
                    0 <= (l.first + idx) * l.num - lo * l.den,
                    0 <= l.axis_len,
            ;
            assert(0 < (hi - lo) * l.den) by (nonlinear_arith)
                requires
                    0 < hi - lo,
                    1 <= l.den,
            ;
            lemma_scaled_on_axis(
                (l.first + idx) * l.num - lo * l.den,
                (hi - lo) * l.den,
                l.axis_len as int,
            );
        }
        let v = (l.first + idx as i128) * l.num;
        let pos = ((v - lo * l.den) * l.axis_len as i128).checked_div_euclid(l.den * (hi - lo)).unwrap();
        Some(Tick { pos: pos as i64, label: decimal_value_text(v, l.decimals) })
    }
}

} // verus!
