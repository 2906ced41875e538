use vstd::prelude::*;

use crate::interval::Interval;
use crate::text::{int_text, integer_text, LabelText};
use crate::ticker::{Tick, Ticker};

verus! {

/// The discrete analogue of [`Interval`]: a finite, ordered list of items to mark on an axis.
pub trait Sequence {
    type Item;

    /// The number of items.
    spec fn spec_len(&self) -> nat;

    /// Whether `get(idx)` returns an item.
    spec fn has_item(&self, idx: int) -> bool;

    /// `v` is the item at `idx`.
    spec fn is_item(&self, idx: int, v: Self::Item) -> bool;

    /// The text shown for the item at `idx`.
    spec fn item_text(&self, idx: int) -> Seq<char>;

    /// The number of items in the sequence.
    fn len(&self) -> (r: usize)
        ensures
            r == self.spec_len(),
    ;

    /// The item at `idx`.
    fn get(&self, idx: usize) -> (r: Option<Self::Item>)
        ensures
            r.is_some() == self.has_item(idx as int),
            r.is_some() ==> self.is_item(idx as int, r.unwrap()),
            idx < self.spec_len() ==> r.is_some(),
    ;

    /// The text shown for the item at `idx`.
    fn label(&self, idx: usize) -> (r: String)
        requires
            idx < self.spec_len(),
        ensures
            r@ == self.item_text(idx as int),
    ;
}

/// An arithmetic progression `min, min + step, min + 2 step, ...` that stays within an interval.
///
/// Its length is the width of the interval over the step, rounded down; `get` and `iter` also
/// yield the value at that index, the last one in the interval.
#[derive(Clone, Copy, Debug)]
pub struct Numeric {
    interval: Interval,
    step: i64,
}

impl Numeric {
    /// The interval.
    pub closed spec fn spec_interval(self) -> Interval {
        self.interval
    }

    /// The step between items.
    pub closed spec fn spec_step(self) -> int {
        self.step as int
    }

    #[verifier::type_invariant]
    spec fn step_positive(self) -> bool {
        &&& self.step > 0
        &&& (self.interval.hi() - self.interval.lo()) / (self.step as int) <= usize::MAX
    }

    /// The `idx`-th value of the progression, whether or not it lies in the interval.
    pub open spec fn value_at(self, idx: int) -> int {
        self.spec_interval().lo() + idx * self.spec_step()
    }

    /// Constructs a numeric sequence over `interval` with the given step.
    pub fn from_interval_step(interval: Interval, step: i64) -> (r: Self)
        requires
            step > 0,
            (interval.hi() - interval.lo()) / (step as int) <= usize::MAX,
        ensures
            r.spec_interval() == interval,
            r.spec_step() == step,
    {
        Numeric { interval, step }
    }

    /// Constructs a numeric sequence from `min` to `max` with the given step.
    pub fn new(min: i64, max: i64, step: i64) -> (r: Self)
        requires
            min < max,
            step > 0,
            (max - min) / (step as int) <= usize::MAX,
        ensures
            r.spec_interval().lo() == min,
            r.spec_interval().hi() == max,
            r.spec_step() == step,
    {
        Self::from_interval_step(Interval::new(min, max), step)
    }

    /// The interval of this sequence.
    pub fn interval(&self) -> (r: Interval)
        ensures
            r == self.spec_interval(),
    {
        self.interval
    }

    /// The first value.
    pub fn min(&self) -> (r: i64)
        ensures
            r == self.spec_interval().lo(),
    {
        self.interval.min()
    }

    /// The last value: the largest of the progression that is at most the interval's max. It
    /// differs from the interval's max when the width is not a multiple of the step.
    pub fn max(&self) -> (r: i64)
        ensures
            r == self.value_at((self.spec_interval().hi() - self.spec_interval().lo()) / self.spec_step()),
            r <= self.spec_interval().hi(),
    {
        proof {
            use_type_invariant(self);
            use_type_invariant(&self.interval);
        }
        let n = self.len();
        proof {
            self.lemma_value_in_range(n as int);
        }
        (self.interval.min() as i128 + n as i128 * self.step as i128) as i64
    }

    /// The step between values.
    pub fn step(&self) -> (r: i64)
        ensures
            r == self.spec_step(),
    {
        self.step
    }

    /// An iterator over the values, from the first to the last.
    pub fn iter(&self) -> (r: NumericIter)
        ensures
            r.sequence() == *self,
            r.next_value() == self.spec_interval().lo(),
    {
        proof {
            use_type_invariant(self);
            use_type_invariant(&self.interval);
        }
        NumericIter { inner: *self, next: self.interval.min() as i128 }
    }

    proof fn lemma_value_in_range(self, idx: int)
        requires
            self.spec_step() > 0,
            self.spec_interval().valid(),
            0 <= idx <= (self.spec_interval().hi() - self.spec_interval().lo()) / self.spec_step(),
        ensures
            self.spec_interval().lo() <= self.value_at(idx) <= self.spec_interval().hi(),
    {
        let lo = self.spec_interval().lo();
        let size = self.spec_interval().hi() - lo;
        let s = self.spec_step();
        vstd::arithmetic::div_mod::lemma_fundamental_div_mod(size, s);
        vstd::arithmetic::div_mod::lemma_mod_bound(size, s);
        assert(0 <= idx * s <= s * (size / s)) by (nonlinear_arith)
            requires
                0 <= idx <= size / s,
                s > 0,
        ;
    }
}

impl Sequence for Numeric {
    type Item = i64;

    open spec fn spec_len(&self) -> nat {
        ((self.spec_interval().hi() - self.spec_interval().lo()) / self.spec_step()) as nat
    }

    open spec fn has_item(&self, idx: int) -> bool {
        self.value_at(idx) <= self.spec_interval().hi()
    }

    open spec fn is_item(&self, idx: int, v: i64) -> bool {
        v == self.value_at(idx)
    }

    open spec fn item_text(&self, idx: int) -> Seq<char> {
        int_text(self.value_at(idx))
    }

    fn len(&self) -> (r: usize) {
        proof {
            use_type_invariant(self);
            use_type_invariant(&self.interval);
        }
        let size = self.interval.size();
        (size / self.step as u64) as usize
    }

    fn get(&self, idx: usize) -> (r: Option<i64>) {
        proof {
            use_type_invariant(self);
            use_type_invariant(&self.interval);
        }
        let min = self.interval.min() as i128;
        let max = self.interval.max() as i128;
        proof {
            if idx < self.spec_len() {
                self.lemma_value_in_range(idx as int);
            }
        }
        match (idx as i128).checked_mul(self.step as i128) {
            None => None,
            Some(p) => match min.checked_add(p) {
                None => None,
                Some(v) => {
                    if v > max {
                        None
                    } else {
                        proof {
                            assert(p >= 0) by (nonlinear_arith)
                                requires
                                    p == idx * self.step,
                                    idx >= 0,
                                    self.step > 0,
                            ;
                            if idx < self.spec_len() {
                                self.lemma_value_in_range(idx as int);
                            }
                        }
                        Some(v as i64)
                    }
                },
            },
        }
    }

    fn label(&self, idx: usize) -> (r: String) {
        proof {
            use_type_invariant(self);
            use_type_invariant(&self.interval);
            self.lemma_value_in_range(idx as int);
        }
        let v = self.interval.min() as i128 + idx as i128 * self.step as i128;
        integer_text(v)
    }
}

/// Walks the values of a [`Numeric`] sequence.
pub struct NumericIter {
    inner: Numeric,
    next: i128,
}

impl NumericIter {
    /// The sequence walked.
    pub closed spec fn sequence(self) -> Numeric {
        self.inner
    }

    /// The value that `next` returns, if it is in the interval.
    pub closed spec fn next_value(self) -> int {
        self.next as int
    }

    #[verifier::type_invariant]
    spec fn within_walk(self) -> bool {
        &&& self.inner.spec_interval().lo() <= self.next
        &&& self.next <= self.inner.spec_interval().hi() + self.inner.spec_step()
    }

    /// The next value, or `None` once past the interval's max.
    pub fn next(&mut self) -> (r: Option<i64>)
        ensures
            final(self).sequence() == old(self).sequence(),
            old(self).next_value() > old(self).sequence().spec_interval().hi() ==> r.is_none()
                && final(self).next_value() == old(self).next_value(),
            old(self).next_value() <= old(self).sequence().spec_interval().hi() ==> r == Some(
                old(self).next_value() as i64,
            ) && final(self).next_value() == old(self).next_value() + old(
                self,
            ).sequence().spec_step(),
    {
        proof {
            use_type_invariant(&*self);
            use_type_invariant(&self.inner);
            use_type_invariant(&self.inner.interval);
        }
        if self.next > self.inner.interval.max() as i128 {
            return None;
        }
        let out = self.next;
        self.next = self.next + self.inner.step as i128;
        Some(out as i64)
    }
}

/// A list of categories.
///
/// To be used as an axis, the categories should have a [`LabelText`], and be cheap to clone.
#[derive(Clone, Debug)]
pub struct Categorical<T> {
    categories: Vec<T>,
}

impl<T> Categorical<T> {
    /// The categories.
    pub closed spec fn spec_categories(&self) -> Seq<T> {
        self.categories@
    }

    /// Creates a new list of categories.
    pub fn new(categories: Vec<T>) -> (r: Self)
        ensures
            r.spec_categories() == categories@,
    {
        Categorical { categories }
    }

    /// The categories.
    pub fn categories(&self) -> (r: &[T])
        ensures
            r@ == self.spec_categories(),
    {
        self.categories.as_slice()
    }

    /// Replaces the categories.
    pub fn set_categories(&mut self, categories: Vec<T>)
        ensures
            final(self).spec_categories() == categories@,
    {
        self.categories = categories;
    }
}

impl<T: Clone> Categorical<T> {
    /// An iterator over clones of the categories, in order.
    pub fn iter(&self) -> (r: CategoricalIter<T>)
        ensures
            r.position() == 0,
            r.items().len() == self.spec_categories().len(),
            forall|i: int|
                0 <= i < r.items().len() ==> cloned(
                    self.spec_categories()[i],
                    #[trigger] r.items()[i],
                ),
    {
        let mut inner: Vec<T> = Vec::new();
        inner.extend_from_slice(self.categories.as_slice());
        CategoricalIter { inner, idx: 0 }
    }
}

/// Walks the categories of a [`Categorical`] list.
pub struct CategoricalIter<T> {
    inner: Vec<T>,
    idx: usize,
}

impl<T: Clone> CategoricalIter<T> {
    /// The categories walked.
    pub closed spec fn items(&self) -> Seq<T> {
        self.inner@
    }

    /// The index of the category that `next` returns.
    pub closed spec fn position(&self) -> int {
        self.idx as int
    }

    /// The next category, or `None` at the end.
    pub fn next(&mut self) -> (r: Option<T>)
        ensures
            final(self).items() == old(self).items(),
            old(self).position() >= old(self).items().len() ==> r.is_none() && final(self).position()
                == old(self).position(),
            old(self).position() < old(self).items().len() ==> r.is_some() && cloned(
                old(self).items()[old(self).position()],
                r.unwrap(),
            ) && final(self).position() == old(self).position() + 1,
    {
        if self.idx >= self.inner.len() {
            return None;
        }
        let out = self.inner[self.idx].clone();
        self.idx = self.idx + 1;
        Some(out)
    }
}

impl<T: Clone + LabelText> Sequence for Categorical<T> {
    type Item = T;

    open spec fn spec_len(&self) -> nat {
        self.spec_categories().len()
    }

    open spec fn has_item(&self, idx: int) -> bool {
        0 <= idx < self.spec_categories().len()
    }

    open spec fn is_item(&self, idx: int, v: T) -> bool {
        cloned(self.spec_categories()[idx], v)
    }

    open spec fn item_text(&self, idx: int) -> Seq<char> {
        self.spec_categories()[idx].text()
    }

    fn len(&self) -> (r: usize) {
        self.categories.len()
    }

    fn get(&self, idx: usize) -> (r: Option<T>) {
        if idx < self.categories.len() {
            Some(self.categories[idx].clone())
        } else {
            None
        }
    }

    fn label(&self, idx: usize) -> (r: String) {
        self.categories[idx].label()
    }
}

/// Where the `idx`-th of `n` items goes when each is centred in its own equal slot of an axis of
/// length `axis_len`, rounded down.
pub open spec fn space_around_pos(idx: int, n: int, axis_len: int) -> int {
    ((2 * idx + 1) * axis_len) / (2 * n)
}

/// Where the `idx`-th of `n` items goes when the first is at the start of an axis of length
/// `axis_len`, the last at its end, and the gaps are equal, rounded down.
pub open spec fn space_between_pos(idx: int, n: int, axis_len: int) -> int {
    (idx * axis_len) / (if n > 1 { n - 1 } else { 1 })
}

pub(crate) proof fn lemma_scaled_on_axis(a: int, b: int, axis_len: int)
    requires
        0 <= a <= b,
        b > 0,
        axis_len >= 0,
    ensures
        0 <= (a * axis_len) / b <= axis_len,
{
    assert(0 <= a * axis_len <= b * axis_len) by (nonlinear_arith)
        requires
            0 <= a <= b,
            axis_len >= 0,
    ;
    vstd::arithmetic::div_mod::lemma_div_is_ordered(a * axis_len, b * axis_len, b);
    vstd::arithmetic::div_mod::lemma_div_multiples_vanish(axis_len, b);
    vstd::arithmetic::div_mod::lemma_div_pos_is_pos(a * axis_len, b);
    assert(b * axis_len == axis_len * b) by (nonlinear_arith);
}

/// Places each item of a sequence in the middle of its own equal slot along the axis.
#[derive(Debug)]
pub struct SpaceAroundTicker<S> {
    sequence: S,
    axis_len: Option<u32>,
}

impl<S: Sequence> SpaceAroundTicker<S> {
    /// The sequence of items.
    pub closed spec fn spec_sequence(&self) -> S {
        self.sequence
    }

    /// Wraps `sequence`.
    pub fn new(sequence: S) -> (r: Self)
        ensures
            r.spec_sequence() == sequence,
            !r.is_laid_out(),
    {
        SpaceAroundTicker { sequence, axis_len: None }
    }
}

impl<S: Sequence> Ticker for SpaceAroundTicker<S> {
    closed spec fn is_laid_out(&self) -> bool {
        self.axis_len.is_some()
    }

    closed spec fn laid_out_len(&self) -> int {
        self.axis_len.unwrap() as int
    }

    open spec fn ticks_for(&self, axis_len: int) -> Seq<(int, Seq<char>)> {
        let s = self.spec_sequence();
        Seq::new(
            s.spec_len(),
            |i: int| (space_around_pos(i, s.spec_len() as int, axis_len), s.item_text(i)),
        )
    }

    proof fn lemma_ticks_on_axis(&self, axis_len: int) {
        let n = self.spec_sequence().spec_len() as int;
        assert forall|i: int| 0 <= i < n implies 0 <= #[trigger] space_around_pos(i, n, axis_len) <= axis_len by {
            lemma_scaled_on_axis(2 * i + 1, 2 * n, axis_len);
        }
    }

    fn layout(&mut self, axis_len: u32) {
        self.axis_len = Some(axis_len);
    }

    fn len(&self) -> (r: usize) {
        self.sequence.len()
    }

    fn get(&self, idx: usize) -> (r: Option<Tick>) {
        let n = self.sequence.len();
        if idx >= n {
            return None;
        }
        let axis_len = self.axis_len.unwrap();
        proof {
            lemma_scaled_on_axis(2 * idx + 1, 2 * n, axis_len as int);
        }
        proof {
            assert((2 * idx + 1) * axis_len <= 0x3_0000_0000_0000_0000 * 0x1_0000_0000) by (nonlinear_arith)
                requires
                    idx <= u64::MAX,
                    axis_len <= u32::MAX,
            ;
        }
        let pos = ((2 * idx as u128 + 1) * axis_len as u128) / (2 * n as u128);
        Some(Tick { pos: pos as i64, label: self.sequence.label(idx) })
    }
}

/// Places the items of a sequence so that the first is at the start of the axis, the last at
/// its end, and the gaps between them are equal.
#[derive(Debug)]
pub struct SpaceBetweenTicker<S> {
    sequence: S,
    axis_len: Option<u32>,
}

impl<S: Sequence> SpaceBetweenTicker<S> {
    /// The sequence of items.
    pub closed spec fn spec_sequence(&self) -> S {
        self.sequence
    }

    /// Wraps `sequence`.
    pub fn new(sequence: S) -> (r: Self)
        ensures
            r.spec_sequence() == sequence,
            !r.is_laid_out(),
    {
        SpaceBetweenTicker { sequence, axis_len: None }
    }
}

impl<S: Sequence> Ticker for SpaceBetweenTicker<S> {
    closed spec fn is_laid_out(&self) -> bool {
        self.axis_len.is_some()
    }

    closed spec fn laid_out_len(&self) -> int {
        self.axis_len.unwrap() as int
    }

    open spec fn ticks_for(&self, axis_len: int) -> Seq<(int, Seq<char>)> {
        let s = self.spec_sequence();
        Seq::new(
            s.spec_len(),
            |i: int| (space_between_pos(i, s.spec_len() as int, axis_len), s.item_text(i)),
        )
    }

    proof fn lemma_ticks_on_axis(&self, axis_len: int) {
        let n = self.spec_sequence().spec_len() as int;
        assert forall|i: int| 0 <= i < n implies 0 <= #[trigger] space_between_pos(i, n, axis_len) <= axis_len by {
            lemma_scaled_on_axis(i, if n > 1 { n - 1 } else { 1 }, axis_len);
        }
    }

    fn layout(&mut self, axis_len: u32) {
        self.axis_len = Some(axis_len);
    }

    fn len(&self) -> (r: usize) {
        self.sequence.len()
    }

    fn get(&self, idx: usize) -> (r: Option<Tick>) {
        let n = self.sequence.len();
        if idx >= n {
            return None;
        }
        let axis_len = self.axis_len.unwrap();
        let gaps: usize = if n > 1 { n - 1 } else { 1 };
        proof {
            lemma_scaled_on_axis(idx as int, gaps as int, axis_len as int);
        }
        proof {
            assert(idx * axis_len <= 0x1_0000_0000_0000_0000 * 0x1_0000_0000) by (nonlinear_arith)
                requires
                    idx <= u64::MAX,
                    axis_len <= u32::MAX,
            ;
        }
        let pos = (idx as u128 * axis_len as u128) / (gaps as u128);
        Some(Tick { pos: pos as i64, label: self.sequence.label(idx) })
    }
}

/// Ways to turn a sequence into a ticker.
pub trait SequenceExt: Sequence + Sized {
    /// Places the items at the ends of equal slots ('space between').
    fn space_between_ticker(self) -> (r: SpaceBetweenTicker<Self>)
        ensures
            r.spec_sequence() == self,
            !r.is_laid_out(),
    ;

    /// Places the items in the middle of equal slots ('space around').
    fn space_around_ticker(self) -> (r: SpaceAroundTicker<Self>)
        ensures
            r.spec_sequence() == self,
            !r.is_laid_out(),
    ;
}

impl<S: Sequence> SequenceExt for S {
    fn space_between_ticker(self) -> (r: SpaceBetweenTicker<Self>) {
        SpaceBetweenTicker::new(self)
    }

    fn space_around_ticker(self) -> (r: SpaceAroundTicker<Self>) {
        SpaceAroundTicker::new(self)
    }
}

} // verus!
