use vstd::prelude::*;

use crate::ticker::{current_ticks, ticks, Tick, Ticker};

verus! {

/// Axes are drawn either horizontally or vertically.
///
/// To reverse the direction of an axis, reverse its ticker.
#[derive(Clone, Copy, Debug, PartialEq, Eq, Structural)]
pub enum Direction {
    Horizontal,
    Vertical,
}

/// Where an axis's labels are drawn, relative to the axis line.
#[derive(Clone, Copy, Debug, PartialEq, Eq, Structural)]
pub enum LabelPosition {
    /// above or to the left
    Before,
    /// below or to the right
    After,
}

/// The measured size of a label's text.
#[derive(Clone, Copy, Debug, PartialEq, Eq, Structural)]
pub struct LabelSize {
    pub width: u32,
    pub height: u32,
}

/// A label to fit on an axis: the position of its tick along the axis, and its size.
#[derive(Clone, Copy, Debug, PartialEq, Eq, Structural)]
pub struct LabelSpan {
    pub pos: i64,
    pub size: LabelSize,
}

/// The extent of a label along an axis of the given direction.
pub open spec fn extent(direction: Direction, l: LabelSpan) -> int {
    match direction {
        Direction::Horizontal => l.size.width as int,
        Direction::Vertical => l.size.height as int,
    }
}

/// Two labels, each centred on its tick, overlap along the axis, touching included. In half
/// units, a label covers `[2 pos - extent, 2 pos + extent]`.
pub open spec fn overlaps(direction: Direction, a: LabelSpan, b: LabelSpan) -> bool {
    &&& 2 * b.pos - extent(direction, b) <= 2 * a.pos + extent(direction, a)
    &&& 2 * a.pos - extent(direction, a) <= 2 * b.pos + extent(direction, b)
}

/// Every `step`-th index below `n`, from 0: `0, step, 2 step, ...`.
pub open spec fn strided(n: int, step: int) -> Seq<usize> {
    Seq::new((if n <= 0 { 0 } else { (n - 1) / step + 1 }) as nat, |i: int| (i * step) as usize)
}

/// No two labels that follow each other in `chosen` overlap.
pub open spec fn none_overlap(direction: Direction, labels: Seq<LabelSpan>, chosen: Seq<usize>) -> bool {
    forall|i: int|
        0 <= i < chosen.len() - 1 ==> !overlaps(
            direction,
            labels[#[trigger] chosen[i] as int],
            labels[chosen[i + 1] as int],
        )
}

/// Keeping every `step`-th label leaves no two overlapping.
pub open spec fn fits_with_step(direction: Direction, labels: Seq<LabelSpan>, step: int) -> bool {
    none_overlap(direction, labels, strided(labels.len() as int, step))
}

/// The largest step that `fit_labels` tries: half the number of labels, rounded up.
pub open spec fn max_step(n: int) -> int {
    (n + 1) / 2
}

/// `chosen` is what `fit_labels` keeps of `labels`: no two kept labels overlap; all are kept
/// when all fit; otherwise every `s`-th label from the first, for the least step `s` up to
/// [`max_step`] that fits, or none when no such step fits.
pub open spec fn is_fit(direction: Direction, labels: Seq<LabelSpan>, chosen: Seq<usize>) -> bool {
    &&& none_overlap(direction, labels, chosen)
    &&& forall|i: int| 0 <= i < chosen.len() ==> #[trigger] chosen[i] < labels.len()
    &&& fits_with_step(direction, labels, 1) ==> chosen.len() == labels.len() && forall|i: int|
        0 <= i < chosen.len() ==> #[trigger] chosen[i] == i
    &&& (exists|s: int|
        1 <= s <= max_step(labels.len() as int) && #[trigger] fits_with_step(direction, labels, s))
        ==> exists|s: int|
        {
            &&& 1 <= s <= max_step(labels.len() as int)
            &&& #[trigger] fits_with_step(direction, labels, s)
            &&& forall|t: int| 1 <= t < s ==> !#[trigger] fits_with_step(direction, labels, t)
            &&& chosen == strided(labels.len() as int, s)
        }
    &&& (forall|s: int|
        1 <= s <= max_step(labels.len() as int) ==> !#[trigger] fits_with_step(direction, labels, s))
        ==> chosen.len() == 0
}

/// Returns `true` if two labels that follow each other in `chosen` overlap.
fn do_layouts_overlap(direction: Direction, labels: &[LabelSpan], chosen: &Vec<usize>) -> (r: bool)
    requires
        forall|i: int| 0 <= i < chosen@.len() ==> #[trigger] chosen@[i] < labels@.len(),
    ensures
        r == !none_overlap(direction, labels@, chosen@),
{
    if chosen.len() < 2 {
        return false;
    }
    let mut i: usize = 0;
    while i < chosen.len() - 1
        invariant
            i + 1 <= chosen@.len(),
            forall|k: int| 0 <= k < chosen@.len() ==> #[trigger] chosen@[k] < labels@.len(),
            forall|k: int|
                0 <= k < i ==> !overlaps(
                    direction,
                    labels@[#[trigger] chosen@[k] as int],
                    labels@[chosen@[k + 1] as int],
                ),
        decreases chosen@.len() - i,
    {
        let a = labels[chosen[i]];
        let b = labels[chosen[i + 1]];
        let (ea, eb): (i128, i128) = match direction {
            Direction::Horizontal => (a.size.width as i128, b.size.width as i128),
            Direction::Vertical => (a.size.height as i128, b.size.height as i128),
        };
        let (pa, pb) = (a.pos as i128, b.pos as i128);
        if 2 * pb - eb <= 2 * pa + ea && 2 * pa - ea <= 2 * pb + eb {
            return true;
        }
        i = i + 1;
    }
    false
}

/// The indices `0, step, 2 step, ...` below `n`.
fn strided_indices(n: usize, step: usize) -> (r: Vec<usize>)
    requires
        step >= 1,
    ensures
        r@ == strided(n as int, step as int),
{
    let mut r: Vec<usize> = Vec::new();
    if n == 0 {
        proof {
            assert(r@ =~= strided(n as int, step as int));
        }
        return r;
    }
    let mut idx: usize = 0;
    proof {
        assert(r@.len() * step == 0) by (nonlinear_arith)
            requires
                r@.len() == 0,
        ;
    }
    loop
        invariant
            step >= 1,
            n >= 1,
            idx < n,
            idx == r@.len() * step,
            forall|k: int| 0 <= k < r@.len() ==> #[trigger] r@[k] == (k * step) as usize,
        decreases n - idx,
    {
        let ghost k = r@.len() as int;
        r.push(idx);
        if step >= n - idx {
            proof {
                vstd::arithmetic::div_mod::lemma_fundamental_div_mod_converse(
                    n - 1,
                    step as int,
                    k,
                    n - 1 - idx,
                );
                assert(r@ =~= strided(n as int, step as int));
            }
            return r;
        }
        proof {
            assert((k + 1) * step == k * step + step) by (nonlinear_arith);
        }
        idx = idx + step;
    }
}

proof fn lemma_strided_in_range(n: int, step: int)
    requires
        step >= 1,
        n <= usize::MAX,
    ensures
        forall|i: int|
            0 <= i < strided(n, step).len() ==> #[trigger] strided(n, step)[i] < n
                && strided(n, step)[i] == i * step,
{
    assert forall|i: int| 0 <= i < strided(n, step).len() implies #[trigger] strided(n, step)[i] < n
        && strided(n, step)[i] == i * step by {
        vstd::arithmetic::div_mod::lemma_fundamental_div_mod(n - 1, step);
        vstd::arithmetic::div_mod::lemma_mod_bound(n - 1, step);
        assert(i * step <= step * ((n - 1) / step)) by (nonlinear_arith)
            requires
                0 <= i <= (n - 1) / step,
                step >= 1,
        ;
    }
}

/// Chooses the labels to draw: every `step`-th label from the first, for the least `step` in
/// `1..=ceil(n/2)` at which no two kept labels overlap, or none when no such step exists.
///
/// The kept labels always start at index 0, so when `n` is not a multiple of the step the gap
/// left at the far end of the axis may differ from the others.
pub fn fit_labels(direction: Direction, labels: &[LabelSpan]) -> (r: Vec<usize>)
    ensures
        is_fit(direction, labels@, r@),
{
    let n = labels.len();
    let half = n / 2 + n % 2;
    let mut step: usize = 1;
    while step <= half
        invariant
            n == labels@.len(),
            half == max_step(n as int),
            1 <= step <= half + 1,
            forall|t: int| 1 <= t < step ==> !#[trigger] fits_with_step(direction, labels@, t),
        decreases half + 1 - step,
    {
        let chosen = strided_indices(n, step);
        proof {
            lemma_strided_in_range(n as int, step as int);
        }
        if !do_layouts_overlap(direction, labels, &chosen) {
            proof {
                assert(fits_with_step(direction, labels@, step as int));
                if step == 1 {
                    assert forall|i: int| 0 <= i < chosen@.len() implies #[trigger] chosen@[i] == i by {
                        assert(i * 1 == i);
                    }
                    assert(chosen@.len() == n) by {
                        vstd::arithmetic::div_mod::lemma_div_basics((n - 1) as int);
                    }
                }
            }
            return chosen;
        }
        step = step + 1;
    }
    Vec::new()
}

/// Space between an axis line and its labels, in device units.
pub const MARGIN: u32 = 8;

/// The font size that axis labels are measured and drawn at.
pub const DEFAULT_LABEL_FONT_SIZE: u32 = 16;

/// Where the top-left corner of a label goes, relative to the axis's own area, when the widest
/// label is `widest` wide. Horizontal labels are centred on their tick; vertical ones are
/// centred on it across, and right-aligned before the line or left-aligned after it.
pub open spec fn label_origin(
    direction: Direction,
    label_pos: LabelPosition,
    widest: int,
    l: LabelSpan,
) -> (int, int) {
    match direction {
        Direction::Horizontal => (
            l.pos - l.size.width / 2,
            match label_pos {
                LabelPosition::Before => 0,
                LabelPosition::After => MARGIN as int,
            },
        ),
        Direction::Vertical => (
            match label_pos {
                LabelPosition::Before => widest - l.size.width,
                LabelPosition::After => MARGIN as int,
            },
            l.pos - l.size.height / 2,
        ),
    }
}

/// The largest width among the labels at `chosen`, or 0.
pub open spec fn max_width(labels: Seq<LabelSpan>, chosen: Seq<usize>) -> int
    decreases chosen.len(),
{
    if chosen.len() == 0 {
        0
    } else {
        let m = max_width(labels, chosen.drop_last());
        let w = labels[chosen.last() as int].size.width as int;
        if w > m {
            w
        } else {
            m
        }
    }
}

/// The largest height among the labels at `chosen`, or 0.
pub open spec fn max_height(labels: Seq<LabelSpan>, chosen: Seq<usize>) -> int
    decreases chosen.len(),
{
    if chosen.len() == 0 {
        0
    } else {
        let m = max_height(labels, chosen.drop_last());
        let h = labels[chosen.last() as int].size.height as int;
        if h > m {
            h
        } else {
            m
        }
    }
}

/// Every index below `n`, in order.
pub open spec fn all_indices(n: int) -> Seq<usize> {
    Seq::new(n as nat, |i: int| i as usize)
}

/// The labels of `ticks`, at the tick positions, with the measured `sizes`.
pub open spec fn spans_of(ticks: Seq<(int, Seq<char>)>, sizes: Seq<LabelSize>) -> Seq<LabelSpan> {
    Seq::new(ticks.len(), |i: int| LabelSpan { pos: ticks[i].0 as i64, size: sizes[i] })
}

/// What an axis keeps from its last layout.
#[derive(Debug)]
struct AxisLayout {
    axis_len: u32,
    labels: Vec<LabelSpan>,
    to_draw: Vec<usize>,
    widest: u32,
}

/// Everything needed to draw an axis with its ticks and labels.
///
/// `layout_ticks`, then `layout_labels` with the measured size of each tick's label, must be
/// called before the layout is read, and again whenever the axis length, the ticker or the font
/// changes.
#[derive(Debug)]
pub struct Axis<T: Ticker> {
    direction: Direction,
    label_pos: LabelPosition,
    ticker: T,
    label_font_size: u32,
    /// The length that the ticker was last laid out for, if it was.
    ticks_len: Option<u32>,
    layout: Option<AxisLayout>,
}

impl<T: Ticker> Axis<T> {
    /// The direction of the axis.
    pub closed spec fn spec_direction(&self) -> Direction {
        self.direction
    }

    /// The side of the line that the labels are on.
    pub closed spec fn spec_label_pos(&self) -> LabelPosition {
        self.label_pos
    }

    /// The ticker.
    pub closed spec fn spec_ticker(&self) -> T {
        self.ticker
    }

    /// Whether the labels have been laid out.
    pub closed spec fn is_laid_out(&self) -> bool {
        self.layout.is_some()
    }

    /// Whether the ticks have been laid out, so that the labels can be.
    pub closed spec fn ticks_ready(&self) -> bool {
        self.ticks_len.is_some()
    }

    /// The axis length of the last layout.
    pub closed spec fn spec_axis_len(&self) -> int {
        self.layout.unwrap().axis_len as int
    }

    /// The labels of the last layout, one per tick.
    pub closed spec fn spec_labels(&self) -> Seq<LabelSpan> {
        self.layout.unwrap().labels@
    }

    /// The indices of the labels to draw.
    pub closed spec fn spec_to_draw(&self) -> Seq<usize> {
        self.layout.unwrap().to_draw@
    }

    /// The kept layout agrees with the ticker and with the labels.
    pub closed spec fn wf(&self) -> bool {
        &&& self.ticks_len matches Some(l) ==> self.ticker.is_laid_out() && self.ticker.laid_out_len() == l
        &&& match self.layout {
            None => true,
            Some(l) => {
                &&& is_fit(self.direction, l.labels@, l.to_draw@)
                &&& l.widest == max_width(l.labels@, all_indices(l.labels@.len() as int))
                &&& forall|k: int| 0 <= k < l.labels@.len() ==> 0 <= #[trigger] l.labels@[k].pos <= l.axis_len
            },
        }
    }

    /// Creates an axis.
    pub fn new(direction: Direction, label_pos: LabelPosition, ticker: T) -> (r: Self)
        ensures
            r.spec_direction() == direction,
            r.spec_label_pos() == label_pos,
            r.spec_ticker() == ticker,
            r.spec_label_font_size() == DEFAULT_LABEL_FONT_SIZE,
            r.wf(),
            !r.is_laid_out(),
            !r.ticks_ready(),
    {
        Axis {
            direction,
            label_pos,
            ticker,
            label_font_size: DEFAULT_LABEL_FONT_SIZE,
            ticks_len: None,
            layout: None,
        }
    }

    /// The direction of the axis.
    pub fn direction(&self) -> (r: Direction)
        ensures
            r == self.spec_direction(),
    {
        self.direction
    }

    /// The side of the axis line that the labels are on.
    pub fn label_pos(&self) -> (r: LabelPosition)
        ensures
            r == self.spec_label_pos(),
    {
        self.label_pos
    }

    /// The ticker.
    pub fn ticker(&self) -> (r: &T)
        ensures
            *r == self.spec_ticker(),
    {
        &self.ticker
    }

    /// Replaces the ticker; the axis must be laid out again.
    pub fn set_ticker(&mut self, new_ticker: T)
        ensures
            final(self).wf(),
            final(self).spec_ticker() == new_ticker,
            final(self).spec_direction() == old(self).spec_direction(),
            final(self).spec_label_pos() == old(self).spec_label_pos(),
            !final(self).is_laid_out(),
            !final(self).ticks_ready(),
    {
        self.ticker = new_ticker;
        self.ticks_len = None;
        self.layout = None;
    }

    /// The font size of the labels.
    pub closed spec fn spec_label_font_size(&self) -> int {
        self.label_font_size as int
    }

    /// The font size that labels are measured and drawn at.
    pub fn label_font_size(&self) -> (r: u32)
        ensures
            r == self.spec_label_font_size(),
    {
        self.label_font_size
    }

    /// Lays out the ticker for an axis of length `axis_len`, and returns its ticks, whose labels
    /// are then to be measured and handed to `layout_labels`.
    pub fn layout_ticks(&mut self, axis_len: u32) -> (r: Vec<Tick>)
        requires
            old(self).wf(),
        ensures
            final(self).wf(),
            final(self).spec_ticker().is_laid_out(),
            final(self).spec_ticker().laid_out_len() == axis_len,
            forall|l: int| #[trigger] final(self).spec_ticker().ticks_for(l) == old(self).spec_ticker().ticks_for(l),
            final(self).spec_direction() == old(self).spec_direction(),
            final(self).spec_label_pos() == old(self).spec_label_pos(),
            final(self).spec_label_font_size() == old(self).spec_label_font_size(),
            !final(self).is_laid_out(),
            final(self).ticks_ready(),
            r@.len() == current_ticks(final(self).spec_ticker()).len(),
            forall|i: int|
                0 <= i < r@.len() ==> crate::ticker::tick_view(#[trigger] r@[i]) == current_ticks(
                    final(self).spec_ticker(),
                )[i],
    {
        self.layout = None;
        self.ticks_len = None;
        self.ticker.layout(axis_len);
        self.ticks_len = Some(axis_len);
        ticks(&self.ticker)
    }

    /// Lays out the labels, given the measured size of each tick's label, and chooses which to
    /// draw with [`fit_labels`].
    pub fn layout_labels(&mut self, sizes: &[LabelSize])
        requires
            old(self).wf(),
            old(self).ticks_ready(),
            sizes@.len() == current_ticks(old(self).spec_ticker()).len(),
        ensures
            final(self).spec_ticker() == old(self).spec_ticker(),
            final(self).spec_direction() == old(self).spec_direction(),
            final(self).spec_label_pos() == old(self).spec_label_pos(),
            final(self).spec_label_font_size() == old(self).spec_label_font_size(),
            final(self).wf(),
            final(self).is_laid_out(),
            final(self).ticks_ready(),
            final(self).spec_axis_len() == old(self).spec_ticker().laid_out_len(),
            final(self).spec_labels() == spans_of(current_ticks(old(self).spec_ticker()), sizes@),
            is_fit(final(self).spec_direction(), final(self).spec_labels(), final(self).spec_to_draw()),
    {
        let axis_len = self.ticks_len.unwrap();
        let ticks = ticks(&self.ticker);
        let n = ticks.len();
        let mut labels: Vec<LabelSpan> = Vec::new();
        let mut i: usize = 0;
        while i < n
            invariant
                n == ticks@.len(),
                n == sizes@.len(),
                0 <= i <= n,
                labels@.len() == i,
                forall|k: int|
                    0 <= k < i ==> #[trigger] labels@[k] == (LabelSpan {
                        pos: ticks@[k].pos,
                        size: sizes@[k],
                    }),
            decreases n - i,
        {
            labels.push(LabelSpan { pos: ticks[i].pos, size: sizes[i] });
            i = i + 1;
        }
        proof {
            assert(labels@ =~= spans_of(current_ticks(self.ticker), sizes@));
            self.ticker.lemma_ticks_on_axis(axis_len as int);
        }
        let mut widest: u32 = 0;
        let mut j: usize = 0;
        while j < n
            invariant
                n == labels@.len(),
                0 <= j <= n,
                widest == max_width(labels@, all_indices(j as int)),
            decreases n - j,
        {
            proof {
                assert(all_indices(j + 1).drop_last() =~= all_indices(j as int));
            }
            if labels[j].size.width > widest {
                widest = labels[j].size.width;
            }
            j = j + 1;
        }
        let to_draw = fit_labels(self.direction, labels.as_slice());
        self.layout = Some(AxisLayout { axis_len, labels, to_draw, widest });
    }

    /// Whether the labels have been laid out since the axis was made or its ticker replaced.
    pub fn has_layout(&self) -> (r: bool)
        ensures
            r == self.is_laid_out(),
    {
        self.layout.is_some()
    }

    /// Whether the ticks have been laid out, so that `layout_labels` may be called.
    pub fn has_ticks(&self) -> (r: bool)
        ensures
            r == self.ticks_ready(),
    {
        self.ticks_len.is_some()
    }

    /// The indices of the labels to draw.
    pub fn labels_to_draw(&self) -> (r: Vec<usize>)
        requires
            self.wf(),
            self.is_laid_out(),
        ensures
            r@ == self.spec_to_draw(),
    {
        let l = self.layout.as_ref().unwrap();
        let mut r: Vec<usize> = Vec::new();
        let mut i: usize = 0;
        while i < l.to_draw.len()
            invariant
                0 <= i <= l.to_draw@.len(),
                r@ == l.to_draw@.take(i as int),
            decreases l.to_draw@.len() - i,
        {
            r.push(l.to_draw[i]);
            i = i + 1;
            proof {
                assert(r@ =~= l.to_draw@.take(i as int));
            }
        }
        proof {
            assert(r@ =~= l.to_draw@);
        }
        r
    }

    /// Where the top-left corner of the label at `idx` goes, relative to the axis's own area.
    pub fn label_origin(&self, idx: usize) -> (r: (i64, i64))
        requires
            self.wf(),
            self.is_laid_out(),
            idx < self.spec_labels().len(),
        ensures
            (r.0 as int, r.1 as int) == label_origin(
                self.spec_direction(),
                self.spec_label_pos(),
                max_width(self.spec_labels(), all_indices(self.spec_labels().len() as int)),
                self.spec_labels()[idx as int],
            ),
    {
        let l = self.layout.as_ref().unwrap();
        let span = l.labels[idx];
        match self.direction {
            Direction::Horizontal => {
                let y: i64 = match self.label_pos {
                    LabelPosition::Before => 0,
                    LabelPosition::After => MARGIN as i64,
                };
                (span.pos - (span.size.width / 2) as i64, y)
            },
            Direction::Vertical => {
                let x: i64 = match self.label_pos {
                    LabelPosition::Before => l.widest as i64 - span.size.width as i64,
                    LabelPosition::After => MARGIN as i64,
                };
                (x, span.pos - (span.size.height / 2) as i64)
            },
        }
    }

    /// The size of the axis's own area, as `(width, height)`: the axis length along it, and the
    /// largest drawn label plus [`MARGIN`] across it.
    pub fn size(&self) -> (r: (u64, u64))
        requires
            self.wf(),
            self.is_laid_out(),
        ensures
            self.spec_direction() == Direction::Horizontal ==> r == (
                self.spec_axis_len() as u64,
                (max_height(self.spec_labels(), self.spec_to_draw()) + MARGIN) as u64,
            ),
            self.spec_direction() == Direction::Vertical ==> r == (
                (max_width(self.spec_labels(), self.spec_to_draw()) + MARGIN) as u64,
                self.spec_axis_len() as u64,
            ),
    {
        let l = self.layout.as_ref().unwrap();
        let mut width: u32 = 0;
        let mut height: u32 = 0;
        let mut i: usize = 0;
        while i < l.to_draw.len()
            invariant
                0 <= i <= l.to_draw@.len(),
                forall|k: int| 0 <= k < l.to_draw@.len() ==> #[trigger] l.to_draw@[k] < l.labels@.len(),
                width == max_width(l.labels@, l.to_draw@.take(i as int)),
                height == max_height(l.labels@, l.to_draw@.take(i as int)),
            decreases l.to_draw@.len() - i,
        {
            proof {
                assert(l.to_draw@.take(i + 1).drop_last() =~= l.to_draw@.take(i as int));
            }
            let label = l.labels[l.to_draw[i]];
            if label.size.width > width {
                width = label.size.width;
            }
            if label.size.height > height {
                height = label.size.height;
            }
            i = i + 1;
        }
        proof {
            assert(l.to_draw@.take(l.to_draw@.len() as int) =~= l.to_draw@);
        }
        match self.direction {
            Direction::Horizontal => (l.axis_len as u64, height as u64 + MARGIN as u64),
            Direction::Vertical => (width as u64 + MARGIN as u64, l.axis_len as u64),
        }
    }
}

} // verus!
