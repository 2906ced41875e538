use vstd::prelude::*;

verus! {

/// A position on an axis that is marked and labelled.
#[derive(Clone, Debug)]
pub struct Tick {
    /// Distance along the axis, in `0..=axis_len`.
    pub pos: i64,
    /// The text to show.
    pub label: String,
}

/// A tick as a position and a label text.
pub open spec fn tick_view(t: Tick) -> (int, Seq<char>) {
    (t.pos as int, t.label@)
}

/// Takes an axis length (in device units) and yields the marks, or ticks, that divide the axis.
pub trait Ticker {
    /// Whether `layout` has been called, so that the other methods may be used.
    spec fn is_laid_out(&self) -> bool;

    /// The axis length of the last call to `layout`.
    spec fn laid_out_len(&self) -> int;

    /// The ticks, as positions and label texts, that `layout(axis_len)` yields.
    spec fn ticks_for(&self, axis_len: int) -> Seq<(int, Seq<char>)>;

    /// Every tick lies on the axis.
    proof fn lemma_ticks_on_axis(&self, axis_len: int)
        requires
            0 <= axis_len <= u32::MAX,
        ensures
            forall|i: int|
                0 <= i < self.ticks_for(axis_len).len() ==> 0 <= #[trigger] self.ticks_for(
                    axis_len,
                )[i].0 <= axis_len,
    ;

    /// Computes the state that the ticks depend on, for an axis of length `axis_len`.
    fn layout(&mut self, axis_len: u32)
        ensures
            final(self).is_laid_out(),
            final(self).laid_out_len() == axis_len,
            forall|l: int| #[trigger] final(self).ticks_for(l) == old(self).ticks_for(l),
    ;

    /// The number of ticks.
    fn len(&self) -> (r: usize)
        requires
            self.is_laid_out(),
        ensures
            r == self.ticks_for(self.laid_out_len()).len(),
    ;

    /// The tick at `idx`, or `None` when `idx` is not below `len()`.
    fn get(&self, idx: usize) -> (r: Option<Tick>)
        requires
            self.is_laid_out(),
        ensures
            idx < self.ticks_for(self.laid_out_len()).len() ==> r.is_some() && tick_view(r.unwrap())
                == self.ticks_for(self.laid_out_len())[idx as int],
            idx >= self.ticks_for(self.laid_out_len()).len() ==> r.is_none(),
    ;
}

/// `after` is `before` once `layout(axis_len)` has run: the ticks are those for `axis_len`, and
/// what they would be for any length is unchanged.
pub open spec fn laid_out_from<T: Ticker>(before: T, after: T, axis_len: int) -> bool {
    &&& after.is_laid_out()
    &&& after.laid_out_len() == axis_len
    &&& forall|l: int| #[trigger] after.ticks_for(l) == before.ticks_for(l)
}

/// The ticks of a laid-out ticker.
pub open spec fn current_ticks<T: Ticker>(t: T) -> Seq<(int, Seq<char>)> {
    t.ticks_for(t.laid_out_len())
}

/// Laying out twice with the same length leaves the same ticks as laying out once.
pub proof fn lemma_layout_idempotent<T: Ticker>(t0: T, t1: T, t2: T, axis_len: int)
    requires
        laid_out_from(t0, t1, axis_len),
        laid_out_from(t1, t2, axis_len),
    ensures
        current_ticks(t2) == current_ticks(t1),
{
    assert(t2.ticks_for(axis_len) == t1.ticks_for(axis_len));
}

/// All the ticks of a laid-out ticker, in order.
pub fn ticks<T: Ticker>(ticker: &T) -> (r: Vec<Tick>)
    requires
        ticker.is_laid_out(),
    ensures
        r@.len() == current_ticks(*ticker).len(),
        forall|i: int| 0 <= i < r@.len() ==> tick_view(#[trigger] r@[i]) == current_ticks(*ticker)[i],
{
    let n = ticker.len();
    let mut r: Vec<Tick> = Vec::new();
    let mut i: usize = 0;
    while i < n
        invariant
            ticker.is_laid_out(),
            n == current_ticks(*ticker).len(),
            i <= n,
            r@.len() == i,
            forall|k: int| 0 <= k < i ==> tick_view(#[trigger] r@[k]) == current_ticks(*ticker)[k],
        decreases n - i,
    {
        let t = ticker.get(i).unwrap();
        r.push(t);
        i = i + 1;
    }
    r
}

/// Wraps a ticker and flips its ticks end for end: a tick at `pos` moves to `axis_len - pos`.
#[derive(Debug)]
pub struct ReverseTicker<T> {
    ticker: T,
    axis_len: Option<u32>,
}

impl<T: Ticker> ReverseTicker<T> {
    /// The wrapped ticker.
    pub closed spec fn inner(&self) -> T {
        self.ticker
    }

    /// Wraps `ticker`.
    pub fn new(ticker: T) -> (r: Self)
        ensures
            r.inner() == ticker,
            !r.is_laid_out(),
    {
        ReverseTicker { ticker, axis_len: None }
    }
}

/// Ticks flipped end for end on an axis of length `axis_len`.
pub open spec fn reversed(ticks: Seq<(int, Seq<char>)>, axis_len: int) -> Seq<(int, Seq<char>)> {
    ticks.map_values(|t: (int, Seq<char>)| (axis_len - t.0, t.1))
}

impl<T: Ticker> Ticker for ReverseTicker<T> {
    closed spec fn is_laid_out(&self) -> bool {
        self.ticker.is_laid_out() && self.axis_len == Some(self.ticker.laid_out_len() as u32)
            && 0 <= self.ticker.laid_out_len() <= u32::MAX
    }

    closed spec fn laid_out_len(&self) -> int {
        self.ticker.laid_out_len()
    }

    open spec fn ticks_for(&self, axis_len: int) -> Seq<(int, Seq<char>)> {
        reversed(self.inner().ticks_for(axis_len), axis_len)
    }

    proof fn lemma_ticks_on_axis(&self, axis_len: int) {
        self.ticker.lemma_ticks_on_axis(axis_len);
    }

    fn layout(&mut self, axis_len: u32) {
        self.ticker.layout(axis_len);
        self.axis_len = Some(axis_len);
    }

    fn len(&self) -> (r: usize) {
        self.ticker.len()
    }

    fn get(&self, idx: usize) -> (r: Option<Tick>) {
        let tick = self.ticker.get(idx);
        match tick {
            None => None,
            Some(tick) => {
                let axis_len = self.axis_len.unwrap();
                proof {
                    let l = self.ticker.laid_out_len();
                    self.ticker.lemma_ticks_on_axis(l);
                    assert(idx < self.ticker.ticks_for(l).len());
                    assert(0 <= self.ticker.ticks_for(l)[idx as int].0 <= l);
                }
                Some(Tick { pos: axis_len as i64 - tick.pos, label: tick.label })
            },
        }
    }
}

/// Reversing a reversed ticker gives back the wrapped ticker's ticks, positions and labels alike.
pub proof fn lemma_reverse_twice<T: Ticker>(t: ReverseTicker<ReverseTicker<T>>, axis_len: int)
    ensures
        t.ticks_for(axis_len) == t.inner().inner().ticks_for(axis_len),
{
    let orig = t.inner().inner().ticks_for(axis_len);
    assert(t.ticks_for(axis_len) =~= orig);
}

/// Extension methods for tickers.
pub trait TickerExt: Ticker + Sized {
    /// Flips the ticks end for end.
    fn reverse(self) -> (r: ReverseTicker<Self>)
        ensures
            r.inner() == self,
            !r.is_laid_out(),
    ;
}

impl<T: Ticker> TickerExt for T {
    fn reverse(self) -> (r: ReverseTicker<Self>) {
        ReverseTicker::new(self)
    }
}

} // verus!
