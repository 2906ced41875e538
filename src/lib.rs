//! Axis tick generation and label fitting for 2D charts.
//!
//! Values along a continuous axis are integers in a unit that the caller picks (hundredths of a
//! metre, say). Tick spacings are exact decimals of the form 1, 2 or 5 × 10<sup>k</sup>, and
//! may be finer than one unit. Positions along an axis are integers in device units.

pub mod axis;
pub mod interval;
pub mod interval_ticker;
pub mod sequence;
pub mod spacing;
pub mod text;
pub mod ticker;

pub use crate::axis::{fit_labels, Axis, Direction, LabelPosition, LabelSize, LabelSpan};
pub use crate::interval::{calc_next_tick, calc_prev_tick, Interval};
pub use crate::interval_ticker::IntervalTicker;
pub use crate::sequence::{
    Categorical, CategoricalIter, Numeric, NumericIter, Sequence, SequenceExt, SpaceAroundTicker,
    SpaceBetweenTicker,
};
pub use crate::spacing::{calc_tick_spacing, Spacing};
pub use crate::text::LabelText;
pub use crate::ticker::{ReverseTicker, Tick, Ticker, TickerExt};
