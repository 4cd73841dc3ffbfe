//! Activity counts on a discretised space-time grid.
//!
//! Point events, already quantised to grid cells, are fed one at a time into
//! an accumulator. Each event opens a forward window of hourly cells at its
//! own place, and closes the raster-order span of cells that lies between
//! the previous event and itself.
//!
//! * [`grid`] is the mathematical model of the grid: cells with unbounded
//!   coordinates, the order on them, the two ways of advancing a cell, the
//!   finite sequences of cells that lie between two cells, and the laws that
//!   hold of them.
//! * [`tally`] is the mathematical model of the accumulator: a count for
//!   every open cell, what one event and what a run of events does to the
//!   counts, and the balance of what was added and what was closed.
//! * [`spacetime`] holds the machine cells, the spatial boundary and the two
//!   cell generators.
//! * [`event`] holds quantised events and their time slice by the calendar.
//! * [`feature`] holds the windowed accumulator.
//!
//! Every function of the machine types states what it does in terms of the
//! two models.

pub mod event;
pub mod feature;
pub mod grid;
pub mod spacetime;
pub mod tally;
