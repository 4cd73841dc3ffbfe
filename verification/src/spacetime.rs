//! Machine cells of the space-time grid, the spatial boundary, and the two
//! generators that walk from one cell towards another.

use crate::grid::{
    cell_of_key, lemma_key_round_trip, lemma_temporal_cells_unfold, spatial_cells, temporal_cells,
    GridBounds, GridCell,
};
use std::ops::Range;
use vstd::prelude::*;

verus! {

/// Places limits on cells' spatial position: half-open ranges of columns and
/// of rows.
pub struct SpatialBoundary {
    pub along_x: Range<u16>,
    pub along_y: Range<u16>,
}

impl View for SpatialBoundary {
    type V = GridBounds;

    open spec fn view(&self) -> GridBounds {
        GridBounds {
            x_min: self.along_x.start as int,
            x_max: self.along_x.end as int,
            y_min: self.along_y.start as int,
            y_max: self.along_y.end as int,
        }
    }
}

impl SpatialBoundary {
    /// Whether column `x` lies inside the boundary.
    pub fn x_in(&self, x: u16) -> (inside: bool)
        ensures
            inside == self@.contains_x(x as int),
    {
        x >= self.along_x.start && x < self.along_x.end
    }

    /// Whether row `y` lies inside the boundary.
    pub fn y_in(&self, y: u16) -> (inside: bool)
        ensures
            inside == self@.contains_y(y as int),
    {
        y >= self.along_y.start && y < self.along_y.end
    }

    /// Whether both ranges hold at least one index.
    pub fn is_non_empty(&self) -> (ok: bool)
        ensures
            ok == self@.non_empty(),
    {
        self.along_x.start < self.along_x.end && self.along_y.start < self.along_y.end
    }
}

/// A quantized cell of space-time. Cells are ordered first by time, then by
/// row, then by column, which is the order of the fields.
#[derive(Debug, Clone, Copy, PartialEq, Eq, Structural, PartialOrd, Ord, Hash)]
pub struct SpaceTimeCell {
    /// Time slice (chronon), in hours.
    pub cell_t: u32,
    /// Raster row.
    pub cell_y: u16,
    /// Raster column.
    pub cell_x: u16,
}

impl View for SpaceTimeCell {
    type V = GridCell;

    open spec fn view(&self) -> GridCell {
        GridCell { t: self.cell_t as int, y: self.cell_y as int, x: self.cell_x as int }
    }
}

impl SpaceTimeCell {
    /// A copy of `other`.
    pub fn from_cell(other: &SpaceTimeCell) -> (cell: SpaceTimeCell)
        ensures
            cell == *other,
    {
        SpaceTimeCell { cell_x: other.cell_x, cell_y: other.cell_y, cell_t: other.cell_t }
    }

    /// Whether this cell comes strictly before `other` in the order of cells.
    pub fn precedes(&self, other: &SpaceTimeCell) -> (before: bool)
        ensures
            before == self@.precedes(other@),
    {
        self.cell_t < other.cell_t || (self.cell_t == other.cell_t && (self.cell_y < other.cell_y
            || (self.cell_y == other.cell_y && self.cell_x < other.cell_x)))
    }

    /// The cell packed into one number that orders as the cells do.
    pub fn key(&self) -> (k: u64)
        ensures
            k == self@.key(),
    {
        let t: u64 = self.cell_t as u64;
        let y: u64 = self.cell_y as u64;
        let x: u64 = self.cell_x as u64;
        (t * 0x1_0000 + y) * 0x1_0000 + x
    }

    /// The cell that `key` stands for: the inverse of `key`.
    pub fn from_key(key: u64) -> (cell: SpaceTimeCell)
        ensures
            cell@ == cell_of_key(key as int),
            cell@.key() == key,
    {
        proof {
            lemma_key_round_trip(cell_of_key(key as int), key as int);
        }
        SpaceTimeCell {
            cell_t: (key / 0x1_0000_0000) as u32,
            cell_y: ((key / 0x1_0000) % 0x1_0000) as u16,
            cell_x: (key % 0x1_0000) as u16,
        }
    }

    /// Whether the next cell in raster order still fits the machine cell,
    /// that is, whether `next_cell` may be called.
    pub fn can_advance(&self, bounds: &SpatialBoundary) -> (ok: bool)
        ensures
            ok == self@.next_spatial(bounds@).representable(),
            ok == (self@.next_spatial(bounds@).t <= u32::MAX),
    {
        self.cell_t < u32::MAX || (self.cell_x < u16::MAX && bounds.x_in(self.cell_x + 1)) || (
        self.cell_y < u16::MAX && bounds.y_in(self.cell_y + 1))
    }

    /// Returns the next cell after this one in raster order, wrapping at the
    /// borders of `bounds`.
    pub fn next_cell(&self, bounds: &SpatialBoundary) -> (next: SpaceTimeCell)
        requires
            self@.next_spatial(bounds@).t <= u32::MAX,
        ensures
            next@ == self@.next_spatial(bounds@),
    {
        if self.cell_x < u16::MAX && bounds.x_in(self.cell_x + 1) {
            SpaceTimeCell { cell_t: self.cell_t, cell_y: self.cell_y, cell_x: self.cell_x + 1 }
        } else if self.cell_y < u16::MAX && bounds.y_in(self.cell_y + 1) {
            SpaceTimeCell {
                cell_t: self.cell_t,
                cell_y: self.cell_y + 1,
                cell_x: bounds.along_x.start,
            }
        } else {
            SpaceTimeCell {
                cell_t: self.cell_t + 1,
                cell_y: bounds.along_y.start,
                cell_x: bounds.along_x.start,
            }
        }
    }

    /// Returns the next cell in time. No bounds are needed: time does not
    /// wrap.
    pub fn next_time_cell(&self) -> (next: SpaceTimeCell)
        requires
            self.cell_t < u32::MAX,
        ensures
            next@ == self@.next_temporal(),
    {
        SpaceTimeCell { cell_t: self.cell_t + 1, cell_y: self.cell_y, cell_x: self.cell_x }
    }
}

/// Walks in raster order from one cell towards another, wrapping at the
/// borders of a spatial boundary. It yields the cells strictly between the
/// two, in order, and then nothing more.
pub struct SpaceTimeCellGenerator<'a> {
    end: SpaceTimeCell,
    current: SpaceTimeCell,
    bounds: &'a SpatialBoundary,
}

impl<'a> SpaceTimeCellGenerator<'a> {
    /// The cells still to be yielded, in order.
    pub closed spec fn remaining(&self) -> Seq<GridCell> {
        spatial_cells(self.current@, self.end@, self.bounds@)
    }

    /// A generator of the cells after `start` and before `end`.
    pub fn new(start: &SpaceTimeCell, end: &SpaceTimeCell, bounds: &'a SpatialBoundary) -> (cells:
        SpaceTimeCellGenerator<'a>)
        ensures
            cells.remaining() == spatial_cells(start@, end@, bounds@),
    {
        SpaceTimeCellGenerator {
            end: SpaceTimeCell::from_cell(end),
            current: SpaceTimeCell::from_cell(start),
            bounds: bounds,
        }
    }

    /// Yields the next cell, or `None` once the walk has reached `end`.
    pub fn next(&mut self) -> (cell: Option<SpaceTimeCell>)
        ensures
            match cell {
                Some(c) => {
                    &&& old(self).remaining().len() > 0
                    &&& c@ == old(self).remaining()[0]
                    &&& final(self).remaining() == old(self).remaining().drop_first()
                },
                None => {
                    &&& old(self).remaining().len() == 0
                    &&& final(self).remaining().len() == 0
                },
            },
    {
        if !self.current.can_advance(self.bounds) {
            return None;
        }
        self.current = self.current.next_cell(self.bounds);
        if self.current.precedes(&self.end) {
            Some(SpaceTimeCell::from_cell(&self.current))
        } else {
            proof {
                crate::grid::lemma_spatial_cells_empty_from(self.current@, self.end@, self.bounds@);
            }
            None
        }
    }
}

/// Walks forward in time from one cell towards another, keeping its place.
/// It yields the cells strictly between the two, in order, and then nothing
/// more.
pub struct TimeCellGenerator {
    end: SpaceTimeCell,
    current: SpaceTimeCell,
}

impl TimeCellGenerator {
    /// The cells still to be yielded, in order.
    pub closed spec fn remaining(&self) -> Seq<GridCell> {
        temporal_cells(self.current@, self.end@)
    }

    /// A generator of the cells at `start`'s place after `start` and before
    /// `end`.
    pub fn new(start: &SpaceTimeCell, end: &SpaceTimeCell) -> (cells: TimeCellGenerator)
        ensures
            cells.remaining() == temporal_cells(start@, end@),
    {
        TimeCellGenerator {
            end: SpaceTimeCell::from_cell(end),
            current: SpaceTimeCell::from_cell(start),
        }
    }

    /// Yields the next cell, or `None` once the walk has reached `end`.
    pub fn next(&mut self) -> (cell: Option<SpaceTimeCell>)
        ensures
            match cell {
                Some(c) => {
                    &&& old(self).remaining().len() > 0
                    &&& c@ == old(self).remaining()[0]
                    &&& final(self).remaining() == old(self).remaining().drop_first()
                },
                None => {
                    &&& old(self).remaining().len() == 0
                    &&& final(self).remaining().len() == 0
                },
            },
    {
        if self.current.cell_t == u32::MAX {
            return None;
        }
        proof {
            lemma_temporal_cells_unfold(self.current@, self.end@);
        }
        self.current = self.current.next_time_cell();
        if self.current.precedes(&self.end) {
            Some(SpaceTimeCell::from_cell(&self.current))
        } else {
            None
        }
    }
}

} // verus!
