//! The space-time grid as mathematics: cells whose coordinates are unbounded
//! integers, the total order on them, and the two ways of stepping from one
//! cell to the next.

use vstd::arithmetic::div_mod::lemma_fundamental_div_mod_converse;
use vstd::prelude::*;

verus! {

/// A cell of the grid: a time slice `t`, a row `y` and a column `x`.
pub struct GridCell {
    pub t: int,
    pub y: int,
    pub x: int,
}

/// The spatial window of the grid: columns `x_min <= x < x_max` and rows
/// `y_min <= y < y_max`.
pub struct GridBounds {
    pub x_min: int,
    pub x_max: int,
    pub y_min: int,
    pub y_max: int,
}

impl GridBounds {
    /// Both ranges hold at least one index.
    pub open spec fn non_empty(self) -> bool {
        self.x_min < self.x_max && self.y_min < self.y_max
    }

    pub open spec fn contains_x(self, x: int) -> bool {
        self.x_min <= x < self.x_max
    }

    pub open spec fn contains_y(self, y: int) -> bool {
        self.y_min <= y < self.y_max
    }

    /// The cell lies inside the window, whatever its time slice.
    pub open spec fn contains(self, c: GridCell) -> bool {
        self.contains_x(c.x) && self.contains_y(c.y)
    }

    /// Number of columns of a non-empty window.
    pub open spec fn width(self) -> int {
        self.x_max - self.x_min
    }

    /// Number of rows of a non-empty window.
    pub open spec fn height(self) -> int {
        self.y_max - self.y_min
    }

    /// Number of cells in one time slice of a non-empty window.
    pub open spec fn area(self) -> int {
        self.width() * self.height()
    }
}

impl GridCell {
    /// The strict total order on cells: by time, then by row, then by column.
    pub open spec fn precedes(self, other: GridCell) -> bool {
        self.t < other.t || (self.t == other.t && (self.y < other.y || (self.y == other.y
            && self.x < other.x)))
    }

    /// The coordinates fit the machine cell: 32 bits of time, 16 bits each of
    /// row and column.
    pub open spec fn representable(self) -> bool {
        &&& 0 <= self.t <= u32::MAX
        &&& 0 <= self.y <= u16::MAX
        &&& 0 <= self.x <= u16::MAX
    }

    /// The coordinates packed into one number, time in the most significant
    /// place. On representable cells the packing is one-to-one and keeps the
    /// order.
    pub open spec fn key(self) -> int {
        (self.t * 0x1_0000 + self.y) * 0x1_0000 + self.x
    }

    /// Same row and column; the time slices may differ.
    pub open spec fn same_place(self, other: GridCell) -> bool {
        self.y == other.y && self.x == other.x
    }

    /// This cell's place, `hours` time slices later.
    pub open spec fn later(self, hours: int) -> GridCell {
        GridCell { t: self.t + hours, y: self.y, x: self.x }
    }

    /// The next cell in raster order. The column advances while it stays
    /// inside the window; otherwise it wraps to the first column and carries
    /// into the row, which in turn wraps to the first row and carries into
    /// the time slice. Time never wraps.
    pub open spec fn next_spatial(self, bounds: GridBounds) -> GridCell {
        if bounds.contains_x(self.x + 1) {
            GridCell { t: self.t, y: self.y, x: self.x + 1 }
        } else if bounds.contains_y(self.y + 1) {
            GridCell { t: self.t, y: self.y + 1, x: bounds.x_min }
        } else {
            GridCell { t: self.t + 1, y: bounds.y_min, x: bounds.x_min }
        }
    }

    /// The same place one time slice later.
    pub open spec fn next_temporal(self) -> GridCell {
        self.later(1)
    }

    /// The position of a cell inside `bounds` in raster order, counted from
    /// the first cell of time slice zero.
    pub open spec fn rank(self, bounds: GridBounds) -> int {
        (self.t * bounds.height() + (self.y - bounds.y_min)) * bounds.width() + (self.x
            - bounds.x_min)
    }

    /// `next_spatial` applied `n` times.
    pub open spec fn spatial_steps(self, bounds: GridBounds, n: nat) -> GridCell
        decreases n,
    {
        if n == 0 {
            self
        } else {
            self.next_spatial(bounds).spatial_steps(bounds, (n - 1) as nat)
        }
    }

    /// `next_temporal` applied `n` times.
    pub open spec fn temporal_steps(self, n: nat) -> GridCell
        decreases n,
    {
        if n == 0 {
            self
        } else {
            self.next_temporal().temporal_steps((n - 1) as nat)
        }
    }
}

/// The test that a cell stands at the place of `place`, at whatever time.
pub open spec fn at_place(place: GridCell) -> spec_fn(GridCell) -> bool {
    |c: GridCell| c.same_place(place)
}

/// The cell that a packed key stands for.
pub open spec fn cell_of_key(key: int) -> GridCell {
    GridCell { t: key / 0x1_0000_0000, y: (key / 0x1_0000) % 0x1_0000, x: key % 0x1_0000 }
}

/// The cells that a spatial sweep yields: step from `start` in raster order
/// and keep each cell reached while it precedes `end`; the first cell that
/// does not precede `end` ends the sweep. Neither `start` nor `end` is
/// yielded.
pub open spec fn spatial_cells(start: GridCell, end: GridCell, bounds: GridBounds) -> Seq<GridCell>
    decreases end.t - start.t, bounds.y_max - start.y, bounds.x_max - start.x,
{
    let next = start.next_spatial(bounds);
    if next.precedes(end) {
        seq![next] + spatial_cells(next, end, bounds)
    } else {
        Seq::empty()
    }
}

/// How many cells a temporal sweep from `start` yields before it reaches
/// `end`: the time slices after `start.t` at which `start`'s place still
/// precedes `end`.
pub open spec fn temporal_count(start: GridCell, end: GridCell) -> nat {
    let last = if start.later(end.t - start.t).precedes(end) {
        end.t
    } else {
        end.t - 1
    };
    if last > start.t {
        (last - start.t) as nat
    } else {
        0
    }
}

/// The cells that a temporal sweep yields: `start`'s place at each later time
/// slice, in increasing time, for as long as the cell precedes `end`.
pub open spec fn temporal_cells(start: GridCell, end: GridCell) -> Seq<GridCell> {
    Seq::new(temporal_count(start, end), |i: int| start.later(i + 1))
}

/// The order of cells is a strict total order: no cell precedes itself, of
/// two different cells exactly one precedes the other, and what precedes a
/// cell precedes all that the cell precedes.
pub proof fn law_cells_are_totally_ordered(a: GridCell, b: GridCell, c: GridCell)
    ensures
        !a.precedes(a),
        a != b ==> (a.precedes(b) <==> !b.precedes(a)),
        a.precedes(b) && b.precedes(c) ==> a.precedes(c),
{
}

/// A spatial step always leads to a later cell in the order of cells.
pub proof fn lemma_next_spatial_follows(c: GridCell, bounds: GridBounds)
    ensures
        c.precedes(c.next_spatial(bounds)),
{
}

/// Once the walk has reached or passed `end`, the sweep from there is empty.
pub proof fn lemma_spatial_cells_empty_from(start: GridCell, end: GridCell, bounds: GridBounds)
    requires
        !start.precedes(end),
    ensures
        spatial_cells(start, end, bounds).len() == 0,
{
}

/// On representable cells the packed key is one-to-one and orders as the
/// cells do.
pub proof fn lemma_key_order(a: GridCell, b: GridCell)
    requires
        a.representable(),
        b.representable(),
    ensures
        0 <= a.key() <= u64::MAX,
        a.precedes(b) <==> a.key() < b.key(),
        a == b <==> a.key() == b.key(),
{
}

/// Packing a representable cell and unpacking the key gives the cell back;
/// unpacking a 64-bit key gives a representable cell with that key.
pub proof fn lemma_key_round_trip(c: GridCell, key: int)
    ensures
        c.representable() ==> cell_of_key(c.key()) == c,
        0 <= key <= u64::MAX ==> cell_of_key(key).representable() && cell_of_key(key).key() == key,
{
}

/// A temporal sweep is empty when the first step does not precede `end`;
/// otherwise it yields that step and then the sweep from there.
pub proof fn lemma_temporal_cells_unfold(start: GridCell, end: GridCell)
    ensures
        temporal_cells(start, end) == if start.next_temporal().precedes(end) {
            seq![start.next_temporal()] + temporal_cells(start.next_temporal(), end)
        } else {
            Seq::<GridCell>::empty()
        },
{
}

/// Inside the window a spatial step stays inside and moves one position on
/// in raster order.
pub proof fn lemma_next_spatial_rank(c: GridCell, bounds: GridBounds)
    requires
        bounds.contains(c),
    ensures
        bounds.contains(c.next_spatial(bounds)),
        c.next_spatial(bounds).rank(bounds) == c.rank(bounds) + 1,
{
    let w = bounds.width();
    let h = bounds.height();
    let row = c.t * h + (c.y - bounds.y_min);
    if bounds.contains_x(c.x + 1) {
    } else if bounds.contains_y(c.y + 1) {
        assert((row + 1) * w == row * w + w) by (nonlinear_arith);
    } else {
        assert((c.t + 1) * h == row + 1) by (nonlinear_arith)
            requires
                row == c.t * h + (h - 1),
        ;
        assert((row + 1) * w == row * w + w) by (nonlinear_arith);
    }
}

/// Two cells inside the window at the same position in raster order are the
/// same cell.
pub proof fn lemma_rank_one_to_one(a: GridCell, b: GridCell, bounds: GridBounds)
    requires
        bounds.contains(a),
        bounds.contains(b),
        a.rank(bounds) == b.rank(bounds),
    ensures
        a == b,
{
    let w = bounds.width();
    let h = bounds.height();
    let row_a = a.t * h + (a.y - bounds.y_min);
    let row_b = b.t * h + (b.y - bounds.y_min);
    lemma_fundamental_div_mod_converse(a.rank(bounds), w, row_a, a.x - bounds.x_min);
    lemma_fundamental_div_mod_converse(b.rank(bounds), w, row_b, b.x - bounds.x_min);
    lemma_fundamental_div_mod_converse(row_a, h, a.t, a.y - bounds.y_min);
    lemma_fundamental_div_mod_converse(row_b, h, b.t, b.y - bounds.y_min);
}

/// Inside the window, `n` spatial steps stay inside and move `n` positions
/// on in raster order.
pub proof fn lemma_spatial_steps_rank(c: GridCell, bounds: GridBounds, n: nat)
    requires
        bounds.contains(c),
    ensures
        bounds.contains(c.spatial_steps(bounds, n)),
        c.spatial_steps(bounds, n).rank(bounds) == c.rank(bounds) + n,
    decreases n,
{
    if n > 0 {
        lemma_next_spatial_rank(c, bounds);
        lemma_spatial_steps_rank(c.next_spatial(bounds), bounds, (n - 1) as nat);
    }
}

/// A full sweep is one time step: from a cell inside the window, as many
/// spatial steps as the window has cells lead to the same place one time
/// slice later.
pub proof fn law_full_sweep_is_one_time_step(c: GridCell, bounds: GridBounds)
    requires
        bounds.contains(c),
    ensures
        bounds.area() >= 1,
        c.spatial_steps(bounds, bounds.area() as nat) == c.later(1),
{
    let w = bounds.width();
    let h = bounds.height();
    assert(w * h >= 1) by (nonlinear_arith)
        requires
            w >= 1,
            h >= 1,
    ;
    let n = bounds.area() as nat;
    lemma_spatial_steps_rank(c, bounds, n);
    let row = c.t * h + (c.y - bounds.y_min);
    assert(((c.t + 1) * h + (c.y - bounds.y_min)) * w == row * w + w * h) by (nonlinear_arith)
        requires
            row == c.t * h + (c.y - bounds.y_min),
    ;
    lemma_rank_one_to_one(c.spatial_steps(bounds, n), c.later(1), bounds);
}

/// `n` temporal steps add exactly `n` to the time and leave the place alone.
pub proof fn law_temporal_steps_add_time(c: GridCell, n: nat)
    ensures
        c.temporal_steps(n) == c.later(n as int),
        c.temporal_steps(n).t == c.t + n,
        c.temporal_steps(n).same_place(c),
    decreases n,
{
    if n > 0 {
        law_temporal_steps_add_time(c.next_temporal(), (n - 1) as nat);
    }
}

/// A spatial sweep from a cell to itself yields nothing: the one step taken
/// already lies past the cell.
pub proof fn law_degenerate_sweep_is_empty(c: GridCell, bounds: GridBounds)
    ensures
        spatial_cells(c, c, bounds) == Seq::<GridCell>::empty(),
        spatial_cells(c, c, bounds).len() <= 1,
{
    lemma_next_spatial_follows(c, bounds);
}

/// The cells of a spatial sweep are the successive spatial steps from
/// `start`: each precedes `end`, and the step after the last does not.
pub proof fn law_spatial_cells_are_steps(start: GridCell, end: GridCell, bounds: GridBounds)
    ensures
        forall|i: int|
            0 <= i < spatial_cells(start, end, bounds).len() ==> {
                &&& #[trigger] spatial_cells(start, end, bounds)[i] == start.spatial_steps(
                    bounds,
                    (i + 1) as nat,
                )
                &&& spatial_cells(start, end, bounds)[i].precedes(end)
            },
        !start.spatial_steps(
            bounds,
            spatial_cells(start, end, bounds).len() + 1,
        ).precedes(end),
    decreases end.t - start.t, bounds.y_max - start.y, bounds.x_max - start.x,
{
    let next = start.next_spatial(bounds);
    let cells = spatial_cells(start, end, bounds);
    if next.precedes(end) {
        law_spatial_cells_are_steps(next, end, bounds);
        assert forall|i: int| 0 <= i < cells.len() implies {
            &&& #[trigger] cells[i] == start.spatial_steps(bounds, (i + 1) as nat)
            &&& cells[i].precedes(end)
        } by {
            if i > 0 {
                assert(cells[i] == spatial_cells(next, end, bounds)[i - 1]);
            }
        }
    } else {
        assert(start.spatial_steps(bounds, 1) == next.spatial_steps(bounds, 0));
    }
}

/// The cells of a temporal sweep are the successive temporal steps from
/// `start`: each precedes `end`, and the step after the last does not.
pub proof fn law_temporal_cells_are_steps(start: GridCell, end: GridCell)
    ensures
        forall|i: int|
            0 <= i < temporal_cells(start, end).len() ==> {
                &&& #[trigger] temporal_cells(start, end)[i] == start.temporal_steps((i + 1) as nat)
                &&& temporal_cells(start, end)[i].precedes(end)
            },
        !start.temporal_steps(temporal_cells(start, end).len() + 1).precedes(end),
{
    let cells = temporal_cells(start, end);
    assert forall|i: int| 0 <= i < cells.len() implies {
        &&& #[trigger] cells[i] == start.temporal_steps((i + 1) as nat)
        &&& cells[i].precedes(end)
    } by {
        law_temporal_steps_add_time(start, (i + 1) as nat);
    }
    law_temporal_steps_add_time(start, cells.len() + 1);
}

/// Between two cells at one place, a temporal sweep yields the cells at
/// that place at every time strictly between the two.
pub proof fn law_temporal_cells_between(start: GridCell, end: GridCell)
    requires
        start.same_place(end),
    ensures
        temporal_cells(start, end).len() == if end.t - start.t > 1 {
            end.t - start.t - 1
        } else {
            0
        },
        forall|i: int|
            0 <= i < temporal_cells(start, end).len() ==> #[trigger] temporal_cells(start, end)[i]
                == start.later(i + 1),
{
}

/// Where a spatial step from `start` is a plain step in time, the spatial
/// sweep and the temporal sweep from `start` are the same.
pub proof fn lemma_sweeps_agree(start: GridCell, end: GridCell, bounds: GridBounds)
    requires
        start.next_spatial(bounds) == start.next_temporal(),
    ensures
        spatial_cells(start, end, bounds) == temporal_cells(start, end),
    decreases end.t - start.t,
{
    let next = start.next_temporal();
    lemma_temporal_cells_unfold(start, end);
    if next.precedes(end) {
        lemma_sweeps_agree(next, end, bounds);
    }
}

/// Between two cells at one place, the first before the second, the
/// spatial and the temporal sweep yield the same cells exactly when the
/// spatial step from the first cell is a plain step in time, or when neither
/// sweep yields anything. The spatial step is a plain step in time where the
/// cell stands on the first column and the first row and neither the column
/// nor the row can advance inside the window: on a window of one cell.
pub proof fn law_sweeps_agree_when_space_does_not_wrap(
    start: GridCell,
    end: GridCell,
    bounds: GridBounds,
)
    requires
        start.precedes(end),
        start.same_place(end),
    ensures
        spatial_cells(start, end, bounds) == temporal_cells(start, end) <==> (start.next_spatial(
            bounds,
        ) == start.next_temporal() || (!start.next_spatial(bounds).precedes(end)
            && !start.next_temporal().precedes(end))),
        start.next_spatial(bounds) == start.next_temporal() <==> {
            &&& !bounds.contains_x(start.x + 1)
            &&& !bounds.contains_y(start.y + 1)
            &&& start.x == bounds.x_min
            &&& start.y == bounds.y_min
        },
{
    let temporal = temporal_cells(start, end);
    lemma_temporal_cells_unfold(start, end);
    if start.next_spatial(bounds) == start.next_temporal() {
        lemma_sweeps_agree(start, end, bounds);
    } else if start.next_spatial(bounds).precedes(end) && start.next_temporal().precedes(end) {
        assert(temporal[0] == start.next_temporal());
    }
}

/// Inside the window, the order of cells is the order of their positions
/// in raster order.
pub proof fn lemma_rank_order(a: GridCell, b: GridCell, bounds: GridBounds)
    requires
        bounds.contains(a),
        bounds.contains(b),
    ensures
        a.precedes(b) <==> a.rank(bounds) < b.rank(bounds),
{
    if a.precedes(b) {
        lemma_rank_grows(a, b, bounds);
    } else if b.precedes(a) {
        lemma_rank_grows(b, a, bounds);
    }
}

proof fn lemma_rank_grows(a: GridCell, b: GridCell, bounds: GridBounds)
    requires
        bounds.contains(a),
        bounds.contains(b),
        a.precedes(b),
    ensures
        a.rank(bounds) < b.rank(bounds),
{
    let w = bounds.width();
    let h = bounds.height();
    let row_a = a.t * h + (a.y - bounds.y_min);
    let row_b = b.t * h + (b.y - bounds.y_min);
    if a.t < b.t {
        assert(a.t * h + h <= b.t * h) by (nonlinear_arith)
            requires
                a.t + 1 <= b.t,
                h >= 1,
        ;
    }
    if row_a < row_b {
        assert(row_a * w + w <= row_b * w) by (nonlinear_arith)
            requires
                row_a + 1 <= row_b,
                w >= 1,
        ;
    }
}

/// From a cell, one or more spatial steps lead to a later cell, and more
/// steps lead further.
pub proof fn lemma_spatial_steps_follow(c: GridCell, bounds: GridBounds, fewer: nat, more: nat)
    requires
        fewer < more,
    ensures
        c.spatial_steps(bounds, fewer).precedes(c.spatial_steps(bounds, more)),
    decreases more,
{
    if fewer == 0 {
        lemma_next_spatial_follows(c, bounds);
        if more > 1 {
            lemma_spatial_steps_follow(c.next_spatial(bounds), bounds, 0, (more - 1) as nat);
        }
    } else {
        lemma_spatial_steps_follow(
            c.next_spatial(bounds),
            bounds,
            (fewer - 1) as nat,
            (more - 1) as nat,
        );
    }
}

/// Between two cells inside the window, a spatial sweep yields exactly the
/// cells of the window that lie strictly between the two in the order of
/// cells.
pub proof fn law_sweep_inside_window(start: GridCell, end: GridCell, bounds: GridBounds)
    requires
        bounds.contains(start),
        bounds.contains(end),
    ensures
        forall|c: GridCell|
            #[trigger] spatial_cells(start, end, bounds).contains(c) <==> (bounds.contains(c)
                && start.precedes(c) && c.precedes(end)),
        spatial_cells(start, end, bounds).len() == if end.rank(bounds) - start.rank(bounds) > 1 {
            end.rank(bounds) - start.rank(bounds) - 1
        } else {
            0
        },
{
    let cells = spatial_cells(start, end, bounds);
    let past = start.spatial_steps(bounds, cells.len() + 1);
    law_spatial_cells_are_steps(start, end, bounds);
    lemma_spatial_steps_rank(start, bounds, cells.len() + 1);
    lemma_rank_order(past, end, bounds);
    if cells.len() > 0 {
        let last = cells[cells.len() - 1];
        lemma_spatial_steps_rank(start, bounds, cells.len());
        lemma_rank_order(last, end, bounds);
    }
    assert forall|c: GridCell| #[trigger] cells.contains(c) <==> (bounds.contains(c)
        && start.precedes(c) && c.precedes(end)) by {
        if cells.contains(c) {
            let i = choose|i: int| 0 <= i < cells.len() && cells[i] == c;
            lemma_spatial_steps_rank(start, bounds, (i + 1) as nat);
            lemma_spatial_steps_follow(start, bounds, 0, (i + 1) as nat);
        }
        if bounds.contains(c) && start.precedes(c) && c.precedes(end) {
            lemma_rank_order(start, c, bounds);
            lemma_rank_order(c, end, bounds);
            let n = (c.rank(bounds) - start.rank(bounds)) as nat;
            lemma_spatial_steps_rank(start, bounds, n);
            lemma_rank_one_to_one(start.spatial_steps(bounds, n), c, bounds);
            assert(cells[n - 1] == c);
        }
    }
}

/// The latest time at which the place of `place` does not come after
/// `cell` in the order of cells.
spec fn last_visit(cell: GridCell, place: GridCell) -> int {
    if cell.y < place.y || (cell.y == place.y && cell.x < place.x) {
        cell.t - 1
    } else {
        cell.t
    }
}

/// A sequence of one cell, filtered, keeps the cell or nothing.
proof fn lemma_filter_one(cell: GridCell, keep: spec_fn(GridCell) -> bool)
    ensures
        seq![cell].filter(keep) == if keep(cell) {
            seq![cell]
        } else {
            Seq::<GridCell>::empty()
        },
{
    reveal_with_fuel(Seq::filter, 2);
    assert(seq![cell].drop_last() =~= Seq::<GridCell>::empty());
}

/// Inside the window, the cells of a spatial sweep that stand at one place
/// of the window are the cells of the temporal sweep from the last visit to
/// that place.
proof fn lemma_sweep_at_place(current: GridCell, end: GridCell, bounds: GridBounds, place: GridCell)
    requires
        bounds.contains(current),
        bounds.contains(place),
    ensures
        spatial_cells(current, end, bounds).filter(at_place(place)) == temporal_cells(
            GridCell { t: last_visit(current, place), y: place.y, x: place.x },
            end,
        ),
    decreases end.t - current.t, bounds.y_max - current.y, bounds.x_max - current.x,
{
    let next = current.next_spatial(bounds);
    let visited = GridCell { t: last_visit(current, place), y: place.y, x: place.x };
    lemma_temporal_cells_unfold(visited, end);
    if next.precedes(end) {
        let rest = spatial_cells(next, end, bounds);
        lemma_sweep_at_place(next, end, bounds, place);
        lemma_filter_one(next, at_place(place));
        Seq::filter_distributes_over_add(seq![next], rest, at_place(place));
        if next.same_place(place) {
            assert(next == visited.next_temporal());
        } else {
            assert(last_visit(next, place) == last_visit(current, place));
            assert(Seq::<GridCell>::empty() + rest.filter(at_place(place)) =~= rest.filter(
                at_place(place),
            ));
        }
    } else {
        reveal_with_fuel(Seq::filter, 1);
    }
}

/// From a cell inside the window, the cells of the spatial sweep that stand
/// at the place of that cell are, in order, the cells of the temporal
/// sweep: between its visits to one place the spatial sweep passes the
/// other cells of the window, and the temporal sweep passes none.
pub proof fn law_sweep_at_one_place_is_temporal(start: GridCell, end: GridCell, bounds: GridBounds)
    requires
        bounds.contains(start),
    ensures
        spatial_cells(start, end, bounds).filter(at_place(start)) == temporal_cells(start, end),
{
    lemma_sweep_at_place(start, end, bounds, start);
}

} // verus!
