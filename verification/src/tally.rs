//! The windowed accumulator as mathematics: a count for every open cell, and
//! what one event, or a run of events, does to the counts.

use crate::grid::{
    law_degenerate_sweep_is_empty, law_sweep_inside_window, spatial_cells, temporal_cells,
    GridBounds, GridCell,
};
use vstd::multiset::*;
use vstd::prelude::*;

verus! {

/// The count of a cell: what the map holds for it, and zero for a cell that
/// is not open.
pub open spec fn count_at(counts: Map<GridCell, nat>, cell: GridCell) -> nat {
    if counts.contains_key(cell) {
        counts[cell]
    } else {
        0
    }
}

/// The forward window of an event: the cells at the event's place whose time
/// lies strictly between the event's time and that time plus `span`.
pub open spec fn window(event: GridCell, span: int) -> Set<GridCell> {
    Set::new(|c: GridCell| c.same_place(event) && event.t < c.t < event.t + span)
}

/// The counts after every cell of `cells` has been incremented once. A cell
/// that was not open is opened with count one.
pub open spec fn opened(counts: Map<GridCell, nat>, cells: Set<GridCell>) -> Map<GridCell, nat> {
    Map::new(
        |c: GridCell| counts.contains_key(c) || cells.contains(c),
        |c: GridCell|
            if cells.contains(c) {
                count_at(counts, c) + 1
            } else {
                count_at(counts, c)
            },
    )
}

/// The counts after every cell of `cells` has been closed: the cells leave
/// the map, whatever their count was, and a cell that was not open is passed
/// over.
pub open spec fn closed(counts: Map<GridCell, nat>, cells: Set<GridCell>) -> Map<GridCell, nat> {
    counts.remove_keys(cells)
}

/// The counter mass: the sum of the counts of all open cells.
pub open spec fn mass(counts: Map<GridCell, nat>) -> nat {
    Multiset::from_map(counts).len()
}

/// The state of a windowed accumulator.
pub struct FeatureState {
    /// The spatial window in which closing sweeps wrap.
    pub bounds: GridBounds,
    /// How many hours ahead of an event its window reaches.
    pub span: int,
    /// The event processed last, if any.
    pub previous: Option<GridCell>,
    /// The open cells, each with its count.
    pub counts: Map<GridCell, nat>,
}

impl FeatureState {
    /// The state of a fresh accumulator: no cell open, no event seen.
    pub open spec fn initial(bounds: GridBounds, span: int) -> FeatureState {
        FeatureState { bounds, span, previous: None, counts: Map::empty() }
    }

    /// The configuration is sound, finitely many cells are open, and every
    /// open cell has a count of at least one.
    pub open spec fn valid(self) -> bool {
        &&& self.bounds.non_empty()
        &&& self.span >= 1
        &&& self.counts.dom().finite()
        &&& forall|c: GridCell| self.counts.contains_key(c) ==> self.counts[c] >= 1
    }

    /// Where the closing sweep for `event` starts: at the previous event, or
    /// at `event` itself when there is none.
    pub open spec fn close_from(self, event: GridCell) -> GridCell {
        match self.previous {
            Some(previous) => previous,
            None => event,
        }
    }

    /// The cells that `event` closes, in the order of the sweep.
    pub open spec fn closing(self, event: GridCell) -> Seq<GridCell> {
        spatial_cells(self.close_from(event), event, self.bounds)
    }

    /// The state after `event`: its window is opened, then the cells between
    /// the previous event and this one are closed, and `event` becomes the
    /// previous event.
    pub open spec fn process(self, event: GridCell) -> FeatureState {
        FeatureState {
            bounds: self.bounds,
            span: self.span,
            previous: Some(event),
            counts: closed(
                opened(self.counts, window(event, self.span)),
                self.closing(event).to_set(),
            ),
        }
    }

    /// The counter mass that `event` closes: the counts, after the window
    /// of `event` has been opened, of the cells of its closing sweep.
    pub open spec fn released(self, event: GridCell) -> nat {
        mass(
            opened(self.counts, window(event, self.span)).restrict(self.closing(event).to_set()),
        )
    }

    /// The counter mass that a run of events closes, event by event.
    pub open spec fn released_by(self, events: Seq<GridCell>) -> nat
        decreases events.len(),
    {
        if events.len() == 0 {
            0
        } else {
            self.released(events[0]) + self.process(events[0]).released_by(events.drop_first())
        }
    }

    /// The state after each of `events` in turn.
    pub open spec fn run(self, events: Seq<GridCell>) -> FeatureState
        decreases events.len(),
    {
        if events.len() == 0 {
            self
        } else {
            self.process(events[0]).run(events.drop_first())
        }
    }
}

/// The temporal sweep over an event's span yields each cell of the event's
/// window once, in increasing time; the window has one cell less than the
/// span has hours.
pub proof fn law_window_is_temporal_sweep(event: GridCell, span: int)
    ensures
        temporal_cells(event, event.later(span)).to_set() == window(event, span),
        forall|i: int|
            0 <= i < temporal_cells(event, event.later(span)).len() ==> temporal_cells(
                event,
                event.later(span),
            )[i] == event.later(i + 1),
        window(event, span).finite(),
        window(event, span).len() == if span >= 1 {
            span - 1
        } else {
            0
        },
{
    let sweep = temporal_cells(event, event.later(span));
    assert forall|c: GridCell| sweep.to_set().contains(c) <==> window(event, span).contains(c) by {
        if window(event, span).contains(c) {
            assert(sweep[c.t - event.t - 1] == c);
        }
    }
    assert(sweep.to_set() =~= window(event, span));
    sweep.unique_seq_to_set();
}

/// As many copies as a finite set has members: the multiset that holds each
/// member once is as large as the set.
proof fn lemma_from_set_len(cells: Set<GridCell>)
    requires
        cells.finite(),
    ensures
        Multiset::from_set(cells).len() == cells.len(),
    decreases cells.len(),
{
    broadcast use group_multiset_axioms;

    let ones = Map::new(|c: GridCell| cells.contains(c), |c: GridCell| 1nat);
    assert(ones.dom() =~= cells);
    if cells.len() == 0 {
        assert(Multiset::from_set(cells) =~= Multiset::empty());
    } else {
        let one = cells.choose();
        let rest = cells.remove(one);
        let rest_ones = Map::new(|c: GridCell| rest.contains(c), |c: GridCell| 1nat);
        assert(rest_ones.dom() =~= rest);
        lemma_from_set_len(rest);
        assert(Multiset::from_set(cells) =~= Multiset::from_set(rest).insert(one));
        lemma_insert_len(Multiset::from_set(rest), one);
    }
}

/// The multiset that holds one cell `count` times is `count` large.
proof fn lemma_copies_len(cell: GridCell, count: nat)
    ensures
        Multiset::from_map(Map::<GridCell, nat>::empty().insert(cell, count)).len() == count,
    decreases count,
{
    broadcast use group_multiset_axioms;

    let copies = Map::<GridCell, nat>::empty().insert(cell, count);
    if count == 0 {
        assert(Multiset::from_map(copies) =~= Multiset::empty());
    } else {
        let fewer = Map::<GridCell, nat>::empty().insert(cell, (count - 1) as nat);
        lemma_copies_len(cell, (count - 1) as nat);
        assert(Multiset::from_map(copies) =~= Multiset::from_map(fewer).insert(cell));
        lemma_insert_len(Multiset::from_map(fewer), cell);
    }
}

/// The counter mass is the sum of the counts: nothing for the empty map, and
/// with one more cell, the count of that cell more.
pub proof fn law_mass_is_sum(counts: Map<GridCell, nat>, cell: GridCell, count: nat)
    requires
        counts.dom().finite(),
        !counts.contains_key(cell),
    ensures
        mass(Map::empty()) == 0,
        mass(counts.insert(cell, count)) == mass(counts) + count,
{
    broadcast use group_multiset_axioms;

    let copies = Map::<GridCell, nat>::empty().insert(cell, count);
    lemma_copies_len(cell, count);
    assert(Multiset::from_map(Map::<GridCell, nat>::empty()) =~= Multiset::empty());
    assert(Multiset::from_map(counts.insert(cell, count)) =~= Multiset::from_map(counts).add(
        Multiset::from_map(copies),
    ));
}

/// Opening a finite set of cells adds one to the counter mass for each cell
/// of the set.
pub proof fn law_opening_adds_mass(counts: Map<GridCell, nat>, cells: Set<GridCell>)
    requires
        counts.dom().finite(),
        cells.finite(),
    ensures
        opened(counts, cells).dom().finite(),
        mass(opened(counts, cells)) == mass(counts) + cells.len(),
{
    broadcast use group_multiset_axioms;

    let ones = Map::new(|c: GridCell| cells.contains(c), |c: GridCell| 1nat);
    assert(ones.dom() =~= cells);
    assert(opened(counts, cells).dom() =~= counts.dom().union(cells));
    lemma_from_set_len(cells);
    assert(Multiset::from_map(opened(counts, cells)) =~= Multiset::from_map(counts).add(
        Multiset::from_set(cells),
    ));
}

/// Closing a set of cells takes from the counter mass what those cells
/// held.
pub proof fn law_closing_removes_mass(counts: Map<GridCell, nat>, cells: Set<GridCell>)
    requires
        counts.dom().finite(),
    ensures
        closed(counts, cells).dom().finite(),
        counts.restrict(cells).dom().finite(),
        mass(closed(counts, cells)) + mass(counts.restrict(cells)) == mass(counts),
{
    broadcast use group_multiset_axioms;

    vstd::set_lib::lemma_set_subset_finite(counts.dom(), closed(counts, cells).dom());
    vstd::set_lib::lemma_set_subset_finite(counts.dom(), counts.restrict(cells).dom());
    assert(Multiset::from_map(counts) =~= Multiset::from_map(closed(counts, cells)).add(
        Multiset::from_map(counts.restrict(cells)),
    ));
}

/// Where every open cell has a count of at least one, there are at most as
/// many open cells as the counter mass, and exactly as many when every
/// count is one.
pub proof fn law_open_cells_within_mass(counts: Map<GridCell, nat>)
    requires
        counts.dom().finite(),
        forall|c: GridCell| counts.contains_key(c) ==> counts[c] >= 1,
    ensures
        counts.dom().len() <= mass(counts),
        counts.dom().len() == mass(counts) <==> (forall|c: GridCell|
            counts.contains_key(c) ==> counts[c] == 1),
{
    broadcast use group_multiset_axioms;

    let all = Multiset::from_map(counts);
    let once = Multiset::from_set(counts.dom());
    let ones = Map::new(|c: GridCell| counts.dom().contains(c), |c: GridCell| 1nat);
    assert(ones.dom() =~= counts.dom());
    lemma_from_set_len(counts.dom());
    let extra = all.sub(once);
    assert(all =~= once.add(extra));
    if forall|c: GridCell| counts.contains_key(c) ==> counts[c] == 1 {
        assert(all =~= once);
    } else {
        let c = choose|c: GridCell| counts.contains_key(c) && counts[c] != 1;
        assert(extra.count(c) <= extra.len());
    }
}

/// One event keeps a valid state valid.
pub proof fn lemma_process_valid(state: FeatureState, event: GridCell)
    requires
        state.valid(),
    ensures
        state.process(event).valid(),
{
    law_window_is_temporal_sweep(event, state.span);
    law_opening_adds_mass(state.counts, window(event, state.span));
    law_closing_removes_mass(
        opened(state.counts, window(event, state.span)),
        state.closing(event).to_set(),
    );
}

/// A run of events keeps a valid state valid, and leaves the configuration
/// as it was.
pub proof fn lemma_run_valid(state: FeatureState, events: Seq<GridCell>)
    requires
        state.valid(),
    ensures
        state.run(events).valid(),
        state.run(events).bounds == state.bounds,
        state.run(events).span == state.span,
    decreases events.len(),
{
    if events.len() > 0 {
        lemma_process_valid(state, events[0]);
        lemma_run_valid(state.process(events[0]), events.drop_first());
    }
}

/// The balance of one event: the counter mass afterwards, together with the
/// mass that the event closed, is the mass before plus one for each cell of
/// the event's window.
pub proof fn law_mass_balance(state: FeatureState, event: GridCell)
    requires
        state.valid(),
    ensures
        mass(state.process(event).counts) + state.released(event) == mass(state.counts)
            + state.span - 1,
{
    law_window_is_temporal_sweep(event, state.span);
    law_opening_adds_mass(state.counts, window(event, state.span));
    law_closing_removes_mass(
        opened(state.counts, window(event, state.span)),
        state.closing(event).to_set(),
    );
}

/// The balance of a run of events: the counter mass afterwards is the mass
/// before, plus what the increments added, less what the closes removed.
pub proof fn law_run_mass_balance(state: FeatureState, events: Seq<GridCell>)
    requires
        state.valid(),
    ensures
        mass(state.run(events).counts) + state.released_by(events) == mass(state.counts)
            + events.len() * (state.span - 1),
    decreases events.len(),
{
    if events.len() > 0 {
        let rest = events.drop_first();
        law_mass_balance(state, events[0]);
        lemma_process_valid(state, events[0]);
        law_run_mass_balance(state.process(events[0]), rest);
        assert(events.len() * (state.span - 1) == rest.len() * (state.span - 1) + (state.span
            - 1)) by (nonlinear_arith)
            requires
                events.len() == rest.len() + 1,
        ;
    }
}

/// From a fresh accumulator, after a run of events, the counter mass is
/// what the increments added less what the closes removed. The number of
/// open cells is at most that, and equal to it exactly when every open cell
/// has a count of one.
pub proof fn law_fresh_run_balance(bounds: GridBounds, span: int, events: Seq<GridCell>)
    requires
        bounds.non_empty(),
        span >= 1,
    ensures
        ({
            let fresh = FeatureState::initial(bounds, span);
            let after = fresh.run(events);
            let added = events.len() * (span - 1);
            let removed = fresh.released_by(events);
            &&& mass(after.counts) == added - removed
            &&& after.counts.dom().len() <= added - removed
            &&& after.counts.dom().len() == added - removed <==> (forall|c: GridCell|
                after.counts.contains_key(c) ==> after.counts[c] == 1)
        }),
{
    let fresh = FeatureState::initial(bounds, span);
    law_mass_is_sum(Map::empty(), GridCell { t: 0, y: 0, x: 0 }, 0);
    lemma_run_valid(fresh, events);
    law_run_mass_balance(fresh, events);
    law_open_cells_within_mass(fresh.run(events).counts);
}

/// The first event closes nothing: its state afterwards holds the counts
/// from before with the window of the event opened.
pub proof fn law_first_event_closes_nothing(state: FeatureState, event: GridCell)
    requires
        state.previous.is_none(),
    ensures
        state.closing(event) == Seq::<GridCell>::empty(),
        state.process(event).counts == opened(state.counts, window(event, state.span)),
{
    law_degenerate_sweep_is_empty(event, state.bounds);
}

/// Where the previous event and `event` lie inside the window, `event`
/// closes exactly the cells of the window that lie strictly between the two
/// in the order of cells.
pub proof fn law_closing_is_between(state: FeatureState, previous: GridCell, event: GridCell)
    requires
        state.previous == Some(previous),
        state.bounds.contains(previous),
        state.bounds.contains(event),
    ensures
        forall|c: GridCell|
            #[trigger] state.closing(event).contains(c) <==> (state.bounds.contains(c)
                && previous.precedes(c) && c.precedes(event)),
{
    law_sweep_inside_window(previous, event, state.bounds);
}

/// Processing is a function of the state and the events: equal states fed
/// the same events end in equal states.
pub proof fn law_same_events_same_state(
    first: FeatureState,
    second: FeatureState,
    events: Seq<GridCell>,
)
    requires
        first == second,
    ensures
        first.run(events) == second.run(events),
{
}

} // verus!
