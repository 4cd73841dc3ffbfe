//! The windowed feature accumulator: for each event it increments a forward
//! span of cells and closes the cells between the previous event and the
//! current one.

use crate::event::QuantizedEvent;
use crate::grid::{
    cell_of_key, lemma_key_order, lemma_key_round_trip, spatial_cells, temporal_cells, GridCell,
};
use crate::spacetime::{SpaceTimeCell, SpaceTimeCellGenerator, SpatialBoundary, TimeCellGenerator};
use crate::tally::{
    closed, count_at, law_window_is_temporal_sweep, opened, window, FeatureState,
};
use std::collections::HashMap;
use vstd::prelude::*;
use vstd::set_lib::lemma_map_size;

verus! {

/// Something to do to the count of one cell.
pub trait FeatureAction {
    /// The cell that the action is aimed at, for use in contracts.
    spec fn cell(&self) -> SpaceTimeCell;

    /// The cell that the action is aimed at.
    fn target(&self) -> (cell: &SpaceTimeCell)
        ensures
            *cell == self.cell(),
    ;
}

/// Add 1 to the target feature value.
pub struct FeatureIncrement {
    cell: SpaceTimeCell,
}

/// Stop incrementing the target feature value.
pub struct FeatureClose {
    cell: SpaceTimeCell,
}

impl FeatureAction for FeatureIncrement {
    closed spec fn cell(&self) -> SpaceTimeCell {
        self.cell
    }

    fn target(&self) -> (cell: &SpaceTimeCell) {
        &self.cell
    }
}

impl FeatureAction for FeatureClose {
    closed spec fn cell(&self) -> SpaceTimeCell {
        self.cell
    }

    fn target(&self) -> (cell: &SpaceTimeCell) {
        &self.cell
    }
}

/// Closes, in raster order, the cells between two events.
pub struct CloseCellsBetween<'b> {
    cells: SpaceTimeCellGenerator<'b>,
}

impl<'b> CloseCellsBetween<'b> {
    /// The cells still to be closed, in order.
    pub closed spec fn remaining(&self) -> Seq<GridCell> {
        self.cells.remaining()
    }

    /// The closes for the cells after `start_event` and before `end_event`,
    /// in raster order within `bounds`.
    pub fn new(
        start_event: &QuantizedEvent,
        end_event: &QuantizedEvent,
        bounds: &'b SpatialBoundary,
    ) -> (closes: CloseCellsBetween<'b>)
        ensures
            closes.remaining() == spatial_cells(start_event@, end_event@, bounds@),
    {
        CloseCellsBetween {
            cells: SpaceTimeCellGenerator::new(&start_event.location, &end_event.location, bounds),
        }
    }

    /// Yields the next close, or `None` when there is none left.
    pub fn next(&mut self) -> (close: Option<FeatureClose>)
        ensures
            match close {
                Some(c) => {
                    &&& old(self).remaining().len() > 0
                    &&& c.cell()@ == old(self).remaining()[0]
                    &&& final(self).remaining() == old(self).remaining().drop_first()
                },
                None => {
                    &&& old(self).remaining().len() == 0
                    &&& final(self).remaining().len() == 0
                },
            },
    {
        match self.cells.next() {
            Some(cell) => Some(FeatureClose { cell: cell }),
            None => None,
        }
    }
}

/// Increments the cells at an event's place for a span of hours after it.
pub struct FutureSpanIncrementer {
    cells: TimeCellGenerator,
}

impl FutureSpanIncrementer {
    /// The cells still to be incremented, in order.
    pub closed spec fn remaining(&self) -> Seq<GridCell> {
        self.cells.remaining()
    }

    /// The increments for the cells at the place of `event`, from the hour
    /// after it to the hour before `span_hrs` hours have passed.
    pub fn new(event: &QuantizedEvent, span_hrs: u32) -> (increments: FutureSpanIncrementer)
        requires
            event@.t + span_hrs <= u32::MAX,
        ensures
            increments.remaining() == temporal_cells(event@, event@.later(span_hrs as int)),
    {
        let start_cell = &event.location;
        let end_cell = SpaceTimeCell {
            cell_x: start_cell.cell_x,
            cell_y: start_cell.cell_y,
            cell_t: start_cell.cell_t + span_hrs,
        };
        FutureSpanIncrementer { cells: TimeCellGenerator::new(start_cell, &end_cell) }
    }

    /// Yields the next increment, or `None` when there is none left.
    pub fn next(&mut self) -> (increment: Option<FeatureIncrement>)
        ensures
            match increment {
                Some(i) => {
                    &&& old(self).remaining().len() > 0
                    &&& i.cell()@ == old(self).remaining()[0]
                    &&& final(self).remaining() == old(self).remaining().drop_first()
                },
                None => {
                    &&& old(self).remaining().len() == 0
                    &&& final(self).remaining().len() == 0
                },
            },
    {
        match self.cells.next() {
            Some(cell) => Some(FeatureIncrement { cell: cell }),
            None => None,
        }
    }
}

/// Wrapper for the close and increment generators, to handle all outcomes of
/// an event.
pub trait Feature {
    /// Whether the feature, as it stands, can take `event`.
    spec fn accepts(&self, event: &QuantizedEvent) -> bool;

    /// Takes one event. Events are meant to come in the order of their
    /// cells, earliest first.
    fn accumulate_and_close(&mut self, event: QuantizedEvent)
        requires
            old(self).accepts(&event),
    ;
}

/// Whether an accumulator in `state` has room for `event`: the window of the
/// event must end within the time that a cell can hold, and no count in the
/// window may stand at the largest value that a counter can hold.
pub open spec fn takes(state: FeatureState, event: GridCell) -> bool {
    &&& event.t + state.span <= u32::MAX
    &&& forall|c: GridCell|
        window(event, state.span).contains(c) ==> count_at(state.counts, c) < u8::MAX
}

/// What a table keyed by packed cells holds, read as counts per cell.
pub open spec fn counts_of(table: Map<u64, u8>) -> Map<GridCell, nat> {
    Map::new(
        |c: GridCell| c.representable() && table.contains_key(c.key() as u64),
        |c: GridCell| table[c.key() as u64] as nat,
    )
}

/// The future-span feature: every event is broadcast into the cells at its
/// place for `span_hrs` hours ahead, and the cells that the stream of events
/// has passed are closed.
pub struct FutureSpanFeature {
    bounds: SpatialBoundary,
    span_hrs: u32,
    prev_event: Option<QuantizedEvent>,
    feature_map: HashMap<u64, u8>,
}

impl View for FutureSpanFeature {
    type V = FeatureState;

    closed spec fn view(&self) -> FeatureState {
        FeatureState {
            bounds: self.bounds@,
            span: self.span_hrs as int,
            previous: match self.prev_event {
                Some(event) => Some(event@),
                None => None,
            },
            counts: counts_of(self.feature_map@),
        }
    }
}

/// Writing a count under the key of a cell writes the count of that cell
/// and of no other.
proof fn lemma_counts_insert(table: Map<u64, u8>, cell: GridCell, count: u8)
    requires
        cell.representable(),
    ensures
        counts_of(table.insert(cell.key() as u64, count)) == counts_of(table).insert(
            cell,
            count as nat,
        ),
{
    assert forall|c: GridCell| c.representable() implies (#[trigger] c.key() as u64 == cell.key() as u64
        <==> c == cell) by {
        lemma_key_order(c, cell);
    }
}

/// Removing the key of a cell removes that cell and no other.
proof fn lemma_counts_remove(table: Map<u64, u8>, cell: GridCell)
    requires
        cell.representable(),
    ensures
        counts_of(table.remove(cell.key() as u64)) == counts_of(table).remove(cell),
{
    assert forall|c: GridCell| c.representable() implies (#[trigger] c.key() as u64 == cell.key() as u64
        <==> c == cell) by {
        lemma_key_order(c, cell);
    }
}

/// The cells of a table are the unpacked keys of the table, one for one.
proof fn lemma_counts_domain(table: Map<u64, u8>)
    requires
        table.dom().finite(),
    ensures
        counts_of(table).dom().finite(),
        counts_of(table).dom().len() == table.dom().len(),
{
    let unpack = |k: u64| cell_of_key(k as int);
    assert forall|k: u64| cell_of_key(k as int).representable() && #[trigger] cell_of_key(
        k as int,
    ).key() == k by {
        lemma_key_round_trip(cell_of_key(k as int), k as int);
    }
    assert forall|c: GridCell| c.representable() implies #[trigger] cell_of_key(c.key()) == c by {
        lemma_key_round_trip(c, 0);
    }
    assert(table.dom().map(unpack) =~= counts_of(table).dom());
    lemma_map_size(table.dom(), counts_of(table).dom(), unpack);
}

/// The cells of a prefix of a sequence, one longer: the cells of the prefix
/// and the cell that follows it.
proof fn lemma_take_one_more(cells: Seq<GridCell>, n: int)
    requires
        0 <= n < cells.len(),
    ensures
        cells.take(n + 1).to_set() == cells.take(n).to_set().insert(cells[n]),
{
    let longer = cells.take(n + 1);
    let shorter = cells.take(n);
    assert forall|c: GridCell| longer.to_set().contains(c) <==> shorter.to_set().insert(
        cells[n],
    ).contains(c) by {
        assert(longer[n] == cells[n]);
    }
}

/// The events of a sequence as cells of the grid.
pub open spec fn cells_of(events: Seq<QuantizedEvent>) -> Seq<GridCell> {
    events.map_values(|event: QuantizedEvent| event@)
}

/// A run over events and one more is the run over the events, followed by
/// the last one.
proof fn lemma_run_one_more(state: FeatureState, events: Seq<GridCell>, last: GridCell)
    ensures
        state.run(events.push(last)) == state.run(events).process(last),
    decreases events.len(),
{
    if events.len() == 0 {
        assert(events.push(last).drop_first() =~= events);
        assert(state.process(last).run(events) == state.process(last));
    } else {
        assert(events.push(last).drop_first() =~= events.drop_first().push(last));
        lemma_run_one_more(state.process(events[0]), events.drop_first(), last);
    }
}

impl FutureSpanFeature {
    /// The accumulator is well formed: its configuration is sound and no
    /// cell is kept with a count of zero.
    pub closed spec fn wf(&self) -> bool {
        &&& self.bounds@.non_empty()
        &&& self.span_hrs >= 1
        &&& forall|k: u64| self.feature_map@.contains_key(k) ==> self.feature_map@[k] >= 1
    }

    /// A fresh accumulator with no open cell and no previous event.
    pub fn new(bounds: SpatialBoundary, span: u32) -> (feature: FutureSpanFeature)
        requires
            bounds@.non_empty(),
            span >= 1,
        ensures
            feature.wf(),
            feature@ == FeatureState::initial(bounds@, span as int),
    {
        let feature = FutureSpanFeature {
            bounds: bounds,
            span_hrs: span,
            prev_event: None,
            feature_map: HashMap::new(),
        };
        assert(counts_of(feature.feature_map@) =~= Map::empty());
        feature
    }

    /// A fresh accumulator, or `None` where the configuration is unsound: a
    /// boundary without cells, or a span of no hours.
    pub fn try_new(bounds: SpatialBoundary, span: u32) -> (feature: Option<FutureSpanFeature>)
        ensures
            feature.is_some() <==> bounds@.non_empty() && span >= 1,
            feature matches Some(f) ==> f.wf() && f@ == FeatureState::initial(
                bounds@,
                span as int,
            ),
    {
        if bounds.is_non_empty() && span >= 1 {
            Some(FutureSpanFeature::new(bounds, span))
        } else {
            None
        }
    }

    /// The state of a well-formed accumulator is valid: finitely many cells
    /// are open, and each has a count of at least one.
    pub proof fn lemma_wf_valid(&self)
        requires
            self.wf(),
        ensures
            self@.valid(),
    {
        lemma_counts_domain(self.feature_map@);
    }

    /// The spatial boundary that the accumulator was made with.
    pub fn bounds(&self) -> (bounds: &SpatialBoundary)
        ensures
            bounds@ == self@.bounds,
    {
        &self.bounds
    }

    /// The span, in hours, that the accumulator was made with.
    pub fn span_hours(&self) -> (span: u32)
        ensures
            span == self@.span,
    {
        self.span_hrs
    }

    /// The event taken last, if any.
    pub fn previous_event(&self) -> (previous: Option<QuantizedEvent>)
        ensures
            match previous {
                Some(event) => self@.previous == Some(event@),
                None => self@.previous.is_none(),
            },
    {
        self.prev_event
    }

    /// The table of open cells, keyed by the packed cell, for inspection.
    pub fn feature_map(&self) -> (table: &HashMap<u64, u8>)
        ensures
            counts_of(table@) == self@.counts,
    {
        &self.feature_map
    }

    /// The count of `cell`; zero when the cell is not open.
    pub fn count(&self, cell: &SpaceTimeCell) -> (count: u8)
        ensures
            count == count_at(self@.counts, cell@),
            self.wf() ==> (count >= 1 <==> self@.counts.contains_key(cell@)),
    {
        let key = cell.key();
        match self.feature_map.get(&key) {
            Some(val) => *val,
            None => 0,
        }
    }

    /// Whether `cell` is open.
    pub fn is_open(&self, cell: &SpaceTimeCell) -> (open: bool)
        ensures
            open == self@.counts.contains_key(cell@),
    {
        let key = cell.key();
        self.feature_map.contains_key(&key)
    }

    /// The number of open cells.
    pub fn open_cells(&self) -> (cells: usize)
        ensures
            cells == self@.counts.dom().len(),
    {
        proof {
            lemma_counts_domain(self.feature_map@);
        }
        self.feature_map.len()
    }

    /// Whether the accumulator can take `event`: the test that
    /// `accumulate_and_close` asks of its caller.
    pub fn can_accept(&self, event: &QuantizedEvent) -> (ok: bool)
        requires
            self.wf(),
        ensures
            ok == self.accepts(event),
    {
        if event.location.cell_t > u32::MAX - self.span_hrs {
            return false;
        }
        let mut increments = FutureSpanIncrementer::new(event, self.span_hrs);
        let ghost sweep = temporal_cells(event@, event@.later(self.span_hrs as int));
        let ghost mut done: int = 0;
        proof {
            law_window_is_temporal_sweep(event@, self.span_hrs as int);
        }
        loop
            invariant
                0 <= done <= sweep.len(),
                increments.remaining() == sweep.skip(done),
                sweep.to_set() == window(event@, self@.span),
                forall|i: int| 0 <= i < done ==> count_at(self@.counts, sweep[i]) < u8::MAX,
            ensures
                done == sweep.len(),
            decreases increments.remaining().len(),
        {
            match increments.next() {
                Some(inc) => {
                    if self.count(inc.target()) == u8::MAX {
                        proof {
                            assert(sweep.to_set().contains(sweep[done]));
                        }
                        return false;
                    }
                    proof {
                        done = done + 1;
                    }
                },
                None => {
                    break ;
                },
            }
        }
        proof {
            assert forall|c: GridCell| window(event@, self@.span).contains(c) implies count_at(
                self@.counts,
                c,
            ) < u8::MAX by {
                let i = choose|i: int| 0 <= i < sweep.len() && sweep[i] == c;
                assert(count_at(self@.counts, sweep[i]) < u8::MAX);
            }
        }
        true
    }

    /// Takes the events in order, for as long as each can be taken, and
    /// returns how many were taken. It stops before the first event for
    /// which the accumulator has no room.
    pub fn accumulate_all(&mut self, events: &Vec<QuantizedEvent>) -> (taken: usize)
        requires
            old(self).wf(),
        ensures
            final(self).wf(),
            taken <= events.len(),
            final(self)@ == old(self)@.run(cells_of(events@.take(taken as int))),
            forall|i: int|
                0 <= i < taken ==> takes(
                    old(self)@.run(cells_of(events@.take(i))),
                    #[trigger] events[i]@,
                ),
            taken < events.len() ==> !takes(final(self)@, events[taken as int]@),
    {
        let ghost before = self@;
        let mut taken: usize = 0;
        while taken < events.len()
            invariant
                self.wf(),
                before == old(self)@,
                taken <= events.len(),
                self@ == before.run(cells_of(events@.take(taken as int))),
                forall|i: int|
                    0 <= i < taken ==> takes(
                        before.run(cells_of(events@.take(i))),
                        #[trigger] events[i]@,
                    ),
            decreases events.len() - taken,
        {
            let event = events[taken];
            if !self.can_accept(&event) {
                return taken;
            }
            proof {
                lemma_run_one_more(before, cells_of(events@.take(taken as int)), event@);
                assert(cells_of(events@.take(taken as int)).push(event@) =~= cells_of(
                    events@.take(taken + 1),
                ));
            }
            self.accumulate_and_close(event);
            taken = taken + 1;
        }
        taken
    }
}

impl Feature for FutureSpanFeature {
    /// The accumulator is well formed and has room for `event`.
    open spec fn accepts(&self, event: &QuantizedEvent) -> bool {
        self.wf() && takes(self@, event@)
    }

    /// Takes one event: increments every cell of its window, closes the
    /// cells between the previous event and this one, and remembers the
    /// event. Nothing is closed by the first event, nor by an event that
    /// comes out of order, before the previous one.
    fn accumulate_and_close(&mut self, event: QuantizedEvent)
        ensures
            final(self).wf(),
            final(self)@ == old(self)@.process(event@),
    {
        let ghost before = self@;
        let ghost sweep = temporal_cells(event@, event@.later(self.span_hrs as int));
        let ghost closing = before.closing(event@);
        let mut increments = FutureSpanIncrementer::new(&event, self.span_hrs);
        let mut closes = match self.prev_event {
            Some(ref prev) => CloseCellsBetween::new(prev, &event, &self.bounds),
            None => CloseCellsBetween::new(&event, &event, &self.bounds),
        };
        let ghost mut done: int = 0;
        proof {
            law_window_is_temporal_sweep(event@, self.span_hrs as int);
        }
        loop
            invariant
                self.bounds@ == before.bounds,
                self.span_hrs == before.span,
                0 <= done <= sweep.len(),
                increments.remaining() == sweep.skip(done),
                sweep == temporal_cells(event@, event@.later(self.span_hrs as int)),
                sweep.to_set() == window(event@, before.span),
                forall|i: int| 0 <= i < sweep.len() ==> sweep[i] == event@.later(i + 1),
                forall|c: GridCell|
                    window(event@, before.span).contains(c) ==> count_at(before.counts, c)
                        < u8::MAX,
                counts_of(self.feature_map@) == opened(before.counts, sweep.take(done).to_set()),
                forall|k: u64| self.feature_map@.contains_key(k) ==> self.feature_map@[k] >= 1,
            ensures
                done == sweep.len(),
            decreases increments.remaining().len(),
        {
            match increments.next() {
                Some(inc) => {
                    let cell = inc.target();
                    let key = cell.key();
                    proof {
                        assert(sweep.to_set().contains(cell@));
                        assert(!sweep.take(done).to_set().contains(cell@)) by {
                            if sweep.take(done).contains(cell@) {
                                let i = choose|i: int|
                                    0 <= i < sweep.take(done).len() && sweep.take(done)[i]
                                        == cell@;
                                assert(sweep[i] == cell@);
                            }
                        }
                        assert(count_at(counts_of(self.feature_map@), cell@) == count_at(
                            before.counts,
                            cell@,
                        ));
                    }
                    let ghost table = self.feature_map@;
                    let ghost count = count_at(before.counts, cell@);
                    let value = self.feature_map.entry(key).or_insert(0);
                    *value += 1;
                    proof {
                        lemma_counts_insert(table, cell@, (count + 1) as u8);
                        lemma_take_one_more(sweep, done);
                        done = done + 1;
                    }
                },
                None => {
                    break ;
                },
            }
        }
        let ghost widened = counts_of(self.feature_map@);
        proof {
            assert(sweep.take(done) =~= sweep);
            done = 0;
        }
        loop
            invariant
                self.bounds@ == before.bounds,
                self.span_hrs == before.span,
                0 <= done <= closing.len(),
                closes.remaining() == closing.skip(done),
                counts_of(self.feature_map@) == closed(widened, closing.take(done).to_set()),
                forall|k: u64| self.feature_map@.contains_key(k) ==> self.feature_map@[k] >= 1,
            ensures
                done == closing.len(),
            decreases closes.remaining().len(),
        {
            match closes.next() {
                Some(close) => {
                    let cell = close.target();
                    let key = cell.key();
                    let ghost table = self.feature_map@;
                    self.feature_map.remove(&key);
                    proof {
                        lemma_counts_remove(table, cell@);
                        lemma_take_one_more(closing, done);
                        done = done + 1;
                    }
                },
                None => {
                    break ;
                },
            }
        }
        self.prev_event = Some(event);
    }
}

} // verus!
