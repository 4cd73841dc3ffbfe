use spacetime_features::spacetime::{
    SpaceTimeCell, SpaceTimeCellGenerator, SpatialBoundary, TimeCellGenerator,
};

fn cell(t: u32, y: u16, x: u16) -> SpaceTimeCell {
    SpaceTimeCell { cell_t: t, cell_y: y, cell_x: x }
}

fn two_by_two() -> SpatialBoundary {
    SpatialBoundary { along_x: 0..2, along_y: 0..2 }
}

fn drain_spatial(start: SpaceTimeCell, end: SpaceTimeCell, bounds: &SpatialBoundary) -> Vec<SpaceTimeCell> {
    let mut cells = SpaceTimeCellGenerator::new(&start, &end, bounds);
    let mut out = Vec::new();
    while let Some(c) = cells.next() {
        out.push(c);
    }
    out
}

fn drain_temporal(start: SpaceTimeCell, end: SpaceTimeCell) -> Vec<SpaceTimeCell> {
    let mut cells = TimeCellGenerator::new(&start, &end);
    let mut out = Vec::new();
    while let Some(c) = cells.next() {
        out.push(c);
    }
    out
}

#[test]
fn boundary_membership_is_half_open() {
    let bounds = SpatialBoundary { along_x: 3..7, along_y: 10..12 };
    assert!(!bounds.x_in(2));
    assert!(bounds.x_in(3));
    assert!(bounds.x_in(6));
    assert!(!bounds.x_in(7));
    assert!(!bounds.y_in(9));
    assert!(bounds.y_in(10));
    assert!(bounds.y_in(11));
    assert!(!bounds.y_in(12));
}

#[test]
fn rows_are_tested_against_the_row_range() {
    let bounds = SpatialBoundary { along_x: 0..10, along_y: 0..3 };
    assert!(bounds.y_in(2));
    assert!(!bounds.y_in(3));
    assert!(!bounds.y_in(5));
    assert!(bounds.x_in(5));
}

#[test]
fn boundary_emptiness() {
    assert!(two_by_two().is_non_empty());
    assert!(!SpatialBoundary { along_x: 4..4, along_y: 0..2 }.is_non_empty());
    assert!(!SpatialBoundary { along_x: 0..2, along_y: 5..3 }.is_non_empty());
}

#[test]
fn from_cell_copies_every_coordinate() {
    let c = cell(123_456, 17, 42);
    let d = SpaceTimeCell::from_cell(&c);
    assert_eq!(d.cell_t, 123_456);
    assert_eq!(d.cell_y, 17);
    assert_eq!(d.cell_x, 42);
    assert_eq!(c, d);
}

#[test]
fn cells_order_by_time_then_row_then_column() {
    let cells = vec![
        cell(1, 0, 0),
        cell(1, 0, 5),
        cell(1, 2, 0),
        cell(1, 2, 1),
        cell(2, 0, 0),
        cell(2, 1, 0),
    ];
    for (i, a) in cells.iter().enumerate() {
        for (j, b) in cells.iter().enumerate() {
            assert_eq!(a.precedes(b), i < j);
            assert_eq!(a < b, i < j);
            assert_eq!(a.key() < b.key(), i < j);
            assert_eq!(a == b, i == j);
        }
    }
}

#[test]
fn key_packs_time_row_and_column() {
    assert_eq!(cell(0, 0, 0).key(), 0);
    assert_eq!(cell(0, 0, 7).key(), 7);
    assert_eq!(cell(0, 3, 7).key(), 3 * 65_536 + 7);
    assert_eq!(cell(2, 3, 7).key(), 2 * 4_294_967_296 + 3 * 65_536 + 7);
    assert_eq!(cell(u32::MAX, u16::MAX, u16::MAX).key(), u64::MAX);
}

#[test]
fn from_key_undoes_key() {
    for c in [cell(0, 0, 0), cell(17, 3, 9), cell(u32::MAX, u16::MAX, u16::MAX), cell(5, 0, 65_535)] {
        assert_eq!(SpaceTimeCell::from_key(c.key()), c);
    }
    assert_eq!(SpaceTimeCell::from_key(2 * 4_294_967_296 + 3 * 65_536 + 7), cell(2, 3, 7));
}

#[test]
fn next_cell_advances_the_column_first() {
    let bounds = two_by_two();
    assert_eq!(cell(10, 0, 0).next_cell(&bounds), cell(10, 0, 1));
    assert_eq!(cell(10, 1, 0).next_cell(&bounds), cell(10, 1, 1));
}

#[test]
fn next_cell_carries_into_the_row() {
    let bounds = two_by_two();
    assert_eq!(cell(10, 0, 1).next_cell(&bounds), cell(10, 1, 0));
}

#[test]
fn next_cell_carries_into_time() {
    let bounds = two_by_two();
    assert_eq!(cell(10, 1, 1).next_cell(&bounds), cell(11, 0, 0));
}

#[test]
fn next_cell_wraps_to_the_boundary_minimum() {
    let bounds = SpatialBoundary { along_x: 5..8, along_y: 2..4 };
    assert_eq!(cell(7, 2, 7).next_cell(&bounds), cell(7, 3, 5));
    assert_eq!(cell(7, 3, 7).next_cell(&bounds), cell(8, 2, 5));
}

#[test]
fn next_cell_from_just_left_of_the_boundary_only_moves_the_column() {
    let bounds = SpatialBoundary { along_x: 5..8, along_y: 2..4 };
    assert_eq!(cell(7, 2, 4).next_cell(&bounds), cell(7, 2, 5));
}

#[test]
fn next_cell_from_outside_the_boundary_wraps() {
    let bounds = SpatialBoundary { along_x: 5..8, along_y: 2..4 };
    assert_eq!(cell(7, 2, 500).next_cell(&bounds), cell(7, 3, 5));
    assert_eq!(cell(7, 900, 500).next_cell(&bounds), cell(8, 2, 5));
}

#[test]
fn next_cell_at_the_largest_column_and_row_wraps() {
    let bounds = SpatialBoundary { along_x: 65_534..65_535, along_y: 65_534..65_535 };
    assert_eq!(cell(3, 65_534, 65_535).next_cell(&bounds), cell(4, 65_534, 65_534));
    assert_eq!(cell(3, 65_535, 65_535).next_cell(&bounds), cell(4, 65_534, 65_534));
    assert_eq!(cell(3, 65_533, 65_535).next_cell(&bounds), cell(3, 65_534, 65_534));
}

#[test]
fn can_advance_is_false_only_where_time_would_overflow() {
    let bounds = two_by_two();
    assert!(cell(u32::MAX, 0, 0).can_advance(&bounds));
    assert!(cell(u32::MAX, 0, 1).can_advance(&bounds));
    assert!(!cell(u32::MAX, 1, 1).can_advance(&bounds));
    assert!(cell(u32::MAX - 1, 1, 1).can_advance(&bounds));
    assert_eq!(cell(u32::MAX, 0, 1).next_cell(&bounds), cell(u32::MAX, 1, 0));
}

#[test]
fn a_full_sweep_is_one_time_step() {
    let bounds = SpatialBoundary { along_x: 5..8, along_y: 2..4 };
    let starts = [cell(7, 3, 6), cell(7, 2, 5), cell(7, 3, 7), cell(0, 2, 7)];
    for start in starts {
        let mut c = start;
        for _ in 0..(3 * 2) {
            c = c.next_cell(&bounds);
        }
        assert_eq!(c, cell(start.cell_t + 1, start.cell_y, start.cell_x));
    }
}

#[test]
fn a_full_sweep_visits_every_cell_of_the_window_once() {
    let bounds = SpatialBoundary { along_x: 5..8, along_y: 2..4 };
    let mut c = cell(7, 2, 5);
    let mut seen = Vec::new();
    for _ in 0..6 {
        seen.push(c);
        c = c.next_cell(&bounds);
    }
    assert_eq!(
        seen,
        vec![cell(7, 2, 5), cell(7, 2, 6), cell(7, 2, 7), cell(7, 3, 5), cell(7, 3, 6), cell(7, 3, 7)]
    );
}

#[test]
fn next_time_cell_adds_one_hour_and_keeps_the_place() {
    assert_eq!(cell(10, 4, 9).next_time_cell(), cell(11, 4, 9));
    assert_eq!(cell(u32::MAX - 1, 0, 0).next_time_cell(), cell(u32::MAX, 0, 0));
}

#[test]
fn n_time_steps_add_n_hours() {
    let start = cell(100, 4, 9);
    let mut c = start;
    for n in 1..=50u32 {
        c = c.next_time_cell();
        assert_eq!(c, cell(100 + n, 4, 9));
    }
}

#[test]
fn spatial_generator_yields_the_cells_strictly_between() {
    let bounds = two_by_two();
    assert_eq!(
        drain_spatial(cell(10, 0, 1), cell(11, 0, 1), &bounds),
        vec![cell(10, 1, 0), cell(10, 1, 1), cell(11, 0, 0)]
    );
}

#[test]
fn spatial_generator_never_yields_the_end() {
    let bounds = two_by_two();
    let cells = drain_spatial(cell(10, 0, 0), cell(10, 1, 1), &bounds);
    assert_eq!(cells, vec![cell(10, 0, 1), cell(10, 1, 0)]);
}

#[test]
fn spatial_generator_between_neighbours_is_empty() {
    let bounds = two_by_two();
    assert_eq!(drain_spatial(cell(10, 0, 0), cell(10, 0, 1), &bounds), vec![]);
}

#[test]
fn spatial_generator_from_a_cell_to_itself_is_empty() {
    let bounds = two_by_two();
    for c in [cell(10, 0, 0), cell(10, 1, 1), cell(0, 0, 0), cell(10, 7, 7)] {
        let mut cells = SpaceTimeCellGenerator::new(&c, &c, &bounds);
        assert_eq!(cells.next(), None);
    }
}

#[test]
fn spatial_generator_backwards_is_empty() {
    let bounds = two_by_two();
    assert_eq!(drain_spatial(cell(11, 0, 0), cell(10, 0, 0), &bounds), vec![]);
}

#[test]
fn spatial_generator_stays_exhausted() {
    let bounds = two_by_two();
    let mut cells = SpaceTimeCellGenerator::new(&cell(10, 0, 0), &cell(10, 1, 0), &bounds);
    assert_eq!(cells.next(), Some(cell(10, 0, 1)));
    assert_eq!(cells.next(), None);
    assert_eq!(cells.next(), None);
    assert_eq!(cells.next(), None);
}

#[test]
fn spatial_generator_stops_at_the_end_of_time() {
    let bounds = two_by_two();
    let mut cells =
        SpaceTimeCellGenerator::new(&cell(u32::MAX, 1, 0), &cell(u32::MAX, 5, 5), &bounds);
    assert_eq!(cells.next(), Some(cell(u32::MAX, 1, 1)));
    assert_eq!(cells.next(), None);
    assert_eq!(cells.next(), None);
}

#[test]
fn spatial_generator_spans_several_time_slices() {
    let bounds = SpatialBoundary { along_x: 0..230, along_y: 0..171 };
    let cells = drain_spatial(cell(5, 170, 228), cell(7, 0, 1), &bounds);
    assert_eq!(cells.len(), 1 + 230 * 171 + 1);
    assert_eq!(cells[0], cell(5, 170, 229));
    assert_eq!(cells[1], cell(6, 0, 0));
    assert_eq!(cells[cells.len() - 1], cell(7, 0, 0));
    for pair in cells.windows(2) {
        assert!(pair[0].precedes(&pair[1]));
        assert_eq!(pair[0].next_cell(&bounds), pair[1]);
    }
}

#[test]
fn temporal_generator_yields_the_hours_strictly_between() {
    assert_eq!(
        drain_temporal(cell(10, 3, 4), cell(14, 3, 4)),
        vec![cell(11, 3, 4), cell(12, 3, 4), cell(13, 3, 4)]
    );
}

#[test]
fn temporal_generator_with_a_span_of_one_hour_is_empty() {
    assert_eq!(drain_temporal(cell(10, 3, 4), cell(11, 3, 4)), vec![]);
    assert_eq!(drain_temporal(cell(10, 3, 4), cell(10, 3, 4)), vec![]);
    assert_eq!(drain_temporal(cell(10, 3, 4), cell(9, 3, 4)), vec![]);
}

#[test]
fn temporal_generator_towards_another_place_stops_where_the_order_says() {
    assert_eq!(drain_temporal(cell(5, 3, 3), cell(7, 0, 0)), vec![cell(6, 3, 3)]);
    assert_eq!(drain_temporal(cell(5, 3, 3), cell(7, 5, 0)), vec![cell(6, 3, 3), cell(7, 3, 3)]);
    assert_eq!(drain_temporal(cell(5, 3, 3), cell(7, 3, 4)), vec![cell(6, 3, 3), cell(7, 3, 3)]);
}

#[test]
fn temporal_generator_stays_exhausted() {
    let mut cells = TimeCellGenerator::new(&cell(10, 0, 0), &cell(12, 0, 0));
    assert_eq!(cells.next(), Some(cell(11, 0, 0)));
    assert_eq!(cells.next(), None);
    assert_eq!(cells.next(), None);
}

#[test]
fn temporal_generator_stops_at_the_end_of_time() {
    let mut cells = TimeCellGenerator::new(&cell(u32::MAX - 1, 0, 0), &cell(u32::MAX, 9, 9));
    assert_eq!(cells.next(), Some(cell(u32::MAX, 0, 0)));
    assert_eq!(cells.next(), None);
    assert_eq!(cells.next(), None);
}

#[test]
fn the_two_generators_agree_on_a_grid_of_one_cell() {
    let bounds = SpatialBoundary { along_x: 4..5, along_y: 9..10 };
    let start = cell(3, 9, 4);
    let end = cell(7, 9, 4);
    let spatial = drain_spatial(start, end, &bounds);
    let temporal = drain_temporal(start, end);
    assert_eq!(spatial, vec![cell(4, 9, 4), cell(5, 9, 4), cell(6, 9, 4)]);
    assert_eq!(spatial, temporal);
}

#[test]
fn the_two_generators_differ_where_space_wraps() {
    let bounds = two_by_two();
    let start = cell(10, 0, 0);
    let end = cell(12, 0, 0);
    let spatial = drain_spatial(start, end, &bounds);
    let temporal = drain_temporal(start, end);
    assert_eq!(temporal, vec![cell(11, 0, 0)]);
    assert_eq!(
        spatial,
        vec![
            cell(10, 0, 1),
            cell(10, 1, 0),
            cell(10, 1, 1),
            cell(11, 0, 0),
            cell(11, 0, 1),
            cell(11, 1, 0),
            cell(11, 1, 1),
        ]
    );
}

#[test]
fn a_sweep_inside_the_window_is_every_cell_of_the_window_between() {
    let bounds = SpatialBoundary { along_x: 5..8, along_y: 2..4 };
    let start = cell(7, 3, 6);
    let end = cell(9, 2, 7);
    let swept = drain_spatial(start, end, &bounds);
    let mut between = Vec::new();
    for t in 6..11u32 {
        for y in 0..6u16 {
            for x in 0..10u16 {
                let c = cell(t, y, x);
                if bounds.x_in(x) && bounds.y_in(y) && start.precedes(&c) && c.precedes(&end) {
                    between.push(c);
                }
            }
        }
    }
    assert_eq!(swept, between);
    assert_eq!(swept.len(), 1 + 6 + 2);
    assert_eq!(swept[0], cell(7, 3, 7));
    assert_eq!(swept[swept.len() - 1], cell(9, 2, 6));
}

#[test]
fn the_spatial_sweep_at_the_start_place_is_the_temporal_sweep() {
    let bounds = SpatialBoundary { along_x: 5..8, along_y: 2..4 };
    for (start, end) in [
        (cell(10, 2, 5), cell(14, 2, 5)),
        (cell(10, 3, 6), cell(13, 3, 6)),
        (cell(10, 3, 7), cell(11, 3, 7)),
        (cell(10, 2, 6), cell(13, 3, 5)),
        (cell(10, 3, 6), cell(13, 2, 5)),
        (cell(10, 2, 6), cell(10, 2, 6)),
    ] {
        let at_start: Vec<SpaceTimeCell> = drain_spatial(start, end, &bounds)
            .into_iter()
            .filter(|c| c.cell_y == start.cell_y && c.cell_x == start.cell_x)
            .collect();
        assert_eq!(at_start, drain_temporal(start, end));
    }
    let two = two_by_two();
    let at_start: Vec<SpaceTimeCell> = drain_spatial(cell(10, 0, 0), cell(12, 0, 0), &two)
        .into_iter()
        .filter(|c| c.cell_y == 0 && c.cell_x == 0)
        .collect();
    assert_eq!(at_start, vec![cell(11, 0, 0)]);
}
