use chrono::NaiveDate;
use spacetime_features::event::QuantizedEvent;
use spacetime_features::spacetime::SpaceTimeCell;

#[test]
fn hour_number_is_days_times_24_plus_hour() {
    let event = QuantizedEvent::from_day_and_hour(719_163, 5, 12, 34).unwrap();
    assert_eq!(event.location, SpaceTimeCell { cell_t: 17_259_917, cell_y: 34, cell_x: 12 });
}

#[test]
fn day_zero_hour_zero_is_time_zero() {
    let event = QuantizedEvent::from_day_and_hour(0, 0, 0, 0).unwrap();
    assert_eq!(event.location, SpaceTimeCell { cell_t: 0, cell_y: 0, cell_x: 0 });
    let event = QuantizedEvent::from_day_and_hour(1, 23, 7, 9).unwrap();
    assert_eq!(event.location, SpaceTimeCell { cell_t: 47, cell_y: 9, cell_x: 7 });
}

#[test]
fn a_negative_day_gives_no_event() {
    assert!(QuantizedEvent::from_day_and_hour(-1, 5, 0, 0).is_none());
    assert!(QuantizedEvent::from_day_and_hour(i32::MIN, 0, 0, 0).is_none());
}

#[test]
fn an_hour_number_beyond_32_bits_gives_no_event() {
    // 178_956_970 * 24 = 4_294_967_280, fifteen short of the largest time.
    let last = QuantizedEvent::from_day_and_hour(178_956_970, 15, 1, 2).unwrap();
    assert_eq!(last.location.cell_t, u32::MAX);
    assert!(QuantizedEvent::from_day_and_hour(178_956_970, 16, 1, 2).is_none());
    assert!(QuantizedEvent::from_day_and_hour(178_956_971, 0, 1, 2).is_none());
    assert!(QuantizedEvent::from_day_and_hour(i32::MAX, 0, 1, 2).is_none());
    assert!(QuantizedEvent::from_day_and_hour(0, u32::MAX, 1, 2).is_some());
    assert!(QuantizedEvent::from_day_and_hour(1, u32::MAX, 1, 2).is_none());
}

#[test]
fn an_event_takes_its_time_slice_from_the_calendar() {
    let end = NaiveDate::from_ymd_opt(1970, 1, 1).unwrap().and_hms_opt(5, 59, 59).unwrap();
    let event = QuantizedEvent::from_end_time(&end, 12, 34).unwrap();
    assert_eq!(event.location, SpaceTimeCell { cell_t: 719_163 * 24 + 5, cell_y: 34, cell_x: 12 });
}

#[test]
fn the_first_hour_of_the_common_era() {
    let end = NaiveDate::from_ymd_opt(1, 1, 1).unwrap().and_hms_opt(0, 0, 0).unwrap();
    let event = QuantizedEvent::from_end_time(&end, 0, 0).unwrap();
    assert_eq!(event.location.cell_t, 24);
    let end = NaiveDate::from_ymd_opt(2016, 2, 29).unwrap().and_hms_opt(23, 0, 1).unwrap();
    let event = QuantizedEvent::from_end_time(&end, 229, 170).unwrap();
    assert_eq!(event.location, SpaceTimeCell { cell_t: 736_023 * 24 + 23, cell_y: 170, cell_x: 229 });
}

#[test]
fn a_moment_before_the_common_era_gives_no_event() {
    let end = NaiveDate::from_ymd_opt(0, 1, 1).unwrap().and_hms_opt(12, 0, 0).unwrap();
    assert!(QuantizedEvent::from_end_time(&end, 1, 1).is_none());
}

#[test]
fn events_are_plain_values() {
    let a = QuantizedEvent { location: SpaceTimeCell { cell_t: 1, cell_y: 2, cell_x: 3 } };
    let b = a;
    assert_eq!(a, b);
    assert_eq!(format!("{:?}", a.location), "SpaceTimeCell { cell_t: 1, cell_y: 2, cell_x: 3 }");
}

#[test]
fn the_same_moment_gives_the_same_event() {
    let end = NaiveDate::from_ymd_opt(2015, 9, 18).unwrap().and_hms_opt(23, 56, 4).unwrap();
    let again = NaiveDate::from_ymd_opt(2015, 9, 18).unwrap().and_hms_opt(23, 56, 4).unwrap();
    let first = QuantizedEvent::from_end_time(&end, 3, 4);
    assert_eq!(first, QuantizedEvent::from_end_time(&end, 3, 4));
    assert_eq!(first, QuantizedEvent::from_end_time(&again, 3, 4));
    assert_eq!(first.unwrap().location.cell_t, 735_859 * 24 + 23);
}

#[test]
fn every_hour_of_a_day_has_its_own_time_slice() {
    let day = NaiveDate::from_ymd_opt(2000, 1, 1).unwrap();
    for hour in 0..24u32 {
        let end = day.and_hms_opt(hour, 30, 0).unwrap();
        let event = QuantizedEvent::from_end_time(&end, 0, 0).unwrap();
        assert_eq!(event.location.cell_t, 730_120 * 24 + hour);
    }
    let next = day.succ_opt().unwrap().and_hms_opt(0, 0, 0).unwrap();
    assert_eq!(QuantizedEvent::from_end_time(&next, 0, 0).unwrap().location.cell_t, 730_121 * 24);
}
