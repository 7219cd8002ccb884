use chrono::naive::NaiveDate;
use chrono::Datelike;
use openttd_timetable::timetable::{Constraint, Date, Timetable, TimetableError};

/// Build a library date from a calendar date, through chrono's
/// day-number-from-CE view of the proleptic Gregorian calendar.
fn date_from_ymd(year: i32, month: u32, day: u32) -> Date {
    let nd = NaiveDate::from_ymd_opt(year, month, day).unwrap();
    Date {
        days: i64::from(nd.num_days_from_ce()),
    }
}

/// Read a library date back as (year, month, day).
fn ymd_of(d: Date) -> (i32, u32, u32) {
    let nd = NaiveDate::from_num_days_from_ce_opt(d.days as i32).unwrap();
    (nd.year(), nd.month(), nd.day())
}

#[test]
fn count_fidelity_returns_given_number() {
    for n in [0u16, 1, 5, 65535] {
        assert_eq!(
            Timetable::resolve_vehicle_count(10, Constraint::NumberOfVehicles(n)),
            Ok(n)
        );
    }
    // The span plays no part when the count is given directly.
    assert_eq!(
        Timetable::resolve_vehicle_count(-3, Constraint::NumberOfVehicles(7)),
        Ok(7)
    );
}

#[test]
fn frequency_rounds_to_nearest() {
    // 10 / 3 = 3.33... rounds down to 3.
    assert_eq!(
        Timetable::resolve_vehicle_count(10, Constraint::Frequency(3)),
        Ok(3)
    );
    // 10 / 4 = 2.5: the tie goes away from zero, to 3.
    assert_eq!(
        Timetable::resolve_vehicle_count(10, Constraint::Frequency(4)),
        Ok(3)
    );
    // 11 / 3 = 3.67 rounds up to 4.
    assert_eq!(
        Timetable::resolve_vehicle_count(11, Constraint::Frequency(3)),
        Ok(4)
    );
    // An exact quotient stays as it is.
    assert_eq!(
        Timetable::resolve_vehicle_count(9, Constraint::Frequency(3)),
        Ok(3)
    );
}

#[test]
fn frequency_on_nonpositive_span_gives_no_vehicles() {
    assert_eq!(
        Timetable::resolve_vehicle_count(0, Constraint::Frequency(5)),
        Ok(0)
    );
    assert_eq!(
        Timetable::resolve_vehicle_count(-30, Constraint::Frequency(5)),
        Ok(0)
    );
}

#[test]
fn frequency_count_saturates_at_u16_max() {
    assert_eq!(
        Timetable::resolve_vehicle_count(100_000_000, Constraint::Frequency(1)),
        Ok(65535)
    );
}

#[test]
fn sequence_has_exactly_vehicle_count_elements() {
    for n in [0u16, 1, 2, 17] {
        let t = Timetable::from_constraint(
            date_from_ymd(2024, 1, 1),
            365,
            Constraint::NumberOfVehicles(n),
        );
        assert_eq!(t.start_dates().unwrap().len(), usize::from(n));
    }
    let t = Timetable::from_constraint(date_from_ymd(2024, 1, 1), 9, Constraint::Frequency(3));
    assert_eq!(t.start_dates().unwrap().len(), 3);
}

#[test]
fn offsets_are_exact_and_monotonic() {
    // A 30-day span over 3 vehicles gives offsets of exactly 0, 10 and
    // 20 days, the first vehicle departing on the start date itself.
    let start = date_from_ymd(2024, 1, 1);
    let t = Timetable::from_constraint(start, 30, Constraint::NumberOfVehicles(3));
    let dates = t.start_dates().unwrap();
    let offsets: Vec<i64> = dates.iter().map(|d| d.days - start.days).collect();
    assert_eq!(offsets, vec![0, 10, 20]);
    assert_eq!(dates[0], start);
    for pair in dates.windows(2) {
        assert!(pair[0].days <= pair[1].days);
    }
}

#[test]
fn frequency_zero_is_an_explicit_error() {
    assert_eq!(
        Timetable::resolve_vehicle_count(10, Constraint::Frequency(0)),
        Err(TimetableError::InvalidConstraintParameter)
    );
    let t = Timetable::from_constraint(date_from_ymd(2024, 1, 1), 10, Constraint::Frequency(0));
    assert_eq!(
        t.start_dates(),
        Err(TimetableError::InvalidConstraintParameter)
    );
}

#[test]
fn start_dates_is_deterministic() {
    let t = Timetable::from_constraint(date_from_ymd(2024, 1, 1), 17, Constraint::Frequency(5));
    assert_eq!(t.start_dates(), t.start_dates());
    let u = Timetable::from_constraint(
        date_from_ymd(1999, 12, 31),
        400,
        Constraint::NumberOfVehicles(7),
    );
    assert_eq!(u.start_dates(), u.start_dates());
}

#[test]
fn five_vehicles_over_ten_days() {
    let t = Timetable::from_constraint(
        date_from_ymd(2024, 1, 1),
        10,
        Constraint::NumberOfVehicles(5),
    );
    let dates: Vec<(i32, u32, u32)> = t.start_dates().unwrap().into_iter().map(ymd_of).collect();
    assert_eq!(
        dates,
        vec![
            (2024, 1, 1),
            (2024, 1, 3),
            (2024, 1, 5),
            (2024, 1, 7),
            (2024, 1, 9),
        ]
    );
}

#[test]
fn every_third_day_over_nine_days() {
    let t = Timetable::from_constraint(date_from_ymd(2024, 1, 1), 9, Constraint::Frequency(3));
    let dates: Vec<(i32, u32, u32)> = t.start_dates().unwrap().into_iter().map(ymd_of).collect();
    assert_eq!(dates, vec![(2024, 1, 1), (2024, 1, 4), (2024, 1, 7)]);
}

#[test]
fn zero_vehicles_is_an_empty_sequence() {
    let t = Timetable::from_constraint(
        date_from_ymd(2024, 1, 1),
        10,
        Constraint::NumberOfVehicles(0),
    );
    assert_eq!(t.start_dates(), Ok(vec![]));
}

#[test]
fn daily_departures_cross_a_leap_day() {
    let t = Timetable::from_constraint(
        date_from_ymd(2024, 2, 27),
        4,
        Constraint::NumberOfVehicles(4),
    );
    let dates: Vec<(i32, u32, u32)> = t.start_dates().unwrap().into_iter().map(ymd_of).collect();
    assert_eq!(
        dates,
        vec![(2024, 2, 27), (2024, 2, 28), (2024, 2, 29), (2024, 3, 1)]
    );
}

#[test]
fn negative_span_runs_backward() {
    let start = date_from_ymd(2024, 1, 11);
    let t = Timetable::from_constraint(start, -10, Constraint::NumberOfVehicles(2));
    let dates = t.start_dates().unwrap();
    let offsets: Vec<i64> = dates.iter().map(|d| d.days - start.days).collect();
    // Offsets truncate toward zero: -10 * 1 / 2 = -5.
    assert_eq!(offsets, vec![0, -5]);
    assert_eq!(ymd_of(dates[1]), (2024, 1, 6));
}

#[test]
fn uneven_split_carries_no_cumulative_drift() {
    // 10 days over 3 vehicles: exact offsets would be 0, 3.33, 6.67;
    // truncation gives 0, 3, 6 and the gaps stay within one day of
    // each other instead of drifting in one direction.
    let start = date_from_ymd(2024, 3, 1);
    let t = Timetable::from_constraint(start, 10, Constraint::NumberOfVehicles(3));
    let dates = t.start_dates().unwrap();
    let offsets: Vec<i64> = dates.iter().map(|d| d.days - start.days).collect();
    assert_eq!(offsets, vec![0, 3, 6]);
}
