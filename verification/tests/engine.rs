use tcx_report::flatten::DataLap;
use tcx_report::report::calculate_weighted_average_hr;
use tcx_report::report::format_time_info;
use tcx_report::report::report_rows;
use tcx_report::series::get_avg;
use tcx_report::series::peak;
use tcx_report::series::Data;

fn d(ts_ms: u64, val: u16) -> Data {
    Data { ts: ts_ms, val }
}

#[test]
fn weighted_average_of_three_points() {
    // (t=0s,100), (t=10s,140), (t=20s,120): segments average 120 and 130
    // over 10 s each, so the weighted average is exactly 125.
    let v = vec![d(0, 100), d(10_000, 140), d(20_000, 120)];
    let a = get_avg(&v).unwrap();
    assert_eq!(a.total_time_ms, 20_000);
    let w = a.avg.unwrap();
    assert_eq!(w.num, 10_000 * (100 + 140) + 10_000 * (140 + 120));
    assert_eq!(w.den, 2 * 20_000);
    assert_eq!(w.num, 125 * w.den);
    assert_eq!(w.rounded(), 125);
    assert_eq!(peak(&v), Some(140));
}

#[test]
fn single_entry_has_no_average_but_a_peak() {
    let v = vec![d(0, 90)];
    let a = get_avg(&v).unwrap();
    assert_eq!(a.total_time_ms, 0);
    assert!(a.avg.is_none());
    assert_eq!(peak(&v), Some(90));
}

#[test]
fn empty_series_has_no_average_and_no_peak() {
    let v: Vec<Data> = vec![];
    let a = get_avg(&v).unwrap();
    assert!(a.avg.is_none());
    assert_eq!(a.total_time_ms, 0);
    assert_eq!(peak(&v), None);
}

#[test]
fn zero_covered_duration_is_no_data() {
    // Two entries with identical timestamps: no division fault, no data.
    let v = vec![d(5_000, 100), d(5_000, 200)];
    let a = get_avg(&v).unwrap();
    assert_eq!(a.total_time_ms, 0);
    assert!(a.avg.is_none());
}

#[test]
fn constant_series_averages_to_that_value() {
    // Equal values on wildly irregular gaps still average to the value.
    let v = vec![d(0, 77), d(1, 77), d(50_000, 77), d(50_003, 77)];
    let a = get_avg(&v).unwrap();
    let w = a.avg.unwrap();
    assert_eq!(w.num, 77 * w.den);
    assert_eq!(w.rounded(), 77);
}

#[test]
fn rounding_is_to_nearest_halves_up() {
    // One segment from 100 to 101: exact average 100.5 rounds to 101.
    let v = vec![d(0, 100), d(10_000, 101)];
    let w = get_avg(&v).unwrap().avg.unwrap();
    assert_eq!(w.rounded(), 101);
    // One segment from 100 to 102: exact average 101.
    let v = vec![d(0, 100), d(10_000, 102)];
    let w = get_avg(&v).unwrap().avg.unwrap();
    assert_eq!(w.rounded(), 101);
}

#[test]
fn covered_duration_telescopes() {
    let v = vec![d(1_000, 10), d(3_000, 20), d(9_500, 30), d(60_000, 40)];
    let a = get_avg(&v).unwrap();
    assert_eq!(a.total_time_ms, 60_000 - 1_000);
}

#[test]
fn decreasing_timestamp_names_both_timestamps() {
    let v = vec![d(10_000, 100), d(5_000, 110)];
    let e = get_avg(&v).unwrap_err();
    assert_eq!(e.prev_ms, 10_000);
    assert_eq!(e.next_ms, 5_000);
}

#[test]
fn empty_heart_rate_with_power_series() {
    // Heart-rate series empty, power series (t=0s,150), (t=5s,200):
    // heart-rate average "no data", power average exactly 175.
    let lap = DataLap { hr_data: vec![], watt_data: vec![d(0, 150), d(5_000, 200)] };
    let ti = calculate_weighted_average_hr(&lap).unwrap();
    assert!(ti.avg_hr.is_none());
    assert!(ti.max_hr.is_none());
    assert_eq!(ti.total_time_ms, 0);
    let w = ti.avg_watt.unwrap();
    assert_eq!(w.num, 175 * w.den);
    assert_eq!(w.rounded(), 175);
}

#[test]
fn summary_of_a_full_lap() {
    let lap = DataLap {
        hr_data: vec![d(0, 100), d(10_000, 140), d(20_000, 120)],
        watt_data: vec![d(0, 150), d(5_000, 200)],
    };
    let ti = calculate_weighted_average_hr(&lap).unwrap();
    assert_eq!(ti.total_time_ms, 20_000);
    assert_eq!(ti.avg_hr.unwrap().rounded(), 125);
    assert_eq!(ti.avg_watt.unwrap().rounded(), 175);
    assert_eq!(ti.max_hr, Some(140));
    let line = format_time_info(&ti);
    assert_eq!(line, b"00:20\t175\t125\t140".to_vec());
}

#[test]
fn no_data_renders_as_markers() {
    let lap = DataLap { hr_data: vec![], watt_data: vec![] };
    let ti = calculate_weighted_average_hr(&lap).unwrap();
    let line = format_time_info(&ti);
    assert_eq!(line, b"00:00\t-\t-\t-".to_vec());
}

#[test]
fn lap_selection_restricts_output_to_one_labeled_line() {
    // Selection [2] on a three-lap document: exactly one line, labeled 2.
    let laps = vec![
        DataLap { hr_data: vec![d(0, 100), d(10_000, 110)], watt_data: vec![] },
        DataLap { hr_data: vec![d(0, 120), d(10_000, 130)], watt_data: vec![] },
        DataLap { hr_data: vec![d(0, 140), d(10_000, 150)], watt_data: vec![] },
    ];
    let rows = report_rows(&laps, &vec![2]).unwrap();
    assert_eq!(rows.len(), 1);
    assert_eq!(rows[0], b" 2\t00:10\t-\t125\t130".to_vec());
}

#[test]
fn empty_selection_means_all_laps() {
    let laps = vec![
        DataLap { hr_data: vec![d(0, 100), d(10_000, 110)], watt_data: vec![] },
        DataLap { hr_data: vec![d(0, 120), d(10_000, 130)], watt_data: vec![] },
    ];
    let rows = report_rows(&laps, &vec![]).unwrap();
    assert_eq!(rows.len(), 2);
    assert!(rows[0].starts_with(b" 1\t"));
    assert!(rows[1].starts_with(b" 2\t"));
}

#[test]
fn integrity_error_names_the_lap() {
    let laps = vec![
        DataLap { hr_data: vec![d(0, 100), d(10_000, 110)], watt_data: vec![] },
        DataLap { hr_data: vec![d(10_000, 100), d(5_000, 110)], watt_data: vec![] },
    ];
    let e = report_rows(&laps, &vec![]).unwrap_err();
    assert_eq!(e.lap_no, 2);
    assert_eq!(e.prev_ms, 10_000);
    assert_eq!(e.next_ms, 5_000);
}
