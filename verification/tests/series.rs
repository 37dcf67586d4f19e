use fx_plot::parser::AppError;
use fx_plot::store::MarketData;
use fx_plot::time::get_time_axis_string;

const HAPPY: &str = "CITI|EURUSD|1.1000|1.1002|1.1001|1.1003|1.1002|1.1004|1000000000000000000";

#[test]
fn first_message_anchors_series() {
    let mut md = MarketData::new();
    md.update(HAPPY).unwrap();
    let lps = md.snapshot();
    assert_eq!(lps.len(), 1);
    let lp = &lps[0];
    assert_eq!(lp.name, "CITI");
    assert_eq!(lp.buy_points.len(), 1);
    assert_eq!(lp.buy_points[0].x_seconds, 0);
    assert_eq!(lp.buy_points[0].price, "1.1000");
    assert_eq!(lp.buy_points[0].price.parse::<f64>().unwrap(), 1.1000f64);
    assert_eq!(lp.zero_time_ref, 1000000000000000000);
    // 1000000000000000000 ns = 2001-09-09 01:46:40 UTC
    assert_eq!(lp.global_start_hour, 1);
    assert_eq!(lp.global_start_minute, 46);
}

#[test]
fn second_message_uses_relative_seconds() {
    let mut md = MarketData::new();
    md.update(HAPPY).unwrap();
    let second = "CITI|EURUSD|1.2000|1.1002|1.1001|1.1003|1.1002|1.1004|1000000005000000000";
    md.update(second).unwrap();
    let lp = &md.snapshot()[0];
    assert_eq!(lp.buy_points.len(), 2);
    assert_eq!(lp.buy_points[1].x_seconds, 5);
    assert_eq!(lp.buy_points[1].price, "1.2000");
    // the anchor is write-once
    assert_eq!(lp.zero_time_ref, 1000000000000000000);
    assert_eq!(lp.buy_points[0].x_seconds, 0);
}

#[test]
fn relative_seconds_floor_division() {
    let mut md = MarketData::new();
    md.update("CITI|EURUSD|1|1|1|1|1|1|1000000000000000000").unwrap();
    // 2.999... seconds later floors to 2
    md.update("CITI|EURUSD|1|1|1|1|1|1|1000000002999999999").unwrap();
    let lp = &md.snapshot()[0];
    assert_eq!(lp.buy_points[1].x_seconds, 2);
}

#[test]
fn providers_are_isolated() {
    let mut md = MarketData::new();
    md.update(HAPPY).unwrap();
    let barx = "BARX|EURUSD|1.0900|1.0902|1.0901|1.0903|1.0902|1.0904|2000000000000000000";
    md.update(barx).unwrap();
    let citi2 = "CITI|EURUSD|1.3000|1|1|1|1|1|1000000007000000000";
    md.update(citi2).unwrap();
    let lps = md.snapshot();
    assert_eq!(lps.len(), 2);
    // order of discovery equals insertion order
    assert_eq!(lps[0].name, "CITI");
    assert_eq!(lps[1].name, "BARX");
    // neither series' anchor is affected by the other's quotes
    assert_eq!(lps[0].zero_time_ref, 1000000000000000000);
    assert_eq!(lps[1].zero_time_ref, 2000000000000000000);
    assert_eq!(lps[0].buy_points.len(), 2);
    assert_eq!(lps[1].buy_points.len(), 1);
    assert_eq!(lps[0].buy_points[1].x_seconds, 7);
    assert_eq!(lps[1].buy_points[0].x_seconds, 0);
}

#[test]
fn numeric_failure_is_all_or_nothing() {
    let mut md = MarketData::new();
    md.update(HAPPY).unwrap();
    let bad = "CITI|EURUSD|1.1000|1.1002|abc|1.1003|1.1002|1.1004|1000000000000000000";
    let err = md.update(bad).unwrap_err();
    assert_eq!(err, AppError::ParseFloat { field: 4, text: String::from("abc") });
    let lps = md.snapshot();
    assert_eq!(lps.len(), 1);
    assert_eq!(lps[0].buy_points.len(), 1);
    assert_eq!(lps[0].buy_points[0].price, "1.1000");
}

#[test]
fn failed_parse_leaves_fresh_store_empty() {
    let mut md = MarketData::new();
    assert_eq!(md.update("a|b|c").unwrap_err(), AppError::NumParams { found: 3 });
    assert_eq!(md.snapshot().len(), 0);
}

#[test]
fn out_of_order_quote_is_dropped() {
    let mut md = MarketData::new();
    md.update("CITI|EURUSD|1|1|1|1|1|1|5000000000").unwrap();
    // an earlier timestamp would move the time axis backwards: no point is added
    md.update("CITI|EURUSD|2|1|1|1|1|1|1000000000").unwrap();
    let lp = &md.snapshot()[0];
    assert_eq!(lp.buy_points.len(), 1);
    assert_eq!(lp.zero_time_ref, 5000000000);
}

#[test]
fn same_second_quote_appends_equal_offset() {
    let mut md = MarketData::new();
    md.update("CITI|EURUSD|1|1|1|1|1|1|1000000000000000000").unwrap();
    // half a second later still floors to offset 0
    md.update("CITI|EURUSD|2|1|1|1|1|1|1000000000500000000").unwrap();
    let lp = &md.snapshot()[0];
    assert_eq!(lp.buy_points.len(), 2);
    assert_eq!(lp.buy_points[1].x_seconds, 0);
    assert_eq!(lp.buy_points[1].price, "2");
}

#[test]
fn epoch_timestamp_anchors_at_midnight() {
    let mut md = MarketData::new();
    md.update("CITI|EURUSD|1|1|1|1|1|1|0").unwrap();
    let lp = &md.snapshot()[0];
    assert_eq!(lp.zero_time_ref, 0);
    assert_eq!(lp.global_start_hour, 0);
    assert_eq!(lp.global_start_minute, 0);
}

#[test]
fn idempotent_reads() {
    let mut md = MarketData::new();
    md.update(HAPPY).unwrap();
    md.update("BARX|EURUSD|1|1|1|1|1|1|7000000000").unwrap();
    let first = md.snapshot().clone();
    let second = md.snapshot().clone();
    assert_eq!(first, second);
}

#[test]
fn label_rollover_past_hour_and_day() {
    // 3660 s: minutes_part 61, an hour or more elapsed, remaining minute 1;
    // 1 + 59 carries into an extra hour: (23 + 1 + 1) % 24 = 1, 59 + 1 - 60 = 0
    assert_eq!(get_time_axis_string(3660, 23, 59), "01:00");
}

#[test]
fn label_sub_minute_is_blank() {
    for (h, m) in [(0, 0), (23, 59), (12, 30), (7, 0)] {
        assert_eq!(get_time_axis_string(30, h, m), "");
        assert_eq!(get_time_axis_string(0, h, m), "");
        assert_eq!(get_time_axis_string(59, h, m), "");
    }
}

#[test]
fn label_minutes_without_carry() {
    assert_eq!(get_time_axis_string(60, 9, 5), "09:06");
    assert_eq!(get_time_axis_string(300, 9, 5), "09:10");
    assert_eq!(get_time_axis_string(3599, 9, 0), "09:59");
}

#[test]
fn label_minutes_with_carry() {
    // 50 minutes elapsed from 09:15 crosses the hour: 10:05
    assert_eq!(get_time_axis_string(3000, 9, 15), "10:05");
    assert_eq!(get_time_axis_string(3540, 23, 59), "00:58");
}

#[test]
fn label_hours() {
    assert_eq!(get_time_axis_string(3600, 0, 0), "01:00");
    assert_eq!(get_time_axis_string(7260, 10, 30), "12:31");
    // a whole day later the clock face reads the same
    assert_eq!(get_time_axis_string(86400, 5, 30), "05:30");
}

#[test]
fn label_matches_anchored_series() {
    let mut md = MarketData::new();
    md.update(HAPPY).unwrap();
    let lp = &md.snapshot()[0];
    // series anchored at 01:46 UTC; 120 s later the tick reads 01:48
    assert_eq!(
        get_time_axis_string(120, lp.global_start_hour, lp.global_start_minute),
        "01:48",
    );
}
