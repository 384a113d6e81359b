use macos_candles::aggregator::{
    aggregate_to_kline, period_to_seconds, window_key, KLineWindow,
};
use macos_candles::commands::historical_klines;
use macos_candles::database::RawDataPoint;

fn bits(x: f64) -> u64 {
    x.to_bits()
}

fn value(b: u64) -> f64 {
    f64::from_bits(b)
}

fn high(w: &KLineWindow) -> f64 {
    w.values.iter().map(|b| value(*b)).fold(f64::NEG_INFINITY, f64::max)
}

fn low(w: &KLineWindow) -> f64 {
    w.values.iter().map(|b| value(*b)).fold(f64::INFINITY, f64::min)
}

fn point(id: i64, timestamp: i64, cpu: f64) -> RawDataPoint {
    RawDataPoint {
        id,
        timestamp,
        cpu: bits(cpu),
        disk: bits(-1.0),
        ram: bits(60.0),
        temperature: bits(80.0),
        upload: bits(100.0),
        download: bits(200.0),
    }
}

#[test]
fn test_period_to_seconds() {
    assert_eq!(period_to_seconds("5s").unwrap(), 5);
    assert_eq!(period_to_seconds("1min").unwrap(), 60);
    assert_eq!(period_to_seconds("5min").unwrap(), 300);
    assert_eq!(period_to_seconds("15min").unwrap(), 900);
    assert_eq!(period_to_seconds("1h").unwrap(), 3600);
    assert!(period_to_seconds("invalid").is_err());
}

#[test]
fn test_aggregate_to_kline() {
    // Create 12 data points (1 minute of 5-second data)
    let mut raw_data = Vec::new();
    for i in 0..12 {
        raw_data.push(point(i, 1000 + i * 5, 50.0 + (i as f64)));
    }

    // Aggregate to 1-minute K-lines
    let klines = aggregate_to_kline(raw_data, 60, "cpu");

    assert_eq!(klines.len(), 1);
    assert_eq!(value(klines[0].open()), 50.0);
    assert_eq!(value(klines[0].close()), 61.0);
    assert_eq!(high(&klines[0]), 61.0);
    assert_eq!(low(&klines[0]), 50.0);
}

#[test]
fn test_empty_data() {
    let klines = aggregate_to_kline(Vec::new(), 60, "cpu");
    assert_eq!(klines.len(), 0);
}

#[test]
fn test_single_point() {
    let raw_data = vec![point(1, 1000, 50.0)];

    let klines = aggregate_to_kline(raw_data, 60, "cpu");

    assert_eq!(klines.len(), 1);
    assert_eq!(value(klines[0].open()), 50.0);
    assert_eq!(value(klines[0].close()), 50.0);
    assert_eq!(high(&klines[0]), 50.0);
    assert_eq!(low(&klines[0]), 50.0);
}

#[test]
fn unknown_period_is_refused_with_message() {
    assert_eq!(period_to_seconds("2min"), Err("Unsupported period: 2min".to_string()));
    assert_eq!(period_to_seconds(""), Err("Unsupported period: ".to_string()));
    assert!(period_to_seconds("5S").is_err());
}

#[test]
fn windows_split_where_the_window_start_changes() {
    let raw_data = vec![point(1, 1000, 1.0), point(2, 1059, 2.0), point(3, 1060, 3.0), point(4, 1130, 4.0)];
    let klines = aggregate_to_kline(raw_data, 60, "cpu");
    assert_eq!(klines.len(), 3);
    assert_eq!(klines[0].time, 1000);
    assert_eq!(klines[0].values, vec![bits(1.0), bits(2.0)]);
    assert_eq!(klines[1].time, 1060);
    assert_eq!(klines[1].values, vec![bits(3.0)]);
    assert_eq!(klines[2].time, 1120);
    assert_eq!(klines[2].values, vec![bits(4.0)]);
}

#[test]
fn windows_keep_every_sample_in_order() {
    let mut raw_data = Vec::new();
    for i in 0..30 {
        raw_data.push(point(i, 500 + i * 7, i as f64));
    }
    let klines = aggregate_to_kline(raw_data, 30, "cpu");
    let all: Vec<u64> = klines.iter().flat_map(|w| w.values.iter().copied()).collect();
    let expected: Vec<u64> = (0..30).map(|i| bits(i as f64)).collect();
    assert_eq!(all, expected);
    for pair in klines.windows(2) {
        assert!(pair[0].time < pair[1].time);
    }
    for w in &klines {
        assert!(!w.values.is_empty());
        assert_eq!((w.time - 500) % 30, 0);
    }
}

#[test]
fn unsorted_samples_start_new_windows_on_every_change() {
    let raw_data = vec![point(1, 0, 1.0), point(2, 100, 2.0), point(3, 10, 3.0)];
    let klines = aggregate_to_kline(raw_data, 60, "cpu");
    let times: Vec<i64> = klines.iter().map(|w| w.time).collect();
    assert_eq!(times, vec![0, 60, 0]);
}

#[test]
fn unknown_metric_gives_zero_values() {
    let raw_data = vec![point(1, 0, 7.0)];
    let klines = aggregate_to_kline(raw_data, 5, "gpu");
    assert_eq!(klines[0].values, vec![0u64]);
    assert_eq!(value(klines[0].open()), 0.0);
}

#[test]
fn other_metrics_are_selected_by_name() {
    let raw_data = vec![point(1, 0, 7.0)];
    let klines = aggregate_to_kline(raw_data, 5, "download");
    assert_eq!(value(klines[0].close()), 200.0);
}

#[test]
fn window_key_rounds_toward_the_anchor() {
    assert_eq!(window_key(1000, 1055, 60), 1000);
    assert_eq!(window_key(1000, 1060, 60), 1060);
    assert_eq!(window_key(1000, 940, 60), 940);
    assert_eq!(window_key(1000, 939, 60), 940);
    assert_eq!(window_key(0, -61, -60), -60);
    assert_eq!(window_key(0, 61, -60), 60);
    assert_eq!(window_key(i64::MIN, i64::MAX, 1), i64::MAX);
    assert_eq!(window_key(i64::MAX, i64::MIN, 2), i64::MIN + 1);
}

#[test]
fn history_checks_the_period_first() {
    let raw_data = vec![point(1, 1000, 1.0), point(2, 1003, 2.0), point(3, 1005, 3.0)];
    let klines = historical_klines(raw_data.clone(), "5s", "cpu").unwrap();
    assert_eq!(klines.len(), 2);
    assert_eq!(klines[1].time, 1005);
    let err = historical_klines(raw_data, "1d", "cpu").unwrap_err();
    assert_eq!(err, "Unsupported period: 1d");
}
