use macos_candles::collector::{
    network_totals, select_disk, select_temperature_sensor, CollectorControl, LoopAction,
    NetworkStats, NetworkTracker, TransferDelta,
};
use macos_candles::database::{metric_from_name, Metric, RawDataPoint};

fn strings(xs: &[&str]) -> Vec<String> {
    xs.iter().map(|s| s.to_string()).collect()
}

fn sensors(labels: &[&str], in_range: &[bool]) -> Vec<(String, bool)> {
    labels.iter().zip(in_range.iter()).map(|(l, r)| (l.to_string(), *r)).collect()
}

#[test]
fn root_disk_is_preferred() {
    assert_eq!(select_disk(&strings(&["/boot", "/", "/home"])), Some(1));
    assert_eq!(select_disk(&strings(&["/", "/"])), Some(0));
}

#[test]
fn first_disk_without_root() {
    assert_eq!(select_disk(&strings(&["/Volumes/Data", "/System"])), Some(0));
    assert_eq!(select_disk(&Vec::new()), None);
    assert_eq!(select_disk(&strings(&["//"])), Some(0));
}

#[test]
fn performance_core_sensor_wins() {
    let labels = ["SOC MTR Temp Sensor0", "PMU tdie1", "pACC MTR Temp Sensor2"];
    assert_eq!(select_temperature_sensor(&sensors(&labels, &[true, true, true])), Some(2));
}

#[test]
fn out_of_range_sensors_are_skipped() {
    let labels = ["pACC MTR Temp Sensor2", "SOC Die Temp", "pACC Temp 5"];
    assert_eq!(select_temperature_sensor(&sensors(&labels, &[false, true, true])), Some(2));
    assert_eq!(select_temperature_sensor(&sensors(&labels, &[false, true, false])), Some(1));
}

#[test]
fn later_tiers_are_fallbacks() {
    let labels = ["GPU MTR Temp", "battery", "eACC Die Temp"];
    assert_eq!(select_temperature_sensor(&sensors(&labels, &[true, true, true])), Some(0));
    let labels = ["SOC Temp", "Die", "MTR"];
    assert_eq!(select_temperature_sensor(&sensors(&labels, &[true, true, true])), None);
    assert_eq!(select_temperature_sensor(&Vec::new()), None);
}

#[test]
fn soc_tier_needs_all_three_words() {
    let labels = ["SOC Temp", "Die SOC xTempx"];
    assert_eq!(select_temperature_sensor(&sensors(&labels, &[true, true])), Some(1));
}

#[test]
fn network_totals_add_up() {
    assert_eq!(network_totals(&vec![(10, 1), (20, 2), (30, 3)]), Some((60, 6)));
    assert_eq!(network_totals(&Vec::new()), Some((0, 0)));
}

#[test]
fn network_totals_overflow_is_reported() {
    assert_eq!(network_totals(&vec![(u64::MAX, 0), (1, 0)]), None);
    assert_eq!(network_totals(&vec![(0, u64::MAX), (0, 1)]), None);
    assert_eq!(network_totals(&vec![(u64::MAX, u64::MAX)]), Some((u64::MAX, u64::MAX)));
}

#[test]
fn first_reading_gives_no_transfer() {
    let mut tracker = NetworkTracker::new();
    let current = NetworkStats { total_received: 1000, total_transmitted: 500, timestamp: 10 };
    assert_eq!(tracker.observe(current), None);
    assert_eq!(tracker.prev, Some(current));
}

#[test]
fn consecutive_readings_give_counter_growth() {
    let mut tracker = NetworkTracker::new();
    tracker.observe(NetworkStats { total_received: 1000, total_transmitted: 500, timestamp: 10 });
    let delta = tracker.observe(NetworkStats { total_received: 3048, total_transmitted: 400, timestamp: 15 });
    assert_eq!(delta, Some(TransferDelta { received_bytes: 2048, transmitted_bytes: 0, seconds: 5 }));
}

#[test]
fn no_elapsed_time_gives_no_transfer() {
    let mut tracker = NetworkTracker::new();
    tracker.observe(NetworkStats { total_received: 1000, total_transmitted: 500, timestamp: 10 });
    assert_eq!(tracker.observe(NetworkStats { total_received: 2000, total_transmitted: 600, timestamp: 10 }), None);
    assert_eq!(tracker.observe(NetworkStats { total_received: 3000, total_transmitted: 700, timestamp: 9 }), None);
    let delta = tracker.observe(NetworkStats { total_received: 3100, total_transmitted: 700, timestamp: 11 });
    assert_eq!(delta, Some(TransferDelta { received_bytes: 100, transmitted_bytes: 0, seconds: 2 }));
}

#[test]
fn control_follows_start_and_stop() {
    let mut control = CollectorControl::new();
    assert_eq!(control.on_tick(), LoopAction::Finish);
    control.start();
    assert_eq!(control.on_tick(), LoopAction::Collect);
    control.stop();
    assert_eq!(control.on_tick(), LoopAction::Finish);
}

#[test]
fn metric_names() {
    assert_eq!(metric_from_name("cpu"), Some(Metric::Cpu));
    assert_eq!(metric_from_name("temperature"), Some(Metric::Temperature));
    assert_eq!(metric_from_name("upload"), Some(Metric::Upload));
    assert_eq!(metric_from_name("CPU"), None);
    assert_eq!(metric_from_name("battery"), None);
}

#[test]
fn get_metric_selects_the_field() {
    let p = RawDataPoint {
        id: 1,
        timestamp: 1000,
        cpu: 50.0f64.to_bits(),
        disk: 41.5f64.to_bits(),
        ram: 60.0f64.to_bits(),
        temperature: (-1.0f64).to_bits(),
        upload: 100.0f64.to_bits(),
        download: 200.0f64.to_bits(),
    };
    assert_eq!(f64::from_bits(p.get_metric("disk")), 41.5);
    assert_eq!(f64::from_bits(p.get_metric("temperature")), -1.0);
    assert_eq!(f64::from_bits(p.get_metric("ram")), 60.0);
    assert_eq!(p.get_metric("gpu"), 0);
}
