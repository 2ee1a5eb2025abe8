use lsrm::{
    percent_centi, tick, AlertSink, AnomalyDetector, Limits, MetricsSnapshot, ProcessInfo,
    RollingSeries, TickOutcome, TopN, top_processes,
};
use lsrm::text::{centi_string, decimal, floor_sqrt};

fn snap(cpu_centi: u32, mem_used: u64, mem_total: u64, disk_used: u64, disk_total: u64) -> MetricsSnapshot {
    let mut m = MetricsSnapshot::zero();
    m.timestamp_unix_ms = 1_700_000_000_000;
    m.cpu_centi = cpu_centi;
    m.mem_used_bytes = mem_used;
    m.mem_total_bytes = mem_total;
    m.disk_used_bytes = disk_used;
    m.disk_total_bytes = disk_total;
    m
}

fn cpu_only(cpu_centi: u32) -> MetricsSnapshot {
    snap(cpu_centi, 0, 0, 0, 0)
}

#[test]
fn percent_is_zero_for_zero_total() {
    assert_eq!(percent_centi(0, 0), 0);
    assert_eq!(percent_centi(12345, 0), 0);
    let m = snap(0, 500, 0, 7, 0);
    assert_eq!(m.mem_pct(), 0);
    assert_eq!(m.disk_pct(), 0);
}

#[test]
fn percent_exact_values() {
    assert_eq!(percent_centi(50, 100), 5000);
    assert_eq!(percent_centi(100, 100), 10000);
    assert_eq!(percent_centi(0, 100), 0);
    assert_eq!(percent_centi(1, 3), 3333);
    assert_eq!(percent_centi(u64::MAX, u64::MAX), 10000);
    let m = snap(0, 4_000_000_000, 16_000_000_000, 750, 1000);
    assert_eq!(m.mem_pct(), 2500);
    assert_eq!(m.disk_pct(), 7500);
}

#[test]
fn percent_stays_within_range() {
    for (used, total) in [(0u64, 1u64), (1, 1), (7, 9), (999, 1000), (u64::MAX - 1, u64::MAX)] {
        let p = percent_centi(used, total);
        assert!(p <= 10000);
    }
}

#[test]
fn zero_snapshot_is_empty() {
    let m = MetricsSnapshot::zero();
    assert_eq!(m.timestamp_unix_ms, 0);
    assert_eq!(m.cpu_centi, 0);
    assert_eq!(m.mem_total_bytes, 0);
    assert!(m.top_processes.is_empty());
    assert!(m.alerts.is_empty());
}

#[test]
fn cpu_above_limit_alerts() {
    let sink = AlertSink::new(None);
    let a = sink.threshold_alerts(&cpu_only(9100), 9000, 9000, 9000);
    assert_eq!(a, vec!["CPU threshold exceeded: 91.00% > 90.00%".to_string()]);
}

#[test]
fn cpu_equal_to_limit_is_silent() {
    let sink = AlertSink::new(None);
    assert!(sink.threshold_alerts(&cpu_only(9000), 9000, 9000, 9000).is_empty());
}

#[test]
fn memory_and_disk_limits() {
    let sink = AlertSink::new(None);
    let a = sink.threshold_alerts(&snap(0, 91, 100, 90, 100), 9000, 9000, 9000);
    assert_eq!(a, vec!["Memory threshold exceeded: 91.00% > 90.00%".to_string()]);
    let b = sink.threshold_alerts(&snap(0, 90, 100, 95, 100), 9000, 9000, 9000);
    assert_eq!(b, vec!["Disk threshold exceeded: 95.00% > 90.00%".to_string()]);
}

#[test]
fn ratio_just_above_limit_alerts_even_when_rounded_percent_is_equal() {
    let sink = AlertSink::new(None);
    // 900001 / 1000000 = 90.0001%: above a 90.00% limit.
    let a = sink.threshold_alerts(&snap(0, 900_001, 1_000_000, 0, 0), 10000, 9000, 10000);
    assert_eq!(a, vec!["Memory threshold exceeded: 90.00% > 90.00%".to_string()]);
}

#[test]
fn zero_totals_never_alert() {
    let sink = AlertSink::new(None);
    assert!(sink.threshold_alerts(&snap(0, 5, 0, 5, 0), 0, 0, 0).is_empty());
}

#[test]
fn threshold_alerts_in_cpu_memory_disk_order() {
    let sink = AlertSink::new(None);
    let a = sink.threshold_alerts(&snap(9900, 99, 100, 98, 100), 9000, 9000, 9000);
    assert_eq!(
        a,
        vec![
            "CPU threshold exceeded: 99.00% > 90.00%".to_string(),
            "Memory threshold exceeded: 99.00% > 90.00%".to_string(),
            "Disk threshold exceeded: 98.00% > 90.00%".to_string(),
        ]
    );
}

#[test]
fn series_keeps_newest_in_order() {
    let mut s = RollingSeries::new(3);
    for v in 1..=5u32 {
        s.push(v);
        assert!(s.len() <= 3);
    }
    assert_eq!(s.to_vec(), vec![3, 4, 5]);
    assert_eq!(s.get(0), 3);
    assert_eq!(s.capacity(), 3);
}

#[test]
fn series_of_zero_capacity_stays_empty() {
    let mut s = RollingSeries::new(0);
    s.push(7);
    s.push(8);
    assert_eq!(s.len(), 0);
}

#[test]
fn detector_window_is_sliding() {
    let mut d = AnomalyDetector::new(4);
    for v in [100u32, 200, 300, 400, 500, 600] {
        d.check(&snap(v, 1, 4, 0, 0));
    }
    assert_eq!(d.cpu_history(), vec![300, 400, 500, 600]);
    assert_eq!(d.mem_history(), vec![2500, 2500, 2500, 2500]);
}

#[test]
fn detector_silent_before_five_samples() {
    let mut d = AnomalyDetector::new(60);
    for v in [0u32, 0, 0, u32::MAX] {
        assert!(d.check(&cpu_only(v)).is_empty());
    }
}

#[test]
fn detector_silent_on_flat_series() {
    let mut d = AnomalyDetector::new(60);
    for _ in 0..5 {
        assert!(d.check(&cpu_only(5000)).is_empty());
    }
    assert!(d.check(&cpu_only(5000)).is_empty());
    let mut full = AnomalyDetector::new(5);
    for _ in 0..20 {
        assert!(full.check(&cpu_only(5000)).is_empty());
    }
}

#[test]
fn detector_flags_spike_above_three_sigma() {
    let mut d = AnomalyDetector::new(60);
    for v in [1000u32, 1200, 800, 1100, 900, 1000, 1200, 800, 1100, 900] {
        assert!(d.check(&cpu_only(v)).is_empty());
    }
    let a = d.check(&cpu_only(10000));
    assert_eq!(
        a,
        vec!["CPU anomaly: 100.00% > mean+3σ (18.18+77.72)".to_string()]
    );
}

#[test]
fn detector_judges_sample_within_series_that_includes_it() {
    // [10, 12, 8, 11, 9, 20]: mean 11.67, sigma 3.94, bound 23.5 > 20.
    let mut d = AnomalyDetector::new(60);
    for v in [1000u32, 1200, 800, 1100, 900] {
        assert!(d.check(&cpu_only(v)).is_empty());
    }
    assert!(d.check(&cpu_only(2000)).is_empty());
}

#[test]
fn detector_ignores_drops_below_mean() {
    let mut d = AnomalyDetector::new(60);
    for v in [9000u32, 9100, 8900, 9000, 9100, 8900, 9000, 9100, 8900, 9000] {
        d.check(&cpu_only(v));
    }
    assert!(d.check(&cpu_only(0)).is_empty());
}

#[test]
fn detector_flags_memory_spike() {
    let mut d = AnomalyDetector::new(60);
    for _ in 0..5 {
        d.check(&snap(0, 10, 100, 0, 0));
        d.check(&snap(0, 12, 100, 0, 0));
    }
    let a = d.check(&snap(0, 90, 100, 0, 0));
    assert_eq!(a, vec!["Memory anomaly: 90.00% > mean+3σ (18.18+68.19)".to_string()]);
}

#[test]
fn sink_without_destination_never_delivers() {
    let sink = AlertSink::new(None);
    let mut m = cpu_only(9900);
    m.alerts = sink.threshold_alerts(&m, 9000, 9000, 9000);
    assert!(!m.alerts.is_empty());
    assert!(sink.delivery_target(&m).is_none());
}

#[test]
fn sink_without_alerts_never_delivers() {
    let sink = AlertSink::new(Some("http://hooks.example/alert".to_string()));
    assert!(sink.delivery_target(&cpu_only(100)).is_none());
}

#[test]
fn sink_delivers_alerts_to_destination() {
    let sink = AlertSink::new(Some("http://hooks.example/alert".to_string()));
    let mut m = cpu_only(9900);
    m.alerts = sink.threshold_alerts(&m, 9000, 9000, 9000);
    assert_eq!(sink.delivery_target(&m).map(|s| s.as_str()), Some("http://hooks.example/alert"));
}

#[test]
fn failed_collection_skips_tick() {
    let mut d = AnomalyDetector::new(60);
    let sink = AlertSink::new(Some("http://hooks.example/alert".to_string()));
    let limits = Limits { cpu_centi: 9000, mem_centi: 9000, disk_centi: 9000 };
    d.check(&cpu_only(100));
    assert!(matches!(tick(&mut d, &sink, &limits, None), TickOutcome::Skipped));
    assert_eq!(d.cpu_history(), vec![100]);
}

#[test]
fn tick_attaches_alerts_and_keeps_fields() {
    let mut d = AnomalyDetector::new(60);
    let sink = AlertSink::new(Some("http://hooks.example/alert".to_string()));
    let limits = Limits { cpu_centi: 9000, mem_centi: 9000, disk_centi: 9000 };
    let mut m = snap(9500, 50, 100, 95, 100);
    m.top_processes.push(ProcessInfo { pid: 7, name: "worker".to_string(), cpu_centi: 4200, mem_bytes: 1 << 20 });
    match tick(&mut d, &sink, &limits, Some(m.clone())) {
        TickOutcome::Publish { snapshot, deliver } => {
            assert!(deliver);
            assert_eq!(snapshot.timestamp_unix_ms, m.timestamp_unix_ms);
            assert_eq!(snapshot.top_processes, m.top_processes);
            assert_eq!(
                snapshot.alerts,
                vec![
                    "CPU threshold exceeded: 95.00% > 90.00%".to_string(),
                    "Disk threshold exceeded: 95.00% > 90.00%".to_string(),
                ]
            );
        }
        TickOutcome::Skipped => panic!("tick skipped a good sample"),
    }
    assert_eq!(d.cpu_history(), vec![9500]);
}

#[test]
fn quiet_tick_publishes_without_delivery() {
    let mut d = AnomalyDetector::new(60);
    let sink = AlertSink::new(Some("http://hooks.example/alert".to_string()));
    let limits = Limits { cpu_centi: 9000, mem_centi: 9000, disk_centi: 9000 };
    match tick(&mut d, &sink, &limits, Some(snap(100, 1, 100, 1, 100))) {
        TickOutcome::Publish { snapshot, deliver } => {
            assert!(!deliver);
            assert!(snapshot.alerts.is_empty());
        }
        TickOutcome::Skipped => panic!("tick skipped a good sample"),
    }
}

#[test]
fn top_n_holds_count() {
    let n = TopN(5);
    assert_eq!(n.0, 5);
}

fn proc(pid: u32, cpu_centi: u32) -> ProcessInfo {
    ProcessInfo { pid, name: format!("p{pid}"), cpu_centi, mem_bytes: 4096 }
}

#[test]
fn top_processes_heaviest_first_and_truncated() {
    let procs = vec![proc(1, 300), proc(2, 9000), proc(3, 50), proc(4, 1200), proc(5, 700)];
    let top = top_processes(procs, TopN(3));
    let pids: Vec<u32> = top.iter().map(|p| p.pid).collect();
    assert_eq!(pids, vec![2, 4, 5]);
}

#[test]
fn top_processes_keeps_all_when_fewer() {
    let top = top_processes(vec![proc(1, 10), proc(2, 20)], TopN(5));
    let pids: Vec<u32> = top.iter().map(|p| p.pid).collect();
    assert_eq!(pids, vec![2, 1]);
    assert!(top_processes(vec![proc(1, 10)], TopN(0)).is_empty());
    assert!(top_processes(Vec::new(), TopN(3)).is_empty());
}

#[test]
fn top_processes_ties_are_all_kept() {
    let top = top_processes(vec![proc(1, 500), proc(2, 500), proc(3, 100)], TopN(2));
    let mut pids: Vec<u32> = top.iter().map(|p| p.pid).collect();
    pids.sort();
    assert_eq!(pids, vec![1, 2]);
}

#[test]
fn decimal_rendering() {
    assert_eq!(decimal(0), "0");
    assert_eq!(decimal(7), "7");
    assert_eq!(decimal(1_234_567_890), "1234567890");
    assert_eq!(decimal(u128::MAX), u128::MAX.to_string());
}

#[test]
fn hundredths_rendering() {
    assert_eq!(centi_string(0), "0.00");
    assert_eq!(centi_string(5), "0.05");
    assert_eq!(centi_string(90), "0.90");
    assert_eq!(centi_string(9000), "90.00");
    assert_eq!(centi_string(123_456), "1234.56");
}

#[test]
fn square_root_rounds_down() {
    assert_eq!(floor_sqrt(0), 0);
    assert_eq!(floor_sqrt(1), 1);
    assert_eq!(floor_sqrt(15), 3);
    assert_eq!(floor_sqrt(16), 4);
    assert_eq!(floor_sqrt(7_309_800_000), 85_497);
    assert_eq!(floor_sqrt(1u128 << 100), 1u128 << 50);
}
