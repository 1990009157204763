use shortgap::addr::PeerAddr;
use shortgap::ping::{
    Metric, PingError, PingManager, PingMeasurement, ProbeOutcome, ProbeResult,
};

fn addr(port: u16) -> PeerAddr {
    PeerAddr::v4(127, 0, 0, 1, port)
}

#[test]
fn test_ping_measurement_average() {
    let mut measurement = PingMeasurement::new(addr(8080));

    measurement.tcp_ping = Some(10);
    measurement.app_ping = Some(20);
    measurement.webrtc_rtt = Some(30);
    measurement.calculate_average();

    assert_eq!(measurement.average_ping, Some(20));
}

#[test]
fn test_ping_manager_sorting() {
    let mut manager = PingManager::new();

    let addr1 = addr(8081);
    let addr2 = addr(8082);

    let mut measurement1 = PingMeasurement::new(addr1);
    measurement1.average_ping = Some(100);

    let mut measurement2 = PingMeasurement::new(addr2);
    measurement2.average_ping = Some(50);

    manager.store(measurement1);
    manager.store(measurement2);

    let best_peer = manager.get_best_peer();
    assert_eq!(best_peer, Some(addr2));
}

#[test]
fn average_is_the_rounded_down_mean_of_what_is_present() {
    let mut m = PingMeasurement::new_at(addr(1), 0);
    m.calculate_average();
    assert_eq!(m.average_ping, None);
    m.tcp_ping = Some(10);
    m.calculate_average();
    assert_eq!(m.average_ping, Some(10));
    m.webrtc_rtt = Some(15);
    m.calculate_average();
    assert_eq!(m.average_ping, Some(12));
    m.app_ping = Some(0);
    m.calculate_average();
    assert_eq!(m.average_ping, Some(8));
    assert!(m.is_complete());
}

#[test]
fn average_does_not_overflow() {
    let mut m = PingMeasurement::new_at(addr(1), 0);
    m.tcp_ping = Some(u64::MAX);
    m.app_ping = Some(u64::MAX);
    m.webrtc_rtt = Some(u64::MAX - 3);
    m.calculate_average();
    assert_eq!(m.average_ping, Some(u64::MAX - 1));
}

#[test]
fn average_stays_when_no_metric_is_present() {
    let mut m = PingMeasurement::new_at(addr(1), 0);
    m.average_ping = Some(77);
    m.calculate_average();
    assert_eq!(m.average_ping, Some(77));
    assert!(!m.is_complete());
}

#[test]
fn probes_record_answers_and_report_failures() {
    let mut manager = PingManager::new();
    let r = manager.measure_tcp_ping_at(addr(1), ProbeOutcome::Answered { elapsed_ms: 40 }, 100);
    assert_eq!(r, Ok(40));
    let r = manager.measure_application_ping_at(addr(1), ProbeOutcome::Answered { elapsed_ms: 60 }, 200);
    assert_eq!(r, Ok(60));
    let r = manager.measure_tcp_ping_at(addr(2), ProbeOutcome::TimedOut, 300);
    assert_eq!(r, Err(PingError::Timeout));
    let r = manager.measure_application_ping_at(addr(2), ProbeOutcome::Failed, 300);
    assert_eq!(r, Err(PingError::ConnectFailed));
    assert_eq!(manager.measurements.len(), 1);
    let m = manager.get_measurement(&addr(1)).unwrap();
    assert_eq!(m.tcp_ping, Some(40));
    assert_eq!(m.app_ping, Some(60));
    assert_eq!(m.average_ping, Some(50));
    assert_eq!(m.timestamp, 200);
    assert!(manager.get_measurement(&addr(2)).is_none());
    manager.update_webrtc_rtt_at(addr(1), 20, 250);
    let m = manager.get_measurement(&addr(1)).unwrap();
    assert_eq!(m.webrtc_rtt, Some(20));
    assert_eq!(m.average_ping, Some(40));
    assert_eq!(m.timestamp, 250);
}

#[test]
fn probes_read_the_clock() {
    let mut manager = PingManager::new();
    let before = chrono::Utc::now().timestamp_millis();
    assert_eq!(manager.measure_tcp_ping(addr(1), ProbeOutcome::Answered { elapsed_ms: 4 }), Ok(4));
    assert_eq!(manager.measure_application_ping(addr(1), ProbeOutcome::TimedOut), Err(PingError::Timeout));
    manager.update_webrtc_rtt(addr(2), 9);
    assert!(manager.measurements[0].timestamp >= before);
    assert_eq!(manager.get_all_measurements().len(), 2);
    manager.cleanup_old_measurements(10);
    assert_eq!(manager.measurements.len(), 2);
}

#[test]
fn round_of_probes_keeps_older_stamps() {
    let mut manager = PingManager::new();
    manager.measure_tcp_ping_at(addr(1), ProbeOutcome::Answered { elapsed_ms: 40 }, 100).unwrap();
    let results = vec![
        ProbeResult { peer_addr: addr(1), metric: Metric::Tcp, ping_ms: 0 },
        ProbeResult { peer_addr: addr(2), metric: Metric::App, ping_ms: 8 },
        ProbeResult { peer_addr: addr(2), metric: Metric::Tcp, ping_ms: 2 },
    ];
    manager.measure_all_pings_at(&results, 500);
    assert_eq!(manager.measurements.len(), 2);
    assert_eq!(manager.measurements[0].tcp_ping, Some(0));
    assert_eq!(manager.measurements[0].average_ping, Some(0));
    assert_eq!(manager.measurements[0].timestamp, 100);
    assert_eq!(manager.measurements[1].average_ping, Some(5));
    assert_eq!(manager.measurements[1].timestamp, 500);
    manager.measure_all_pings(&results);
    assert_eq!(manager.measurements.len(), 2);
}

#[test]
fn sorting_puts_absent_means_last_and_keeps_ties() {
    let mut manager = PingManager::new();
    manager.store(PingMeasurement::new_at(addr(1), 0));
    manager.measure_tcp_ping_at(addr(2), ProbeOutcome::Answered { elapsed_ms: 70 }, 0).unwrap();
    manager.measure_tcp_ping_at(addr(3), ProbeOutcome::Answered { elapsed_ms: 20 }, 0).unwrap();
    manager.measure_tcp_ping_at(addr(4), ProbeOutcome::Answered { elapsed_ms: 70 }, 0).unwrap();
    let sorted: Vec<u16> = manager.get_sorted_by_ping().iter().map(|m| m.peer_addr.port()).collect();
    assert_eq!(sorted, vec![3, 2, 4, 1]);
    assert_eq!(manager.get_best_peer(), Some(addr(3)));
    assert_eq!(PingManager::new().get_best_peer(), None);
}

#[test]
fn cleanup_drops_measurements_that_predate_the_cutoff() {
    let mut manager = PingManager::new();
    manager.store(PingMeasurement::new_at(addr(1), -1));
    manager.store(PingMeasurement::new_at(addr(2), 0));
    manager.store(PingMeasurement::new_at(addr(3), 1));
    manager.store(PingMeasurement::new_at(addr(4), 60_000));
    // The cutoff is at 0: what was stamped at the cutoff stays.
    manager.cleanup_old_measurements_at(1, 60_000);
    let left: Vec<u16> = manager.measurements.iter().map(|m| m.peer_addr.port()).collect();
    assert_eq!(left, vec![2, 3, 4]);
    manager.cleanup_old_measurements_at(u64::MAX, i64::MAX);
    assert_eq!(manager.measurements.len(), 3);
    manager.cleanup_old_measurements_at(0, 60_000);
    let left: Vec<u16> = manager.measurements.iter().map(|m| m.peer_addr.port()).collect();
    assert_eq!(left, vec![4]);
    manager.cleanup_old_measurements_at(0, 60_001);
    assert!(manager.measurements.is_empty());
}

#[test]
fn store_replaces_the_measurement_of_a_peer() {
    let mut manager = PingManager::new();
    manager.store(PingMeasurement::new_at(addr(1), 0));
    manager.store(PingMeasurement::new_at(addr(2), 0));
    let mut m = PingMeasurement::new_at(addr(1), 9);
    m.tcp_ping = Some(3);
    manager.store(m);
    assert_eq!(manager.measurements.len(), 2);
    assert_eq!(manager.measurements[0], m);
    assert_eq!(manager.find(addr(2)), Some(1));
    assert_eq!(manager.find(addr(3)), None);
}
