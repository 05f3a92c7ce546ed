use singsing_rs::packet::syn_packet;
use singsing_rs::probes::Probe;
use singsing_rs::scan::prepare_scan;
use singsing_rs::transmit::{send_failure, send_interval, Transmission};
use singsing_rs::{Duration, ScanConfig, ScanError, ScanProgress};

fn probes() -> Vec<Probe> {
    vec![
        Probe { host: 0xc000_0201, port: 80, sequence: 11 },
        Probe { host: 0xc000_0202, port: 443, sequence: 12 },
    ]
}

#[test]
fn intervals_follow_the_bandwidth() {
    let nanos = |kib| send_interval(kib).unwrap().as_nanos();
    assert_eq!(nanos(15), 1_000_000_000 / 384);
    assert_eq!(nanos(15), 2_604_166);
    assert_eq!(nanos(40), 976_562);
    assert_eq!(nanos(1), 40_000_000);
    assert_eq!(nanos(0), 1_000_000_000);
    assert_eq!(nanos(u64::MAX / 1024), 0);
    assert_eq!(send_interval(u64::MAX / 1024 + 1), Err(ScanError::BandwidthTooLarge));
}

#[test]
fn packets_go_out_in_order() {
    let mut transmission = Transmission::new(5, 50000, probes(), Duration::from_millis(10));
    assert_eq!(transmission.total_probes(), 2);
    for (sent, probe) in probes().into_iter().enumerate() {
        assert_eq!(transmission.probes_sent(), sent);
        let packet = transmission.next_packet().unwrap();
        assert_eq!(packet.host, probe.host);
        assert_eq!(packet.port, probe.port);
        assert_eq!(
            packet.bytes,
            syn_packet(5, probe.host, 50000, probe.port, probe.sequence)
        );
        transmission.packet_sent(Duration::zero());
    }
    assert_eq!(transmission.probes_sent(), 2);
    assert!(transmission.next_packet().is_none());
}

#[test]
fn packets_are_paced_against_absolute_deadlines() {
    let at = Duration::from_millis;
    let mut transmission = Transmission::new(5, 50000, probes(), at(10));
    assert_eq!(transmission.packet_sent(at(3)), Some(at(7)));
    assert_eq!(transmission.packet_sent(at(20)), Some(at(0)));
    let mut late = Transmission::new(5, 50000, probes(), at(10));
    assert_eq!(late.packet_sent(at(11)), None);
    assert_eq!(late.packet_sent(at(15)), Some(at(5)));
}

#[test]
fn progress_is_reported_on_schedule() {
    let mut transmission = Transmission::new(5, 50000, probes(), Duration::zero());
    transmission.packet_sent(Duration::zero());
    assert_eq!(transmission.report(Duration::from_secs(59)), None);
    assert_eq!(
        transmission.report(Duration::from_secs(60)),
        Some(ScanProgress::new(1, 2, Duration::from_secs(60)))
    );
    assert_eq!(transmission.report(Duration::from_secs(119)), None);
    let late = Duration::from_mins(35);
    assert_eq!(transmission.report(late), Some(ScanProgress::new(1, 2, late)));
    assert_eq!(transmission.report(Duration::from_secs(39 * 60 + 59)), None);
    assert!(transmission.report(Duration::from_mins(40)).is_some());
}

#[test]
fn every_pair_of_a_scan_is_sent_once() {
    let config = ScanConfig::new(vec![1, 2, 3], vec![80, 443], 9);
    let expected = prepare_scan(&config, 77).unwrap();
    let interval = send_interval(config.bandwidth_kib).unwrap();
    let mut transmission = Transmission::new(config.source, 50000, expected.probes(), interval);
    let mut pairs = Vec::new();
    while let Some(packet) = transmission.next_packet() {
        let sequence = expected.get(packet.host, packet.port).unwrap();
        assert_eq!(packet.bytes, syn_packet(9, packet.host, 50000, packet.port, sequence));
        pairs.push((packet.host, packet.port));
        transmission.packet_sent(Duration::zero());
    }
    pairs.sort();
    assert_eq!(pairs, [(1, 80), (1, 443), (2, 80), (2, 443), (3, 80), (3, 443)]);
}

#[test]
fn describes_a_failure_to_send() {
    assert_eq!(send_failure(0xc000_0201, 443), "failed to send SYN to 192.0.2.1:443");
}
