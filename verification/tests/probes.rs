use singsing_rs::nonce::{nonce, nonce_from, source_port, source_port_from};
use singsing_rs::probes::{expected_responses, sequence, ExpectedResponses, Probe, SeenPairs};
use singsing_rs::scan::prepare_scan;
use singsing_rs::{parse_ports, parse_targets, ScanConfig, ScanError};

const HOST: u32 = 0xc0a8_0201;
const SOURCE: u32 = 0xc000_0201;

fn scan_error(config: &ScanConfig) -> String {
    prepare_scan(config, 1).expect_err("scan should fail before raw socket creation").message()
}

#[test]
fn rejects_duplicate_scan_config_entries() {
    let duplicate_targets = ScanConfig::new(vec![HOST, HOST], vec![443], HOST);
    let duplicate_ports = ScanConfig::new(vec![HOST], vec![443, 443], HOST);
    let unique = ScanConfig::new(vec![HOST], vec![80, 443], HOST);

    assert!(expected_responses(&duplicate_targets, 1, 2)
        .unwrap_err()
        .message()
        .contains("must be unique"));
    assert!(expected_responses(&duplicate_ports, 1, 2)
        .unwrap_err()
        .message()
        .contains("must be unique"));
    assert_eq!(expected_responses(&unique, 1, 2).unwrap().len(), 2);
}

#[test]
fn rejects_empty_scan_configuration() {
    let no_targets = ScanConfig::new(Vec::new(), vec![443], SOURCE);
    let no_ports = ScanConfig::new(vec![SOURCE], Vec::new(), SOURCE);

    assert!(scan_error(&no_targets).contains("at least one target and one port"));
    assert!(scan_error(&no_ports).contains("at least one target and one port"));
}

#[test]
fn rejects_excessive_scan_before_raw_socket_creation() {
    let targets = vec![SOURCE; 257];
    let ports = (1..=u16::MAX).collect();
    let config = ScanConfig::new(targets, ports, SOURCE);

    assert!(scan_error(&config).contains("maximum is 16777214"));
}

#[test]
fn rejects_duplicate_targets_and_ports() {
    let duplicate_targets = ScanConfig::new(vec![SOURCE, SOURCE], vec![443], SOURCE);
    let duplicate_ports = ScanConfig::new(vec![SOURCE], vec![443, 443], SOURCE);

    assert!(scan_error(&duplicate_targets).contains("targets and ports must be unique"));
    assert!(scan_error(&duplicate_ports).contains("targets and ports must be unique"));
}

#[test]
fn names_the_first_pair_asked_for_twice() {
    let config = ScanConfig::new(vec![1, 2, 1], vec![80, 443, 22, 443], SOURCE);
    assert_eq!(
        prepare_scan(&config, 7).unwrap_err(),
        ScanError::DuplicatePair { host: 1, port: 443 }
    );
    let config = ScanConfig::new(vec![1, 2, 3, 2], vec![80, 443], SOURCE);
    assert_eq!(
        prepare_scan(&config, 7).unwrap_err(),
        ScanError::DuplicatePair { host: 2, port: 80 }
    );
}

#[test]
fn every_pair_has_one_probe() {
    let config = ScanConfig::new(vec![1, u32::MAX], vec![1, 80, u16::MAX], SOURCE);
    let expected = prepare_scan(&config, 7).unwrap();
    assert_eq!(expected.len(), 6);
    let mut probes = expected.probes();
    probes.sort_by_key(|probe| (probe.host, probe.port));
    let mut all = Vec::new();
    for host in [1, u32::MAX] {
        for port in [1, 80, u16::MAX] {
            assert_eq!(expected.get(host, port), Some(sequence(host, port, 7)));
            all.push(Probe { host, port, sequence: sequence(host, port, 7) });
        }
    }
    assert_eq!(probes, all);
    assert_eq!(expected.get(1, 2), None);
    assert_eq!(expected.get(0, 1), None);
}

#[test]
fn sequences_mix_host_port_and_nonce() {
    for host in [0u32, 1, 0x8000_0000, 0xc0a8_0201, 0x1234_5678, u32::MAX] {
        for port in [0u16, 1, 443, 0x8000, u16::MAX] {
            for nonce in [0u32, 1, 999_999_999, u32::MAX] {
                let mixed =
                    host.rotate_left(13).wrapping_add(u32::from(port).rotate_left(3)) ^ nonce;
                assert_eq!(sequence(host, port, nonce), mixed);
            }
        }
    }
    assert_eq!(sequence(1, 1, 0), 0x2008);
}

#[test]
fn sequences_differ_between_ports_and_between_hosts() {
    assert_ne!(sequence(HOST, 80, 5), sequence(HOST, 443, 5));
    assert_ne!(sequence(HOST, 80, 5), sequence(SOURCE, 80, 5));
}

#[test]
fn expectations_are_replaced_and_counted() {
    let mut expected = ExpectedResponses::new();
    assert_eq!(expected.len(), 0);
    assert!(expected.insert(HOST, 80, 1));
    assert!(expected.insert(HOST, 81, 2));
    assert!(!expected.insert(HOST, 80, 3));
    assert_eq!(expected.len(), 2);
    assert_eq!(expected.get(HOST, 80), Some(3));
    assert_eq!(expected.get(HOST, 81), Some(2));
    assert_eq!(ExpectedResponses::with_capacity(10).len(), 0);
}

#[test]
fn pairs_are_seen_once() {
    let mut seen = SeenPairs::new();
    assert!(seen.insert(HOST, 80));
    assert!(!seen.insert(HOST, 80));
    assert!(seen.insert(HOST, 81));
    assert!(seen.insert(HOST + 1, 80));
}

#[test]
fn source_ports_are_dynamic() {
    assert_eq!(source_port_from(0), 49152);
    assert_eq!(source_port_from(16383), 65535);
    assert_eq!(source_port_from(16384), 49152);
    assert_eq!(source_port_from(999_999_999), 49152 + 999_999_999u32.rem_euclid(16384) as u16);
    assert!(source_port() >= 49152);
}

#[test]
fn a_nonce_is_the_part_of_a_second() {
    assert_eq!(nonce_from(None), 0);
    assert_eq!(nonce_from(Some((1_700_000_000, 0))), 0);
    assert_eq!(nonce_from(Some((1_700_000_000, 123_456_789))), 123_456_789);
    assert_eq!(nonce_from(Some((u64::MAX, 999_999_999))), 999_999_999);
}

#[test]
fn nonces_follow_the_clock() {
    let first = nonce();
    assert!(first < 1_000_000_000);
    assert!((0..1_000_000).any(|_| nonce() != first));
}

#[test]
fn parsed_lists_have_no_duplicate_pairs() {
    let targets = parse_targets("10.0.0.3/29").unwrap();
    let ports = parse_ports("80,80,79-81").unwrap();
    let expected = prepare_scan(&ScanConfig::new(targets, ports, SOURCE), 7).unwrap();
    assert_eq!(expected.len(), 18);
}
