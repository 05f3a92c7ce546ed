use singsing_rs::config::{pair_count, response_timeout, validate_probe_count, validate_scan};
use singsing_rs::targets::MAX_PROBES;
use singsing_rs::{Duration, PortState, ScanConfig, ScanError, ScanResult};

#[test]
fn validates_scan_limits_and_configuration() {
    assert_eq!(validate_probe_count(254, 65_535, 15).unwrap(), 16_645_890);
    assert_eq!(validate_probe_count(256, 65_535, 15).unwrap(), 16_776_960);
    assert_eq!(validate_probe_count(MAX_PROBES, 1, 15).unwrap(), MAX_PROBES);
    validate_probe_count(257, 65_535, 15).unwrap_err();
    validate_probe_count(MAX_PROBES + 1, 1, 15).unwrap_err();
    validate_probe_count(usize::MAX, 2, 15).unwrap_err();
    validate_probe_count(0, 1, 15).unwrap_err();
    validate_probe_count(1, 0, 15).unwrap_err();
    validate_probe_count(1, 1, 0).unwrap_err();
}

#[test]
fn names_why_a_scan_is_refused() {
    assert_eq!(validate_probe_count(0, 1, 0), Err(ScanError::NothingToScan));
    assert_eq!(validate_probe_count(1, 1, 0), Err(ScanError::ZeroBandwidth));
    assert_eq!(validate_probe_count(usize::MAX, 2, 1), Err(ScanError::SizeOverflow));
    assert_eq!(
        validate_probe_count(257, 65_535, 1),
        Err(ScanError::TooManyProbes { count: 16_842_495 })
    );
}

#[test]
fn describes_why_a_scan_is_refused() {
    let texts = [
        (ScanError::NothingToScan, "at least one target and one port are required"),
        (ScanError::ZeroBandwidth, "bandwidth must be greater than zero"),
        (ScanError::ZeroTimeout, "timeout must be greater than zero"),
        (ScanError::SizeOverflow, "scan size overflow"),
        (
            ScanError::TooManyProbes { count: 16_842_495 },
            "scan contains 16842495 probes; maximum is 16777214 \
             (one port on a /8 or all 65,535 ports on a /24); split larger scans",
        ),
        (
            ScanError::DuplicatePair { host: 0xc000_0201, port: 443 },
            "duplicate host/port pair 192.0.2.1:443; \
             ScanConfig targets and ports must be unique",
        ),
        (ScanError::BandwidthTooLarge, "bandwidth is too large"),
    ];
    for (error, text) in texts {
        assert_eq!(error.message(), text);
    }
}

#[test]
fn a_configuration_has_defaults() {
    let config = ScanConfig::new(vec![1, 2], vec![3, 4, 5], 6);
    assert_eq!(config.targets, [1, 2]);
    assert_eq!(config.ports, [3, 4, 5]);
    assert_eq!(config.source, 6);
    assert_eq!(config.bandwidth_kib, 15);
    assert_eq!(config.timeout, Duration::from_secs(30));
    assert!(!config.show_closed);
    assert_eq!(validate_scan(&config), Ok(6));
    assert_eq!(pair_count(&config), Ok(6));
}

#[test]
fn a_clone_of_a_configuration_is_equal() {
    let mut config = ScanConfig::new(vec![1, 2], vec![3], 6);
    config.bandwidth_kib = 7;
    config.timeout = Duration::from_secs(8);
    config.show_closed = true;
    let clone = config.clone();
    assert_eq!(clone.targets, config.targets);
    assert_eq!(clone.ports, config.ports);
    assert_eq!(clone.source, 6);
    assert_eq!(clone.bandwidth_kib, 7);
    assert_eq!(clone.timeout, Duration::from_secs(8));
    assert!(clone.show_closed);
}

#[test]
fn an_empty_configuration_has_no_pairs() {
    assert_eq!(pair_count(&ScanConfig::new(Vec::new(), vec![1], 0)), Ok(0));
}

#[test]
fn smaller_scans_are_admitted_too() {
    assert_eq!(validate_probe_count(256, 65_535, 3), Ok(16_776_960));
    assert_eq!(validate_probe_count(255, 65_535, 3), Ok(16_711_425));
    assert_eq!(validate_probe_count(256, 1, 3), Ok(256));
}

#[test]
fn a_timeout_is_not_zero() {
    assert_eq!(response_timeout(0), Err(ScanError::ZeroTimeout));
    assert_eq!(response_timeout(3), Ok(Duration::from_secs(3)));
    assert_eq!(response_timeout(u64::MAX), Ok(Duration::from_secs(u64::MAX)));
}

#[test]
fn a_result_holds_what_it_was_made_from() {
    let result = ScanResult::new(1, 2, PortState::Closed);
    assert_eq!(result.host, 1);
    assert_eq!(result.port, 2);
    assert_eq!(result.state, PortState::Closed);
}
