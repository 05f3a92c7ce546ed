use std::any::Any;

use singsing_rs::scan::{describe_panic_payload, finish_scan, receiver_panic};
use singsing_rs::{IncompleteScanError, PortState, ScanResult};

fn describe(payload: &(dyn Any + Send)) -> &str {
    describe_panic_payload(
        payload.downcast_ref::<&str>().copied(),
        payload.downcast_ref::<String>().map(String::as_str),
    )
}

#[test]
fn describes_str_panic_payload() {
    let payload: Box<dyn Any + Send> = Box::new("boom");
    assert_eq!(describe(&*payload), "boom");
}

#[test]
fn describes_string_panic_payload() {
    let payload: Box<dyn Any + Send> = Box::new(String::from("boom"));
    assert_eq!(describe(&*payload), "boom");
}

#[test]
fn describes_unrecognized_panic_payload() {
    let payload: Box<dyn Any + Send> = Box::new(42_i32);
    assert_eq!(describe(&*payload), "unknown panic payload");
}

#[test]
fn incomplete_scan_error_preserves_context() {
    let partial_result = ScanResult::new(0xac10_6402, 443, PortState::Open);
    let incomplete = IncompleteScanError::new(
        anyhow::Error::msg("send failed"),
        vec![partial_result],
        7,
        10,
    );

    assert_eq!(incomplete.partial_results(), [partial_result]);
    assert_eq!(incomplete.probes_sent(), 7);
    assert_eq!(incomplete.total_probes(), 10);
    assert_eq!(incomplete.message(), "scan stopped after sending 7 of 10 probes");
    assert_eq!(incomplete.source().to_string(), "send failed");

    let message = incomplete.message();
    let (source, partial_results) = incomplete.into_parts();
    assert_eq!(partial_results, [partial_result]);
    assert_eq!(
        format!("{:#}", source.context(message)),
        "scan stopped after sending 7 of 10 probes: send failed"
    );
}

fn arrivals() -> Vec<ScanResult> {
    vec![
        ScanResult::new(2, 80, PortState::Open),
        ScanResult::new(1, 443, PortState::Closed),
        ScanResult::new(u32::MAX, 1, PortState::Open),
        ScanResult::new(1, 22, PortState::Open),
    ]
}

fn sorted() -> Vec<ScanResult> {
    vec![
        ScanResult::new(1, 22, PortState::Open),
        ScanResult::new(1, 443, PortState::Closed),
        ScanResult::new(2, 80, PortState::Open),
        ScanResult::new(u32::MAX, 1, PortState::Open),
    ]
}

#[test]
fn results_are_returned_in_order() {
    let mut reversed = arrivals();
    reversed.reverse();
    assert_eq!(finish_scan::<String>(arrivals(), None, 9, 9).unwrap(), sorted());
    assert_eq!(finish_scan::<String>(reversed, None, 9, 9).unwrap(), sorted());
    assert!(finish_scan::<String>(Vec::new(), None, 9, 9).unwrap().is_empty());
}

#[test]
fn a_failure_keeps_the_results_in_order() {
    let error = finish_scan(arrivals(), Some("no route"), 3, 9).unwrap_err();
    assert_eq!(error.partial_results(), sorted());
    assert_eq!(*error.source(), "no route");
    assert_eq!(error.probes_sent(), 3);
    assert_eq!(error.total_probes(), 9);
    assert_eq!(error.message(), "scan stopped after sending 3 of 9 probes");
}

#[test]
fn describes_a_receiver_that_panicked() {
    assert_eq!(receiver_panic("boom"), "packet receiver thread panicked: boom");
}
