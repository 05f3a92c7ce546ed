use singsing_rs::interfaces::{Address, Interface, InterfaceError};
use singsing_rs::report::{banner, done_summary, format_results, result_line, scan_summary};
use singsing_rs::{interface_ipv4, PortState, ScanResult};

#[test]
fn formats_banner_scan_and_completion_summaries() {
    let mut output = banner(
        "zucchini",
        "0.1.0",
        "A blazing fast Linux IPv4 port scanner",
        "Marco Ivaldi <raptor@0xdeadbeef.info>",
    );
    output.push_str(&scan_summary(3, "eth0", 0xc0a8_0201));
    output.push_str(&done_summary(3, &format!("{:.1}", 30.14)));

    assert_eq!(
        output,
        "zucchini 0.1.0 - A blazing fast Linux IPv4 port scanner\n\
         Copyright (c) 2026 Marco Ivaldi <raptor@0xdeadbeef.info>\n\
         \n\
         Scanning: 3 host/port pairs via eth0 (192.168.2.1)...\n\
         \n\
         Done: 3 host/port pairs scanned in 30.1 seconds\n"
    );
}

#[test]
fn formats_empty_buffered_and_verbose_results() {
    let open = ScanResult::new(0xac10_6402, 443, PortState::Open);
    let closed = ScanResult::new(0xac10_6403, 80, PortState::Closed);
    assert!(format_results(&[]).is_empty());

    assert_eq!(
        format_results(&[open, closed]),
        "\n\
         Scan results:\n\
         open 172.16.100.2:443\n\
         closed 172.16.100.3:80\n"
    );

    assert_eq!(result_line(open, true), "[verbose] open 172.16.100.2:443\n");
    assert_eq!(result_line(closed, false), "closed 172.16.100.3:80\n");
}

fn interfaces() -> Vec<Interface> {
    vec![
        Interface { name: "lo".to_string(), addresses: vec![Address::V6(1)] },
        Interface {
            name: "eth0".to_string(),
            addresses: vec![Address::V6(2), Address::V4(0xc0a8_0201), Address::V4(3)],
        },
        Interface { name: "eth0".to_string(), addresses: vec![Address::V4(4)] },
        Interface { name: "lo".to_string(), addresses: vec![Address::V4(5)] },
    ]
}

#[test]
fn an_interface_gives_its_first_ipv4_address() {
    assert_eq!(interface_ipv4(&interfaces(), "eth0").unwrap(), 0xc0a8_0201);
}

#[test]
fn an_interface_may_be_missing_or_without_ipv4() {
    let missing = interface_ipv4(&interfaces(), "eth1").unwrap_err();
    assert!(matches!(missing, InterfaceError::Missing { .. }));
    assert_eq!(missing.message(), "network interface \"eth1\" does not exist");
    let without = interface_ipv4(&interfaces(), "lo").unwrap_err();
    assert!(matches!(without, InterfaceError::NoIpv4 { .. }));
    assert_eq!(without.message(), "network interface \"lo\" has no IPv4 address");
}
