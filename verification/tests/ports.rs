use singsing_rs::ports::{parse_port, NumberFault, PortError};
use singsing_rs::parse_ports;

fn message(input: &str) -> String {
    parse_ports(input).unwrap_err().message()
}

#[test]
fn parses_ports_ranges_and_duplicates() {
    assert_eq!(parse_ports("22,80,79-81").unwrap(), [22, 79, 80, 81]);
}

#[test]
fn rejects_invalid_ports() {
    parse_ports("0").unwrap_err();
    parse_ports("80-79").unwrap_err();
    parse_ports("65536").unwrap_err();
    parse_ports("22,").unwrap_err();
}

#[test]
fn names_the_first_fault_of_a_port_list() {
    assert!(matches!(parse_ports("22,"), Err(PortError::EmptyItem { .. })));
    assert!(matches!(parse_ports(""), Err(PortError::EmptyItem { .. })));
    assert!(matches!(parse_ports("1-2-3"), Err(PortError::MalformedRange { .. })));
    assert!(matches!(parse_ports("http"), Err(PortError::InvalidPort { .. })));
    assert!(matches!(parse_ports("65536"), Err(PortError::InvalidPort { .. })));
    assert!(matches!(parse_ports("-80"), Err(PortError::InvalidPort { .. })));
    assert!(matches!(parse_ports("80-"), Err(PortError::InvalidPort { .. })));
    assert!(matches!(parse_ports("+"), Err(PortError::InvalidPort { .. })));
    assert!(matches!(parse_ports(" 80"), Err(PortError::InvalidPort { .. })));
    assert!(matches!(parse_ports("0-5"), Err(PortError::PortZero)));
    assert!(matches!(parse_ports("80-79"), Err(PortError::ReversedRange { .. })));
    assert!(matches!(parse_ports("80-79,x"), Err(PortError::ReversedRange { .. })));
}

#[test]
fn describes_port_faults() {
    assert_eq!(message("22,"), "empty port in \"22,\"");
    assert_eq!(message("22,1-2-3"), "invalid port range \"1-2-3\"");
    assert_eq!(message("a\tb"), "invalid TCP port \"a\\tb\"");
    assert_eq!(message("0"), "TCP port zero is not supported");
    assert_eq!(message("80-79"), "reversed port range \"80-79\"");
}

#[test]
fn reads_numerals_as_the_standard_library_does() {
    assert_eq!(parse_port("+80").unwrap(), 80);
    assert_eq!(parse_port("0000000000000080").unwrap(), 80);
    assert_eq!(parse_port("65535").unwrap(), 65535);
    for text in ["", "+", "-", "++1", "-1", "1 ", "1a", "65536", "99999999999", "8\u{0660}"] {
        assert!(text.parse::<u16>().is_err());
        assert!(matches!(parse_port(text), Err(PortError::InvalidPort { .. })));
    }
}

#[test]
fn a_single_port_names_itself() {
    for port in [1, 9, 10, 22, 443, 8080, 65535] {
        assert_eq!(parse_ports(&port.to_string()).unwrap(), [port]);
    }
}

#[test]
fn a_range_includes_both_ends() {
    assert_eq!(parse_ports("21-23").unwrap(), [21, 22, 23]);
    assert_eq!(parse_ports("65535-65535").unwrap(), [65535]);
    let all = parse_ports("1-65535").unwrap();
    assert_eq!(all.len(), 65535);
    assert_eq!(all[0], 1);
    assert_eq!(all[65534], 65535);
}

#[test]
fn a_comma_joins_lists() {
    assert_eq!(parse_ports("443,21-23,80,22").unwrap(), [21, 22, 23, 80, 443]);
    parse_ports("443,0").unwrap_err();
    parse_ports("0,443").unwrap_err();
}

fn reason(text: &str) -> NumberFault {
    match parse_port(text) {
        Err(PortError::InvalidPort { text: refused, reason }) => {
            assert_eq!(refused, text);
            reason
        }
        other => panic!("{text:?}: {other:?}"),
    }
}

#[test]
fn tells_why_a_number_is_refused() {
    assert_eq!(reason(""), NumberFault::Empty);
    assert_eq!(reason("+"), NumberFault::InvalidDigit);
    assert_eq!(reason("-"), NumberFault::InvalidDigit);
    assert_eq!(reason("6553x"), NumberFault::InvalidDigit);
    assert_eq!(reason("65536"), NumberFault::TooLarge);
    assert_eq!(reason("65536x"), NumberFault::TooLarge);
    for text in [
        "", "+", "-", "++1", "+-1", "-1", "1 ", " 1", "x", "+x", "1x", "9999x", "6553x", "65535x",
        "65536", "65536x", "99999", "99999x", "000065536", "00000x", "+70000", "+70000+", "123456",
        "8\u{0660}", "\u{ff11}", "99999999999999999999", "0000000000000000x",
    ] {
        let cause = text.parse::<u16>().unwrap_err();
        assert_eq!(reason(text).message(), cause.to_string(), "{text:?}");
    }
}
