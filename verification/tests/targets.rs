use singsing_rs::config::validate_probe_count;
use singsing_rs::parse_targets;
use singsing_rs::targets::{usable_target_count, Ipv4Network, TargetError, MAX_PROBES};
use singsing_rs::text::dotted_text;

fn address(text: &str) -> u32 {
    text.split('.').fold(0, |address, octet| address * 256 + octet.parse::<u32>().unwrap())
}

#[test]
fn parses_host_and_network() {
    assert_eq!(parse_targets("192.168.2.9").unwrap(), [address("192.168.2.9")]);
    assert_eq!(
        parse_targets("192.168.2.0/30").unwrap(),
        [address("192.168.2.1"), address("192.168.2.2")]
    );
    assert_eq!(
        parse_targets("192.168.2.0/31").unwrap(),
        [address("192.168.2.0"), address("192.168.2.1")]
    );
    assert_eq!(parse_targets("192.168.2.7/32").unwrap(), [address("192.168.2.7")]);
}

#[test]
fn normalizes_host_bits_and_rejects_invalid_targets() {
    assert_eq!(
        parse_targets("192.168.2.7/30").unwrap(),
        [address("192.168.2.5"), address("192.168.2.6")]
    );
    parse_targets("").unwrap_err();
    parse_targets("not-an-address").unwrap_err();
    parse_targets("192.168.2.1/33").unwrap_err();
}

#[test]
fn rejects_oversized_cidr_before_expansion() {
    let slash_8 = Ipv4Network::parse("10.0.0.0/8").unwrap();
    let slash_31 = Ipv4Network::parse("192.168.2.0/31").unwrap();
    let slash_32 = Ipv4Network::parse("192.168.2.1/32").unwrap();

    assert_eq!(usable_target_count(slash_8), Some(MAX_PROBES));
    assert_eq!(usable_target_count(slash_31), Some(2));
    assert_eq!(usable_target_count(slash_32), Some(1));
    parse_targets("10.0.0.0/7").unwrap_err();
    parse_targets("0.0.0.0/0").unwrap_err();
}

#[test]
fn rejects_oversized_cidr_without_expanding_it() {
    let error = parse_targets("10.0.0.0/7").expect_err("a /7 should exceed the target limit");

    assert!(error.message().contains("split networks larger than a /8"));
}

#[test]
fn probe_limit_accommodates_single_port_slash_8() {
    assert_eq!(MAX_PROBES, 16_777_214);
}

#[test]
fn describes_target_errors() {
    assert_eq!(parse_targets("1.2.3.4/x").unwrap_err(), TargetError::InvalidNetwork);
    assert_eq!(parse_targets("1.2.3").unwrap_err(), TargetError::InvalidAddress);
    assert_eq!(parse_targets("1.2.3.4/x").unwrap_err().message(), "invalid IPv4 network");
    assert_eq!(parse_targets("1.2.3").unwrap_err().message(), "invalid IPv4 address");
    assert_eq!(
        parse_targets("10.1.2.3/7").unwrap_err().message(),
        "10.1.2.3/7 contains more than 16777214 usable addresses; \
         split networks larger than a /8"
    );
}

#[test]
fn reads_what_ipnet_reads() {
    for text in [
        "1.2.3.4/5", "001.2.3.4/24", "1.2.3.4/024", "1.2.3.4/32", "1.2.3.4/33", "256.2.3.4/8",
        "1.2.3.4.5/8", "1.2.3/8", "1.2.3.4/", "/8", "", "1.2.3.4/8/8", "1.2.3.4/+8", " 1.2.3.4/8",
        "1.2.3.4/8 ", "0001.2.3.4/8", "1..3.4/8", "0.0.0.0/0", "1.2.3.4/00", "1.2.3.4",
        "255.255.255.255/32", "000.000.000.000/08", "1.2.3.4/99", "1.2.3.4/-1", "a.b.c.d/8",
    ] {
        let expected = text
            .parse::<ipnet::Ipv4Net>()
            .ok()
            .map(|net| (u32::from(net.addr()), net.prefix_len()));
        let parsed = Ipv4Network::parse(text).map(|net| (net.address, net.prefix));
        assert_eq!(parsed, expected, "{text}");
    }
    assert_eq!(
        Ipv4Network::parse("001.2.3.4/08"),
        Some(Ipv4Network { address: 0x0102_0304, prefix: 8 })
    );
}

#[test]
fn addresses_and_networks_read_back() {
    for value in [0, 1, 0x0a00_0001, 0xc0a8_0209, u32::MAX] {
        assert_eq!(parse_targets(&dotted_text(value)).unwrap(), [value]);
        let network = Ipv4Network { address: value, prefix: 27 };
        assert_eq!(Ipv4Network::parse(&format!("{}/27", dotted_text(value))), Some(network));
    }
}

#[test]
fn usable_addresses_leave_out_the_ends() {
    let hosts = parse_targets("192.168.2.77/24").unwrap();
    assert_eq!(hosts.len(), 254);
    assert_eq!(hosts[0], address("192.168.2.1"));
    assert_eq!(hosts[253], address("192.168.2.254"));
    assert_eq!(
        parse_targets("255.255.255.255/30").unwrap(),
        [address("255.255.255.253"), address("255.255.255.254")]
    );
    assert_eq!(
        parse_targets("255.255.255.254/31").unwrap(),
        [address("255.255.255.254"), address("255.255.255.255")]
    );
}

#[test]
fn accepted_targets_fit_a_scan_of_one_port() {
    for text in ["10.0.0.0/8", "10.0.0.0/16", "10.0.0.1", "10.0.0.0/31"] {
        let targets = parse_targets(text).unwrap();
        assert_eq!(validate_probe_count(targets.len(), 1, 15).unwrap(), targets.len());
    }
}

#[test]
fn counts_no_addresses_for_an_impossible_prefix() {
    assert_eq!(usable_target_count(Ipv4Network { address: 0, prefix: 33 }), None);
    assert_eq!(usable_target_count(Ipv4Network { address: 0, prefix: 30 }), Some(2));
    assert_eq!(usable_target_count(Ipv4Network { address: 0, prefix: 24 }), Some(254));
}
