use pnet::packet::ip::IpNextHeaderProtocols;
use pnet::packet::ipv4::MutableIpv4Packet;
use pnet::packet::tcp::{MutableTcpPacket, TcpFlags};
use pnet::packet::MutablePacket;
use singsing_rs::packet::{syn_packet, PACKET_LEN};
use singsing_rs::probes::{ExpectedResponses, SeenPairs};
use singsing_rs::receive::Reception;
use singsing_rs::response::classify_response;
use singsing_rs::{Duration, PortState, ScanResult};

const SOURCE: u32 = 0xc0a8_0201;
const OTHER_SOURCE: u32 = 0xc0a8_0202;
const TARGET: u32 = 0xac10_6402;
const OTHER_TARGET: u32 = 0xac10_6403;
const SOURCE_PORT: u16 = 50000;
const TARGET_PORT: u16 = 443;
const SEQUENCE: u32 = 0x1234_5678;

fn response_packet(
    remote: u32,
    local: u32,
    remote_port: u16,
    local_port: u16,
    acknowledgement: u32,
    flags: u8,
) -> Vec<u8> {
    let mut bytes = vec![0_u8; PACKET_LEN];
    let mut ipv4 = MutableIpv4Packet::new(&mut bytes).unwrap();
    ipv4.set_version(4);
    ipv4.set_header_length(5);
    ipv4.set_total_length(40);
    ipv4.set_next_level_protocol(IpNextHeaderProtocols::Tcp);
    ipv4.set_source(remote.into());
    ipv4.set_destination(local.into());

    let mut tcp = MutableTcpPacket::new(ipv4.payload_mut()).unwrap();
    tcp.set_source(remote_port);
    tcp.set_destination(local_port);
    tcp.set_acknowledgement(acknowledgement);
    tcp.set_data_offset(5);
    tcp.set_flags(flags);
    bytes
}

fn expecting(sequence: u32) -> ExpectedResponses {
    let mut expected = ExpectedResponses::new();
    expected.insert(TARGET, TARGET_PORT, sequence);
    expected
}

fn classify(packet: &[u8], show_closed: bool, seen: &mut SeenPairs) -> Option<ScanResult> {
    classify_response(packet, &expecting(SEQUENCE), SOURCE, SOURCE_PORT, show_closed, seen)
}

fn answer(flags: u8) -> Vec<u8> {
    response_packet(TARGET, SOURCE, TARGET_PORT, SOURCE_PORT, SEQUENCE.wrapping_add(1), flags)
}

#[test]
fn accepts_open_response_once() {
    let open = ScanResult::new(TARGET, TARGET_PORT, PortState::Open);
    let valid_open = answer(TcpFlags::SYN | TcpFlags::ACK);
    let mut seen = SeenPairs::new();
    assert_eq!(classify(&valid_open, false, &mut seen), Some(open));
    assert_eq!(classify(&valid_open, false, &mut seen), None);
}

#[test]
fn rejects_uncorrelated_responses() {
    let flags = TcpFlags::SYN | TcpFlags::ACK;
    let acknowledgement = SEQUENCE.wrapping_add(1);
    let invalid_packets = [
        response_packet(TARGET, OTHER_SOURCE, TARGET_PORT, SOURCE_PORT, acknowledgement, flags),
        response_packet(OTHER_TARGET, SOURCE, TARGET_PORT, SOURCE_PORT, acknowledgement, flags),
        response_packet(TARGET, SOURCE, 80, SOURCE_PORT, acknowledgement, flags),
        response_packet(TARGET, SOURCE, TARGET_PORT, SOURCE_PORT + 1, acknowledgement, flags),
        response_packet(TARGET, SOURCE, TARGET_PORT, SOURCE_PORT, SEQUENCE, flags),
    ];
    for packet in invalid_packets {
        assert_eq!(classify(&packet, false, &mut SeenPairs::new()), None);
    }
}

#[test]
fn reports_closed_responses_only_when_requested() {
    let closed_packet = answer(TcpFlags::RST | TcpFlags::ACK);
    let mut closed_seen = SeenPairs::new();
    assert_eq!(classify(&closed_packet, false, &mut closed_seen), None);
    assert_eq!(
        classify(&closed_packet, true, &mut closed_seen),
        Some(ScanResult::new(TARGET, TARGET_PORT, PortState::Closed))
    );
}

#[test]
fn ignores_truncated_and_unexpected_responses() {
    let mut truncated = vec![0_u8; 20];
    let mut ipv4 = MutableIpv4Packet::new(&mut truncated).unwrap();
    ipv4.set_version(4);
    ipv4.set_header_length(5);
    ipv4.set_total_length(20);
    ipv4.set_next_level_protocol(IpNextHeaderProtocols::Tcp);
    ipv4.set_source(TARGET.into());
    ipv4.set_destination(SOURCE.into());

    let mut seen = SeenPairs::new();
    assert_eq!(classify(&truncated, false, &mut seen), None);
    for flags in [TcpFlags::ACK, TcpFlags::SYN | TcpFlags::ACK | TcpFlags::RST] {
        assert_eq!(classify(&answer(flags), true, &mut seen), None);
    }

    let valid = answer(TcpFlags::SYN | TcpFlags::ACK);
    assert!(classify(&valid, false, &mut seen).is_some());
}

#[test]
fn accepts_wrapped_acknowledgement_number() {
    let expected = expecting(u32::MAX);
    let response = response_packet(
        TARGET,
        SOURCE,
        TARGET_PORT,
        SOURCE_PORT,
        0,
        TcpFlags::SYN | TcpFlags::ACK,
    );

    assert!(classify_response(
        &response,
        &expected,
        SOURCE,
        SOURCE_PORT,
        false,
        &mut SeenPairs::new()
    )
    .is_some());
}

#[test]
fn a_reset_without_ack_closes_a_port_too() {
    let mut seen = SeenPairs::new();
    assert_eq!(
        classify(&answer(TcpFlags::RST), true, &mut seen),
        Some(ScanResult::new(TARGET, TARGET_PORT, PortState::Closed))
    );
    assert_eq!(classify(&answer(TcpFlags::SYN | TcpFlags::ACK), true, &mut seen), None);
}

#[test]
fn short_packets_and_short_segments_are_ignored() {
    let valid = answer(TcpFlags::SYN | TcpFlags::ACK);
    for len in 0..PACKET_LEN {
        assert_eq!(classify(&valid[..len], false, &mut SeenPairs::new()), None, "{len}");
    }
    let mut short = valid.clone();
    short[3] = 39;
    assert_eq!(classify(&short, false, &mut SeenPairs::new()), None);
    let mut long = valid;
    long[3] = 60;
    assert!(classify(&long, false, &mut SeenPairs::new()).is_some());
}

#[test]
fn header_options_are_skipped() {
    let valid = answer(TcpFlags::SYN | TcpFlags::ACK);
    let mut with_options = valid[..20].to_vec();
    with_options[0] = 0x46;
    with_options[3] = 44;
    with_options.extend([1, 1, 1, 1]);
    with_options.extend(&valid[20..]);
    assert!(classify(&with_options, false, &mut SeenPairs::new()).is_some());
    with_options[0] = 0x45;
    assert_eq!(classify(&with_options, false, &mut SeenPairs::new()), None);
    let mut small_header = valid;
    small_header[0] = 0x42;
    assert!(classify(&small_header, false, &mut SeenPairs::new()).is_some());
}

#[test]
fn an_answer_to_a_probe_is_reported() {
    let probe = syn_packet(SOURCE, TARGET, SOURCE_PORT, TARGET_PORT, SEQUENCE);
    let mut reply = vec![0u8; 40];
    reply[0] = 0x45;
    reply[3] = 40;
    reply[12..16].copy_from_slice(&probe[16..20]);
    reply[16..20].copy_from_slice(&probe[12..16]);
    reply[20..22].copy_from_slice(&probe[22..24]);
    reply[22..24].copy_from_slice(&probe[20..22]);
    reply[28..32].copy_from_slice(&(SEQUENCE + 1).to_be_bytes());
    reply[33] = 0x12;
    assert_eq!(
        classify(&reply, false, &mut SeenPairs::new()),
        Some(ScanResult::new(TARGET, TARGET_PORT, PortState::Open))
    );
    assert_eq!(classify(&probe, true, &mut SeenPairs::new()), None);
}

#[test]
fn reception_keeps_the_first_answer_of_each_pair() {
    let mut expected = expecting(SEQUENCE);
    expected.insert(OTHER_TARGET, 80, 7);
    let mut reception = Reception::new(SOURCE, SOURCE_PORT, true, Duration::from_secs(3));
    let closed = ScanResult::new(OTHER_TARGET, 80, PortState::Closed);
    let open = ScanResult::new(TARGET, TARGET_PORT, PortState::Open);
    let reset = response_packet(OTHER_TARGET, SOURCE, 80, SOURCE_PORT, 8, TcpFlags::RST);
    let late = response_packet(OTHER_TARGET, SOURCE, 80, SOURCE_PORT, 8, 0x12);
    assert_eq!(reception.accept(&expected, &reset), Some(closed));
    assert_eq!(reception.accept(&expected, &[]), None);
    assert_eq!(reception.accept(&expected, &answer(0x12)), Some(open));
    assert_eq!(reception.accept(&expected, &late), None);
    assert_eq!(reception.into_results(), [closed, open]);
}

#[test]
fn reception_ends_a_timeout_after_sending() {
    let at = Duration::from_millis;
    let mut reception = Reception::new(SOURCE, SOURCE_PORT, false, at(1000));
    reception.note_time(false, at(5000));
    assert!(!reception.expired(at(1_000_000)));
    assert_eq!(reception.wait(at(5000)), at(100));
    reception.note_time(true, at(6000));
    reception.note_time(true, at(6500));
    assert!(!reception.expired(at(6999)));
    assert!(reception.expired(at(7000)));
    assert_eq!(reception.wait(at(6000)), at(100));
    assert_eq!(reception.wait(at(6900)), at(100));
    assert_eq!(reception.wait(at(6950)), at(50));
    assert_eq!(reception.wait(at(7000)), at(0));
    assert_eq!(reception.wait(at(7001)), at(100));
}

#[test]
fn responses_with_options_are_not_lost() {
    let with_options = |packet: &[u8]| {
        let mut bytes = packet[..20].to_vec();
        bytes[0] = 0x46;
        bytes[3] = 44;
        bytes.extend([1, 1, 1, 1]);
        bytes.extend(&packet[20..]);
        bytes
    };
    let expected = expecting(SEQUENCE);
    let reset = with_options(&answer(TcpFlags::RST | TcpFlags::ACK));
    let open = with_options(&answer(TcpFlags::SYN | TcpFlags::ACK));
    for (first, second, state) in
        [(&reset, &open, PortState::Closed), (&open, &reset, PortState::Open)]
    {
        let mut reception = Reception::new(SOURCE, SOURCE_PORT, true, Duration::from_secs(3));
        reception.accept(&expected, &answer(TcpFlags::ACK));
        reception.accept(&expected, first);
        reception.accept(&expected, second);
        assert_eq!(
            reception.into_results(),
            [ScanResult::new(TARGET, TARGET_PORT, state)]
        );
    }
}
