use pnet::packet::ip::IpNextHeaderProtocols;
use pnet::packet::ipv4::{checksum as ipv4_checksum, Ipv4Packet, MutableIpv4Packet};
use pnet::packet::tcp::{
    ipv4_checksum as tcp_checksum, MutableTcpPacket, TcpFlags, TcpPacket,
};
use pnet::packet::Packet;
use singsing_rs::packet::{
    syn_packet, FLAGS_RST_ACK, FLAGS_SYN_ACK, FLAG_RST, FLAG_SYN, PACKET_LEN,
    PROTOCOL_TCP,
};

const SOURCE: u32 = 0xc0a8_0201;
const DESTINATION: u32 = 0xac10_6402;

#[test]
fn builds_valid_syn_packet() {
    let sequence = 0x1234_5678u32;
    let bytes = syn_packet(SOURCE, DESTINATION, 50000, 443, sequence);
    let ipv4 = Ipv4Packet::new(&bytes).unwrap();
    let tcp = TcpPacket::new(ipv4.payload()).unwrap();

    assert_eq!(bytes.len(), PACKET_LEN);
    assert_eq!(ipv4.get_version(), 4);
    assert_eq!(ipv4.get_header_length(), 5);
    assert_eq!(ipv4.get_total_length(), 40);
    assert_eq!(ipv4.get_identification(), (sequence >> 16) as u16);
    assert_eq!(ipv4.get_ttl(), 64);
    assert_eq!(ipv4.get_next_level_protocol(), IpNextHeaderProtocols::Tcp);
    assert_eq!(u32::from(ipv4.get_source()), SOURCE);
    assert_eq!(u32::from(ipv4.get_destination()), DESTINATION);
    let mut ip_for_checksum = MutableIpv4Packet::owned(bytes.clone()).unwrap();
    ip_for_checksum.set_checksum(0);
    assert_eq!(ipv4.get_checksum(), ipv4_checksum(&ip_for_checksum.to_immutable()));
    let mut tcp_for_checksum = MutableTcpPacket::owned(tcp.packet().to_vec()).unwrap();
    tcp_for_checksum.set_checksum(0);
    assert_eq!(
        tcp.get_checksum(),
        tcp_checksum(&tcp_for_checksum.to_immutable(), &SOURCE.into(), &DESTINATION.into())
    );
    assert_eq!(tcp.packet().len(), 20);
    assert!(tcp.payload().is_empty());
    assert_eq!(tcp.get_source(), 50000);
    assert_eq!(tcp.get_destination(), 443);
    assert_eq!(tcp.get_sequence(), sequence);
    assert_eq!(tcp.get_acknowledgement(), 0);
    assert_eq!(tcp.get_data_offset(), 5);
    assert_eq!(tcp.get_flags(), TcpFlags::SYN);
    assert_eq!(tcp.get_window(), 64240);
    assert_eq!(tcp.get_urgent_ptr(), 0);
}

#[test]
fn a_probe_has_these_bytes() {
    assert_eq!(
        syn_packet(SOURCE, DESTINATION, 50000, 443, 0x1234_5678),
        [
            0x45, 0x00, 0x00, 0x28, 0x12, 0x34, 0x00, 0x00, 0x40, 0x06, 0x95, 0xe0, 0xc0, 0xa8,
            0x02, 0x01, 0xac, 0x10, 0x64, 0x02, 0xc3, 0x50, 0x01, 0xbb, 0x12, 0x34, 0x56, 0x78,
            0x00, 0x00, 0x00, 0x00, 0x50, 0x02, 0xfa, 0xf0, 0xb4, 0x7d, 0x00, 0x00,
        ]
    );
}

fn folded(bytes: &[u8], start: u32) -> u32 {
    let words = bytes.chunks(2).map(|word| u32::from(word[0]) * 256 + u32::from(word[1]));
    let mut sum = words.sum::<u32>() + start;
    while sum > 0xffff {
        sum = sum / 0x1_0000 + sum % 0x1_0000;
    }
    sum
}

#[test]
fn the_checksums_of_a_probe_are_valid() {
    for (source, destination, source_port, port, sequence) in [
        (SOURCE, DESTINATION, 50000, 443, 0x1234_5678),
        (0, 0, 0, 0, 0),
        (u32::MAX, u32::MAX, u16::MAX, u16::MAX, u32::MAX),
        (1, 2, 3, 4, 0xffff_0000),
    ] {
        let bytes = syn_packet(source, destination, source_port, port, sequence);
        assert_eq!(folded(&bytes[..20], 0), 0xffff);
        let pseudo = folded(&bytes[12..20], 6 + 20);
        assert_eq!(folded(&bytes[20..], pseudo), 0xffff);
    }
}

#[test]
fn constants_are_those_of_the_protocols() {
    assert_eq!(PROTOCOL_TCP, IpNextHeaderProtocols::Tcp.0);
    assert_eq!(FLAG_SYN, TcpFlags::SYN);
    assert_eq!(FLAG_RST, TcpFlags::RST);
    assert_eq!(FLAGS_SYN_ACK, TcpFlags::SYN | TcpFlags::ACK);
    assert_eq!(FLAGS_RST_ACK, TcpFlags::RST | TcpFlags::ACK);
}
