//! IPv4 and TCP headers on the wire, and the SYN probe.
//!
//! The layout of the headers is stated over byte sequences. The bytes are
//! written and read by `pnet`, one field at a time.

use pnet::packet::ip::IpNextHeaderProtocol;
use pnet::packet::ipv4::{Ipv4Packet, MutableIpv4Packet};
use pnet::packet::tcp::{MutableTcpPacket, TcpPacket};
use pnet::packet::Packet;
use vstd::prelude::*;

verus! {

/// The size of an IPv4 header without options.
pub const IPV4_HEADER_LEN: usize = 20;

/// The size of a TCP header without options.
pub const TCP_HEADER_LEN: usize = 20;

/// The size of a probe: an IPv4 header and a TCP header, both without options.
pub const PACKET_LEN: usize = 40;

/// The protocol number of TCP.
pub const PROTOCOL_TCP: u8 = 6;

/// The TCP flag that opens a connection.
pub const FLAG_SYN: u8 = 0x02;

/// The TCP flag that resets a connection.
pub const FLAG_RST: u8 = 0x04;

/// The flags of a segment that accepts a connection.
pub const FLAGS_SYN_ACK: u8 = 0x12;

/// The flags of a segment that refuses a connection.
pub const FLAGS_RST_ACK: u8 = 0x14;

/// The time to live of a probe.
pub const PROBE_TTL: u8 = 64;

/// The window that a probe advertises.
pub const PROBE_WINDOW: u16 = 64240;

/// The two bytes of `v`, most significant first.
pub open spec fn be16_bytes(v: u16) -> Seq<u8> {
    seq![(v / 0x100) as u8, (v % 0x100) as u8]
}

/// The four bytes of `v`, most significant first.
pub open spec fn be32_bytes(v: u32) -> Seq<u8> {
    seq![
        (v / 0x100_0000) as u8,
        (v / 0x1_0000 % 0x100) as u8,
        (v / 0x100 % 0x100) as u8,
        (v % 0x100) as u8,
    ]
}

/// The number in the two bytes at `at`, most significant first.
pub open spec fn be16(bytes: Seq<u8>, at: int) -> u16 {
    (bytes[at] * 0x100 + bytes[at + 1]) as u16
}

/// The number in the four bytes at `at`, most significant first.
pub open spec fn be32(bytes: Seq<u8>, at: int) -> u32 {
    (bytes[at] * 0x100_0000 + bytes[at + 1] * 0x1_0000 + bytes[at + 2] * 0x100 + bytes[at
        + 3]) as u32
}

/// The bytes with those from `at` on replaced by `new`.
pub open spec fn overwrite(bytes: Seq<u8>, at: int, new: Seq<u8>) -> Seq<u8> {
    Seq::new(
        bytes.len(),
        |i: int|
            if at <= i < at + new.len() {
                new[i - at]
            } else {
                bytes[i]
            },
    )
}

/// The sum of the first `count` sixteen-bit words of `bytes`, word `skip` left
/// out.
pub open spec fn word_sum(bytes: Seq<u8>, count: nat, skip: int) -> nat
    decreases count,
{
    if count == 0 {
        0
    } else {
        let last = (count - 1) as nat;
        word_sum(bytes, last, skip) + if last == skip {
            0
        } else {
            be16(bytes, 2 * last as int) as nat
        }
    }
}

/// The Internet checksum of words that add up to `sum`: the complement of their
/// ones' complement sum, which is congruent to `sum` modulo 65535 and zero only
/// if `sum` is.
pub open spec fn checksum_of(sum: nat) -> u16 {
    if sum == 0 {
        0xffff
    } else {
        (0xffff - ((sum - 1) % 0xffff + 1)) as u16
    }
}

/// The sum of the words of the pseudo-header that a TCP checksum covers.
pub open spec fn pseudo_header_sum(source: u32, destination: u32, length: nat) -> nat {
    source as nat / 0x1_0000 + source as nat % 0x1_0000 + destination as nat / 0x1_0000
        + destination as nat % 0x1_0000 + PROTOCOL_TCP as nat + length
}

/// The payload of an IPv4 packet: what follows the header, as far as the total
/// length reaches and the packet goes. A header length below the minimum counts
/// as the minimum for where the payload starts.
pub open spec fn ipv4_payload(bytes: Seq<u8>) -> Seq<u8> {
    let header = bytes[0] as int % 0x10 * 4;
    let total = be16(bytes, 2) as int;
    let start = if header > 20 {
        header
    } else {
        20
    };
    let end = start + if total > header {
        total - header
    } else {
        0
    };
    if bytes.len() <= start {
        Seq::empty()
    } else if end < bytes.len() {
        bytes.subrange(start, end)
    } else {
        bytes.skip(start)
    }
}

/// `MutableIpv4Packet::set_version`: the upper half of the first byte.
#[verifier::external_body]
fn ipv4_set_version(packet: &mut Vec<u8>, version: u8)
    requires
        old(packet)@.len() >= 20,
        version < 0x10,
    ensures
        final(packet)@ == old(packet)@.update(
            0,
            (version * 0x10 + old(packet)@[0] as int % 0x10) as u8,
        ),
{
    MutableIpv4Packet::new(packet).unwrap().set_version(version)
}

/// `MutableIpv4Packet::set_header_length`: the lower half of the first byte.
#[verifier::external_body]
fn ipv4_set_header_length(packet: &mut Vec<u8>, words: u8)
    requires
        old(packet)@.len() >= 20,
        words < 0x10,
    ensures
        final(packet)@ == old(packet)@.update(
            0,
            (old(packet)@[0] as int / 0x10 * 0x10 + words) as u8,
        ),
{
    MutableIpv4Packet::new(packet).unwrap().set_header_length(words)
}

/// `MutableIpv4Packet::set_total_length`: the two bytes at 2.
#[verifier::external_body]
fn ipv4_set_total_length(packet: &mut Vec<u8>, length: u16)
    requires
        old(packet)@.len() >= 20,
    ensures
        final(packet)@ == overwrite(old(packet)@, 2, be16_bytes(length)),
{
    MutableIpv4Packet::new(packet).unwrap().set_total_length(length)
}

/// `MutableIpv4Packet::set_identification`: the two bytes at 4.
#[verifier::external_body]
fn ipv4_set_identification(packet: &mut Vec<u8>, identification: u16)
    requires
        old(packet)@.len() >= 20,
    ensures
        final(packet)@ == overwrite(old(packet)@, 4, be16_bytes(identification)),
{
    MutableIpv4Packet::new(packet).unwrap().set_identification(identification)
}

/// `MutableIpv4Packet::set_ttl`: the byte at 8.
#[verifier::external_body]
fn ipv4_set_ttl(packet: &mut Vec<u8>, ttl: u8)
    requires
        old(packet)@.len() >= 20,
    ensures
        final(packet)@ == old(packet)@.update(8, ttl),
{
    MutableIpv4Packet::new(packet).unwrap().set_ttl(ttl)
}

/// `MutableIpv4Packet::set_next_level_protocol`: the byte at 9.
#[verifier::external_body]
fn ipv4_set_next_level_protocol(packet: &mut Vec<u8>, protocol: u8)
    requires
        old(packet)@.len() >= 20,
    ensures
        final(packet)@ == old(packet)@.update(9, protocol),
{
    let mut ipv4 = MutableIpv4Packet::new(packet).unwrap();
    ipv4.set_next_level_protocol(IpNextHeaderProtocol::new(protocol))
}

/// `MutableIpv4Packet::set_checksum`: the two bytes at 10.
#[verifier::external_body]
fn ipv4_set_checksum(packet: &mut Vec<u8>, checksum: u16)
    requires
        old(packet)@.len() >= 20,
    ensures
        final(packet)@ == overwrite(old(packet)@, 10, be16_bytes(checksum)),
{
    MutableIpv4Packet::new(packet).unwrap().set_checksum(checksum)
}

/// `MutableIpv4Packet::set_source`: the four bytes at 12.
#[verifier::external_body]
fn ipv4_set_source(packet: &mut Vec<u8>, source: u32)
    requires
        old(packet)@.len() >= 20,
    ensures
        final(packet)@ == overwrite(old(packet)@, 12, be32_bytes(source)),
{
    MutableIpv4Packet::new(packet).unwrap().set_source(source.into())
}

/// `MutableIpv4Packet::set_destination`: the four bytes at 16.
#[verifier::external_body]
fn ipv4_set_destination(packet: &mut Vec<u8>, destination: u32)
    requires
        old(packet)@.len() >= 20,
    ensures
        final(packet)@ == overwrite(old(packet)@, 16, be32_bytes(destination)),
{
    MutableIpv4Packet::new(packet).unwrap().set_destination(destination.into())
}

/// `MutableTcpPacket::set_source`: the two bytes at 0.
#[verifier::external_body]
fn tcp_set_source(segment: &mut Vec<u8>, port: u16)
    requires
        old(segment)@.len() >= 20,
    ensures
        final(segment)@ == overwrite(old(segment)@, 0, be16_bytes(port)),
{
    MutableTcpPacket::new(segment).unwrap().set_source(port)
}

/// `MutableTcpPacket::set_destination`: the two bytes at 2.
#[verifier::external_body]
fn tcp_set_destination(segment: &mut Vec<u8>, port: u16)
    requires
        old(segment)@.len() >= 20,
    ensures
        final(segment)@ == overwrite(old(segment)@, 2, be16_bytes(port)),
{
    MutableTcpPacket::new(segment).unwrap().set_destination(port)
}

/// `MutableTcpPacket::set_sequence`: the four bytes at 4.
#[verifier::external_body]
fn tcp_set_sequence(segment: &mut Vec<u8>, sequence: u32)
    requires
        old(segment)@.len() >= 20,
    ensures
        final(segment)@ == overwrite(old(segment)@, 4, be32_bytes(sequence)),
{
    MutableTcpPacket::new(segment).unwrap().set_sequence(sequence)
}

/// `MutableTcpPacket::set_data_offset`: the upper half of the byte at 12.
#[verifier::external_body]
fn tcp_set_data_offset(segment: &mut Vec<u8>, words: u8)
    requires
        old(segment)@.len() >= 20,
        words < 0x10,
    ensures
        final(segment)@ == old(segment)@.update(
            12,
            (words * 0x10 + old(segment)@[12] as int % 0x10) as u8,
        ),
{
    MutableTcpPacket::new(segment).unwrap().set_data_offset(words)
}

/// `MutableTcpPacket::set_flags`: the byte at 13.
#[verifier::external_body]
fn tcp_set_flags(segment: &mut Vec<u8>, flags: u8)
    requires
        old(segment)@.len() >= 20,
    ensures
        final(segment)@ == old(segment)@.update(13, flags),
{
    MutableTcpPacket::new(segment).unwrap().set_flags(flags)
}

/// `MutableTcpPacket::set_window`: the two bytes at 14.
#[verifier::external_body]
fn tcp_set_window(segment: &mut Vec<u8>, window: u16)
    requires
        old(segment)@.len() >= 20,
    ensures
        final(segment)@ == overwrite(old(segment)@, 14, be16_bytes(window)),
{
    MutableTcpPacket::new(segment).unwrap().set_window(window)
}

/// `MutableTcpPacket::set_checksum`: the two bytes at 16.
#[verifier::external_body]
fn tcp_set_checksum(segment: &mut Vec<u8>, checksum: u16)
    requires
        old(segment)@.len() >= 20,
    ensures
        final(segment)@ == overwrite(old(segment)@, 16, be16_bytes(checksum)),
{
    MutableTcpPacket::new(segment).unwrap().set_checksum(checksum)
}

/// `pnet::packet::ipv4::checksum`: the Internet checksum of the header, whose
/// checksum word counts as zero. Stated where the header length that the packet
/// gives is possible.
#[verifier::external_body]
fn ipv4_checksum(packet: &Vec<u8>) -> (checksum: u16)
    requires
        packet@.len() >= 20,
        20 <= packet@[0] as int % 0x10 * 4 <= packet@.len(),
    ensures
        checksum == checksum_of(word_sum(packet@, (packet@[0] as int % 0x10 * 2) as nat, 5)),
{
    pnet::packet::ipv4::checksum(&Ipv4Packet::new(packet).unwrap())
}

/// `pnet::packet::tcp::ipv4_checksum`: the Internet checksum of the segment,
/// whose checksum word counts as zero, and of the pseudo-header. Stated for an
/// even number of bytes that an IPv4 packet can carry.
#[verifier::external_body]
fn tcp_checksum(segment: &Vec<u8>, source: u32, destination: u32) -> (checksum: u16)
    requires
        20 <= segment@.len() <= 0xffff,
        segment@.len() % 2 == 0,
    ensures
        checksum == checksum_of(
            pseudo_header_sum(source, destination, segment@.len()) + word_sum(
                segment@,
                segment@.len() / 2,
                8,
            ),
        ),
{
    let tcp = TcpPacket::new(segment).unwrap();
    pnet::packet::tcp::ipv4_checksum(&tcp, &source.into(), &destination.into())
}

/// `Ipv4Packet::get_source`: the four bytes at 12.
#[verifier::external_body]
pub(crate) fn ipv4_source(packet: &[u8]) -> (source: u32)
    requires
        packet@.len() >= 20,
    ensures
        source == be32(packet@, 12),
{
    Ipv4Packet::new(packet).unwrap().get_source().into()
}

/// `Ipv4Packet::get_destination`: the four bytes at 16.
#[verifier::external_body]
pub(crate) fn ipv4_destination(packet: &[u8]) -> (destination: u32)
    requires
        packet@.len() >= 20,
    ensures
        destination == be32(packet@, 16),
{
    Ipv4Packet::new(packet).unwrap().get_destination().into()
}

/// `Ipv4Packet::payload`: what follows the header, within the total length.
#[verifier::external_body]
pub(crate) fn ipv4_payload_bytes(packet: &[u8]) -> (payload: Vec<u8>)
    requires
        packet@.len() >= 20,
    ensures
        payload@ == ipv4_payload(packet@),
{
    Ipv4Packet::new(packet).unwrap().payload().to_vec()
}

/// `TcpPacket::get_source`: the two bytes at 0.
#[verifier::external_body]
pub(crate) fn tcp_source(segment: &[u8]) -> (port: u16)
    requires
        segment@.len() >= 20,
    ensures
        port == be16(segment@, 0),
{
    TcpPacket::new(segment).unwrap().get_source()
}

/// `TcpPacket::get_destination`: the two bytes at 2.
#[verifier::external_body]
pub(crate) fn tcp_destination(segment: &[u8]) -> (port: u16)
    requires
        segment@.len() >= 20,
    ensures
        port == be16(segment@, 2),
{
    TcpPacket::new(segment).unwrap().get_destination()
}

/// `TcpPacket::get_acknowledgement`: the four bytes at 8.
#[verifier::external_body]
pub(crate) fn tcp_acknowledgement(segment: &[u8]) -> (acknowledgement: u32)
    requires
        segment@.len() >= 20,
    ensures
        acknowledgement == be32(segment@, 8),
{
    TcpPacket::new(segment).unwrap().get_acknowledgement()
}

/// `TcpPacket::get_flags`: the byte at 13.
#[verifier::external_body]
pub(crate) fn tcp_flags(segment: &[u8]) -> (flags: u8)
    requires
        segment@.len() >= 20,
    ensures
        flags == segment@[13],
{
    TcpPacket::new(segment).unwrap().get_flags()
}

/// The IPv4 header of a probe.
pub open spec fn probe_header(
    source: u32,
    destination: u32,
    sequence: u32,
    checksum: u16,
) -> Seq<u8> {
    seq![0x45, 0] + be16_bytes(PACKET_LEN as u16) + be16_bytes((sequence / 0x1_0000) as u16) + seq![
        0,
        0,
        PROBE_TTL,
        PROTOCOL_TCP,
    ] + be16_bytes(checksum) + be32_bytes(source) + be32_bytes(destination)
}

/// The TCP header of a probe.
pub open spec fn probe_segment(
    source_port: u16,
    destination_port: u16,
    sequence: u32,
    checksum: u16,
) -> Seq<u8> {
    be16_bytes(source_port) + be16_bytes(destination_port) + be32_bytes(sequence) + be32_bytes(0)
        + seq![0x50, FLAG_SYN] + be16_bytes(PROBE_WINDOW) + be16_bytes(checksum) + be16_bytes(0)
}

/// The header checksum of a probe.
pub open spec fn probe_header_checksum(source: u32, destination: u32, sequence: u32) -> u16 {
    checksum_of(word_sum(probe_header(source, destination, sequence, 0), 10, 5))
}

/// The TCP checksum of a probe.
pub open spec fn probe_segment_checksum(
    source: u32,
    destination: u32,
    source_port: u16,
    destination_port: u16,
    sequence: u32,
) -> u16 {
    checksum_of(
        pseudo_header_sum(source, destination, 20) + word_sum(
            probe_segment(source_port, destination_port, sequence, 0),
            10,
            8,
        ),
    )
}

/// The bytes of a probe.
pub open spec fn probe_bytes(
    source: u32,
    destination: u32,
    source_port: u16,
    destination_port: u16,
    sequence: u32,
) -> Seq<u8> {
    probe_header(
        source,
        destination,
        sequence,
        probe_header_checksum(source, destination, sequence),
    ) + probe_segment(
        source_port,
        destination_port,
        sequence,
        probe_segment_checksum(source, destination, source_port, destination_port, sequence),
    )
}

/// Words that agree have the same sum.
proof fn lemma_word_sum_agrees(a: Seq<u8>, b: Seq<u8>, count: nat, skip: int)
    requires
        forall|i: int|
            0 <= i < 2 * count && i != 2 * skip && i != 2 * skip + 1 ==> #[trigger] a[i] == b[i],
    ensures
        word_sum(a, count, skip) == word_sum(b, count, skip),
    decreases count,
{
    if count > 0 {
        let last = (count - 1) as nat;
        lemma_word_sum_agrees(a, b, last, skip);
        if last != skip {
            assert(a[2 * last as int] == b[2 * last as int]);
            assert(a[2 * last as int + 1] == b[2 * last as int + 1]);
        }
    }
}

/// Builds the TCP header of a probe.
fn syn_segment(
    source: u32,
    destination: u32,
    source_port: u16,
    destination_port: u16,
    sequence: u32,
) -> (segment: Vec<u8>)
    ensures
        segment@ == probe_segment(
            source_port,
            destination_port,
            sequence,
            probe_segment_checksum(source, destination, source_port, destination_port, sequence),
        ),
{
    let mut segment: Vec<u8> = vec![0u8; TCP_HEADER_LEN];
    tcp_set_source(&mut segment, source_port);
    tcp_set_destination(&mut segment, destination_port);
    tcp_set_sequence(&mut segment, sequence);
    tcp_set_data_offset(&mut segment, 5);
    tcp_set_flags(&mut segment, FLAG_SYN);
    tcp_set_window(&mut segment, PROBE_WINDOW);
    assert(segment@ =~= probe_segment(source_port, destination_port, sequence, 0));
    let checksum = tcp_checksum(&segment, source, destination);
    tcp_set_checksum(&mut segment, checksum);
    assert(segment@ =~= probe_segment(source_port, destination_port, sequence, checksum));
    segment
}

/// Builds the IPv4 header of a probe, without its checksum.
fn syn_header(source: u32, destination: u32, sequence: u32) -> (packet: Vec<u8>)
    ensures
        packet@ == probe_header(source, destination, sequence, 0),
{
    let mut packet: Vec<u8> = vec![0u8; IPV4_HEADER_LEN];
    ipv4_set_version(&mut packet, 4);
    ipv4_set_header_length(&mut packet, 5);
    ipv4_set_total_length(&mut packet, PACKET_LEN as u16);
    ipv4_set_identification(&mut packet, (sequence / 0x1_0000) as u16);
    ipv4_set_ttl(&mut packet, PROBE_TTL);
    ipv4_set_next_level_protocol(&mut packet, PROTOCOL_TCP);
    ipv4_set_source(&mut packet, source);
    ipv4_set_destination(&mut packet, destination);
    assert(packet@ =~= probe_header(source, destination, sequence, 0));
    packet
}

/// Builds a probe: a SYN from `source` to `destination`.
pub fn syn_packet(
    source: u32,
    destination: u32,
    source_port: u16,
    destination_port: u16,
    sequence: u32,
) -> (packet: Vec<u8>)
    ensures
        packet@ == probe_bytes(source, destination, source_port, destination_port, sequence),
{
    let mut packet = syn_header(source, destination, sequence);
    let ghost header = packet@;
    let mut segment = syn_segment(
        source,
        destination,
        source_port,
        destination_port,
        sequence,
    );
    let ghost payload = segment@;
    packet.append(&mut segment);
    proof {
        lemma_word_sum_agrees(packet@, header, 10, 5);
    }
    let checksum = ipv4_checksum(&packet);
    ipv4_set_checksum(&mut packet, checksum);
    assert(packet@ =~= probe_header(source, destination, sequence, checksum) + payload);
    packet
}

/// Two bytes read back as the number they were written for.
proof fn lemma_be16(bytes: Seq<u8>, at: int, v: u16)
    requires
        bytes[at] == be16_bytes(v)[0],
        bytes[at + 1] == be16_bytes(v)[1],
    ensures
        be16(bytes, at) == v,
{
}

/// Four bytes read back as the number they were written for.
proof fn lemma_be32(bytes: Seq<u8>, at: int, v: u32)
    requires
        forall|i: int| 0 <= i < 4 ==> bytes[at + i] == #[trigger] be32_bytes(v)[i],
    ensures
        be32(bytes, at) == v,
{
    assert(bytes[at + 0] == be32_bytes(v)[0]);
    assert(bytes[at + 1] == be32_bytes(v)[1]);
    assert(bytes[at + 2] == be32_bytes(v)[2]);
    assert(bytes[at + 3] == be32_bytes(v)[3]);
}

/// The fields of the IPv4 header of a probe read back.
proof fn lemma_probe_header(source: u32, destination: u32, sequence: u32, checksum: u16)
    ensures
        ({
            let header = probe_header(source, destination, sequence, checksum);
            &&& header.len() == 20
            &&& header[0] == 0x45
            &&& be16(header, 2) == PACKET_LEN
            &&& be16(header, 4) == sequence / 0x1_0000
            &&& be16(header, 6) == 0
            &&& header[8] == PROBE_TTL
            &&& header[9] == PROTOCOL_TCP
            &&& be16(header, 10) == checksum
            &&& be32(header, 12) == source
            &&& be32(header, 16) == destination
        }),
{
    let header = probe_header(source, destination, sequence, checksum);
    lemma_be16(header, 2, PACKET_LEN as u16);
    lemma_be16(header, 4, (sequence / 0x1_0000) as u16);
    lemma_be16(header, 10, checksum);
    lemma_be32(header, 12, source);
    lemma_be32(header, 16, destination);
}

/// The fields of the TCP header of a probe read back.
proof fn lemma_probe_segment(
    source_port: u16,
    destination_port: u16,
    sequence: u32,
    checksum: u16,
)
    ensures
        ({
            let segment = probe_segment(source_port, destination_port, sequence, checksum);
            &&& segment.len() == 20
            &&& be16(segment, 0) == source_port
            &&& be16(segment, 2) == destination_port
            &&& be32(segment, 4) == sequence
            &&& be32(segment, 8) == 0
            &&& segment[12] == 0x50
            &&& segment[13] == FLAG_SYN
            &&& be16(segment, 14) == PROBE_WINDOW
            &&& be16(segment, 16) == checksum
            &&& be16(segment, 18) == 0
        }),
{
    let segment = probe_segment(source_port, destination_port, sequence, checksum);
    lemma_be16(segment, 0, source_port);
    lemma_be16(segment, 2, destination_port);
    lemma_be32(segment, 4, sequence);
    lemma_be32(segment, 8, 0);
    lemma_be16(segment, 14, PROBE_WINDOW);
    lemma_be16(segment, 16, checksum);
    lemma_be16(segment, 18, 0);
}

/// What is read within the first part of some bytes does not depend on the rest.
proof fn lemma_reads_of_front(front: Seq<u8>, back: Seq<u8>, at: int)
    requires
        0 <= at,
    ensures
        at + 2 <= front.len() ==> be16(front + back, at) == be16(front, at),
        at + 4 <= front.len() ==> be32(front + back, at) == be32(front, at),
{
}

/// What follows a header of 20 bytes, of a packet that is 40 bytes long and says so,
/// is the payload.
proof fn lemma_payload_of(front: Seq<u8>, back: Seq<u8>)
    requires
        front.len() == 20,
        back.len() == 20,
        front[0] == 0x45,
        be16(front, 2) == 40,
    ensures
        ipv4_payload(front + back) == back,
        (front + back).skip(20) == back,
{
    lemma_reads_of_front(front, back, 2);
    assert((front + back).skip(20) =~= back);
    assert(ipv4_payload(front + back) =~= back);
}

/// A probe is 40 bytes that read back as what it was built from: an IPv4 header
/// without options, with the addresses and the TCP protocol, and a SYN without
/// options or data, with the ports and the sequence number.
pub proof fn law_probe_fields(
    source: u32,
    destination: u32,
    source_port: u16,
    destination_port: u16,
    sequence: u32,
)
    ensures
        ({
            let probe = probe_bytes(source, destination, source_port, destination_port, sequence);
            let segment = ipv4_payload(probe);
            &&& probe.len() == PACKET_LEN
            &&& probe[0] == 0x45
            &&& be16(probe, 2) == PACKET_LEN
            &&& be16(probe, 4) == sequence / 0x1_0000
            &&& be16(probe, 6) == 0
            &&& probe[8] == PROBE_TTL
            &&& probe[9] == PROTOCOL_TCP
            &&& be32(probe, 12) == source
            &&& be32(probe, 16) == destination
            &&& segment == probe.skip(20)
            &&& segment.len() == 20
            &&& be16(segment, 0) == source_port
            &&& be16(segment, 2) == destination_port
            &&& be32(segment, 4) == sequence
            &&& be32(segment, 8) == 0
            &&& segment[12] == 0x50
            &&& segment[13] == FLAG_SYN
            &&& be16(segment, 14) == PROBE_WINDOW
            &&& be16(segment, 18) == 0
        }),
{
    let header_checksum = probe_header_checksum(source, destination, sequence);
    let segment_checksum = probe_segment_checksum(
        source,
        destination,
        source_port,
        destination_port,
        sequence,
    );
    let header = probe_header(source, destination, sequence, header_checksum);
    let segment = probe_segment(source_port, destination_port, sequence, segment_checksum);
    lemma_probe_header(source, destination, sequence, header_checksum);
    lemma_probe_segment(source_port, destination_port, sequence, segment_checksum);
    lemma_payload_of(header, segment);
    lemma_reads_of_front(header, segment, 2);
    lemma_reads_of_front(header, segment, 4);
    lemma_reads_of_front(header, segment, 6);
    lemma_reads_of_front(header, segment, 12);
    lemma_reads_of_front(header, segment, 16);
}

/// Adding the word that was left out to a sum of words.
proof fn lemma_word_sum_skip(bytes: Seq<u8>, count: nat, skip: int)
    ensures
        0 <= skip < count ==> word_sum(bytes, count, -1) == word_sum(bytes, count, skip) + be16(
            bytes,
            2 * skip,
        ),
        !(0 <= skip < count) ==> word_sum(bytes, count, -1) == word_sum(bytes, count, skip),
    decreases count,
{
    if count > 0 {
        lemma_word_sum_skip(bytes, (count - 1) as nat, skip);
    }
}

/// A sum and its checksum add up to a multiple of 65535.
proof fn lemma_checksum_of(sum: nat)
    ensures
        (sum + checksum_of(sum)) % 0xffff == 0,
{
    if sum > 0 {
        let folded = (sum - 1) % 0xffff + 1;
        vstd::arithmetic::div_mod::lemma_fundamental_div_mod(sum - 1, 0xffff);
        let q = (sum - 1) / 0xffff;
        assert(sum + checksum_of(sum) == (q + 1) * 0xffff);
        vstd::arithmetic::div_mod::lemma_mod_multiples_basic(q + 1, 0xffff);
    }
}

/// The words of the IPv4 header of a probe add up to a multiple of 65535.
proof fn lemma_header_checksum(source: u32, destination: u32, sequence: u32)
    ensures
        ({
            let checksum = probe_header_checksum(source, destination, sequence);
            let sum = word_sum(probe_header(source, destination, sequence, checksum), 10, -1);
            sum > 0 && sum % 0xffff == 0
        }),
{
    let checksum = probe_header_checksum(source, destination, sequence);
    let header = probe_header(source, destination, sequence, checksum);
    let blank = probe_header(source, destination, sequence, 0);
    lemma_probe_header(source, destination, sequence, checksum);
    lemma_word_sum_agrees(header, blank, 10, 5);
    lemma_word_sum_skip(header, 10, 5);
    lemma_checksum_of(word_sum(blank, 10, 5));
    lemma_word_sum_grows(header, 1, 10);
    reveal_with_fuel(word_sum, 2);
}

/// The words of the TCP header of a probe and those of the pseudo-header add up to a
/// multiple of 65535.
proof fn lemma_segment_checksum(
    source: u32,
    destination: u32,
    source_port: u16,
    destination_port: u16,
    sequence: u32,
)
    ensures
        ({
            let checksum = probe_segment_checksum(
                source,
                destination,
                source_port,
                destination_port,
                sequence,
            );
            let segment = probe_segment(source_port, destination_port, sequence, checksum);
            let sum = pseudo_header_sum(source, destination, 20) + word_sum(segment, 10, -1);
            sum > 0 && sum % 0xffff == 0
        }),
{
    let checksum = probe_segment_checksum(
        source,
        destination,
        source_port,
        destination_port,
        sequence,
    );
    let segment = probe_segment(source_port, destination_port, sequence, checksum);
    let blank = probe_segment(source_port, destination_port, sequence, 0);
    lemma_probe_segment(source_port, destination_port, sequence, checksum);
    lemma_word_sum_agrees(segment, blank, 10, 8);
    lemma_word_sum_skip(segment, 10, 8);
    lemma_checksum_of(
        pseudo_header_sum(source, destination, 20) + word_sum(blank, 10, 8),
    );
}

/// The checksums of a probe are valid: the words of its header, and the words of
/// its segment with those of the pseudo-header, add up to zero in ones' complement
/// arithmetic, that is to a multiple of 65535 that is not zero.
pub proof fn law_probe_checksums(
    source: u32,
    destination: u32,
    source_port: u16,
    destination_port: u16,
    sequence: u32,
)
    ensures
        ({
            let probe = probe_bytes(source, destination, source_port, destination_port, sequence);
            let header = word_sum(probe, 10, -1);
            let segment = pseudo_header_sum(source, destination, 20) + word_sum(
                probe.skip(20),
                10,
                -1,
            );
            &&& header > 0 && header % 0xffff == 0
            &&& segment > 0 && segment % 0xffff == 0
        }),
{
    let header_checksum = probe_header_checksum(source, destination, sequence);
    let segment_checksum = probe_segment_checksum(
        source,
        destination,
        source_port,
        destination_port,
        sequence,
    );
    let header = probe_header(source, destination, sequence, header_checksum);
    let segment = probe_segment(source_port, destination_port, sequence, segment_checksum);
    lemma_probe_header(source, destination, sequence, header_checksum);
    lemma_probe_segment(source_port, destination_port, sequence, segment_checksum);
    lemma_payload_of(header, segment);
    lemma_word_sum_agrees(header + segment, header, 10, -1);
    lemma_header_checksum(source, destination, sequence);
    lemma_segment_checksum(source, destination, source_port, destination_port, sequence);
}

/// More words do not add up to less.
proof fn lemma_word_sum_grows(bytes: Seq<u8>, fewer: nat, count: nat)
    requires
        fewer <= count,
    ensures
        word_sum(bytes, fewer, -1) <= word_sum(bytes, count, -1),
    decreases count,
{
    if fewer < count {
        lemma_word_sum_grows(bytes, fewer, (count - 1) as nat);
    }
}

/// The bytes of a probe, one by one, but for the two checksums: version 4 and a header
/// of five words, the total length, the upper half of the sequence number as
/// identification, a time to live of 64, TCP, the two addresses, the two ports, the
/// sequence number, no acknowledgement, a header of five words, SYN, and a window of
/// 64240.
pub proof fn law_bytes_of_probe(
    source: u32,
    destination: u32,
    source_port: u16,
    destination_port: u16,
    sequence: u32,
)
    ensures
        ({
            let p = probe_bytes(source, destination, source_port, destination_port, sequence);
            &&& p.len() == 40
            &&& p[0] == 0x45 && p[1] == 0 && p[2] == 0 && p[3] == 40
            &&& p[4] * 256 + p[5] == sequence / 65536
            &&& p[6] == 0 && p[7] == 0 && p[8] == 64 && p[9] == 6
            &&& p[12] * 16777216 + p[13] * 65536 + p[14] * 256 + p[15] == source
            &&& p[16] * 16777216 + p[17] * 65536 + p[18] * 256 + p[19] == destination
            &&& p[20] * 256 + p[21] == source_port
            &&& p[22] * 256 + p[23] == destination_port
            &&& p[24] * 16777216 + p[25] * 65536 + p[26] * 256 + p[27] == sequence
            &&& p[28] == 0 && p[29] == 0 && p[30] == 0 && p[31] == 0
            &&& p[32] == 0x50 && p[33] == 0x02
            &&& p[34] * 256 + p[35] == 64240
            &&& p[38] == 0 && p[39] == 0
        }),
{
    let header_checksum = probe_header_checksum(source, destination, sequence);
    let segment_checksum = probe_segment_checksum(
        source,
        destination,
        source_port,
        destination_port,
        sequence,
    );
    lemma_header_bytes(source, destination, sequence, header_checksum);
    lemma_segment_bytes(source_port, destination_port, sequence, segment_checksum);
    let header = probe_header(source, destination, sequence, header_checksum);
    let segment = probe_segment(source_port, destination_port, sequence, segment_checksum);
    lemma_probe_header(source, destination, sequence, header_checksum);
    lemma_probe_segment(source_port, destination_port, sequence, segment_checksum);
    let p = header + segment;
    assert(forall|i: int| 0 <= i < 20 ==> #[trigger] p[i] == header[i]);
    assert(forall|i: int| 20 <= i < 40 ==> #[trigger] p[i] == segment[i - 20]);
}

/// The bytes of the IPv4 header of a probe.
proof fn lemma_header_bytes(source: u32, destination: u32, sequence: u32, checksum: u16)
    ensures
        ({
            let h = probe_header(source, destination, sequence, checksum);
            &&& h[0] == 0x45 && h[1] == 0 && h[2] == 0 && h[3] == 40
            &&& h[4] * 256 + h[5] == sequence / 65536
            &&& h[6] == 0 && h[7] == 0 && h[8] == 64 && h[9] == 6
            &&& h[10] * 256 + h[11] == checksum
            &&& h[12] * 16777216 + h[13] * 65536 + h[14] * 256 + h[15] == source
            &&& h[16] * 16777216 + h[17] * 65536 + h[18] * 256 + h[19] == destination
        }),
{
    lemma_probe_header(source, destination, sequence, checksum);
}

/// The bytes of the TCP header of a probe.
proof fn lemma_segment_bytes(
    source_port: u16,
    destination_port: u16,
    sequence: u32,
    checksum: u16,
)
    ensures
        ({
            let t = probe_segment(source_port, destination_port, sequence, checksum);
            &&& t[0] * 256 + t[1] == source_port
            &&& t[2] * 256 + t[3] == destination_port
            &&& t[4] * 16777216 + t[5] * 65536 + t[6] * 256 + t[7] == sequence
            &&& t[8] == 0 && t[9] == 0 && t[10] == 0 && t[11] == 0
            &&& t[12] == 0x50 && t[13] == 0x02
            &&& t[14] * 256 + t[15] == 64240
            &&& t[16] * 256 + t[17] == checksum
            &&& t[18] == 0 && t[19] == 0
        }),
{
    lemma_probe_segment(source_port, destination_port, sequence, checksum);
}

/// The words of a sum, one by one.
proof fn lemma_ten_words(bytes: Seq<u8>)
    ensures
        word_sum(bytes, 10, -1) == (bytes[0] + bytes[2] + bytes[4] + bytes[6] + bytes[8] + bytes[10]
            + bytes[12] + bytes[14] + bytes[16] + bytes[18]) * 256 + (bytes[1] + bytes[3] + bytes[5]
            + bytes[7] + bytes[9] + bytes[11] + bytes[13] + bytes[15] + bytes[17] + bytes[19]),
{
    reveal_with_fuel(word_sum, 11);
}

/// The checksums of a probe, over its bytes: the ten words of the IPv4 header add up
/// to a multiple of 65535, and so do the ten words of the TCP header with the words of
/// the two addresses, the protocol number 6 and the length 20. Neither checksum is
/// 65535, so each is the only one of which this holds.
pub proof fn law_checksums_of_probe(
    source: u32,
    destination: u32,
    source_port: u16,
    destination_port: u16,
    sequence: u32,
)
    ensures
        ({
            let p = probe_bytes(source, destination, source_port, destination_port, sequence);
            &&& ((p[0] + p[2] + p[4] + p[6] + p[8] + p[10] + p[12] + p[14] + p[16] + p[18]) * 256
                + (p[1] + p[3] + p[5] + p[7] + p[9] + p[11] + p[13] + p[15] + p[17] + p[19]))
                % 65535 == 0
            &&& ((p[20] + p[22] + p[24] + p[26] + p[28] + p[30] + p[32] + p[34] + p[36] + p[38])
                * 256 + (p[21] + p[23] + p[25] + p[27] + p[29] + p[31] + p[33] + p[35] + p[37]
                + p[39]) + (p[12] + p[14] + p[16] + p[18]) * 256 + (p[13] + p[15] + p[17] + p[19])
                + 6 + 20) % 65535 == 0
            &&& p[10] * 256 + p[11] != 65535
            &&& p[36] * 256 + p[37] != 65535
        }),
{
    let p = probe_bytes(source, destination, source_port, destination_port, sequence);
    law_probe_checksums(source, destination, source_port, destination_port, sequence);
    law_bytes_of_probe(source, destination, source_port, destination_port, sequence);
    lemma_sums_over_bytes(p, source, destination);
    lemma_checksums_are_not_full(source, destination, source_port, destination_port, sequence);
}

/// The sums that checksums are made over, as sums of bytes.
proof fn lemma_sums_over_bytes(p: Seq<u8>, source: u32, destination: u32)
    requires
        p.len() == 40,
        p[12] * 16777216 + p[13] * 65536 + p[14] * 256 + p[15] == source,
        p[16] * 16777216 + p[17] * 65536 + p[18] * 256 + p[19] == destination,
    ensures
        word_sum(p, 10, -1) == (p[0] + p[2] + p[4] + p[6] + p[8] + p[10] + p[12] + p[14] + p[16]
            + p[18]) * 256 + (p[1] + p[3] + p[5] + p[7] + p[9] + p[11] + p[13] + p[15] + p[17]
            + p[19]),
        pseudo_header_sum(source, destination, 20) + word_sum(p.skip(20), 10, -1) == (p[20] + p[22]
            + p[24] + p[26] + p[28] + p[30] + p[32] + p[34] + p[36] + p[38]) * 256 + (p[21] + p[23]
            + p[25] + p[27] + p[29] + p[31] + p[33] + p[35] + p[37] + p[39]) + (p[12] + p[14]
            + p[16] + p[18]) * 256 + (p[13] + p[15] + p[17] + p[19]) + 6 + 20,
{
    lemma_ten_words(p);
    lemma_ten_words(p.skip(20));
    lemma_pseudo_header(p, source, destination);
}

/// The words of the addresses, as they stand in an IPv4 header.
proof fn lemma_pseudo_header(p: Seq<u8>, source: u32, destination: u32)
    requires
        p[12] * 16777216 + p[13] * 65536 + p[14] * 256 + p[15] == source,
        p[16] * 16777216 + p[17] * 65536 + p[18] * 256 + p[19] == destination,
    ensures
        pseudo_header_sum(source, destination, 20) == (p[12] + p[14] + p[16] + p[18]) * 256 + (p[13]
            + p[15] + p[17] + p[19]) + 6 + 20,
{
    assert(source as nat / 0x1_0000 == p[12] * 256 + p[13]);
    assert(source as nat % 0x1_0000 == p[14] * 256 + p[15]);
    assert(destination as nat / 0x1_0000 == p[16] * 256 + p[17]);
    assert(destination as nat % 0x1_0000 == p[18] * 256 + p[19]);
}

/// Neither checksum of a probe is 65535, since neither is that of nothing.
proof fn lemma_checksums_are_not_full(
    source: u32,
    destination: u32,
    source_port: u16,
    destination_port: u16,
    sequence: u32,
)
    ensures
        ({
            let p = probe_bytes(source, destination, source_port, destination_port, sequence);
            &&& p[10] * 256 + p[11] != 65535
            &&& p[36] * 256 + p[37] != 65535
        }),
{
    let header_checksum = probe_header_checksum(source, destination, sequence);
    let segment_checksum = probe_segment_checksum(
        source,
        destination,
        source_port,
        destination_port,
        sequence,
    );
    let header = probe_header(source, destination, sequence, header_checksum);
    let segment = probe_segment(source_port, destination_port, sequence, segment_checksum);
    lemma_header_bytes(source, destination, sequence, header_checksum);
    lemma_segment_bytes(source_port, destination_port, sequence, segment_checksum);
    lemma_probe_header(source, destination, sequence, header_checksum);
    lemma_probe_segment(source_port, destination_port, sequence, segment_checksum);
    let p = header + segment;
    assert(p[10] == header[10] && p[11] == header[11]);
    assert(p[36] == segment[16] && p[37] == segment[17]);
    lemma_blank_header_sum(source, destination, sequence);
}

/// The words of an IPv4 header without its checksum do not add up to zero.
proof fn lemma_blank_header_sum(source: u32, destination: u32, sequence: u32)
    ensures
        word_sum(probe_header(source, destination, sequence, 0), 10, 5) > 0,
{
    let blank = probe_header(source, destination, sequence, 0);
    lemma_probe_header(source, destination, sequence, 0);
    lemma_word_sum_skip(blank, 10, 5);
    lemma_word_sum_grows(blank, 1, 10);
    reveal_with_fuel(word_sum, 2);
}

} // verus!
