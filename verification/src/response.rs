//! Which packets answer a probe, and what they say.

use crate::config::{PortState, ScanResult};
use crate::packet::{
    ipv4_destination, ipv4_payload_bytes, ipv4_source, tcp_acknowledgement, tcp_destination,
    tcp_flags, tcp_source, FLAGS_RST_ACK, FLAGS_SYN_ACK, FLAG_RST, IPV4_HEADER_LEN, TCP_HEADER_LEN,
};
use crate::probes::{ExpectedResponses, SeenPairs};
use vstd::prelude::*;

verus! {

/// The state that the flags of a response tell, if they tell one that is asked
/// for: SYN and ACK an open port, RST with or without ACK a closed one.
pub open spec fn told_state(flags: u8, show_closed: bool) -> Option<PortState> {
    if flags == FLAGS_SYN_ACK {
        Some(PortState::Open)
    } else if show_closed && (flags == FLAG_RST || flags == FLAGS_RST_ACK) {
        Some(PortState::Closed)
    } else {
        None
    }
}

/// The acknowledgement number of a response to a SYN.
pub open spec fn acknowledging(sequence: u32) -> u32 {
    ((sequence + 1) % 0x1_0000_0000) as u32
}

/// The pair of host and port that a packet comes from.
pub open spec fn sender(packet: Seq<u8>) -> (u32, u16) {
    (crate::packet::be32(packet, 12), crate::packet::be16(crate::packet::ipv4_payload(packet), 0))
}

/// Whether a packet is correlated with a probe: it comes from a host and port that
/// was probed, goes to the address and port that the probes came from, and
/// acknowledges the sequence number of the probe.
pub open spec fn correlated(
    packet: Seq<u8>,
    expected: Map<(u32, u16), u32>,
    source: u32,
    source_port: u16,
) -> bool {
    let segment = crate::packet::ipv4_payload(packet);
    &&& packet.len() >= IPV4_HEADER_LEN
    &&& crate::packet::be32(packet, 16) == source
    &&& segment.len() >= TCP_HEADER_LEN
    &&& expected.contains_key(sender(packet))
    &&& crate::packet::be16(segment, 2) == source_port
    &&& crate::packet::be32(segment, 8) == acknowledging(expected[sender(packet)])
}

/// The result that a packet gives, if it is the first response of a pair.
pub open spec fn classified(
    packet: Seq<u8>,
    expected: Map<(u32, u16), u32>,
    source: u32,
    source_port: u16,
    show_closed: bool,
    seen: Set<(u32, u16)>,
) -> Option<ScanResult> {
    let (host, port) = sender(packet);
    if correlated(packet, expected, source, source_port) && !seen.contains((host, port)) {
        match told_state(crate::packet::ipv4_payload(packet)[13], show_closed) {
            Some(state) => Some(ScanResult { host, port, state }),
            None => None,
        }
    } else {
        None
    }
}

/// The pairs seen once a packet has been classified.
pub open spec fn seen_with(seen: Set<(u32, u16)>, result: Option<ScanResult>) -> Set<(u32, u16)> {
    match result {
        Some(result) => seen.insert(result.pair()),
        None => seen,
    }
}

/// The state that the flags of a response tell, if they tell one that is asked for.
fn state_of(flags: u8, show_closed: bool) -> (state: Option<PortState>)
    ensures
        state == told_state(flags, show_closed),
{
    if flags == FLAGS_SYN_ACK {
        Some(PortState::Open)
    } else if show_closed && (flags == FLAG_RST || flags == FLAGS_RST_ACK) {
        Some(PortState::Closed)
    } else {
        None
    }
}

/// Classifies an IPv4 packet: a result where it is the first response to a probe,
/// and nothing otherwise.
pub fn classify_response(
    packet: &[u8],
    expected: &ExpectedResponses,
    source: u32,
    source_port: u16,
    show_closed: bool,
    seen: &mut SeenPairs,
) -> (result: Option<ScanResult>)
    ensures
        result == classified(
            packet@,
            expected@,
            source,
            source_port,
            show_closed,
            old(seen)@,
        ),
        final(seen)@ == seen_with(old(seen)@, result),
{
    if packet.len() < IPV4_HEADER_LEN || ipv4_destination(packet) != source {
        return None;
    }
    let segment = ipv4_payload_bytes(packet);
    if segment.len() < TCP_HEADER_LEN {
        return None;
    }
    let segment = segment.as_slice();
    let host = ipv4_source(packet);
    let port = tcp_source(segment);
    let sequence: u32 = match expected.get(host, port) {
        Some(sequence) => sequence,
        None => {
            return None;
        },
    };
    if tcp_destination(segment) != source_port || tcp_acknowledgement(segment)
        != sequence.wrapping_add(1) {
        return None;
    }
    let state: PortState = match state_of(tcp_flags(segment), show_closed) {
        Some(state) => state,
        None => {
            return None;
        },
    };
    if !seen.insert(host, port) {
        assert(seen@ =~= old(seen)@);
        return None;
    }
    Some(ScanResult { host, port, state })
}

/// Whether a packet, with IPv4 options or without, answers a probe with the given
/// flags: it carries a TCP header, its addresses and ports are those of the probe,
/// swapped, and it acknowledges the sequence number of the probe.
pub open spec fn answers(packet: Seq<u8>, probe: Seq<u8>, flags: u8) -> bool {
    let segment = crate::packet::ipv4_payload(packet);
    let syn = crate::packet::ipv4_payload(probe);
    &&& packet.len() >= IPV4_HEADER_LEN
    &&& segment.len() >= TCP_HEADER_LEN
    &&& crate::packet::be32(packet, 12) == crate::packet::be32(probe, 16)
    &&& crate::packet::be32(packet, 16) == crate::packet::be32(probe, 12)
    &&& crate::packet::be16(segment, 0) == crate::packet::be16(syn, 2)
    &&& crate::packet::be16(segment, 2) == crate::packet::be16(syn, 0)
    &&& crate::packet::be32(segment, 8) == acknowledging(crate::packet::be32(syn, 4))
    &&& segment[13] == flags
}

/// What answers the probe of a pair comes from that pair and is correlated with the
/// probe.
pub proof fn law_answer_is_correlated(
    packet: Seq<u8>,
    expected: Map<(u32, u16), u32>,
    source: u32,
    source_port: u16,
    host: u32,
    port: u16,
    flags: u8,
)
    requires
        expected.contains_key((host, port)),
        answers(
            packet,
            crate::packet::probe_bytes(
                source,
                host,
                source_port,
                port,
                expected[(host, port)],
            ),
            flags,
        ),
    ensures
        correlated(packet, expected, source, source_port),
        sender(packet) == (host, port),
{
    crate::packet::law_probe_fields(source, host, source_port, port, expected[(host, port)]);
}

/// The first SYN/ACK that answers a probe is reported as an open port. The first
/// RST is reported as a closed port where closed ports are asked for, and ignored
/// where they are not.
pub proof fn law_answer_is_reported(
    packet: Seq<u8>,
    expected: Map<(u32, u16), u32>,
    source: u32,
    source_port: u16,
    host: u32,
    port: u16,
    flags: u8,
    show_closed: bool,
    seen: Set<(u32, u16)>,
)
    requires
        expected.contains_key((host, port)),
        !seen.contains((host, port)),
        answers(
            packet,
            crate::packet::probe_bytes(
                source,
                host,
                source_port,
                port,
                expected[(host, port)],
            ),
            flags,
        ),
    ensures
        ({
            let result = classified(packet, expected, source, source_port, show_closed, seen);
            &&& flags == FLAGS_SYN_ACK ==> result == Some(
                ScanResult { host, port, state: PortState::Open },
            )
            &&& (flags == FLAG_RST || flags == FLAGS_RST_ACK) ==> result == if show_closed {
                Some(ScanResult { host, port, state: PortState::Closed })
            } else {
                None
            }
        }),
{
    law_answer_is_correlated(packet, expected, source, source_port, host, port, flags);
}

/// A packet is reported only where it is correlated with a probe, tells a state
/// that is asked for, and comes from a pair that was not reported before. Its pair
/// and state are then those reported.
pub proof fn law_only_answers_are_reported(
    packet: Seq<u8>,
    expected: Map<(u32, u16), u32>,
    source: u32,
    source_port: u16,
    show_closed: bool,
    seen: Set<(u32, u16)>,
)
    ensures
        classified(packet, expected, source, source_port, show_closed, seen) matches Some(result)
            ==> {
            &&& correlated(packet, expected, source, source_port)
            &&& result.pair() == sender(packet)
            &&& expected.contains_key(result.pair())
            &&& !seen.contains(result.pair())
            &&& told_state(crate::packet::ipv4_payload(packet)[13], show_closed) == Some(
                result.state,
            )
        },
{
}

/// Once a pair is reported, no packet reports it again.
pub proof fn law_reported_once(
    packet: Seq<u8>,
    later: Seq<u8>,
    expected: Map<(u32, u16), u32>,
    source: u32,
    source_port: u16,
    show_closed: bool,
    seen: Set<(u32, u16)>,
)
    ensures
        ({
            let first = classified(packet, expected, source, source_port, show_closed, seen);
            let second = classified(
                later,
                expected,
                source,
                source_port,
                show_closed,
                seen_with(seen, first),
            );
            first is Some && second is Some ==> first->0.pair() != second->0.pair()
        }),
{
}

/// A packet is reported, as the given state of the given host and port, exactly where
/// its bytes say so. It is long enough for its IPv4 header, which its first byte
/// measures and which takes at least 20 bytes, and for 20 bytes more, and its total
/// length covers them. It goes from the host and port to the source address and
/// source port. The four bytes at 8 of its TCP segment are the sequence number
/// expected of that host and port plus one, modulo 2^32. Its flags are SYN and ACK
/// for an open port, and RST with or without ACK for a closed one, where those are
/// asked for. And the host and port were not reported before.
pub proof fn law_report_by_bytes(
    packet: Seq<u8>,
    expected: Map<(u32, u16), u32>,
    source: u32,
    source_port: u16,
    show_closed: bool,
    seen: Set<(u32, u16)>,
    host: u32,
    port: u16,
    state: PortState,
)
    ensures
        ({
            let header = packet[0] as int % 16 * 4;
            let at = if header > 20 {
                header
            } else {
                20
            };
            classified(packet, expected, source, source_port, show_closed, seen) == Some(
                ScanResult { host, port, state },
            ) <==> {
                &&& packet.len() >= 20
                &&& packet.len() >= at + 20
                &&& packet[2] * 256 + packet[3] >= header + 20
                &&& packet[12] * 16777216 + packet[13] * 65536 + packet[14] * 256 + packet[15]
                    == host
                &&& packet[16] * 16777216 + packet[17] * 65536 + packet[18] * 256 + packet[19]
                    == source
                &&& packet[at] * 256 + packet[at + 1] == port
                &&& packet[at + 2] * 256 + packet[at + 3] == source_port
                &&& expected.contains_key((host, port))
                &&& packet[at + 8] * 16777216 + packet[at + 9] * 65536 + packet[at + 10] * 256
                    + packet[at + 11] == (expected[(host, port)] + 1) % 4294967296
                &&& match state {
                    PortState::Open => packet[at + 13] == 0x12,
                    PortState::Closed => show_closed && (packet[at + 13] == 0x04 || packet[at + 13]
                        == 0x14),
                }
                &&& !seen.contains((host, port))
            }
        }),
{
    let header = packet[0] as int % 16 * 4;
    let at = if header > 20 {
        header
    } else {
        20
    };
    let segment = crate::packet::ipv4_payload(packet);
    if packet.len() >= 20 {
        assert(segment.len() >= 20 <==> packet.len() >= at + 20 && packet[2] * 256 + packet[3]
            >= header + 20);
        if segment.len() >= 20 {
            assert(segment[0] == packet[at]);
            assert(segment[1] == packet[at + 1]);
            assert(segment[2] == packet[at + 2]);
            assert(segment[3] == packet[at + 3]);
            assert(segment[8] == packet[at + 8]);
            assert(segment[9] == packet[at + 9]);
            assert(segment[10] == packet[at + 10]);
            assert(segment[11] == packet[at + 11]);
            assert(segment[13] == packet[at + 13]);
        }
    }
}

/// A packet that acknowledges another number than the sequence number expected of its
/// sender plus one is not reported.
pub proof fn law_wrong_acknowledgement_is_ignored(
    packet: Seq<u8>,
    expected: Map<(u32, u16), u32>,
    source: u32,
    source_port: u16,
    show_closed: bool,
    seen: Set<(u32, u16)>,
    host: u32,
    port: u16,
    at: int,
)
    requires
        at == (if packet[0] as int % 16 > 5 {
            packet[0] as int % 16 * 4
        } else {
            20
        }),
        packet[12] * 16777216 + packet[13] * 65536 + packet[14] * 256 + packet[15] == host,
        packet[at] * 256 + packet[at + 1] == port,
        packet[at + 8] * 16777216 + packet[at + 9] * 65536 + packet[at + 10] * 256 + packet[at + 11]
            != (expected[(host, port)] + 1) % 4294967296,
    ensures
        classified(packet, expected, source, source_port, show_closed, seen) is None,
{
    let result = classified(packet, expected, source, source_port, show_closed, seen);
    if let Some(result) = result {
        law_report_by_bytes(
            packet,
            expected,
            source,
            source_port,
            show_closed,
            seen,
            result.host,
            result.port,
            result.state,
        );
    }
}

/// What is reported is seen from then on, and nothing else comes to be seen or is
/// forgotten.
pub proof fn law_seen_pairs(seen: Set<(u32, u16)>, host: u32, port: u16, state: PortState)
    ensures
        seen_with(seen, None) == seen,
        seen_with(seen, Some(ScanResult { host, port, state })) == seen.insert((host, port)),
{
}

} // verus!
