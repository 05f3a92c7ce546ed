//! Receiving: how long to wait for packets, when to stop, and what has been
//! reported so far.

use crate::config::{PortState, ScanResult};
use crate::duration::Duration;
use crate::probes::{ExpectedResponses, SeenPairs};
use crate::response::classify_response;
use vstd::prelude::*;

verus! {

/// The longest wait for one packet, in nanoseconds.
pub const LONGEST_WAIT: u64 = 100_000_000;

/// What receiving goes by and what it has come to. Times are nanoseconds since the
/// scan began.
pub struct ReceptionState {
    /// The address that responses must go to.
    pub source: u32,
    /// The port that responses must go to.
    pub source_port: u16,
    /// Whether closed ports are reported.
    pub show_closed: bool,
    /// How long to listen after the last probe.
    pub timeout: nat,
    /// When to stop listening, once the last probe was sent.
    pub deadline: Option<nat>,
    /// What was reported, in the order of arrival.
    pub results: Seq<ScanResult>,
}

/// Receives the responses to the probes of a scan.
#[derive(Debug)]
pub struct Reception {
    source: u32,
    source_port: u16,
    show_closed: bool,
    timeout: Duration,
    deadline: Option<Duration>,
    seen: SeenPairs,
    results: Vec<ScanResult>,
}

/// The pairs of host and port that results are about.
pub open spec fn pairs_of(results: Seq<ScanResult>) -> Set<(u32, u16)> {
    Set::new(
        |pair: (u32, u16)|
            exists|i: int| 0 <= i < results.len() && #[trigger] results[i].pair() == pair,
    )
}

/// Whether every result is about a pair that was probed, no two are about the same
/// pair, and closed ports are reported only where they are asked for.
pub open spec fn sound(
    results: Seq<ScanResult>,
    expected: Map<(u32, u16), u32>,
    show_closed: bool,
) -> bool {
    &&& forall|i: int|
        0 <= i < results.len() ==> expected.contains_key((#[trigger] results[i]).pair())
    &&& forall|i: int|
        0 <= i < results.len() && (#[trigger] results[i]).state == PortState::Closed
            ==> show_closed
    &&& forall|i: int, j: int|
        0 <= i < j < results.len() ==> (#[trigger] results[i]).pair() != (
        #[trigger] results[j]).pair()
}

/// The results reported when the given packets have arrived.
pub open spec fn received(
    packets: Seq<Seq<u8>>,
    expected: Map<(u32, u16), u32>,
    source: u32,
    source_port: u16,
    show_closed: bool,
) -> Seq<ScanResult>
    decreases packets.len(),
{
    if packets.len() == 0 {
        Seq::empty()
    } else {
        let before = received(packets.drop_last(), expected, source, source_port, show_closed);
        with_packet(before, packets.last(), expected, source, source_port, show_closed)
    }
}

/// The results reported when another packet arrives.
pub open spec fn with_packet(
    results: Seq<ScanResult>,
    packet: Seq<u8>,
    expected: Map<(u32, u16), u32>,
    source: u32,
    source_port: u16,
    show_closed: bool,
) -> Seq<ScanResult> {
    match crate::response::classified(
        packet,
        expected,
        source,
        source_port,
        show_closed,
        pairs_of(results),
    ) {
        Some(result) => results.push(result),
        None => results,
    }
}

/// How long to wait for the next packet: until the deadline, and no longer than
/// the longest wait.
pub open spec fn wait_until(deadline: Option<nat>, now: nat) -> nat {
    match deadline {
        Some(deadline) => if now <= deadline && deadline - now < LONGEST_WAIT {
            (deadline - now) as nat
        } else {
            LONGEST_WAIT as nat
        },
        None => LONGEST_WAIT as nat,
    }
}

impl View for Reception {
    type V = ReceptionState;

    closed spec fn view(&self) -> ReceptionState {
        ReceptionState {
            source: self.source,
            source_port: self.source_port,
            show_closed: self.show_closed,
            timeout: self.timeout@,
            deadline: match self.deadline {
                Some(deadline) => Some(deadline@),
                None => None,
            },
            results: self.results@,
        }
    }
}

impl Reception {
    /// The pairs seen are those reported.
    pub closed spec fn well_formed(&self) -> bool {
        self.seen@ == pairs_of(self.results@)
    }

    /// Starts receiving responses to probes from the given address and port.
    pub fn new(source: u32, source_port: u16, show_closed: bool, timeout: Duration) -> (reception:
        Self)
        ensures
            reception.well_formed(),
            reception@ == (ReceptionState {
                source,
                source_port,
                show_closed,
                timeout: timeout@,
                deadline: None,
                results: Seq::empty(),
            }),
    {
        let reception = Reception {
            source,
            source_port,
            show_closed,
            timeout,
            deadline: None,
            seen: SeenPairs::new(),
            results: Vec::new(),
        };
        assert(reception.results@ =~= Seq::empty());
        assert(reception.seen@ =~= pairs_of(reception.results@));
        reception
    }

    /// Takes note of the time. Where sending is done, the deadline is set the first
    /// time.
    pub fn note_time(&mut self, done: bool, now: Duration)
        requires
            old(self).well_formed(),
            done && old(self)@.deadline is None ==> now@ + old(self)@.timeout
                <= crate::duration::longest(),
        ensures
            final(self).well_formed(),
            final(self)@ == (ReceptionState {
                deadline: if done && old(self)@.deadline is None {
                    Some(now@ + old(self)@.timeout)
                } else {
                    old(self)@.deadline
                },
                ..old(self)@
            }),
    {
        if done && self.deadline.is_none() {
            self.deadline = now.checked_add(self.timeout);
        }
    }

    /// Whether the deadline has come.
    pub fn expired(&self, now: Duration) -> (expired: bool)
        ensures
            expired <==> self@.deadline is Some && now@ >= self@.deadline->0,
    {
        match self.deadline {
            Some(deadline) => now.as_nanos() >= deadline.as_nanos(),
            None => false,
        }
    }

    /// How long to wait for the next packet.
    pub fn wait(&self, now: Duration) -> (wait: Duration)
        ensures
            wait@ == wait_until(self@.deadline, now@),
    {
        if let Some(deadline) = self.deadline {
            if let Some(left) = deadline.checked_sub(now) {
                if left.as_nanos() < LONGEST_WAIT as u128 {
                    return left;
                }
            }
        }
        Duration::from_nanos(LONGEST_WAIT)
    }

    /// Takes a packet. Where it is the first response to a probe, the result is
    /// kept and returned.
    pub fn accept(&mut self, expected: &ExpectedResponses, packet: &[u8]) -> (result: Option<
        ScanResult,
    >)
        requires
            old(self).well_formed(),
        ensures
            final(self).well_formed(),
            result == crate::response::classified(
                packet@,
                expected@,
                old(self)@.source,
                old(self)@.source_port,
                old(self)@.show_closed,
                pairs_of(old(self)@.results),
            ),
            final(self)@ == (ReceptionState {
                results: with_packet(
                    old(self)@.results,
                    packet@,
                    expected@,
                    old(self)@.source,
                    old(self)@.source_port,
                    old(self)@.show_closed,
                ),
                ..old(self)@
            }),
    {
        let result = classify_response(
            packet,
            expected,
            self.source,
            self.source_port,
            self.show_closed,
            &mut self.seen,
        );
        if let Some(result) = result {
            let ghost before = self.results@;
            self.results.push(result);
            proof {
                lemma_pairs_push(before, result);
            }
        }
        result
    }

    /// The results, in the order of arrival.
    pub fn into_results(self) -> (results: Vec<ScanResult>)
        ensures
            results@ == self@.results,
    {
        self.results
    }
}

/// The pairs of the results with one more.
proof fn lemma_pairs_push(results: Seq<ScanResult>, result: ScanResult)
    ensures
        pairs_of(results.push(result)) == pairs_of(results).insert(result.pair()),
{
    let more = results.push(result);
    assert forall|pair: (u32, u16)|
        pairs_of(more).contains(pair) == pairs_of(results).insert(result.pair()).contains(pair) by {
        if pairs_of(results).contains(pair) {
            let i = choose|i: int| 0 <= i < results.len() && #[trigger] results[i].pair() == pair;
            assert(more[i].pair() == pair);
        }
        if pair == result.pair() {
            assert(more[results.len() as int].pair() == pair);
        }
        if pairs_of(more).contains(pair) {
            let i = choose|i: int| 0 <= i < more.len() && #[trigger] more[i].pair() == pair;
            if i < results.len() {
                assert(results[i].pair() == pair);
            }
        }
    }
    assert(pairs_of(more) =~= pairs_of(results).insert(result.pair()));
}

/// Whatever packet arrives, sound results stay sound and nothing that was reported
/// is taken back.
pub proof fn law_accepting_keeps_results_sound(
    results: Seq<ScanResult>,
    packet: Seq<u8>,
    expected: Map<(u32, u16), u32>,
    source: u32,
    source_port: u16,
    show_closed: bool,
)
    requires
        sound(results, expected, show_closed),
    ensures
        sound(
            with_packet(results, packet, expected, source, source_port, show_closed),
            expected,
            show_closed,
        ),
        results.is_prefix_of(
            with_packet(results, packet, expected, source, source_port, show_closed),
        ),
{
    let more = with_packet(results, packet, expected, source, source_port, show_closed);
    if more != results {
        let result = more.last();
        assert forall|i: int| 0 <= i < results.len() implies results[i].pair() != result.pair() by {
            assert(pairs_of(results).contains(results[i].pair()));
        }
    }
}

/// Whatever packets arrive, the results are sound.
pub proof fn law_received_is_sound(
    packets: Seq<Seq<u8>>,
    expected: Map<(u32, u16), u32>,
    source: u32,
    source_port: u16,
    show_closed: bool,
)
    ensures
        sound(
            received(packets, expected, source, source_port, show_closed),
            expected,
            show_closed,
        ),
    decreases packets.len(),
{
    if packets.len() > 0 {
        law_received_is_sound(packets.drop_last(), expected, source, source_port, show_closed);
        law_accepting_keeps_results_sound(
            received(packets.drop_last(), expected, source, source_port, show_closed),
            packets.last(),
            expected,
            source,
            source_port,
            show_closed,
        );
    }
}

/// Whether a packet is a response: it is correlated with a probe and tells a state
/// that is asked for.
pub open spec fn responds(
    packet: Seq<u8>,
    expected: Map<(u32, u16), u32>,
    source: u32,
    source_port: u16,
    show_closed: bool,
) -> bool {
    &&& crate::response::correlated(packet, expected, source, source_port)
    &&& crate::response::told_state(
        crate::packet::ipv4_payload(packet)[13],
        show_closed,
    ) is Some
}

/// A response is not lost: once it has arrived, its pair is among the results,
/// whatever else arrives before and after it.
pub proof fn law_response_is_reported(
    packets: Seq<Seq<u8>>,
    at: int,
    expected: Map<(u32, u16), u32>,
    source: u32,
    source_port: u16,
    show_closed: bool,
)
    requires
        0 <= at < packets.len(),
        crate::response::correlated(packets[at], expected, source, source_port),
        crate::response::told_state(
            crate::packet::ipv4_payload(packets[at])[13],
            show_closed,
        ) is Some,
    ensures
        pairs_of(received(packets, expected, source, source_port, show_closed)).contains(
            crate::response::sender(packets[at]),
        ),
    decreases packets.len(),
{
    let rest = packets.drop_last();
    let pair = crate::response::sender(packets[at]);
    let before = received(rest, expected, source, source_port, show_closed);
    if at < rest.len() {
        law_response_is_reported(rest, at, expected, source, source_port, show_closed);
    }
    if pairs_of(before).contains(pair) {
        lemma_pairs_are_kept(
            before,
            packets.last(),
            expected,
            source,
            source_port,
            show_closed,
            pair,
        );
    } else {
        let after = received(packets, expected, source, source_port, show_closed);
        lemma_pairs_push(before, after.last());
    }
}

/// The first response of a pair decides: its state is the one reported, whatever
/// else arrives before and after it.
pub proof fn law_first_response_decides(
    packets: Seq<Seq<u8>>,
    at: int,
    expected: Map<(u32, u16), u32>,
    source: u32,
    source_port: u16,
    show_closed: bool,
)
    requires
        0 <= at < packets.len(),
        responds(packets[at], expected, source, source_port, show_closed),
        forall|i: int|
            0 <= i < at && responds(
                #[trigger] packets[i],
                expected,
                source,
                source_port,
                show_closed,
            ) ==> crate::response::sender(packets[i]) != crate::response::sender(packets[at]),
    ensures
        ({
            let (host, port) = crate::response::sender(packets[at]);
            let state = crate::response::told_state(
                crate::packet::ipv4_payload(packets[at])[13],
                show_closed,
            )->0;
            received(packets, expected, source, source_port, show_closed).contains(
                ScanResult { host, port, state },
            )
        }),
    decreases packets.len(),
{
    let rest = packets.drop_last();
    let before = received(rest, expected, source, source_port, show_closed);
    let after = received(packets, expected, source, source_port, show_closed);
    let (host, port) = crate::response::sender(packets[at]);
    let state = crate::response::told_state(
        crate::packet::ipv4_payload(packets[at])[13],
        show_closed,
    )->0;
    let result = ScanResult { host, port, state };
    if at < rest.len() {
        assert(forall|i: int| 0 <= i < rest.len() ==> #[trigger] rest[i] == packets[i]);
        law_first_response_decides(rest, at, expected, source, source_port, show_closed);
        let i = before.index_of(result);
        assert(after[i] == result);
    } else {
        if pairs_of(before).contains((host, port)) {
            lemma_reported_pair_responded(
                rest,
                expected,
                source,
                source_port,
                show_closed,
                (host, port),
            );
            let i = choose|i: int|
                0 <= i < rest.len() && responds(
                    #[trigger] rest[i],
                    expected,
                    source,
                    source_port,
                    show_closed,
                ) && crate::response::sender(rest[i]) == (host, port);
            assert(rest[i] == packets[i]);
        }
        assert(after.last() == result);
    }
}

/// A pair that is reported has responded.
proof fn lemma_reported_pair_responded(
    packets: Seq<Seq<u8>>,
    expected: Map<(u32, u16), u32>,
    source: u32,
    source_port: u16,
    show_closed: bool,
    pair: (u32, u16),
)
    requires
        pairs_of(received(packets, expected, source, source_port, show_closed)).contains(pair),
    ensures
        exists|i: int|
            0 <= i < packets.len() && responds(
                #[trigger] packets[i],
                expected,
                source,
                source_port,
                show_closed,
            ) && crate::response::sender(packets[i]) == pair,
    decreases packets.len(),
{
    let results = received(packets, expected, source, source_port, show_closed);
    assert(packets.len() > 0);
    let rest = packets.drop_last();
    let before = received(rest, expected, source, source_port, show_closed);
    if pairs_of(before).contains(pair) {
        lemma_reported_pair_responded(rest, expected, source, source_port, show_closed, pair);
        let i = choose|i: int|
            0 <= i < rest.len() && responds(
                #[trigger] rest[i],
                expected,
                source,
                source_port,
                show_closed,
            ) && crate::response::sender(rest[i]) == pair;
        assert(packets[i] == rest[i]);
    } else {
        lemma_pairs_push(before, results.last());
        assert(responds(
            packets[packets.len() - 1],
            expected,
            source,
            source_port,
            show_closed,
        ));
    }
}

/// An answer to a probe is not lost: once a SYN/ACK has arrived, or a RST where
/// closed ports are asked for, its pair is among the results, whatever else arrives
/// before and after it.
pub proof fn law_answered_pair_is_reported(
    packets: Seq<Seq<u8>>,
    at: int,
    expected: Map<(u32, u16), u32>,
    source: u32,
    source_port: u16,
    show_closed: bool,
    host: u32,
    port: u16,
    flags: u8,
)
    requires
        0 <= at < packets.len(),
        expected.contains_key((host, port)),
        crate::response::told_state(flags, show_closed) is Some,
        crate::response::answers(
            packets[at],
            crate::packet::probe_bytes(
                source,
                host,
                source_port,
                port,
                expected[(host, port)],
            ),
            flags,
        ),
    ensures
        pairs_of(received(packets, expected, source, source_port, show_closed)).contains(
            (host, port),
        ),
{
    crate::response::law_answer_is_correlated(
        packets[at],
        expected,
        source,
        source_port,
        host,
        port,
        flags,
    );
    law_response_is_reported(packets, at, expected, source, source_port, show_closed);
}

/// A pair that was reported stays reported when another packet arrives.
proof fn lemma_pairs_are_kept(
    results: Seq<ScanResult>,
    packet: Seq<u8>,
    expected: Map<(u32, u16), u32>,
    source: u32,
    source_port: u16,
    show_closed: bool,
    pair: (u32, u16),
)
    requires
        pairs_of(results).contains(pair),
    ensures
        pairs_of(
            with_packet(results, packet, expected, source, source_port, show_closed),
        ).contains(pair),
{
    let seen = pairs_of(results);
    let result = crate::response::classified(
        packet,
        expected,
        source,
        source_port,
        show_closed,
        seen,
    );
    if let Some(result) = result {
        lemma_pairs_push(results, result);
    }
}

/// Only what was asked for is reported: the host of every result is a target and
/// its port is one of the ports.
pub proof fn law_results_were_asked_for(
    packets: Seq<Seq<u8>>,
    targets: Seq<u32>,
    ports: Seq<u16>,
    nonce: u32,
    source: u32,
    source_port: u16,
    show_closed: bool,
)
    ensures
        ({
            let expected = crate::probes::all_expected(targets, ports, nonce);
            let results = received(packets, expected, source, source_port, show_closed);
            forall|i: int|
                0 <= i < results.len() ==> targets.contains((#[trigger] results[i]).host)
                    && ports.contains(results[i].port)
        }),
{
    law_received_is_sound(
        packets,
        crate::probes::all_expected(targets, ports, nonce),
        source,
        source_port,
        show_closed,
    );
}

/// A wait is at most a tenth of a second. A wait that starts by the deadline ends by
/// the deadline.
pub proof fn law_wait(deadline: nat, now: nat)
    ensures
        wait_until(None, now) == 100_000_000,
        wait_until(Some(deadline), now) <= 100_000_000,
        now <= deadline ==> now + wait_until(Some(deadline), now) <= deadline,
        now < deadline ==> wait_until(Some(deadline), now) > 0,
{
}

/// What was received, packet by packet: nothing at first, and then with each packet
/// the result that it gives, at the end, where it gives one. What it gives goes by the
/// hosts and ports received so far.
pub proof fn law_received_step_by_step(
    packets: Seq<Seq<u8>>,
    packet: Seq<u8>,
    expected: Map<(u32, u16), u32>,
    source: u32,
    source_port: u16,
    show_closed: bool,
)
    ensures
        received(Seq::empty(), expected, source, source_port, show_closed) == Seq::<
            ScanResult,
        >::empty(),
        ({
            let before = received(packets, expected, source, source_port, show_closed);
            let after = received(packets.push(packet), expected, source, source_port, show_closed);
            let seen = Set::new(
                |pair: (u32, u16)|
                    exists|i: int|
                        0 <= i < before.len() && (#[trigger] before[i]).host == pair.0
                            && before[i].port == pair.1,
            );
            match crate::response::classified(
                packet,
                expected,
                source,
                source_port,
                show_closed,
                seen,
            ) {
                Some(result) => after == before.push(result),
                None => after == before,
            }
        }),
{
    let before = received(packets, expected, source, source_port, show_closed);
    assert(packets.push(packet).drop_last() =~= packets);
    law_next_packet(before, packet, expected, source, source_port, show_closed);
}

/// What one packet adds to the results: the result that it gives, at the end, where it
/// gives one of a host and port that no result is about.
pub proof fn law_next_packet(
    results: Seq<ScanResult>,
    packet: Seq<u8>,
    expected: Map<(u32, u16), u32>,
    source: u32,
    source_port: u16,
    show_closed: bool,
)
    ensures
        ({
            let after = with_packet(results, packet, expected, source, source_port, show_closed);
            let seen = Set::new(
                |pair: (u32, u16)|
                    exists|i: int|
                        0 <= i < results.len() && (#[trigger] results[i]).host == pair.0
                            && results[i].port == pair.1,
            );
            &&& pairs_of(results) == seen
            &&& match crate::response::classified(
                packet,
                expected,
                source,
                source_port,
                show_closed,
                seen,
            ) {
                Some(result) => after == results.push(result),
                None => after == results,
            }
        }),
{
    let seen = Set::new(
        |pair: (u32, u16)|
            exists|i: int|
                0 <= i < results.len() && (#[trigger] results[i]).host == pair.0
                    && results[i].port == pair.1,
    );
    assert forall|pair: (u32, u16)| pairs_of(results).contains(pair) <==> seen.contains(pair) by {
        if pairs_of(results).contains(pair) {
            let i = choose|i: int| 0 <= i < results.len() && #[trigger] results[i].pair() == pair;
            assert(results[i].host == pair.0 && results[i].port == pair.1);
        }
        if seen.contains(pair) {
            let i = choose|i: int|
                0 <= i < results.len() && (#[trigger] results[i]).host == pair.0
                    && results[i].port == pair.1;
            assert(results[i].pair() == pair);
        }
    }
    assert(pairs_of(results) =~= seen);
}

/// How long a wait is: a tenth of a second, and less where the deadline is nearer and
/// has not passed.
pub proof fn law_length_of_wait(deadline: nat, now: nat)
    ensures
        wait_until(None, now) == 100_000_000,
        now <= deadline && deadline - now <= 100_000_000 ==> wait_until(Some(deadline), now)
            == deadline - now,
        now <= deadline && deadline - now >= 100_000_000 ==> wait_until(Some(deadline), now)
            == 100_000_000,
        now > deadline ==> wait_until(Some(deadline), now) == 100_000_000,
{
}

} // verus!
