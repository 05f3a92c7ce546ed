//! Sending: which packet goes out next, how the packets are paced, and when
//! progress is reported.

use crate::config::ScanError;
use crate::duration::Duration;
use crate::packet::syn_packet;
use crate::probes::Probe;
use crate::progress::{advance_progress_deadline, ScanProgress, ONE_MINUTE};
use crate::targets::MAX_PROBES;
use crate::text::endpoint_text;
use vstd::prelude::*;

verus! {

/// The probes that a bandwidth in KiB/s allows in a second, at 40 bytes a probe. At
/// least one.
pub open spec fn probes_per_second(bandwidth_kib: u64) -> nat {
    let whole = bandwidth_kib as nat * 1024 / 40;
    if whole > 1 {
        whole
    } else {
        1
    }
}

/// The time between two probes at a bandwidth in KiB/s, in nanoseconds.
pub open spec fn interval_at(bandwidth_kib: u64) -> nat {
    1_000_000_000nat / probes_per_second(bandwidth_kib)
}

/// Works out the time between two probes at a bandwidth in KiB/s.
pub fn send_interval(bandwidth_kib: u64) -> (interval: Result<Duration, ScanError>)
    ensures
        match interval {
            Ok(interval) => {
                &&& bandwidth_kib * 1024 <= u64::MAX
                &&& interval@ == interval_at(bandwidth_kib)
                &&& interval@ <= 1_000_000_000
            },
            Err(error) => bandwidth_kib * 1024 > u64::MAX && error == ScanError::BandwidthTooLarge,
        },
{
    match bandwidth_kib.checked_mul(1024) {
        None => Err(ScanError::BandwidthTooLarge),
        Some(bytes_per_second) => {
            let whole: u64 = bytes_per_second / 40;
            let packets_per_second: u64 = if whole > 1 {
                whole
            } else {
                1
            };
            proof {
                vstd::arithmetic::div_mod::lemma_div_is_ordered_by_denominator(
                    1_000_000_000,
                    1,
                    packets_per_second as int,
                );
            }
            Ok(Duration::from_nanos(1_000_000_000 / packets_per_second))
        },
    }
}

/// How long to sleep at the time `now`, when `sent` probes were sent: until the time
/// of the next probe, unless that is past. The times of the probes are one interval
/// apart, from the beginning of the sending on.
pub open spec fn delay_after(sent: nat, interval: nat, now: nat) -> Option<nat> {
    if now <= sent * interval {
        Some((sent * interval - now) as nat)
    } else {
        None
    }
}

/// What sending goes by and how far it has come. Times are nanoseconds since the
/// sending began.
pub struct TransmissionState {
    /// The address that the probes come from.
    pub source: u32,
    /// The port that the probes come from.
    pub source_port: u16,
    /// The probes, in the order of sending.
    pub probes: Seq<Probe>,
    /// The time between two probes.
    pub interval: nat,
    /// How many probes were sent.
    pub sent: nat,
    /// When progress is to be reported next.
    pub next_progress: nat,
}

impl TransmissionState {
    /// The bytes of the probe at the given place in the order of sending.
    pub open spec fn packet(self, at: int) -> Seq<u8> {
        crate::packet::probe_bytes(
            self.source,
            self.probes[at].host,
            self.source_port,
            self.probes[at].port,
            self.probes[at].sequence,
        )
    }
}

/// A packet that is ready to be sent.
#[derive(Debug)]
pub struct Outgoing {
    /// The host that the packet goes to.
    pub host: u32,
    /// The TCP port that the packet goes to.
    pub port: u16,
    /// The bytes of the packet.
    pub bytes: Vec<u8>,
}

/// Sends the probes of a scan.
#[derive(Debug)]
pub struct Transmission {
    source: u32,
    source_port: u16,
    probes: Vec<Probe>,
    interval: Duration,
    sent: usize,
    next_progress: Duration,
}

impl View for Transmission {
    type V = TransmissionState;

    closed spec fn view(&self) -> TransmissionState {
        TransmissionState {
            source: self.source,
            source_port: self.source_port,
            probes: self.probes@,
            interval: self.interval@,
            sent: self.sent as nat,
            next_progress: self.next_progress@,
        }
    }
}

impl Transmission {
    /// There are no more probes than a scan may send, and no more were sent than
    /// there are. They are at most a second apart. Progress is next due at a time
    /// on the schedule.
    pub open spec fn well_formed(&self) -> bool {
        &&& self@.sent <= self@.probes.len() <= MAX_PROBES
        &&& self@.interval <= 1_000_000_000
        &&& crate::progress::on_schedule(self@.next_progress)
    }

    /// Starts sending the given probes from the given address and port.
    pub fn new(source: u32, source_port: u16, probes: Vec<Probe>, interval: Duration) -> (
    transmission: Self)
        requires
            probes@.len() <= MAX_PROBES,
            interval@ <= 1_000_000_000,
        ensures
            transmission.well_formed(),
            transmission@ == (TransmissionState {
                source,
                source_port,
                probes: probes@,
                interval: interval@,
                sent: 0,
                next_progress: ONE_MINUTE as nat,
            }),
    {
        Transmission {
            source,
            source_port,
            probes,
            interval,
            sent: 0,
            next_progress: Duration::from_nanos(ONE_MINUTE),
        }
    }

    /// The packet to send next, if any is left.
    pub fn next_packet(&self) -> (packet: Option<Outgoing>)
        ensures
            packet is Some <==> self@.sent < self@.probes.len(),
            packet matches Some(packet) ==> {
                let probe = self@.probes[self@.sent as int];
                &&& packet.host == probe.host
                &&& packet.port == probe.port
                &&& packet.bytes@ == self@.packet(self@.sent as int)
            },
    {
        if self.sent < self.probes.len() {
            let probe: Probe = self.probes[self.sent];
            let bytes = syn_packet(
                self.source,
                probe.host,
                self.source_port,
                probe.port,
                probe.sequence,
            );
            Some(Outgoing { host: probe.host, port: probe.port, bytes })
        } else {
            None
        }
    }

    /// Takes note that the next packet was sent, and of the time after that. Returns
    /// how long to sleep, unless the following packet is overdue.
    pub fn packet_sent(&mut self, now: Duration) -> (delay: Option<Duration>)
        requires
            old(self).well_formed(),
            old(self)@.sent < old(self)@.probes.len(),
        ensures
            final(self).well_formed(),
            final(self)@ == (TransmissionState { sent: old(self)@.sent + 1, ..old(self)@ }),
            match delay {
                Some(delay) => delay_after(final(self)@.sent, old(self)@.interval, now@) == Some(
                    delay@,
                ),
                None => delay_after(final(self)@.sent, old(self)@.interval, now@) is None,
            },
    {
        let interval = self.interval.as_nanos() as u64;
        self.sent = self.sent + 1;
        assert(self.sent * interval <= 16_777_214 * 1_000_000_000) by (nonlinear_arith)
            requires
                self.sent <= 16_777_214,
                interval <= 1_000_000_000,
        ;
        Duration::from_nanos(self.sent as u64 * interval).checked_sub(now)
    }

    /// Takes note of the time that sending has taken. Where progress is due, it is
    /// returned, and due again at the next time on the schedule.
    pub fn report(&mut self, elapsed: Duration) -> (progress: Option<ScanProgress>)
        requires
            old(self).well_formed(),
            crate::progress::advanced(old(self)@.next_progress, elapsed@)
                <= crate::duration::longest(),
        ensures
            final(self).well_formed(),
            final(self)@ == (TransmissionState {
                next_progress: crate::progress::advanced(old(self)@.next_progress, elapsed@),
                ..old(self)@
            }),
            progress is Some <==> elapsed@ >= old(self)@.next_progress,
            progress matches Some(progress) ==> {
                &&& progress.probes_sent == old(self)@.sent
                &&& progress.total_probes == old(self)@.probes.len()
                &&& progress.elapsed == elapsed
            },
    {
        proof {
            crate::progress::law_progress_schedule(self.next_progress@, elapsed@);
        }
        if elapsed.as_nanos() >= self.next_progress.as_nanos() {
            self.next_progress = advance_progress_deadline(self.next_progress, elapsed);
            Some(ScanProgress::new(self.sent, self.probes.len(), elapsed))
        } else {
            None
        }
    }

    /// The number of probes sent.
    pub fn probes_sent(&self) -> (sent: usize)
        ensures
            sent == self@.sent,
    {
        self.sent
    }

    /// The number of probes of the scan.
    pub fn total_probes(&self) -> (total: usize)
        ensures
            total == self@.probes.len(),
    {
        self.probes.len()
    }
}

/// The message of a failure to send a packet.
pub fn send_failure(host: u32, port: u16) -> (text: String)
    ensures
        text@ == "failed to send SYN to "@ + crate::text::endpoint(host, port),
{
    let mut text = "failed to send SYN to ".to_string();
    text.append(endpoint_text(host, port).as_str());
    text
}

/// Where the probes are those of the expected responses, each expected pair has
/// exactly one place in the order of sending, and the packet sent from there is a
/// SYN to that pair with the sequence number that it is to acknowledge.
pub proof fn law_each_pair_is_probed_once(
    state: TransmissionState,
    expected: Map<(u32, u16), u32>,
    pair: (u32, u16),
)
    requires
        crate::probes::lists(state.probes, expected),
        expected.contains_key(pair),
    ensures
        exists|at: int|
            0 <= at < state.probes.len() && #[trigger] state.packet(at)
                == crate::packet::probe_bytes(
                state.source,
                pair.0,
                state.source_port,
                pair.1,
                expected[pair],
            ) && state.probes[at].pair() == pair,
        forall|i: int, j: int|
            0 <= i < state.probes.len() && 0 <= j < state.probes.len() && (
            #[trigger] state.probes[i]).pair() == pair && (#[trigger] state.probes[j]).pair()
                == pair ==> i == j,
{
    let probe = Probe { host: pair.0, port: pair.1, sequence: expected[pair] };
    assert(state.probes.contains(probe));
    let at = state.probes.index_of(probe);
    assert(state.packet(at) == crate::packet::probe_bytes(
        state.source,
        pair.0,
        state.source_port,
        pair.1,
        expected[pair],
    ));
}

/// The pace keeps to the bandwidth: the probes of a second are as many as its bytes
/// hold at 40 bytes each, at least one, and the interval is the largest number of
/// nanoseconds that leaves room for all of them in a second.
pub proof fn law_pace(bandwidth_kib: u64)
    ensures
        ({
            let probes = probes_per_second(bandwidth_kib);
            let interval = interval_at(bandwidth_kib);
            &&& probes >= 1
            &&& probes == 1 || probes * 40 <= bandwidth_kib * 1024
            &&& bandwidth_kib * 1024 < (probes + 1) * 40
            &&& probes * interval <= 1_000_000_000
            &&& 1_000_000_000 < probes * (interval + 1)
        }),
{
    let probes = probes_per_second(bandwidth_kib) as int;
    vstd::arithmetic::div_mod::lemma_fundamental_div_mod(1_000_000_000, probes);
    vstd::arithmetic::mul::lemma_mul_is_distributive_add(
        probes,
        interval_at(bandwidth_kib) as int,
        1,
    );
}

/// No probe goes out before its time, however long the sending of a packet takes:
/// when the delay is over, the clock has come to the time of the next probe. A
/// sender that was late catches up, since the times do not move.
pub proof fn law_no_probe_is_early(sent: nat, interval: nat, now: nat, next: nat)
    requires
        next >= now + match delay_after(sent, interval, now) {
            Some(delay) => delay,
            None => 0,
        },
    ensures
        next >= sent * interval,
        now <= sent * interval ==> now + delay_after(sent, interval, now)->0 == sent * interval,
        now > sent * interval ==> delay_after(sent, interval, now) is None,
{
}

/// More bandwidth does not slow a scan down.
pub proof fn law_more_bandwidth_is_no_slower(bandwidth_kib: u64, more_kib: u64)
    requires
        bandwidth_kib <= more_kib,
    ensures
        interval_at(more_kib) <= interval_at(bandwidth_kib),
{
    vstd::arithmetic::div_mod::lemma_div_is_ordered_by_denominator(
        1_000_000_000,
        probes_per_second(bandwidth_kib) as int,
        probes_per_second(more_kib) as int,
    );
}

/// What is sent at a place in the order: the probe of the host and port that stand
/// there, from the source address and port, with the sequence number that stands
/// there.
pub proof fn law_packet_at(state: TransmissionState, at: int)
    ensures
        state.packet(at) == crate::packet::probe_bytes(
            state.source,
            state.probes[at].host,
            state.source_port,
            state.probes[at].port,
            state.probes[at].sequence,
        ),
{
}

/// The interval, in numbers: a second divided by the probes that a second's bytes
/// hold at 40 bytes each, at least one, rounded down.
pub proof fn law_interval(bandwidth_kib: u64, probes: nat)
    requires
        probes * 40 <= bandwidth_kib * 1024 < (probes + 1) * 40,
    ensures
        interval_at(bandwidth_kib) == if probes > 1 {
            1_000_000_000nat / probes
        } else {
            1_000_000_000
        },
{
    assert(bandwidth_kib as nat * 1024 / 40 == probes);
    if probes <= 1 {
        assert(probes_per_second(bandwidth_kib) == 1);
    }
}

} // verus!
