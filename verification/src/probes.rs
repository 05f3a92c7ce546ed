//! The probes of a scan: which pairs of host and port they go to, which sequence
//! numbers they carry, and which pairs have answered.

use crate::config::{ScanConfig, ScanError};
use crate::targets::MAX_PROBES;
use std::collections::{HashMap, HashSet};
use vstd::prelude::*;

verus! {

broadcast use vstd::std_specs::hash::group_hash_axioms;

/// One probe: the host and port it goes to and the sequence number it carries.
#[derive(Clone, Copy, Debug, PartialEq, Eq, Structural)]
pub struct Probe {
    /// The host that is probed.
    pub host: u32,
    /// The TCP port that is probed.
    pub port: u16,
    /// The sequence number of the SYN.
    pub sequence: u32,
}

impl Probe {
    /// The host and port that are probed.
    pub open spec fn pair(self) -> (u32, u16) {
        (self.host, self.port)
    }
}

/// The 32 bits of `v` moved 13 places up, those that leave at the top coming back
/// at the bottom.
pub open spec fn rotated(v: u32) -> nat {
    (v % 0x8_0000 * 0x2000 + v / 0x8_0000) as nat
}

/// The sequence number of the probe of `port` on `host`.
pub open spec fn sequence_of(host: u32, port: u16, nonce: u32) -> u32 {
    ((rotated(host) + port * 8) % 0x1_0000_0000) as u32 ^ nonce
}

/// Computes the sequence number of the probe of `port` on `host`.
pub fn sequence(host: u32, port: u16, nonce: u32) -> (sequence: u32)
    ensures
        sequence == sequence_of(host, port, nonce),
{
    let rotated: u32 = host % 0x8_0000 * 0x2000 + host / 0x8_0000;
    rotated.wrapping_add(port as u32 * 8) ^ nonce
}

/// What `^` with the same number makes equal was equal.
proof fn lemma_xor_injective(a: u32, b: u32, nonce: u32)
    ensures
        a ^ nonce == b ^ nonce ==> a == b,
{
    assert(a ^ nonce == b ^ nonce ==> a == b) by (bit_vector);
}

/// On one host, different ports are probed with different sequence numbers. On one
/// port, different hosts are.
pub proof fn law_sequences_differ(
    host: u32,
    other_host: u32,
    port: u16,
    other_port: u16,
    nonce: u32,
)
    ensures
        port != other_port ==> sequence_of(host, port, nonce) != sequence_of(
            host,
            other_port,
            nonce,
        ),
        host != other_host ==> sequence_of(host, port, nonce) != sequence_of(
            other_host,
            port,
            nonce,
        ),
{
    let mixed = |host: u32, port: u16| ((rotated(host) + port * 8) % 0x1_0000_0000) as u32;
    lemma_xor_injective(mixed(host, port), mixed(host, other_port), nonce);
    lemma_xor_injective(mixed(host, port), mixed(other_host, port), nonce);
    lemma_rotated(host, other_host);
    lemma_sums_differ(port * 8, other_port * 8, rotated(host) as int);
    lemma_sums_differ(rotated(host) as int, rotated(other_host) as int, port * 8);
}

/// Rotating keeps numbers apart.
proof fn lemma_rotated(a: u32, b: u32)
    ensures
        rotated(a) < 0x1_0000_0000,
        rotated(b) < 0x1_0000_0000,
        a != b ==> rotated(a) != rotated(b),
{
}

/// Adding the same number keeps numbers apart, even where the sum wraps around.
proof fn lemma_sums_differ(a: int, b: int, c: int)
    requires
        0 <= a < 0x1_0000_0000,
        0 <= b < 0x1_0000_0000,
        0 <= c < 0x1_0000_0000,
    ensures
        a != b ==> (a + c) % 0x1_0000_0000 != (b + c) % 0x1_0000_0000,
{
}

/// The number by which a pair is stored.
spec fn key_of(pair: (u32, u16)) -> u64 {
    (pair.0 * 0x1_0000 + pair.1) as u64
}

/// The pair that is stored by a number.
spec fn pair_of(key: u64) -> (u32, u16) {
    ((key / 0x1_0000) as u32, (key % 0x1_0000) as u16)
}

/// The number by which a pair is stored.
fn key(host: u32, port: u16) -> (key: u64)
    ensures
        key == key_of((host, port)),
        pair_of(key) == (host, port),
        key < 0x1_0000_0000_0000,
{
    host as u64 * 0x1_0000 + port as u64
}

/// The sequence number that each host and port is to acknowledge.
#[derive(Debug)]
pub struct ExpectedResponses {
    sequences: HashMap<u64, u32>,
}

impl View for ExpectedResponses {
    type V = Map<(u32, u16), u32>;

    closed spec fn view(&self) -> Map<(u32, u16), u32> {
        Map::new(
            |pair: (u32, u16)| self.sequences@.contains_key(key_of(pair)),
            |pair: (u32, u16)| self.sequences@[key_of(pair)],
        )
    }
}

impl ExpectedResponses {
    /// Every number in the table is that of a pair.
    pub closed spec fn well_formed(&self) -> bool {
        forall|key: u64| #[trigger]
            self.sequences@.contains_key(key) ==> key < 0x1_0000_0000_0000
    }

    /// The pairs are as many as the numbers that they are stored by.
    proof fn lemma_len(&self)
        requires
            self.well_formed(),
        ensures
            self@.dom().finite(),
            self@.dom().len() == self.sequences@.dom().len(),
    {
        let keys = self.sequences@.dom();
        let pairs = keys.map(|key: u64| pair_of(key));
        assert forall|pair: (u32, u16)| pairs.contains(pair) == self@.dom().contains(pair) by {
            if self@.dom().contains(pair) {
                assert(pair_of(key_of(pair)) == pair);
                assert(keys.contains(key_of(pair)));
            }
            if pairs.contains(pair) {
                let key = choose|key: u64| keys.contains(key) && pair_of(key) == pair;
                assert(key_of(pair) == key);
            }
        }
        assert(pairs =~= self@.dom());
        assert(vstd::relations::injective_on(|key: u64| pair_of(key), keys)) by {
            assert forall|a: u64, b: u64|
                keys.contains(a) && keys.contains(b) && pair_of(a) == pair_of(b) implies a == b by {
                assert(key_of(pair_of(a)) == a);
                assert(key_of(pair_of(b)) == b);
            }
        }
        keys.lemma_map_finite(|key: u64| pair_of(key));
        vstd::set_lib::lemma_map_size(keys, pairs, |key: u64| pair_of(key));
    }

    /// A table in which no response is expected.
    pub fn new() -> (expected: Self)
        ensures
            expected.well_formed(),
            expected@ == Map::<(u32, u16), u32>::empty(),
    {
        let expected = ExpectedResponses { sequences: HashMap::new() };
        assert(expected@ =~= Map::empty());
        expected
    }

    /// A table in which no response is expected, with room for some, at most for as
    /// many as a scan may probe.
    pub fn with_capacity(capacity: usize) -> (expected: Self)
        ensures
            expected.well_formed(),
            expected@ == Map::<(u32, u16), u32>::empty(),
    {
        let room: usize = if capacity < MAX_PROBES {
            capacity
        } else {
            MAX_PROBES
        };
        let expected = ExpectedResponses { sequences: HashMap::with_capacity(room) };
        assert(expected@ =~= Map::empty());
        expected
    }

    /// Expects the given host and port to acknowledge `sequence`. Returns whether
    /// nothing was expected of them before.
    pub fn insert(&mut self, host: u32, port: u16, sequence: u32) -> (new: bool)
        requires
            old(self).well_formed(),
        ensures
            final(self).well_formed(),
            final(self)@ == old(self)@.insert((host, port), sequence),
            new == !old(self)@.contains_key((host, port)),
    {
        let key = key(host, port);
        let previous = self.sequences.insert(key, sequence);
        proof {
            assert forall|pair: (u32, u16)| key_of(pair) == key implies pair == (host, port) by {
                assert(pair_of(key_of(pair)) == pair);
            }
            assert(self@ =~= old(self)@.insert((host, port), sequence));
        }
        previous.is_none()
    }

    /// The sequence number that a host and port are to acknowledge, if any.
    pub fn get(&self, host: u32, port: u16) -> (sequence: Option<u32>)
        ensures
            sequence == if self@.contains_key((host, port)) {
                Some(self@[(host, port)])
            } else {
                None
            },
    {
        match self.sequences.get(&key(host, port)) {
            Some(sequence) => Some(*sequence),
            None => None,
        }
    }

    /// The number of responses expected.
    pub fn len(&self) -> (len: usize)
        requires
            self.well_formed(),
        ensures
            len == self@.dom().len(),
    {
        proof {
            self.lemma_len();
        }
        self.sequences.len()
    }

    /// The probes of the scan, one for each expected response. Their order is that
    /// in which the table is walked, which differs from run to run.
    pub fn probes(&self) -> (probes: Vec<Probe>)
        requires
            self.well_formed(),
        ensures
            lists(probes@, self@),
    {
        let mut probes: Vec<Probe> = Vec::with_capacity(self.sequences.len());
        proof {
            self.lemma_len();
        }
        let iter = self.sequences.iter();
        let ghost items = vstd::std_specs::iter::IteratorSpec::remaining(&iter);
        for entry in it: iter
            invariant
                self.well_formed(),
                it.seq() == items,
                forall|i: int|
                    0 <= i < items.len() ==> self.sequences@.contains_key(
                        *(#[trigger] items[i]).0,
                    ),
                probes@.len() == it.index(),
                forall|i: int|
                    0 <= i < it.index() ==> {
                        &&& (#[trigger] probes@[i]).pair() == pair_of(*items[i].0)
                        &&& probes@[i].sequence == *items[i].1
                    },
        {
            let key: u64 = *entry.0;
            probes.push(
                Probe {
                    host: (key / 0x1_0000) as u32,
                    port: (key % 0x1_0000) as u16,
                    sequence: *entry.1,
                },
            );
        }
        proof {
            assert forall|i: int| 0 <= i < probes@.len() implies self@.contains_pair(
                (#[trigger] probes@[i]).pair(),
                probes@[i].sequence,
            ) && key_of(probes@[i].pair()) == *items[i].0 by {
                assert(self.sequences@.contains_key(*items[i].0));
                assert(key_of(pair_of(*items[i].0)) == *items[i].0);
            }
            assert forall|i: int, j: int| 0 <= i < j < probes@.len() implies (
            #[trigger] probes@[i]).pair() != (#[trigger] probes@[j]).pair() by {
                assert(items[i] != items[j]);
                assert(self.sequences@[*items[i].0] == *items[i].1);
                assert(self.sequences@[*items[j].0] == *items[j].1);
            }
            assert forall|pair: (u32, u16)| #[trigger]
                self@.contains_key(pair) implies probes@.contains(
                Probe { host: pair.0, port: pair.1, sequence: self@[pair] },
            ) by {
                let key = key_of(pair);
                assert(items.contains((&key, &self.sequences@[key])));
                let i = items.index_of((&key, &self.sequences@[key]));
                assert(pair_of(key) == pair);
                assert(probes@[i] == (Probe { host: pair.0, port: pair.1, sequence: self@[pair] }));
            }
        }
        probes
    }
}

/// Whether the probes are those of the expected responses, each once.
pub open spec fn lists(probes: Seq<Probe>, expected: Map<(u32, u16), u32>) -> bool {
    &&& expected.dom().finite()
    &&& probes.len() == expected.dom().len()
    &&& forall|i: int|
        0 <= i < probes.len() ==> expected.contains_pair(
            (#[trigger] probes[i]).pair(),
            probes[i].sequence,
        )
    &&& forall|i: int, j: int|
        0 <= i < j < probes.len() ==> (#[trigger] probes[i]).pair() != (
        #[trigger] probes[j]).pair()
    &&& forall|pair: (u32, u16)| #[trigger]
        expected.contains_key(pair) ==> probes.contains(
            Probe { host: pair.0, port: pair.1, sequence: expected[pair] },
        )
}

/// The first item that is equal to an earlier one, if any is.
pub open spec fn first_repeat<A>(items: Seq<A>) -> Option<A>
    decreases items.len(),
{
    if items.len() == 0 {
        None
    } else {
        match first_repeat(items.drop_last()) {
            Some(item) => Some(item),
            None => if items.drop_last().contains(items.last()) {
                Some(items.last())
            } else {
                None
            },
        }
    }
}

/// Nothing repeats where there are no duplicates, and only there.
proof fn lemma_first_repeat_none<A>(items: Seq<A>)
    ensures
        first_repeat(items) is None <==> items.no_duplicates(),
    decreases items.len(),
{
    if items.len() > 0 {
        let rest = items.drop_last();
        lemma_first_repeat_none(rest);
        assert(forall|i: int| 0 <= i < rest.len() ==> #[trigger] rest[i] == items[i]);
        if items.no_duplicates() {
            assert(!rest.contains(items.last()));
            assert(rest.no_duplicates());
        } else if rest.no_duplicates() {
            let (i, j) = choose|i: int, j: int|
                0 <= i < items.len() && 0 <= j < items.len() && i != j && items[i] == items[j];
            if i == rest.len() {
                assert(rest[j] == items.last());
            } else if j == rest.len() {
                assert(rest[i] == items.last());
            } else {
                assert(rest[i] == rest[j]);
            }
        }
    }
}

/// The first repeat of a prefix is that of the whole.
proof fn lemma_first_repeat_at<A>(items: Seq<A>, at: int)
    requires
        0 <= at < items.len(),
        items.take(at).no_duplicates(),
        items.take(at).contains(items[at]),
    ensures
        first_repeat(items) == Some(items[at]),
    decreases items.len(),
{
    if at == items.len() - 1 {
        assert(items.drop_last() =~= items.take(at));
        lemma_first_repeat_none(items.take(at));
    } else {
        assert(items.drop_last().take(at) =~= items.take(at));
        lemma_first_repeat_at(items.drop_last(), at);
    }
}

/// The first pair of host and port that is asked for twice, host by host and port
/// by port, if any is.
pub open spec fn duplicate_pair(targets: Seq<u32>, ports: Seq<u16>) -> Option<(u32, u16)> {
    if targets.len() == 0 || ports.len() == 0 {
        None
    } else {
        match first_repeat(ports) {
            Some(port) => Some((targets[0], port)),
            None => match first_repeat(targets) {
                Some(host) => Some((host, ports[0])),
                None => None,
            },
        }
    }
}

/// Each pair of a target and a port, with the sequence number of its probe.
pub open spec fn all_expected(targets: Seq<u32>, ports: Seq<u16>, nonce: u32) -> Map<
    (u32, u16),
    u32,
> {
    Map::new(
        |pair: (u32, u16)| targets.contains(pair.0) && ports.contains(pair.1),
        |pair: (u32, u16)| sequence_of(pair.0, pair.1, nonce),
    )
}

/// Works out what each target is to acknowledge on each port. A pair that is asked
/// for twice is refused. The probe count says how many pairs to make room for.
pub fn expected_responses(config: &ScanConfig, nonce: u32, probe_count: usize) -> (expected: Result<
    ExpectedResponses,
    ScanError,
>)
    ensures
        match expected {
            Ok(expected) => {
                &&& duplicate_pair(config.targets@, config.ports@) is None
                &&& expected.well_formed()
                &&& expected@ == all_expected(config.targets@, config.ports@, nonce)
                &&& expected@.dom().finite()
                &&& expected@.dom().len() == config.targets@.len() * config.ports@.len()
            },
            Err(error) => match duplicate_pair(config.targets@, config.ports@) {
                Some(pair) => error == (ScanError::DuplicatePair { host: pair.0, port: pair.1 }),
                None => false,
            },
        },
{
    let ghost targets = config.targets@;
    let ghost ports = config.ports@;
    let mut expected = ExpectedResponses::with_capacity(probe_count);
    let mut i: usize = 0;
    while i < config.targets.len()
        invariant
            targets == config.targets@,
            ports == config.ports@,
            i <= targets.len(),
            expected.well_formed(),
            expected@ == all_expected(targets.take(i as int), ports, nonce),
            expected@.dom().finite(),
            expected@.dom().len() == i * ports.len(),
            ports.len() > 0 ==> targets.take(i as int).no_duplicates(),
            i > 0 ==> ports.no_duplicates(),
        decreases targets.len() - i,
    {
        let host: u32 = config.targets[i];
        let ghost before = expected@;
        let mut j: usize = 0;
        while j < config.ports.len()
            invariant
                targets == config.targets@,
                ports == config.ports@,
                i < targets.len(),
                host == targets[i as int],
                j <= ports.len(),
                before == all_expected(targets.take(i as int), ports, nonce),
                before.dom().len() == i * ports.len(),
                expected.well_formed(),
                forall|pair: (u32, u16)| #[trigger]
                    expected@.contains_key(pair) <==> before.contains_key(pair) || pair.0 == host
                        && ports.take(j as int).contains(pair.1),
                forall|pair: (u32, u16)| #[trigger]
                    expected@.contains_key(pair) ==> expected@[pair] == sequence_of(
                        pair.0,
                        pair.1,
                        nonce,
                    ),
                expected@.dom().finite(),
                expected@.dom().len() == i * ports.len() + j,
                ports.len() > 0 ==> targets.take(i as int).no_duplicates(),
                i > 0 ==> ports.no_duplicates(),
                ports.take(j as int).no_duplicates(),
                j > 0 ==> !targets.take(i as int).contains(host),
            decreases ports.len() - j,
        {
            let port: u16 = config.ports[j];
            let new = expected.insert(host, port, sequence(host, port, nonce));
            let ghost earlier = ports.take(j as int);
            assert(ports.take(j + 1) =~= earlier.push(port));
            assert(ports.contains(port));
            if !new {
                proof {
                    if earlier.contains(port) {
                        if i > 0 {
                            lemma_first_repeat_at(ports, j as int);
                            lemma_first_repeat_none(ports);
                        }
                        lemma_first_repeat_at(ports, j as int);
                    } else {
                        assert(before.contains_key((host, port)));
                        assert(j == 0);
                        lemma_first_repeat_none(ports);
                        lemma_first_repeat_at(targets, i as int);
                    }
                }
                return Err(ScanError::DuplicatePair { host, port });
            }
            assert(!earlier.contains(port));
            assert(!targets.take(i as int).contains(host));
            assert(forall|p: u16| #[trigger]
                ports.take(j + 1).contains(p) <==> earlier.contains(p) || p == port) by {
                assert(ports.take(j + 1)[j as int] == port);
                assert(forall|k: int| 0 <= k < j ==> ports.take(j + 1)[k] == #[trigger] earlier[k]);
            }
            j = j + 1;
        }
        proof {
            let next = targets.take(i + 1);
            assert(next =~= targets.take(i as int).push(host));
            assert(ports.take(j as int) =~= ports);
            assert(forall|h: u32| #[trigger]
                next.contains(h) <==> targets.take(i as int).contains(h) || h == host) by {
                assert(next[i as int] == host);
                assert(forall|k: int|
                    0 <= k < i ==> next[k] == #[trigger] targets.take(i as int)[k]);
            }
            assert(expected@ =~= all_expected(next, ports, nonce));
            assert((i + 1) * ports.len() == i * ports.len() + ports.len()) by (nonlinear_arith);
        }
        i = i + 1;
    }
    proof {
        assert(targets.take(i as int) =~= targets);
        lemma_first_repeat_none(targets);
        lemma_first_repeat_none(ports);
    }
    Ok(expected)
}

/// A configuration is refused for a pair asked for twice exactly where a target or
/// a port is given twice.
pub proof fn law_duplicates(targets: Seq<u32>, ports: Seq<u16>)
    requires
        targets.len() > 0,
        ports.len() > 0,
    ensures
        duplicate_pair(targets, ports) is None <==> targets.no_duplicates()
            && ports.no_duplicates(),
{
    lemma_first_repeat_none(targets);
    lemma_first_repeat_none(ports);
}

/// The pairs of host and port that have answered.
#[derive(Debug)]
pub struct SeenPairs {
    keys: HashSet<u64>,
}

impl View for SeenPairs {
    type V = Set<(u32, u16)>;

    closed spec fn view(&self) -> Set<(u32, u16)> {
        Set::new(|pair: (u32, u16)| self.keys@.contains(key_of(pair)))
    }
}

impl SeenPairs {
    /// The set of no pairs.
    pub fn new() -> (seen: Self)
        ensures
            seen@ == Set::<(u32, u16)>::empty(),
    {
        let seen = SeenPairs { keys: HashSet::new() };
        assert(seen@ =~= Set::empty());
        seen
    }

    /// Adds a pair. Returns whether it was not there before.
    pub fn insert(&mut self, host: u32, port: u16) -> (new: bool)
        ensures
            final(self)@ == old(self)@.insert((host, port)),
            new == !old(self)@.contains((host, port)),
    {
        let key = key(host, port);
        let new = self.keys.insert(key);
        proof {
            assert forall|pair: (u32, u16)| key_of(pair) == key implies pair == (host, port) by {
                assert(pair_of(key_of(pair)) == pair);
            }
            assert(self@ =~= old(self)@.insert((host, port)));
        }
        new
    }
}

/// The sequence number in bits: the host turned 13 places to the left, plus the port
/// moved 3 places to the left, wrapping around, and the difference of that and the
/// nonce bit by bit.
pub proof fn law_sequence_in_bits(host: u32, port: u16, nonce: u32)
    ensures
        ({
            let turned = (host << 13u32) | (host >> 19u32);
            let moved = (port as u32) << 3u32;
            sequence_of(host, port, nonce) == ((turned + moved) % 4294967296) as u32 ^ nonce
        }),
{
    assert((host << 13u32) | (host >> 19u32) == host % 0x8_0000 * 0x2000 + host / 0x8_0000)
        by (bit_vector);
    let wide = port as u32;
    assert(wide < 0x1_0000 ==> wide << 3u32 == wide * 8) by (bit_vector);
}

/// What is expected: a response of every target on every port, and of nothing else,
/// each with the sequence number of its probe.
pub proof fn law_expected_pairs(
    targets: Seq<u32>,
    ports: Seq<u16>,
    nonce: u32,
    host: u32,
    port: u16,
)
    ensures
        ({
            let expected = all_expected(targets, ports, nonce);
            &&& expected.contains_key((host, port)) <==> (exists|i: int|
                0 <= i < targets.len() && #[trigger] targets[i] == host) && (exists|j: int|
                0 <= j < ports.len() && #[trigger] ports[j] == port)
            &&& expected.contains_key((host, port)) ==> expected[(host, port)] == sequence_of(
                host,
                port,
                nonce,
            )
        }),
{
}

/// Which pair is refused: the first one asked for twice, host by host and, on one
/// host, port by port. Where a port comes again, that is the first port that does, on
/// the first target. Where only targets do, it is the first target that does, with
/// the first port. Where there is no target or no port, there is no pair.
pub proof fn law_refused_pair(targets: Seq<u32>, ports: Seq<u16>, i: int, j: int)
    ensures
        targets.len() == 0 || ports.len() == 0 ==> duplicate_pair(targets, ports) is None,
        targets.len() > 0 && 0 <= i < j < ports.len() && ports[i] == ports[j] && (forall|
            k: int,
            l: int,
        |
            0 <= k < l < j ==> #[trigger] ports[k] != #[trigger] ports[l]) ==> duplicate_pair(
            targets,
            ports,
        ) == Some((targets[0], ports[j])),
        ports.len() > 0 && (forall|k: int, l: int|
            0 <= k < l < ports.len() ==> #[trigger] ports[k] != #[trigger] ports[l]) && 0 <= i < j
            < targets.len() && targets[i] == targets[j] && (forall|k: int, l: int|
            0 <= k < l < j ==> #[trigger] targets[k] != #[trigger] targets[l]) ==> duplicate_pair(
            targets,
            ports,
        ) == Some((targets[j], ports[0])),
        (forall|k: int, l: int|
            0 <= k < l < ports.len() ==> #[trigger] ports[k] != #[trigger] ports[l]) && (forall|
            k: int,
            l: int,
        |
            0 <= k < l < targets.len() ==> #[trigger] targets[k] != #[trigger] targets[l])
            ==> duplicate_pair(targets, ports) is None,
{
    lemma_first_repeat_none(ports);
    lemma_first_repeat_none(targets);
    if 0 <= i < j < ports.len() && ports[i] == ports[j] && (forall|k: int, l: int|
        0 <= k < l < j ==> #[trigger] ports[k] != #[trigger] ports[l]) {
        let front = ports.take(j);
        assert(front[i] == ports[j]);
        assert(forall|k: int| 0 <= k < j ==> #[trigger] front[k] == ports[k]);
        assert(front.no_duplicates());
        lemma_first_repeat_at(ports, j);
    }
    if 0 <= i < j < targets.len() && targets[i] == targets[j] && (forall|k: int, l: int|
        0 <= k < l < j ==> #[trigger] targets[k] != #[trigger] targets[l]) {
        let front = targets.take(j);
        assert(front[i] == targets[j]);
        assert(forall|k: int| 0 <= k < j ==> #[trigger] front[k] == targets[k]);
        assert(front.no_duplicates());
        lemma_first_repeat_at(targets, j);
    }
    if forall|k: int, l: int|
        0 <= k < l < ports.len() ==> #[trigger] ports[k] != #[trigger] ports[l] {
        assert(ports.no_duplicates());
    }
    if forall|k: int, l: int|
        0 <= k < l < targets.len() ==> #[trigger] targets[k] != #[trigger] targets[l] {
        assert(targets.no_duplicates());
    }
}

/// Probes that are those of the expected responses go to expected pairs, with the
/// sequence numbers expected of them, no two to the same pair, and leave out none.
pub proof fn law_listed_probes(
    probes: Seq<Probe>,
    expected: Map<(u32, u16), u32>,
    i: int,
    j: int,
    host: u32,
    port: u16,
)
    requires
        lists(probes, expected),
    ensures
        0 <= i < probes.len() ==> expected.contains_key((probes[i].host, probes[i].port))
            && expected[(probes[i].host, probes[i].port)] == probes[i].sequence,
        0 <= i < j < probes.len() ==> probes[i].host != probes[j].host || probes[i].port
            != probes[j].port,
        expected.contains_key((host, port)) ==> exists|k: int|
            0 <= k < probes.len() && (#[trigger] probes[k]).host == host && probes[k].port == port
                && probes[k].sequence == expected[(host, port)],
        probes.len() == expected.dom().len(),
{
    if 0 <= i < probes.len() {
        assert(expected.contains_pair(probes[i].pair(), probes[i].sequence));
    }
    if 0 <= i < j < probes.len() {
        assert(probes[i].pair() != probes[j].pair());
    }
    if expected.contains_key((host, port)) {
        let probe = Probe { host, port, sequence: expected[(host, port)] };
        let k = probes.index_of(probe);
        assert(probes[k] == probe);
    }
}

} // verus!
