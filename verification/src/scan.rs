//! The two ends of a scan: what is checked and worked out before anything is sent,
//! and what is handed back when receiving is over.

use crate::config::{validate_scan, ScanConfig, ScanError, ScanResult};
use crate::probes::{expected_responses, ExpectedResponses};
use crate::text::decimal_text;
use vstd::prelude::*;

verus! {

/// Checks a configuration and works out the responses to expect. A configuration
/// that is empty, too large or without bandwidth is refused before one with a
/// duplicate pair is.
pub fn prepare_scan(config: &ScanConfig, nonce: u32) -> (expected: Result<
    ExpectedResponses,
    ScanError,
>)
    ensures
        match crate::config::admitted(
            config.targets.len(),
            config.ports.len(),
            config.bandwidth_kib,
        ) {
            Err(error) => expected == Err::<ExpectedResponses, ScanError>(error),
            Ok(probes) => match crate::probes::duplicate_pair(config.targets@, config.ports@) {
                Some(pair) => expected == Err::<ExpectedResponses, ScanError>(
                    ScanError::DuplicatePair { host: pair.0, port: pair.1 },
                ),
                None => {
                    &&& expected is Ok
                    &&& expected->Ok_0.well_formed()
                    &&& expected->Ok_0@ == crate::probes::all_expected(
                        config.targets@,
                        config.ports@,
                        nonce,
                    )
                    &&& expected->Ok_0@.dom().finite()
                    &&& expected->Ok_0@.dom().len() == probes
                },
            },
        },
{
    match validate_scan(config) {
        Ok(probes) => expected_responses(config, nonce, probes),
        Err(error) => Err(error),
    }
}

/// Targets and ports that were read from text need no check for duplicates.
pub proof fn law_parsed_lists_have_no_duplicates(
    input: Seq<char>,
    targets: Seq<u32>,
    ports: Seq<u16>,
)
    requires
        crate::targets::targets_of(input) == Ok::<Seq<u32>, crate::targets::TargetError>(targets),
        crate::ports::ascending(ports),
    ensures
        crate::probes::duplicate_pair(targets, ports) is None,
{
    crate::targets::law_accepted_targets(input);
    crate::ports::law_port_list_is_unique(ports, ports);
    if ports.len() > 0 {
        crate::probes::law_duplicates(targets, ports);
    }
}

/// Whether the first pair comes before the second, by host and then by port, or is
/// the same.
pub open spec fn no_later(a: (u32, u16), b: (u32, u16)) -> bool {
    a.0 < b.0 || a.0 == b.0 && a.1 <= b.1
}

/// Whether results are in the order of their hosts and, on one host, of their
/// ports.
pub open spec fn in_order(results: Seq<ScanResult>) -> bool {
    forall|i: int, j: int|
        0 <= i < j < results.len() ==> no_later(
            (#[trigger] results[i]).pair(),
            (#[trigger] results[j]).pair(),
        )
}

/// `<[T]>::sort_unstable_by_key`: the same items, in the order of their keys, which
/// here are the host and the port.
#[verifier::external_body]
fn sort_by_pair(results: &mut Vec<ScanResult>)
    ensures
        final(results)@.to_multiset() == old(results)@.to_multiset(),
        in_order(final(results)@),
{
    results.sort_unstable_by_key(|result| (result.host, result.port))
}

/// An error that stopped transmission after part of a scan was sent.
#[derive(Debug)]
pub struct IncompleteScanError<E> {
    source: E,
    partial_results: Vec<ScanResult>,
    probes_sent: usize,
    total_probes: usize,
}

/// What an incomplete scan came to.
pub struct IncompleteScan<E> {
    /// The error that stopped transmission.
    pub source: E,
    /// The results received from probes sent before transmission stopped.
    pub partial_results: Seq<ScanResult>,
    /// The number of probes sent before the error.
    pub probes_sent: usize,
    /// The number of probes of the scan.
    pub total_probes: usize,
}

impl<E> View for IncompleteScanError<E> {
    type V = IncompleteScan<E>;

    closed spec fn view(&self) -> IncompleteScan<E> {
        IncompleteScan {
            source: self.source,
            partial_results: self.partial_results@,
            probes_sent: self.probes_sent,
            total_probes: self.total_probes,
        }
    }
}

/// The message of an incomplete scan.
pub open spec fn incomplete_text(probes_sent: usize, total_probes: usize) -> Seq<char> {
    "scan stopped after sending "@ + crate::text::decimal(probes_sent as nat) + " of "@
        + crate::text::decimal(total_probes as nat) + " probes"@
}

impl<E> IncompleteScanError<E> {
    /// The error of a scan that `source` stopped.
    pub fn new(
        source: E,
        partial_results: Vec<ScanResult>,
        probes_sent: usize,
        total_probes: usize,
    ) -> (error: Self)
        ensures
            error@ == (IncompleteScan {
                source,
                partial_results: partial_results@,
                probes_sent,
                total_probes,
            }),
    {
        IncompleteScanError { source, partial_results, probes_sent, total_probes }
    }

    /// Returns results received from probes sent before transmission stopped.
    #[must_use]
    pub fn partial_results(&self) -> (results: &[ScanResult])
        ensures
            results@ == self@.partial_results,
    {
        self.partial_results.as_slice()
    }

    /// Returns the number of probes successfully sent before the error.
    #[must_use]
    pub fn probes_sent(&self) -> (sent: usize)
        ensures
            sent == self@.probes_sent,
    {
        self.probes_sent
    }

    /// Returns the total number of probes requested by the scan.
    #[must_use]
    pub fn total_probes(&self) -> (total: usize)
        ensures
            total == self@.total_probes,
    {
        self.total_probes
    }

    /// Returns the error that stopped transmission.
    pub fn source(&self) -> (source: &E)
        ensures
            *source == self@.source,
    {
        &self.source
    }

    /// Takes the error apart: the error that stopped transmission and the results
    /// received before that.
    pub fn into_parts(self) -> (parts: (E, Vec<ScanResult>))
        ensures
            parts.0 == self@.source,
            parts.1@ == self@.partial_results,
    {
        (self.source, self.partial_results)
    }

    /// The message of the error.
    pub fn message(&self) -> (text: String)
        ensures
            text@ == incomplete_text(self@.probes_sent, self@.total_probes),
    {
        let mut text = "scan stopped after sending ".to_string();
        text.append(decimal_text(self.probes_sent as u64).as_str());
        text.append(" of ");
        text.append(decimal_text(self.total_probes as u64).as_str());
        text.append(" probes");
        text
    }
}

/// Ends a scan: the results in order, with the error that stopped transmission
/// where one did.
pub fn finish_scan<E>(
    results: Vec<ScanResult>,
    failure: Option<E>,
    probes_sent: usize,
    total_probes: usize,
) -> (outcome: Result<Vec<ScanResult>, IncompleteScanError<E>>)
    ensures
        match outcome {
            Ok(sorted) => {
                &&& failure is None
                &&& in_order(sorted@)
                &&& sorted@.to_multiset() == results@.to_multiset()
            },
            Err(error) => {
                &&& failure == Some(error@.source)
                &&& in_order(error@.partial_results)
                &&& error@.partial_results.to_multiset() == results@.to_multiset()
                &&& error@.probes_sent == probes_sent
                &&& error@.total_probes == total_probes
            },
        },
{
    let mut results = results;
    sort_by_pair(&mut results);
    match failure {
        Some(source) => Err(
            IncompleteScanError { source, partial_results: results, probes_sent, total_probes },
        ),
        None => Ok(results),
    }
}

/// The order of the results does not depend on the order of arrival: results about
/// distinct pairs can be put in order in one way only, and then each pair comes
/// strictly before the next.
pub proof fn law_order_is_unique(a: Seq<ScanResult>, b: Seq<ScanResult>)
    requires
        in_order(a),
        in_order(b),
        a.to_multiset() == b.to_multiset(),
        forall|i: int, j: int|
            0 <= i < j < a.len() ==> (#[trigger] a[i]).pair() != (#[trigger] a[j]).pair(),
    ensures
        a == b,
        forall|i: int, j: int|
            0 <= i < j < a.len() ==> {
                let first = (#[trigger] a[i]).pair();
                let second = (#[trigger] a[j]).pair();
                first.0 < second.0 || first.0 == second.0 && first.1 < second.1
            },
    decreases a.len(),
{
    broadcast use vstd::seq_lib::group_to_multiset_ensures;

    assert(a.len() == a.to_multiset().len());
    assert(b.len() == b.to_multiset().len());
    if a.len() > 0 {
        let last = a.last();
        assert(a.to_multiset().contains(last));
        assert(b.contains(last));
        let at = choose|i: int| 0 <= i < b.len() && b[i] == last;
        assert(a.contains(b.last())) by {
            assert(b.to_multiset().contains(b.last()));
        }
        let place = choose|i: int| 0 <= i < a.len() && a[i] == b.last();
        assert(no_later(b.last().pair(), last.pair()));
        assert(no_later(last.pair(), b.last().pair()));
        assert(b.last() == last);
        let rest_a = a.drop_last();
        let rest_b = b.drop_last();
        assert(rest_a =~= a.remove(a.len() - 1));
        assert(rest_b =~= b.remove(b.len() - 1));
        assert(rest_a.to_multiset() =~= rest_b.to_multiset());
        law_order_is_unique(rest_a, rest_b);
        assert(a =~= rest_a.push(last));
        assert(b =~= rest_b.push(last));
    }
}

/// Putting sound results in order leaves them sound and about the same pairs, each
/// pair strictly before the next.
pub proof fn law_ordered_results_are_sound(
    results: Seq<ScanResult>,
    sorted: Seq<ScanResult>,
    expected: Map<(u32, u16), u32>,
    show_closed: bool,
)
    requires
        crate::receive::sound(results, expected, show_closed),
        in_order(sorted),
        sorted.to_multiset() == results.to_multiset(),
    ensures
        crate::receive::sound(sorted, expected, show_closed),
        crate::receive::pairs_of(sorted) == crate::receive::pairs_of(results),
        forall|i: int, j: int|
            0 <= i < j < sorted.len() ==> {
                let a = (#[trigger] sorted[i]).pair();
                let b = (#[trigger] sorted[j]).pair();
                a.0 < b.0 || a.0 == b.0 && a.1 < b.1
            },
{
    broadcast use vstd::seq_lib::group_to_multiset_ensures;

    assert forall|result: ScanResult| sorted.contains(result) <==> results.contains(result) by {
        assert(sorted.contains(result) <==> sorted.to_multiset().count(result) > 0);
        assert(results.contains(result) <==> results.to_multiset().count(result) > 0);
    }
    assert(results.no_duplicates());
    results.lemma_multiset_has_no_duplicates();
    assert(sorted.no_duplicates()) by {
        assert forall|result: ScanResult|
            sorted.to_multiset().contains(result) implies sorted.to_multiset().count(result)
            == 1 by {}
        sorted.lemma_multiset_has_no_duplicates_conv();
    }
    assert forall|i: int| 0 <= i < sorted.len() implies results.contains(#[trigger] sorted[i]) by {
        assert(sorted.contains(sorted[i]));
    }
    assert forall|i: int, j: int| 0 <= i < j < sorted.len() implies (#[trigger] sorted[i]).pair()
        != (#[trigger] sorted[j]).pair() by {
        assert(results.contains(sorted[i]));
        assert(results.contains(sorted[j]));
        let a = results.index_of(sorted[i]);
        let b = results.index_of(sorted[j]);
        assert(a != b);
        assert(results[a].pair() != results[b].pair());
    }
    assert forall|pair: (u32, u16)|
        crate::receive::pairs_of(sorted).contains(pair) == crate::receive::pairs_of(
            results,
        ).contains(pair) by {
        if crate::receive::pairs_of(sorted).contains(pair) {
            let i = choose|i: int| 0 <= i < sorted.len() && #[trigger] sorted[i].pair() == pair;
            assert(results.contains(sorted[i]));
            let a = results.index_of(sorted[i]);
            assert(results[a].pair() == pair);
        }
        if crate::receive::pairs_of(results).contains(pair) {
            let i = choose|i: int| 0 <= i < results.len() && #[trigger] results[i].pair() == pair;
            assert(results.contains(results[i]));
            assert(sorted.contains(results[i]));
            let a = sorted.index_of(results[i]);
            assert(sorted[a].pair() == pair);
        }
    }
    assert(crate::receive::pairs_of(sorted) =~= crate::receive::pairs_of(results));
}

/// The text of a panic: that of the payload, where it is a string of either kind,
/// and a general one where it is neither.
pub open spec fn panic_text(borrowed: Option<Seq<char>>, owned: Option<Seq<char>>) -> Seq<char> {
    match borrowed {
        Some(text) => text,
        None => match owned {
            Some(text) => text,
            None => "unknown panic payload"@,
        },
    }
}

/// Describes the payload of a panic, given the text it holds as a `&str` or as a
/// `String`.
pub fn describe_panic_payload<'a>(borrowed: Option<&'a str>, owned: Option<&'a str>) -> (text:
    &'a str)
    ensures
        text@ == panic_text(
            match borrowed {
                Some(text) => Some(text@),
                None => None,
            },
            match owned {
                Some(text) => Some(text@),
                None => None,
            },
        ),
{
    match borrowed {
        Some(text) => text,
        None => match owned {
            Some(text) => text,
            None => "unknown panic payload",
        },
    }
}

/// The message of a receiver that panicked, given the text of the panic.
pub fn receiver_panic(text: &str) -> (message: String)
    ensures
        message@ == "packet receiver thread panicked: "@ + text@,
{
    let mut message = "packet receiver thread panicked: ".to_string();
    message.append(text);
    message
}

/// Results are in order where the hosts, and on one host the ports, do not fall, that
/// is where a host and port taken as one number of 48 bits do not.
pub proof fn law_order(results: Seq<ScanResult>)
    ensures
        in_order(results) <==> forall|i: int, j: int|
            0 <= i < j < results.len() ==> (#[trigger] results[i]).host * 65536 + results[i].port
                <= (#[trigger] results[j]).host * 65536 + results[j].port,
{
    if in_order(results) {
        assert forall|i: int, j: int| 0 <= i < j < results.len() implies (
        #[trigger] results[i]).host * 65536 + results[i].port <= (#[trigger] results[j]).host
            * 65536 + results[j].port by {
            assert(no_later(results[i].pair(), results[j].pair()));
        }
    } else {
        let (i, j) = choose|i: int, j: int|
            0 <= i < j < results.len() && !no_later(
                (#[trigger] results[i]).pair(),
                (#[trigger] results[j]).pair(),
            );
        assert(results[i].host * 65536 + results[i].port > results[j].host * 65536
            + results[j].port);
    }
}

/// What the message of an incomplete scan and of a panic say. A panic is told by its
/// own text where it has one of either kind.
pub proof fn law_outcome_messages(
    sent: usize,
    total: usize,
    borrowed: Seq<char>,
    owned: Option<Seq<char>>,
)
    ensures
        incomplete_text(sent, total) == "scan stopped after sending "@ + crate::text::decimal(
            sent as nat,
        ) + " of "@ + crate::text::decimal(total as nat) + " probes"@,
        panic_text(Some(borrowed), owned) == borrowed,
        panic_text(None, Some(borrowed)) == borrowed,
        panic_text(None, None) == "unknown panic payload"@,
{
}

} // verus!
