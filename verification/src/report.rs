//! What a scanner prints: its banner, what it is about to do, what it found and
//! how long it took.

use crate::config::{PortState, ScanResult};
use crate::text::{decimal_text, dotted_text, endpoint_text};
use vstd::prelude::*;

verus! {

/// The banner of a program.
pub open spec fn banner_text(
    program: Seq<char>,
    version: Seq<char>,
    description: Seq<char>,
    authors: Seq<char>,
) -> Seq<char> {
    program + " "@ + version + " - "@ + description + "\nCopyright (c) 2026 "@ + authors + "\n\n"@
}

/// Formats the banner of a program.
pub fn banner(program: &str, version: &str, description: &str, authors: &str) -> (text: String)
    ensures
        text@ == banner_text(program@, version@, description@, authors@),
{
    let mut text = program.to_string();
    text.append(" ");
    text.append(version);
    text.append(" - ");
    text.append(description);
    text.append("\nCopyright (c) 2026 ");
    text.append(authors);
    text.append("\n\n");
    text
}

/// What is printed before a scan.
pub open spec fn scan_summary_text(probes: usize, interface: Seq<char>, source: u32) -> Seq<char> {
    "Scanning: "@ + crate::text::decimal(probes as nat) + " host/port pairs via "@ + interface
        + " ("@ + crate::text::dotted_quad(source) + ")...\n"@
}

/// Formats what is printed before a scan.
pub fn scan_summary(probes: usize, interface: &str, source: u32) -> (text: String)
    ensures
        text@ == scan_summary_text(probes, interface@, source),
{
    let mut text = "Scanning: ".to_string();
    text.append(decimal_text(probes as u64).as_str());
    text.append(" host/port pairs via ");
    text.append(interface);
    text.append(" (");
    text.append(dotted_text(source).as_str());
    text.append(")...\n");
    text
}

/// What is printed after a scan that took the given number of seconds.
pub open spec fn done_summary_text(probes: usize, seconds: Seq<char>) -> Seq<char> {
    "\nDone: "@ + crate::text::decimal(probes as nat) + " host/port pairs scanned in "@ + seconds
        + " seconds\n"@
}

/// Formats what is printed after a scan that took the given number of seconds.
pub fn done_summary(probes: usize, seconds: &str) -> (text: String)
    ensures
        text@ == done_summary_text(probes, seconds@),
{
    let mut text = "\nDone: ".to_string();
    text.append(decimal_text(probes as u64).as_str());
    text.append(" host/port pairs scanned in ");
    text.append(seconds);
    text.append(" seconds\n");
    text
}

/// The word for a state.
pub open spec fn state_word(state: PortState) -> Seq<char> {
    match state {
        PortState::Open => "open"@,
        PortState::Closed => "closed"@,
    }
}

/// The line of a result, with a tag where results are streamed.
pub open spec fn result_text(result: ScanResult, verbose: bool) -> Seq<char> {
    (if verbose {
        "[verbose] "@
    } else {
        Seq::empty()
    }) + state_word(result.state) + " "@ + crate::text::endpoint(result.host, result.port) + "\n"@
}

/// The lines of results, one after the other.
pub open spec fn result_lines(results: Seq<ScanResult>) -> Seq<char>
    decreases results.len(),
{
    if results.len() == 0 {
        Seq::empty()
    } else {
        result_lines(results.drop_last()) + result_text(results.last(), false)
    }
}

/// The lines of results under their heading, and nothing at all where there are
/// none.
pub open spec fn results_text(results: Seq<ScanResult>) -> Seq<char> {
    if results.len() == 0 {
        Seq::empty()
    } else {
        "\nScan results:\n"@ + result_lines(results)
    }
}

/// Formats the line of a result.
pub fn result_line(result: ScanResult, verbose: bool) -> (text: String)
    ensures
        text@ == result_text(result, verbose),
{
    let mut text = String::new();
    if verbose {
        text.append("[verbose] ");
    }
    match result.state {
        PortState::Open => text.append("open"),
        PortState::Closed => text.append("closed"),
    }
    text.append(" ");
    text.append(endpoint_text(result.host, result.port).as_str());
    text.append("\n");
    text
}

/// Formats all results of a scan.
pub fn format_results(results: &[ScanResult]) -> (text: String)
    ensures
        text@ == results_text(results@),
{
    let mut text = String::new();
    if results.len() == 0 {
        return text;
    }
    text.append("\nScan results:\n");
    let mut i: usize = 0;
    while i < results.len()
        invariant
            i <= results@.len(),
            text@ == "\nScan results:\n"@ + result_lines(results@.take(i as int)),
        decreases results@.len() - i,
    {
        assert(results@.take(i + 1).drop_last() =~= results@.take(i as int));
        text.append(result_line(results[i], false).as_str());
        assert(text@ =~= "\nScan results:\n"@ + result_lines(results@.take(i + 1)));
        i = i + 1;
    }
    assert(results@.take(i as int) =~= results@);
    text
}

/// A result has one line: the word for its state, the host as its four octets and
/// the port, and a tag in front where results are streamed.
pub proof fn law_result_line(a: nat, b: nat, c: nat, d: nat, port: u16)
    requires
        a < 256,
        b < 256,
        c < 256,
        d < 256,
    ensures
        ({
            let host = (a * 0x100_0000 + b * 0x1_0000 + c * 0x100 + d) as u32;
            let open = ScanResult { host, port, state: PortState::Open };
            let closed = ScanResult { host, port, state: PortState::Closed };
            let place = crate::text::decimal(a) + seq!['.'] + crate::text::decimal(b) + seq!['.']
                + crate::text::decimal(c) + seq!['.'] + crate::text::decimal(d) + seq![':']
                + crate::text::decimal(port as nat);
            &&& result_text(open, false) == "open "@ + place + "\n"@
            &&& result_text(closed, false) == "closed "@ + place + "\n"@
            &&& result_text(open, true) == "[verbose] open "@ + place + "\n"@
            &&& result_text(closed, true) == "[verbose] closed "@ + place + "\n"@
        }),
{
    crate::text::law_notation(a, b, c, d, port);
    reveal_strlit(" ");
    reveal_strlit("open");
    reveal_strlit("open ");
    reveal_strlit("closed");
    reveal_strlit("closed ");
    reveal_strlit("[verbose] ");
    reveal_strlit("[verbose] open ");
    reveal_strlit("[verbose] closed ");
    let host = (a * 0x100_0000 + b * 0x1_0000 + c * 0x100 + d) as u32;
    let open = ScanResult { host, port, state: PortState::Open };
    let closed = ScanResult { host, port, state: PortState::Closed };
    let place = crate::text::endpoint(host, port);
    assert(result_text(open, false) =~= "open "@ + place + "\n"@);
    assert(result_text(closed, false) =~= "closed "@ + place + "\n"@);
    assert(result_text(open, true) =~= "[verbose] open "@ + place + "\n"@);
    assert(result_text(closed, true) =~= "[verbose] closed "@ + place + "\n"@);
}

/// Every result is printed. No results are no text at all. One result is a heading
/// and its line, and one result more is one line more at the end.
pub proof fn law_every_result_is_printed(results: Seq<ScanResult>, result: ScanResult)
    ensures
        results_text(Seq::empty()) == Seq::<char>::empty(),
        results_text(seq![result]) == "\nScan results:\n"@ + result_text(result, false),
        results.len() > 0 ==> results_text(results.push(result)) == results_text(results)
            + result_text(result, false),
        result_lines(Seq::empty()) == Seq::<char>::empty(),
        result_lines(results.push(result)) == result_lines(results) + result_text(result, false),
{
    let one = seq![result];
    assert(one.drop_last() =~= Seq::<ScanResult>::empty());
    assert(result_lines(one) =~= result_text(result, false)) by {
        reveal_with_fuel(result_lines, 2);
    }
    let more = results.push(result);
    assert(more.drop_last() =~= results);
    assert(more.last() == result);
    if results.len() > 0 {
        assert(results_text(more) =~= results_text(results) + result_text(result, false));
    }
}

/// The lines of two lists of results joined are the lines of the first and then those
/// of the second.
pub proof fn law_result_lines_join(first: Seq<ScanResult>, second: Seq<ScanResult>)
    ensures
        result_lines(first + second) == result_lines(first) + result_lines(second),
        first.len() > 0 ==> results_text(first + second) == results_text(first) + result_lines(
            second,
        ),
    decreases second.len(),
{
    if second.len() == 0 {
        assert(first + second =~= first);
        assert(result_lines(first + second) =~= result_lines(first) + result_lines(second));
    } else {
        let rest = second.drop_last();
        law_result_lines_join(first, rest);
        law_every_result_is_printed(first + rest, second.last());
        law_every_result_is_printed(rest, second.last());
        assert((first + rest).push(second.last()) =~= first + second);
        assert(rest.push(second.last()) =~= second);
        assert(result_lines(first + second) =~= result_lines(first) + result_lines(second));
    }
    if first.len() > 0 {
        assert(results_text(first + second) =~= results_text(first) + result_lines(second));
    }
}

/// The banner names the program, its version, what it is and who wrote it, on two
/// lines with an empty one after them. The summaries name the number of pairs, the
/// interface and source address, and the time taken.
pub proof fn law_summaries(
    program: Seq<char>,
    version: Seq<char>,
    description: Seq<char>,
    authors: Seq<char>,
    probes: usize,
    interface: Seq<char>,
    source: u32,
    seconds: Seq<char>,
)
    ensures
        banner_text(program, version, description, authors) == program + " "@ + version + " - "@
            + description + "\nCopyright (c) 2026 "@ + authors + "\n\n"@,
        scan_summary_text(probes, interface, source) == "Scanning: "@ + crate::text::decimal(
            probes as nat,
        ) + " host/port pairs via "@ + interface + " ("@ + crate::text::dotted_quad(source)
            + ")...\n"@,
        done_summary_text(probes, seconds) == "\nDone: "@ + crate::text::decimal(probes as nat)
            + " host/port pairs scanned in "@ + seconds + " seconds\n"@,
{
}

} // verus!
