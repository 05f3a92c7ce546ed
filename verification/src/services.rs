//! The TCP entries of a services file such as `/etc/services`.

use std::collections::BTreeSet;

use vstd::prelude::*;
use vstd::slice::slice_subrange;

use crate::ports::{insert_port, listed, port_from};
use crate::text::{chars_of, find, split_at_each};

verus! {

broadcast use vstd::std_specs::btree::group_btree_axioms;

/// Why a services file is of no use.
#[derive(Debug)]
pub enum ServicesError {
    /// No line names a TCP port.
    NoTcpServices,
}

impl ServicesError {
    /// Describes the error for the file called `path`.
    pub fn message(&self, path: &str) -> (text: String)
        ensures
            text@ == path@ + " contains no TCP services"@,
    {
        let mut text = path.to_string();
        text.append(" contains no TCP services");
        text
    }
}

/// Whether `c` is Unicode white space.
pub open spec fn is_white(c: char) -> bool {
    let n = c as int;
    ||| 0x9 <= n <= 0xd
    ||| n == 0x20
    ||| n == 0x85
    ||| n == 0xa0
    ||| n == 0x1680
    ||| 0x2000 <= n <= 0x200a
    ||| 0x2028 <= n <= 0x2029
    ||| n == 0x202f
    ||| n == 0x205f
    ||| n == 0x3000
}

/// How many characters come before the first white space.
pub open spec fn word_length(s: Seq<char>) -> nat
    decreases s.len(),
{
    if s.len() == 0 || is_white(s[0]) {
        0
    } else {
        1 + word_length(s.drop_first())
    }
}

/// The words of a text: its longest runs without white space, in order.
pub open spec fn words(s: Seq<char>) -> Seq<Seq<char>>
    decreases s.len(),
{
    if s.len() == 0 {
        Seq::empty()
    } else if is_white(s[0]) {
        words(s.drop_first())
    } else {
        let n = word_length(s) as int;
        proof {
            lemma_word_length(s);
        }
        seq![s.take(n)] + words(s.skip(n))
    }
}

/// The port that the second word of an entry, `port/protocol`, names for TCP.
pub open spec fn tcp_port(entry: Seq<char>) -> Option<u16> {
    let slash = crate::text::position(entry, '/') as int;
    if slash < entry.len() && entry.skip(slash + 1) == "tcp"@ {
        match crate::ports::port_of(entry.take(slash)) {
            Ok(port) => Some(port),
            Err(_) => None,
        }
    } else {
        None
    }
}

/// The TCP port that a line names: in its second word, a number sign starting a
/// comment.
pub open spec fn service_port(line: Seq<char>) -> Option<u16> {
    let entry = words(line.take(crate::text::position(line, '#') as int));
    if entry.len() >= 2 {
        tcp_port(entry[1])
    } else {
        None
    }
}

/// The lines of a file. A carriage return before the line feed stays with its
/// line, where it is white space like any other.
pub open spec fn lines_of(contents: Seq<char>) -> Seq<Seq<char>> {
    crate::text::split(contents, '\n')
}

/// Whether some line of the file names `port` for TCP.
pub open spec fn offers(contents: Seq<char>, port: u16) -> bool {
    exists|i: int|
        0 <= i < lines_of(contents).len() && service_port(#[trigger] lines_of(contents)[i]) == Some(
            port,
        )
}

/// A word ends at the first white space or at the end of the text.
pub proof fn lemma_word_length(s: Seq<char>)
    ensures
        word_length(s) <= s.len(),
        s.len() > 0 && !is_white(s[0]) ==> word_length(s) > 0,
        forall|i: int| 0 <= i < word_length(s) ==> !is_white(#[trigger] s[i]),
        word_length(s) < s.len() ==> is_white(s[word_length(s) as int]),
    decreases s.len(),
{
    if s.len() > 0 && !is_white(s[0]) {
        let rest = s.drop_first();
        lemma_word_length(rest);
        assert forall|i: int| 0 <= i < word_length(s) implies !is_white(#[trigger] s[i]) by {
            if i > 0 {
                assert(s[i] == rest[i - 1]);
            }
        }
        if word_length(s) < s.len() {
            assert(s[word_length(s) as int] == rest[word_length(rest) as int]);
        }
    }
}

/// White space in front adds no word.
proof fn lemma_words_skip(s: Seq<char>, k: int)
    requires
        0 <= k <= s.len(),
        forall|i: int| 0 <= i < k ==> is_white(#[trigger] s[i]),
    ensures
        words(s) == words(s.skip(k)),
    decreases k,
{
    if k == 0 {
        assert(s.skip(0) =~= s);
    } else {
        let rest = s.drop_first();
        assert(is_white(s[0]));
        assert forall|i: int| 0 <= i < k - 1 implies is_white(#[trigger] rest[i]) by {
            assert(rest[i] == s[i + 1]);
        }
        lemma_words_skip(rest, k - 1);
        assert(rest.skip(k - 1) =~= s.skip(k));
    }
}

/// Tells whether a character is Unicode white space.
pub fn is_whitespace(c: char) -> (white: bool)
    ensures
        white == is_white(c),
{
    let n = c as u32;
    (0x9 <= n && n <= 0xd) || n == 0x20 || n == 0x85 || n == 0xa0 || n == 0x1680 || (0x2000 <= n
        && n <= 0x200a) || (0x2028 <= n && n <= 0x2029) || n == 0x202f || n == 0x205f || n == 0x3000
}

/// Drops leading white space.
fn trim_start(s: &[char]) -> (rest: &[char])
    ensures
        words(rest@) == words(s@),
        rest@.len() > 0 ==> !is_white(rest@[0]),
{
    let mut i: usize = 0;
    while i < s.len() && is_whitespace(s[i])
        invariant
            i <= s@.len(),
            forall|k: int| 0 <= k < i ==> is_white(#[trigger] s@[k]),
        decreases s@.len() - i,
    {
        i = i + 1;
    }
    proof {
        lemma_words_skip(s@, i as int);
        assert(s@.subrange(i as int, s@.len() as int) =~= s@.skip(i as int));
    }
    slice_subrange(s, i, s.len())
}

/// Finds the end of the word that the text starts with.
fn word_end(s: &[char]) -> (end: usize)
    ensures
        end == word_length(s@),
{
    let mut end: usize = 0;
    while end < s.len() && !is_whitespace(s[end])
        invariant
            end <= s@.len(),
            forall|k: int| 0 <= k < end ==> !is_white(#[trigger] s@[k]),
        decreases s@.len() - end,
    {
        end = end + 1;
    }
    proof {
        lemma_word_length(s@);
        let n = word_length(s@) as int;
        if n < end {
            assert(!is_white(s@[n]));
        } else if (end as int) < n {
            assert(!is_white(s@[end as int]));
        }
    }
    end
}

/// Takes the first word off a text.
fn next_word(s: &[char]) -> (split: Option<(&[char], &[char])>)
    ensures
        match split {
            Some((word, rest)) => words(s@) == seq![word@] + words(rest@),
            None => words(s@).len() == 0,
        },
{
    let s = trim_start(s);
    if s.len() == 0 {
        return None;
    }
    let end = word_end(s);
    proof {
        lemma_word_length(s@);
        assert(s@.subrange(0, end as int) =~= s@.take(end as int));
        assert(s@.subrange(end as int, s@.len() as int) =~= s@.skip(end as int));
    }
    Some((slice_subrange(s, 0, end), slice_subrange(s, end, s.len())))
}

/// Reads the second word of an entry.
fn entry_port(entry: &[char]) -> (port: Option<u16>)
    ensures
        port == tcp_port(entry@),
{
    let slash = find(entry, '/');
    proof {
        crate::text::lemma_position(entry@, '/');
        reveal_strlit("tcp");
    }
    if slash == entry.len() {
        return None;
    }
    let protocol = slice_subrange(entry, slash + 1, entry.len());
    assert(protocol@ =~= entry@.skip(slash + 1));
    if protocol.len() == 3 && protocol[0] == 't' && protocol[1] == 'c' && protocol[2] == 'p' {
        assert(protocol@ =~= "tcp"@);
        let number = slice_subrange(entry, 0, slash);
        assert(number@ =~= entry@.take(slash as int));
        match port_from(number) {
            Ok(port) => Some(port),
            Err(_) => None,
        }
    } else {
        assert(protocol@ != "tcp"@);
        None
    }
}

/// Reads one line.
fn line_port(line: &[char]) -> (port: Option<u16>)
    ensures
        port == service_port(line@),
{
    let comment = find(line, '#');
    proof {
        crate::text::lemma_position(line@, '#');
    }
    let code = slice_subrange(line, 0, comment);
    assert(code@ =~= line@.take(comment as int));
    match next_word(code) {
        None => None,
        Some((_service, rest)) => match next_word(rest) {
            None => None,
            Some((entry, _aliases)) => {
                assert(words(code@)[1] == entry@);
                entry_port(entry)
            },
        },
    }
}

/// Reads the TCP ports from the contents of a services file.
///
/// Lines that name no TCP port are passed over. Duplicate ports are removed and
/// the result is in ascending order.
pub fn ports_from_services(contents: &str) -> (result: Result<Vec<u16>, ServicesError>)
    ensures
        result is Ok <==> exists|p: u16| offers(contents@, p),
        result matches Ok(ports) ==> crate::ports::ascending(ports@) && forall|p: u16|
            ports@.contains(p) <==> offers(contents@, p),
{
    let mut set: BTreeSet<u16> = BTreeSet::new();
    let chars = chars_of(contents);
    let lines = split_at_each(chars.as_slice(), '\n');
    let ghost parts = lines_of(contents@);
    let mut k: usize = 0;
    while k < lines.len()
        invariant
            k <= lines@.len(),
            parts == lines_of(contents@),
            parts == lines@.map_values(|part: &[char]| part@),
            forall|p: u16|
                set@.contains(p) <==> exists|j: int|
                    0 <= j < k && service_port(#[trigger] parts[j]) == Some(p),
        decreases lines@.len() - k,
    {
        let line = lines[k];
        assert(parts[k as int] == line@);
        let ghost before = set@;
        let port = line_port(line);
        if let Some(port) = port {
            insert_port(&mut set, port);
        }
        proof {
            assert forall|p: u16|
                set@.contains(p) <==> exists|j: int|
                    0 <= j < k + 1 && service_port(#[trigger] parts[j]) == Some(p) by {
                if before.contains(p) {
                    let j = choose|j: int|
                        0 <= j < k && service_port(#[trigger] parts[j]) == Some(p);
                    assert(0 <= j < k + 1 && service_port(parts[j]) == Some(p));
                }
                if service_port(parts[k as int]) == Some(p) {
                    assert(set@.contains(p));
                }
            }
        }
        k = k + 1;
    }
    if set.is_empty() {
        proof {
            assert forall|p: u16| !offers(contents@, p) by {
                assert(!set@.contains(p));
            }
        }
        return Err(ServicesError::NoTcpServices);
    }
    proof {
        let p = set@.choose();
        assert(set@.contains(p));
        assert(offers(contents@, p));
    }
    Ok(listed(&set))
}

/// A number sign and what follows it change nothing about a line.
pub proof fn law_comments_are_ignored(line: Seq<char>, comment: Seq<char>)
    ensures
        service_port(line.push('#') + comment) == service_port(line),
{
    let whole = line.push('#') + comment;
    let at = crate::text::position(line, '#') as int;
    crate::text::lemma_position(line, '#');
    assert(forall|i: int| 0 <= i < line.len() ==> #[trigger] whole[i] == line[i]);
    crate::text::lemma_position_unique(whole, '#', at);
    assert(whole.take(at) =~= line.take(at));
}

/// Two files, one after the other with a line feed between them, offer the ports
/// that either offers.
pub proof fn law_files_join(first: Seq<char>, second: Seq<char>, port: u16)
    ensures
        offers(first.push('\n') + second, port) <==> offers(first, port) || offers(second, port),
{
    crate::text::lemma_split_join(first, '\n', second);
    let a = lines_of(first);
    let b = lines_of(second);
    let lines = lines_of(first.push('\n') + second);
    assert(lines == a + b);
    if offers(first.push('\n') + second, port) {
        let i = choose|i: int|
            0 <= i < lines.len() && service_port(#[trigger] lines[i]) == Some(port);
        if i < a.len() {
            assert(service_port(a[i]) == Some(port));
        } else {
            assert(service_port(b[i - a.len()]) == Some(port));
        }
    }
    if offers(first, port) {
        let i = choose|i: int| 0 <= i < a.len() && service_port(#[trigger] a[i]) == Some(port);
        assert(service_port(lines[i]) == Some(port));
    }
    if offers(second, port) {
        let i = choose|i: int| 0 <= i < b.len() && service_port(#[trigger] b[i]) == Some(port);
        assert(service_port(lines[a.len() + i]) == Some(port));
    }
}

/// No file offers port zero.
pub proof fn law_no_service_at_port_zero(contents: Seq<char>)
    ensures
        !offers(contents, 0),
{
    assert forall|entry: Seq<char>| #[trigger] tcp_port(entry) != Some(0u16) by {}
}

/// A text that starts with a word has that word, and then the words of what follows
/// it. White space in front adds nothing.
proof fn lemma_words_of(lead: Seq<char>, word: Seq<char>, rest: Seq<char>)
    requires
        forall|i: int| 0 <= i < lead.len() ==> is_white(#[trigger] lead[i]),
        word.len() > 0,
        forall|i: int| 0 <= i < word.len() ==> !is_white(#[trigger] word[i]),
        rest.len() > 0 ==> is_white(rest[0]),
    ensures
        words(lead + word + rest) == seq![word] + words(rest),
{
    let s = lead + word + rest;
    let tail = word + rest;
    assert forall|i: int| 0 <= i < lead.len() implies is_white(#[trigger] s[i]) by {
        assert(s[i] == lead[i]);
    }
    lemma_words_skip(s, lead.len() as int);
    assert(s.skip(lead.len() as int) =~= tail);
    lemma_word_length(tail);
    let n = word_length(tail) as int;
    assert(tail[0] == word[0]);
    if n < word.len() {
        assert(tail[n] == word[n]);
    } else if n > word.len() {
        assert(tail[word.len() as int] == rest[0]);
    }
    assert(tail.take(n) =~= word);
    assert(tail.skip(n) =~= rest);
}

/// A line names a port for TCP where it has a first word, white space, the number of
/// the port, a slash and `tcp`, and then nothing, white space or a number sign,
/// whatever follows. White space may come before the first word, which has no number
/// sign.
pub proof fn law_line_names_port(
    lead: Seq<char>,
    name: Seq<char>,
    gap: Seq<char>,
    number: Seq<char>,
    tail: Seq<char>,
)
    requires
        forall|i: int| 0 <= i < lead.len() ==> is_white(#[trigger] lead[i]),
        name.len() > 0,
        forall|i: int| 0 <= i < name.len() ==> !is_white(#[trigger] name[i]) && name[i] != '#',
        gap.len() > 0,
        forall|i: int| 0 <= i < gap.len() ==> is_white(#[trigger] gap[i]),
        crate::ports::port_of(number) is Ok,
        tail.len() > 0 ==> is_white(tail[0]) || tail[0] == '#',
    ensures
        service_port(lead + name + gap + number + seq!['/', 't', 'c', 'p'] + tail) == Some(
            crate::ports::port_of(number)->Ok_0,
        ),
{
    let suffix = seq!['/', 't', 'c', 'p'];
    let entry = number + suffix;
    let front = lead + name + gap + entry;
    let line = lead + name + gap + number + suffix + tail;
    assert(line =~= front + tail);
    crate::ports::lemma_number_characters(number);
    let cut = crate::text::position(tail, '#') as int;
    crate::text::lemma_position(tail, '#');
    assert forall|i: int| 0 <= i < entry.len() implies !is_white(#[trigger] entry[i]) && entry[i]
        != '#' by {
        if i < number.len() {
            assert(entry[i] == number[i]);
        } else {
            assert(entry[i] == suffix[i - number.len()]);
        }
    }
    assert forall|i: int| 0 <= i < front.len() implies #[trigger] front[i] != '#' by {
        let j = i - lead.len();
        let k = j - name.len();
        let l = k - gap.len();
        if j < 0 {
            assert(front[i] == lead[i]);
        } else if k < 0 {
            assert(front[i] == name[j]);
        } else if l < 0 {
            assert(front[i] == gap[k]);
        } else {
            assert(front[i] == entry[l]);
        }
    }
    assert forall|i: int| 0 <= i < front.len() + cut implies #[trigger] line[i] != '#' by {
        if i < front.len() {
            assert(line[i] == front[i]);
        } else {
            assert(line[i] == tail[i - front.len()]);
        }
    }
    if cut < tail.len() {
        assert(line[front.len() + cut] == tail[cut]);
    }
    crate::text::lemma_position_unique(line, '#', front.len() + cut);
    let rest = tail.take(cut);
    let code = line.take(front.len() + cut);
    assert(code =~= lead + name + (gap + entry + rest));
    if rest.len() > 0 {
        assert(rest[0] == tail[0]);
    }
    lemma_words_of(lead, name, gap + entry + rest);
    lemma_words_of(gap, entry, rest);
    assert(words(code)[1] == entry);
    assert forall|i: int| 0 <= i < number.len() implies #[trigger] entry[i] != '/' by {
        assert(entry[i] == number[i]);
    }
    crate::text::lemma_position_unique(entry, '/', number.len() as int);
    assert(entry.take(number.len() as int) =~= number);
    reveal_strlit("tcp");
    assert(entry.skip(number.len() as int + 1) =~= "tcp"@);
}

/// The numeral of a port other than zero names that port, in the second word of a
/// line with `/tcp` behind it, whatever comes after that word.
pub proof fn law_line_names_numeral(
    name: Seq<char>,
    gap: Seq<char>,
    port: u16,
    tail: Seq<char>,
)
    requires
        name.len() > 0,
        forall|i: int| 0 <= i < name.len() ==> !is_white(#[trigger] name[i]) && name[i] != '#',
        gap.len() > 0,
        forall|i: int| 0 <= i < gap.len() ==> is_white(#[trigger] gap[i]),
        port > 0,
        tail.len() > 0 ==> is_white(tail[0]) || tail[0] == '#',
    ensures
        service_port(
            name + gap + crate::text::decimal(port as nat) + seq!['/', 't', 'c', 'p'] + tail,
        ) == Some(port),
{
    let number = crate::text::decimal(port as nat);
    crate::ports::lemma_port_numeral(port);
    law_line_names_port(Seq::empty(), name, gap, number, tail);
    assert(Seq::<char>::empty() + name + gap + number + seq!['/', 't', 'c', 'p'] + tail =~= name
        + gap + number + seq!['/', 't', 'c', 'p'] + tail);
}

/// What a text with words is made of: white space, the first word, and a rest that
/// has the other words and does not go on with the first.
proof fn lemma_first_word(s: Seq<char>) -> (parts: (Seq<char>, Seq<char>))
    requires
        words(s).len() > 0,
    ensures
        s == parts.0 + words(s)[0] + parts.1,
        forall|i: int| 0 <= i < parts.0.len() ==> is_white(#[trigger] parts.0[i]),
        words(s)[0].len() > 0,
        forall|i: int| 0 <= i < words(s)[0].len() ==> !is_white(#[trigger] words(s)[0][i]),
        parts.1.len() > 0 ==> is_white(parts.1[0]),
        words(s) == seq![words(s)[0]] + words(parts.1),
    decreases s.len(),
{
    if is_white(s[0]) {
        let inner = lemma_first_word(s.drop_first());
        let lead = seq![s[0]] + inner.0;
        assert(s =~= seq![s[0]] + s.drop_first());
        assert(s =~= lead + words(s)[0] + inner.1);
        assert forall|i: int| 0 <= i < lead.len() implies is_white(#[trigger] lead[i]) by {
            if i > 0 {
                assert(lead[i] == inner.0[i - 1]);
            }
        }
        (lead, inner.1)
    } else {
        lemma_word_length(s);
        let n = word_length(s) as int;
        let word = s.take(n);
        let rest = s.skip(n);
        assert(words(s)[0] == word);
        assert(s =~= Seq::<char>::empty() + word + rest);
        assert forall|i: int| 0 <= i < word.len() implies !is_white(#[trigger] word[i]) by {
            assert(word[i] == s[i]);
        }
        if rest.len() > 0 {
            assert(rest[0] == s[n]);
        }
        assert(words(s) =~= seq![words(s)[0]] + words(rest));
        (Seq::empty(), rest)
    }
}

/// A line names a port only so: it is made of the returned parts, which are white
/// space, a first word, white space, the number of the port, a slash and `tcp`, and
/// an end that is empty or starts with white space or a number sign. No number sign
/// comes before the end.
pub proof fn law_naming_line(line: Seq<char>) -> (parts: (
    Seq<char>,
    Seq<char>,
    Seq<char>,
    Seq<char>,
    Seq<char>,
))
    requires
        service_port(line) is Some,
    ensures
        line == parts.0 + parts.1 + parts.2 + parts.3 + seq!['/', 't', 'c', 'p'] + parts.4,
        forall|i: int| 0 <= i < parts.0.len() ==> is_white(#[trigger] parts.0[i]),
        parts.1.len() > 0,
        forall|i: int|
            0 <= i < parts.1.len() ==> !is_white(#[trigger] parts.1[i]) && parts.1[i] != '#',
        parts.2.len() > 0,
        forall|i: int| 0 <= i < parts.2.len() ==> is_white(#[trigger] parts.2[i]),
        crate::ports::port_of(parts.3) == Ok::<u16, crate::ports::PortFault>(
            service_port(line)->0,
        ),
        parts.4.len() > 0 ==> is_white(parts.4[0]) || parts.4[0] == '#',
{
    let cut = crate::text::position(line, '#') as int;
    crate::text::lemma_position(line, '#');
    let code = line.take(cut);
    let outer = lemma_first_word(code);
    let name = words(code)[0];
    let inner = lemma_first_word(outer.1);
    let entry = words(outer.1)[0];
    assert(words(code)[1] == entry);
    let slash = crate::text::position(entry, '/') as int;
    crate::text::lemma_position(entry, '/');
    let number = entry.take(slash);
    let suffix = seq!['/', 't', 'c', 'p'];
    reveal_strlit("tcp");
    assert(entry =~= number + suffix) by {
        let protocol = entry.skip(slash + 1);
        assert(protocol == "tcp"@);
        assert(protocol.len() == 3);
        assert(entry[slash + 1] == protocol[0]);
        assert(entry[slash + 2] == protocol[1]);
        assert(entry[slash + 3] == protocol[2]);
    }
    let end = inner.1 + line.skip(cut);
    let gap = inner.0;
    assert(line =~= code + line.skip(cut));
    assert(line =~= outer.0 + name + gap + number + suffix + end);
    assert(gap.len() > 0) by {
        if gap.len() == 0 {
            assert(outer.1[0] == entry[0]);
        }
    }
    assert forall|i: int| 0 <= i < name.len() implies !is_white(#[trigger] name[i]) && name[i]
        != '#' by {
        assert(code[outer.0.len() + i] == name[i]);
        assert(line[outer.0.len() + i] == name[i]);
    }
    if end.len() > 0 {
        if inner.1.len() > 0 {
            assert(end[0] == inner.1[0]);
        } else {
            assert(end[0] == line[cut]);
        }
    }
    (outer.0, name, gap, number, end)
}

/// A file of one line offers what that line names, and nothing else. With
/// `law_files_join` this settles what any file offers.
pub proof fn law_one_line(line: Seq<char>, port: u16)
    requires
        !line.contains('\n'),
    ensures
        offers(line, port) <==> service_port(line) == Some(port),
{
    crate::text::lemma_split_whole(line, '\n');
    assert(lines_of(line)[0] == line);
}

} // verus!
