//! TCP port lists: comma-separated ports and inclusive ranges.

use std::collections::BTreeSet;

use vstd::prelude::*;
use vstd::slice::slice_subrange;

use crate::text::{chars_of, debug_quoted, find, split_at_each, string_of};

verus! {

broadcast use {vstd::std_specs::btree::group_btree_axioms, vstd::laws_cmp::group_laws_cmp};

/// Why a text is no sixteen-bit number.
#[derive(Clone, Copy, Debug, PartialEq, Eq, Structural)]
pub enum NumberFault {
    /// There is no character.
    Empty,
    /// A character is no digit, or there is only a sign.
    InvalidDigit,
    /// The digits denote more than sixteen bits hold.
    TooLarge,
}

/// The text that describes why a text is no number.
pub open spec fn number_fault_text(fault: NumberFault) -> Seq<char> {
    match fault {
        NumberFault::Empty => "cannot parse integer from empty string"@,
        NumberFault::InvalidDigit => "invalid digit found in string"@,
        NumberFault::TooLarge => "number too large to fit in target type"@,
    }
}

impl NumberFault {
    /// Describes the fault in one line.
    pub fn message(&self) -> (text: String)
        ensures
            text@ == number_fault_text(*self),
    {
        match self {
            NumberFault::Empty => "cannot parse integer from empty string".to_string(),
            NumberFault::InvalidDigit => "invalid digit found in string".to_string(),
            NumberFault::TooLarge => "number too large to fit in target type".to_string(),
        }
    }
}

/// Why a port list is rejected.
#[derive(Debug)]
pub enum PortError {
    /// The list has an item without any character.
    EmptyItem {
        /// The whole list.
        input: String,
    },
    /// A range has more than one dash.
    MalformedRange {
        /// The range.
        item: String,
    },
    /// A port is no decimal number that fits in sixteen bits.
    InvalidPort {
        /// What stands in its place.
        text: String,
        /// Why it is no such number.
        reason: NumberFault,
    },
    /// Port zero cannot be scanned.
    PortZero,
    /// A range starts above its end.
    ReversedRange {
        /// The range.
        item: String,
    },
}

/// A [`PortError`] with its texts as character sequences.
pub enum PortFault {
    EmptyItem { input: Seq<char> },
    MalformedRange { item: Seq<char> },
    InvalidPort { text: Seq<char>, reason: NumberFault },
    PortZero,
    ReversedRange { item: Seq<char> },
}

impl View for PortError {
    type V = PortFault;

    open spec fn view(&self) -> PortFault {
        match self {
            PortError::EmptyItem { input } => PortFault::EmptyItem { input: input@ },
            PortError::MalformedRange { item } => PortFault::MalformedRange { item: item@ },
            PortError::InvalidPort { text, reason } => PortFault::InvalidPort {
                text: text@,
                reason: *reason,
            },
            PortError::PortZero => PortFault::PortZero,
            PortError::ReversedRange { item } => PortFault::ReversedRange { item: item@ },
        }
    }
}

/// The text that describes a rejected port list.
pub open spec fn port_fault_text(fault: PortFault) -> Seq<char> {
    match fault {
        PortFault::EmptyItem { input } => "empty port in "@ + crate::text::debug_text(input),
        PortFault::MalformedRange { item } => "invalid port range "@ + crate::text::debug_text(
            item,
        ),
        PortFault::InvalidPort { text, .. } => "invalid TCP port "@ + crate::text::debug_text(
            text,
        ),
        PortFault::PortZero => "TCP port zero is not supported"@,
        PortFault::ReversedRange { item } => "reversed port range "@ + crate::text::debug_text(
            item,
        ),
    }
}

impl PortError {
    /// Describes the error in one line.
    pub fn message(&self) -> (text: String)
        ensures
            text@ == port_fault_text(self@),
    {
        match self {
            PortError::EmptyItem { input } => debug_quoted("empty port in ", input.as_str()),
            PortError::MalformedRange { item } => debug_quoted(
                "invalid port range ",
                item.as_str(),
            ),
            PortError::InvalidPort { text, .. } => debug_quoted(
                "invalid TCP port ",
                text.as_str(),
            ),
            PortError::PortZero => "TCP port zero is not supported".to_string(),
            PortError::ReversedRange { item } => debug_quoted(
                "reversed port range ",
                item.as_str(),
            ),
        }
    }
}

/// How many digits a text starts with.
pub open spec fn leading_digits(text: Seq<char>) -> nat
    decreases text.len(),
{
    if text.len() == 0 || !crate::text::is_digit(text[0]) {
        0
    } else {
        1 + leading_digits(text.drop_first())
    }
}

/// The sixteen-bit number that a text denotes: decimal digits, as many as one
/// likes, after at most one plus sign. The text is read from the left, so digits
/// that denote too much are found before a character behind them that is no digit.
pub open spec fn number_of(text: Seq<char>) -> Result<u16, NumberFault> {
    let digits = if text.len() > 0 && text[0] == '+' {
        text.drop_first()
    } else {
        text
    };
    let count = leading_digits(digits) as int;
    let value = crate::text::decimal_value(digits.take(count));
    if text.len() == 0 {
        Err(NumberFault::Empty)
    } else if value > u16::MAX {
        Err(NumberFault::TooLarge)
    } else if digits.len() == 0 || count < digits.len() {
        Err(NumberFault::InvalidDigit)
    } else {
        Ok(value as u16)
    }
}

/// The port that a text denotes: a number other than zero.
pub open spec fn port_of(text: Seq<char>) -> Result<u16, PortFault> {
    match number_of(text) {
        Err(reason) => Err(PortFault::InvalidPort { text, reason }),
        Ok(0) => Err(PortFault::PortZero),
        Ok(port) => Ok(port),
    }
}

/// The first and the last port of a pair of bounds, unless one of them is
/// rejected; the first bound is looked at first.
pub open spec fn bounds_of(first: Seq<char>, last: Seq<char>) -> Result<(u16, u16), PortFault> {
    match port_of(first) {
        Err(fault) => Err(fault),
        Ok(start) => match port_of(last) {
            Err(fault) => Err(fault),
            Ok(end) => Ok((start, end)),
        },
    }
}

/// The ports that one item of the list `input` stands for: a single port, or
/// two ports joined by a dash, both inclusive.
pub open spec fn item_range(input: Seq<char>, item: Seq<char>) -> Result<(u16, u16), PortFault> {
    let dash = crate::text::position(item, '-') as int;
    let bounds = if item.len() == 0 {
        Err(PortFault::EmptyItem { input })
    } else if dash == item.len() {
        bounds_of(item, item)
    } else if item.skip(dash + 1).contains('-') {
        Err(PortFault::MalformedRange { item })
    } else {
        bounds_of(item.take(dash), item.skip(dash + 1))
    };
    match bounds {
        Ok((start, end)) if start > end => Err(PortFault::ReversedRange { item }),
        other => other,
    }
}

/// The items of a port list.
pub open spec fn items_of(input: Seq<char>) -> Seq<Seq<char>> {
    crate::text::split(input, ',')
}

/// Whether every item of the list is accepted.
pub open spec fn accepted(input: Seq<char>) -> bool {
    forall|i: int|
        0 <= i < items_of(input).len() ==> item_range(input, #[trigger] items_of(input)[i]) is Ok
}

/// Whether item `i` is the first that is rejected, and why.
pub open spec fn rejected_at(input: Seq<char>, i: int, fault: PortFault) -> bool {
    &&& 0 <= i < items_of(input).len()
    &&& item_range(input, items_of(input)[i]) == Err::<(u16, u16), PortFault>(fault)
    &&& forall|j: int| 0 <= j < i ==> item_range(input, #[trigger] items_of(input)[j]) is Ok
}

/// Whether an item stands for the port `port`, among others.
pub open spec fn covers(input: Seq<char>, item: Seq<char>, port: u16) -> bool {
    item_range(input, item) matches Ok((start, end)) && start <= port <= end
}

/// Whether the list names `port`.
pub open spec fn names_port(input: Seq<char>, port: u16) -> bool {
    exists|i: int|
        0 <= i < items_of(input).len() && covers(input, #[trigger] items_of(input)[i], port)
}

/// Whether the ports stand in strictly ascending order.
pub open spec fn ascending(ports: Seq<u16>) -> bool {
    forall|i: int, j: int| 0 <= i < j < ports.len() ==> ports[i] < ports[j]
}

/// Lists a set of ports in ascending order.
pub(crate) fn listed(set: &BTreeSet<u16>) -> (ports: Vec<u16>)
    ensures
        ascending(ports@),
        forall|p: u16| ports@.contains(p) <==> set@.contains(p),
{
    let mut ports: Vec<u16> = Vec::new();
    for p in it: set.iter()
        invariant
            ports@ == it.seq().unref().take(it.index()),
            it.seq() == vstd::std_specs::iter::IteratorSpec::remaining(
                &vstd::std_specs::btree::spec_btree_keys_iter(set),
            ),
    {
        ports.push(*p);
    }
    proof {
        let keys = vstd::std_specs::iter::IteratorSpec::remaining(
            &vstd::std_specs::btree::spec_btree_keys_iter(set),
        );
        assert(ports@ =~= keys.unref());
        assert(ports@.to_set() == set@);
        assert(forall|p: u16| ports@.contains(p) <==> ports@.to_set().contains(p));
        assert(vstd::laws_cmp::obeys_cmp::<u16>());
        assert(vstd::laws_cmp::obeys_cmp::<&u16>());
        assert(vstd::std_specs::btree::increasing_seq(keys));
        assert forall|i: int, j: int| 0 <= i < j < ports@.len() implies ports@[i] < ports@[j] by {
            assert(vstd::std_specs::cmp::OrdSpec::cmp_spec(&keys[i], &keys[j]) is Less);
            assert(ports@[i] == *keys[i]);
            assert(ports@[j] == *keys[j]);
        }
    }
    ports
}

/// Adds one port to a set.
pub(crate) fn insert_port(set: &mut BTreeSet<u16>, port: u16)
    ensures
        final(set)@ == old(set)@.insert(port),
{
    assert(vstd::laws_cmp::obeys_cmp::<u16>());
    set.insert(port);
}

/// Adds the ports from `start` through `end` to a set.
fn insert_range(set: &mut BTreeSet<u16>, start: u16, end: u16)
    requires
        start <= end,
    ensures
        forall|p: u16|
            final(set)@.contains(p) <==> old(set)@.contains(p) || start <= p <= end,
{
    let mut port: u16 = start;
    loop
        invariant_except_break
            start <= port <= end,
            forall|p: u16| set@.contains(p) <==> old(set)@.contains(p) || start <= p < port,
        invariant
            start <= end,
        ensures
            forall|p: u16| set@.contains(p) <==> old(set)@.contains(p) || start <= p <= end,
        decreases end - port,
    {
        insert_port(set, port);
        if port == end {
            break;
        }
        port = port + 1;
    }
}

/// What `leading_digits` means: what it counts are digits, and what follows them is
/// none.
proof fn lemma_leading_digits(text: Seq<char>)
    ensures
        leading_digits(text) <= text.len(),
        forall|i: int|
            0 <= i < leading_digits(text) ==> crate::text::is_digit(#[trigger] text[i]),
        leading_digits(text) < text.len() ==> !crate::text::is_digit(
            text[leading_digits(text) as int],
        ),
    decreases text.len(),
{
    if text.len() > 0 && crate::text::is_digit(text[0]) {
        let rest = text.drop_first();
        lemma_leading_digits(rest);
        assert forall|i: int| 0 <= i < leading_digits(text) implies crate::text::is_digit(
            #[trigger] text[i],
        ) by {
            if i > 0 {
                assert(text[i] == rest[i - 1]);
            }
        }
        if leading_digits(text) < text.len() {
            assert(text[leading_digits(text) as int] == rest[leading_digits(rest) as int]);
        }
    }
}

/// Reads the digits from `start` on.
fn parse_digits(text: &[char], start: usize) -> (number: Result<u16, NumberFault>)
    requires
        start < text@.len(),
    ensures
        ({
            let digits = text@.skip(start as int);
            let count = leading_digits(digits) as int;
            let value = crate::text::decimal_value(digits.take(count));
            number == if value > u16::MAX {
                Err(NumberFault::TooLarge)
            } else if count < digits.len() {
                Err(NumberFault::InvalidDigit)
            } else {
                Ok(value as u16)
            }
        }),
{
    let ghost digits = text@.skip(start as int);
    let ghost count = leading_digits(digits) as int;
    proof {
        lemma_leading_digits(digits);
        assert(digits.take(0) =~= Seq::<char>::empty());
    }
    let mut value: u32 = 0;
    let mut i: usize = start;
    while i < text.len()
        invariant
            start <= i <= text@.len(),
            digits == text@.skip(start as int),
            count == leading_digits(digits),
            i - start <= count <= digits.len(),
            forall|k: int| 0 <= k < count ==> crate::text::is_digit(#[trigger] digits[k]),
            count < digits.len() ==> !crate::text::is_digit(digits[count]),
            value == crate::text::decimal_value(digits.take(i - start)),
            value <= u16::MAX,
        decreases text@.len() - i,
    {
        let c = text[i];
        assert(digits[i - start] == c);
        if c < '0' || '9' < c {
            return Err(NumberFault::InvalidDigit);
        }
        proof {
            assert(digits.take(i - start + 1) =~= digits.take(i - start).push(c));
            crate::text::lemma_decimal_value_push(digits.take(i - start), c);
        }
        value = value * 10 + (c as u32 - 48);
        i = i + 1;
        if value > 65535 {
            proof {
                crate::text::lemma_decimal_value_prefix(digits.take(count), i - start);
                assert(digits.take(count).take(i - start) =~= digits.take(i - start));
            }
            return Err(NumberFault::TooLarge);
        }
    }
    Ok(value as u16)
}

/// Reads a sixteen-bit number.
fn parse_number(text: &[char]) -> (number: Result<u16, NumberFault>)
    ensures
        number == number_of(text@),
{
    if text.len() == 0 {
        return Err(NumberFault::Empty);
    }
    if text[0] != '+' {
        assert(text@.skip(0) =~= text@);
        return parse_digits(text, 0);
    }
    assert(text@.skip(1) =~= text@.drop_first());
    if text.len() == 1 {
        assert(text@.drop_first().take(0) =~= Seq::<char>::empty());
        return Err(NumberFault::InvalidDigit);
    }
    parse_digits(text, 1)
}

/// Reads one port.
pub(crate) fn port_from(text: &[char]) -> (port: Result<u16, PortError>)
    ensures
        match port_of(text@) {
            Ok(p) => port == Ok::<u16, PortError>(p),
            Err(fault) => port matches Err(e) && e@ == fault,
        },
{
    match parse_number(text) {
        Err(reason) => Err(PortError::InvalidPort { text: string_of(text), reason }),
        Ok(number) => if number == 0 {
            Err(PortError::PortZero)
        } else {
            Ok(number)
        },
    }
}

/// Reads one TCP port: a decimal number from 1 through 65535, which a plus sign
/// may precede.
pub fn parse_port(input: &str) -> (port: Result<u16, PortError>)
    ensures
        match port_of(input@) {
            Ok(p) => port == Ok::<u16, PortError>(p),
            Err(fault) => port matches Err(e) && e@ == fault,
        },
{
    let chars = chars_of(input);
    port_from(chars.as_slice())
}

/// Reads one item of a port list.
fn parse_item(input: &str, item: &[char]) -> (range: Result<(u16, u16), PortError>)
    ensures
        match item_range(input@, item@) {
            Ok(r) => range == Ok::<(u16, u16), PortError>(r),
            Err(fault) => range matches Err(e) && e@ == fault,
        },
{
    if item.len() == 0 {
        return Err(PortError::EmptyItem { input: input.to_string() });
    }
    let dash = find(item, '-');
    proof {
        crate::text::lemma_position(item@, '-');
    }
    let start: u16;
    let end: u16;
    if dash < item.len() {
        let first = slice_subrange(item, 0, dash);
        let last = slice_subrange(item, dash + 1, item.len());
        assert(first@ =~= item@.take(dash as int));
        assert(last@ =~= item@.skip(dash + 1));
        let second_dash = find(last, '-');
        proof {
            crate::text::lemma_position(last@, '-');
        }
        if second_dash < last.len() {
            assert(last@[second_dash as int] == '-');
            return Err(PortError::MalformedRange { item: string_of(item) });
        }
        start = port_from(first)?;
        end = port_from(last)?;
    } else {
        let port = port_from(item)?;
        start = port;
        end = port;
    }
    if start > end {
        return Err(PortError::ReversedRange { item: string_of(item) });
    }
    Ok((start, end))
}

/// Parses comma-separated ports and inclusive ranges such as `22,80,8000-8010`.
///
/// Duplicate ports are removed and the result is in ascending order. The first
/// item that is empty, malformed, reversed or out of range decides the error.
pub fn parse_ports(input: &str) -> (result: Result<Vec<u16>, PortError>)
    ensures
        result is Ok <==> accepted(input@),
        result matches Ok(ports) ==> ascending(ports@) && forall|p: u16|
            ports@.contains(p) <==> names_port(input@, p),
        result matches Err(e) ==> exists|i: int| rejected_at(input@, i, e@),
{
    let mut set: BTreeSet<u16> = BTreeSet::new();
    let chars = chars_of(input);
    let items = split_at_each(chars.as_slice(), ',');
    let ghost parts = items_of(input@);
    assert(parts == items@.map_values(|part: &[char]| part@));
    let mut k: usize = 0;
    while k < items.len()
        invariant
            k <= items@.len(),
            parts == items_of(input@),
            parts == items@.map_values(|part: &[char]| part@),
            forall|j: int| 0 <= j < k ==> item_range(input@, #[trigger] parts[j]) is Ok,
            forall|p: u16|
                set@.contains(p) <==> exists|j: int|
                    0 <= j < k && covers(input@, #[trigger] parts[j], p),
        decreases items@.len() - k,
    {
        let item = items[k];
        assert(parts[k as int] == item@);
        let (start, end) = match parse_item(input, item) {
            Ok(range) => range,
            Err(e) => {
                assert(rejected_at(input@, k as int, e@));
                return Err(e);
            },
        };
        let ghost before = set@;
        insert_range(&mut set, start, end);
        proof {
            assert forall|p: u16|
                set@.contains(p) <==> exists|j: int|
                    0 <= j < k + 1 && covers(input@, #[trigger] parts[j], p) by {
                assert(covers(input@, parts[k as int], p) <==> start <= p <= end);
                if before.contains(p) {
                    let j = choose|j: int| 0 <= j < k && covers(input@, #[trigger] parts[j], p);
                    assert(0 <= j < k + 1 && covers(input@, parts[j], p));
                }
            }
        }
        k = k + 1;
    }
    Ok(listed(&set))
}

/// Whether an item is accepted, and which ports it stands for, does not depend on
/// the list it stands in.
proof fn lemma_item_range_alone(input: Seq<char>, other: Seq<char>, item: Seq<char>)
    ensures
        item_range(input, item) is Ok <==> item_range(other, item) is Ok,
        item_range(input, item) is Ok ==> item_range(input, item) == item_range(other, item),
{
}

/// Ports in ascending order are determined by which ports they are, and none of
/// them occurs twice.
pub proof fn law_port_list_is_unique(a: Seq<u16>, b: Seq<u16>)
    requires
        ascending(a),
        ascending(b),
        forall|p: u16| a.contains(p) <==> b.contains(p),
    ensures
        a == b,
        a.no_duplicates(),
        forall|i: int, j: int| 0 <= i < j < a.len() ==> #[trigger] a[i] < #[trigger] a[j],
    decreases a.len(),
{
    if a.len() == 0 {
        if b.len() > 0 {
            assert(b.contains(b[0]));
        }
    } else {
        assert(a.contains(a.last()));
        assert(b.contains(a.last()));
        assert(b.contains(b.last()));
        assert(a.contains(b.last()));
        assert(a.last() == b.last());
        let rest_a = a.drop_last();
        let rest_b = b.drop_last();
        assert forall|p: u16| rest_a.contains(p) <==> rest_b.contains(p) by {
            if rest_a.contains(p) {
                let i = rest_a.index_of(p);
                assert(a[i] == p);
                assert(a.contains(p));
                assert(b.contains(p));
                let j = b.index_of(p);
                assert(p < a.last());
                assert(rest_b[j] == p);
            }
            if rest_b.contains(p) {
                let i = rest_b.index_of(p);
                assert(b[i] == p);
                assert(b.contains(p));
                assert(a.contains(p));
                let j = a.index_of(p);
                assert(p < b.last());
                assert(rest_a[j] == p);
            }
        }
        law_port_list_is_unique(rest_a, rest_b);
        assert(a =~= rest_a.push(a.last()));
        assert(b =~= rest_b.push(b.last()));
    }
}

/// A list that is accepted names some port, and no list names port zero.
pub proof fn law_named_ports(input: Seq<char>)
    ensures
        !names_port(input, 0),
        accepted(input) ==> exists|p: u16| names_port(input, p),
{
    assert forall|item: Seq<char>| !covers(input, item, 0) by {
        lemma_bounds(input, item);
    }
    if accepted(input) {
        let item = items_of(input)[0];
        assert(items_of(input).len() > 0);
        assert(item_range(input, item) is Ok);
        let port = item_range(input, item)->Ok_0.0;
        lemma_bounds(input, item);
        assert(covers(input, item, port));
        assert(names_port(input, port));
    }
}

/// The bounds of an accepted item are ports in order.
proof fn lemma_bounds(input: Seq<char>, item: Seq<char>)
    ensures
        item_range(input, item) matches Ok((start, end)) ==> 1 <= start <= end,
{
}

/// Two lists joined by a comma are accepted where both are, and name the ports that
/// either names.
pub proof fn law_comma_joins_lists(first: Seq<char>, second: Seq<char>)
    ensures
        ({
            let both = first.push(',') + second;
            &&& accepted(both) <==> accepted(first) && accepted(second)
            &&& forall|p: u16| #[trigger]
                names_port(both, p) <==> names_port(first, p) || names_port(second, p)
        }),
{
    let both = first.push(',') + second;
    crate::text::lemma_split_join(first, ',', second);
    let a = items_of(first);
    let b = items_of(second);
    let items = items_of(both);
    assert(items == a + b);
    assert forall|i: int| 0 <= i < a.len() implies #[trigger] items[i] == a[i] by {}
    assert forall|i: int| 0 <= i < b.len() implies #[trigger] items[a.len() + i] == b[i] by {}
    assert forall|i: int| 0 <= i < items.len() implies #[trigger] items[i] == (if i < a.len() {
        a[i]
    } else {
        b[i - a.len()]
    }) by {}
    assert forall|item: Seq<char>|
        (item_range(both, item) is Ok <==> item_range(first, item) is Ok) && (item_range(
            both,
            item,
        ) is Ok <==> item_range(second, item) is Ok) by {
        lemma_item_range_alone(both, first, item);
        lemma_item_range_alone(both, second, item);
    }
    if accepted(first) && accepted(second) {
        assert forall|i: int| 0 <= i < items.len() implies item_range(
            both,
            #[trigger] items[i],
        ) is Ok by {
            if i < a.len() {
                assert(item_range(first, a[i]) is Ok);
            } else {
                assert(item_range(second, b[i - a.len()]) is Ok);
            }
        }
    }
    if accepted(both) {
        assert forall|i: int| 0 <= i < a.len() implies item_range(
            first,
            #[trigger] a[i],
        ) is Ok by {
            assert(item_range(both, items[i]) is Ok);
        }
        assert forall|i: int| 0 <= i < b.len() implies item_range(
            second,
            #[trigger] b[i],
        ) is Ok by {
            assert(item_range(both, items[a.len() + i]) is Ok);
        }
    }
    assert forall|p: u16| #[trigger]
        names_port(both, p) <==> names_port(first, p) || names_port(second, p) by {
        assert forall|item: Seq<char>|
            (covers(both, item, p) <==> covers(first, item, p)) && (covers(both, item, p)
                <==> covers(second, item, p)) by {
            lemma_item_range_alone(both, first, item);
            lemma_item_range_alone(both, second, item);
        }
        if names_port(both, p) {
            let i = choose|i: int| 0 <= i < items.len() && covers(both, #[trigger] items[i], p);
            if i < a.len() {
                assert(covers(first, a[i], p));
            } else {
                assert(covers(second, b[i - a.len()], p));
            }
        }
        if names_port(first, p) {
            let i = choose|i: int| 0 <= i < a.len() && covers(first, #[trigger] a[i], p);
            assert(covers(both, items[i], p));
        }
        if names_port(second, p) {
            let i = choose|i: int| 0 <= i < b.len() && covers(second, #[trigger] b[i], p);
            assert(covers(both, items[a.len() + i], p));
        }
    }
}

/// The numeral of a port reads back as that port.
pub(crate) proof fn lemma_port_numeral(port: u16)
    requires
        port > 0,
    ensures
        port_of(crate::text::decimal(port as nat)) == Ok::<u16, PortFault>(port),
{
    let text = crate::text::decimal(port as nat);
    crate::text::lemma_decimal(port as nat);
    assert(crate::text::is_digit(text[0]));
    assert(text[0] != '+');
    lemma_leading_digits(text);
    assert(leading_digits(text) == text.len());
    assert(text.take(text.len() as int) =~= text);
}

/// The numeral of a port is accepted and names that port alone.
pub proof fn law_single_port(port: u16)
    requires
        port > 0,
    ensures
        accepted(crate::text::decimal(port as nat)),
        forall|p: u16| #[trigger]
            names_port(crate::text::decimal(port as nat), p) <==> p == port,
{
    let text = crate::text::decimal(port as nat);
    crate::text::lemma_decimal(port as nat);
    crate::text::lemma_decimal_without(port as nat, ',');
    crate::text::lemma_decimal_without(port as nat, '-');
    crate::text::lemma_split_whole(text, ',');
    crate::text::lemma_position(text, '-');
    if crate::text::position(text, '-') < text.len() {
        assert(text.contains(text[crate::text::position(text, '-') as int]));
    }
    lemma_port_numeral(port);
    assert(items_of(text)[0] == text);
    assert(item_range(text, text) == Ok::<(u16, u16), PortFault>((port, port)));
    assert forall|p: u16| #[trigger] names_port(text, p) <==> p == port by {
        if p == port {
            assert(covers(text, items_of(text)[0], p));
        }
    }
}

/// Two ports joined by a dash are accepted where they are not reversed, and then
/// name the ports from the first through the second.
pub proof fn law_port_range(start: u16, end: u16)
    requires
        start > 0,
        end > 0,
    ensures
        ({
            let range = crate::text::decimal(start as nat).push('-') + crate::text::decimal(
                end as nat,
            );
            &&& accepted(range) <==> start <= end
            &&& start > end ==> rejected_at(range, 0, PortFault::ReversedRange { item: range })
            &&& start <= end ==> forall|p: u16| #[trigger]
                names_port(range, p) <==> start <= p <= end
        }),
{
    let first = crate::text::decimal(start as nat);
    let last = crate::text::decimal(end as nat);
    let range = first.push('-') + last;
    crate::text::lemma_decimal_without(start as nat, ',');
    crate::text::lemma_decimal_without(end as nat, ',');
    crate::text::lemma_decimal_without(start as nat, '-');
    crate::text::lemma_decimal_without(end as nat, '-');
    assert(!range.contains(',')) by {
        if range.contains(',') {
            let i = range.index_of(',');
            if i < first.len() {
                assert(first[i] == ',');
            } else if i > first.len() {
                assert(last[i - first.len() - 1] == ',');
            }
        }
    }
    crate::text::lemma_split_whole(range, ',');
    assert(forall|i: int| 0 <= i < first.len() ==> #[trigger] range[i] == first[i]);
    assert forall|i: int| 0 <= i < first.len() implies #[trigger] range[i] != '-' by {
        assert(first.contains(first[i]));
    }
    crate::text::lemma_position_unique(range, '-', first.len() as int);
    assert(range.take(first.len() as int) =~= first);
    assert(range.skip(first.len() as int + 1) =~= last);
    lemma_port_numeral(start);
    lemma_port_numeral(end);
    assert(items_of(range)[0] == range);
    if start <= end {
        assert(item_range(range, range) == Ok::<(u16, u16), PortFault>((start, end)));
        assert forall|p: u16| #[trigger] names_port(range, p) <==> start <= p <= end by {
            if start <= p <= end {
                assert(covers(range, items_of(range)[0], p));
            }
        }
    } else {
        assert(item_range(range, items_of(range)[0]) is Err);
    }
}

/// A text that denotes a number consists of digits and a plus sign at most.
pub(crate) proof fn lemma_number_characters(text: Seq<char>)
    requires
        number_of(text) is Ok,
    ensures
        text.len() > 0,
        forall|i: int|
            0 <= i < text.len() ==> ('0' <= #[trigger] text[i] <= '9' || text[i] == '+'),
{
    let digits = if text[0] == '+' {
        text.drop_first()
    } else {
        text
    };
    lemma_leading_digits(digits);
    assert forall|i: int| 0 <= i < text.len() implies ('0' <= #[trigger] text[i] <= '9' || text[i]
        == '+') by {
        if text[0] == '+' {
            if i > 0 {
                assert(crate::text::is_digit(digits[i - 1]));
                assert(digits[i - 1] == text[i]);
            }
        } else {
            assert(crate::text::is_digit(digits[i]));
        }
    }
}

/// Digits and something else behind them: how many digits that starts with.
proof fn lemma_leading_digits_of(digits: Seq<char>, rest: Seq<char>)
    requires
        forall|i: int| 0 <= i < digits.len() ==> '0' <= #[trigger] digits[i] <= '9',
        rest.len() > 0 ==> !('0' <= rest[0] <= '9'),
    ensures
        leading_digits(digits + rest) == digits.len(),
        (digits + rest).take(digits.len() as int) == digits,
{
    let text = digits + rest;
    lemma_leading_digits(text);
    let count = leading_digits(text) as int;
    if count < digits.len() {
        assert(text[count] == digits[count]);
    } else if count > digits.len() {
        assert(text[digits.len() as int] == rest[0]);
        assert(crate::text::is_digit(text[digits.len() as int]));
    }
    assert(text.take(digits.len() as int) =~= digits);
}

/// How a number is read. Every text is covered: it is made of a plus sign or none, of
/// digits or none, and of a rest that is empty or starts with something else. There
/// must be a digit and no rest, and the digits must denote at most 65535. Where they
/// denote more, that is the fault, whatever the rest. A text without any character
/// is a fault of its own.
pub proof fn law_numbers(digits: Seq<char>, rest: Seq<char>)
    requires
        forall|i: int| 0 <= i < digits.len() ==> '0' <= #[trigger] digits[i] <= '9',
        rest.len() > 0 ==> !('0' <= rest[0] <= '9'),
    ensures
        number_of(Seq::empty()) == Err::<u16, NumberFault>(NumberFault::Empty),
        ({
            let value = crate::text::decimal_value(digits);
            let read = if value > 65535 {
                Err(NumberFault::TooLarge)
            } else if rest.len() > 0 || digits.len() == 0 {
                Err(NumberFault::InvalidDigit)
            } else {
                Ok(value as u16)
            };
            &&& digits.len() > 0 || rest.len() > 0 && rest[0] != '+' ==> number_of(digits + rest)
                == read
            &&& number_of(seq!['+'] + digits + rest) == read
        }),
{
    lemma_leading_digits_of(digits, rest);
    let text = digits + rest;
    let signed = seq!['+'] + digits + rest;
    assert(signed.drop_first() =~= text);
    assert(crate::text::decimal_value(Seq::empty()) == 0);
    if digits.len() > 0 {
        assert(text[0] == digits[0]);
    } else if rest.len() > 0 {
        assert(text[0] == rest[0]);
    }
}

/// A port is a number other than zero. Zero has a fault of its own, and what is no
/// number is refused with the text and the reason.
pub proof fn law_port(text: Seq<char>)
    ensures
        match number_of(text) {
            Ok(number) => number != 0 ==> port_of(text) == Ok::<u16, PortFault>(number),
            Err(reason) => port_of(text) == Err::<u16, PortFault>(
                PortFault::InvalidPort { text, reason },
            ),
        },
        number_of(text) == Ok::<u16, NumberFault>(0) ==> port_of(text) == Err::<u16, PortFault>(
            PortFault::PortZero,
        ),
{
}

/// A list of one item, which has no comma, names what the item names, and is refused
/// for what the item is refused for. With `law_comma_joins_lists` and
/// `law_first_fault_decides` this settles what any list names.
///
/// An item without a dash is one port. One with a dash is a range from the port before
/// the dash through the one behind it, unless there is another dash. The port before
/// the dash is looked at first.
pub proof fn law_one_item(item: Seq<char>, first: Seq<char>, last: Seq<char>)
    requires
        !item.contains(','),
        !first.contains(','),
        !first.contains('-'),
        !last.contains(','),
    ensures
        rejected_at(Seq::empty(), 0, PortFault::EmptyItem { input: Seq::empty() }),
        item.len() > 0 && !item.contains('-') ==> match port_of(item) {
            Ok(port) => {
                &&& accepted(item)
                &&& forall|p: u16| #[trigger] names_port(item, p) <==> p == port
            },
            Err(fault) => rejected_at(item, 0, fault),
        },
        ({
            let range = first + seq!['-'] + last;
            if last.contains('-') {
                rejected_at(range, 0, PortFault::MalformedRange { item: range })
            } else {
                match (port_of(first), port_of(last)) {
                    (Err(fault), _) => rejected_at(range, 0, fault),
                    (_, Err(fault)) => rejected_at(range, 0, fault),
                    (Ok(start), Ok(end)) => if start > end {
                        rejected_at(range, 0, PortFault::ReversedRange { item: range })
                    } else {
                        &&& accepted(range)
                        &&& forall|p: u16| #[trigger]
                            names_port(range, p) <==> start <= p <= end
                    },
                }
            }
        }),
{
    let range = first + seq!['-'] + last;
    let nothing = Seq::<char>::empty();
    crate::text::lemma_split_whole(nothing, ',');
    assert(items_of(nothing)[0] == nothing);
    if item.len() > 0 && !item.contains('-') {
        lemma_one_item(item);
        crate::text::lemma_position(item, '-');
        if crate::text::position(item, '-') < item.len() {
            assert(item.contains(item[crate::text::position(item, '-') as int]));
        }
    }
    assert(!range.contains(',')) by {
        if range.contains(',') {
            let i = range.index_of(',');
            if i < first.len() {
                assert(first[i] == ',');
            } else if i > first.len() {
                assert(last[i - first.len() - 1] == ',');
            }
        }
    }
    lemma_one_item(range);
    assert(forall|i: int| 0 <= i < first.len() ==> #[trigger] range[i] == first[i]);
    assert forall|i: int| 0 <= i < first.len() implies #[trigger] range[i] != '-' by {
        assert(first.contains(first[i]));
    }
    crate::text::lemma_position_unique(range, '-', first.len() as int);
    assert(range.take(first.len() as int) =~= first);
    assert(range.skip(first.len() as int + 1) =~= last);
}

/// A list of one item is that item.
proof fn lemma_one_item(item: Seq<char>)
    requires
        !item.contains(','),
    ensures
        accepted(item) <==> item_range(item, item) is Ok,
        forall|fault: PortFault| #[trigger]
            rejected_at(item, 0, fault) <==> item_range(item, item) == Err::<
                (u16, u16),
                PortFault,
            >(fault),
        forall|p: u16| #[trigger] names_port(item, p) <==> covers(item, item, p),
{
    crate::text::lemma_split_whole(item, ',');
    assert(items_of(item).len() == 1 && items_of(item)[0] == item);
    assert forall|p: u16| #[trigger] names_port(item, p) <==> covers(item, item, p) by {
        if covers(item, item, p) {
            assert(covers(item, items_of(item)[0], p));
        }
    }
}

/// The first item that is refused decides why a list is. In two lists joined by a
/// comma that is the one of the first list where there is one, and that of the second
/// list otherwise. Only an empty item is told with the whole list.
pub proof fn law_first_fault_decides(
    first: Seq<char>,
    second: Seq<char>,
    i: int,
    fault: PortFault,
)
    ensures
        ({
            let both = first + seq![','] + second;
            let told = if fault is EmptyItem {
                PortFault::EmptyItem { input: both }
            } else {
                fault
            };
            &&& rejected_at(first, i, fault) ==> rejected_at(both, i, told)
            &&& accepted(first) && rejected_at(second, i, fault) ==> rejected_at(
                both,
                items_of(first).len() + i,
                told,
            )
        }),
{
    let both = first + seq![','] + second;
    assert(both =~= first.push(',') + second);
    crate::text::lemma_split_join(first, ',', second);
    let a = items_of(first);
    let b = items_of(second);
    let items = items_of(both);
    assert(items == a + b);
    assert forall|item: Seq<char>|
        (item_range(both, item) is Ok <==> item_range(first, item) is Ok) && (item_range(
            both,
            item,
        ) is Ok <==> item_range(second, item) is Ok) by {
        lemma_item_range_alone(both, first, item);
        lemma_item_range_alone(both, second, item);
    }
    assert(forall|j: int| 0 <= j < a.len() ==> #[trigger] items[j] == a[j]);
    assert(forall|j: int| 0 <= j < b.len() ==> #[trigger] b[j] == items[a.len() + j]);
    let told = if fault is EmptyItem {
        PortFault::EmptyItem { input: both }
    } else {
        fault
    };
    if rejected_at(first, i, fault) {
        lemma_fault_of_item(first, both, a[i]);
        assert forall|j: int| 0 <= j < i implies item_range(both, #[trigger] items[j]) is Ok by {
            assert(item_range(first, a[j]) is Ok);
        }
    }
    if accepted(first) && rejected_at(second, i, fault) {
        lemma_fault_of_item(second, both, b[i]);
        let at = a.len() + i;
        assert(items[at] == b[i]);
        assert forall|j: int| 0 <= j < at implies item_range(both, #[trigger] items[j]) is Ok by {
            if j < a.len() {
                assert(item_range(first, a[j]) is Ok);
            } else {
                assert(items[j] == b[j - a.len()]);
                assert(item_range(second, b[j - a.len()]) is Ok);
            }
        }
    }
}

/// The fault of an item depends on the list it stands in only where the item is empty.
proof fn lemma_fault_of_item(input: Seq<char>, other: Seq<char>, item: Seq<char>)
    ensures
        item_range(input, item) matches Err(fault) ==> item_range(other, item) == Err::<
            (u16, u16),
            PortFault,
        >(
            if fault is EmptyItem {
                PortFault::EmptyItem { input: other }
            } else {
                fault
            },
        ),
{
}

/// A list is accepted exactly where no item is refused, and at most one item is the
/// first that is.
pub proof fn law_accepted_or_refused(
    input: Seq<char>,
    i: int,
    j: int,
    one: PortFault,
    other: PortFault,
)
    ensures
        rejected_at(input, i, one) ==> !accepted(input),
        rejected_at(input, i, one) && rejected_at(input, j, other) ==> i == j && one == other,
{
    if rejected_at(input, i, one) && rejected_at(input, j, other) {
        if i < j {
            assert(item_range(input, items_of(input)[i]) is Ok);
        } else if j < i {
            assert(item_range(input, items_of(input)[j]) is Ok);
        }
    }
}

/// What the messages of refused lists say.
pub proof fn law_port_messages(text: Seq<char>, reason: NumberFault)
    ensures
        port_fault_text(PortFault::EmptyItem { input: text }) == "empty port in "@
            + crate::text::debug_text(text),
        port_fault_text(PortFault::MalformedRange { item: text }) == "invalid port range "@
            + crate::text::debug_text(text),
        port_fault_text(PortFault::InvalidPort { text, reason }) == "invalid TCP port "@
            + crate::text::debug_text(text),
        port_fault_text(PortFault::PortZero) == "TCP port zero is not supported"@,
        port_fault_text(PortFault::ReversedRange { item: text }) == "reversed port range "@
            + crate::text::debug_text(text),
        number_fault_text(NumberFault::Empty) == "cannot parse integer from empty string"@,
        number_fault_text(NumberFault::InvalidDigit) == "invalid digit found in string"@,
        number_fault_text(NumberFault::TooLarge) == "number too large to fit in target type"@,
{
}

} // verus!
