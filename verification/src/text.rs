//! Characters, decimal numerals and separated lists: the notation in which
//! ports, addresses and messages are written.

use vstd::prelude::*;
use vstd::slice::slice_subrange;

verus! {

/// `String::push`: appends one character to the end of the string.
pub assume_specification[ String::push ](s: &mut String, c: char)
    ensures
        final(s)@ == old(s)@.push(c),
;

/// How `Debug` writes a text: in double quotes, with escapes.
pub uninterp spec fn debug_text(text: Seq<char>) -> Seq<char>;

/// `<str as Debug>::fmt`, through `format!`: the text in double quotes, escaped
/// by rules that depend on the text alone. What the escapes are is not stated.
#[verifier::external_body]
fn debug_string(text: &str) -> (s: String)
    ensures
        s@ == debug_text(text@),
{
    format!("{text:?}")
}

/// A prefix followed by a text in quotes.
pub fn debug_quoted(prefix: &str, text: &str) -> (s: String)
    ensures
        s@ == prefix@ + debug_text(text@),
{
    let mut s = prefix.to_string();
    s.append(debug_string(text).as_str());
    s
}

/// The index of the first `c` in `s`, or the length of `s` if there is none.
pub open spec fn position(s: Seq<char>, c: char) -> nat
    decreases s.len(),
{
    if s.len() == 0 {
        0
    } else if s[0] == c {
        0
    } else {
        1 + position(s.drop_first(), c)
    }
}

/// The pieces of `s` between the occurrences of `separator`, in order. A text
/// without a separator is one piece; pieces may be empty.
pub open spec fn split(s: Seq<char>, separator: char) -> Seq<Seq<char>>
    decreases s.len(),
{
    let at = position(s, separator);
    if at < s.len() {
        seq![s.take(at as int)] + split(s.skip(at as int + 1), separator)
    } else {
        seq![s]
    }
}

/// Whether `c` is one of the ten ASCII digits.
pub open spec fn is_digit(c: char) -> bool {
    '0' <= c && c <= '9'
}

/// The number that an ASCII digit stands for.
pub open spec fn digit_value(c: char) -> nat {
    if is_digit(c) {
        (c as int - '0' as int) as nat
    } else {
        0
    }
}

/// Whether `s` holds ASCII digits only.
pub open spec fn all_digits(s: Seq<char>) -> bool {
    forall|i: int| 0 <= i < s.len() ==> is_digit(#[trigger] s[i])
}

/// The number that a run of digits denotes in base ten; leading zeros count for
/// nothing.
pub open spec fn decimal_value(s: Seq<char>) -> nat
    decreases s.len(),
{
    if s.len() == 0 {
        0
    } else {
        decimal_value(s.drop_last()) * 10 + digit_value(s.last())
    }
}

/// The digit that denotes `d`, for `d` below ten.
pub open spec fn digit_char(d: nat) -> char {
    ('0' as int + d) as char
}

/// The shortest decimal numeral of `n`.
pub open spec fn decimal(n: nat) -> Seq<char>
    decreases n,
{
    if n < 10 {
        seq![digit_char(n)]
    } else {
        decimal(n / 10).push(digit_char(n % 10))
    }
}

/// An IPv4 address in dotted-quad notation, most significant octet first.
pub open spec fn dotted_quad(address: u32) -> Seq<char> {
    decimal(address as nat / 0x100_0000) + "."@ + decimal(address as nat / 0x1_0000 % 0x100) + "."@
        + decimal(address as nat / 0x100 % 0x100) + "."@ + decimal(address as nat % 0x100)
}

/// A host and a port as `host:port`.
pub open spec fn endpoint(host: u32, port: u16) -> Seq<char> {
    dotted_quad(host) + ":"@ + decimal(port as nat)
}

/// What `position` means: no earlier character is `c`, and the one at the
/// position is, if the position is inside the text.
pub proof fn lemma_position(s: Seq<char>, c: char)
    ensures
        position(s, c) <= s.len(),
        forall|i: int| 0 <= i < position(s, c) ==> #[trigger] s[i] != c,
        position(s, c) < s.len() ==> s[position(s, c) as int] == c,
    decreases s.len(),
{
    if s.len() > 0 && s[0] != c {
        let rest = s.drop_first();
        lemma_position(rest, c);
        assert forall|i: int| 0 <= i < position(s, c) implies #[trigger] s[i] != c by {
            if i > 0 {
                assert(s[i] == rest[i - 1]);
            }
        }
        if position(s, c) < s.len() {
            assert(s[position(s, c) as int] == rest[position(rest, c) as int]);
        }
    }
}

/// A position is determined by what it means.
pub proof fn lemma_position_unique(s: Seq<char>, c: char, at: int)
    requires
        0 <= at <= s.len(),
        forall|i: int| 0 <= i < at ==> #[trigger] s[i] != c,
        at < s.len() ==> s[at] == c,
    ensures
        position(s, c) == at,
{
    lemma_position(s, c);
    let p = position(s, c) as int;
    if p < at {
        assert(s[p] != c);
    } else if at < p {
        assert(s[at] != c);
    }
}

/// Appending a character multiplies by ten and adds the digit.
pub proof fn lemma_decimal_value_push(s: Seq<char>, c: char)
    ensures
        decimal_value(s.push(c)) == decimal_value(s) * 10 + digit_value(c),
{
    assert(s.push(c).drop_last() =~= s);
}

/// A prefix denotes at most what the whole denotes.
pub proof fn lemma_decimal_value_prefix(s: Seq<char>, k: int)
    requires
        0 <= k <= s.len(),
    ensures
        decimal_value(s.take(k)) <= decimal_value(s),
    decreases s.len(),
{
    if k < s.len() {
        lemma_decimal_value_prefix(s.drop_last(), k);
        assert(s.drop_last().take(k) =~= s.take(k));
    } else {
        assert(s.take(k) =~= s);
    }
}

/// The numeral of a number consists of digits, denotes that number, and is as
/// long as its size demands.
pub proof fn lemma_decimal(n: nat)
    ensures
        decimal(n).len() >= 1,
        all_digits(decimal(n)),
        decimal_value(decimal(n)) == n,
        n < 100 ==> decimal(n).len() <= 2,
        n < 1000 ==> decimal(n).len() <= 3,
    decreases n,
{
    reveal_with_fuel(decimal_value, 2);
    if n < 10 {
        assert(decimal(n).drop_last() =~= Seq::<char>::empty());
    } else {
        lemma_decimal(n / 10);
        lemma_decimal_value_push(decimal(n / 10), digit_char(n % 10));
        if n < 1000 {
            if n < 100 {
                reveal_with_fuel(decimal, 2);
            }
        }
    }
}

/// A text without the separator is one piece.
pub proof fn lemma_split_whole(s: Seq<char>, separator: char)
    requires
        !s.contains(separator),
    ensures
        split(s, separator) == seq![s],
{
    lemma_position(s, separator);
    if position(s, separator) < s.len() {
        assert(s.contains(s[position(s, separator) as int]));
    }
}

/// The pieces of two texts joined by a separator are the pieces of the first,
/// then those of the second.
pub proof fn lemma_split_join(first: Seq<char>, separator: char, second: Seq<char>)
    ensures
        split(first.push(separator) + second, separator) == split(first, separator) + split(
            second,
            separator,
        ),
    decreases first.len(),
{
    let whole = first.push(separator) + second;
    let at = position(first, separator) as int;
    lemma_position(first, separator);
    assert(forall|i: int| 0 <= i < first.len() ==> #[trigger] whole[i] == first[i]);
    lemma_position_unique(whole, separator, at);
    if at < first.len() {
        let rest = first.skip(at + 1);
        lemma_split_join(rest, separator, second);
        assert(whole.take(at) =~= first.take(at));
        assert(whole.skip(at + 1) =~= rest.push(separator) + second);
        assert(split(whole, separator) =~= split(first, separator) + split(second, separator));
    } else {
        assert(whole.take(at) =~= first);
        assert(whole.skip(at + 1) =~= second);
    }
}

/// A numeral holds no character that is not a digit.
pub proof fn lemma_decimal_without(n: nat, c: char)
    requires
        !is_digit(c),
    ensures
        !decimal(n).contains(c),
{
    lemma_decimal(n);
}

/// Reads a text as a sequence of characters.
pub fn chars_of(s: &str) -> (chars: Vec<char>)
    ensures
        chars@ == s@,
{
    let mut chars: Vec<char> = Vec::new();
    for c in it: s.chars()
        invariant
            chars@ == it.seq().take(it.index()),
            it.seq() == s@,
    {
        chars.push(c);
    }
    chars
}

/// Builds the string with the given characters.
pub fn string_of(chars: &[char]) -> (s: String)
    ensures
        s@ == chars@,
{
    let mut s: String = String::new();
    let mut i: usize = 0;
    while i < chars.len()
        invariant
            i <= chars@.len(),
            s@ == chars@.take(i as int),
        decreases chars@.len() - i,
    {
        s.push(chars[i]);
        i = i + 1;
    }
    assert(chars@.take(chars@.len() as int) =~= chars@);
    s
}

/// Finds the first `c`, or the length of the text.
pub fn find(s: &[char], c: char) -> (at: usize)
    ensures
        at == position(s@, c),
{
    let mut at: usize = 0;
    while at < s.len() && s[at] != c
        invariant
            at <= s@.len(),
            forall|i: int| 0 <= i < at ==> #[trigger] s@[i] != c,
        decreases s@.len() - at,
    {
        at = at + 1;
    }
    proof {
        lemma_position_unique(s@, c, at as int);
    }
    at
}

/// Splits a text at each separator.
pub fn split_at_each<'a>(s: &'a [char], separator: char) -> (parts: Vec<&'a [char]>)
    ensures
        parts@.map_values(|part: &[char]| part@) == split(s@, separator),
{
    let mut parts: Vec<&'a [char]> = Vec::new();
    let mut rest: &'a [char] = s;
    let ghost view = |part: &[char]| part@;
    loop
        invariant_except_break
            view == (|part: &[char]| part@),
            split(s@, separator) == parts@.map_values(view) + split(rest@, separator),
        invariant
            view == (|part: &[char]| part@),
        ensures
            split(s@, separator) == parts@.map_values(view),
        decreases rest@.len(),
    {
        let at = find(rest, separator);
        let ghost before = parts@;
        proof {
            lemma_position(rest@, separator);
        }
        if at < rest.len() {
            let part = slice_subrange(rest, 0, at);
            let tail = slice_subrange(rest, at + 1, rest.len());
            proof {
                assert(part@ =~= rest@.take(at as int));
                assert(tail@ =~= rest@.skip(at + 1));
                assert(before.push(part).map_values(view) =~= before.map_values(view).push(part@));
                assert(split(rest@, separator) =~= seq![part@] + split(tail@, separator));
            }
            parts.push(part);
            rest = tail;
        } else {
            proof {
                assert(before.push(rest).map_values(view) =~= before.map_values(view).push(rest@));
                assert(split(rest@, separator) =~= seq![rest@]);
            }
            parts.push(rest);
            break;
        }
    }
    parts
}

/// Writes a number in base ten.
pub fn decimal_text(n: u64) -> (s: String)
    ensures
        s@ == decimal(n as nat),
    decreases n,
{
    let mut s = if n < 10 {
        String::new()
    } else {
        decimal_text(n / 10)
    };
    let digit = (48u8 + (n % 10) as u8) as char;
    s.push(digit);
    s
}

/// Writes an address in dotted-quad notation.
pub fn dotted_text(address: u32) -> (s: String)
    ensures
        s@ == dotted_quad(address),
{
    let mut s = decimal_text((address / 0x100_0000) as u64);
    s.append(".");
    s.append(decimal_text((address / 0x1_0000 % 0x100) as u64).as_str());
    s.append(".");
    s.append(decimal_text((address / 0x100 % 0x100) as u64).as_str());
    s.append(".");
    s.append(decimal_text((address % 0x100) as u64).as_str());
    s
}

/// Writes a host and a port.
pub fn endpoint_text(host: u32, port: u16) -> (s: String)
    ensures
        s@ == endpoint(host, port),
{
    let mut s = dotted_text(host);
    s.append(":");
    s.append(decimal_text(port as u64).as_str());
    s
}

/// No digits denote zero, and a digit behind others adds its number to ten times
/// theirs.
pub proof fn law_decimal_value(digits: Seq<char>, digit: char)
    requires
        '0' <= digit <= '9',
    ensures
        decimal_value(Seq::empty()) == 0,
        decimal_value(digits.push(digit)) == 10 * decimal_value(digits) + (digit as int - 48),
{
    lemma_decimal_value_push(digits, digit);
}

/// The numeral of a number denotes that number, consists of the digits from zero
/// through nine, and starts with a zero only where it is the numeral of zero, which
/// has one digit.
pub proof fn law_numeral(n: nat)
    ensures
        decimal_value(decimal(n)) == n,
        decimal(n).len() >= 1,
        forall|i: int| 0 <= i < decimal(n).len() ==> '0' <= #[trigger] decimal(n)[i] <= '9',
        decimal(n)[0] == '0' <==> n == 0,
        n == 0 ==> decimal(n).len() == 1,
    decreases n,
{
    lemma_decimal(n);
    assert forall|i: int| 0 <= i < decimal(n).len() implies '0' <= #[trigger] decimal(n)[i]
        <= '9' by {
        assert(is_digit(decimal(n)[i]));
    }
    if n >= 10 {
        law_numeral(n / 10);
    }
}

/// An address is written as its octets, from the most significant on, with dots
/// between them, and a host and port with a colon between them.
pub proof fn law_notation(a: nat, b: nat, c: nat, d: nat, port: u16)
    requires
        a < 256,
        b < 256,
        c < 256,
        d < 256,
    ensures
        ({
            let host = (a * 0x100_0000 + b * 0x1_0000 + c * 0x100 + d) as u32;
            let quad = decimal(a) + seq!['.'] + decimal(b) + seq!['.'] + decimal(c) + seq!['.']
                + decimal(d);
            &&& dotted_quad(host) == quad
            &&& endpoint(host, port) == quad + seq![':'] + decimal(port as nat)
        }),
{
    reveal_strlit(".");
    reveal_strlit(":");
    assert("."@ =~= seq!['.']);
    assert(":"@ =~= seq![':']);
    lemma_octets_of(a, b, c, d);
}

/// The octets that make an address are those that it is written with.
proof fn lemma_octets_of(a: nat, b: nat, c: nat, d: nat)
    requires
        a < 256,
        b < 256,
        c < 256,
        d < 256,
    ensures
        ({
            let host = (a * 0x100_0000 + b * 0x1_0000 + c * 0x100 + d) as u32;
            &&& host as nat / 0x100_0000 == a
            &&& host as nat / 0x1_0000 % 0x100 == b
            &&& host as nat / 0x100 % 0x100 == c
            &&& host as nat % 0x100 == d
        }),
{
    let whole = a * 0x100_0000 + b * 0x1_0000 + c * 0x100 + d;
    assert(whole < 0x1_0000_0000);
    assert(whole / 0x100 == a * 0x1_0000 + b * 0x100 + c);
    assert(whole / 0x1_0000 == a * 0x100 + b);
}

/// A text that has a separator is its first piece, the separator, and a rest that has
/// the other pieces.
pub proof fn lemma_split_first(s: Seq<char>, separator: char) -> (rest: Seq<char>)
    requires
        split(s, separator).len() > 1,
    ensures
        s == split(s, separator)[0] + seq![separator] + rest,
        split(s, separator) == seq![split(s, separator)[0]] + split(rest, separator),
{
    lemma_position(s, separator);
    let at = position(s, separator) as int;
    let rest = s.skip(at + 1);
    assert(s =~= s.take(at) + seq![separator] + rest);
    rest
}

/// A text that is one piece is that piece.
pub proof fn lemma_split_only(s: Seq<char>, separator: char)
    requires
        split(s, separator).len() == 1,
    ensures
        split(s, separator)[0] == s,
{
    lemma_position(s, separator);
    if position(s, separator) < s.len() {
        let rest = s.skip(position(s, separator) as int + 1);
        assert(split(rest, separator).len() > 0);
    }
}

} // verus!
