//! Scan targets: IPv4 addresses, and networks in CIDR notation.
//!
//! An address is a `u32` whose most significant byte is the first octet.

use vstd::prelude::*;

use crate::text::{chars_of, decimal_text, dotted_text, find};

verus! {

/// The most probes that one scan may send, and the most addresses that one
/// network may expand to: the usable addresses of a `/8`.
pub const MAX_PROBES: usize = 16_777_214;

/// An IPv4 network: one of its addresses, and how many leading bits they all
/// share.
#[derive(Clone, Copy, Debug, PartialEq, Eq, Structural)]
pub struct Ipv4Network {
    /// An address of the network, host bits included.
    pub address: u32,
    /// The number of leading bits that the addresses share.
    pub prefix: u8,
}

/// Why a target is rejected.
#[derive(Clone, Copy, Debug, PartialEq, Eq, Structural)]
pub enum TargetError {
    /// The text has a slash and is no network in CIDR notation.
    InvalidNetwork,
    /// The text has no slash and is no address.
    InvalidAddress,
    /// The network has more usable addresses than a `/8`.
    TooManyAddresses {
        /// The network.
        network: Ipv4Network,
    },
}

/// `ipnet::AddrParseError`: that a text is no network.
#[verifier::external_type_specification]
#[verifier::external_body]
pub struct ExAddrParseError(ipnet::AddrParseError);

/// The number that `text` denotes, if it is made of one to `max_digits` digits
/// and denotes a number below `limit`.
pub open spec fn numeral(text: Seq<char>, max_digits: nat, limit: nat) -> Option<nat> {
    if 1 <= text.len() <= max_digits && crate::text::all_digits(text) && crate::text::decimal_value(
        text,
    ) < limit {
        Some(crate::text::decimal_value(text))
    } else {
        None
    }
}

/// The address with the given octets.
pub open spec fn address_of(a: nat, b: nat, c: nat, d: nat) -> u32 {
    (a * 0x100_0000 + b * 0x1_0000 + c * 0x100 + d) as u32
}

/// The network that a text denotes in CIDR notation, `a.b.c.d/prefix`.
pub open spec fn network_of(text: Seq<char>) -> Option<Ipv4Network> {
    let halves = crate::text::split(text, '/');
    let octets = crate::text::split(halves[0], '.');
    if halves.len() == 2 && octets.len() == 4 {
        match (
            numeral(octets[0], 3, 256),
            numeral(octets[1], 3, 256),
            numeral(octets[2], 3, 256),
            numeral(octets[3], 3, 256),
            numeral(halves[1], 2, 33),
        ) {
            (Some(a), Some(b), Some(c), Some(d), Some(prefix)) => Some(
                Ipv4Network { address: address_of(a, b, c, d), prefix: prefix as u8 },
            ),
            _ => None,
        }
    } else {
        None
    }
}

/// How many addresses a network has.
pub open spec fn network_size(network: Ipv4Network) -> nat {
    vstd::arithmetic::power2::pow2((32 - network.prefix) as nat)
}

/// The first address of a network.
pub open spec fn network_base(network: Ipv4Network) -> int {
    network.address - network.address as int % network_size(network) as int
}

/// How many addresses of a network with the given prefix are usable: all but
/// the first and the last, except in a `/31` and a `/32`.
pub open spec fn usable_count(prefix: u8) -> nat {
    if prefix >= 31 {
        vstd::arithmetic::power2::pow2((32 - prefix) as nat)
    } else {
        (vstd::arithmetic::power2::pow2((32 - prefix) as nat) - 2) as nat
    }
}

/// The usable addresses of a network, in ascending order.
pub open spec fn usable_hosts(network: Ipv4Network) -> Seq<u32> {
    let first = if network.prefix >= 31 {
        network_base(network)
    } else {
        network_base(network) + 1
    };
    Seq::new(usable_count(network.prefix), |i: int| (first + i) as u32)
}

/// The targets that a text stands for: the usable addresses of a network, or
/// one address. Networks larger than a `/8` are rejected.
pub open spec fn targets_of(input: Seq<char>) -> Result<Seq<u32>, TargetError> {
    if input.contains('/') {
        match network_of(input) {
            None => Err(TargetError::InvalidNetwork),
            Some(network) => network_targets(network),
        }
    } else {
        match network_of(input + "/32"@) {
            None => Err(TargetError::InvalidAddress),
            Some(network) => network_targets(network),
        }
    }
}

/// The targets in a network, unless it is too large.
pub open spec fn network_targets(network: Ipv4Network) -> Result<Seq<u32>, TargetError> {
    if network.prefix < 8 {
        Err(TargetError::TooManyAddresses { network })
    } else {
        Ok(usable_hosts(network))
    }
}

/// A network in CIDR notation.
pub open spec fn network_text(network: Ipv4Network) -> Seq<char> {
    crate::text::dotted_quad(network.address) + "/"@ + crate::text::decimal(network.prefix as nat)
}

/// The text that describes a rejected target.
pub open spec fn target_error_text(error: TargetError) -> Seq<char> {
    match error {
        TargetError::InvalidNetwork => "invalid IPv4 network"@,
        TargetError::InvalidAddress => "invalid IPv4 address"@,
        TargetError::TooManyAddresses { network } => network_text(network) + " contains more than "@
            + crate::text::decimal(MAX_PROBES as nat)
            + " usable addresses; split networks larger than a /8"@,
    }
}

impl TargetError {
    /// Describes the error in one line.
    pub fn message(&self) -> (text: String)
        ensures
            text@ == target_error_text(*self),
    {
        match self {
            TargetError::InvalidNetwork => "invalid IPv4 network".to_string(),
            TargetError::InvalidAddress => "invalid IPv4 address".to_string(),
            TargetError::TooManyAddresses { network } => {
                let mut text = dotted_text(network.address);
                text.append("/");
                text.append(decimal_text(network.prefix as u64).as_str());
                text.append(" contains more than ");
                text.append(decimal_text(MAX_PROBES as u64).as_str());
                text.append(" usable addresses; split networks larger than a /8");
                text
            },
        }
    }
}

/// `<ipnet::Ipv4Net as FromStr>::from_str`: reads CIDR notation, four octets of
/// one to three digits with dots between them, a slash and a prefix length of
/// one or two digits, and nothing else. Leading zeros are allowed. The result
/// holds what `Ipv4Net::addr` and `Ipv4Net::prefix_len` return.
#[verifier::external_body]
fn ipv4_net_from_str(text: &str) -> (network: Result<(u32, u8), ipnet::AddrParseError>)
    ensures
        match network {
            Ok((address, prefix)) => network_of(text@) == Some(Ipv4Network { address, prefix }),
            Err(_) => network_of(text@) is None,
        },
{
    text.parse::<ipnet::Ipv4Net>().map(|network| (u32::from(network.addr()), network.prefix_len()))
}

/// `ipnet::Ipv4Net::hosts`: the addresses of the network in ascending order,
/// without the first and the last where the prefix is shorter than 31 bits.
#[verifier::external_body]
fn ipv4_net_hosts(network: Ipv4Network) -> (hosts: Vec<u32>)
    requires
        8 <= network.prefix <= 32,
    ensures
        hosts@ == usable_hosts(network),
{
    let net = ipnet::Ipv4Net::new(network.address.into(), network.prefix).unwrap();
    net.hosts().map(u32::from).collect()
}

/// A prefix has at most 32 bits.
proof fn lemma_network_prefix(text: Seq<char>)
    ensures
        network_of(text) matches Some(network) ==> network.prefix <= 32,
{
}

/// Which networks fit the limit.
proof fn lemma_usable_count(prefix: u8)
    requires
        prefix <= 32,
    ensures
        usable_count(prefix) <= MAX_PROBES <==> prefix >= 8,
        usable_count(prefix) < 0x1_0000_0000,
{
    broadcast use vstd::arithmetic::power2::lemma_pow2_strictly_increases;

    vstd::arithmetic::power2::lemma2_to64();
    let bits = (32 - prefix) as nat;
    if bits < 24 {
        assert(vstd::arithmetic::power2::pow2(bits) < vstd::arithmetic::power2::pow2(24));
    } else if bits > 24 {
        if bits > 25 {
            assert(vstd::arithmetic::power2::pow2(25) < vstd::arithmetic::power2::pow2(bits));
        }
        if bits < 32 {
            assert(vstd::arithmetic::power2::pow2(bits) < vstd::arithmetic::power2::pow2(32));
        }
    }
}

impl Ipv4Network {
    /// Reads a network in CIDR notation.
    pub fn parse(text: &str) -> (network: Option<Ipv4Network>)
        ensures
            network == network_of(text@),
    {
        match ipv4_net_from_str(text) {
            Ok((address, prefix)) => Some(Ipv4Network { address, prefix }),
            Err(_) => None,
        }
    }
}

/// Counts the usable addresses of a network: `None` where the prefix is longer
/// than an address, or where the count does not fit in a `usize`.
pub fn usable_target_count(network: Ipv4Network) -> (count: Option<usize>)
    ensures
        count == (if network.prefix <= 32 && 32 - network.prefix < usize::BITS {
            Some(usable_count(network.prefix) as usize)
        } else {
            None
        }),
        count matches Some(n) ==> n == usable_count(network.prefix),
{
    if network.prefix > 32 {
        return None;
    }
    proof {
        vstd::arithmetic::power2::lemma2_to64();
    }
    let host_bits: u32 = 32 - network.prefix as u32;
    match host_bits {
        0 => Some(1),
        1 => Some(2),
        bits => {
            if bits >= usize::BITS {
                None
            } else {
                let shift: usize = bits as usize;
                proof {
                    vstd::bits::lemma_usize_pow2_no_overflow(shift as nat);
                    vstd::bits::lemma_usize_shl_is_mul(1usize, shift);
                    vstd::arithmetic::power2::lemma_pow2_strictly_increases(1, shift as nat);
                }
                Some((1usize << shift) - 2)
            }
        },
    }
}

/// Expands a network into its usable addresses.
fn expand(network: Ipv4Network) -> (targets: Result<Vec<u32>, TargetError>)
    requires
        network.prefix <= 32,
    ensures
        match network_targets(network) {
            Ok(hosts) => targets matches Ok(v) && v@ == hosts,
            Err(error) => targets == Err::<Vec<u32>, TargetError>(error),
        },
{
    proof {
        lemma_usable_count(network.prefix);
    }
    match usable_target_count(network) {
        Some(count) if count <= MAX_PROBES => Ok(ipv4_net_hosts(network)),
        _ => Err(TargetError::TooManyAddresses { network }),
    }
}

/// Expands an IPv4 address or CIDR into scan targets.
///
/// Network and broadcast addresses are omitted for prefixes through `/30`. Both
/// addresses of a `/31` are included, as is the single address of a `/32`.
pub fn parse_targets(input: &str) -> (targets: Result<Vec<u32>, TargetError>)
    ensures
        match targets_of(input@) {
            Ok(hosts) => targets matches Ok(v) && v@ == hosts,
            Err(error) => targets == Err::<Vec<u32>, TargetError>(error),
        },
{
    let chars = chars_of(input);
    let slash = find(chars.as_slice(), '/');
    proof {
        crate::text::lemma_position(input@, '/');
        if slash < chars@.len() {
            assert(input@[slash as int] == '/');
        }
    }
    if slash < chars.len() {
        proof {
            lemma_network_prefix(input@);
        }
        match Ipv4Network::parse(input) {
            None => Err(TargetError::InvalidNetwork),
            Some(network) => expand(network),
        }
    } else {
        let mut text = input.to_string();
        text.append("/32");
        proof {
            lemma_network_prefix(text@);
        }
        match Ipv4Network::parse(text.as_str()) {
            None => Err(TargetError::InvalidAddress),
            Some(network) => expand(network),
        }
    }
}

/// The numeral of a small number reads back as that number.
proof fn lemma_numeral(n: nat)
    ensures
        n < 256 ==> numeral(crate::text::decimal(n), 3, 256) == Some(n),
        n < 33 ==> numeral(crate::text::decimal(n), 2, 33) == Some(n),
{
    crate::text::lemma_decimal(n);
}

/// A dotted quad has four pieces, the numerals of its octets, and no slash.
proof fn lemma_dotted_quad(address: u32)
    ensures
        crate::text::split(crate::text::dotted_quad(address), '.') == seq![
            crate::text::decimal(address as nat / 0x100_0000),
            crate::text::decimal(address as nat / 0x1_0000 % 0x100),
            crate::text::decimal(address as nat / 0x100 % 0x100),
            crate::text::decimal(address as nat % 0x100),
        ],
        !crate::text::dotted_quad(address).contains('/'),
{
    reveal_strlit(".");
    let a = crate::text::decimal(address as nat / 0x100_0000);
    let b = crate::text::decimal(address as nat / 0x1_0000 % 0x100);
    let c = crate::text::decimal(address as nat / 0x100 % 0x100);
    let d = crate::text::decimal(address as nat % 0x100);
    let dot = '.';
    let quad = crate::text::dotted_quad(address);
    assert(quad =~= a.push(dot) + (b.push(dot) + (c.push(dot) + d)));
    crate::text::lemma_decimal_without(address as nat / 0x100_0000, dot);
    crate::text::lemma_decimal_without(address as nat / 0x1_0000 % 0x100, dot);
    crate::text::lemma_decimal_without(address as nat / 0x100 % 0x100, dot);
    crate::text::lemma_decimal_without(address as nat % 0x100, dot);
    crate::text::lemma_split_join(a, dot, b.push(dot) + (c.push(dot) + d));
    crate::text::lemma_split_join(b, dot, c.push(dot) + d);
    crate::text::lemma_split_join(c, dot, d);
    crate::text::lemma_split_whole(a, dot);
    crate::text::lemma_split_whole(b, dot);
    crate::text::lemma_split_whole(c, dot);
    crate::text::lemma_split_whole(d, dot);
    assert(crate::text::split(quad, dot) =~= seq![a, b, c, d]);
    crate::text::lemma_decimal_without(address as nat / 0x100_0000, '/');
    crate::text::lemma_decimal_without(address as nat / 0x1_0000 % 0x100, '/');
    crate::text::lemma_decimal_without(address as nat / 0x100 % 0x100, '/');
    crate::text::lemma_decimal_without(address as nat % 0x100, '/');
    if quad.contains('/') {
        let i = quad.index_of('/');
        let j = i - a.len() - 1;
        let k = j - b.len() - 1;
        let l = k - c.len() - 1;
        if i < a.len() {
            assert(a[i] == '/');
        } else if 0 <= j < b.len() {
            assert(b[j] == '/');
        } else if 0 <= k < c.len() {
            assert(c[k] == '/');
        } else if 0 <= l {
            assert(d[l] == '/');
        }
    }
}

/// An address is made of its octets.
proof fn lemma_octets(address: u32)
    ensures
        ({
            let n = address as nat;
            &&& address_of(n / 0x100_0000, n / 0x1_0000 % 0x100, n / 0x100 % 0x100, n % 0x100)
                == address
            &&& n / 0x100_0000 < 256
        }),
{
}

/// The two halves of a network in CIDR notation.
proof fn lemma_network_halves(network: Ipv4Network)
    ensures
        crate::text::split(network_text(network), '/') == seq![
            crate::text::dotted_quad(network.address),
            crate::text::decimal(network.prefix as nat),
        ],
        network_text(network).contains('/'),
{
    reveal_strlit("/");
    let quad = crate::text::dotted_quad(network.address);
    let prefix = crate::text::decimal(network.prefix as nat);
    let text = network_text(network);
    assert(text =~= quad.push('/') + prefix);
    lemma_dotted_quad(network.address);
    crate::text::lemma_decimal_without(network.prefix as nat, '/');
    crate::text::lemma_split_join(quad, '/', prefix);
    crate::text::lemma_split_whole(quad, '/');
    crate::text::lemma_split_whole(prefix, '/');
    assert(seq![quad] + seq![prefix] =~= seq![quad, prefix]);
    assert(text[quad.len() as int] == '/');
}

/// A network in CIDR notation reads back as that network.
pub proof fn law_network_notation(network: Ipv4Network)
    requires
        network.prefix <= 32,
    ensures
        network_of(network_text(network)) == Some(network),
        targets_of(network_text(network)) == network_targets(network),
{
    lemma_network_halves(network);
    lemma_dotted_quad(network.address);
    lemma_octets(network.address);
    let n = network.address as nat;
    lemma_numeral(n / 0x100_0000);
    lemma_numeral(n / 0x1_0000 % 0x100);
    lemma_numeral(n / 0x100 % 0x100);
    lemma_numeral(n % 0x100);
    lemma_numeral(network.prefix as nat);
}

/// An address in dotted-quad notation stands for itself.
pub proof fn law_address_notation(address: u32)
    ensures
        targets_of(crate::text::dotted_quad(address)) == Ok::<Seq<u32>, TargetError>(seq![address]),
{
    let network = Ipv4Network { address, prefix: 32 };
    lemma_dotted_quad(address);
    law_network_notation(network);
    lemma_prefix_of_address(network);
    vstd::arithmetic::power2::lemma2_to64();
    assert(usable_hosts(network) =~= seq![address]);
}

/// An address with `/32` behind it is the network of that address alone.
proof fn lemma_prefix_of_address(network: Ipv4Network)
    requires
        network.prefix == 32,
    ensures
        crate::text::dotted_quad(network.address) + "/32"@ == network_text(network),
{
    reveal_strlit("/");
    reveal_strlit("/32");
    assert(crate::text::decimal(32) =~= seq!['3', '2']) by {
        reveal_with_fuel(crate::text::decimal, 2);
    }
    let quad = crate::text::dotted_quad(network.address);
    assert(quad + "/32"@ =~= quad + "/"@ + crate::text::decimal(32));
}

/// The size of a network divides the space of addresses.
proof fn lemma_network_fits(network: Ipv4Network)
    requires
        network.prefix <= 32,
    ensures
        0 < network_size(network) <= 0x1_0000_0000,
        0 <= network_base(network) <= network.address,
        network.address < network_base(network) + network_size(network),
        network_base(network) + network_size(network) <= 0x1_0000_0000,
        network_base(network) % network_size(network) as int == 0,
        network.prefix >= 31 ==> network_size(network) == usable_count(network.prefix),
        network.prefix <= 30 ==> network_size(network) == usable_count(network.prefix) + 2,
        usable_count(network.prefix) >= 1,
{
    broadcast use vstd::arithmetic::power2::lemma_pow2_strictly_increases;

    vstd::arithmetic::power2::lemma2_to64();
    let bits = (32 - network.prefix) as nat;
    let size = network_size(network) as int;
    let prefix_count = vstd::arithmetic::power2::pow2(network.prefix as nat) as int;
    vstd::arithmetic::power2::lemma_pow2_adds(bits, network.prefix as nat);
    vstd::arithmetic::power2::lemma_pow2_pos(bits);
    assert(size * prefix_count == 0x1_0000_0000);
    let address = network.address as int;
    vstd::arithmetic::div_mod::lemma_fundamental_div_mod(address, size);
    let q = address / size;
    assert(network_base(network) == size * q);
    vstd::arithmetic::div_mod::lemma_mod_multiples_basic(q, size);
    vstd::arithmetic::mul::lemma_mul_is_commutative(q, size);
    assert(q < prefix_count) by (nonlinear_arith)
        requires
            size * q <= address,
            address < size * prefix_count,
            size > 0,
    ;
    assert(size * q + size <= size * prefix_count) by (nonlinear_arith)
        requires
            q + 1 <= prefix_count,
            size > 0,
    ;
    assert(0 <= size * q) by (nonlinear_arith)
        requires
            0 <= q,
            size > 0,
    ;
    if bits >= 2 {
        assert(bits == 2 || vstd::arithmetic::power2::pow2(2) < vstd::arithmetic::power2::pow2(
            bits,
        ));
    }
    if bits < 32 {
        assert(vstd::arithmetic::power2::pow2(bits) < vstd::arithmetic::power2::pow2(32));
    }
}

/// The usable addresses of a network are in ascending order and lie in the network.
/// The first and the last address of the network are left out, except of a `/31`
/// and a `/32`; no other address of the network is.
pub proof fn law_usable_hosts(network: Ipv4Network, address: u32)
    requires
        network.prefix <= 32,
    ensures
        ({
            let hosts = usable_hosts(network);
            let base = network_base(network);
            let size = network_size(network);
            &&& hosts.len() == usable_count(network.prefix)
            &&& forall|i: int, j: int| 0 <= i < j < hosts.len() ==> hosts[i] < hosts[j]
            &&& hosts.no_duplicates()
            &&& hosts.contains(address) <==> if network.prefix <= 30 {
                base < address < base + size - 1
            } else {
                base <= address < base + size
            }
        }),
{
    lemma_network_fits(network);
    let hosts = usable_hosts(network);
    let first = if network.prefix >= 31 {
        network_base(network)
    } else {
        network_base(network) + 1
    };
    assert forall|i: int| 0 <= i < hosts.len() implies #[trigger] hosts[i] == first + i by {}
    if first <= address < first + hosts.len() {
        assert(hosts[address - first] == address);
    }
}

/// The host bits of a network do not matter: networks of one prefix that start at
/// the same address have the same usable addresses.
pub proof fn law_host_bits_do_not_matter(network: Ipv4Network, address: u32)
    requires
        network.prefix <= 32,
        network_base(network) <= address < network_base(network) + network_size(network),
    ensures
        usable_hosts(Ipv4Network { address, prefix: network.prefix }) == usable_hosts(network),
{
    lemma_network_fits(network);
    let size = network_size(network) as int;
    let base = network_base(network);
    vstd::arithmetic::div_mod::lemma_fundamental_div_mod(base, size);
    vstd::arithmetic::mul::lemma_mul_is_commutative(size, base / size);
    vstd::arithmetic::div_mod::lemma_fundamental_div_mod_converse(
        address as int,
        size,
        base / size,
        address - base,
    );
    assert(network_base(Ipv4Network { address, prefix: network.prefix }) == base);
    assert(usable_hosts(Ipv4Network { address, prefix: network.prefix }) =~= usable_hosts(network));
}

/// Targets that are accepted are at least one and at most as many as a scan of one
/// port may probe, and none of them occurs twice.
pub proof fn law_accepted_targets(input: Seq<char>)
    ensures
        targets_of(input) matches Ok(targets) ==> {
            &&& 1 <= targets.len() <= MAX_PROBES
            &&& targets.no_duplicates()
        },
{
    if targets_of(input) is Ok {
        let network = if input.contains('/') {
            network_of(input)->0
        } else {
            network_of(input + "/32"@)->0
        };
        lemma_network_prefix(input);
        lemma_network_prefix(input + "/32"@);
        lemma_usable_count(network.prefix);
        lemma_network_fits(network);
        law_usable_hosts(network, 0);
    }
}

/// Four texts without dots or slashes, joined by dots, are split at the dots again.
proof fn lemma_join_octets(a: Seq<char>, b: Seq<char>, c: Seq<char>, d: Seq<char>)
    requires
        crate::text::all_digits(a),
        crate::text::all_digits(b),
        crate::text::all_digits(c),
        crate::text::all_digits(d),
    ensures
        ({
            let quad = a + seq!['.'] + b + seq!['.'] + c + seq!['.'] + d;
            &&& crate::text::split(quad, '.') == seq![a, b, c, d]
            &&& !quad.contains('/')
        }),
{
    let quad = a + seq!['.'] + b + seq!['.'] + c + seq!['.'] + d;
    let three = b.push('.') + (c.push('.') + d);
    assert(quad =~= a.push('.') + three);
    assert(!a.contains('.') && !b.contains('.') && !c.contains('.') && !d.contains('.'));
    crate::text::lemma_split_join(a, '.', three);
    crate::text::lemma_split_join(b, '.', c.push('.') + d);
    crate::text::lemma_split_join(c, '.', d);
    crate::text::lemma_split_whole(a, '.');
    crate::text::lemma_split_whole(b, '.');
    crate::text::lemma_split_whole(c, '.');
    crate::text::lemma_split_whole(d, '.');
    assert(crate::text::split(quad, '.') =~= seq![a, b, c, d]);
    if quad.contains('/') {
        let i = quad.index_of('/');
        let j = i - a.len() - 1;
        let k = j - b.len() - 1;
        let l = k - c.len() - 1;
        if i < a.len() {
            assert(a[i] == '/');
        } else if 0 <= j < b.len() {
            assert(b[j] == '/');
        } else if 0 <= k < c.len() {
            assert(c[k] == '/');
        } else if 0 <= l {
            assert(d[l] == '/');
        }
    }
}

/// Whether a text is a numeral of an octet: one to three digits that denote less than
/// 256.
pub open spec fn octet_text(text: Seq<char>) -> bool {
    &&& 1 <= text.len() <= 3
    &&& forall|i: int| 0 <= i < text.len() ==> '0' <= #[trigger] text[i] <= '9'
    &&& crate::text::decimal_value(text) < 256
}

/// Whether a text is a numeral of a prefix: one or two digits that denote at most 32.
pub open spec fn prefix_text(text: Seq<char>) -> bool {
    &&& 1 <= text.len() <= 2
    &&& forall|i: int| 0 <= i < text.len() ==> '0' <= #[trigger] text[i] <= '9'
    &&& crate::text::decimal_value(text) <= 32
}

/// Four numerals of octets and one of a prefix make the text of a network.
proof fn lemma_network_of_pieces(
    a: Seq<char>,
    b: Seq<char>,
    c: Seq<char>,
    d: Seq<char>,
    prefix: Seq<char>,
)
    requires
        octet_text(a),
        octet_text(b),
        octet_text(c),
        octet_text(d),
        prefix_text(prefix),
    ensures
        ({
            let quad = a + seq!['.'] + b + seq!['.'] + c + seq!['.'] + d;
            network_of(quad + seq!['/'] + prefix) == Some(
                Ipv4Network {
                    address: (crate::text::decimal_value(a) * 16777216
                        + crate::text::decimal_value(b) * 65536 + crate::text::decimal_value(c)
                        * 256 + crate::text::decimal_value(d)) as u32,
                    prefix: crate::text::decimal_value(prefix) as u8,
                },
            )
        }),
{
    let quad = a + seq!['.'] + b + seq!['.'] + c + seq!['.'] + d;
    let text = quad + seq!['/'] + prefix;
    lemma_join_octets(a, b, c, d);
    assert(text =~= quad.push('/') + prefix);
    assert(!prefix.contains('/'));
    crate::text::lemma_split_join(quad, '/', prefix);
    crate::text::lemma_split_whole(quad, '/');
    crate::text::lemma_split_whole(prefix, '/');
    assert(crate::text::split(text, '/') =~= seq![quad, prefix]);
}

/// The targets of a network in CIDR notation: four octets and a prefix, each written
/// in digits. A prefix below 8 is refused. With any other, an address is a target
/// exactly where it lies in the network and is not the first or the last address
/// there, or the prefix is 31 or 32. So the targets are as many as the network has
/// addresses, less two for prefixes through 30. They come in ascending order.
pub proof fn law_targets_of_network(
    a: Seq<char>,
    b: Seq<char>,
    c: Seq<char>,
    d: Seq<char>,
    prefix: Seq<char>,
    candidate: u32,
)
    requires
        octet_text(a),
        octet_text(b),
        octet_text(c),
        octet_text(d),
        prefix_text(prefix),
    ensures
        ({
            let text = a + seq!['.'] + b + seq!['.'] + c + seq!['.'] + d + seq!['/'] + prefix;
            let address = (crate::text::decimal_value(a) * 16777216 + crate::text::decimal_value(b)
                * 65536 + crate::text::decimal_value(c) * 256 + crate::text::decimal_value(
                d,
            )) as u32;
            let bits = crate::text::decimal_value(prefix);
            let size = vstd::arithmetic::power2::pow2((32 - bits) as nat);
            let base = address as int - address as int % size as int;
            match targets_of(text) {
                Err(error) => {
                    &&& bits < 8
                    &&& error == (TargetError::TooManyAddresses {
                        network: Ipv4Network { address, prefix: bits as u8 },
                    })
                },
                Ok(targets) => {
                    &&& 8 <= bits
                    &&& targets.len() == if bits <= 30 {
                        size - 2
                    } else {
                        size as int
                    }
                    &&& forall|i: int, j: int|
                        0 <= i < j < targets.len() ==> #[trigger] targets[i] < #[trigger] targets[j]
                    &&& targets.contains(candidate) <==> if bits <= 30 {
                        base < candidate < base + size - 1
                    } else {
                        base <= candidate < base + size
                    }
                },
            }
        }),
{
    let quad = a + seq!['.'] + b + seq!['.'] + c + seq!['.'] + d;
    let text = quad + seq!['/'] + prefix;
    lemma_network_of_pieces(a, b, c, d, prefix);
    assert(text[quad.len() as int] == '/');
    assert(text.contains('/'));
    let network = network_of(text)->0;
    lemma_network_fits(network);
    law_usable_hosts(network, candidate);
}

/// An address in digits and dots stands for itself alone.
pub proof fn law_targets_of_address(a: Seq<char>, b: Seq<char>, c: Seq<char>, d: Seq<char>)
    requires
        octet_text(a),
        octet_text(b),
        octet_text(c),
        octet_text(d),
    ensures
        targets_of(a + seq!['.'] + b + seq!['.'] + c + seq!['.'] + d) == Ok::<
            Seq<u32>,
            TargetError,
        >(
            seq![
                (crate::text::decimal_value(a) * 16777216 + crate::text::decimal_value(b) * 65536
                    + crate::text::decimal_value(c) * 256 + crate::text::decimal_value(d)) as u32,
            ],
        ),
{
    let quad = a + seq!['.'] + b + seq!['.'] + c + seq!['.'] + d;
    let prefix = seq!['3', '2'];
    reveal_strlit("/32");
    assert(crate::text::decimal_value(prefix) == 32) by {
        reveal_with_fuel(crate::text::decimal_value, 3);
        assert(prefix.drop_last() =~= seq!['3']);
        assert(prefix.drop_last().drop_last() =~= Seq::<char>::empty());
    }
    lemma_join_octets(a, b, c, d);
    lemma_network_of_pieces(a, b, c, d, prefix);
    assert(quad + "/32"@ =~= quad + seq!['/'] + prefix);
    let network = network_of(quad + "/32"@)->0;
    vstd::arithmetic::power2::lemma2_to64();
    assert(usable_hosts(network) =~= seq![network.address]);
}

/// The pieces of the text of a network: four numerals of octets and one of a prefix.
pub proof fn law_network_text(text: Seq<char>) -> (pieces: (
    Seq<char>,
    Seq<char>,
    Seq<char>,
    Seq<char>,
    Seq<char>,
))
    requires
        network_of(text) is Some,
    ensures
        octet_text(pieces.0),
        octet_text(pieces.1),
        octet_text(pieces.2),
        octet_text(pieces.3),
        prefix_text(pieces.4),
        text == pieces.0 + seq!['.'] + pieces.1 + seq!['.'] + pieces.2 + seq!['.'] + pieces.3
            + seq!['/'] + pieces.4,
{
    let halves = crate::text::split(text, '/');
    let quad = halves[0];
    let after = crate::text::lemma_split_first(text, '/');
    crate::text::lemma_split_only(after, '/');
    let octets = crate::text::split(quad, '.');
    let three = crate::text::lemma_split_first(quad, '.');
    let two = crate::text::lemma_split_first(three, '.');
    let one = crate::text::lemma_split_first(two, '.');
    crate::text::lemma_split_only(one, '.');
    let (a, b, c, d, prefix) = (octets[0], octets[1], octets[2], octets[3], halves[1]);
    assert(b == crate::text::split(three, '.')[0]);
    assert(c == crate::text::split(two, '.')[0]);
    assert(d == one);
    assert(prefix == after);
    assert(text =~= a + seq!['.'] + b + seq!['.'] + c + seq!['.'] + d + seq!['/'] + prefix);
    lemma_octet_text(a);
    lemma_octet_text(b);
    lemma_octet_text(c);
    lemma_octet_text(d);
    assert forall|i: int| 0 <= i < prefix.len() implies '0' <= #[trigger] prefix[i] <= '9' by {
        assert(crate::text::is_digit(prefix[i]));
    }
    (a, b, c, d, prefix)
}

/// What is read as an octet is the numeral of one.
proof fn lemma_octet_text(text: Seq<char>)
    requires
        numeral(text, 3, 256) is Some,
    ensures
        octet_text(text),
{
    assert forall|i: int| 0 <= i < text.len() implies '0' <= #[trigger] text[i] <= '9' by {
        assert(crate::text::is_digit(text[i]));
    }
}

/// A text is refused as a network where it has a slash and is not the text of one, and
/// as an address where it has none and is not the text of one. What else is refused is
/// a network with a prefix below 8.
pub proof fn law_refused_targets(input: Seq<char>)
    ensures
        targets_of(input) == Err::<Seq<u32>, TargetError>(TargetError::InvalidNetwork)
            <==> input.contains('/') && network_of(input) is None,
        targets_of(input) == Err::<Seq<u32>, TargetError>(TargetError::InvalidAddress)
            <==> !input.contains('/') && network_of(input + seq!['/', '3', '2']) is None,
        targets_of(input) matches Err(TargetError::TooManyAddresses { network }) ==> {
            &&& input.contains('/')
            &&& network_of(input) == Some(network)
            &&& network.prefix < 8
        },
{
    reveal_strlit("/32");
    assert("/32"@ =~= seq!['/', '3', '2']);
    if !input.contains('/') && network_of(input + "/32"@) is Some {
        let text = input + "/32"@;
        let halves = crate::text::split(text, '/');
        assert(text =~= input.push('/') + seq!['3', '2']);
        crate::text::lemma_split_join(input, '/', seq!['3', '2']);
        crate::text::lemma_split_whole(input, '/');
        crate::text::lemma_split_whole(seq!['3', '2'], '/');
        assert(halves[1] == seq!['3', '2']);
        assert(crate::text::decimal_value(seq!['3', '2']) == 32) by {
            reveal_with_fuel(crate::text::decimal_value, 3);
            assert(seq!['3', '2'].drop_last() =~= seq!['3']);
            assert(seq!['3'].drop_last() =~= Seq::<char>::empty());
        }
    }
}

/// What the messages of refused targets say.
pub proof fn law_target_messages(address: u32, prefix: u8)
    ensures
        target_error_text(TargetError::InvalidNetwork) == "invalid IPv4 network"@,
        target_error_text(TargetError::InvalidAddress) == "invalid IPv4 address"@,
        target_error_text(
            TargetError::TooManyAddresses { network: Ipv4Network { address, prefix } },
        ) == crate::text::dotted_quad(address) + "/"@ + crate::text::decimal(prefix as nat)
            + " contains more than 16777214 usable addresses; split networks larger than a /8"@,
{
    reveal_strlit(" contains more than ");
    reveal_strlit(" usable addresses; split networks larger than a /8");
    reveal_strlit(
        " contains more than 16777214 usable addresses; split networks larger than a /8",
    );
    assert(crate::text::decimal(16777214) =~= seq!['1', '6', '7', '7', '7', '2', '1', '4']) by {
        reveal_with_fuel(crate::text::decimal, 9);
    }
    assert(target_error_text(
        TargetError::TooManyAddresses { network: Ipv4Network { address, prefix } },
    ) =~= crate::text::dotted_quad(address) + "/"@ + crate::text::decimal(prefix as nat)
        + " contains more than 16777214 usable addresses; split networks larger than a /8"@);
}

/// How many addresses of a network are usable: all of a `/31` and a `/32`, and two
/// less than all of a larger one.
pub proof fn law_usable_count(prefix: u8)
    requires
        prefix <= 32,
    ensures
        usable_count(prefix) == vstd::arithmetic::power2::pow2((32 - prefix) as nat) - if prefix
            <= 30 {
            2int
        } else {
            0
        },
{
    lemma_network_fits(Ipv4Network { address: 0, prefix });
}

/// The same of octets and a prefix that are numbers and are written as their numerals:
/// which addresses are targets of the network `a.b.c.d/prefix`, and how many there
/// are.
pub proof fn law_targets_of_cidr(
    a: nat,
    b: nat,
    c: nat,
    d: nat,
    prefix: nat,
    candidate: u32,
)
    requires
        a < 256,
        b < 256,
        c < 256,
        d < 256,
        8 <= prefix <= 32,
    ensures
        ({
            let text = crate::text::decimal(a) + seq!['.'] + crate::text::decimal(b) + seq!['.']
                + crate::text::decimal(c) + seq!['.'] + crate::text::decimal(d) + seq!['/']
                + crate::text::decimal(prefix);
            let address = a * 16777216 + b * 65536 + c * 256 + d;
            let size = vstd::arithmetic::power2::pow2((32 - prefix) as nat) as int;
            let base = address - address as int % size;
            &&& targets_of(text) is Ok
            &&& targets_of(text)->Ok_0.len() == if prefix <= 30 {
                size - 2
            } else {
                size
            }
            &&& targets_of(text)->Ok_0.contains(candidate) <==> if prefix <= 30 {
                base < candidate < base + size - 1
            } else {
                base <= candidate < base + size
            }
        }),
{
    crate::text::law_numeral(a);
    crate::text::law_numeral(b);
    crate::text::law_numeral(c);
    crate::text::law_numeral(d);
    crate::text::law_numeral(prefix);
    crate::text::lemma_decimal(a);
    crate::text::lemma_decimal(b);
    crate::text::lemma_decimal(c);
    crate::text::lemma_decimal(d);
    crate::text::lemma_decimal(prefix);
    law_targets_of_network(
        crate::text::decimal(a),
        crate::text::decimal(b),
        crate::text::decimal(c),
        crate::text::decimal(d),
        crate::text::decimal(prefix),
        candidate,
    );
}

} // verus!
