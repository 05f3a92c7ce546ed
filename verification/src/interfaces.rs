//! Network interfaces and the address that a scan comes from.

use crate::text::debug_quoted;
use vstd::prelude::*;

verus! {

/// An address assigned to an interface.
#[derive(Clone, Copy, Debug, PartialEq, Eq, Structural)]
pub enum Address {
    /// An IPv4 address.
    V4(u32),
    /// An IPv6 address.
    V6(u128),
}

/// A network interface with its addresses, in the order of the system.
#[derive(Debug)]
pub struct Interface {
    /// The name of the interface.
    pub name: String,
    /// The addresses assigned to it.
    pub addresses: Vec<Address>,
}

/// Why an interface gives no IPv4 address.
#[derive(Debug)]
pub enum InterfaceError {
    /// There is no interface of that name.
    Missing {
        /// The name.
        name: String,
    },
    /// The interface has no IPv4 address.
    NoIpv4 {
        /// The name.
        name: String,
    },
}

/// The first interface of the given name, if any has it.
pub open spec fn first_named(interfaces: Seq<Interface>, name: Seq<char>) -> Option<Interface>
    decreases interfaces.len(),
{
    if interfaces.len() == 0 {
        None
    } else if interfaces[0].name@ == name {
        Some(interfaces[0])
    } else {
        first_named(interfaces.skip(1), name)
    }
}

/// The first IPv4 address, if there is one.
pub open spec fn first_ipv4(addresses: Seq<Address>) -> Option<u32>
    decreases addresses.len(),
{
    if addresses.len() == 0 {
        None
    } else {
        match addresses[0] {
            Address::V4(address) => Some(address),
            Address::V6(_) => first_ipv4(addresses.skip(1)),
        }
    }
}

/// The message of an interface that does not exist.
pub open spec fn missing_text(name: Seq<char>) -> Seq<char> {
    "network interface "@ + crate::text::debug_text(name) + " does not exist"@
}

/// The message of an interface without an IPv4 address.
pub open spec fn no_ipv4_text(name: Seq<char>) -> Seq<char> {
    "network interface "@ + crate::text::debug_text(name) + " has no IPv4 address"@
}

impl InterfaceError {
    /// The message of the error.
    pub fn message(&self) -> (text: String)
        ensures
            match self {
                InterfaceError::Missing { name } => text@ == missing_text(name@),
                InterfaceError::NoIpv4 { name } => text@ == no_ipv4_text(name@),
            },
    {
        match self {
            InterfaceError::Missing { name } => {
                let mut text = debug_quoted("network interface ", name.as_str());
                text.append(" does not exist");
                text
            },
            InterfaceError::NoIpv4 { name } => {
                let mut text = debug_quoted("network interface ", name.as_str());
                text.append(" has no IPv4 address");
                text
            },
        }
    }
}

/// Resolves the first IPv4 address assigned to the interface of the given name.
pub fn interface_ipv4(interfaces: &Vec<Interface>, name: &str) -> (address: Result<
    u32,
    InterfaceError,
>)
    ensures
        match first_named(interfaces@, name@) {
            None => address matches Err(InterfaceError::Missing { name: missing }) && missing@
                == name@,
            Some(interface) => match first_ipv4(interface.addresses@) {
                None => address matches Err(InterfaceError::NoIpv4 { name: without }) && without@
                    == name@,
                Some(ipv4) => address == Ok::<u32, InterfaceError>(ipv4),
            },
        },
{
    let wanted = name.to_string();
    assert(interfaces@.skip(0) =~= interfaces@);
    let mut i: usize = 0;
    while i < interfaces.len()
        invariant
            i <= interfaces@.len(),
            wanted@ == name@,
            first_named(interfaces@, name@) == first_named(interfaces@.skip(i as int), name@),
        decreases interfaces@.len() - i,
    {
        assert(interfaces@.skip(i as int).skip(1) =~= interfaces@.skip(i + 1));
        if interfaces[i].name == wanted {
            return match find_ipv4(&interfaces[i].addresses) {
                Some(address) => Ok(address),
                None => Err(InterfaceError::NoIpv4 { name: wanted }),
            };
        }
        i = i + 1;
    }
    Err(InterfaceError::Missing { name: wanted })
}

/// The first IPv4 address, if there is one.
fn find_ipv4(addresses: &Vec<Address>) -> (address: Option<u32>)
    ensures
        address == first_ipv4(addresses@),
{
    assert(addresses@.skip(0) =~= addresses@);
    let mut i: usize = 0;
    while i < addresses.len()
        invariant
            i <= addresses@.len(),
            first_ipv4(addresses@) == first_ipv4(addresses@.skip(i as int)),
        decreases addresses@.len() - i,
    {
        assert(addresses@.skip(i as int).skip(1) =~= addresses@.skip(i + 1));
        if let Address::V4(address) = addresses[i] {
            return Some(address);
        }
        i = i + 1;
    }
    None
}

/// The interface that counts is the first of the given name, and the address that
/// counts is its first IPv4 address: the one at place `k`, where the addresses before
/// it are IPv6.
pub proof fn law_first_ipv4_of_first_interface(
    interfaces: Seq<Interface>,
    name: Seq<char>,
    at: int,
    k: int,
)
    requires
        0 <= at < interfaces.len(),
        interfaces[at].name@ == name,
        forall|i: int| 0 <= i < at ==> (#[trigger] interfaces[i]).name@ != name,
    ensures
        first_named(interfaces, name) == Some(interfaces[at]),
        ({
            let addresses = interfaces[at].addresses@;
            &&& 0 <= k < addresses.len() && addresses[k] is V4 && (forall|i: int|
                0 <= i < k ==> #[trigger] addresses[i] is V6) ==> first_ipv4(addresses) == Some(
                addresses[k]->V4_0,
            )
            &&& first_ipv4(addresses) is None <==> forall|i: int|
                0 <= i < addresses.len() ==> #[trigger] addresses[i] is V6
        }),
    decreases at,
{
    lemma_first_ipv4(interfaces[at].addresses@, k);
    if at > 0 {
        let rest = interfaces.skip(1);
        assert(interfaces[0].name@ != name);
        assert(forall|i: int| 0 <= i < rest.len() ==> #[trigger] rest[i] == interfaces[i + 1]);
        law_first_ipv4_of_first_interface(rest, name, at - 1, k);
    }
}

/// The first IPv4 address is the one behind IPv6 addresses alone, and there is none
/// only where all are IPv6.
proof fn lemma_first_ipv4(addresses: Seq<Address>, k: int)
    ensures
        0 <= k < addresses.len() && addresses[k] is V4 && (forall|i: int|
            0 <= i < k ==> #[trigger] addresses[i] is V6) ==> first_ipv4(addresses) == Some(
            addresses[k]->V4_0,
        ),
        first_ipv4(addresses) is None <==> forall|i: int|
            0 <= i < addresses.len() ==> #[trigger] addresses[i] is V6,
    decreases addresses.len(),
{
    if addresses.len() > 0 {
        let rest = addresses.skip(1);
        assert(forall|i: int| 0 <= i < rest.len() ==> #[trigger] rest[i] == addresses[i + 1]);
        lemma_first_ipv4(rest, k - 1);
        if addresses[0] is V6 {
            if first_ipv4(rest) is None {
                assert forall|i: int| 0 <= i < addresses.len() implies #[trigger] addresses[i]
                    is V6 by {
                    if i > 0 {
                        assert(rest[i - 1] is V6);
                    }
                }
            } else {
                let i = choose|i: int| 0 <= i < rest.len() && !(#[trigger] rest[i] is V6);
                assert(!(addresses[i + 1] is V6));
            }
            if 0 < k < addresses.len() && addresses[k] is V4 && (forall|i: int|
                0 <= i < k ==> #[trigger] addresses[i] is V6) {
                assert forall|i: int| 0 <= i < k - 1 implies #[trigger] rest[i] is V6 by {
                    assert(addresses[i + 1] is V6);
                }
                assert(rest[k - 1] == addresses[k]);
            }
        } else {
            assert(!(addresses[0] is V6));
            if 0 < k < addresses.len() && (forall|i: int|
                0 <= i < k ==> #[trigger] addresses[i] is V6) {
                assert(addresses[0] is V6);
            }
        }
    }
}

/// An interface is found exactly where one has the given name.
pub proof fn law_missing_interface(interfaces: Seq<Interface>, name: Seq<char>)
    ensures
        first_named(interfaces, name) is None <==> forall|i: int|
            0 <= i < interfaces.len() ==> (#[trigger] interfaces[i]).name@ != name,
    decreases interfaces.len(),
{
    if interfaces.len() > 0 {
        let rest = interfaces.skip(1);
        assert(forall|i: int| 0 <= i < rest.len() ==> #[trigger] rest[i] == interfaces[i + 1]);
        law_missing_interface(rest, name);
        if interfaces[0].name@ != name {
            if first_named(rest, name) is None {
                assert forall|i: int| 0 <= i < interfaces.len() implies (
                #[trigger] interfaces[i]).name@ != name by {
                    if i > 0 {
                        assert(rest[i - 1].name@ != name);
                    }
                }
            } else {
                let i = choose|i: int|
                    0 <= i < rest.len() && (#[trigger] rest[i]).name@ == name;
                assert(interfaces[i + 1].name@ == name);
            }
        }
    }
}

/// The messages name the interface in quotes and say what is wrong with it.
pub proof fn law_interface_messages(name: Seq<char>)
    ensures
        missing_text(name) == "network interface "@ + crate::text::debug_text(name)
            + " does not exist"@,
        no_ipv4_text(name) == "network interface "@ + crate::text::debug_text(name)
            + " has no IPv4 address"@,
{
}

} // verus!
