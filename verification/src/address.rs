//! Addresses and networks of either family.

use crate::ipv4::ipv4_network_is_its_parts;
use crate::ipv4::ipv4_text_reads_back;
use crate::ipv4::ipv4_value;
use crate::ipv4::lemma_ipv4_characters;
use crate::ipv4::octet_value;
use crate::ipv4::read_ipv4;
use crate::ipv4::Ipv4Address;
use crate::ipv4::Ipv4Network;
use crate::ipv6::ipv6_network_is_its_parts;
use crate::ipv6::ipv6_text_reads_back;
use crate::ipv6::ipv6_value;
use crate::ipv6::lemma_ipv6_characters;
use crate::ipv6::lemma_ipv6_has_colon;
use crate::ipv6::read_ipv6;
use crate::ipv6::Ipv6Address;
use crate::ipv6::Ipv6Network;
use crate::prefix::prefix_is_its_length;
use crate::prefix::Ipv4PrefixLength;
use crate::prefix::Ipv6PrefixLength;
use crate::text::digit_value;
use crate::text::digits_value;
use crate::text::exactly;
use crate::text::is_space;
use crate::text::numeral;
use crate::text::pieces;
use vstd::prelude::*;

verus! {

/// An IP address of either family.
#[derive(Debug, Clone, Copy, PartialEq, Eq, Hash, Structural)]
pub enum IpAddress {
    /// An IPv4 address.
    V4(Ipv4Address),
    /// An IPv6 address.
    V6(Ipv6Address),
}

impl From<Ipv4Address> for IpAddress {
    fn from(value: Ipv4Address) -> (address: Self) {
        IpAddress::V4(value)
    }
}

impl vstd::std_specs::convert::FromSpecImpl<Ipv4Address> for IpAddress {
    open spec fn obeys_from_spec() -> bool {
        true
    }

    open spec fn from_spec(value: Ipv4Address) -> Self {
        IpAddress::V4(value)
    }
}

impl From<Ipv6Address> for IpAddress {
    fn from(value: Ipv6Address) -> (address: Self) {
        IpAddress::V6(value)
    }
}

impl vstd::std_specs::convert::FromSpecImpl<Ipv6Address> for IpAddress {
    open spec fn obeys_from_spec() -> bool {
        true
    }

    open spec fn from_spec(value: Ipv6Address) -> Self {
        IpAddress::V6(value)
    }
}

impl IpAddress {
    /// The text of the address in its family's notation.
    pub open spec fn text(self) -> Seq<char> {
        match self {
            IpAddress::V4(address) => address.text(),
            IpAddress::V6(address) => address.text(),
        }
    }

    /// Appends the text of the address.
    pub fn push_text(&self, text: &mut String)
        ensures
            final(text)@ == old(text)@ + self.text(),
    {
        match self {
            IpAddress::V4(address) => address.push_text(text),
            IpAddress::V6(address) => address.push_text(text),
        }
    }

    /// Returns the text of the address in its family's notation.
    pub fn to_string(&self) -> (text: String)
        ensures
            text@ == self.text(),
    {
        match self {
            IpAddress::V4(address) => address.to_string(),
            IpAddress::V6(address) => address.to_string(),
        }
    }
}

/// The address that a text stands for in either notation.
pub open spec fn ip_value(text: Seq<char>) -> Option<IpAddress> {
    match ipv4_value(text) {
        Some(address) => Some(IpAddress::V4(address)),
        None => match ipv6_value(text) {
            Some(address) => Some(IpAddress::V6(address)),
            None => None,
        },
    }
}

/// Reads an address of either family.
pub fn read_ip(text: &Vec<char>) -> (address: Option<IpAddress>)
    ensures
        address == ip_value(text@),
{
    match read_ipv4(text) {
        Some(address) => Some(IpAddress::V4(address)),
        None => match read_ipv6(text) {
            Some(address) => Some(IpAddress::V6(address)),
            None => None,
        },
    }
}

/// A character that does not separate is in some piece.
proof fn lemma_pieces_keep(text: Seq<char>, separates: spec_fn(char) -> bool, i: int) -> (at: (
    int,
    int,
))
    requires
        0 <= i < text.len(),
        !separates(text[i]),
    ensures
        0 <= at.0 < pieces(text, separates).len(),
        0 <= at.1 < pieces(text, separates)[at.0].len(),
        pieces(text, separates)[at.0][at.1] == text[i],
    decreases text.len(),
{
    let shorter = text.drop_last();
    let before = pieces(shorter, separates);
    crate::text::lemma_pieces_some(shorter, separates);
    if i < text.len() - 1 {
        assert(shorter[i] == text[i]);
        let at = lemma_pieces_keep(shorter, separates, i);
        if separates(text.last()) {
            assert(pieces(text, separates)[at.0] == before[at.0]);
        } else if at.0 < before.len() - 1 {
            assert(pieces(text, separates)[at.0] == before[at.0]);
        } else {
            assert(pieces(text, separates)[at.0] == before.last().push(text.last()));
        }
        at
    } else {
        let last = before.last().push(text.last());
        assert(pieces(text, separates).last() == last);
        assert(last[before.last().len() as int] == text[i]);
        ((before.len() - 1) as int, before.last().len() as int)
    }
}

/// A row of digits with another character in it stands for no number.
proof fn lemma_digits_only(digits: Seq<char>, base: nat, i: int)
    requires
        0 <= i < digits.len(),
        digit_value(digits[i]) is None,
    ensures
        digits_value(digits, base) is None,
    decreases digits.len(),
{
    if i < digits.len() - 1 {
        assert(digits.drop_last()[i] == digits[i]);
        lemma_digits_only(digits.drop_last(), base, i);
    }
}

/// Reading the text of an address gives the address back.
pub proof fn ip_text_reads_back(address: IpAddress)
    ensures
        ip_value(address.text()) == Some(address),
{
    match address {
        IpAddress::V4(inner) => {
            ipv4_text_reads_back(inner);
        },
        IpAddress::V6(inner) => {
            ipv6_text_reads_back(inner);
            let text = inner.text();
            let i = lemma_ipv6_has_colon(inner);
            let at = lemma_pieces_keep(text, exactly('.'), i);
            let part = pieces(text, exactly('.'))[at.0];
            assert(part[at.1] == ':');
            lemma_digits_only(part, 10, at.1);
            assert(octet_value(part) is None);
            assert(ipv4_value(text) is None);
        },
    }
}

/// The text of an address is one word: it is not empty and holds no white space.
pub proof fn lemma_ip_text_is_a_word(address: IpAddress)
    ensures
        address.text().len() > 0,
        forall|i: int| 0 <= i < address.text().len() ==> !is_space(#[trigger] address.text()[i]),
{
    match address {
        IpAddress::V4(inner) => lemma_ipv4_characters(inner),
        IpAddress::V6(inner) => lemma_ipv6_characters(inner),
    }
    assert forall|i: int| 0 <= i < address.text().len() implies !is_space(
        #[trigger] address.text()[i],
    ) by {
        assert(digit_value(address.text()[i]) is Some || address.text()[i] == ':'
            || address.text()[i] == '.');
    }
}

/// An IP network of either family.
#[derive(Debug, Clone, Copy, PartialEq, Eq, Hash, Structural)]
pub enum Network {
    /// An IPv4 network.
    V4(Ipv4Network),
    /// An IPv6 network.
    V6(Ipv6Network),
}

impl From<Ipv4Network> for Network {
    fn from(value: Ipv4Network) -> (network: Self) {
        Network::V4(value)
    }
}

impl vstd::std_specs::convert::FromSpecImpl<Ipv4Network> for Network {
    open spec fn obeys_from_spec() -> bool {
        true
    }

    open spec fn from_spec(value: Ipv4Network) -> Self {
        Network::V4(value)
    }
}

impl From<Ipv6Network> for Network {
    fn from(value: Ipv6Network) -> (network: Self) {
        Network::V6(value)
    }
}

impl vstd::std_specs::convert::FromSpecImpl<Ipv6Network> for Network {
    open spec fn obeys_from_spec() -> bool {
        true
    }

    open spec fn from_spec(value: Ipv6Network) -> Self {
        Network::V6(value)
    }
}

impl Network {
    /// The text of the network: address, slash, prefix length.
    pub open spec fn text(self) -> Seq<char> {
        match self {
            Network::V4(network) => network.text(),
            Network::V6(network) => network.text(),
        }
    }

    /// Returns the text of the network: address, slash, prefix length.
    pub fn to_string(&self) -> (text: String)
        ensures
            text@ == self.text(),
    {
        match self {
            Network::V4(network) => network.to_string(),
            Network::V6(network) => network.to_string(),
        }
    }

    /// The network's address.
    pub open spec fn spec_address(&self) -> IpAddress {
        match self {
            Network::V4(network) => IpAddress::V4(network.address()),
            Network::V6(network) => IpAddress::V6(network.address()),
        }
    }

    /// The network's prefix length in bits.
    pub open spec fn prefix_bits(self) -> u8 {
        match self {
            Network::V4(network) => network.prefix().bits(),
            Network::V6(network) => network.prefix().bits(),
        }
    }

    /// Whether the prefix is no longer than an address of the family.
    pub open spec fn valid(self) -> bool {
        match self {
            Network::V4(network) => network.prefix().bits() <= 32,
            Network::V6(network) => network.prefix().bits() <= 128,
        }
    }

    /// Returns the network's address.
    #[verifier::when_used_as_spec(spec_address)]
    pub fn address(&self) -> (address: IpAddress)
        ensures
            address == self.spec_address(),
    {
        match self {
            Network::V4(network) => IpAddress::V4(network.address()),
            Network::V6(network) => IpAddress::V6(network.address()),
        }
    }

    /// Returns the network's prefix length in bits.
    pub fn prefix_len(&self) -> (bits: u8)
        ensures
            bits == self.prefix_bits(),
            self.valid(),
    {
        match self {
            Network::V4(network) => network.prefix().value(),
            Network::V6(network) => network.prefix().value(),
        }
    }

    /// The network with an address and a prefix length, when the length suits the family.
    pub open spec fn of_parts(address: IpAddress, prefix_len: u8) -> Option<Network> {
        match address {
            IpAddress::V4(inner) => if prefix_len <= 32 {
                Some(Network::V4(Ipv4Network::of(inner, Ipv4PrefixLength::of(prefix_len))))
            } else {
                None
            },
            IpAddress::V6(inner) => if prefix_len <= 128 {
                Some(Network::V6(Ipv6Network::of(inner, Ipv6PrefixLength::of(prefix_len))))
            } else {
                None
            },
        }
    }

    /// Creates the network with an address and a prefix length; absent when the length exceeds
    /// what the family allows.
    pub fn from_parts(address: IpAddress, prefix_len: u8) -> (network: Option<Network>)
        ensures
            network == Self::of_parts(address, prefix_len),
    {
        match address {
            IpAddress::V4(inner) => match Ipv4PrefixLength::new(prefix_len) {
                Some(prefix) => Some(Network::V4(Ipv4Network::new(inner, prefix))),
                None => None,
            },
            IpAddress::V6(inner) => match Ipv6PrefixLength::new(prefix_len) {
                Some(prefix) => Some(Network::V6(Ipv6Network::new(inner, prefix))),
                None => None,
            },
        }
    }
}

/// A network is put together again out of its address and prefix length.
pub proof fn network_is_its_parts(network: Network)
    requires
        network.valid(),
    ensures
        Network::of_parts(network.address(), network.prefix_bits()) == Some(network),
{
    match network {
        Network::V4(inner) => {
            crate::ipv4::ipv4_network_is_its_parts(inner, inner.address(), inner.prefix());
            crate::prefix::prefix_is_its_length(
                inner.prefix(),
                inner.prefix(),
                Ipv6PrefixLength::of(0),
                Ipv6PrefixLength::of(0),
                0,
            );
        },
        Network::V6(inner) => {
            crate::ipv6::ipv6_network_is_its_parts(inner, inner.address(), inner.prefix());
            crate::prefix::prefix_is_its_length(
                Ipv4PrefixLength::of(0),
                Ipv4PrefixLength::of(0),
                inner.prefix(),
                inner.prefix(),
                0,
            );
        },
    }
}

/// A network is made of an address and a prefix length exactly when the length is at most 32 for
/// IPv4 and 128 for IPv6, and it has the parts that it was made of.
pub proof fn network_has_the_parts_it_was_made_of(address: IpAddress, prefix_len: u8)
    ensures
        address is V4 ==> (Network::of_parts(address, prefix_len) is Some <==> prefix_len <= 32),
        address is V6 ==> (Network::of_parts(address, prefix_len) is Some <==> prefix_len <= 128),
        Network::of_parts(address, prefix_len) matches Some(network) ==> {
            &&& network.address() == address
            &&& network.prefix_bits() == prefix_len
            &&& network.valid()
            &&& network is V4 <==> address is V4
        },
{
    let four = Ipv4PrefixLength::of(prefix_len);
    let six = Ipv6PrefixLength::of(prefix_len);
    prefix_is_its_length(four, four, six, six, prefix_len);
    match address {
        IpAddress::V4(inner) => {
            ipv4_network_is_its_parts(Ipv4Network::of(inner, four), inner, four);
        },
        IpAddress::V6(inner) => {
            ipv6_network_is_its_parts(Ipv6Network::of(inner, six), inner, six);
        },
    }
}

/// A text is read as an IPv4 address wherever it is one, and otherwise as an IPv6 address
/// wherever it is one.
pub proof fn texts_are_read_in_either_notation(text: Seq<char>)
    ensures
        ipv4_value(text) matches Some(address) ==> ip_value(text) == Some(IpAddress::V4(address)),
        ipv4_value(text) is None ==> (ipv6_value(text) matches Some(address) ==> ip_value(text)
            == Some(IpAddress::V6(address))),
        ipv4_value(text) is None && ipv6_value(text) is None ==> ip_value(text) is None,
{
}

/// The text of a network is that of its address, a slash, and the number of its prefix bits.
pub proof fn network_text_is_address_slash_prefix(network: Network)
    ensures
        network.text() == network.address().text() + seq!['/'] + numeral(
            network.prefix_bits() as nat,
            10,
        ),
{
    assert(network.text() =~= network.address().text() + seq!['/'] + numeral(
        network.prefix_bits() as nat,
        10,
    ));
}

} // verus!
