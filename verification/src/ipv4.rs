//! IPv4 addresses and networks.

use crate::prefix::Ipv4PrefixLength;
use crate::text::chars_of;
use crate::text::digit_value;
use crate::text::digits_value;
use crate::text::exactly;
use crate::text::join;
use crate::text::lemma_decimal_is_canonical;
use crate::text::lemma_numeral;
use crate::text::lemma_numeral_len;
use crate::text::lemma_pieces_join;
use crate::text::number_in;
use crate::text::numeral;
use crate::text::pieces;
use crate::text::pieces_come_together_again;
use crate::text::power;
use crate::text::push_numeral;
use crate::text::read_digits;
use crate::text::rows;
use crate::text::split_at_char;
use crate::text::unbroken;
use vstd::prelude::*;

verus! {

/// An IPv4 address.
#[derive(Debug, Clone, Copy, PartialEq, Eq, Hash, Structural)]
pub struct Ipv4Address {
    a: u8,
    b: u8,
    c: u8,
    d: u8,
}

impl Ipv4Address {
    /// The address with the given octets.
    pub closed spec fn of(octets: Seq<u8>) -> Self {
        Ipv4Address { a: octets[0], b: octets[1], c: octets[2], d: octets[3] }
    }

    /// The four octets, most significant first.
    pub closed spec fn bytes(self) -> Seq<u8> {
        seq![self.a, self.b, self.c, self.d]
    }

    /// Creates an address from its four octets.
    pub fn new(a: u8, b: u8, c: u8, d: u8) -> (address: Self)
        ensures
            address == Self::of(seq![a, b, c, d]),
            address.bytes() == seq![a, b, c, d],
    {
        Ipv4Address { a, b, c, d }
    }

    /// Creates an address from its octets, most significant first.
    pub fn from_octets(octets: [u8; 4]) -> (address: Self)
        ensures
            address == Self::of(octets@),
            address.bytes() == octets@,
    {
        let address = Ipv4Address { a: octets[0], b: octets[1], c: octets[2], d: octets[3] };
        assert(address.bytes() =~= octets@);
        address
    }

    /// Returns the four octets, most significant first.
    pub fn octets(&self) -> (octets: [u8; 4])
        ensures
            octets@ == self.bytes(),
    {
        let octets = [self.a, self.b, self.c, self.d];
        assert(octets@ =~= self.bytes());
        octets
    }

    /// The octets in decimal, separated by dots.
    pub open spec fn text(self) -> Seq<char> {
        join(octet_numerals(self), '.')
    }

    /// Appends the address in dotted decimal.
    pub fn push_text(&self, text: &mut String)
        ensures
            final(text)@ == old(text)@ + self.text(),
    {
        push_numeral(text, self.a as u64, 10);
        text.push('.');
        push_numeral(text, self.b as u64, 10);
        text.push('.');
        push_numeral(text, self.c as u64, 10);
        text.push('.');
        push_numeral(text, self.d as u64, 10);
        proof {
            reveal_with_fuel(join, 4);
            let parts = octet_numerals(*self);
            assert(parts.drop_last() =~= seq![parts[0], parts[1], parts[2]]);
            assert(parts.drop_last().drop_last() =~= seq![parts[0], parts[1]]);
            assert(parts.drop_last().drop_last().drop_last() =~= seq![parts[0]]);
            assert(text@ =~= old(text)@ + self.text());
        }
    }

    /// Returns the address in dotted decimal.
    pub fn to_string(&self) -> (text: String)
        ensures
            text@ == self.text(),
    {
        let mut text = String::new();
        self.push_text(&mut text);
        assert(text@ =~= self.text());
        text
    }

    /// Reads an address in dotted decimal.
    pub fn parse(text: &str) -> (address: Option<Self>)
        ensures
            address == ipv4_value(text@),
    {
        read_ipv4(&chars_of(text))
    }
}

/// The decimal numerals of the four octets.
pub open spec fn octet_numerals(address: Ipv4Address) -> Seq<Seq<char>> {
    seq![
        numeral(address.bytes()[0] as nat, 10),
        numeral(address.bytes()[1] as nat, 10),
        numeral(address.bytes()[2] as nat, 10),
        numeral(address.bytes()[3] as nat, 10),
    ]
}

/// The octet that a decimal numeral stands for: one to three digits, no leading zero, at
/// most 255.
pub open spec fn octet_value(text: Seq<char>) -> Option<u8> {
    match number_in(text, 10, 3) {
        Some(value) => if value <= 255 && (text.len() > 1 ==> text[0] != '0') {
            Some(value as u8)
        } else {
            None
        },
        None => None,
    }
}

/// The address that a text in dotted decimal stands for: exactly four octets separated by
/// dots.
pub open spec fn ipv4_value(text: Seq<char>) -> Option<Ipv4Address> {
    let parts = pieces(text, exactly('.'));
    if parts.len() != 4 {
        None
    } else {
        match (
            octet_value(parts[0]),
            octet_value(parts[1]),
            octet_value(parts[2]),
            octet_value(parts[3]),
        ) {
            (Some(a), Some(b), Some(c), Some(d)) => Some(Ipv4Address::of(seq![a, b, c, d])),
            _ => None,
        }
    }
}

/// Reads one octet.
fn read_octet(text: &Vec<char>) -> (octet: Option<u8>)
    ensures
        octet == octet_value(text@),
{
    match read_digits(text, 10, 3) {
        Some(value) => if value <= 255 && (text.len() <= 1 || text[0] != '0') {
            Some(value as u8)
        } else {
            None
        },
        None => None,
    }
}

/// Reads an address in dotted decimal.
pub fn read_ipv4(text: &Vec<char>) -> (address: Option<Ipv4Address>)
    ensures
        address == ipv4_value(text@),
{
    let parts = split_at_char(text, '.');
    assert(rows(parts@).len() == parts.len());
    if parts.len() != 4 {
        return None;
    }
    assert(rows(parts@)[0] == parts@[0]@);
    assert(rows(parts@)[1] == parts@[1]@);
    assert(rows(parts@)[2] == parts@[2]@);
    assert(rows(parts@)[3] == parts@[3]@);
    match (read_octet(&parts[0]), read_octet(&parts[1]), read_octet(&parts[2]), read_octet(&parts[3]))
    {
        (Some(a), Some(b), Some(c), Some(d)) => Some(Ipv4Address::new(a, b, c, d)),
        _ => None,
    }
}

/// An address is its octets.
pub proof fn ipv4_is_its_octets(left: Ipv4Address, right: Ipv4Address, octets: Seq<u8>)
    requires
        octets.len() == 4,
    ensures
        left.bytes().len() == 4,
        left == right <==> left.bytes() == right.bytes(),
        Ipv4Address::of(octets).bytes() == octets,
        Ipv4Address::of(left.bytes()) == left,
{
    assert(Ipv4Address::of(octets).bytes() =~= octets);
    assert(left.bytes() == right.bytes() ==> left.bytes()[0] == right.bytes()[0] && left.bytes()[1]
        == right.bytes()[1] && left.bytes()[2] == right.bytes()[2] && left.bytes()[3]
        == right.bytes()[3]);
}

/// An octet's numeral reads back as the octet, and consists of digits.
proof fn lemma_octet(octet: u8)
    ensures
        octet_value(numeral(octet as nat, 10)) == Some(octet),
        forall|i: int|
            0 <= i < numeral(octet as nat, 10).len() ==> digit_value(
                #[trigger] numeral(octet as nat, 10)[i],
            ) is Some,
{
    lemma_numeral(octet as nat, 10);
    reveal_with_fuel(power, 4);
    assert(power(10, 3) == 1000) by {
        assert(10nat * (10nat * (10nat * 1nat)) == 1000) by (nonlinear_arith);
    }
    lemma_numeral_len(octet as nat, 10, 3);
}

/// The text of an address holds digits and dots only, and at least seven of them.
pub proof fn lemma_ipv4_characters(address: Ipv4Address)
    ensures
        address.text().len() >= 7,
        forall|i: int|
            0 <= i < address.text().len() ==> digit_value(#[trigger] address.text()[i]) is Some
                || address.text()[i] == '.',
{
    let parts = octet_numerals(address);
    lemma_octet(address.bytes()[0]);
    lemma_octet(address.bytes()[1]);
    lemma_octet(address.bytes()[2]);
    lemma_octet(address.bytes()[3]);
    lemma_numeral(address.bytes()[0] as nat, 10);
    lemma_numeral(address.bytes()[1] as nat, 10);
    lemma_numeral(address.bytes()[2] as nat, 10);
    lemma_numeral(address.bytes()[3] as nat, 10);
    reveal_with_fuel(join, 4);
    assert(parts.drop_last() =~= seq![parts[0], parts[1], parts[2]]);
    assert(parts.drop_last().drop_last() =~= seq![parts[0], parts[1]]);
    assert(parts.drop_last().drop_last().drop_last() =~= seq![parts[0]]);
}

/// Reading the text of an address gives the address back.
pub proof fn ipv4_text_reads_back(address: Ipv4Address)
    ensures
        ipv4_value(address.text()) == Some(address),
{
    let parts = octet_numerals(address);
    assert forall|i: int| 0 <= i < parts.len() implies unbroken(#[trigger] parts[i], exactly('.')) by {
        lemma_octet(address.bytes()[i]);
        assert forall|k: int| 0 <= k < parts[i].len() implies !exactly('.')(#[trigger] parts[i][k]) by {
            assert(digit_value(parts[i][k]) is Some);
        }
    }
    lemma_pieces_join(parts, '.', exactly('.'));
    lemma_octet(address.bytes()[0]);
    lemma_octet(address.bytes()[1]);
    lemma_octet(address.bytes()[2]);
    lemma_octet(address.bytes()[3]);
    ipv4_is_its_octets(address, address, address.bytes());
    assert(seq![address.bytes()[0], address.bytes()[1], address.bytes()[2], address.bytes()[3]]
        =~= address.bytes());
}

/// An IPv4 network: an address with a prefix length.
#[derive(Debug, Clone, Copy, PartialEq, Eq, Hash, Structural)]
pub struct Ipv4Network {
    address: Ipv4Address,
    prefix: Ipv4PrefixLength,
}

impl Ipv4Network {
    /// The network with the given address and prefix.
    pub closed spec fn of(address: Ipv4Address, prefix: Ipv4PrefixLength) -> Self {
        Ipv4Network { address, prefix }
    }

    /// The network's address.
    pub closed spec fn spec_address(&self) -> Ipv4Address {
        self.address
    }

    /// The network's prefix length.
    pub closed spec fn spec_prefix(&self) -> Ipv4PrefixLength {
        self.prefix
    }

    /// Creates a network from an address and a prefix length; the address is kept as given.
    pub fn new(address: Ipv4Address, prefix: Ipv4PrefixLength) -> (network: Self)
        ensures
            network == Self::of(address, prefix),
            network.address() == address,
            network.prefix() == prefix,
    {
        Ipv4Network { address, prefix }
    }

    /// Returns the network's address.
    #[verifier::when_used_as_spec(spec_address)]
    pub fn address(&self) -> (address: Ipv4Address)
        ensures
            address == self.spec_address(),
    {
        self.address
    }

    /// Returns the network's prefix length.
    #[verifier::when_used_as_spec(spec_prefix)]
    pub fn prefix(&self) -> (prefix: Ipv4PrefixLength)
        ensures
            prefix == self.spec_prefix(),
    {
        self.prefix
    }

    /// The address, a slash and the prefix length.
    pub open spec fn text(self) -> Seq<char> {
        self.address().text().push('/') + numeral(self.prefix().bits() as nat, 10)
    }

    /// Returns the address, a slash and the prefix length.
    pub fn to_string(&self) -> (text: String)
        ensures
            text@ == self.text(),
    {
        let mut text = self.address.to_string();
        text.push('/');
        push_numeral(&mut text, self.prefix.value() as u64, 10);
        text
    }
}

/// A network is its address and prefix length.
pub proof fn ipv4_network_is_its_parts(
    network: Ipv4Network,
    address: Ipv4Address,
    prefix: Ipv4PrefixLength,
)
    ensures
        network == Ipv4Network::of(network.address(), network.prefix()),
        Ipv4Network::of(address, prefix).address() == address,
        Ipv4Network::of(address, prefix).prefix() == prefix,
{
}

/// An address is read from its own text alone: four decimal numbers up to 255, without needless
/// leading zeros, joined by dots. No other text reads as that address.
pub proof fn ipv4_reads_from_its_own_text_alone(text: Seq<char>, address: Ipv4Address)
    ensures
        ipv4_value(text) == Some(address) <==> text == address.text(),
        address.text() == numeral(address.bytes()[0] as nat, 10).push('.') + numeral(
            address.bytes()[1] as nat,
            10,
        ).push('.') + numeral(address.bytes()[2] as nat, 10).push('.') + numeral(
            address.bytes()[3] as nat,
            10,
        ),
{
    ipv4_text_reads_back(address);
    let own = octet_numerals(address);
    reveal_with_fuel(join, 4);
    assert(own.drop_last() =~= seq![own[0], own[1], own[2]]);
    assert(own.drop_last().drop_last() =~= seq![own[0], own[1]]);
    assert(own.drop_last().drop_last().drop_last() =~= seq![own[0]]);
    assert(address.text() =~= own[0].push('.') + own[1].push('.') + own[2].push('.') + own[3]);
    if ipv4_value(text) == Some(address) {
        let parts = pieces(text, exactly('.'));
        pieces_come_together_again(text, '.');
        let octets = seq![
            octet_value(parts[0])->0,
            octet_value(parts[1])->0,
            octet_value(parts[2])->0,
            octet_value(parts[3])->0,
        ];
        ipv4_is_its_octets(address, address, octets);
        lemma_decimal_is_canonical(parts[0]);
        lemma_decimal_is_canonical(parts[1]);
        lemma_decimal_is_canonical(parts[2]);
        lemma_decimal_is_canonical(parts[3]);
        lemma_decimal_bound(parts[0]);
        lemma_decimal_bound(parts[1]);
        lemma_decimal_bound(parts[2]);
        lemma_decimal_bound(parts[3]);
        assert(parts =~= own);
    }
}

/// Up to three decimal digits stand for a number below 1000.
proof fn lemma_decimal_bound(digits: Seq<char>)
    requires
        digits.len() <= 3,
    ensures
        digits_value(digits, 10) matches Some(value) ==> value < 1000,
{
    reveal_with_fuel(digits_value, 4);
}

} // verus!
