//! Identities for objects that the operating system does not number.
//!
//! Routes, neighbor entries and assigned addresses have no identifier of their own. They get
//! one by hashing the fields that tell them apart. This module says which bytes are hashed; the
//! bytes tell any two different keys apart.

use crate::address::IpAddress;
use crate::address::Network;
use crate::ipv4::ipv4_is_its_octets;
use crate::ipv6::ipv6_is_its_groups;
use crate::mask::bytes_of;
use crate::mask::number_and_bytes_agree;
use crate::mask::number_of;
use crate::mask::number_to_bytes;
use crate::neighbor::NeighborId;
use std::collections::hash_map::DefaultHasher;
use std::hash::Hasher;
use vstd::prelude::*;
use vstd::std_specs::hash::DefaultHasherAdditionalSpecFns;

verus! {

/// The rows that a list of byte rows holds.
pub open spec fn byte_rows(list: Seq<Vec<u8>>) -> Seq<Seq<u8>> {
    list.map_values(|row: Vec<u8>| row@)
}

/// The hash of byte rows, written one after the other.
pub open spec fn hash_of(rows: Seq<Seq<u8>>) -> u64 {
    DefaultHasher::spec_finish(rows)
}

/// Hashes byte rows, written one after the other.
pub fn hash_rows(list: &Vec<Vec<u8>>) -> (hash: u64)
    ensures
        hash == hash_of(byte_rows(list@)),
        hash == DefaultHasher::spec_finish(list@.map_values(|row: Vec<u8>| row@)),
{
    let mut hasher = DefaultHasher::new();
    let mut i: usize = 0;
    assert(byte_rows(list@).take(0) =~= Seq::empty());
    while i < list.len()
        invariant
            i <= list.len(),
            hasher@ == byte_rows(list@).take(i as int),
        decreases list.len() - i,
    {
        hasher.write(list[i].as_slice());
        assert(byte_rows(list@)[i as int] == list@[i as int]@);
        i = i + 1;
        assert(hasher@ =~= byte_rows(list@).take(i as int));
    }
    assert(byte_rows(list@).take(i as int) =~= byte_rows(list@));
    hasher.finish()
}

/// The bytes that stand for an address: its family, then its octets.
pub open spec fn address_bytes(address: IpAddress) -> Seq<u8> {
    match address {
        IpAddress::V4(inner) => seq![4u8] + inner.bytes(),
        IpAddress::V6(inner) => seq![6u8] + inner.bytes(),
    }
}

/// The bytes that stand for an address that may be absent.
pub open spec fn optional_address_bytes(address: Option<IpAddress>) -> Seq<u8> {
    match address {
        Some(inner) => address_bytes(inner),
        None => seq![0u8],
    }
}

/// The bytes that stand for a network: its prefix length, then its address.
pub open spec fn network_bytes(network: Network) -> Seq<u8> {
    seq![network.prefix_bits()] + address_bytes(network.address())
}

/// Returns the bytes that stand for a number.
pub fn number_row(number: u32) -> (row: Vec<u8>)
    ensures
        row@ == bytes_of(number),
{
    let bytes = number_to_bytes(number);
    let row = vec![bytes[0], bytes[1], bytes[2], bytes[3]];
    assert(row@ =~= bytes@);
    row
}

/// Appends the bytes that stand for an address.
fn push_address(row: &mut Vec<u8>, address: &IpAddress)
    ensures
        final(row)@ == old(row)@ + address_bytes(*address),
{
    let ghost before = row@;
    match address {
        IpAddress::V4(inner) => {
            let octets = inner.octets();
            row.push(4);
            let mut i: usize = 0;
            while i < 4
                invariant
                    i <= 4,
                    octets@ == inner.bytes(),
                    octets@.len() == 4,
                    row@ == before + seq![4u8] + octets@.take(i as int),
                decreases 4 - i,
            {
                row.push(octets[i]);
                i = i + 1;
                assert(row@ =~= before + seq![4u8] + octets@.take(i as int));
            }
            assert(octets@.take(4) =~= octets@);
            assert(row@ =~= before + address_bytes(*address));
        },
        IpAddress::V6(inner) => {
            let octets = inner.octets();
            row.push(6);
            let mut i: usize = 0;
            while i < 16
                invariant
                    i <= 16,
                    octets@ == inner.bytes(),
                    octets@.len() == 16,
                    row@ == before + seq![6u8] + octets@.take(i as int),
                decreases 16 - i,
            {
                row.push(octets[i]);
                i = i + 1;
                assert(row@ =~= before + seq![6u8] + octets@.take(i as int));
            }
            assert(octets@.take(16) =~= octets@);
            assert(row@ =~= before + address_bytes(*address));
        },
    }
}

/// Returns the bytes that stand for an address.
pub fn address_row(address: &IpAddress) -> (row: Vec<u8>)
    ensures
        row@ == address_bytes(*address),
{
    let mut row: Vec<u8> = Vec::new();
    push_address(&mut row, address);
    assert(row@ =~= address_bytes(*address));
    row
}

/// Returns the bytes that stand for an address that may be absent.
pub fn optional_address_row(address: &Option<IpAddress>) -> (row: Vec<u8>)
    ensures
        row@ == optional_address_bytes(*address),
{
    match address {
        Some(inner) => address_row(inner),
        None => {
            let row = vec![0u8];
            assert(row@ =~= seq![0u8]);
            row
        },
    }
}

/// Returns the bytes that stand for a network.
pub fn network_row(network: &Network) -> (row: Vec<u8>)
    ensures
        row@ == network_bytes(*network),
{
    let mut row: Vec<u8> = Vec::new();
    row.push(network.prefix_len());
    push_address(&mut row, &network.address());
    assert(row@ =~= network_bytes(*network));
    row
}

/// What is hashed for a neighbor entry: its interface and its address.
pub open spec fn neighbor_rows(interface_index: u32, address: IpAddress) -> Seq<Seq<u8>> {
    seq![bytes_of(interface_index), address_bytes(address)]
}

/// Derives the identity of a neighbor entry from its interface and its address.
pub fn synthesize_neighbor_id(interface_index: u32, address: &IpAddress) -> (id: NeighborId)
    ensures
        id == NeighborId::of(hash_of(neighbor_rows(interface_index, *address))),
{
    let rows = vec![number_row(interface_index), address_row(address)];
    assert(byte_rows(rows@) =~= neighbor_rows(interface_index, *address));
    NeighborId::new(hash_rows(&rows))
}

// ---- laws ----

/// Different addresses stand for different bytes, and so do different networks.
pub proof fn address_bytes_tell_apart(
    left: IpAddress,
    right: IpAddress,
    left_network: Network,
    right_network: Network,
)
    requires
        left_network.valid(),
        right_network.valid(),
    ensures
        address_bytes(left) == address_bytes(right) <==> left == right,
        optional_address_bytes(Some(left)) != optional_address_bytes(None),
        network_bytes(left_network) == network_bytes(right_network) <==> left_network
            == right_network,
{
    lemma_address_bytes(left, right);
    let one = left_network.address();
    let other = right_network.address();
    lemma_address_bytes(one, other);
    if network_bytes(left_network) == network_bytes(right_network) {
        assert(network_bytes(left_network)[0] == left_network.prefix_bits());
        assert(network_bytes(right_network)[0] == right_network.prefix_bits());
        assert(network_bytes(left_network).skip(1) =~= address_bytes(one));
        assert(network_bytes(right_network).skip(1) =~= address_bytes(other));
        crate::address::network_is_its_parts(left_network);
        crate::address::network_is_its_parts(right_network);
    }
}

/// Different addresses stand for different bytes.
proof fn lemma_address_bytes(left: IpAddress, right: IpAddress)
    ensures
        address_bytes(left) == address_bytes(right) <==> left == right,
        address_bytes(left)[0] == 4 || address_bytes(left)[0] == 6,
{
    if address_bytes(left) == address_bytes(right) {
        assert(address_bytes(left)[0] == address_bytes(right)[0]);
        match (left, right) {
            (IpAddress::V4(one), IpAddress::V4(other)) => {
                assert(address_bytes(left).skip(1) =~= one.bytes());
                assert(address_bytes(right).skip(1) =~= other.bytes());
                ipv4_is_its_octets(one, other, seq![0u8, 0, 0, 0]);
            },
            (IpAddress::V6(one), IpAddress::V6(other)) => {
                assert(address_bytes(left).skip(1) =~= one.bytes());
                assert(address_bytes(right).skip(1) =~= other.bytes());
                ipv6_is_its_groups(one, other, seq![0u16, 0, 0, 0, 0, 0, 0, 0]);
            },
            _ => {},
        }
    }
}

/// What is hashed for neighbor entries tells them apart: it is the same for two entries exactly
/// when interface and address are.
pub proof fn neighbor_rows_tell_apart(
    left_index: u32,
    left: IpAddress,
    right_index: u32,
    right: IpAddress,
)
    ensures
        neighbor_rows(left_index, left) == neighbor_rows(right_index, right) <==> left_index
            == right_index && left == right,
{
    lemma_address_bytes(left, right);
    if neighbor_rows(left_index, left) == neighbor_rows(right_index, right) {
        assert(neighbor_rows(left_index, left)[0] == neighbor_rows(right_index, right)[0]);
        assert(neighbor_rows(left_index, left)[1] == neighbor_rows(right_index, right)[1]);
        lemma_number_bytes(left_index, right_index);
    }
}

/// Different numbers stand for different bytes.
pub proof fn lemma_number_bytes(left: u32, right: u32)
    ensures
        bytes_of(left) == bytes_of(right) <==> left == right,
{
    number_and_bytes_agree(bytes_of(left), left);
    number_and_bytes_agree(bytes_of(right), right);
    assert(number_of(bytes_of(left)) == left);
}

/// An identity is the finished hash of all its rows, in order, under the standard hasher.
pub proof fn identities_hash_every_row(rows: Seq<Seq<u8>>)
    ensures
        hash_of(rows) == DefaultHasher::spec_finish(rows),
{
}

/// The bytes that stand for an address have the family's number in front, which keeps families
/// apart, and are five, seventeen or, for none, one in number.
pub proof fn address_bytes_carry_the_family(address: Option<IpAddress>)
    ensures
        address is None ==> optional_address_bytes(address) == seq![0u8],
        address matches Some(IpAddress::V4(inner)) ==> optional_address_bytes(address) == seq![4u8]
            + inner.bytes() && optional_address_bytes(address).len() == 5,
        address matches Some(IpAddress::V6(inner)) ==> optional_address_bytes(address) == seq![6u8]
            + inner.bytes() && optional_address_bytes(address).len() == 17,
{
    match address {
        Some(IpAddress::V4(inner)) => {
            ipv4_is_its_octets(inner, inner, seq![0u8, 0, 0, 0]);
        },
        Some(IpAddress::V6(inner)) => {
            ipv6_is_its_groups(inner, inner, seq![0u16, 0, 0, 0, 0, 0, 0, 0]);
        },
        None => {},
    }
}

} // verus!
