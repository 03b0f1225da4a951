//! Decisions that the platform backends share.

use crate::address::IpAddress;
use crate::address::Network;
use crate::error::Error;
use crate::error::Result;
use crate::id::id_is_its_number;
use crate::ifaddr::InterfaceAddress;
use crate::interface::InterfaceId;
use crate::neighbor::NeighborEntry;
use crate::neighbor::NeighborState;
use vstd::prelude::*;

verus! {

/// The low 32 bits of an interface identity.
pub open spec fn low_index(id: InterfaceId) -> u32 {
    (id.value() % 0x1_0000_0000) as u32
}

/// Returns the low 32 bits of an interface identity.
pub fn truncated_index(id: InterfaceId) -> (index: u32)
    ensures
        index == low_index(id),
        index as int == id.value() as int % 0x1_0000_0000,
{
    let value: u64 = id.value();
    (value % 0x1_0000_0000) as u32
}

/// The first observed address on an interface with a given network.
pub open spec fn first_assigned(
    observed: Seq<InterfaceAddress>,
    interface_index: u32,
    network: Network,
) -> Option<InterfaceAddress>
    decreases observed.len(),
{
    if observed.len() == 0 {
        None
    } else if observed[0].interface_index == interface_index && observed[0].address == network {
        Some(observed[0])
    } else {
        first_assigned(observed.skip(1), interface_index, network)
    }
}

/// Confirms that an address that was just assigned can be observed.
///
/// Returns the observation, or [`Error::InvalidState`] when there is none.
pub fn confirm_address(
    observed: &Vec<InterfaceAddress>,
    interface_index: u32,
    network: Network,
) -> (confirmed: Result<InterfaceAddress>)
    ensures
        match confirmed {
            Ok(found) => first_assigned(observed@, interface_index, network) == Some(found),
            Err(error) => first_assigned(observed@, interface_index, network) is None
                && error is InvalidState,
        },
{
    let mut i: usize = 0;
    assert(observed@.skip(0) =~= observed@);
    while i < observed.len()
        invariant
            i <= observed.len(),
            first_assigned(observed@, interface_index, network) == first_assigned(
                observed@.skip(i as int),
                interface_index,
                network,
            ),
        decreases observed.len() - i,
    {
        proof {
            assert(observed@.skip(i as int)[0] == observed@[i as int]);
            assert(observed@.skip(i as int).skip(1) =~= observed@.skip(i + 1));
        }
        if observed[i].interface_index == interface_index && observed[i].address == network {
            return Ok(observed[i].clone());
        }
        i = i + 1;
    }
    Err(Error::InvalidState)
}

/// The first observed entry for an address on an interface.
pub open spec fn first_neighbor(
    observed: Seq<NeighborEntry>,
    interface_index: u32,
    address: IpAddress,
) -> Option<NeighborEntry>
    decreases observed.len(),
{
    if observed.len() == 0 {
        None
    } else if observed[0].interface_index == interface_index && observed[0].address == address {
        Some(observed[0])
    } else {
        first_neighbor(observed.skip(1), interface_index, address)
    }
}

/// Finds the first observed entry for an address on an interface.
pub fn find_neighbor_entry(
    observed: &Vec<NeighborEntry>,
    interface_index: u32,
    address: IpAddress,
) -> (entry: Option<NeighborEntry>)
    ensures
        entry == first_neighbor(observed@, interface_index, address),
{
    let mut i: usize = 0;
    assert(observed@.skip(0) =~= observed@);
    while i < observed.len()
        invariant
            i <= observed.len(),
            first_neighbor(observed@, interface_index, address) == first_neighbor(
                observed@.skip(i as int),
                interface_index,
                address,
            ),
        decreases observed.len() - i,
    {
        proof {
            assert(observed@.skip(i as int)[0] == observed@[i as int]);
            assert(observed@.skip(i as int).skip(1) =~= observed@.skip(i + 1));
        }
        if observed[i].interface_index == interface_index && observed[i].address == address {
            return Some(observed[i].clone());
        }
        i = i + 1;
    }
    None
}

/// Guards against removing an entry that was learned and not configured.
///
/// Only a permanent entry may be removed; [`Error::InvalidState`] for every other state.
pub fn ensure_removable_static_neighbor_state(state: NeighborState) -> (removable: Result<()>)
    ensures
        match removable {
            Ok(_) => state == NeighborState::Permanent,
            Err(error) => state != NeighborState::Permanent && error is InvalidState,
        },
{
    if state == NeighborState::Permanent {
        Ok(())
    } else {
        Err(Error::InvalidState)
    }
}

/// Decides whether the static entry for an address on an interface may be removed.
///
/// [`Error::NotFound`] when there is no such entry, [`Error::InvalidState`] when there is one
/// that is not permanent.
pub fn check_static_neighbor_removal(
    observed: &Vec<NeighborEntry>,
    interface_index: u32,
    address: IpAddress,
) -> (removable: Result<()>)
    ensures
        match first_neighbor(observed@, interface_index, address) {
            None => removable matches Err(error) && error is NotFound,
            Some(entry) => if entry.state == NeighborState::Permanent {
                removable is Ok
            } else {
                removable matches Err(error) && error is InvalidState
            },
        },
{
    match find_neighbor_entry(observed, interface_index, address) {
        Some(entry) => ensure_removable_static_neighbor_state(entry.state),
        None => Err(Error::NotFound),
    }
}

/// What is found is in the list and is what was looked for.
pub proof fn found_entries_are_observed(
    observed: Seq<NeighborEntry>,
    assigned: Seq<InterfaceAddress>,
    interface_index: u32,
    address: IpAddress,
    network: Network,
)
    ensures
        first_neighbor(observed, interface_index, address) matches Some(entry) ==> observed.contains(
            entry,
        ) && entry.interface_index == interface_index && entry.address == address,
        first_assigned(assigned, interface_index, network) matches Some(found) ==> assigned.contains(
            found,
        ) && found.interface_index == interface_index && found.address == network,
    decreases observed.len() + assigned.len(),
{
    if observed.len() > 0 {
        assert(observed.contains(observed[0]));
        found_entries_are_observed(
            observed.skip(1),
            Seq::empty(),
            interface_index,
            address,
            network,
        );
        if let Some(entry) = first_neighbor(observed.skip(1), interface_index, address) {
            let i = choose|i: int| 0 <= i < observed.skip(1).len() && observed.skip(1)[i] == entry;
            assert(observed[i + 1] == entry);
        }
    }
    if assigned.len() > 0 {
        assert(assigned.contains(assigned[0]));
        found_entries_are_observed(
            Seq::empty(),
            assigned.skip(1),
            interface_index,
            address,
            network,
        );
        if let Some(found) = first_assigned(assigned.skip(1), interface_index, network) {
            let i = choose|i: int| 0 <= i < assigned.skip(1).len() && assigned.skip(1)[i] == found;
            assert(assigned[i + 1] == found);
        }
    }
}

/// The first entry that matches is found, whatever stands behind it, and none is found exactly
/// when no entry matches.
pub proof fn first_matching_entry_is_found(
    observed: Seq<NeighborEntry>,
    assigned: Seq<InterfaceAddress>,
    interface_index: u32,
    address: IpAddress,
    network: Network,
    i: int,
)
    ensures
        0 <= i < observed.len() && observed[i].interface_index == interface_index
            && observed[i].address == address && (forall|k: int|
            0 <= k < i ==> !((#[trigger] observed[k]).interface_index == interface_index
                && observed[k].address == address)) ==> first_neighbor(
            observed,
            interface_index,
            address,
        ) == Some(observed[i]),
        (forall|k: int|
            0 <= k < observed.len() ==> !((#[trigger] observed[k]).interface_index
                == interface_index && observed[k].address == address)) ==> first_neighbor(
            observed,
            interface_index,
            address,
        ) is None,
        0 <= i < assigned.len() && assigned[i].interface_index == interface_index
            && assigned[i].address == network && (forall|k: int|
            0 <= k < i ==> !((#[trigger] assigned[k]).interface_index == interface_index
                && assigned[k].address == network)) ==> first_assigned(
            assigned,
            interface_index,
            network,
        ) == Some(assigned[i]),
        (forall|k: int|
            0 <= k < assigned.len() ==> !((#[trigger] assigned[k]).interface_index
                == interface_index && assigned[k].address == network)) ==> first_assigned(
            assigned,
            interface_index,
            network,
        ) is None,
    decreases observed.len() + assigned.len(),
{
    if observed.len() > 0 {
        let rest = observed.skip(1);
        assert(forall|k: int| 0 <= k < rest.len() ==> #[trigger] rest[k] == observed[k + 1]);
        assert(observed[0] == observed[0]);
        first_matching_entry_is_found(
            rest,
            Seq::empty(),
            interface_index,
            address,
            network,
            i - 1,
        );
    }
    if assigned.len() > 0 {
        let rest = assigned.skip(1);
        assert(forall|k: int| 0 <= k < rest.len() ==> #[trigger] rest[k] == assigned[k + 1]);
        assert(assigned[0] == assigned[0]);
        first_matching_entry_is_found(
            Seq::empty(),
            rest,
            interface_index,
            address,
            network,
            i - 1,
        );
    }
}

/// An identifier that was made of an index gives that index back.
pub proof fn widened_index_comes_back(index: u32)
    ensures
        low_index(InterfaceId::of(index as u64)) == index,
{
    id_is_its_number(
        InterfaceId::of(index as u64),
        InterfaceId::of(index as u64),
        index as u64,
    );
}

/// The index that an identifier stands for is its number without what does not fit.
pub proof fn index_is_the_low_half(id: InterfaceId)
    ensures
        low_index(id) as int == id.value() as int % 0x1_0000_0000,
{
}

} // verus!
