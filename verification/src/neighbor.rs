//! ARP/NDP neighbor entries, observed and desired.

use crate::address::IpAddress;
use crate::id::Id;
use crate::interface::InterfaceId;
use crate::mac::MacAddress;
use vstd::prelude::*;

verus! {

/// Marks the identifiers of neighbor entries.
#[derive(Debug, Clone, Copy, PartialEq, Eq, Hash)]
pub struct NeighborTag;

/// Identifies a [`NeighborEntry`].
pub type NeighborId = Id<NeighborTag>;

/// The reachability state of a neighbor entry.
#[derive(Debug, Clone, Copy, PartialEq, Eq, Hash, Structural)]
#[non_exhaustive]
pub enum NeighborState {
    /// Address resolution is in progress; no link-layer address yet.
    Incomplete,
    /// Confirmed reachable within the last reachable-time window.
    Reachable,
    /// Reachability is unconfirmed but the entry has not yet been probed.
    Stale,
    /// About to send a reachability probe after a delay.
    Delay,
    /// Actively probing to reconfirm reachability.
    Probe,
    /// Address resolution failed.
    Failed,
    /// Manually configured; never expires or is probed.
    Permanent,
    /// The platform does not expose a separate reachability state.
    Unknown,
}

/// A single entry in the system's neighbor table: the mapping from an on-link IP address to a
/// link-layer address on one interface.
#[derive(Debug, PartialEq, Eq, Hash)]
#[non_exhaustive]
pub struct NeighborEntry {
    /// This entry's identity.
    pub id: NeighborId,
    /// The OS-level index of the interface this entry was observed on.
    pub interface_index: u32,
    /// The neighbor's IP address.
    pub address: IpAddress,
    /// The link-layer address, absent while it is still being resolved.
    pub mac: Option<MacAddress>,
    /// The entry's reachability state.
    pub state: NeighborState,
}

impl NeighborEntry {
    /// Creates a neighbor entry with no MAC address and an unknown reachability state.
    pub fn new(id: NeighborId, interface_index: u32, address: IpAddress) -> (entry: Self)
        ensures
            entry == (NeighborEntry {
                id,
                interface_index,
                address,
                mac: None,
                state: NeighborState::Unknown,
            }),
    {
        NeighborEntry { id, interface_index, address, mac: None, state: NeighborState::Unknown }
    }

    /// Sets the resolved link-layer (MAC) address.
    pub fn with_mac(self, mac: MacAddress) -> (entry: Self)
        ensures
            entry == (NeighborEntry { mac: Some(mac), ..self }),
    {
        NeighborEntry { mac: Some(mac), ..self }
    }

    /// Sets the observed reachability state.
    pub fn with_state(self, state: NeighborState) -> (entry: Self)
        ensures
            entry == (NeighborEntry { state, ..self }),
    {
        NeighborEntry { state, ..self }
    }
}

impl Clone for NeighborEntry {
    fn clone(&self) -> (copy: Self)
        ensures
            copy == *self,
    {
        NeighborEntry {
            id: self.id,
            interface_index: self.interface_index,
            address: self.address,
            mac: self.mac,
            state: self.state,
        }
    }
}

/// Intent to add or remove a static ARP/NDP neighbor entry.
///
/// The interface and the address identify the entry; the link-layer address is what is wanted
/// of it. A request carries neither an identifier nor a state: both are only ever observed.
#[derive(Debug, Clone, Copy, PartialEq, Eq, Hash)]
#[non_exhaustive]
pub struct StaticNeighbor {
    /// The interface this static entry applies to.
    pub interface_id: InterfaceId,
    /// The IP address resolved by this static entry.
    pub address: IpAddress,
    /// The link-layer address the static entry maps to.
    pub mac: MacAddress,
}

impl StaticNeighbor {
    /// Creates a static neighbor request mapping `address` on `interface_id` to `mac`.
    pub fn new(interface_id: InterfaceId, address: IpAddress, mac: MacAddress) -> (neighbor: Self)
        ensures
            neighbor == (StaticNeighbor { interface_id, address, mac }),
    {
        StaticNeighbor { interface_id, address, mac }
    }
}

} // verus!
