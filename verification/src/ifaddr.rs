//! Addresses assigned to interfaces, observed and desired.

use crate::address::IpAddress;
use crate::address::Network;
use crate::id::Id;
use crate::interface::InterfaceId;
use crate::ipv4::Ipv4Address;
use vstd::prelude::*;

verus! {

/// Marks the identifiers of interface addresses.
#[derive(Debug, Clone, Copy, PartialEq, Eq, Hash)]
pub struct InterfaceAddressTag;

/// Identifies an [`InterfaceAddress`].
pub type InterfaceAddressId = Id<InterfaceAddressTag>;

/// An address observed on an interface.
#[derive(Debug, PartialEq, Eq, Hash)]
#[non_exhaustive]
pub struct InterfaceAddress {
    /// This assignment's identity.
    pub id: InterfaceAddressId,
    /// The OS-level index of the interface that carries the address.
    pub interface_index: u32,
    /// The address with its prefix length.
    pub address: Network,
    /// The broadcast address, if any.
    pub broadcast: Option<IpAddress>,
}

impl InterfaceAddress {
    /// Creates an interface address with no broadcast address.
    pub fn new(id: InterfaceAddressId, interface_index: u32, address: Network) -> (assigned: Self)
        ensures
            assigned == (InterfaceAddress { id, interface_index, address, broadcast: None }),
    {
        InterfaceAddress { id, interface_index, address, broadcast: None }
    }

    /// Sets the observed broadcast address.
    pub fn with_broadcast(self, broadcast: IpAddress) -> (assigned: Self)
        ensures
            assigned == (InterfaceAddress { broadcast: Some(broadcast), ..self }),
    {
        InterfaceAddress { broadcast: Some(broadcast), ..self }
    }
}

impl Clone for InterfaceAddress {
    fn clone(&self) -> (copy: Self)
        ensures
            copy == *self,
    {
        InterfaceAddress {
            id: self.id,
            interface_index: self.interface_index,
            address: self.address,
            broadcast: self.broadcast,
        }
    }
}

/// Intent to assign an address to an interface.
#[derive(Debug, PartialEq, Eq, Hash)]
#[non_exhaustive]
pub struct NewInterfaceAddress {
    /// The interface to assign the address to.
    pub interface_id: InterfaceId,
    /// The address with its prefix length.
    pub address: Network,
    /// The requested broadcast address, if any; only IPv4 has one.
    pub broadcast: Option<Ipv4Address>,
}

impl NewInterfaceAddress {
    /// Creates a request with no broadcast address.
    pub fn new(interface_id: InterfaceId, address: Network) -> (request: Self)
        ensures
            request == (NewInterfaceAddress { interface_id, address, broadcast: None }),
    {
        NewInterfaceAddress { interface_id, address, broadcast: None }
    }

    /// Requests a broadcast address.
    pub fn with_broadcast(self, broadcast: Ipv4Address) -> (request: Self)
        ensures
            request == (NewInterfaceAddress { broadcast: Some(broadcast), ..self }),
    {
        NewInterfaceAddress { broadcast: Some(broadcast), ..self }
    }
}

impl Clone for NewInterfaceAddress {
    fn clone(&self) -> (copy: Self)
        ensures
            copy == *self,
    {
        NewInterfaceAddress {
            interface_id: self.interface_id,
            address: self.address,
            broadcast: self.broadcast,
        }
    }
}

} // verus!
