//! Decisions of the Linux backend around its netlink requests and its resolver file.

use crate::address::IpAddress;
use crate::address::Network;
use crate::backend::check_static_neighbor_removal;
use crate::backend::find_neighbor_entry;
use crate::backend::first_neighbor;
use crate::backend::low_index;
use crate::backend::truncated_index;
use crate::error::Error;
use crate::error::PlatformErrorCode;
use crate::error::Result;
use crate::ifaddr::InterfaceAddressId;
use crate::ifaddr::NewInterfaceAddress;
use crate::ipv4::Ipv4Address;
use crate::neighbor::NeighborEntry;
use crate::neighbor::NeighborState;
use crate::neighbor::StaticNeighbor;
use crate::netlink::index_of;
use crate::netlink::interface_address_in;
use crate::netlink::interface_index;
use crate::netlink::message_to_interface_address;
use crate::netlink::selects_neighbor;
use crate::netlink::static_neighbor_del_message;
use crate::netlink::AddressMessage;
use crate::netlink::NeighbourMessage;
use vstd::prelude::*;

verus! {

// ---- errors ----

/// Returns the platform code of an I/O error, given its raw code if it has one.
pub fn io_error_code(raw: Option<i32>) -> (code: PlatformErrorCode)
    ensures
        code == PlatformErrorCode::Linux(
            match raw {
                Some(number) => number,
                None => 0,
            },
        ),
{
    match raw {
        Some(number) => PlatformErrorCode::Linux(number),
        None => PlatformErrorCode::Linux(0),
    }
}

/// Returns the platform code of a netlink failure, given the code of the kernel's error
/// message if the failure is one. The code is passed on as it is.
pub fn rtnetlink_error_code(code: Option<i32>) -> (platform: PlatformErrorCode)
    ensures
        platform == PlatformErrorCode::Linux(
            match code {
                Some(number) => number,
                None => 0,
            },
        ),
{
    match code {
        Some(number) => PlatformErrorCode::Linux(number),
        None => PlatformErrorCode::Linux(0),
    }
}

/// What a failed neighbor request means.
pub open spec fn neighbor_error(code: Option<i32>) -> Error {
    match code {
        Some(number) => if number == -17 {
            Error::AlreadyExists
        } else if number == -2 || number == -19 {
            Error::NotFound
        } else if number == -1 || number == -13 {
            Error::PermissionDenied
        } else {
            Error::Platform(PlatformErrorCode::Linux(number))
        },
        None => Error::Platform(PlatformErrorCode::Linux(0)),
    }
}

/// Tells what a failed neighbor request means: the entry exists, the destination or interface
/// does not, or permission is missing. Every other failure keeps its code.
pub fn neighbor_mutation_error(code: Option<i32>) -> (error: Error)
    ensures
        error == neighbor_error(code),
        error is AlreadyExists <==> code == Some(-17i32),
        error is NotFound <==> code == Some(-2i32) || code == Some(-19i32),
        error is PermissionDenied <==> code == Some(-1i32) || code == Some(-13i32),
        code is None ==> error == Error::Platform(PlatformErrorCode::Linux(0)),
        code matches Some(number) ==> number != -17 && number != -2 && number != -19 && number != -1
            && number != -13 ==> error == Error::Platform(PlatformErrorCode::Linux(number)),
{
    match code {
        Some(-17) => Error::AlreadyExists,
        Some(-2) => Error::NotFound,
        Some(-19) => Error::NotFound,
        Some(-1) => Error::PermissionDenied,
        Some(-13) => Error::PermissionDenied,
        _ => Error::Platform(rtnetlink_error_code(code)),
    }
}

/// Why reading or writing the resolver file failed.
#[derive(Debug, Clone, Copy, PartialEq, Eq, Structural)]
pub enum FileErrorKind {
    /// The file does not exist.
    NotFound,
    /// Permission is missing.
    PermissionDenied,
    /// Any other reason.
    Other,
}

/// Tells what a failure to read or write the resolver file means, given its raw code if it has
/// one.
pub fn resolv_conf_error(kind: FileErrorKind, raw: Option<i32>) -> (error: Error)
    ensures
        error == (match kind {
            FileErrorKind::NotFound => Error::NotFound,
            FileErrorKind::PermissionDenied => Error::PermissionDenied,
            FileErrorKind::Other => Error::Platform(
                PlatformErrorCode::Linux(
                    match raw {
                        Some(number) => number,
                        None => 0,
                    },
                ),
            ),
        }),
{
    match kind {
        FileErrorKind::NotFound => Error::NotFound,
        FileErrorKind::PermissionDenied => Error::PermissionDenied,
        FileErrorKind::Other => Error::Platform(io_error_code(raw)),
    }
}

// ---- addresses ----

/// A request to assign an address, in the terms of the kernel.
#[derive(Debug, Clone, Copy, PartialEq, Eq, Structural)]
pub struct AddressRequest {
    /// The interface's index.
    pub index: u32,
    /// The address.
    pub address: IpAddress,
    /// The prefix length.
    pub prefix_len: u8,
    /// The broadcast address, if any.
    pub broadcast: Option<Ipv4Address>,
}

/// Prepares the request that assigns an address.
///
/// IPv6 has no broadcast addresses: [`Error::InvalidState`] when one is asked for.
pub fn address_request(address: &NewInterfaceAddress) -> (request: Result<AddressRequest>)
    ensures
        match request {
            Ok(found) => !(address.address is V6 && address.broadcast is Some) && found == (
            AddressRequest {
                index: low_index(address.interface_id),
                address: address.address.address(),
                prefix_len: address.address.prefix_bits(),
                broadcast: address.broadcast,
            }),
            Err(error) => address.address is V6 && address.broadcast is Some
                && error is InvalidState,
        },
{
    if matches!(address.address, Network::V6(_)) && address.broadcast.is_some() {
        return Err(Error::InvalidState);
    }
    Ok(
        AddressRequest {
            index: truncated_index(address.interface_id),
            address: address.address.address(),
            prefix_len: address.address.prefix_len(),
            broadcast: address.broadcast,
        },
    )
}

/// Whether a message describes the assigned address with a given identity.
pub fn is_address_message(message: &AddressMessage, id: InterfaceAddressId) -> (found: bool)
    ensures
        found == (interface_address_in(
            message.index,
            message.prefix_len,
            message.attributes@,
        ) matches Some(address) && address.id == id),
{
    match message_to_interface_address(message) {
        Some(address) => address.id == id,
        None => false,
    }
}

// ---- neighbors ----

/// Confirms that a neighbor entry that was just added can be observed.
///
/// Returns the observation, or [`Error::InvalidState`] when there is none.
pub fn confirm_neighbor(
    observed: &Vec<NeighborEntry>,
    index: u32,
    address: IpAddress,
) -> (confirmed: Result<NeighborEntry>)
    ensures
        match confirmed {
            Ok(found) => first_neighbor(observed@, index, address) == Some(found),
            Err(error) => first_neighbor(observed@, index, address) is None
                && error is InvalidState,
        },
{
    match find_neighbor_entry(observed, index, address) {
        Some(entry) => Ok(entry),
        None => Err(Error::InvalidState),
    }
}

/// Prepares the request that removes a static neighbor entry, given what is observed.
///
/// [`Error::NotFound`] when the interface cannot exist or has no such entry, and
/// [`Error::InvalidState`] when the entry was learned and not configured.
pub fn static_neighbor_removal(
    observed: &Vec<NeighborEntry>,
    neighbor: &StaticNeighbor,
) -> (request: Result<NeighbourMessage>)
    ensures
        match index_of(neighbor.interface_id) {
            None => request matches Err(error) && error is NotFound,
            Some(index) => match first_neighbor(observed@, index, neighbor.address) {
                None => request matches Err(error) && error is NotFound,
                Some(entry) => if entry.state == NeighborState::Permanent {
                    request matches Ok(message) && selects_neighbor(
                        message,
                        index,
                        neighbor.address,
                    )
                } else {
                    request matches Err(error) && error is InvalidState
                },
            },
        },
{
    let index = match interface_index(neighbor.interface_id) {
        Ok(index) => index,
        Err(error) => {
            return Err(error);
        },
    };
    match check_static_neighbor_removal(observed, index, neighbor.address) {
        Ok(_) => Ok(static_neighbor_del_message(index, neighbor.address)),
        Err(error) => Err(error),
    }
}

// ---- laws ----

/// What the kernel's refusals about a static neighbor entry mean: 17 that it exists, 2 and 19
/// that it or its interface does not, 1 and 13 that the caller may not; any other code is kept.
pub proof fn neighbor_refusals_keep_their_meaning(number: i32)
    ensures
        neighbor_error(Some(-17i32)) == Error::AlreadyExists,
        neighbor_error(Some(-2i32)) == Error::NotFound,
        neighbor_error(Some(-19i32)) == Error::NotFound,
        neighbor_error(Some(-1i32)) == Error::PermissionDenied,
        neighbor_error(Some(-13i32)) == Error::PermissionDenied,
        neighbor_error(None) == Error::Platform(PlatformErrorCode::Linux(0)),
        neighbor_error(Some(number)) is Platform <==> number != -17 && number != -2 && number != -19
            && number != -1 && number != -13,
        neighbor_error(Some(number)) is Platform ==> neighbor_error(Some(number)) == Error::Platform(
            PlatformErrorCode::Linux(number),
        ),
{
}

} // verus!
