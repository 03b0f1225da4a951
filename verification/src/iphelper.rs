//! Windows IP Helper tables: what their rows say about routes, interfaces, neighbors and
//! addresses, and the rows that are handed in to change them.
//!
//! The row types here hold what the native rows say in plain values. Calling the native
//! functions is not part of this module.

use crate::address::network_has_the_parts_it_was_made_of;
use crate::address::network_is_its_parts;
use crate::address::IpAddress;
use crate::address::Network;
use crate::backend::check_static_neighbor_removal;
use crate::backend::first_neighbor;
use crate::backend::low_index;
use crate::backend::truncated_index;
use crate::error::Error;
use crate::error::PlatformErrorCode;
use crate::error::Result;
use crate::gather::gathered;
use crate::gather::optional;
use crate::identity::address_bytes_tell_apart;
use crate::identity::byte_rows;
use crate::identity::hash_of;
use crate::identity::hash_rows;
use crate::identity::lemma_number_bytes;
use crate::identity::neighbor_rows;
use crate::identity::network_bytes;
use crate::identity::network_row;
use crate::identity::number_row;
use crate::identity::optional_address_bytes;
use crate::identity::optional_address_row;
use crate::identity::synthesize_neighbor_id;
use crate::ifaddr::InterfaceAddress;
use crate::ifaddr::InterfaceAddressId;
use crate::ifaddr::NewInterfaceAddress;
use crate::interface::AdminState;
use crate::interface::DesiredAdminState;
use crate::interface::Interface;
use crate::interface::InterfaceConfig;
use crate::interface::InterfaceId;
use crate::interface::InterfaceKind;
use crate::interface::OperationalState;
use crate::ipv4::Ipv4Address;
use crate::ipv6::Ipv6Address;
use crate::mac::mac_is_its_octets;
use crate::mac::MacAddress;
use crate::mask::bytes_of;
use crate::neighbor::NeighborEntry;
use crate::neighbor::NeighborId;
use crate::neighbor::NeighborState;
use crate::neighbor::StaticNeighbor;
use crate::netlink::same_family;
use crate::route::Route;
use crate::route::RouteConfig;
use crate::route::RouteId;
use crate::wfp::ERROR_NOT_FOUND;
use crate::wide::decoded_text;
use crate::wide::text_of_wide;
use crate::wide::without_trailing_nuls;
use vstd::prelude::*;

verus! {

/// The status of a request that the caller may not make.
pub const ERROR_ACCESS_DENIED: u32 = 5;

/// The status of a request that has no meaning.
pub const ERROR_NOT_SUPPORTED: u32 = 50;

/// The status of a request to create an entry that already exists.
pub const ERROR_OBJECT_ALREADY_EXISTS: u32 = 5010;

/// The number of an Ethernet interface.
pub const IF_TYPE_ETHERNET_CSMACD: u32 = 6;

/// The number of a point-to-point interface.
pub const IF_TYPE_PPP: u32 = 23;

/// The number of a loopback interface.
pub const IF_TYPE_SOFTWARE_LOOPBACK: u32 = 24;

/// The number of a wireless interface.
pub const IF_TYPE_IEEE80211: u32 = 71;

/// The number of a virtual LAN interface.
pub const IF_TYPE_L2_VLAN: u32 = 135;

/// The number of a bridge interface.
pub const IF_TYPE_BRIDGE: u32 = 209;

/// The observed administrative status of an interface that is up.
pub const NET_IF_ADMIN_STATUS_UP: i32 = 1;

/// The administrative status that is requested to bring an interface up.
pub const MIB_IF_ADMIN_STATUS_UP: u32 = 1;

/// The administrative status that is requested to bring an interface down.
pub const MIB_IF_ADMIN_STATUS_DOWN: u32 = 2;

/// The operational status of an interface that is up.
pub const IF_OPER_STATUS_UP: i32 = 1;

/// The operational status of an interface that is down.
pub const IF_OPER_STATUS_DOWN: i32 = 2;

/// The operational status of an interface that waits for something.
pub const IF_OPER_STATUS_DORMANT: i32 = 5;

/// The operational status of an interface whose lower layer is down.
pub const IF_OPER_STATUS_LOWER_LAYER_DOWN: i32 = 7;

/// The state of a neighbor whose address is being resolved.
pub const NLNS_INCOMPLETE: i32 = 1;

/// The state of a neighbor that is being probed.
pub const NLNS_PROBE: i32 = 2;

/// The state of a neighbor that is about to be probed.
pub const NLNS_DELAY: i32 = 3;

/// The state of a neighbor that was reachable a while ago.
pub const NLNS_STALE: i32 = 4;

/// The state of a neighbor that is reachable.
pub const NLNS_REACHABLE: i32 = 5;

/// The state of a neighbor that was configured.
pub const NLNS_PERMANENT: i32 = 6;

// ---- errors ----

/// Returns the platform code of an I/O error, given its raw code if it has one.
pub fn io_error_code(raw: Option<i32>) -> (code: PlatformErrorCode)
    ensures
        code == PlatformErrorCode::Windows(
            match raw {
                Some(number) => (if number < 0 {
                    number + 0x1_0000_0000
                } else {
                    number as int
                }) as u32,
                None => 0,
            },
        ),
{
    match raw {
        Some(number) => {
            if number < 0 {
                PlatformErrorCode::Windows((number as i64 + 0x1_0000_0000) as u32)
            } else {
                PlatformErrorCode::Windows(number as u32)
            }
        },
        None => PlatformErrorCode::Windows(0),
    }
}

/// What a failed request about a static neighbor entry means.
pub open spec fn neighbor_error(status: u32) -> Error {
    if status == ERROR_ACCESS_DENIED {
        Error::PermissionDenied
    } else if status == ERROR_NOT_FOUND {
        Error::NotFound
    } else if status == ERROR_OBJECT_ALREADY_EXISTS {
        Error::AlreadyExists
    } else if status == ERROR_NOT_SUPPORTED {
        Error::Unsupported
    } else {
        Error::Platform(PlatformErrorCode::Windows(status))
    }
}

/// Tells what a failed request about a static neighbor entry means. A status without a meaning
/// of its own is kept.
pub fn static_neighbor_mutation_error(status: u32) -> (error: Error)
    ensures
        error == neighbor_error(status),
        error is PermissionDenied <==> status == 5,
        error is NotFound <==> status == 1168,
        error is AlreadyExists <==> status == 5010,
        error is Unsupported <==> status == 50,
        status != 5 && status != 1168 && status != 5010 && status != 50 ==> error
            == Error::Platform(PlatformErrorCode::Windows(status)),
{
    if status == ERROR_ACCESS_DENIED {
        Error::PermissionDenied
    } else if status == ERROR_NOT_FOUND {
        Error::NotFound
    } else if status == ERROR_OBJECT_ALREADY_EXISTS {
        Error::AlreadyExists
    } else if status == ERROR_NOT_SUPPORTED {
        Error::Unsupported
    } else {
        Error::Platform(PlatformErrorCode::Windows(status))
    }
}

// ---- addresses in rows ----

/// An address in a row, tagged with its family.
#[derive(Debug, Clone, Copy, PartialEq, Eq, Structural)]
pub enum SocketAddress {
    /// An IPv4 address.
    Inet(Ipv4Address),
    /// An IPv6 address.
    Inet6(Ipv6Address),
    /// No address, or one of another family.
    Unspecified,
}

/// The IP address in a row, if it is one.
pub open spec fn ip_in(address: SocketAddress) -> Option<IpAddress> {
    match address {
        SocketAddress::Inet(inner) => Some(IpAddress::V4(inner)),
        SocketAddress::Inet6(inner) => Some(IpAddress::V6(inner)),
        SocketAddress::Unspecified => None,
    }
}

/// An IP address as rows hold it.
pub open spec fn socket_of(address: IpAddress) -> SocketAddress {
    match address {
        IpAddress::V4(inner) => SocketAddress::Inet(inner),
        IpAddress::V6(inner) => SocketAddress::Inet6(inner),
    }
}

/// Reads the IP address in a row, if it is one.
pub fn sockaddr_inet_to_ip(address: &SocketAddress) -> (ip: Option<IpAddress>)
    ensures
        ip == ip_in(*address),
{
    match address {
        SocketAddress::Inet(inner) => Some(IpAddress::V4(*inner)),
        SocketAddress::Inet6(inner) => Some(IpAddress::V6(*inner)),
        SocketAddress::Unspecified => None,
    }
}

/// Returns an IP address as rows hold it, tagged with its family.
pub fn ip_to_sockaddr_inet(address: IpAddress) -> (socket: SocketAddress)
    ensures
        socket == socket_of(address),
{
    match address {
        IpAddress::V4(inner) => SocketAddress::Inet(inner),
        IpAddress::V6(inner) => SocketAddress::Inet6(inner),
    }
}

/// What looking up an interface's index by its identifier gave: a status, and an index where
/// the status is zero.
#[derive(Debug, Clone, Copy, PartialEq, Eq, Structural)]
pub struct IndexLookup {
    /// The status.
    pub status: u32,
    /// The index.
    pub index: u32,
}

/// The index of the interface that a notification is about.
pub open spec fn notified_index(lookup: IndexLookup, fallback: u32) -> u32 {
    if lookup.status == 0 && lookup.index != 0 {
        lookup.index
    } else {
        fallback
    }
}

/// Tells the index of the interface that a notification is about: the one that looking up its
/// identifier gave, and the notification's own only when that failed. The identifier is always
/// there, while the index may have been left at zero.
pub fn resolve_notification_interface_index(lookup: IndexLookup, fallback: u32) -> (index: u32)
    ensures
        index == notified_index(lookup, fallback),
        lookup.status == 0 && lookup.index != 0 ==> index == lookup.index,
        lookup.status != 0 || lookup.index == 0 ==> index == fallback,
{
    if lookup.status == 0 && lookup.index != 0 {
        lookup.index
    } else {
        fallback
    }
}

// ---- routes ----

/// A row of the route table.
#[derive(Debug, Clone, Copy, PartialEq, Eq, Structural)]
pub struct ForwardRow {
    /// The destination's address.
    pub prefix: SocketAddress,
    /// The destination's prefix length.
    pub prefix_length: u8,
    /// The next hop.
    pub next_hop: SocketAddress,
    /// The outgoing interface's identifier.
    pub interface_luid: u64,
    /// The outgoing interface's index; zero for none.
    pub interface_index: u32,
    /// The metric.
    pub metric: u32,
}

/// The bytes that stand for a number that may be absent.
pub open spec fn optional_number_bytes(number: Option<u32>) -> Seq<u8> {
    match number {
        Some(inner) => bytes_of(inner),
        None => Seq::empty(),
    }
}

/// What is hashed for a route: its destination, its gateway and its outgoing interface.
pub open spec fn route_key_rows(
    destination: Network,
    gateway: Option<IpAddress>,
    interface_index: Option<u32>,
) -> Seq<Seq<u8>> {
    seq![
        network_bytes(destination),
        optional_address_bytes(gateway),
        optional_number_bytes(interface_index),
    ]
}

/// Derives the identity of a route from its destination, its gateway and its outgoing
/// interface, so that routes to one destination which differ in gateway or interface differ.
pub fn synthesize_route_id(
    destination: &Network,
    gateway: &Option<IpAddress>,
    interface_index: Option<u32>,
) -> (id: RouteId)
    ensures
        id == RouteId::of(hash_of(route_key_rows(*destination, *gateway, interface_index))),
{
    let number = match interface_index {
        Some(index) => number_row(index),
        None => Vec::new(),
    };
    assert(number@ =~= optional_number_bytes(interface_index));
    let rows = vec![network_row(destination), optional_address_row(gateway), number];
    assert(byte_rows(rows@) =~= route_key_rows(*destination, *gateway, interface_index));
    RouteId::new(hash_rows(&rows))
}

/// The index in a row, where zero means none.
pub open spec fn nonzero(index: u32) -> Option<u32> {
    if index != 0 {
        Some(index)
    } else {
        None
    }
}

/// The route that a row describes. There is none without a destination address and a prefix
/// length that suits it.
pub open spec fn route_of_row(row: ForwardRow) -> Option<Route> {
    match ip_in(row.prefix) {
        None => None,
        Some(address) => match Network::of_parts(address, row.prefix_length) {
            None => None,
            Some(destination) => Some(
                Route {
                    id: RouteId::of(
                        hash_of(
                            route_key_rows(
                                destination,
                                ip_in(row.next_hop),
                                nonzero(row.interface_index),
                            ),
                        ),
                    ),
                    destination,
                    gateway: ip_in(row.next_hop),
                    metric: Some(row.metric),
                    interface_index: nonzero(row.interface_index),
                },
            ),
        },
    }
}

/// Reads the route that a row describes.
pub fn row_to_route(row: &ForwardRow) -> (route: Option<Route>)
    ensures
        route == route_of_row(*row),
{
    let address = match sockaddr_inet_to_ip(&row.prefix) {
        Some(address) => address,
        None => {
            return None;
        },
    };
    let destination = match Network::from_parts(address, row.prefix_length) {
        Some(destination) => destination,
        None => {
            return None;
        },
    };
    let gateway = sockaddr_inet_to_ip(&row.next_hop);
    let interface_index = if row.interface_index != 0 {
        Some(row.interface_index)
    } else {
        None
    };
    Some(
        Route {
            id: synthesize_route_id(&destination, &gateway, interface_index),
            destination,
            gateway,
            metric: Some(row.metric),
            interface_index,
        },
    )
}

/// Reads the routes that a table's rows describe; rows that describe none are left out.
pub fn rows_to_routes(rows: &Vec<ForwardRow>) -> (routes: Vec<Route>)
    ensures
        routes@ == gathered(rows@.len(), |i: int| optional(route_of_row(rows@[i]))),
{
    let ghost piece = |i: int| optional(route_of_row(rows@[i]));
    let mut routes: Vec<Route> = Vec::new();
    let mut i: usize = 0;
    while i < rows.len()
        invariant
            i <= rows.len(),
            piece == (|k: int| optional(route_of_row(rows@[k]))),
            routes@ == gathered(i as nat, piece),
        decreases rows.len() - i,
    {
        if let Some(route) = row_to_route(&rows[i]) {
            routes.push(route);
        }
        i = i + 1;
        assert(routes@ =~= gathered((i - 1) as nat, piece) + piece(i - 1));
    }
    routes
}

/// Returns the row that reading the table would have given for the route of a notification:
/// its interface index is made good.
pub fn corrected_route_notification_row(row: &ForwardRow, lookup: IndexLookup) -> (corrected:
    ForwardRow)
    ensures
        corrected == (ForwardRow {
            interface_index: notified_index(lookup, row.interface_index),
            ..*row
        }),
{
    ForwardRow {
        prefix: row.prefix,
        prefix_length: row.prefix_length,
        next_hop: row.next_hop,
        interface_luid: row.interface_luid,
        interface_index: resolve_notification_interface_index(lookup, row.interface_index),
        metric: row.metric,
    }
}

/// Checks that a route's gateway has the family of its destination: [`Error::InvalidState`]
/// when it does not.
pub fn validate_route_family(route: &RouteConfig) -> (valid: Result<()>)
    ensures
        match valid {
            Ok(_) => route.gateway matches Some(gateway) ==> same_family(
                route.destination,
                gateway,
            ),
            Err(error) => error is InvalidState && (route.gateway matches Some(gateway)
                && !same_family(route.destination, gateway)),
        },
        valid is Ok <==> (route.gateway matches Some(gateway) ==> (gateway is V4
            <==> route.destination is V4)),
{
    match (&route.destination, &route.gateway) {
        (Network::V4(_), Some(IpAddress::V6(_))) => Err(Error::InvalidState),
        (Network::V6(_), Some(IpAddress::V4(_))) => Err(Error::InvalidState),
        _ => Ok(()),
    }
}

/// A number that may be absent, where zero means absent.
pub open spec fn number_or_zero(number: Option<u32>) -> u32 {
    match number {
        Some(inner) => inner,
        None => 0,
    }
}

/// Returns a number that may be absent, where zero means absent.
fn or_zero(number: Option<u32>) -> (value: u32)
    ensures
        value == number_or_zero(number),
{
    match number {
        Some(inner) => inner,
        None => 0,
    }
}

/// The row that asks for a route.
pub open spec fn row_of_route(route: RouteConfig) -> ForwardRow {
    ForwardRow {
        prefix: socket_of(route.destination.address()),
        prefix_length: route.destination.prefix_bits(),
        next_hop: match route.gateway {
            Some(gateway) => socket_of(gateway),
            None => SocketAddress::Unspecified,
        },
        interface_luid: 0,
        interface_index: number_or_zero(route.interface_index),
        metric: number_or_zero(route.metric),
    }
}

/// Builds the row that asks for a route.
pub fn build_row(route: &RouteConfig) -> (row: ForwardRow)
    ensures
        row == row_of_route(*route),
{
    ForwardRow {
        prefix: ip_to_sockaddr_inet(route.destination.address()),
        prefix_length: route.destination.prefix_len(),
        next_hop: match route.gateway {
            Some(gateway) => ip_to_sockaddr_inet(gateway),
            None => SocketAddress::Unspecified,
        },
        interface_luid: 0,
        interface_index: or_zero(route.interface_index),
        metric: or_zero(route.metric),
    }
}

/// Whether a row is one that removing a route is about: same interface, same destination.
pub open spec fn is_row_of(row: ForwardRow, route: RouteConfig) -> bool {
    row.interface_index == number_or_zero(route.interface_index) && (route_of_row(row) matches Some(
        found,
    ) && found.destination == route.destination)
}

/// Finds the row that removing a route is about: the first with its interface and its
/// destination. [`Error::NotFound`] when there is none.
pub fn find_route_row(rows: &Vec<ForwardRow>, route: &RouteConfig) -> (found: Result<usize>)
    ensures
        match found {
            Ok(i) => i < rows@.len() && is_row_of(rows@[i as int], *route) && forall|k: int|
                0 <= k < i ==> !is_row_of(#[trigger] rows@[k], *route),
            Err(error) => error is NotFound && forall|k: int|
                0 <= k < rows@.len() ==> !is_row_of(#[trigger] rows@[k], *route),
        },
{
    let mut i: usize = 0;
    while i < rows.len()
        invariant
            i <= rows.len(),
            forall|k: int| 0 <= k < i ==> !is_row_of(#[trigger] rows@[k], *route),
        decreases rows.len() - i,
    {
        if rows[i].interface_index == or_zero(route.interface_index) {
            if let Some(existing) = row_to_route(&rows[i]) {
                if existing.destination == route.destination {
                    return Ok(i);
                }
            }
        }
        i = i + 1;
    }
    Err(Error::NotFound)
}

// ---- interfaces ----

/// A row of the interface table.
#[derive(Debug, Clone, PartialEq, Eq)]
pub struct InterfaceRow {
    /// The index.
    pub index: u32,
    /// The name, as wide text padded with NULs.
    pub alias: Vec<u16>,
    /// The hardware address's octets, padded.
    pub physical_address: [u8; 32],
    /// How many octets the hardware address has.
    pub physical_address_length: u32,
    /// The number of the interface's kind.
    pub if_type: u32,
    /// The administrative status.
    pub admin_status: i32,
    /// The operational status.
    pub oper_status: i32,
    /// The MTU.
    pub mtu: u32,
}

/// The kind of interface that a number stands for.
pub open spec fn kind_of_type(if_type: u32) -> InterfaceKind {
    if if_type == IF_TYPE_ETHERNET_CSMACD || if_type == IF_TYPE_L2_VLAN {
        InterfaceKind::Ethernet
    } else if if_type == IF_TYPE_SOFTWARE_LOOPBACK {
        InterfaceKind::Loopback
    } else if if_type == IF_TYPE_PPP {
        InterfaceKind::PointToPoint
    } else if if_type == IF_TYPE_IEEE80211 {
        InterfaceKind::Wireless
    } else if if_type == IF_TYPE_BRIDGE {
        InterfaceKind::Bridge
    } else {
        InterfaceKind::Other(if_type)
    }
}

/// Returns the kind of interface that a number stands for.
pub fn if_type_to_kind(if_type: u32) -> (kind: InterfaceKind)
    ensures
        kind == kind_of_type(if_type),
{
    if if_type == IF_TYPE_ETHERNET_CSMACD || if_type == IF_TYPE_L2_VLAN {
        InterfaceKind::Ethernet
    } else if if_type == IF_TYPE_SOFTWARE_LOOPBACK {
        InterfaceKind::Loopback
    } else if if_type == IF_TYPE_PPP {
        InterfaceKind::PointToPoint
    } else if if_type == IF_TYPE_IEEE80211 {
        InterfaceKind::Wireless
    } else if if_type == IF_TYPE_BRIDGE {
        InterfaceKind::Bridge
    } else {
        InterfaceKind::Other(if_type)
    }
}

/// The hardware address in a padded field, if it has six octets.
pub open spec fn mac_in_field(octets: Seq<u8>, length: u32) -> Option<MacAddress> {
    if length == 6 {
        Some(MacAddress::of(octets.take(6)))
    } else {
        None
    }
}

/// Reads the hardware address in a padded field, if it has six octets.
fn read_mac(octets: &[u8; 32], length: u32) -> (mac: Option<MacAddress>)
    ensures
        mac == mac_in_field(octets@, length),
{
    if length == 6 {
        let first = [octets[0], octets[1], octets[2], octets[3], octets[4], octets[5]];
        assert(first@ =~= octets@.take(6));
        Some(MacAddress::new(first))
    } else {
        None
    }
}

/// The operational state that a status stands for.
pub open spec fn state_of_status(status: i32) -> OperationalState {
    if status == IF_OPER_STATUS_UP {
        OperationalState::Up
    } else if status == IF_OPER_STATUS_DOWN || status == IF_OPER_STATUS_LOWER_LAYER_DOWN {
        OperationalState::Down
    } else if status == IF_OPER_STATUS_DORMANT {
        OperationalState::NoCarrier
    } else {
        OperationalState::Unknown
    }
}

/// Whether an interface is the one that a row describes.
pub open spec fn is_interface_of(interface: Interface, row: InterfaceRow) -> bool {
    &&& interface.id == InterfaceId::of(row.index as u64)
    &&& interface.index == row.index
    &&& interface.name@ == without_trailing_nuls(decoded_text(row.alias@))
    &&& interface.kind == kind_of_type(row.if_type)
    &&& interface.mac == mac_in_field(row.physical_address@, row.physical_address_length)
    &&& interface.mtu == Some(row.mtu)
    &&& interface.admin_state == (if row.admin_status == NET_IF_ADMIN_STATUS_UP {
        AdminState::Up
    } else {
        AdminState::Down
    })
    &&& interface.operational_state == state_of_status(row.oper_status)
}

/// Reads the interface that a row describes.
pub fn row_to_interface(row: &InterfaceRow) -> (interface: Interface)
    ensures
        is_interface_of(interface, *row),
        interface.id == InterfaceId::of(row.index as u64),
        interface.index == row.index,
        interface.mtu == Some(row.mtu),
        interface.admin_state == AdminState::Up <==> row.admin_status == NET_IF_ADMIN_STATUS_UP,
        interface.admin_state == AdminState::Down <==> row.admin_status != NET_IF_ADMIN_STATUS_UP,
        interface.operational_state == OperationalState::Up <==> row.oper_status
            == IF_OPER_STATUS_UP,
        interface.operational_state == OperationalState::Down <==> row.oper_status
            == IF_OPER_STATUS_DOWN || row.oper_status == IF_OPER_STATUS_LOWER_LAYER_DOWN,
        interface.operational_state == OperationalState::NoCarrier <==> row.oper_status
            == IF_OPER_STATUS_DORMANT,
        interface.operational_state == OperationalState::Unknown <==> row.oper_status
            != IF_OPER_STATUS_UP && row.oper_status != IF_OPER_STATUS_DOWN && row.oper_status
            != IF_OPER_STATUS_LOWER_LAYER_DOWN && row.oper_status != IF_OPER_STATUS_DORMANT,
        interface.mac is Some <==> row.physical_address_length == 6,
{
    let admin_state = if row.admin_status == NET_IF_ADMIN_STATUS_UP {
        AdminState::Up
    } else {
        AdminState::Down
    };
    let operational_state = if row.oper_status == IF_OPER_STATUS_UP {
        OperationalState::Up
    } else if row.oper_status == IF_OPER_STATUS_DOWN || row.oper_status
        == IF_OPER_STATUS_LOWER_LAYER_DOWN {
        OperationalState::Down
    } else if row.oper_status == IF_OPER_STATUS_DORMANT {
        OperationalState::NoCarrier
    } else {
        OperationalState::Unknown
    };
    Interface {
        id: InterfaceId::new(row.index as u64),
        index: row.index,
        name: text_of_wide(&row.alias),
        kind: if_type_to_kind(row.if_type),
        mac: read_mac(&row.physical_address, row.physical_address_length),
        mtu: Some(row.mtu),
        admin_state,
        operational_state,
    }
}

/// Returns the administrative status that asks for a state.
pub fn desired_admin_status(state: DesiredAdminState) -> (status: Result<u32>)
    ensures
        status matches Ok(number) && number == (match state {
            DesiredAdminState::Up => MIB_IF_ADMIN_STATUS_UP,
            DesiredAdminState::Down => MIB_IF_ADMIN_STATUS_DOWN,
        }),
        state == DesiredAdminState::Up ==> (status matches Ok(number) && number == 1),
        state == DesiredAdminState::Down ==> (status matches Ok(number) && number == 2),
{
    match state {
        DesiredAdminState::Up => Ok(MIB_IF_ADMIN_STATUS_UP),
        DesiredAdminState::Down => Ok(MIB_IF_ADMIN_STATUS_DOWN),
    }
}

/// An address family with settings of its own on an interface.
#[derive(Debug, Clone, Copy, PartialEq, Eq, Structural)]
pub enum IpFamily {
    /// IPv4.
    Inet,
    /// IPv6.
    Inet6,
}

/// The settings of an interface for one family.
#[derive(Debug, Clone, Copy, PartialEq, Eq, Structural)]
pub struct IpInterfaceRow {
    /// The family.
    pub family: IpFamily,
    /// The interface's index.
    pub interface_index: u32,
    /// The MTU.
    pub nl_mtu: u32,
    /// The site prefix length.
    pub site_prefix_length: u32,
}

/// Prepares settings that were read for a change of the MTU alone. The site prefix length of
/// IPv4 has to be handed in as zero, whatever was read.
pub fn prepare_ip_interface_row_for_mtu_update(row: &mut IpInterfaceRow, mtu: u32)
    ensures
        *final(row) == (IpInterfaceRow {
            nl_mtu: mtu,
            site_prefix_length: if old(row).family == IpFamily::Inet {
                0
            } else {
                old(row).site_prefix_length
            },
            ..*old(row)
        }),
{
    row.nl_mtu = mtu;
    if row.family == IpFamily::Inet {
        row.site_prefix_length = 0;
    }
}

/// Tells from the status of reading an interface's settings for one family whether there are
/// any. A family that is not there is no failure.
pub fn family_is_present(status: u32) -> (present: Result<bool>)
    ensures
        match present {
            Ok(there) => (there <==> status == 0) && (status == 0 || status == ERROR_NOT_FOUND),
            Err(error) => status != 0 && status != ERROR_NOT_FOUND && error == Error::Platform(
                PlatformErrorCode::Windows(status),
            ),
        },
        present is Ok <==> status == 0 || status == 1168,
{
    if status == ERROR_NOT_FOUND {
        Ok(false)
    } else if status != 0 {
        Err(Error::Platform(PlatformErrorCode::Windows(status)))
    } else {
        Ok(true)
    }
}

/// One change of an interface.
#[derive(Debug, Clone, Copy, PartialEq, Eq, Structural)]
pub enum InterfaceWrite {
    /// Set the administrative state.
    Admin(DesiredAdminState),
    /// Set the MTU for one family.
    Mtu(IpFamily, u32),
}

/// The changes that a patch asks for, in the order in which they are made: the administrative
/// state before the MTU, and the MTU for every family.
pub open spec fn writes_of(config: InterfaceConfig) -> Seq<InterfaceWrite> {
    (match config.admin_state() {
        Some(state) => seq![InterfaceWrite::Admin(state)],
        None => Seq::empty(),
    }) + (match config.mtu() {
        Some(mtu) => seq![
            InterfaceWrite::Mtu(IpFamily::Inet, mtu),
            InterfaceWrite::Mtu(IpFamily::Inet6, mtu),
        ],
        None => Seq::empty(),
    })
}

/// Returns the changes that a patch asks for, in the order in which they are made.
pub fn interface_writes(config: &InterfaceConfig) -> (writes: Vec<InterfaceWrite>)
    ensures
        writes@ == writes_of(*config),
{
    let mut writes: Vec<InterfaceWrite> = Vec::new();
    if let Some(state) = config.admin_state() {
        writes.push(InterfaceWrite::Admin(state));
    }
    if let Some(mtu) = config.mtu() {
        writes.push(InterfaceWrite::Mtu(IpFamily::Inet, mtu));
        writes.push(InterfaceWrite::Mtu(IpFamily::Inet6, mtu));
    }
    assert(writes@ =~= writes_of(*config));
    writes
}

/// How a change went.
#[derive(Debug, Clone, Copy, PartialEq, Eq, Structural)]
pub enum WriteAnswer {
    /// It was made.
    Applied,
    /// There was nothing to change: the family is not there.
    Absent,
    /// It failed.
    Failed,
}

/// What is to be done next of a list of changes.
#[derive(Debug, Clone, Copy, PartialEq, Eq, Structural)]
pub enum WriteStep {
    /// Make this change.
    Write(InterfaceWrite),
    /// Stop: the last change failed.
    Stop,
    /// Report that no family was there to set the MTU for.
    NoFamily,
    /// Everything was done.
    Finished,
}

/// Whether some MTU change was made.
pub open spec fn mtu_applied(writes: Seq<InterfaceWrite>, answers: Seq<WriteAnswer>) -> bool {
    exists|i: int|
        0 <= i < writes.len() && i < answers.len() && (#[trigger] writes[i]) is Mtu && answers[i]
            == WriteAnswer::Applied
}

/// Whether an MTU change is asked for.
pub open spec fn mtu_requested(writes: Seq<InterfaceWrite>) -> bool {
    exists|i: int| 0 <= i < writes.len() && (#[trigger] writes[i]) is Mtu
}

/// What follows on the answers to the changes so far: changes are made in order, the first
/// failure stops them and leaves the earlier ones standing, and an MTU that no family took is
/// an error.
pub open spec fn step_of(writes: Seq<InterfaceWrite>, answers: Seq<WriteAnswer>) -> WriteStep {
    if answers.len() > 0 && answers.last() == WriteAnswer::Failed {
        WriteStep::Stop
    } else if answers.len() < writes.len() {
        WriteStep::Write(writes[answers.len() as int])
    } else if mtu_requested(writes) && !mtu_applied(writes, answers) {
        WriteStep::NoFamily
    } else {
        WriteStep::Finished
    }
}

/// Returns what follows on the answers to the changes so far.
pub fn next_write(writes: &Vec<InterfaceWrite>, answers: &Vec<WriteAnswer>) -> (step: WriteStep)
    ensures
        step == step_of(writes@, answers@),
{
    if answers.len() > 0 && answers[answers.len() - 1] == WriteAnswer::Failed {
        return WriteStep::Stop;
    }
    if answers.len() < writes.len() {
        return WriteStep::Write(writes[answers.len()]);
    }
    let mut requested = false;
    let mut applied = false;
    let mut i: usize = 0;
    while i < writes.len()
        invariant
            i <= writes.len() <= answers.len(),
            requested == exists|k: int| 0 <= k < i && (#[trigger] writes@[k]) is Mtu,
            applied == exists|k: int|
                0 <= k < i && (#[trigger] writes@[k]) is Mtu && answers@[k]
                    == WriteAnswer::Applied,
        decreases writes.len() - i,
    {
        let is_mtu = matches!(writes[i], InterfaceWrite::Mtu(_, _));
        assert(is_mtu == (writes@[i as int] is Mtu));
        if is_mtu {
            requested = true;
            if answers[i] == WriteAnswer::Applied {
                applied = true;
            }
        }
        i = i + 1;
    }
    assert(requested == mtu_requested(writes@));
    assert(applied == mtu_applied(writes@, answers@));
    if requested && !applied {
        WriteStep::NoFamily
    } else {
        WriteStep::Finished
    }
}

// ---- assigned addresses ----

/// A row of the address table.
#[derive(Debug, Clone, Copy, PartialEq, Eq, Structural)]
pub struct UnicastRow {
    /// The address.
    pub address: SocketAddress,
    /// The interface's identifier.
    pub interface_luid: u64,
    /// The interface's index.
    pub interface_index: u32,
    /// The prefix length.
    pub on_link_prefix_length: u8,
}

/// Derives the identity of an assigned address from its interface and the address itself. The
/// prefix length plays no part: a notification of a removal does not carry it reliably.
pub fn synthesize_interface_address_id(interface_index: u32, address: &IpAddress) -> (id:
    InterfaceAddressId)
    ensures
        id == InterfaceAddressId::of(hash_of(neighbor_rows(interface_index, *address))),
{
    let rows = vec![number_row(interface_index), crate::identity::address_row(address)];
    assert(byte_rows(rows@) =~= neighbor_rows(interface_index, *address));
    InterfaceAddressId::new(hash_rows(&rows))
}

/// The assigned address that a row describes. There is none without an IP address and a prefix
/// length that suits it.
pub open spec fn address_of_row(row: UnicastRow) -> Option<InterfaceAddress> {
    match ip_in(row.address) {
        None => None,
        Some(address) => match Network::of_parts(address, row.on_link_prefix_length) {
            None => None,
            Some(network) => Some(
                InterfaceAddress {
                    id: InterfaceAddressId::of(
                        hash_of(neighbor_rows(row.interface_index, address)),
                    ),
                    interface_index: row.interface_index,
                    address: network,
                    broadcast: None,
                },
            ),
        },
    }
}

/// Reads the assigned address that a row describes.
pub fn row_to_interface_address(row: &UnicastRow) -> (address: Option<InterfaceAddress>)
    ensures
        address == address_of_row(*row),
{
    let address = match sockaddr_inet_to_ip(&row.address) {
        Some(address) => address,
        None => {
            return None;
        },
    };
    match Network::from_parts(address, row.on_link_prefix_length) {
        Some(network) => Some(
            InterfaceAddress {
                id: synthesize_interface_address_id(row.interface_index, &address),
                interface_index: row.interface_index,
                address: network,
                broadcast: None,
            },
        ),
        None => None,
    }
}

/// Reads the assigned addresses that a table's rows describe; rows that describe none are left
/// out.
pub fn rows_to_addresses(rows: &Vec<UnicastRow>) -> (addresses: Vec<InterfaceAddress>)
    ensures
        addresses@ == gathered(rows@.len(), |i: int| optional(address_of_row(rows@[i]))),
{
    let ghost piece = |i: int| optional(address_of_row(rows@[i]));
    let mut addresses: Vec<InterfaceAddress> = Vec::new();
    let mut i: usize = 0;
    while i < rows.len()
        invariant
            i <= rows.len(),
            piece == (|k: int| optional(address_of_row(rows@[k]))),
            addresses@ == gathered(i as nat, piece),
        decreases rows.len() - i,
    {
        if let Some(address) = row_to_interface_address(&rows[i]) {
            addresses.push(address);
        }
        i = i + 1;
        assert(addresses@ =~= gathered((i - 1) as nat, piece) + piece(i - 1));
    }
    addresses
}

/// Returns the row that asks for the full entry that a notification is about: it selects by
/// address and interface.
pub fn address_query_row(row: &UnicastRow, lookup: IndexLookup) -> (query: UnicastRow)
    ensures
        query == (UnicastRow {
            interface_index: notified_index(lookup, row.interface_index),
            on_link_prefix_length: 0,
            ..*row
        }),
{
    UnicastRow {
        address: row.address,
        interface_luid: row.interface_luid,
        interface_index: resolve_notification_interface_index(lookup, row.interface_index),
        on_link_prefix_length: 0,
    }
}

/// The row that reading the table would have given for the address of a notification.
pub open spec fn completed_row(
    row: UnicastRow,
    removed: bool,
    lookup: IndexLookup,
    queried: Option<(UnicastRow, IndexLookup)>,
) -> UnicastRow {
    match queried {
        Some((found, again)) if !removed => UnicastRow {
            interface_index: notified_index(again, found.interface_index),
            ..found
        },
        _ => UnicastRow { interface_index: notified_index(lookup, row.interface_index), ..row },
    }
}

/// Returns the row that reading the table would have given for the address of a notification.
///
/// `queried` is the full entry with what looking up its interface gave, if there is such an
/// entry. For a removal there is none any more, and the notification's own row is used, with
/// its interface index made good.
pub fn complete_address_notification_row(
    row: &UnicastRow,
    removed: bool,
    lookup: IndexLookup,
    queried: Option<(UnicastRow, IndexLookup)>,
) -> (completed: UnicastRow)
    ensures
        completed == completed_row(*row, removed, lookup, queried),
{
    if !removed {
        if let Some((found, again)) = queried {
            return UnicastRow {
                address: found.address,
                interface_luid: found.interface_luid,
                interface_index: resolve_notification_interface_index(
                    again,
                    found.interface_index,
                ),
                on_link_prefix_length: found.on_link_prefix_length,
            };
        }
    }
    UnicastRow {
        address: row.address,
        interface_luid: row.interface_luid,
        interface_index: resolve_notification_interface_index(lookup, row.interface_index),
        on_link_prefix_length: row.on_link_prefix_length,
    }
}

/// The row that assigns a network to an interface.
pub open spec fn row_of_address(interface_index: u32, network: Network) -> UnicastRow {
    UnicastRow {
        address: socket_of(network.address()),
        interface_luid: 0,
        interface_index,
        on_link_prefix_length: network.prefix_bits(),
    }
}

/// Builds the row that assigns an address.
pub fn build_unicast_address_row(address: &NewInterfaceAddress) -> (row: UnicastRow)
    ensures
        row == row_of_address(low_index(address.interface_id), address.address),
{
    UnicastRow {
        address: ip_to_sockaddr_inet(address.address.address()),
        interface_luid: 0,
        interface_index: truncated_index(address.interface_id),
        on_link_prefix_length: address.address.prefix_len(),
    }
}

/// Builds the row that takes an assigned address away.
pub fn address_removal_row(address: &InterfaceAddress) -> (row: UnicastRow)
    ensures
        row == row_of_address(address.interface_index, address.address),
{
    UnicastRow {
        address: ip_to_sockaddr_inet(address.address.address()),
        interface_luid: 0,
        interface_index: address.interface_index,
        on_link_prefix_length: address.address.prefix_len(),
    }
}

/// Checks that an address can be assigned as asked.
///
/// IPv6 has no broadcast addresses: [`Error::InvalidState`] when one is asked for. That of IPv4
/// follows from the prefix and cannot be chosen: [`Error::Unsupported`] when one is.
pub fn check_new_address(address: &NewInterfaceAddress) -> (valid: Result<()>)
    ensures
        match valid {
            Ok(_) => address.broadcast is None,
            Err(error) => address.broadcast is Some && error == (if address.address is V6 {
                Error::InvalidState
            } else {
                Error::Unsupported
            }),
        },
{
    if address.broadcast.is_some() {
        if matches!(address.address, Network::V6(_)) {
            Err(Error::InvalidState)
        } else {
            Err(Error::Unsupported)
        }
    } else {
        Ok(())
    }
}

// ---- neighbors ----

/// A row of the neighbor table.
#[derive(Debug, Clone, PartialEq, Eq)]
pub struct NeighborRow {
    /// The interface's index.
    pub interface_index: u32,
    /// The address.
    pub address: SocketAddress,
    /// The link-layer address's octets, padded.
    pub physical_address: [u8; 32],
    /// How many octets the link-layer address has.
    pub physical_address_length: u32,
    /// The state.
    pub state: i32,
}

/// The reachability that a state stands for.
pub open spec fn reachability_in(state: i32) -> NeighborState {
    if state == NLNS_INCOMPLETE {
        NeighborState::Incomplete
    } else if state == NLNS_REACHABLE {
        NeighborState::Reachable
    } else if state == NLNS_STALE {
        NeighborState::Stale
    } else if state == NLNS_DELAY {
        NeighborState::Delay
    } else if state == NLNS_PROBE {
        NeighborState::Probe
    } else if state == NLNS_PERMANENT {
        NeighborState::Permanent
    } else {
        NeighborState::Unknown
    }
}

/// Returns the reachability that a state stands for.
pub fn neighbor_state_to_state(state: i32) -> (reachability: NeighborState)
    ensures
        reachability == reachability_in(state),
{
    if state == NLNS_INCOMPLETE {
        NeighborState::Incomplete
    } else if state == NLNS_REACHABLE {
        NeighborState::Reachable
    } else if state == NLNS_STALE {
        NeighborState::Stale
    } else if state == NLNS_DELAY {
        NeighborState::Delay
    } else if state == NLNS_PROBE {
        NeighborState::Probe
    } else if state == NLNS_PERMANENT {
        NeighborState::Permanent
    } else {
        NeighborState::Unknown
    }
}

/// The neighbor entry that a row describes, if it holds an IP address.
pub open spec fn neighbor_of_row(row: NeighborRow) -> Option<NeighborEntry> {
    match ip_in(row.address) {
        None => None,
        Some(address) => Some(
            NeighborEntry {
                id: NeighborId::of(hash_of(neighbor_rows(row.interface_index, address))),
                interface_index: row.interface_index,
                address,
                mac: mac_in_field(row.physical_address@, row.physical_address_length),
                state: reachability_in(row.state),
            },
        ),
    }
}

/// Reads the neighbor entry that a row describes.
pub fn row_to_neighbor(row: &NeighborRow) -> (entry: Option<NeighborEntry>)
    ensures
        entry == neighbor_of_row(*row),
{
    match sockaddr_inet_to_ip(&row.address) {
        None => None,
        Some(address) => Some(
            NeighborEntry {
                id: synthesize_neighbor_id(row.interface_index, &address),
                interface_index: row.interface_index,
                address,
                mac: read_mac(&row.physical_address, row.physical_address_length),
                state: neighbor_state_to_state(row.state),
            },
        ),
    }
}

/// Reads the neighbor entries that a table's rows describe; rows that describe none are left
/// out.
pub fn rows_to_neighbors(rows: &Vec<NeighborRow>) -> (entries: Vec<NeighborEntry>)
    ensures
        entries@ == gathered(rows@.len(), |i: int| optional(neighbor_of_row(rows@[i]))),
{
    let ghost piece = |i: int| optional(neighbor_of_row(rows@[i]));
    let mut entries: Vec<NeighborEntry> = Vec::new();
    let mut i: usize = 0;
    while i < rows.len()
        invariant
            i <= rows.len(),
            piece == (|k: int| optional(neighbor_of_row(rows@[k]))),
            entries@ == gathered(i as nat, piece),
        decreases rows.len() - i,
    {
        if let Some(entry) = row_to_neighbor(&rows[i]) {
            entries.push(entry);
        }
        i = i + 1;
        assert(entries@ =~= gathered((i - 1) as nat, piece) + piece(i - 1));
    }
    entries
}

/// Whether a row creates a static entry.
pub open spec fn creates_neighbor(
    row: NeighborRow,
    interface_index: u32,
    address: IpAddress,
    mac: Seq<u8>,
) -> bool {
    &&& row.interface_index == interface_index
    &&& row.address == socket_of(address)
    &&& row.physical_address_length == 6
    &&& row.physical_address@ == mac + Seq::new(26, |i: int| 0u8)
    &&& row.state == NLNS_PERMANENT
}

/// Builds the row that creates a static entry.
pub fn static_neighbor_create_row(interface_index: u32, address: IpAddress, mac: [u8; 6]) -> (row:
    NeighborRow)
    ensures
        creates_neighbor(row, interface_index, address, mac@),
{
    let mut physical_address = [0u8; 32];
    physical_address[0] = mac[0];
    physical_address[1] = mac[1];
    physical_address[2] = mac[2];
    physical_address[3] = mac[3];
    physical_address[4] = mac[4];
    physical_address[5] = mac[5];
    assert(physical_address@ =~= mac@ + Seq::new(26, |i: int| 0u8));
    NeighborRow {
        interface_index,
        address: ip_to_sockaddr_inet(address),
        physical_address,
        physical_address_length: 6,
        state: NLNS_PERMANENT,
    }
}

/// Whether a row selects the entry for an address on an interface and says nothing else.
pub open spec fn selects_entry(row: NeighborRow, interface_index: u32, address: IpAddress) -> bool {
    &&& row.interface_index == interface_index
    &&& row.address == socket_of(address)
    &&& row.physical_address_length == 0
    &&& row.physical_address@ == Seq::new(32, |i: int| 0u8)
    &&& row.state == 0
}

/// Builds the row that selects the entry for an address on an interface, for removing it and
/// for reading it.
pub fn static_neighbor_delete_row(interface_index: u32, address: IpAddress) -> (row: NeighborRow)
    ensures
        selects_entry(row, interface_index, address),
{
    let physical_address = [0u8; 32];
    assert(physical_address@ =~= Seq::new(32, |i: int| 0u8));
    NeighborRow {
        interface_index,
        address: ip_to_sockaddr_inet(address),
        physical_address,
        physical_address_length: 0,
        state: 0,
    }
}

/// Builds the row that creates the static entry that is asked for.
pub fn static_neighbor_addition(neighbor: &StaticNeighbor) -> (row: NeighborRow)
    ensures
        creates_neighbor(
            row,
            low_index(neighbor.interface_id),
            neighbor.address,
            neighbor.mac.bytes(),
        ),
{
    static_neighbor_create_row(
        truncated_index(neighbor.interface_id),
        neighbor.address,
        neighbor.mac.octets(),
    )
}

/// Confirms that a static entry that was just created can be read, given the status of reading
/// it and what was read.
///
/// Returns the entry, or [`Error::InvalidState`] when it cannot be read.
pub fn confirm_static_neighbor(status: u32, row: &NeighborRow) -> (confirmed: Result<NeighborEntry>)
    ensures
        match confirmed {
            Ok(entry) => status == 0 && neighbor_of_row(*row) == Some(entry),
            Err(error) => error is InvalidState && (status != 0 || neighbor_of_row(*row) is None),
        },
{
    if status != 0 {
        return Err(Error::InvalidState);
    }
    match row_to_neighbor(row) {
        Some(entry) => Ok(entry),
        None => Err(Error::InvalidState),
    }
}

/// Builds the row that removes a static entry, given what is observed.
///
/// [`Error::NotFound`] when there is no such entry, and [`Error::InvalidState`] when it was
/// learned and not configured.
pub fn static_neighbor_removal(observed: &Vec<NeighborEntry>, neighbor: &StaticNeighbor) -> (row:
    Result<NeighborRow>)
    ensures
        match first_neighbor(observed@, low_index(neighbor.interface_id), neighbor.address) {
            None => row matches Err(error) && error is NotFound,
            Some(entry) => if entry.state == NeighborState::Permanent {
                row matches Ok(found) && selects_entry(
                    found,
                    low_index(neighbor.interface_id),
                    neighbor.address,
                )
            } else {
                row matches Err(error) && error is InvalidState
            },
        },
{
    let index = truncated_index(neighbor.interface_id);
    match check_static_neighbor_removal(observed, index, neighbor.address) {
        Ok(_) => Ok(static_neighbor_delete_row(index, neighbor.address)),
        Err(error) => Err(error),
    }
}

// ---- laws ----

/// An address reads back from a row.
pub proof fn socket_address_reads_back(address: IpAddress)
    ensures
        ip_in(socket_of(address)) == Some(address),
{
}

/// A route that was asked for reads back from its row, where an absent metric reads as zero and
/// the interface zero as none. Removing that route finds the row.
pub proof fn route_row_reads_back(route: RouteConfig)
    requires
        route.destination.valid(),
    ensures
        route_of_row(row_of_route(route)) matches Some(found) && found.destination
            == route.destination && found.gateway == route.gateway && found.metric == Some(
            number_or_zero(route.metric),
        ) && found.interface_index == nonzero(number_or_zero(route.interface_index)),
        is_row_of(row_of_route(route), route),
{
    network_is_its_parts(route.destination);
    if let Some(gateway) = route.gateway {
        socket_address_reads_back(gateway);
    }
}

/// What is hashed for routes tells them apart: it is the same for two of them exactly when
/// destination, gateway and interface are.
pub proof fn route_keys_tell_apart(
    left: Network,
    left_gateway: Option<IpAddress>,
    left_index: Option<u32>,
    right: Network,
    right_gateway: Option<IpAddress>,
    right_index: Option<u32>,
)
    requires
        left.valid(),
        right.valid(),
    ensures
        route_key_rows(left, left_gateway, left_index) == route_key_rows(
            right,
            right_gateway,
            right_index,
        ) <==> left == right && left_gateway == right_gateway && left_index == right_index,
{
    let one = route_key_rows(left, left_gateway, left_index);
    let other = route_key_rows(right, right_gateway, right_index);
    if one == other {
        assert(one[0] == other[0]);
        assert(one[1] == other[1]);
        assert(one[2] == other[2]);
        address_bytes_tell_apart(left.address(), right.address(), left, right);
        match (left_gateway, right_gateway) {
            (Some(a), Some(b)) => {
                address_bytes_tell_apart(a, b, left, right);
            },
            (Some(a), None) => {
                address_bytes_tell_apart(a, a, left, right);
            },
            (None, Some(b)) => {
                address_bytes_tell_apart(b, b, left, right);
            },
            (None, None) => {},
        }
        match (left_index, right_index) {
            (Some(a), Some(b)) => {
                lemma_number_bytes(a, b);
            },
            (Some(a), None) => {
                assert(bytes_of(a).len() == 4);
            },
            (None, Some(b)) => {
                assert(bytes_of(b).len() == 4);
            },
            (None, None) => {},
        }
    }
}

/// An address that was assigned reads back from its row, and its identity does not depend on
/// the prefix length.
pub proof fn address_row_reads_back(interface_index: u32, network: Network, other: UnicastRow)
    requires
        network.valid(),
    ensures
        address_of_row(row_of_address(interface_index, network)) matches Some(found)
            && found.interface_index == interface_index && found.address == network
            && found.broadcast is None && (other.interface_index == interface_index
            && other.address == socket_of(network.address()) ==> (address_of_row(
            other,
        ) matches Some(same) ==> same.id == found.id)),
{
    network_is_its_parts(network);
}

/// A removal of an address names the address that was read before, whatever prefix length and
/// interface index the notification carries, as long as its interface can be looked up.
pub proof fn removal_names_what_was_read(
    read: UnicastRow,
    notified: UnicastRow,
    lookup: IndexLookup,
    queried: Option<(UnicastRow, IndexLookup)>,
)
    requires
        notified.address == read.address,
        lookup.status == 0,
        lookup.index == read.interface_index,
        read.interface_index != 0,
    ensures
        address_of_row(read) matches Some(before) ==> (address_of_row(
            completed_row(notified, true, lookup, queried),
        ) matches Some(after) ==> after.id == before.id),
{
}

/// A static entry that was created reads back as a permanent one with its address.
pub proof fn neighbor_row_reads_back(
    row: NeighborRow,
    interface_index: u32,
    address: IpAddress,
    mac: MacAddress,
)
    requires
        creates_neighbor(row, interface_index, address, mac.bytes()),
    ensures
        neighbor_of_row(row) matches Some(entry) && entry.interface_index == interface_index
            && entry.address == address && entry.mac == Some(mac) && entry.state
            == NeighborState::Permanent,
{
    mac_is_its_octets(mac, mac, mac.bytes());
    assert(row.physical_address@.take(6) =~= mac.bytes());
}

/// However the changes of a patch go, they are made in order and each at most once: a step that
/// makes a change makes the next one, and after the last there is none.
pub proof fn writes_follow_their_order(config: InterfaceConfig, answers: Seq<WriteAnswer>)
    ensures
        step_of(writes_of(config), answers) matches WriteStep::Write(write) ==> answers.len()
            < writes_of(config).len() && write == writes_of(config)[answers.len() as int],
        answers.len() >= writes_of(config).len() ==> !(step_of(
            writes_of(config),
            answers,
        ) is Write),
        answers.len() > 0 && answers.last() == WriteAnswer::Failed ==> step_of(
            writes_of(config),
            answers,
        ) == WriteStep::Stop,
{
}

// ---- numbers and fields ----

/// A row's interface: index and MTU are the row's; status 1 is up and any other down; of the
/// operational statuses 1 is up, 2 and 7 are down, 5 is without carrier and any other is
/// unknown; and a hardware address has six octets, the first six of the field.
pub proof fn interface_rows_read_field_by_field(interface: Interface, row: InterfaceRow)
    requires
        is_interface_of(interface, row),
    ensures
        interface.index == row.index,
        interface.id == InterfaceId::of(row.index as u64),
        interface.mtu == Some(row.mtu),
        interface.admin_state == AdminState::Up <==> row.admin_status == 1,
        interface.admin_state == AdminState::Down <==> row.admin_status != 1,
        interface.operational_state == OperationalState::Up <==> row.oper_status == 1,
        interface.operational_state == OperationalState::Down <==> row.oper_status == 2
            || row.oper_status == 7,
        interface.operational_state == OperationalState::NoCarrier <==> row.oper_status == 5,
        interface.operational_state == OperationalState::Unknown <==> row.oper_status != 1
            && row.oper_status != 2 && row.oper_status != 7 && row.oper_status != 5,
        interface.mac is Some <==> row.physical_address_length == 6,
        interface.mac matches Some(mac) ==> mac.bytes() == row.physical_address@.take(6),
        interface.name@ == without_trailing_nuls(decoded_text(row.alias@)),
        interface.kind == InterfaceKind::Ethernet <==> row.if_type == 6 || row.if_type == 135,
        interface.kind == InterfaceKind::Loopback <==> row.if_type == 24,
        interface.kind == InterfaceKind::PointToPoint <==> row.if_type == 23,
        interface.kind == InterfaceKind::Wireless <==> row.if_type == 71,
        interface.kind == InterfaceKind::Bridge <==> row.if_type == 209,
        interface.kind == InterfaceKind::Other(row.if_type) <==> row.if_type != 6 && row.if_type
            != 135 && row.if_type != 24 && row.if_type != 23 && row.if_type != 71 && row.if_type
            != 209,
{
    let octets = row.physical_address@.take(6);
    mac_is_its_octets(MacAddress::of(octets), MacAddress::of(octets), octets);
}

/// Kinds of interfaces are told apart by their numbers, and any other number is kept.
pub proof fn interface_kinds_have_their_numbers(if_type: u32)
    ensures
        kind_of_type(if_type) == InterfaceKind::Ethernet <==> if_type == 6 || if_type == 135,
        kind_of_type(if_type) == InterfaceKind::Loopback <==> if_type == 24,
        kind_of_type(if_type) == InterfaceKind::PointToPoint <==> if_type == 23,
        kind_of_type(if_type) == InterfaceKind::Wireless <==> if_type == 71,
        kind_of_type(if_type) == InterfaceKind::Bridge <==> if_type == 209,
        kind_of_type(if_type) is Other ==> kind_of_type(if_type) == InterfaceKind::Other(if_type),
{
}

/// Reachability states are told apart by their numbers.
pub proof fn neighbor_states_have_their_numbers(state: i32)
    ensures
        reachability_in(state) == NeighborState::Incomplete <==> state == 1,
        reachability_in(state) == NeighborState::Probe <==> state == 2,
        reachability_in(state) == NeighborState::Delay <==> state == 3,
        reachability_in(state) == NeighborState::Stale <==> state == 4,
        reachability_in(state) == NeighborState::Reachable <==> state == 5,
        reachability_in(state) == NeighborState::Permanent <==> state == 6,
        reachability_in(state) == NeighborState::Unknown <==> state < 1 || state > 6,
{
}

/// What the statuses of a refused request about a static entry mean: 5 that the caller may not,
/// 1168 that there is no such entry, 5010 that there is one, 50 that it has no meaning; any
/// other is kept.
pub proof fn neighbor_statuses_keep_their_meaning(status: u32)
    ensures
        neighbor_error(status) is PermissionDenied <==> status == 5,
        neighbor_error(status) is NotFound <==> status == 1168,
        neighbor_error(status) is AlreadyExists <==> status == 5010,
        neighbor_error(status) is Unsupported <==> status == 50,
        neighbor_error(status) is Platform ==> neighbor_error(status) == Error::Platform(
            PlatformErrorCode::Windows(status),
        ),
        neighbor_error(status) is Platform || status == 5 || status == 1168 || status == 5010
            || status == 50,
{
}

/// An address in a row is of the family that it is tagged with, and an untagged one is none.
pub proof fn tagged_addresses_keep_their_family(four: Ipv4Address, six: Ipv6Address)
    ensures
        ip_in(SocketAddress::Inet(four)) == Some(IpAddress::V4(four)),
        ip_in(SocketAddress::Inet6(six)) == Some(IpAddress::V6(six)),
        ip_in(SocketAddress::Unspecified) is None,
        socket_of(IpAddress::V4(four)) == SocketAddress::Inet(four),
        socket_of(IpAddress::V6(six)) == SocketAddress::Inet6(six),
{
}

/// A route row reads exactly when its destination is an IP address whose family allows the
/// prefix length. Gateway, metric and interface are the row's, where an unspecified next hop is
/// no gateway and the interface zero is none.
pub proof fn route_rows_read_field_by_field(row: ForwardRow)
    ensures
        route_of_row(row) is Some <==> (row.prefix is Inet && row.prefix_length <= 32
            || row.prefix is Inet6 && row.prefix_length <= 128),
        route_of_row(row) matches Some(route) ==> {
            &&& Some(route.destination.address()) == ip_in(row.prefix)
            &&& route.destination.prefix_bits() == row.prefix_length
            &&& row.next_hop is Unspecified ==> route.gateway is None
            &&& row.next_hop matches SocketAddress::Inet(inner) ==> route.gateway == Some(
                IpAddress::V4(inner),
            )
            &&& row.next_hop matches SocketAddress::Inet6(inner) ==> route.gateway == Some(
                IpAddress::V6(inner),
            )
            &&& route.metric == Some(row.metric)
            &&& row.interface_index == 0 ==> route.interface_index is None
            &&& row.interface_index != 0 ==> route.interface_index == Some(row.interface_index)
            &&& route.id == RouteId::of(
                hash_of(
                    route_key_rows(route.destination, route.gateway, route.interface_index),
                ),
            )
        },
{
    if let Some(address) = ip_in(row.prefix) {
        network_has_the_parts_it_was_made_of(address, row.prefix_length);
    }
}

/// The row that asks for a route names its destination, its gateway if it has one, and its
/// interface and metric, each zero if absent.
pub proof fn route_request_rows_name_the_route(route: RouteConfig)
    ensures
        ({
            let row = row_of_route(route);
            &&& ip_in(row.prefix) == Some(route.destination.address())
            &&& row.prefix_length == route.destination.prefix_bits()
            &&& ip_in(row.next_hop) == route.gateway
            &&& route.gateway is None ==> row.next_hop is Unspecified
            &&& row.interface_luid == 0
            &&& route.interface_index matches Some(index) ==> row.interface_index == index
            &&& route.interface_index is None ==> row.interface_index == 0
            &&& route.metric matches Some(metric) ==> row.metric == metric
            &&& route.metric is None ==> row.metric == 0
        }),
{
}

/// Removing a route is about the row with its interface and its destination, whatever gateway
/// and metric it has.
pub proof fn removal_looks_at_interface_and_destination(row: ForwardRow, route: RouteConfig)
    ensures
        is_row_of(row, route) <==> (match route.interface_index {
            Some(index) => row.interface_index == index,
            None => row.interface_index == 0,
        }) && (route_of_row(row) matches Some(found) && found.destination == route.destination),
{
}

/// A notification is about the interface that its identifier was found to have, and about its
/// own where that was not found.
pub proof fn notified_interface_is_looked_up(lookup: IndexLookup, fallback: u32)
    ensures
        lookup.status == 0 && lookup.index != 0 ==> notified_index(lookup, fallback)
            == lookup.index,
        lookup.status != 0 || lookup.index == 0 ==> notified_index(lookup, fallback) == fallback,
{
}

/// An address row reads exactly when it holds an IP address whose family allows the prefix
/// length; interface, address and prefix length are the row's, and there is no broadcast
/// address.
pub proof fn address_rows_read_field_by_field(row: UnicastRow)
    ensures
        address_of_row(row) is Some <==> (row.address is Inet && row.on_link_prefix_length <= 32
            || row.address is Inet6 && row.on_link_prefix_length <= 128),
        address_of_row(row) matches Some(found) ==> {
            &&& found.interface_index == row.interface_index
            &&& Some(found.address.address()) == ip_in(row.address)
            &&& found.address.prefix_bits() == row.on_link_prefix_length
            &&& found.broadcast is None
            &&& found.id == InterfaceAddressId::of(
                hash_of(neighbor_rows(row.interface_index, found.address.address())),
            )
        },
{
    if let Some(address) = ip_in(row.address) {
        network_has_the_parts_it_was_made_of(address, row.on_link_prefix_length);
    }
}

/// The full entry counts where there is one and the address was not removed; otherwise the
/// notification's own row does. Either way the interface is the one that was looked up.
pub proof fn full_entries_complete_notifications(
    row: UnicastRow,
    lookup: IndexLookup,
    found: UnicastRow,
    again: IndexLookup,
)
    ensures
        completed_row(row, false, lookup, Some((found, again))).address == found.address,
        completed_row(row, false, lookup, Some((found, again))).on_link_prefix_length
            == found.on_link_prefix_length,
        completed_row(row, false, lookup, Some((found, again))).interface_index == notified_index(
            again,
            found.interface_index,
        ),
        completed_row(row, true, lookup, Some((found, again))) == completed_row(
            row,
            true,
            lookup,
            None,
        ),
        completed_row(row, false, lookup, None) == completed_row(row, true, lookup, None),
        completed_row(row, true, lookup, None).address == row.address,
        completed_row(row, true, lookup, None).on_link_prefix_length == row.on_link_prefix_length,
        completed_row(row, true, lookup, None).interface_index == notified_index(
            lookup,
            row.interface_index,
        ),
{
}

/// The row that assigns or removes an address names the interface, the address and its prefix
/// length.
pub proof fn address_request_rows_name_the_address(interface_index: u32, network: Network)
    ensures
        row_of_address(interface_index, network).interface_index == interface_index,
        row_of_address(interface_index, network).interface_luid == 0,
        ip_in(row_of_address(interface_index, network).address) == Some(network.address()),
        row_of_address(interface_index, network).on_link_prefix_length == network.prefix_bits(),
{
}

/// A neighbor row reads exactly when it holds an IP address; interface, address and state are
/// the row's, and a link-layer address has six octets, the first six of the field.
pub proof fn neighbor_rows_read_field_by_field(row: NeighborRow)
    ensures
        neighbor_of_row(row) is Some <==> row.address is Inet || row.address is Inet6,
        neighbor_of_row(row) matches Some(entry) ==> {
            &&& entry.interface_index == row.interface_index
            &&& Some(entry.address) == ip_in(row.address)
            &&& entry.mac is Some <==> row.physical_address_length == 6
            &&& entry.mac matches Some(mac) ==> mac.bytes() == row.physical_address@.take(6)
            &&& entry.state == NeighborState::Incomplete <==> row.state == 1
            &&& entry.state == NeighborState::Probe <==> row.state == 2
            &&& entry.state == NeighborState::Delay <==> row.state == 3
            &&& entry.state == NeighborState::Stale <==> row.state == 4
            &&& entry.state == NeighborState::Reachable <==> row.state == 5
            &&& entry.state == NeighborState::Permanent <==> row.state == 6
            &&& entry.state == NeighborState::Unknown <==> row.state < 1 || row.state > 6
            &&& entry.id == NeighborId::of(
                hash_of(neighbor_rows(row.interface_index, entry.address)),
            )
        },
{
    let octets = row.physical_address@.take(6);
    mac_is_its_octets(MacAddress::of(octets), MacAddress::of(octets), octets);
}

/// The row that creates a static entry is permanent and holds all six octets; the row that
/// selects an entry holds no link-layer address and no state.
pub proof fn static_entry_rows_say_no_more_than_needed(
    row: NeighborRow,
    interface_index: u32,
    address: IpAddress,
    mac: Seq<u8>,
)
    ensures
        creates_neighbor(row, interface_index, address, mac) ==> row.state == 6
            && row.physical_address_length == 6 && row.interface_index == interface_index && ip_in(
            row.address,
        ) == Some(address),
        selects_entry(row, interface_index, address) ==> row.state == 0
            && row.physical_address_length == 0 && row.interface_index == interface_index && ip_in(
            row.address,
        ) == Some(address),
{
}

/// A patch is written administrative state first, then the MTU for IPv4 and for IPv6, and
/// nothing that was not asked for.
pub proof fn patches_are_written_state_first(config: InterfaceConfig)
    ensures
        config.admin_state() is Some ==> writes_of(config).len() > 0 && writes_of(config)[0]
            == InterfaceWrite::Admin(config.admin_state()->0),
        config.mtu() is Some ==> writes_of(config).len() >= 2 && writes_of(
            config,
        )[writes_of(config).len() - 2] == InterfaceWrite::Mtu(IpFamily::Inet, config.mtu()->0)
            && writes_of(config).last() == InterfaceWrite::Mtu(IpFamily::Inet6, config.mtu()->0),
        writes_of(config).len() == (if config.admin_state() is Some {
            1int
        } else {
            0
        }) + (if config.mtu() is Some {
            2int
        } else {
            0
        }),
{
}

/// Writing a patch goes on until a write fails or all were made. It ends well where an MTU that
/// was asked for was taken by some family, and an absent family is no failure by itself.
pub proof fn writing_ends_well_when_some_family_took_the_mtu(
    writes: Seq<InterfaceWrite>,
    answers: Seq<WriteAnswer>,
)
    ensures
        step_of(writes, answers) is Stop <==> answers.len() > 0 && answers.last()
            == WriteAnswer::Failed,
        step_of(writes, answers) is Write <==> answers.len() < writes.len() && !(answers.len() > 0
            && answers.last() == WriteAnswer::Failed),
        step_of(writes, answers) is Finished ==> (forall|i: int|
            0 <= i < writes.len() ==> !(#[trigger] writes[i] is Mtu)) || exists|i: int|
            0 <= i < writes.len() && i < answers.len() && (#[trigger] writes[i]) is Mtu
                && answers[i] == WriteAnswer::Applied,
        step_of(writes, answers) is NoFamily ==> (exists|i: int|
            0 <= i < writes.len() && (#[trigger] writes[i]) is Mtu) && forall|i: int|
            0 <= i < writes.len() && i < answers.len() && (#[trigger] writes[i]) is Mtu
                ==> answers[i] != WriteAnswer::Applied,
{
}

} // verus!
