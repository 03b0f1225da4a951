//! Linux netlink messages: what they say about routes, links, neighbors and addresses, and the
//! requests that change them.
//!
//! The message types here hold what the kernel's messages say in plain values. Sending and
//! receiving is not part of this module.

use crate::address::network_has_the_parts_it_was_made_of;
use crate::address::network_is_its_parts;
use crate::address::IpAddress;
use crate::address::Network;
use crate::error::Error;
use crate::error::Result;
use crate::event::ChangeKind;
use crate::event::Event;
use crate::event::EventFilter;
use crate::gather::earliest;
use crate::gather::flat;
use crate::gather::gathered;
use crate::gather::latest;
use crate::gather::lemma_earliest_at;
use crate::gather::lemma_earliest_is;
use crate::gather::lemma_gathered_congruent;
use crate::gather::lemma_latest_at;
use crate::gather::lemma_latest_is;
use crate::gather::lemma_pick_take;
use crate::identity::address_bytes_carry_the_family;
use crate::identity::address_bytes_tell_apart;
use crate::identity::byte_rows;
use crate::identity::hash_of;
use crate::identity::hash_rows;
use crate::identity::lemma_number_bytes;
use crate::identity::neighbor_rows;
use crate::identity::network_bytes;
use crate::identity::network_row;
use crate::identity::number_row;
use crate::identity::optional_address_bytes;
use crate::identity::optional_address_row;
use crate::identity::synthesize_neighbor_id;
use crate::ifaddr::InterfaceAddress;
use crate::ifaddr::InterfaceAddressId;
use crate::interface::AdminState;
use crate::interface::DesiredAdminState;
use crate::interface::Interface;
use crate::interface::InterfaceConfig;
use crate::interface::InterfaceId;
use crate::interface::InterfaceKind;
use crate::interface::OperationalState;
use crate::ipv4::Ipv4Address;
use crate::ipv6::Ipv6Address;
use crate::mac::MacAddress;
use crate::mask::bytes_of;
use crate::neighbor::NeighborEntry;
use crate::neighbor::NeighborId;
use crate::neighbor::NeighborState;
use crate::route::intent_of;
use crate::route::Route;
use crate::route::RouteConfig;
use crate::route::RouteId;
use vstd::prelude::*;

verus! {

// ---- routes ----

/// An address in a route message.
#[derive(Debug, Clone, Copy, PartialEq, Eq, Structural)]
pub enum RouteAddress {
    /// An IPv4 address.
    Inet(Ipv4Address),
    /// An IPv6 address.
    Inet6(Ipv6Address),
    /// An address of another family.
    Other,
}

/// An attribute of a route message.
#[derive(Debug, Clone, Copy, PartialEq, Eq, Structural)]
pub enum RouteAttribute {
    /// The destination address.
    Destination(RouteAddress),
    /// The next hop.
    Gateway(RouteAddress),
    /// The metric.
    Priority(u32),
    /// The outgoing interface's index.
    Oif(u32),
    /// Any other attribute.
    Other,
}

/// A message about one route.
#[derive(Debug, Clone, PartialEq, Eq)]
pub struct RouteMessage {
    /// The destination's prefix length.
    pub destination_prefix_length: u8,
    /// The message's attributes, in order.
    pub attributes: Vec<RouteAttribute>,
}

/// The IP address that a route address is, if it is one.
pub open spec fn ip_of(address: RouteAddress) -> Option<IpAddress> {
    match address {
        RouteAddress::Inet(inner) => Some(IpAddress::V4(inner)),
        RouteAddress::Inet6(inner) => Some(IpAddress::V6(inner)),
        RouteAddress::Other => None,
    }
}

/// Returns the IP address that a route address is, if it is one.
pub fn route_address_to_ip(address: &RouteAddress) -> (ip: Option<IpAddress>)
    ensures
        ip == ip_of(*address),
        *address matches RouteAddress::Inet(inner) ==> ip == Some(IpAddress::V4(inner)),
        *address matches RouteAddress::Inet6(inner) ==> ip == Some(IpAddress::V6(inner)),
        *address is Other ==> ip is None,
{
    match address {
        RouteAddress::Inet(inner) => Some(IpAddress::V4(*inner)),
        RouteAddress::Inet6(inner) => Some(IpAddress::V6(*inner)),
        RouteAddress::Other => None,
    }
}

/// Picks out what a destination attribute says.
pub open spec fn destination_in() -> spec_fn(RouteAttribute) -> Option<Option<IpAddress>> {
    |attribute: RouteAttribute|
        match attribute {
            RouteAttribute::Destination(address) => Some(ip_of(address)),
            _ => None,
        }
}

/// Picks out what a gateway attribute says.
pub open spec fn gateway_in() -> spec_fn(RouteAttribute) -> Option<Option<IpAddress>> {
    |attribute: RouteAttribute|
        match attribute {
            RouteAttribute::Gateway(address) => Some(ip_of(address)),
            _ => None,
        }
}

/// Picks out what a priority attribute says.
pub open spec fn priority_in() -> spec_fn(RouteAttribute) -> Option<u32> {
    |attribute: RouteAttribute|
        match attribute {
            RouteAttribute::Priority(priority) => Some(priority),
            _ => None,
        }
}

/// Picks out what an outgoing-interface attribute says.
pub open spec fn oif_in() -> spec_fn(RouteAttribute) -> Option<u32> {
    |attribute: RouteAttribute|
        match attribute {
            RouteAttribute::Oif(index) => Some(index),
            _ => None,
        }
}

/// What a route attribute adds to what is hashed for the route.
pub open spec fn attribute_rows(attributes: Seq<RouteAttribute>) -> spec_fn(int) -> Seq<Seq<u8>> {
    |i: int|
        match attributes[i] {
            RouteAttribute::Destination(address) => seq![optional_address_bytes(ip_of(address))],
            RouteAttribute::Gateway(address) => seq![optional_address_bytes(ip_of(address))],
            RouteAttribute::Oif(index) => seq![bytes_of(index)],
            _ => Seq::empty(),
        }
}

/// What is hashed for a route: its prefix length, and its destination, gateway and outgoing
/// interface in the order of the message.
pub open spec fn route_rows(prefix_length: u8, attributes: Seq<RouteAttribute>) -> Seq<Seq<u8>> {
    seq![seq![prefix_length]] + gathered(attributes.len(), attribute_rows(attributes))
}

/// The identity of the route that a message is about.
pub open spec fn route_id_of(prefix_length: u8, attributes: Seq<RouteAttribute>) -> RouteId {
    RouteId::of(hash_of(route_rows(prefix_length, attributes)))
}

/// The route that a message describes. Where an attribute occurs more than once the last one
/// counts. There is no route without a destination address and a prefix length that suits it.
pub open spec fn route_in(prefix_length: u8, attributes: Seq<RouteAttribute>) -> Option<Route> {
    match flat(latest(attributes, destination_in())) {
        None => None,
        Some(address) => match Network::of_parts(address, prefix_length) {
            None => None,
            Some(destination) => Some(
                Route {
                    id: route_id_of(prefix_length, attributes),
                    destination,
                    gateway: flat(latest(attributes, gateway_in())),
                    metric: latest(attributes, priority_in()),
                    interface_index: latest(attributes, oif_in()),
                },
            ),
        },
    }
}

/// Derives the identity of the route that a message is about.
pub fn synthesize_route_id(message: &RouteMessage) -> (id: RouteId)
    ensures
        id == route_id_of(message.destination_prefix_length, message.attributes@),
{
    let ghost piece = attribute_rows(message.attributes@);
    let mut rows: Vec<Vec<u8>> = Vec::new();
    let prefix = vec![message.destination_prefix_length];
    assert(prefix@ =~= seq![message.destination_prefix_length]);
    rows.push(prefix);
    let mut i: usize = 0;
    assert(byte_rows(rows@) =~= seq![seq![message.destination_prefix_length]] + gathered(
        0,
        piece,
    ));
    while i < message.attributes.len()
        invariant
            i <= message.attributes.len(),
            piece == attribute_rows(message.attributes@),
            byte_rows(rows@) == seq![seq![message.destination_prefix_length]] + gathered(
                i as nat,
                piece,
            ),
        decreases message.attributes.len() - i,
    {
        let ghost before = rows@;
        match &message.attributes[i] {
            RouteAttribute::Destination(address) => {
                let row = optional_address_row(&route_address_to_ip(address));
                rows.push(row);
                assert(byte_rows(rows@) =~= byte_rows(before).push(row@));
            },
            RouteAttribute::Gateway(address) => {
                let row = optional_address_row(&route_address_to_ip(address));
                rows.push(row);
                assert(byte_rows(rows@) =~= byte_rows(before).push(row@));
            },
            RouteAttribute::Oif(index) => {
                let row = number_row(*index);
                rows.push(row);
                assert(byte_rows(rows@) =~= byte_rows(before).push(row@));
            },
            _ => {},
        }
        assert(byte_rows(rows@) =~= byte_rows(before) + piece(i as int));
        i = i + 1;
        assert(gathered(i as nat, piece) == gathered((i - 1) as nat, piece) + piece(i - 1));
        assert(byte_rows(rows@) =~= seq![seq![message.destination_prefix_length]] + gathered(
            i as nat,
            piece,
        ));
    }
    RouteId::new(hash_rows(&rows))
}

/// Reads the route that a message describes.
pub fn message_to_route(message: &RouteMessage) -> (route: Option<Route>)
    ensures
        route == route_in(message.destination_prefix_length, message.attributes@),
{
    let ghost attributes = message.attributes@;
    let mut destination: Option<Option<IpAddress>> = None;
    let mut gateway: Option<Option<IpAddress>> = None;
    let mut metric: Option<u32> = None;
    let mut interface_index: Option<u32> = None;
    let mut i: usize = 0;
    assert(attributes.take(0) =~= Seq::empty());
    while i < message.attributes.len()
        invariant
            i <= message.attributes.len(),
            attributes == message.attributes@,
            destination == latest(attributes.take(i as int), destination_in()),
            gateway == latest(attributes.take(i as int), gateway_in()),
            metric == latest(attributes.take(i as int), priority_in()),
            interface_index == latest(attributes.take(i as int), oif_in()),
        decreases message.attributes.len() - i,
    {
        proof {
            lemma_pick_take(attributes, destination_in(), i as int);
            lemma_pick_take(attributes, gateway_in(), i as int);
            lemma_pick_take(attributes, priority_in(), i as int);
            lemma_pick_take(attributes, oif_in(), i as int);
        }
        match &message.attributes[i] {
            RouteAttribute::Destination(address) => {
                destination = Some(route_address_to_ip(address));
            },
            RouteAttribute::Gateway(address) => {
                gateway = Some(route_address_to_ip(address));
            },
            RouteAttribute::Priority(priority) => {
                metric = Some(*priority);
            },
            RouteAttribute::Oif(index) => {
                interface_index = Some(*index);
            },
            RouteAttribute::Other => {},
        }
        i = i + 1;
    }
    assert(attributes.take(i as int) =~= attributes);
    let address = match destination {
        Some(Some(address)) => address,
        _ => {
            return None;
        },
    };
    match Network::from_parts(address, message.destination_prefix_length) {
        Some(network) => {
            let gateway = match gateway {
                Some(inner) => inner,
                None => None,
            };
            Some(
                Route {
                    id: synthesize_route_id(message),
                    destination: network,
                    gateway,
                    metric,
                    interface_index,
                },
            )
        },
        None => None,
    }
}

/// The route address for an IP address.
pub open spec fn route_address_of(address: IpAddress) -> RouteAddress {
    match address {
        IpAddress::V4(inner) => RouteAddress::Inet(inner),
        IpAddress::V6(inner) => RouteAddress::Inet6(inner),
    }
}

/// Whether a gateway has the family of a destination.
pub open spec fn same_family(destination: Network, gateway: IpAddress) -> bool {
    destination is V4 <==> gateway is V4
}

/// The gateway that a request can carry: one of the destination's family.
pub open spec fn usable_gateway(config: RouteConfig) -> Option<IpAddress> {
    match config.gateway {
        Some(gateway) if same_family(config.destination, gateway) => Some(gateway),
        _ => None,
    }
}

/// The attributes of a request for a route. A removal carries neither gateway nor metric.
pub open spec fn request_attributes(config: RouteConfig, full: bool) -> Seq<RouteAttribute> {
    seq![RouteAttribute::Destination(route_address_of(config.destination.address()))] + (match (
        full,
        usable_gateway(config),
    ) {
        (true, Some(gateway)) => seq![RouteAttribute::Gateway(route_address_of(gateway))],
        _ => Seq::empty(),
    }) + (match (full, config.metric) {
        (true, Some(metric)) => seq![RouteAttribute::Priority(metric)],
        _ => Seq::empty(),
    }) + (match config.interface_index {
        Some(index) => seq![RouteAttribute::Oif(index)],
        None => Seq::empty(),
    })
}

/// Builds the request that adds or removes a route.
///
/// Destination and outgoing interface are part of every request. Gateway and metric are only
/// part of a request that adds, and a gateway of the other family is left out.
pub fn route_request_message(route: &RouteConfig, include_gateway_and_metric: bool) -> (message:
    RouteMessage)
    ensures
        message.destination_prefix_length == route.destination.prefix_bits(),
        message.attributes@ == request_attributes(*route, include_gateway_and_metric),
{
    let mut attributes: Vec<RouteAttribute> = Vec::new();
    let destination = match route.destination.address() {
        IpAddress::V4(inner) => RouteAddress::Inet(inner),
        IpAddress::V6(inner) => RouteAddress::Inet6(inner),
    };
    attributes.push(RouteAttribute::Destination(destination));
    if include_gateway_and_metric {
        match (&route.destination, &route.gateway) {
            (Network::V4(_), Some(IpAddress::V4(gateway))) => {
                attributes.push(RouteAttribute::Gateway(RouteAddress::Inet(*gateway)));
            },
            (Network::V6(_), Some(IpAddress::V6(gateway))) => {
                attributes.push(RouteAttribute::Gateway(RouteAddress::Inet6(*gateway)));
            },
            _ => {},
        }
        if let Some(metric) = route.metric {
            attributes.push(RouteAttribute::Priority(metric));
        }
    }
    if let Some(index) = route.interface_index {
        attributes.push(RouteAttribute::Oif(index));
    }
    assert(attributes@ =~= request_attributes(*route, include_gateway_and_metric));
    RouteMessage { destination_prefix_length: route.destination.prefix_len(), attributes }
}

// ---- addresses ----

/// An attribute of an address message.
#[derive(Debug, Clone, Copy, PartialEq, Eq, Structural)]
pub enum AddressAttribute {
    /// The address: on a point-to-point link that of the peer.
    Address(IpAddress),
    /// The local address.
    Local(IpAddress),
    /// The broadcast address.
    Broadcast(Ipv4Address),
    /// Any other attribute.
    Other,
}

/// A message about one assigned address.
#[derive(Debug, Clone, PartialEq, Eq)]
pub struct AddressMessage {
    /// The interface's index.
    pub index: u32,
    /// The address's prefix length.
    pub prefix_len: u8,
    /// The message's attributes, in order.
    pub attributes: Vec<AddressAttribute>,
}

/// Picks out what a local-address attribute says.
pub open spec fn local_in() -> spec_fn(AddressAttribute) -> Option<IpAddress> {
    |attribute: AddressAttribute|
        match attribute {
            AddressAttribute::Local(address) => Some(address),
            _ => None,
        }
}

/// Picks out what an address attribute says.
pub open spec fn plain_address_in() -> spec_fn(AddressAttribute) -> Option<IpAddress> {
    |attribute: AddressAttribute|
        match attribute {
            AddressAttribute::Address(address) => Some(address),
            _ => None,
        }
}

/// Picks out what a broadcast attribute says.
pub open spec fn broadcast_in() -> spec_fn(AddressAttribute) -> Option<IpAddress> {
    |attribute: AddressAttribute|
        match attribute {
            AddressAttribute::Broadcast(address) => Some(IpAddress::V4(address)),
            _ => None,
        }
}

/// The address that is assigned: the last local one, or else the first plain one.
pub open spec fn assigned_in(attributes: Seq<AddressAttribute>) -> Option<IpAddress> {
    match latest(attributes, local_in()) {
        Some(address) => Some(address),
        None => earliest(attributes, plain_address_in()),
    }
}

/// What is hashed for an assigned address: its interface and its network.
pub open spec fn interface_address_rows(interface_index: u32, network: Network) -> Seq<Seq<u8>> {
    seq![bytes_of(interface_index), network_bytes(network)]
}

/// The identity of an assigned address.
pub open spec fn interface_address_id_of(
    interface_index: u32,
    network: Network,
) -> InterfaceAddressId {
    InterfaceAddressId::of(hash_of(interface_address_rows(interface_index, network)))
}

/// The assigned address that a message describes, if it names one with a prefix length that
/// suits it.
pub open spec fn interface_address_in(
    index: u32,
    prefix_len: u8,
    attributes: Seq<AddressAttribute>,
) -> Option<InterfaceAddress> {
    match assigned_in(attributes) {
        None => None,
        Some(address) => match Network::of_parts(address, prefix_len) {
            None => None,
            Some(network) => Some(
                InterfaceAddress {
                    id: interface_address_id_of(index, network),
                    interface_index: index,
                    address: network,
                    broadcast: latest(attributes, broadcast_in()),
                },
            ),
        },
    }
}

/// Derives the identity of an assigned address from its interface and its network.
pub fn synthesize_interface_address_id(interface_index: u32, network: &Network) -> (id:
    InterfaceAddressId)
    ensures
        id == interface_address_id_of(interface_index, *network),
{
    let rows = vec![number_row(interface_index), network_row(network)];
    assert(byte_rows(rows@) =~= interface_address_rows(interface_index, *network));
    InterfaceAddressId::new(hash_rows(&rows))
}

/// Reads the assigned address that a message describes.
pub fn message_to_interface_address(message: &AddressMessage) -> (address: Option<
    InterfaceAddress,
>)
    ensures
        address == interface_address_in(message.index, message.prefix_len, message.attributes@),
{
    let ghost attributes = message.attributes@;
    let mut local: Option<IpAddress> = None;
    let mut plain: Option<IpAddress> = None;
    let mut broadcast: Option<IpAddress> = None;
    let mut i: usize = 0;
    assert(attributes.take(0) =~= Seq::empty());
    while i < message.attributes.len()
        invariant
            i <= message.attributes.len(),
            attributes == message.attributes@,
            local == latest(attributes.take(i as int), local_in()),
            plain == earliest(attributes.take(i as int), plain_address_in()),
            broadcast == latest(attributes.take(i as int), broadcast_in()),
        decreases message.attributes.len() - i,
    {
        proof {
            lemma_pick_take(attributes, local_in(), i as int);
            lemma_pick_take(attributes, plain_address_in(), i as int);
            lemma_pick_take(attributes, broadcast_in(), i as int);
        }
        match &message.attributes[i] {
            AddressAttribute::Local(address) => {
                local = Some(*address);
            },
            AddressAttribute::Address(address) => {
                if plain.is_none() {
                    plain = Some(*address);
                }
            },
            AddressAttribute::Broadcast(address) => {
                broadcast = Some(IpAddress::V4(*address));
            },
            AddressAttribute::Other => {},
        }
        i = i + 1;
    }
    assert(attributes.take(i as int) =~= attributes);
    let assigned = match local {
        Some(address) => Some(address),
        None => plain,
    };
    match assigned {
        None => None,
        Some(address) => match Network::from_parts(address, message.prefix_len) {
            None => None,
            Some(network) => Some(
                InterfaceAddress {
                    id: synthesize_interface_address_id(message.index, &network),
                    interface_index: message.index,
                    address: network,
                    broadcast,
                },
            ),
        },
    }
}

// ---- links ----

/// A link-layer type, as far as it is told apart.
#[derive(Debug, Clone, Copy, PartialEq, Eq, Structural)]
pub enum LinkLayer {
    /// Ethernet.
    Ether,
    /// A loopback link.
    Loopback,
    /// PPP.
    Ppp,
    /// IEEE 802.11.
    Ieee80211,
    /// IEEE 802.11 with Prism headers.
    Ieee80211Prism,
    /// IEEE 802.11 with radiotap headers.
    Ieee80211Radiotap,
    /// Any other type.
    Other,
}

/// The link-layer type with a given number.
pub open spec fn link_layer(code: u16) -> LinkLayer {
    if code == 1 {
        LinkLayer::Ether
    } else if code == 512 {
        LinkLayer::Ppp
    } else if code == 772 {
        LinkLayer::Loopback
    } else if code == 801 {
        LinkLayer::Ieee80211
    } else if code == 802 {
        LinkLayer::Ieee80211Prism
    } else if code == 803 {
        LinkLayer::Ieee80211Radiotap
    } else {
        LinkLayer::Other
    }
}

/// `LinkLayerType::from` of the `rtnetlink` crate's route packets turns a number into a
/// link-layer type. The six types named by [`LinkLayer`] have the numbers that [`link_layer`]
/// gives; no other number gives one of them.
#[verifier::external_body]
fn link_layer_from_code(code: u16) -> (layer: LinkLayer)
    ensures
        layer == link_layer(code),
{
    match rtnetlink::packet_route::link::LinkLayerType::from(code) {
        rtnetlink::packet_route::link::LinkLayerType::Ether => LinkLayer::Ether,
        rtnetlink::packet_route::link::LinkLayerType::Loopback => LinkLayer::Loopback,
        rtnetlink::packet_route::link::LinkLayerType::Ppp => LinkLayer::Ppp,
        rtnetlink::packet_route::link::LinkLayerType::Ieee80211 => LinkLayer::Ieee80211,
        rtnetlink::packet_route::link::LinkLayerType::Ieee80211Prism => LinkLayer::Ieee80211Prism,
        rtnetlink::packet_route::link::LinkLayerType::Ieee80211Radiotap => {
            LinkLayer::Ieee80211Radiotap
        },
        _ => LinkLayer::Other,
    }
}

/// The kind of interface that a link-layer number stands for.
pub open spec fn kind_of_link(code: u16) -> InterfaceKind {
    match link_layer(code) {
        LinkLayer::Ether => InterfaceKind::Ethernet,
        LinkLayer::Loopback => InterfaceKind::Loopback,
        LinkLayer::Ppp => InterfaceKind::PointToPoint,
        LinkLayer::Ieee80211 => InterfaceKind::Wireless,
        LinkLayer::Ieee80211Prism => InterfaceKind::Wireless,
        LinkLayer::Ieee80211Radiotap => InterfaceKind::Wireless,
        LinkLayer::Other => InterfaceKind::Other(code as u32),
    }
}

/// Returns the kind of interface that a link-layer number stands for. A type that is not told
/// apart keeps its number.
pub fn link_layer_type_to_kind(code: u16) -> (kind: InterfaceKind)
    ensures
        kind == kind_of_link(code),
        kind == InterfaceKind::Ethernet <==> code == 1,
        kind == InterfaceKind::Loopback <==> code == 772,
        kind == InterfaceKind::PointToPoint <==> code == 512,
        kind == InterfaceKind::Wireless <==> 801 <= code <= 803,
{
    match link_layer_from_code(code) {
        LinkLayer::Ether => InterfaceKind::Ethernet,
        LinkLayer::Loopback => InterfaceKind::Loopback,
        LinkLayer::Ppp => InterfaceKind::PointToPoint,
        LinkLayer::Ieee80211 => InterfaceKind::Wireless,
        LinkLayer::Ieee80211Prism => InterfaceKind::Wireless,
        LinkLayer::Ieee80211Radiotap => InterfaceKind::Wireless,
        LinkLayer::Other => InterfaceKind::Other(code as u32),
    }
}

/// An operational state, as the kernel numbers it.
#[derive(Debug, Clone, Copy, PartialEq, Eq, Structural)]
pub enum LinkState {
    /// The state cannot be determined.
    Unknown,
    /// Some component is missing.
    NotPresent,
    /// Down.
    Down,
    /// Down because of the layer below.
    LowerLayerDown,
    /// In a test mode.
    Testing,
    /// Waiting for an external event.
    Dormant,
    /// Up.
    Up,
    /// A state with another number.
    Other(u8),
}

/// The operational state with a given number.
pub open spec fn link_state(code: u8) -> LinkState {
    if code == 0 {
        LinkState::Unknown
    } else if code == 1 {
        LinkState::NotPresent
    } else if code == 2 {
        LinkState::Down
    } else if code == 3 {
        LinkState::LowerLayerDown
    } else if code == 4 {
        LinkState::Testing
    } else if code == 5 {
        LinkState::Dormant
    } else if code == 6 {
        LinkState::Up
    } else {
        LinkState::Other(code)
    }
}

/// `State::from` of the `rtnetlink` crate's link packets turns a number into an operational
/// state, as [`link_state`] says.
#[verifier::external_body]
fn link_state_from_code(code: u8) -> (state: LinkState)
    ensures
        state == link_state(code),
{
    match rtnetlink::packet_route::link::State::from(code) {
        rtnetlink::packet_route::link::State::Unknown => LinkState::Unknown,
        rtnetlink::packet_route::link::State::NotPresent => LinkState::NotPresent,
        rtnetlink::packet_route::link::State::Down => LinkState::Down,
        rtnetlink::packet_route::link::State::LowerLayerDown => LinkState::LowerLayerDown,
        rtnetlink::packet_route::link::State::Testing => LinkState::Testing,
        rtnetlink::packet_route::link::State::Dormant => LinkState::Dormant,
        rtnetlink::packet_route::link::State::Up => LinkState::Up,
        other => LinkState::Other(u8::from(other)),
    }
}

/// The observed operational state that a link's state number stands for.
pub open spec fn operational_of(code: u8) -> OperationalState {
    match link_state(code) {
        LinkState::Up => OperationalState::Up,
        LinkState::Down => OperationalState::Down,
        LinkState::LowerLayerDown => OperationalState::Down,
        LinkState::NotPresent => OperationalState::Down,
        LinkState::Dormant => OperationalState::NoCarrier,
        _ => OperationalState::Unknown,
    }
}

/// Returns the observed operational state that a link's state number stands for.
pub fn operational_state(code: u8) -> (state: OperationalState)
    ensures
        state == operational_of(code),
{
    match link_state_from_code(code) {
        LinkState::Up => OperationalState::Up,
        LinkState::Down => OperationalState::Down,
        LinkState::LowerLayerDown => OperationalState::Down,
        LinkState::NotPresent => OperationalState::Down,
        LinkState::Dormant => OperationalState::NoCarrier,
        _ => OperationalState::Unknown,
    }
}

/// The flag of a link that is administratively up.
pub const LINK_UP: u32 = 1;

/// `LinkFlags::contains` of the `rtnetlink` crate's link packets tells whether flags hold
/// another flag. For the flag of a link that is up this is the lowest bit.
#[verifier::external_body]
fn holds_up_flag(flags: u32) -> (up: bool)
    ensures
        up == (flags % 2 == 1),
{
    rtnetlink::packet_route::link::LinkFlags::from_bits_retain(flags).contains(
        rtnetlink::packet_route::link::LinkFlags::Up,
    )
}

/// An attribute of a link message.
#[derive(Debug, Clone, PartialEq, Eq)]
pub enum LinkAttribute {
    /// The interface's name.
    IfName(String),
    /// The hardware address.
    Address(Vec<u8>),
    /// The maximum transmission unit.
    Mtu(u32),
    /// The number of the operational state.
    OperState(u8),
    /// Any other attribute.
    Other,
}

/// A message about one link.
#[derive(Debug, Clone, PartialEq, Eq)]
pub struct LinkMessage {
    /// The interface's index.
    pub index: u32,
    /// The number of the link-layer type.
    pub link_layer_type: u16,
    /// The link's flags.
    pub flags: u32,
    /// The flags that a request may change.
    pub change_mask: u32,
    /// The message's attributes, in order.
    pub attributes: Vec<LinkAttribute>,
}

/// Picks out the name that a link attribute gives.
pub open spec fn name_in() -> spec_fn(LinkAttribute) -> Option<Seq<char>> {
    |attribute: LinkAttribute|
        match attribute {
            LinkAttribute::IfName(name) => Some(name@),
            _ => None,
        }
}

/// Picks out the hardware address that a link attribute gives, if it has six octets.
pub open spec fn hardware_in() -> spec_fn(LinkAttribute) -> Option<MacAddress> {
    |attribute: LinkAttribute|
        match attribute {
            LinkAttribute::Address(octets) => MacAddress::of_row(octets@),
            _ => None,
        }
}

/// Picks out the MTU that a link attribute gives.
pub open spec fn mtu_in() -> spec_fn(LinkAttribute) -> Option<u32> {
    |attribute: LinkAttribute|
        match attribute {
            LinkAttribute::Mtu(mtu) => Some(mtu),
            _ => None,
        }
}

/// Picks out the operational state that a link attribute gives.
pub open spec fn state_in() -> spec_fn(LinkAttribute) -> Option<OperationalState> {
    |attribute: LinkAttribute|
        match attribute {
            LinkAttribute::OperState(code) => Some(operational_of(code)),
            _ => None,
        }
}

/// Whether an interface is the one that a message describes. Where an attribute occurs more
/// than once the last one counts; a link without a name has an empty one, and a link without an
/// operational state an unknown one.
pub open spec fn is_interface_in(interface: Interface, message: LinkMessage) -> bool {
    let attributes = message.attributes@;
    &&& interface.id == InterfaceId::of(message.index as u64)
    &&& interface.index == message.index
    &&& interface.name@ == (match latest(attributes, name_in()) {
        Some(name) => name,
        None => Seq::empty(),
    })
    &&& interface.kind == kind_of_link(message.link_layer_type)
    &&& interface.mac == latest(attributes, hardware_in())
    &&& interface.mtu == latest(attributes, mtu_in())
    &&& interface.admin_state == (if message.flags % 2 == 1 {
        AdminState::Up
    } else {
        AdminState::Down
    })
    &&& interface.operational_state == (match latest(attributes, state_in()) {
        Some(state) => state,
        None => OperationalState::Unknown,
    })
}

/// Reads the interface that a message describes.
pub fn message_to_interface(message: &LinkMessage) -> (interface: Interface)
    ensures
        is_interface_in(interface, *message),
{
    let ghost attributes = message.attributes@;
    let mut name: Option<String> = None;
    let mut mac: Option<MacAddress> = None;
    let mut mtu: Option<u32> = None;
    let mut state: Option<OperationalState> = None;
    let mut i: usize = 0;
    assert(attributes.take(0) =~= Seq::empty());
    while i < message.attributes.len()
        invariant
            i <= message.attributes.len(),
            attributes == message.attributes@,
            match name {
                Some(found) => latest(attributes.take(i as int), name_in()) == Some(found@),
                None => latest(attributes.take(i as int), name_in()) is None,
            },
            mac == latest(attributes.take(i as int), hardware_in()),
            mtu == latest(attributes.take(i as int), mtu_in()),
            state == latest(attributes.take(i as int), state_in()),
        decreases message.attributes.len() - i,
    {
        proof {
            lemma_pick_take(attributes, name_in(), i as int);
            lemma_pick_take(attributes, hardware_in(), i as int);
            lemma_pick_take(attributes, mtu_in(), i as int);
            lemma_pick_take(attributes, state_in(), i as int);
        }
        match &message.attributes[i] {
            LinkAttribute::IfName(value) => {
                name = Some(value.clone());
            },
            LinkAttribute::Address(octets) => {
                if let Some(found) = MacAddress::from_row(octets) {
                    mac = Some(found);
                }
            },
            LinkAttribute::Mtu(value) => {
                mtu = Some(*value);
            },
            LinkAttribute::OperState(code) => {
                state = Some(operational_state(*code));
            },
            LinkAttribute::Other => {},
        }
        i = i + 1;
    }
    assert(attributes.take(i as int) =~= attributes);
    let name = match name {
        Some(name) => name,
        None => {
            let empty = String::new();
            assert(empty@ =~= Seq::empty());
            empty
        },
    };
    let operational_state = match state {
        Some(state) => state,
        None => OperationalState::Unknown,
    };
    let admin_state = if holds_up_flag(message.flags) {
        AdminState::Up
    } else {
        AdminState::Down
    };
    Interface {
        id: InterfaceId::new(message.index as u64),
        index: message.index,
        name,
        kind: link_layer_type_to_kind(message.link_layer_type),
        mac,
        mtu,
        admin_state,
        operational_state,
    }
}

/// The index that an interface identity stands for, if it can be one.
pub open spec fn index_of(id: InterfaceId) -> Option<u32> {
    if id.value() <= u32::MAX {
        Some(id.value() as u32)
    } else {
        None
    }
}

/// Returns the index that an interface identity stands for.
///
/// An identity that exceeds every index names no interface: [`Error::NotFound`].
pub fn interface_index(id: InterfaceId) -> (index: Result<u32>)
    ensures
        match index {
            Ok(found) => index_of(id) == Some(found),
            Err(error) => index_of(id) is None && error is NotFound,
        },
        index is Ok <==> id.value() <= 0xffff_ffff,
        index matches Ok(found) ==> found == id.value(),
{
    let value: u64 = id.value();
    if value <= u32::MAX as u64 {
        Ok(value as u32)
    } else {
        Err(Error::NotFound)
    }
}

/// Whether a request changes just what a patch asks for: the up flag when an administrative
/// state is requested and no other flag ever, and the MTU when one is requested.
pub open spec fn changes_only(message: LinkMessage, config: InterfaceConfig) -> bool {
    &&& index_of(config.interface_id()) == Some(message.index)
    &&& message.link_layer_type == 0
    &&& message.change_mask == (if config.admin_state() is Some {
        LINK_UP
    } else {
        0
    })
    &&& message.flags == (if config.admin_state() == Some(DesiredAdminState::Up) {
        LINK_UP
    } else {
        0
    })
    &&& message.attributes@ == (match config.mtu() {
        Some(mtu) => seq![LinkAttribute::Mtu(mtu)],
        None => Seq::empty(),
    })
}

/// Builds the request that changes an existing link.
///
/// The change mask selects which flags the request may alter. It holds at most the up flag, so
/// that flags which were not asked about stay as they are. [`Error::NotFound`] for an identity
/// that exceeds every index.
pub fn interface_config_to_link_change(config: &InterfaceConfig) -> (message: Result<LinkMessage>)
    ensures
        match message {
            Ok(request) => changes_only(request, *config),
            Err(error) => index_of(config.interface_id()) is None && error is NotFound,
        },
        message is Ok <==> config.interface_id().value() <= 0xffff_ffff,
        message matches Ok(request) ==> request.index == config.interface_id().value(),
{
    let index = match interface_index(config.interface_id()) {
        Ok(index) => index,
        Err(error) => {
            return Err(error);
        },
    };
    let mut change_mask: u32 = 0;
    let mut flags: u32 = 0;
    match config.admin_state() {
        Some(DesiredAdminState::Up) => {
            change_mask = LINK_UP;
            flags = LINK_UP;
        },
        Some(DesiredAdminState::Down) => {
            change_mask = LINK_UP;
        },
        None => {},
    }
    let mut attributes: Vec<LinkAttribute> = Vec::new();
    if let Some(mtu) = config.mtu() {
        attributes.push(LinkAttribute::Mtu(mtu));
    }
    let message = LinkMessage { index, link_layer_type: 0, flags, change_mask, attributes };
    assert(message.attributes@ =~= (match config.mtu() {
        Some(mtu) => seq![LinkAttribute::Mtu(mtu)],
        None => Seq::empty(),
    }));
    Ok(message)
}

// ---- neighbors ----

/// An address family.
#[derive(Debug, Clone, Copy, PartialEq, Eq, Structural)]
pub enum AddressFamily {
    /// No family.
    Unspec,
    /// IPv4.
    Inet,
    /// IPv6.
    Inet6,
}

/// An attribute of a neighbor message.
#[derive(Debug, Clone, PartialEq, Eq)]
pub enum NeighbourAttribute {
    /// The neighbor's IP address.
    Destination(IpAddress),
    /// The neighbor's link-layer address.
    LinkLayerAddress(Vec<u8>),
    /// Any other attribute.
    Other,
}

/// A message about one neighbor entry.
#[derive(Debug, Clone, PartialEq, Eq)]
pub struct NeighbourMessage {
    /// The family of the neighbor's address.
    pub family: AddressFamily,
    /// The interface's index.
    pub ifindex: u32,
    /// The number of the reachability state.
    pub state: u16,
    /// The message's attributes, in order.
    pub attributes: Vec<NeighbourAttribute>,
}

/// A reachability state, as the kernel numbers it.
#[derive(Debug, Clone, Copy, PartialEq, Eq, Structural)]
pub enum NudState {
    /// Being resolved.
    Incomplete,
    /// Confirmed.
    Reachable,
    /// Unconfirmed.
    Stale,
    /// About to be probed.
    Delay,
    /// Being probed.
    Probe,
    /// Resolution failed.
    Failed,
    /// Needs no resolution.
    Noarp,
    /// Configured.
    Permanent,
    /// No state.
    Absent,
    /// A state with another number.
    Other(u16),
}

/// The reachability state with a given number.
pub open spec fn nud_state(code: u16) -> NudState {
    if code == 0x01 {
        NudState::Incomplete
    } else if code == 0x02 {
        NudState::Reachable
    } else if code == 0x04 {
        NudState::Stale
    } else if code == 0x08 {
        NudState::Delay
    } else if code == 0x10 {
        NudState::Probe
    } else if code == 0x20 {
        NudState::Failed
    } else if code == 0x40 {
        NudState::Noarp
    } else if code == 0x80 {
        NudState::Permanent
    } else if code == 0 {
        NudState::Absent
    } else {
        NudState::Other(code)
    }
}

/// `NeighbourState::from` of the `rtnetlink` crate's neighbor packets turns a number into a
/// reachability state, as [`nud_state`] says.
#[verifier::external_body]
fn nud_state_from_code(code: u16) -> (state: NudState)
    ensures
        state == nud_state(code),
{
    match rtnetlink::packet_route::neighbour::NeighbourState::from(code) {
        rtnetlink::packet_route::neighbour::NeighbourState::Incomplete => NudState::Incomplete,
        rtnetlink::packet_route::neighbour::NeighbourState::Reachable => NudState::Reachable,
        rtnetlink::packet_route::neighbour::NeighbourState::Stale => NudState::Stale,
        rtnetlink::packet_route::neighbour::NeighbourState::Delay => NudState::Delay,
        rtnetlink::packet_route::neighbour::NeighbourState::Probe => NudState::Probe,
        rtnetlink::packet_route::neighbour::NeighbourState::Failed => NudState::Failed,
        rtnetlink::packet_route::neighbour::NeighbourState::Noarp => NudState::Noarp,
        rtnetlink::packet_route::neighbour::NeighbourState::Permanent => NudState::Permanent,
        rtnetlink::packet_route::neighbour::NeighbourState::None => NudState::Absent,
        other => NudState::Other(u16::from(other)),
    }
}

/// The observed reachability that a state number stands for.
pub open spec fn reachability_of(code: u16) -> NeighborState {
    match nud_state(code) {
        NudState::Incomplete => NeighborState::Incomplete,
        NudState::Reachable => NeighborState::Reachable,
        NudState::Stale => NeighborState::Stale,
        NudState::Delay => NeighborState::Delay,
        NudState::Probe => NeighborState::Probe,
        NudState::Failed => NeighborState::Failed,
        NudState::Permanent => NeighborState::Permanent,
        _ => NeighborState::Unknown,
    }
}

/// Returns the observed reachability that a state number stands for.
pub fn neighbour_state_to_state(code: u16) -> (state: NeighborState)
    ensures
        state == reachability_of(code),
{
    match nud_state_from_code(code) {
        NudState::Incomplete => NeighborState::Incomplete,
        NudState::Reachable => NeighborState::Reachable,
        NudState::Stale => NeighborState::Stale,
        NudState::Delay => NeighborState::Delay,
        NudState::Probe => NeighborState::Probe,
        NudState::Failed => NeighborState::Failed,
        NudState::Permanent => NeighborState::Permanent,
        _ => NeighborState::Unknown,
    }
}

/// Picks out the IP address that a neighbor attribute gives.
pub open spec fn neighbor_address_in() -> spec_fn(NeighbourAttribute) -> Option<IpAddress> {
    |attribute: NeighbourAttribute|
        match attribute {
            NeighbourAttribute::Destination(address) => Some(address),
            _ => None,
        }
}

/// Picks out the link-layer address that a neighbor attribute gives, if it has six octets.
pub open spec fn neighbor_mac_in() -> spec_fn(NeighbourAttribute) -> Option<MacAddress> {
    |attribute: NeighbourAttribute|
        match attribute {
            NeighbourAttribute::LinkLayerAddress(octets) => MacAddress::of_row(octets@),
            _ => None,
        }
}

/// The neighbor entry that a message describes, if it names an IP address.
pub open spec fn neighbor_in(message: NeighbourMessage) -> Option<NeighborEntry> {
    match latest(message.attributes@, neighbor_address_in()) {
        None => None,
        Some(address) => Some(
            NeighborEntry {
                id: NeighborId::of(hash_of(neighbor_rows(message.ifindex, address))),
                interface_index: message.ifindex,
                address,
                mac: latest(message.attributes@, neighbor_mac_in()),
                state: reachability_of(message.state),
            },
        ),
    }
}

/// Reads the neighbor entry that a message describes.
pub fn message_to_neighbor(message: &NeighbourMessage) -> (entry: Option<NeighborEntry>)
    ensures
        entry == neighbor_in(*message),
{
    let ghost attributes = message.attributes@;
    let mut address: Option<IpAddress> = None;
    let mut mac: Option<MacAddress> = None;
    let mut i: usize = 0;
    assert(attributes.take(0) =~= Seq::empty());
    while i < message.attributes.len()
        invariant
            i <= message.attributes.len(),
            attributes == message.attributes@,
            address == latest(attributes.take(i as int), neighbor_address_in()),
            mac == latest(attributes.take(i as int), neighbor_mac_in()),
        decreases message.attributes.len() - i,
    {
        proof {
            lemma_pick_take(attributes, neighbor_address_in(), i as int);
            lemma_pick_take(attributes, neighbor_mac_in(), i as int);
        }
        match &message.attributes[i] {
            NeighbourAttribute::Destination(found) => {
                address = Some(*found);
            },
            NeighbourAttribute::LinkLayerAddress(octets) => {
                if let Some(found) = MacAddress::from_row(octets) {
                    mac = Some(found);
                }
            },
            NeighbourAttribute::Other => {},
        }
        i = i + 1;
    }
    assert(attributes.take(i as int) =~= attributes);
    match address {
        None => None,
        Some(address) => Some(
            NeighborEntry {
                id: synthesize_neighbor_id(message.ifindex, &address),
                interface_index: message.ifindex,
                address,
                mac,
                state: neighbour_state_to_state(message.state),
            },
        ),
    }
}

/// The family of an address.
pub open spec fn family_of(address: IpAddress) -> AddressFamily {
    match address {
        IpAddress::V4(_) => AddressFamily::Inet,
        IpAddress::V6(_) => AddressFamily::Inet6,
    }
}

/// Whether a request removes just the entry for an address on an interface: it selects by
/// family, interface and address and carries nothing else.
pub open spec fn selects_neighbor(
    message: NeighbourMessage,
    interface_index: u32,
    destination: IpAddress,
) -> bool {
    &&& message.family == family_of(destination)
    &&& message.ifindex == interface_index
    &&& message.state == 0
    &&& message.attributes@ == seq![NeighbourAttribute::Destination(destination)]
}

/// Builds the request that removes the entry for an address on an interface.
pub fn static_neighbor_del_message(interface_index: u32, destination: IpAddress) -> (message:
    NeighbourMessage)
    ensures
        selects_neighbor(message, interface_index, destination),
{
    let family = match destination {
        IpAddress::V4(_) => AddressFamily::Inet,
        IpAddress::V6(_) => AddressFamily::Inet6,
    };
    let message = NeighbourMessage {
        family,
        ifindex: interface_index,
        state: 0,
        attributes: vec![NeighbourAttribute::Destination(destination)],
    };
    assert(message.attributes@ =~= seq![NeighbourAttribute::Destination(destination)]);
    message
}

// ---- events ----

/// A notification.
#[derive(Debug, Clone, PartialEq, Eq)]
pub enum RouteNetlinkMessage {
    /// A route was created or changed.
    NewRoute(RouteMessage),
    /// A route was removed.
    DelRoute(RouteMessage),
    /// A link was created or changed.
    NewLink(LinkMessage),
    /// A link was removed.
    DelLink(LinkMessage),
    /// A neighbor entry was created or changed.
    NewNeighbour(NeighbourMessage),
    /// A neighbor entry was removed.
    DelNeighbour(NeighbourMessage),
    /// An address was assigned or changed.
    NewAddress(AddressMessage),
    /// An address was removed.
    DelAddress(AddressMessage),
    /// Any other notification.
    Other,
}

/// The event for a route notification.
pub open spec fn route_event(message: RouteMessage, kind: ChangeKind) -> Option<Event> {
    match route_in(message.destination_prefix_length, message.attributes@) {
        Some(route) => Some(Event::Route { id: route.id, kind }),
        None => None,
    }
}

/// The event for a neighbor notification.
pub open spec fn neighbor_event(message: NeighbourMessage, kind: ChangeKind) -> Option<Event> {
    match neighbor_in(message) {
        Some(entry) => Some(Event::Neighbor { id: entry.id, kind }),
        None => None,
    }
}

/// The event for an address notification.
pub open spec fn address_event(message: AddressMessage, kind: ChangeKind) -> Option<Event> {
    match interface_address_in(message.index, message.prefix_len, message.attributes@) {
        Some(address) => Some(Event::Address { id: address.id, kind }),
        None => None,
    }
}

/// The event that a notification is. The kernel sends the same notification for a creation and
/// a change, so both are changes. A notification that describes no object, or one of another
/// sort, is no event.
pub open spec fn event_of(message: RouteNetlinkMessage) -> Option<Event> {
    match message {
        RouteNetlinkMessage::NewRoute(inner) => route_event(inner, ChangeKind::Changed),
        RouteNetlinkMessage::DelRoute(inner) => route_event(inner, ChangeKind::Removed),
        RouteNetlinkMessage::NewLink(inner) => Some(
            Event::Interface {
                id: InterfaceId::of(inner.index as u64),
                kind: ChangeKind::Changed,
            },
        ),
        RouteNetlinkMessage::DelLink(inner) => Some(
            Event::Interface {
                id: InterfaceId::of(inner.index as u64),
                kind: ChangeKind::Removed,
            },
        ),
        RouteNetlinkMessage::NewNeighbour(inner) => neighbor_event(inner, ChangeKind::Changed),
        RouteNetlinkMessage::DelNeighbour(inner) => neighbor_event(inner, ChangeKind::Removed),
        RouteNetlinkMessage::NewAddress(inner) => address_event(inner, ChangeKind::Changed),
        RouteNetlinkMessage::DelAddress(inner) => address_event(inner, ChangeKind::Removed),
        RouteNetlinkMessage::Other => None,
    }
}

/// Turns a notification into an event.
pub fn route_netlink_message_to_event(message: &RouteNetlinkMessage) -> (event: Option<Event>)
    ensures
        event == event_of(*message),
{
    match message {
        RouteNetlinkMessage::NewRoute(inner) => match message_to_route(inner) {
            Some(route) => Some(Event::Route { id: route.id, kind: ChangeKind::Changed }),
            None => None,
        },
        RouteNetlinkMessage::DelRoute(inner) => match message_to_route(inner) {
            Some(route) => Some(Event::Route { id: route.id, kind: ChangeKind::Removed }),
            None => None,
        },
        RouteNetlinkMessage::NewLink(inner) => Some(
            Event::Interface {
                id: InterfaceId::new(inner.index as u64),
                kind: ChangeKind::Changed,
            },
        ),
        RouteNetlinkMessage::DelLink(inner) => Some(
            Event::Interface {
                id: InterfaceId::new(inner.index as u64),
                kind: ChangeKind::Removed,
            },
        ),
        RouteNetlinkMessage::NewNeighbour(inner) => match message_to_neighbor(inner) {
            Some(entry) => Some(Event::Neighbor { id: entry.id, kind: ChangeKind::Changed }),
            None => None,
        },
        RouteNetlinkMessage::DelNeighbour(inner) => match message_to_neighbor(inner) {
            Some(entry) => Some(Event::Neighbor { id: entry.id, kind: ChangeKind::Removed }),
            None => None,
        },
        RouteNetlinkMessage::NewAddress(inner) => match message_to_interface_address(inner) {
            Some(address) => Some(Event::Address { id: address.id, kind: ChangeKind::Changed }),
            None => None,
        },
        RouteNetlinkMessage::DelAddress(inner) => match message_to_interface_address(inner) {
            Some(address) => Some(Event::Address { id: address.id, kind: ChangeKind::Removed }),
            None => None,
        },
        RouteNetlinkMessage::Other => None,
    }
}

/// Turns a notification into the event that a subscriber is to get, if any: only one that the
/// subscriber's filter delivers.
pub fn event_to_deliver(message: &RouteNetlinkMessage, filter: &EventFilter) -> (event: Option<
    Event,
>)
    ensures
        event == (match event_of(*message) {
            Some(found) if filter@.delivers(found) => Some(found),
            _ => None,
        }),
{
    match route_netlink_message_to_event(message) {
        Some(event) => {
            if filter.matches(event) {
                Some(event)
            } else {
                None
            }
        },
        None => None,
    }
}

// ---- laws ----

/// A request reads back as what was asked for. A request that adds has all that the kernel can
/// take: everything but a gateway of the other family. A request that removes has neither
/// gateway nor metric.
pub proof fn route_request_reads_back(config: RouteConfig)
    requires
        config.destination.valid(),
    ensures
        route_in(config.destination.prefix_bits(), request_attributes(config, true)) matches Some(
            route,
        ) && intent_of(route) == (RouteConfig { gateway: usable_gateway(config), ..config }),
        route_in(config.destination.prefix_bits(), request_attributes(config, false)) matches Some(
            route,
        ) && intent_of(route) == (RouteConfig { gateway: None, metric: None, ..config }),
{
    network_is_its_parts(config.destination);
    lemma_request_attributes(config, true);
    lemma_request_attributes(config, false);
}

/// What the attributes of a request say.
proof fn lemma_request_attributes(config: RouteConfig, full: bool)
    ensures
        latest(request_attributes(config, full), destination_in()) == Some(
            Some(config.destination.address()),
        ),
        flat(latest(request_attributes(config, full), gateway_in())) == (if full {
            usable_gateway(config)
        } else {
            None
        }),
        latest(request_attributes(config, full), priority_in()) == (if full {
            config.metric
        } else {
            None
        }),
        latest(request_attributes(config, full), oif_in()) == config.interface_index,
{
    let attributes = request_attributes(config, full);
    reveal_with_fuel(latest, 5);
    assert(1 <= attributes.len() <= 4);
    let one = attributes.drop_last();
    if attributes.len() > 1 {
        let two = one.drop_last();
        assert(attributes.last() == attributes[attributes.len() - 1]);
        assert(one.last() == attributes[attributes.len() - 2]);
        if attributes.len() > 2 {
            let three = two.drop_last();
            assert(two.last() == attributes[attributes.len() - 3]);
            if attributes.len() > 3 {
                assert(three.last() == attributes[attributes.len() - 4]);
            }
        }
    }
}

/// What is hashed for assigned addresses tells them apart: it is the same for two of them
/// exactly when interface and network are.
pub proof fn interface_address_rows_tell_apart(
    left_index: u32,
    left: Network,
    right_index: u32,
    right: Network,
)
    requires
        left.valid(),
        right.valid(),
    ensures
        interface_address_rows(left_index, left) == interface_address_rows(right_index, right)
            <==> left_index == right_index && left == right,
{
    address_bytes_tell_apart(left.address(), right.address(), left, right);
    lemma_number_bytes(left_index, right_index);
    let one = interface_address_rows(left_index, left);
    let other = interface_address_rows(right_index, right);
    if one == other {
        assert(one[0] == other[0]);
        assert(one[1] == other[1]);
    }
}

/// A notification names the object that reading the same message gives, whether the object was
/// changed or removed.
pub proof fn notifications_name_what_is_read(
    route: RouteMessage,
    neighbor: NeighbourMessage,
    address: AddressMessage,
)
    ensures
        route_in(route.destination_prefix_length, route.attributes@) matches Some(found) ==> {
            &&& event_of(RouteNetlinkMessage::NewRoute(route)) == Some(
                Event::Route { id: found.id, kind: ChangeKind::Changed },
            )
            &&& event_of(RouteNetlinkMessage::DelRoute(route)) == Some(
                Event::Route { id: found.id, kind: ChangeKind::Removed },
            )
        },
        neighbor_in(neighbor) matches Some(found) ==> {
            &&& event_of(RouteNetlinkMessage::NewNeighbour(neighbor)) == Some(
                Event::Neighbor { id: found.id, kind: ChangeKind::Changed },
            )
            &&& event_of(RouteNetlinkMessage::DelNeighbour(neighbor)) == Some(
                Event::Neighbor { id: found.id, kind: ChangeKind::Removed },
            )
        },
        interface_address_in(address.index, address.prefix_len, address.attributes@) matches Some(
            found,
        ) ==> {
            &&& event_of(RouteNetlinkMessage::NewAddress(address)) == Some(
                Event::Address { id: found.id, kind: ChangeKind::Changed },
            )
            &&& event_of(RouteNetlinkMessage::DelAddress(address)) == Some(
                Event::Address { id: found.id, kind: ChangeKind::Removed },
            )
        },
{
}

/// The request that removes a neighbor entry names that entry.
pub proof fn neighbor_removal_names_its_entry(
    message: NeighbourMessage,
    interface_index: u32,
    destination: IpAddress,
)
    requires
        selects_neighbor(message, interface_index, destination),
    ensures
        neighbor_in(message) matches Some(entry) && entry.interface_index == interface_index
            && entry.address == destination && entry.mac is None && entry.id == NeighborId::of(
            hash_of(neighbor_rows(interface_index, destination)),
        ),
{
    reveal_with_fuel(latest, 2);
    assert(message.attributes@.last() == NeighbourAttribute::Destination(destination));
    assert(message.attributes@.drop_last().len() == 0);
}

// ---- route messages, attribute by attribute ----

/// A route is read exactly when the last destination is an IP address whose family allows the
/// prefix length, and its destination is that address with that prefix length.
pub proof fn route_destination_is_the_last_named(
    prefix_length: u8,
    attributes: Seq<RouteAttribute>,
    i: int,
)
    ensures
        (forall|j: int| 0 <= j < attributes.len() ==> !(#[trigger] attributes[j] is Destination))
            ==> route_in(prefix_length, attributes) is None,
        0 <= i < attributes.len() && (forall|j: int|
            i < j < attributes.len() ==> !(#[trigger] attributes[j] is Destination)) ==> (
        attributes[i] matches RouteAttribute::Destination(address) ==> {
            &&& address is Other ==> route_in(prefix_length, attributes) is None
            &&& address matches RouteAddress::Inet(inner) ==> {
                &&& route_in(prefix_length, attributes) is Some <==> prefix_length <= 32
                &&& route_in(prefix_length, attributes) matches Some(route)
                    ==> route.destination.address() == IpAddress::V4(inner)
                    && route.destination.prefix_bits() == prefix_length
            }
            &&& address matches RouteAddress::Inet6(inner) ==> {
                &&& route_in(prefix_length, attributes) is Some <==> prefix_length <= 128
                &&& route_in(prefix_length, attributes) matches Some(route)
                    ==> route.destination.address() == IpAddress::V6(inner)
                    && route.destination.prefix_bits() == prefix_length
            }
        }),
{
    lemma_latest_is(attributes, destination_in(), i);
    if let Some(address) = flat(latest(attributes, destination_in())) {
        network_has_the_parts_it_was_made_of(address, prefix_length);
    }
}

/// A route's gateway, metric and outgoing interface are what the last attribute of each kind
/// says, and absent where there is none.
pub proof fn route_fields_are_the_last_named(
    prefix_length: u8,
    attributes: Seq<RouteAttribute>,
    i: int,
)
    ensures
        route_in(prefix_length, attributes) matches Some(route) ==> {
            &&& (forall|j: int|
                0 <= j < attributes.len() ==> !(#[trigger] attributes[j] is Gateway))
                ==> route.gateway is None
            &&& (forall|j: int|
                0 <= j < attributes.len() ==> !(#[trigger] attributes[j] is Priority))
                ==> route.metric is None
            &&& (forall|j: int| 0 <= j < attributes.len() ==> !(#[trigger] attributes[j] is Oif))
                ==> route.interface_index is None
            &&& 0 <= i < attributes.len() && (forall|j: int|
                i < j < attributes.len() ==> !(#[trigger] attributes[j] is Gateway)) ==> (
            attributes[i] matches RouteAttribute::Gateway(address) ==> {
                &&& address is Other ==> route.gateway is None
                &&& address matches RouteAddress::Inet(inner) ==> route.gateway == Some(
                    IpAddress::V4(inner),
                )
                &&& address matches RouteAddress::Inet6(inner) ==> route.gateway == Some(
                    IpAddress::V6(inner),
                )
            })
            &&& 0 <= i < attributes.len() && (forall|j: int|
                i < j < attributes.len() ==> !(#[trigger] attributes[j] is Priority)) ==> (
            attributes[i] matches RouteAttribute::Priority(metric) ==> route.metric == Some(metric))
            &&& 0 <= i < attributes.len() && (forall|j: int|
                i < j < attributes.len() ==> !(#[trigger] attributes[j] is Oif)) ==> (
            attributes[i] matches RouteAttribute::Oif(index) ==> route.interface_index == Some(
                index,
            ))
        },
{
    lemma_latest_is(attributes, gateway_in(), i);
    lemma_latest_is(attributes, priority_in(), i);
    lemma_latest_is(attributes, oif_in(), i);
}

/// Whether destination, gateway and outgoing interface stand in this order, each at most once,
/// as the kernel sends them.
pub open spec fn in_kernel_order(attributes: Seq<RouteAttribute>) -> bool {
    forall|i: int, j: int|
        0 <= i < j < attributes.len() ==> {
            &&& #[trigger] attributes[i] is Destination ==> !(
            #[trigger] attributes[j] is Destination)
            &&& attributes[i] is Gateway ==> !(attributes[j] is Destination)
            &&& attributes[i] is Gateway ==> !(attributes[j] is Gateway)
            &&& attributes[i] is Oif ==> !(attributes[j] is Destination)
            &&& attributes[i] is Oif ==> !(attributes[j] is Gateway)
            &&& attributes[i] is Oif ==> !(attributes[j] is Oif)
        }
}

/// The rows for the attributes that are there, in the kernel's order.
spec fn rows_in_order(
    destination: Option<Option<IpAddress>>,
    gateway: Option<Option<IpAddress>>,
    index: Option<u32>,
) -> Seq<Seq<u8>> {
    (match destination {
        Some(address) => seq![optional_address_bytes(address)],
        None => Seq::empty(),
    }) + (match gateway {
        Some(address) => seq![optional_address_bytes(address)],
        None => Seq::empty(),
    }) + (match index {
        Some(number) => seq![bytes_of(number)],
        None => Seq::empty(),
    })
}

/// Attributes in the kernel's order give the rows of the three of them that count.
proof fn lemma_rows_in_order(attributes: Seq<RouteAttribute>)
    requires
        in_kernel_order(attributes),
    ensures
        gathered(attributes.len(), attribute_rows(attributes)) == rows_in_order(
            latest(attributes, destination_in()),
            latest(attributes, gateway_in()),
            latest(attributes, oif_in()),
        ),
    decreases attributes.len(),
{
    if attributes.len() == 0 {
        assert(rows_in_order(None, None, None) =~= Seq::empty());
    } else {
        let before = attributes.drop_last();
        let last = attributes.last();
        let n = before.len();
        assert(forall|i: int| 0 <= i < n ==> #[trigger] before[i] == attributes[i]);
        assert(in_kernel_order(before)) by {
            assert forall|i: int, j: int| 0 <= i < j < before.len() implies {
                &&& #[trigger] before[i] is Destination ==> !(#[trigger] before[j] is Destination)
                &&& before[i] is Gateway ==> !(before[j] is Destination) && !(before[j] is Gateway)
                &&& before[i] is Oif ==> !(before[j] is Destination) && !(before[j] is Gateway)
                    && !(before[j] is Oif)
            } by {
                assert(attributes[i] == before[i] && attributes[j] == before[j]);
            }
        }
        lemma_rows_in_order(before);
        assert forall|i: int| 0 <= i < n implies #[trigger] attribute_rows(before)(i)
            == attribute_rows(attributes)(i) by {
            assert(before[i] == attributes[i]);
        }
        lemma_gathered_congruent(n, attribute_rows(before), attribute_rows(attributes));
        lemma_latest_is(before, destination_in(), 0);
        lemma_latest_is(before, gateway_in(), 0);
        lemma_latest_is(before, oif_in(), 0);
        assert forall|i: int| 0 <= i < n implies {
            &&& last is Destination ==> !(#[trigger] before[i] is Destination)
            &&& last is Destination ==> !(before[i] is Gateway) && !(before[i] is Oif)
            &&& last is Gateway ==> !(before[i] is Gateway) && !(before[i] is Oif)
            &&& last is Oif ==> !(before[i] is Oif)
        } by {
            assert(attributes[i] == before[i]);
            assert(attributes[n as int] == last);
        }
        assert(gathered(attributes.len(), attribute_rows(attributes)) =~= rows_in_order(
            latest(attributes, destination_in()),
            latest(attributes, gateway_in()),
            latest(attributes, oif_in()),
        ));
    }
}

/// What is hashed for routes tells them apart. Of two messages in the kernel's order that each
/// describe a route, with gateways that are IP addresses, the same is hashed exactly when the
/// routes have the same destination, gateway and outgoing interface; and a route's identity is
/// the hash of just that.
pub proof fn route_rows_tell_apart(
    left_prefix: u8,
    left: Seq<RouteAttribute>,
    right_prefix: u8,
    right: Seq<RouteAttribute>,
)
    requires
        in_kernel_order(left),
        in_kernel_order(right),
        !left.contains(RouteAttribute::Gateway(RouteAddress::Other)),
        !right.contains(RouteAttribute::Gateway(RouteAddress::Other)),
    ensures
        route_in(left_prefix, left) matches Some(one) ==> (route_in(
            right_prefix,
            right,
        ) matches Some(other) ==> {
            &&& route_rows(left_prefix, left) == route_rows(right_prefix, right) <==> (
            one.destination == other.destination && one.gateway == other.gateway
                && one.interface_index == other.interface_index)
            &&& one.id == RouteId::of(hash_of(route_rows(left_prefix, left)))
        }),
{
    if let Some(one) = route_in(left_prefix, left) {
        if let Some(other) = route_in(right_prefix, right) {
            lemma_rows_in_order(left);
            lemma_rows_in_order(right);
            let a = flat(latest(left, destination_in()))->0;
            let b = flat(latest(right, destination_in()))->0;
            network_has_the_parts_it_was_made_of(a, left_prefix);
            network_has_the_parts_it_was_made_of(b, right_prefix);
            address_bytes_tell_apart(a, b, one.destination, other.destination);
            let at = lemma_latest_at(left, gateway_in());
            if latest(left, gateway_in()) == Some(None::<IpAddress>) {
                assert(left[at] == RouteAttribute::Gateway(RouteAddress::Other));
            }
            let at = lemma_latest_at(right, gateway_in());
            if latest(right, gateway_in()) == Some(None::<IpAddress>) {
                assert(right[at] == RouteAttribute::Gateway(RouteAddress::Other));
            }
            let here = route_rows(left_prefix, left);
            let there = route_rows(right_prefix, right);
            if here == there {
                assert(here[0] == there[0]);
                assert(here[0][0] == left_prefix);
                assert(there[0][0] == right_prefix);
                assert(here[1] == there[1]);
                address_bytes_carry_the_family(one.gateway);
                address_bytes_carry_the_family(other.gateway);
                if here.len() > 2 {
                    assert(here[2] == there[2]);
                }
                if here.len() > 3 {
                    assert(here[3] == there[3]);
                }
                if one.gateway is Some && other.gateway is Some {
                    address_bytes_tell_apart(
                        one.gateway->0,
                        other.gateway->0,
                        one.destination,
                        other.destination,
                    );
                }
                if one.interface_index is Some && other.interface_index is Some {
                    lemma_number_bytes(one.interface_index->0, other.interface_index->0);
                }
            }
        }
    }
}

/// A route's identity depends on what is hashed for it alone: messages that describe routes of
/// one destination, gateway and outgoing interface name the same object, whatever else they say.
pub proof fn same_routes_have_the_same_identity(
    left_prefix: u8,
    left: Seq<RouteAttribute>,
    right_prefix: u8,
    right: Seq<RouteAttribute>,
)
    requires
        in_kernel_order(left),
        in_kernel_order(right),
        !left.contains(RouteAttribute::Gateway(RouteAddress::Other)),
        !right.contains(RouteAttribute::Gateway(RouteAddress::Other)),
    ensures
        route_in(left_prefix, left) matches Some(one) ==> (route_in(
            right_prefix,
            right,
        ) matches Some(other) ==> (one.destination == other.destination && one.gateway
            == other.gateway && one.interface_index == other.interface_index ==> one.id
            == other.id)),
{
    route_rows_tell_apart(left_prefix, left, right_prefix, right);
}

// ---- other messages, attribute by attribute ----

/// The assigned address is the last local one, or without a local one the first plain one; it
/// has the message's prefix length, and the broadcast address is the last one named. It is read
/// exactly when it is named and its family allows the prefix length.
pub proof fn assigned_address_prefers_the_local_one(
    index: u32,
    prefix_len: u8,
    attributes: Seq<AddressAttribute>,
    i: int,
)
    ensures
        interface_address_in(index, prefix_len, attributes) matches Some(found) ==> {
            &&& found.interface_index == index
            &&& found.address.prefix_bits() == prefix_len
            &&& found.id == InterfaceAddressId::of(
                hash_of(interface_address_rows(index, found.address)),
            )
            &&& 0 <= i < attributes.len() && (forall|j: int|
                i < j < attributes.len() ==> !(#[trigger] attributes[j] is Local)) ==> (
            attributes[i] matches AddressAttribute::Local(address) ==> found.address.address()
                == address)
            &&& 0 <= i < attributes.len() && (forall|j: int|
                0 <= j < attributes.len() ==> !(#[trigger] attributes[j] is Local)) && (forall|
                j: int,
            |
                0 <= j < i ==> !(#[trigger] attributes[j] is Address)) ==> (
            attributes[i] matches AddressAttribute::Address(address) ==> found.address.address()
                == address)
            &&& 0 <= i < attributes.len() && (forall|j: int|
                i < j < attributes.len() ==> !(#[trigger] attributes[j] is Broadcast)) ==> (
            attributes[i] matches AddressAttribute::Broadcast(address) ==> found.broadcast == Some(
                IpAddress::V4(address),
            ))
            &&& (forall|j: int|
                0 <= j < attributes.len() ==> !(#[trigger] attributes[j] is Broadcast))
                ==> found.broadcast is None
        },
        (forall|j: int|
            0 <= j < attributes.len() ==> !(#[trigger] attributes[j] is Local)) && (forall|j: int|
            0 <= j < attributes.len() ==> !(#[trigger] attributes[j] is Address))
            ==> interface_address_in(index, prefix_len, attributes) is None,
        0 <= i < attributes.len() && (forall|j: int|
            i < j < attributes.len() ==> !(#[trigger] attributes[j] is Local)) ==> (
        attributes[i] matches AddressAttribute::Local(address) ==> (interface_address_in(
            index,
            prefix_len,
            attributes,
        ) is Some <==> prefix_len <= 32 || address is V6 && prefix_len <= 128)),
        0 <= i < attributes.len() && (forall|j: int|
            0 <= j < attributes.len() ==> !(#[trigger] attributes[j] is Local)) && (forall|j: int|
            0 <= j < i ==> !(#[trigger] attributes[j] is Address)) ==> (
        attributes[i] matches AddressAttribute::Address(address) ==> (interface_address_in(
            index,
            prefix_len,
            attributes,
        ) is Some <==> prefix_len <= 32 || address is V6 && prefix_len <= 128)),
{
    lemma_latest_is(attributes, local_in(), i);
    lemma_earliest_is(attributes, plain_address_in(), i);
    lemma_latest_is(attributes, broadcast_in(), i);
    let local = lemma_latest_at(attributes, local_in());
    let plain = lemma_earliest_at(attributes, plain_address_in());
    if let Some(address) = assigned_in(attributes) {
        network_has_the_parts_it_was_made_of(address, prefix_len);
    } else {
        assert forall|j: int| 0 <= j < attributes.len() implies !(#[trigger] attributes[j] is Local)
            && !(attributes[j] is Address) by {
            assert(local_in()(attributes[j]) is None);
            assert(plain_address_in()(attributes[j]) is None);
        }
    }
}

/// An interface is what its link message says: the index names it, the lowest flag tells whether
/// it is up, and its name, hardware address, MTU and operational state are the last ones named.
pub proof fn link_fields_are_the_last_named(interface: Interface, message: LinkMessage, i: int)
    requires
        is_interface_in(interface, message),
    ensures
        interface.index == message.index,
        interface.id == InterfaceId::of(message.index as u64),
        interface.admin_state == AdminState::Up <==> message.flags % 2 == 1,
        interface.admin_state == AdminState::Down <==> message.flags % 2 == 0,
        interface.kind == InterfaceKind::Ethernet <==> message.link_layer_type == 1,
        interface.kind == InterfaceKind::Loopback <==> message.link_layer_type == 772,
        interface.kind == InterfaceKind::PointToPoint <==> message.link_layer_type == 512,
        interface.kind == InterfaceKind::Wireless <==> 801 <= message.link_layer_type <= 803,
        interface.kind == InterfaceKind::Other(message.link_layer_type as u32)
            <==> message.link_layer_type != 1 && message.link_layer_type != 772
            && message.link_layer_type != 512 && !(801 <= message.link_layer_type <= 803),
        ({
            let attributes = message.attributes@;
            let last = |named: spec_fn(LinkAttribute) -> bool|
                0 <= i < attributes.len() && named(attributes[i]) && forall|j: int|
                    i < j < attributes.len() ==> !named(#[trigger] attributes[j]);
            let none = |named: spec_fn(LinkAttribute) -> bool|
                forall|j: int| 0 <= j < attributes.len() ==> !named(#[trigger] attributes[j]);
            &&& last(|attribute: LinkAttribute| attribute is IfName) ==> interface.name@
                == attributes[i]->IfName_0@
            &&& none(|attribute: LinkAttribute| attribute is IfName) ==> interface.name@.len() == 0
            &&& last(
                |attribute: LinkAttribute|
                    attribute is Address && attribute->Address_0@.len() == 6,
            ) ==> interface.mac == Some(MacAddress::of(attributes[i]->Address_0@))
            &&& none(
                |attribute: LinkAttribute|
                    attribute is Address && attribute->Address_0@.len() == 6,
            ) ==> interface.mac is None
            &&& last(|attribute: LinkAttribute| attribute is Mtu) ==> interface.mtu == Some(
                attributes[i]->Mtu_0,
            )
            &&& none(|attribute: LinkAttribute| attribute is Mtu) ==> interface.mtu is None
            &&& last(|attribute: LinkAttribute| attribute is OperState) ==> {
                let code = attributes[i]->OperState_0;
                &&& interface.operational_state == OperationalState::Up <==> code == 6
                &&& interface.operational_state == OperationalState::Down <==> code == 1 || code
                    == 2 || code == 3
                &&& interface.operational_state == OperationalState::NoCarrier <==> code == 5
            }
            &&& none(|attribute: LinkAttribute| attribute is OperState)
                ==> interface.operational_state == OperationalState::Unknown
        }),
{
    let attributes = message.attributes@;
    lemma_latest_is(attributes, name_in(), i);
    lemma_latest_is(attributes, hardware_in(), i);
    lemma_latest_is(attributes, mtu_in(), i);
    lemma_latest_is(attributes, state_in(), i);
    let named = |attribute: LinkAttribute| attribute is IfName;
    let hardware = |attribute: LinkAttribute|
        attribute is Address && attribute->Address_0@.len() == 6;
    let mtu = |attribute: LinkAttribute| attribute is Mtu;
    let state = |attribute: LinkAttribute| attribute is OperState;
    assert(forall|attribute: LinkAttribute| #[trigger]
        named(attribute) <==> name_in()(attribute) is Some);
    assert(forall|attribute: LinkAttribute| #[trigger]
        hardware(attribute) <==> hardware_in()(attribute) is Some);
    assert(forall|attribute: LinkAttribute| #[trigger]
        mtu(attribute) <==> mtu_in()(attribute) is Some);
    assert(forall|attribute: LinkAttribute| #[trigger]
        state(attribute) <==> state_in()(attribute) is Some);
}

/// Link-layer types are told apart by their numbers: 1 is Ethernet, 772 loopback, 512 a
/// point-to-point link, 801 to 803 are wireless, and any other number is kept as it is.
pub proof fn link_kinds_have_their_numbers(code: u16)
    ensures
        kind_of_link(code) == InterfaceKind::Ethernet <==> code == 1,
        kind_of_link(code) == InterfaceKind::Loopback <==> code == 772,
        kind_of_link(code) == InterfaceKind::PointToPoint <==> code == 512,
        kind_of_link(code) == InterfaceKind::Wireless <==> 801 <= code <= 803,
        kind_of_link(code) == InterfaceKind::Other(code as u32) <==> code != 1 && code != 772
            && code != 512 && !(801 <= code <= 803),
{
}

/// Operational states are told apart by their numbers: 6 is up; 1, 2 and 3 are down; 5 is without
/// carrier; and any other number is unknown.
pub proof fn link_states_have_their_numbers(code: u8)
    ensures
        operational_of(code) == OperationalState::Up <==> code == 6,
        operational_of(code) == OperationalState::Down <==> 1 <= code <= 3,
        operational_of(code) == OperationalState::NoCarrier <==> code == 5,
        operational_of(code) == OperationalState::Unknown <==> code == 0 || code == 4 || code > 6,
{
}

/// Reachability states are told apart by their bits.
pub proof fn neighbor_states_have_their_numbers(code: u16)
    ensures
        reachability_of(code) == NeighborState::Incomplete <==> code == 0x01,
        reachability_of(code) == NeighborState::Reachable <==> code == 0x02,
        reachability_of(code) == NeighborState::Stale <==> code == 0x04,
        reachability_of(code) == NeighborState::Delay <==> code == 0x08,
        reachability_of(code) == NeighborState::Probe <==> code == 0x10,
        reachability_of(code) == NeighborState::Failed <==> code == 0x20,
        reachability_of(code) == NeighborState::Permanent <==> code == 0x80,
        reachability_of(code) == NeighborState::Unknown <==> code != 0x01 && code != 0x02 && code
            != 0x04 && code != 0x08 && code != 0x10 && code != 0x20 && code != 0x80,
{
}

/// A neighbor entry is read exactly when an address is named; its address is the last one named,
/// its link-layer address the last one with six octets, and its interface and state are those of
/// the message.
pub proof fn neighbor_fields_are_the_last_named(message: NeighbourMessage, i: int)
    ensures
        ({
            let attributes = message.attributes@;
            let last = |named: spec_fn(NeighbourAttribute) -> bool|
                0 <= i < attributes.len() && named(attributes[i]) && forall|j: int|
                    i < j < attributes.len() ==> !named(#[trigger] attributes[j]);
            let none = |named: spec_fn(NeighbourAttribute) -> bool|
                forall|j: int| 0 <= j < attributes.len() ==> !named(#[trigger] attributes[j]);
            &&& none(|attribute: NeighbourAttribute| attribute is Destination) <==> neighbor_in(
                message,
            ) is None
            &&& neighbor_in(message) matches Some(entry) ==> {
                &&& entry.interface_index == message.ifindex
                &&& entry.id == NeighborId::of(
                    hash_of(neighbor_rows(message.ifindex, entry.address)),
                )
                &&& last(|attribute: NeighbourAttribute| attribute is Destination)
                    ==> entry.address == attributes[i]->Destination_0
                &&& last(
                    |attribute: NeighbourAttribute|
                        attribute is LinkLayerAddress && attribute->LinkLayerAddress_0@.len() == 6,
                ) ==> entry.mac == Some(MacAddress::of(attributes[i]->LinkLayerAddress_0@))
                &&& none(
                    |attribute: NeighbourAttribute|
                        attribute is LinkLayerAddress && attribute->LinkLayerAddress_0@.len() == 6,
                ) ==> entry.mac is None
                &&& entry.state == NeighborState::Incomplete <==> message.state == 0x01
                &&& entry.state == NeighborState::Reachable <==> message.state == 0x02
                &&& entry.state == NeighborState::Stale <==> message.state == 0x04
                &&& entry.state == NeighborState::Delay <==> message.state == 0x08
                &&& entry.state == NeighborState::Probe <==> message.state == 0x10
                &&& entry.state == NeighborState::Failed <==> message.state == 0x20
                &&& entry.state == NeighborState::Permanent <==> message.state == 0x80
            }
        }),
{
    let attributes = message.attributes@;
    lemma_latest_is(attributes, neighbor_address_in(), i);
    lemma_latest_is(attributes, neighbor_mac_in(), i);
    let at = lemma_latest_at(attributes, neighbor_address_in());
    let named = |attribute: NeighbourAttribute| attribute is Destination;
    let hardware = |attribute: NeighbourAttribute|
        attribute is LinkLayerAddress && attribute->LinkLayerAddress_0@.len() == 6;
    assert(forall|attribute: NeighbourAttribute| #[trigger]
        named(attribute) <==> neighbor_address_in()(attribute) is Some);
    assert(forall|attribute: NeighbourAttribute| #[trigger]
        hardware(attribute) <==> neighbor_mac_in()(attribute) is Some);
    if neighbor_in(message) is Some {
        assert(named(attributes[at]));
    }
}

/// Notifications of links name the link by its index, as changed or as removed, and a message
/// that describes no object is no event.
pub proof fn link_notifications_name_the_link(
    link: LinkMessage,
    route: RouteMessage,
    neighbor: NeighbourMessage,
    address: AddressMessage,
)
    ensures
        event_of(RouteNetlinkMessage::NewLink(link)) == Some(
            Event::Interface { id: InterfaceId::of(link.index as u64), kind: ChangeKind::Changed },
        ),
        event_of(RouteNetlinkMessage::DelLink(link)) == Some(
            Event::Interface { id: InterfaceId::of(link.index as u64), kind: ChangeKind::Removed },
        ),
        event_of(RouteNetlinkMessage::Other) is None,
        route_in(route.destination_prefix_length, route.attributes@) is None ==> event_of(
            RouteNetlinkMessage::NewRoute(route),
        ) is None && event_of(RouteNetlinkMessage::DelRoute(route)) is None,
        neighbor_in(neighbor) is None ==> event_of(RouteNetlinkMessage::NewNeighbour(neighbor)) is
            None && event_of(RouteNetlinkMessage::DelNeighbour(neighbor)) is None,
        interface_address_in(address.index, address.prefix_len, address.attributes@) is None
            ==> event_of(RouteNetlinkMessage::NewAddress(address)) is None && event_of(
            RouteNetlinkMessage::DelAddress(address),
        ) is None,
{
}

/// A link request names the interface by its index, changes the lowest flag exactly when an
/// administrative state is asked for, sets it exactly for up, and carries an MTU exactly when
/// one is asked for.
pub proof fn link_request_changes_what_is_asked_for(message: LinkMessage, config: InterfaceConfig)
    requires
        changes_only(message, config),
    ensures
        config.interface_id().value() == message.index,
        message.link_layer_type == 0,
        config.admin_state() == Some(DesiredAdminState::Up) ==> message.change_mask == 1
            && message.flags == 1,
        config.admin_state() == Some(DesiredAdminState::Down) ==> message.change_mask == 1
            && message.flags == 0,
        config.admin_state() is None ==> message.change_mask == 0 && message.flags == 0,
        config.mtu() is None ==> message.attributes@.len() == 0,
        config.mtu() matches Some(mtu) ==> message.attributes@.len() == 1 && message.attributes@[0]
            == LinkAttribute::Mtu(mtu),
{
}

/// A request names a route by its own fields, each once: its destination first, a gateway of the
/// destination's family and a metric exactly when it adds, and the outgoing interface when there
/// is one.
pub proof fn route_request_names_the_route(
    config: RouteConfig,
    full: bool,
    attribute: RouteAttribute,
)
    ensures
        request_attributes(config, full)[0] == RouteAttribute::Destination(
            route_address_of(config.destination.address()),
        ),
        config.destination matches Network::V4(network) ==> route_address_of(
            config.destination.address(),
        ) == RouteAddress::Inet(network.address()),
        config.destination matches Network::V6(network) ==> route_address_of(
            config.destination.address(),
        ) == RouteAddress::Inet6(network.address()),
        request_attributes(config, full).contains(attribute) <==> (match attribute {
            RouteAttribute::Destination(RouteAddress::Inet(inner)) => config.destination is V4
                && config.destination.address() == IpAddress::V4(inner),
            RouteAttribute::Destination(RouteAddress::Inet6(inner)) => config.destination is V6
                && config.destination.address() == IpAddress::V6(inner),
            RouteAttribute::Gateway(RouteAddress::Inet(inner)) => full && config.destination is V4
                && config.gateway == Some(IpAddress::V4(inner)),
            RouteAttribute::Gateway(RouteAddress::Inet6(inner)) => full && config.destination is V6
                && config.gateway == Some(IpAddress::V6(inner)),
            RouteAttribute::Priority(metric) => full && config.metric == Some(metric),
            RouteAttribute::Oif(index) => config.interface_index == Some(index),
            _ => false,
        }),
        request_attributes(config, full).no_duplicates(),
{
    let list = request_attributes(config, full);
    let last = if config.interface_index is Some {
        list.len() - 1
    } else {
        list.len() as int
    };
    if list.contains(attribute) {
        let i = choose|i: int| 0 <= i < list.len() && list[i] == attribute;
    } else {
        assert(list[0] != attribute);
        assert(list.len() > 1 ==> list[1] != attribute);
        assert(last > 0 ==> list[last - 1] != attribute);
        assert(list.last() != attribute);
    }
}

/// The message that removes a neighbor entry has the family of the entry's address.
pub proof fn neighbor_requests_have_the_address_family(
    message: NeighbourMessage,
    interface_index: u32,
    destination: IpAddress,
)
    requires
        selects_neighbor(message, interface_index, destination),
    ensures
        message.family == AddressFamily::Inet <==> destination is V4,
        message.family == AddressFamily::Inet6 <==> destination is V6,
        message.ifindex == interface_index,
        message.state == 0,
        message.attributes@.len() == 1,
{
}

/// What is hashed for route messages tells the messages apart. Of two messages in the kernel's
/// order that each name a destination, and only IP addresses, the same is hashed exactly when
/// they have the same prefix length, destination, gateway and outgoing interface.
pub proof fn hashed_rows_tell_messages_apart(
    left_prefix: u8,
    left: Seq<RouteAttribute>,
    a: int,
    right_prefix: u8,
    right: Seq<RouteAttribute>,
    b: int,
)
    requires
        in_kernel_order(left),
        in_kernel_order(right),
        0 <= a < left.len() && left[a] is Destination,
        0 <= b < right.len() && right[b] is Destination,
        left[a] != RouteAttribute::Destination(RouteAddress::Other),
        right[b] != RouteAttribute::Destination(RouteAddress::Other),
        !left.contains(RouteAttribute::Gateway(RouteAddress::Other)),
        !right.contains(RouteAttribute::Gateway(RouteAddress::Other)),
    ensures
        route_rows(left_prefix, left) == route_rows(right_prefix, right) <==> {
            &&& left_prefix == right_prefix
            &&& left[a] == right[b]
            &&& forall|gateway: RouteAddress| #[trigger]
                left.contains(RouteAttribute::Gateway(gateway)) <==> right.contains(
                    RouteAttribute::Gateway(gateway),
                )
            &&& forall|index: u32| #[trigger]
                left.contains(RouteAttribute::Oif(index)) <==> right.contains(
                    RouteAttribute::Oif(index),
                )
        },
{
    lemma_rows_in_order(left);
    lemma_rows_in_order(right);
    lemma_named_once(left);
    lemma_named_once(right);
    lemma_latest_is(left, destination_in(), a);
    lemma_latest_is(right, destination_in(), b);
    let one = ip_of(left[a]->Destination_0)->0;
    let other = ip_of(right[b]->Destination_0)->0;
    let any = Network::of_parts(IpAddress::V4(Ipv4Address::of(seq![0u8, 0, 0, 0])), 0)->0;
    network_has_the_parts_it_was_made_of(IpAddress::V4(Ipv4Address::of(seq![0u8, 0, 0, 0])), 0);
    address_bytes_tell_apart(one, other, any, any);
    address_bytes_carry_the_family(Some(one));
    address_bytes_carry_the_family(Some(other));
    let near = flat(latest(left, gateway_in()));
    let far = flat(latest(right, gateway_in()));
    let here = route_rows(left_prefix, left);
    let there = route_rows(right_prefix, right);
    if here == there {
        assert(here[0] == there[0]);
        assert(here[0][0] == left_prefix);
        assert(there[0][0] == right_prefix);
        assert(here[1] == there[1]);
        address_bytes_carry_the_family(near);
        address_bytes_carry_the_family(far);
        if here.len() > 2 {
            assert(here[2] == there[2]);
        }
        if here.len() > 3 {
            assert(here[3] == there[3]);
        }
        if near is Some && far is Some {
            address_bytes_tell_apart(near->0, far->0, any, any);
        }
        if latest(left, oif_in()) is Some && latest(right, oif_in()) is Some {
            lemma_number_bytes(latest(left, oif_in())->0, latest(right, oif_in())->0);
        }
        assert(near == far);
        assert(latest(left, oif_in()) == latest(right, oif_in()));
    }
    if left_prefix == right_prefix && left[a] == right[b] && (forall|
        gateway: RouteAddress,
    | #[trigger]
        left.contains(RouteAttribute::Gateway(gateway)) <==> right.contains(
            RouteAttribute::Gateway(gateway),
        )) && (forall|index: u32| #[trigger]
        left.contains(RouteAttribute::Oif(index)) <==> right.contains(RouteAttribute::Oif(index))) {
        if near is Some {
            let gateway = route_address_of(near->0);
            assert(left.contains(RouteAttribute::Gateway(gateway)));
            assert(right.contains(RouteAttribute::Gateway(gateway)));
        }
        if far is Some {
            let gateway = route_address_of(far->0);
            assert(left.contains(RouteAttribute::Gateway(gateway)) <==> right.contains(
                RouteAttribute::Gateway(gateway),
            ));
        }
        if let Some(index) = latest(left, oif_in()) {
            assert(left.contains(RouteAttribute::Oif(index)));
            assert(right.contains(RouteAttribute::Oif(index)));
        }
        if let Some(index) = latest(right, oif_in()) {
            assert(left.contains(RouteAttribute::Oif(index)) <==> right.contains(
                RouteAttribute::Oif(index),
            ));
        }
        assert(latest(left, gateway_in()) == latest(right, gateway_in()));
        assert(latest(left, oif_in()) == latest(right, oif_in()));
        assert(here == there);
    }
}

/// In the kernel's order the gateway that is named and the outgoing interface that is named are
/// the last ones.
proof fn lemma_named_once(attributes: Seq<RouteAttribute>)
    requires
        in_kernel_order(attributes),
        !attributes.contains(RouteAttribute::Gateway(RouteAddress::Other)),
    ensures
        latest(attributes, gateway_in()) != Some(None::<IpAddress>),
        forall|gateway: RouteAddress| #[trigger]
            attributes.contains(RouteAttribute::Gateway(gateway)) <==> !(gateway is Other)
                && latest(attributes, gateway_in()) == Some(ip_of(gateway)),
        forall|index: u32| #[trigger]
            attributes.contains(RouteAttribute::Oif(index)) <==> latest(attributes, oif_in())
                == Some(index),
{
    let at = lemma_latest_at(attributes, gateway_in());
    if latest(attributes, gateway_in()) is Some {
        assert(attributes.contains(attributes[at]));
    }
    let at = lemma_latest_at(attributes, oif_in());
    if latest(attributes, oif_in()) is Some {
        assert(attributes.contains(attributes[at]));
    }
    assert forall|gateway: RouteAddress| #[trigger]
        attributes.contains(RouteAttribute::Gateway(gateway)) implies latest(
        attributes,
        gateway_in(),
    ) == Some(ip_of(gateway)) by {
        let i = choose|i: int|
            0 <= i < attributes.len() && attributes[i] == RouteAttribute::Gateway(gateway);
        lemma_latest_is(attributes, gateway_in(), i);
    }
    assert forall|index: u32| #[trigger]
        attributes.contains(RouteAttribute::Oif(index)) implies latest(attributes, oif_in())
        == Some(index) by {
        let i = choose|i: int|
            0 <= i < attributes.len() && attributes[i] == RouteAttribute::Oif(index);
        lemma_latest_is(attributes, oif_in(), i);
    }
}

} // verus!
