use net_lattice::backend::ensure_removable_static_neighbor_state;
use net_lattice::identity::synthesize_neighbor_id;
use net_lattice::linux::address_request;
use net_lattice::linux::confirm_neighbor;
use net_lattice::linux::io_error_code;
use net_lattice::linux::is_address_message;
use net_lattice::linux::neighbor_mutation_error;
use net_lattice::linux::resolv_conf_error;
use net_lattice::linux::rtnetlink_error_code;
use net_lattice::linux::static_neighbor_removal;
use net_lattice::linux::FileErrorKind;
use net_lattice::netlink::event_to_deliver;
use net_lattice::netlink::interface_config_to_link_change;
use net_lattice::netlink::interface_index;
use net_lattice::netlink::link_layer_type_to_kind;
use net_lattice::netlink::message_to_interface;
use net_lattice::netlink::message_to_interface_address;
use net_lattice::netlink::message_to_neighbor;
use net_lattice::netlink::message_to_route;
use net_lattice::netlink::neighbour_state_to_state;
use net_lattice::netlink::operational_state;
use net_lattice::netlink::route_netlink_message_to_event;
use net_lattice::netlink::route_request_message;
use net_lattice::netlink::static_neighbor_del_message;
use net_lattice::netlink::AddressAttribute;
use net_lattice::netlink::AddressFamily;
use net_lattice::netlink::AddressMessage;
use net_lattice::netlink::LinkAttribute;
use net_lattice::netlink::LinkMessage;
use net_lattice::netlink::NeighbourAttribute;
use net_lattice::netlink::NeighbourMessage;
use net_lattice::netlink::RouteAddress;
use net_lattice::netlink::RouteAttribute;
use net_lattice::netlink::RouteMessage;
use net_lattice::netlink::RouteNetlinkMessage;
use net_lattice::netlink::LINK_UP;
use net_lattice::resolv::parse_resolv_conf;
use net_lattice::resolv::render_resolv_conf;
use net_lattice::AdminState;
use net_lattice::ChangeKind;
use net_lattice::DesiredAdminState;
use net_lattice::Error;
use net_lattice::Event;
use net_lattice::EventFilter;
use net_lattice::Id;
use net_lattice::InterfaceConfig;
use net_lattice::InterfaceId;
use net_lattice::InterfaceKind;
use net_lattice::IpAddress;
use net_lattice::Ipv4Address;
use net_lattice::Ipv4Network;
use net_lattice::Ipv4PrefixLength;
use net_lattice::Ipv6Address;
use net_lattice::Ipv6Network;
use net_lattice::Ipv6PrefixLength;
use net_lattice::MacAddress;
use net_lattice::NeighborEntry;
use net_lattice::NeighborId;
use net_lattice::NeighborState;
use net_lattice::Network;
use net_lattice::NewDnsConfig;
use net_lattice::NewInterfaceAddress;
use net_lattice::OperationalState;
use net_lattice::PlatformErrorCode;
use net_lattice::RouteConfig;
use net_lattice::StaticNeighbor;

fn v6(text: &str) -> IpAddress {
    IpAddress::from(Ipv6Address::parse(text).expect("IPv6 address"))
}

fn v4(a: u8, b: u8, c: u8, d: u8) -> IpAddress {
    IpAddress::from(Ipv4Address::new(a, b, c, d))
}

fn network_v4(a: u8, b: u8, c: u8, d: u8, prefix: u8) -> Network {
    Network::from(Ipv4Network::new(
        Ipv4Address::new(a, b, c, d),
        Ipv4PrefixLength::new(prefix).unwrap(),
    ))
}

fn network_v6(groups: [u16; 8], prefix: u8) -> Network {
    Network::from(Ipv6Network::new(
        Ipv6Address::new(groups),
        Ipv6PrefixLength::new(prefix).expect("valid IPv6 prefix"),
    ))
}

const REACHABLE: u16 = 0x02;

fn ipv4_route_message() -> RouteMessage {
    RouteMessage {
        destination_prefix_length: 24,
        attributes: vec![
            RouteAttribute::Destination(RouteAddress::Inet(Ipv4Address::new(198, 51, 100, 0))),
            RouteAttribute::Gateway(RouteAddress::Inet(Ipv4Address::new(192, 0, 2, 1))),
            RouteAttribute::Priority(42),
            RouteAttribute::Oif(7),
        ],
    }
}

fn ipv6_address_message() -> AddressMessage {
    AddressMessage {
        index: 7,
        prefix_len: 64,
        attributes: vec![AddressAttribute::Address(v6("2001:db8:0:16::7"))],
    }
}

fn ipv6_neighbor_message() -> NeighbourMessage {
    NeighbourMessage {
        family: AddressFamily::Unspec,
        ifindex: 7,
        state: REACHABLE,
        attributes: vec![
            NeighbourAttribute::Destination(v6("2001:db8:0:16::1")),
            NeighbourAttribute::LinkLayerAddress(vec![2, 0, 0, 0, 0, 0x16]),
        ],
    }
}

fn empty_address_message() -> AddressMessage {
    AddressMessage { index: 0, prefix_len: 0, attributes: Vec::new() }
}

fn empty_route_message() -> RouteMessage {
    RouteMessage { destination_prefix_length: 0, attributes: Vec::new() }
}

fn empty_neighbor_message() -> NeighbourMessage {
    NeighbourMessage {
        family: AddressFamily::Unspec,
        ifindex: 0,
        state: 0,
        attributes: Vec::new(),
    }
}

fn empty_link_message(index: u32) -> LinkMessage {
    LinkMessage {
        index,
        link_layer_type: 0,
        flags: 0,
        change_mask: 0,
        attributes: Vec::new(),
    }
}

#[test]
fn parse_resolv_conf_reads_nameservers_and_search_domains() {
    let contents = "# comment\n\
                         nameserver 1.1.1.1\n\
                         nameserver 2606:4700:4700::1111\n\
                         search example.com corp.example.com\n";
    let config = parse_resolv_conf(contents);
    assert_eq!(config.nameservers, vec![v4(1, 1, 1, 1), v6("2606:4700:4700::1111")]);
    assert_eq!(
        config.search_domains,
        vec!["example.com".to_string(), "corp.example.com".to_string()]
    );
}

#[test]
fn render_resolv_conf_preserves_requested_order() {
    let config = NewDnsConfig::with(
        vec![
            v4(1, 1, 1, 1),
            v6("2606:4700:4700::1111"),
            v6("2001:4860:4860::8888"),
            v4(8, 8, 8, 8),
        ],
        vec!["example.test".to_string(), "corp.test".to_string()],
    );
    assert_eq!(
        render_resolv_conf(&config),
        "nameserver 1.1.1.1\nnameserver 2606:4700:4700::1111\nnameserver 2001:4860:4860::8888\nnameserver 8.8.8.8\nsearch example.test corp.test\n"
    );
}

#[test]
fn resolver_parser_ignores_nonportable_directives_and_renderer_handles_empty_config() {
    let config =
        parse_resolv_conf("options rotate\ninvalid 192.0.2.1\nnameserver invalid\nsearch\n");
    assert!(config.nameservers.is_empty());
    assert!(config.search_domains.is_empty());
    assert_eq!(render_resolv_conf(&NewDnsConfig::new()), "");
}

#[test]
fn a_later_search_line_follows_an_earlier_one_as_written() {
    let written = render_resolv_conf(&NewDnsConfig::with(
        vec![v4(9, 9, 9, 9)],
        vec!["one.test".to_string(), "two.test".to_string()],
    ));
    let read = parse_resolv_conf(&written);
    assert_eq!(read.nameservers, vec![v4(9, 9, 9, 9)]);
    assert_eq!(
        read.search_domains,
        vec!["one.test".to_string(), "two.test".to_string()]
    );
    assert_eq!(parse_resolv_conf("; nameserver 1.1.1.1\n# search a.test\n"), parse_resolv_conf(""));
}

#[test]
fn ip_and_network_conversion_round_trip_both_families() {
    let ipv4 = v4(192, 0, 2, 1);
    let ipv6 = v6("2001:db8::1");
    assert_eq!(
        IpAddress::from(Ipv4Address::from_octets([192, 0, 2, 1])),
        ipv4
    );
    assert_eq!(
        IpAddress::from(Ipv6Address::from_octets([
            0x20, 0x01, 0x0d, 0xb8, 0, 0, 0, 0, 0, 0, 0, 0, 0, 0, 0, 1
        ])),
        ipv6
    );

    let v4_network = network_v4(192, 0, 2, 0, 24);
    let v6_network = network_v6([0x2001, 0xdb8, 0, 0, 0, 0, 0, 0], 32);
    assert_eq!(v4_network.prefix_len(), 24);
    assert_eq!(v6_network.prefix_len(), 32);
}

#[test]
fn netlink_message_fixtures_preserve_address_route_and_neighbor_details() {
    let address = AddressMessage {
        index: 7,
        prefix_len: 24,
        attributes: vec![
            AddressAttribute::Address(v4(192, 0, 2, 99)),
            AddressAttribute::Local(v4(192, 0, 2, 7)),
            AddressAttribute::Broadcast(Ipv4Address::new(192, 0, 2, 255)),
        ],
    };
    let observed = message_to_interface_address(&address).expect("valid IPv4 address");
    assert_eq!(observed.interface_index, 7);
    assert_eq!(observed.address, network_v4(192, 0, 2, 7, 24));
    assert_eq!(observed.broadcast, Some(v4(192, 0, 2, 255)));

    let ipv6_address = ipv6_address_message();
    let observed = message_to_interface_address(&ipv6_address).expect("valid IPv6 address message");
    assert_eq!(observed.interface_index, 7);
    assert_eq!(
        observed.address,
        network_v6([0x2001, 0xdb8, 0, 0x16, 0, 0, 0, 7], 64)
    );
    assert!(observed.broadcast.is_none());
    assert!(message_to_interface_address(&empty_address_message()).is_none());

    let route = ipv4_route_message();
    let observed = message_to_route(&route).expect("valid IPv4 route");
    assert_eq!(observed.gateway, Some(v4(192, 0, 2, 1)));
    assert_eq!(observed.metric, Some(42));
    assert_eq!(observed.interface_index, Some(7));
    assert!(message_to_route(&empty_route_message()).is_none());

    let ipv6_destination = network_v6([0x2001, 0xdb8, 0, 0x16, 0, 0, 0, 0], 64);
    let ipv6_route = RouteConfig::new(ipv6_destination)
        .with_gateway(IpAddress::from(Ipv6Address::new([
            0x2001, 0xdb8, 0, 0x16, 0, 0, 0, 1,
        ])))
        .with_metric(42)
        .with_interface_index(7);
    let add_request = route_request_message(&ipv6_route, true);
    let observed = message_to_route(&add_request).expect("valid IPv6 add request");
    assert_eq!(observed.destination, ipv6_destination);
    assert_eq!(observed.gateway, ipv6_route.gateway);
    assert_eq!(observed.metric, ipv6_route.metric);
    assert_eq!(observed.interface_index, ipv6_route.interface_index);

    let delete_request = route_request_message(&ipv6_route, false);
    let observed = message_to_route(&delete_request).expect("valid IPv6 delete request");
    assert_eq!(observed.destination, ipv6_destination);
    assert_eq!(observed.gateway, None);
    assert_eq!(observed.metric, None);
    assert_eq!(observed.interface_index, ipv6_route.interface_index);

    let neighbor = NeighbourMessage {
        family: AddressFamily::Unspec,
        ifindex: 7,
        state: REACHABLE,
        attributes: vec![
            NeighbourAttribute::Destination(v4(192, 0, 2, 1)),
            NeighbourAttribute::LinkLayerAddress(vec![0, 1, 2, 3, 4, 5]),
        ],
    };
    let observed = message_to_neighbor(&neighbor).expect("valid IPv4 neighbour");
    assert_eq!(observed.interface_index, 7);
    assert_eq!(observed.state, NeighborState::Reachable);
    assert_eq!(observed.mac, Some(MacAddress::new([0, 1, 2, 3, 4, 5])));
    assert!(message_to_neighbor(&empty_neighbor_message()).is_none());

    let ipv6_neighbor = ipv6_neighbor_message();
    let observed = message_to_neighbor(&ipv6_neighbor).expect("valid IPv6 neighbour");
    assert_eq!(observed.interface_index, 7);
    assert_eq!(
        observed.address,
        IpAddress::from(Ipv6Address::new([0x2001, 0xdb8, 0, 0x16, 0, 0, 0, 1]))
    );
    assert_eq!(observed.state, NeighborState::Reachable);
    assert_eq!(observed.mac, Some(MacAddress::new([2, 0, 0, 0, 0, 0x16])));
    assert_eq!(
        observed.id,
        synthesize_neighbor_id(7, &observed.address),
        "IPv6 neighbor identity uses the same interface/address key"
    );
}

#[test]
fn static_neighbor_del_message_selects_by_destination_without_lladdr() {
    let ipv4 = static_neighbor_del_message(7, v4(192, 0, 2, 17));
    assert_eq!(ipv4.family, AddressFamily::Inet);
    assert_eq!(ipv4.ifindex, 7);
    assert_eq!(
        ipv4.attributes,
        vec![NeighbourAttribute::Destination(v4(192, 0, 2, 17))]
    );
    assert!(
        !ipv4
            .attributes
            .iter()
            .any(|attribute| matches!(attribute, NeighbourAttribute::LinkLayerAddress(_))),
        "RTM_DELNEIGH selection does not require NDA_LLADDR"
    );

    let ipv6 = static_neighbor_del_message(9, v6("2001:db8:0:17::1"));
    assert_eq!(ipv6.family, AddressFamily::Inet6);
    assert_eq!(ipv6.ifindex, 9);
    assert_eq!(
        ipv6.attributes,
        vec![NeighbourAttribute::Destination(v6("2001:db8:0:17::1"))]
    );
    assert!(
        !ipv6
            .attributes
            .iter()
            .any(|attribute| matches!(attribute, NeighbourAttribute::LinkLayerAddress(_))),
        "RTM_DELNEIGH selection does not require NDA_LLADDR"
    );
}

#[test]
fn rtnetlink_error_code_passes_through_raw_errno_without_semantic_mapping() {
    assert_eq!(rtnetlink_error_code(Some(-2)), PlatformErrorCode::Linux(-2));
    assert_eq!(rtnetlink_error_code(Some(-13)), PlatformErrorCode::Linux(-13));
    assert_eq!(rtnetlink_error_code(None), PlatformErrorCode::Linux(0));
}

#[test]
fn neighbor_mutation_error_maps_eexist_enoent_enodev_eperm_and_eacces() {
    assert!(matches!(neighbor_mutation_error(Some(-17)), Error::AlreadyExists));
    assert!(matches!(neighbor_mutation_error(Some(-2)), Error::NotFound));
    assert!(matches!(neighbor_mutation_error(Some(-19)), Error::NotFound));
    assert!(matches!(neighbor_mutation_error(Some(-1)), Error::PermissionDenied));
    assert!(matches!(neighbor_mutation_error(Some(-13)), Error::PermissionDenied));
    assert!(matches!(
        neighbor_mutation_error(Some(-22)),
        Error::Platform(PlatformErrorCode::Linux(-22))
    ));
}

#[test]
fn ensure_removable_static_neighbor_state_rejects_non_permanent_entries() {
    assert!(ensure_removable_static_neighbor_state(NeighborState::Permanent).is_ok());
    for dynamic_state in [
        NeighborState::Incomplete,
        NeighborState::Reachable,
        NeighborState::Stale,
        NeighborState::Delay,
        NeighborState::Probe,
        NeighborState::Failed,
        NeighborState::Unknown,
    ] {
        assert!(matches!(
            ensure_removable_static_neighbor_state(dynamic_state),
            Err(Error::InvalidState)
        ));
    }
}

#[test]
fn netlink_error_and_state_mappings_are_stable() {
    assert_eq!(io_error_code(Some(13)), PlatformErrorCode::Linux(13));
    assert_eq!(io_error_code(None), PlatformErrorCode::Linux(0));
    assert_eq!(neighbour_state_to_state(0x20), NeighborState::Failed);
    assert_eq!(neighbour_state_to_state(0x02), NeighborState::Reachable);
}

#[test]
fn netlink_interface_and_neighbor_mappings_cover_all_known_states() {
    assert_eq!(link_layer_type_to_kind(libc::ARPHRD_ETHER), InterfaceKind::Ethernet);
    assert_eq!(link_layer_type_to_kind(libc::ARPHRD_LOOPBACK), InterfaceKind::Loopback);
    assert_eq!(link_layer_type_to_kind(libc::ARPHRD_PPP), InterfaceKind::PointToPoint);
    assert_eq!(link_layer_type_to_kind(libc::ARPHRD_IEEE80211), InterfaceKind::Wireless);
    assert_eq!(
        link_layer_type_to_kind(libc::ARPHRD_IEEE80211_PRISM),
        InterfaceKind::Wireless
    );
    assert_eq!(
        link_layer_type_to_kind(libc::ARPHRD_IEEE80211_RADIOTAP),
        InterfaceKind::Wireless
    );
    assert!(matches!(
        link_layer_type_to_kind(libc::ARPHRD_NETROM),
        InterfaceKind::Other(_)
    ));

    assert_eq!(neighbour_state_to_state(0x01), NeighborState::Incomplete);
    assert_eq!(neighbour_state_to_state(0x04), NeighborState::Stale);
    assert_eq!(neighbour_state_to_state(0x08), NeighborState::Delay);
    assert_eq!(neighbour_state_to_state(0x10), NeighborState::Probe);
    assert_eq!(neighbour_state_to_state(0x80), NeighborState::Permanent);
    assert_eq!(neighbour_state_to_state(0x40), NeighborState::Unknown);
}

#[test]
fn unknown_link_layers_keep_their_number() {
    assert_eq!(link_layer_type_to_kind(0xfff0), InterfaceKind::Other(0xfff0));
    assert_eq!(operational_state(6), OperationalState::Up);
    assert_eq!(operational_state(2), OperationalState::Down);
    assert_eq!(operational_state(200), OperationalState::Unknown);
    assert_eq!(neighbour_state_to_state(0x0300), NeighborState::Unknown);
}

#[test]
fn interface_config_netlink_message_changes_only_requested_fields() {
    let combined = InterfaceConfig::new(Id::new(7), Some(DesiredAdminState::Up), Some(9000))
        .expect("valid combined patch");
    let message = interface_config_to_link_change(&combined).expect("link request");
    assert_eq!(message.index, 7);
    assert_eq!(message.change_mask, LINK_UP);
    assert_eq!(message.flags, LINK_UP);
    assert!(matches!(message.attributes.as_slice(), [LinkAttribute::Mtu(9000)]));

    let down_only = InterfaceConfig::new(Id::new(8), Some(DesiredAdminState::Down), None)
        .expect("valid admin-only patch");
    let message = interface_config_to_link_change(&down_only).expect("link request");
    assert_eq!(message.index, 8);
    assert_eq!(message.change_mask, LINK_UP);
    assert_eq!(message.flags, 0);
    assert!(message.attributes.is_empty());

    let up_only = InterfaceConfig::new(Id::new(9), Some(DesiredAdminState::Up), None)
        .expect("valid admin-only patch");
    let message = interface_config_to_link_change(&up_only).expect("link request");
    assert_eq!(message.change_mask, LINK_UP);
    assert_eq!(message.flags, LINK_UP);
    assert!(message.attributes.is_empty());

    let mtu_only =
        InterfaceConfig::new(Id::new(10), None, Some(1500)).expect("valid mtu-only patch");
    let message = interface_config_to_link_change(&mtu_only).expect("link request");
    assert_eq!(message.index, 10);
    assert_eq!(message.change_mask, 0);
    assert_eq!(message.flags, 0);
    assert!(matches!(message.attributes.as_slice(), [LinkAttribute::Mtu(1500)]));
}

#[test]
fn identities_beyond_every_index_name_no_interface() {
    assert!(matches!(interface_index(InterfaceId::new(7)), Ok(7)));
    assert!(matches!(
        interface_index(InterfaceId::new(0x1_0000_0000)),
        Err(Error::NotFound)
    ));
    let config = InterfaceConfig::new(Id::new(0x1_0000_0007), None, Some(1500)).expect("patch");
    assert!(matches!(
        interface_config_to_link_change(&config),
        Err(Error::NotFound)
    ));
}

#[test]
fn link_messages_describe_interfaces() {
    let message = LinkMessage {
        index: 3,
        link_layer_type: libc::ARPHRD_ETHER,
        flags: LINK_UP | 0x40,
        change_mask: 0,
        attributes: vec![
            LinkAttribute::IfName("eth0".to_string()),
            LinkAttribute::Address(vec![2, 0, 0, 0, 0, 1]),
            LinkAttribute::Mtu(1500),
            LinkAttribute::OperState(6),
        ],
    };
    let interface = message_to_interface(&message);
    assert_eq!(interface.id, InterfaceId::new(3));
    assert_eq!(interface.index, 3);
    assert_eq!(interface.name, "eth0");
    assert_eq!(interface.kind, InterfaceKind::Ethernet);
    assert_eq!(interface.mac, Some(MacAddress::new([2, 0, 0, 0, 0, 1])));
    assert_eq!(interface.mtu, Some(1500));
    assert_eq!(interface.admin_state, AdminState::Up);
    assert_eq!(interface.operational_state, OperationalState::Up);

    let bare = message_to_interface(&LinkMessage {
        flags: 0x40,
        ..empty_link_message(4)
    });
    assert_eq!(bare.name, "");
    assert_eq!(bare.mac, None);
    assert_eq!(bare.mtu, None);
    assert_eq!(bare.admin_state, AdminState::Down);
    assert_eq!(bare.operational_state, OperationalState::Unknown);
}

#[test]
fn netlink_event_mapper_covers_every_supported_domain_and_change_kind() {
    let route = RouteMessage {
        destination_prefix_length: 24,
        attributes: vec![RouteAttribute::Destination(RouteAddress::Inet(
            Ipv4Address::new(198, 51, 100, 0),
        ))],
    };
    assert!(matches!(
        route_netlink_message_to_event(&RouteNetlinkMessage::NewRoute(route.clone())),
        Some(Event::Route { kind: ChangeKind::Changed, .. })
    ));
    assert!(matches!(
        route_netlink_message_to_event(&RouteNetlinkMessage::DelRoute(route)),
        Some(Event::Route { kind: ChangeKind::Removed, .. })
    ));

    let ipv6_route = RouteMessage {
        destination_prefix_length: 64,
        attributes: vec![
            RouteAttribute::Destination(RouteAddress::Inet6(
                Ipv6Address::parse("2001:db8:0:16::").expect("IPv6 destination"),
            )),
            RouteAttribute::Gateway(RouteAddress::Inet6(
                Ipv6Address::parse("2001:db8:0:16::1").expect("IPv6 gateway"),
            )),
            RouteAttribute::Priority(42),
            RouteAttribute::Oif(7),
        ],
    };
    let ipv6_id = message_to_route(&ipv6_route)
        .expect("valid IPv6 route event fixture")
        .id;
    assert!(matches!(
        route_netlink_message_to_event(&RouteNetlinkMessage::NewRoute(ipv6_route.clone())),
        Some(Event::Route { id, kind: ChangeKind::Changed }) if id == ipv6_id
    ));
    assert!(matches!(
        route_netlink_message_to_event(&RouteNetlinkMessage::DelRoute(ipv6_route)),
        Some(Event::Route { id, kind: ChangeKind::Removed }) if id == ipv6_id
    ));

    let link = empty_link_message(7);
    assert!(matches!(
        route_netlink_message_to_event(&RouteNetlinkMessage::NewLink(link.clone())),
        Some(Event::Interface { id, kind: ChangeKind::Changed }) if id == Id::new(7)
    ));
    assert!(matches!(
        route_netlink_message_to_event(&RouteNetlinkMessage::DelLink(link)),
        Some(Event::Interface { id, kind: ChangeKind::Removed }) if id == Id::new(7)
    ));

    let address = AddressMessage {
        index: 7,
        prefix_len: 24,
        attributes: vec![AddressAttribute::Local(v4(192, 0, 2, 7))],
    };
    assert!(matches!(
        route_netlink_message_to_event(&RouteNetlinkMessage::NewAddress(address.clone())),
        Some(Event::Address { kind: ChangeKind::Changed, .. })
    ));
    assert!(matches!(
        route_netlink_message_to_event(&RouteNetlinkMessage::DelAddress(address)),
        Some(Event::Address { kind: ChangeKind::Removed, .. })
    ));

    let ipv6_address = ipv6_address_message();
    let ipv6_id = message_to_interface_address(&ipv6_address)
        .expect("valid IPv6 address event fixture")
        .id;
    assert!(matches!(
        route_netlink_message_to_event(&RouteNetlinkMessage::NewAddress(ipv6_address.clone())),
        Some(Event::Address { id, kind: ChangeKind::Changed }) if id == ipv6_id
    ));
    assert!(matches!(
        route_netlink_message_to_event(&RouteNetlinkMessage::DelAddress(ipv6_address)),
        Some(Event::Address { id, kind: ChangeKind::Removed }) if id == ipv6_id
    ));

    let neighbor = NeighbourMessage {
        ifindex: 7,
        attributes: vec![NeighbourAttribute::Destination(v4(192, 0, 2, 1))],
        ..empty_neighbor_message()
    };
    assert!(matches!(
        route_netlink_message_to_event(&RouteNetlinkMessage::NewNeighbour(neighbor.clone())),
        Some(Event::Neighbor { kind: ChangeKind::Changed, .. })
    ));
    assert!(matches!(
        route_netlink_message_to_event(&RouteNetlinkMessage::DelNeighbour(neighbor)),
        Some(Event::Neighbor { kind: ChangeKind::Removed, .. })
    ));

    let ipv6_neighbor = ipv6_neighbor_message();
    let ipv6_id = message_to_neighbor(&ipv6_neighbor)
        .expect("valid IPv6 neighbor event fixture")
        .id;
    assert!(matches!(
        route_netlink_message_to_event(&RouteNetlinkMessage::NewNeighbour(ipv6_neighbor.clone())),
        Some(Event::Neighbor { id, kind: ChangeKind::Changed }) if id == ipv6_id
    ));
    assert!(matches!(
        route_netlink_message_to_event(&RouteNetlinkMessage::DelNeighbour(ipv6_neighbor)),
        Some(Event::Neighbor { id, kind: ChangeKind::Removed }) if id == ipv6_id
    ));
}

#[test]
fn only_wanted_events_are_delivered() {
    let link = RouteNetlinkMessage::NewLink(empty_link_message(7));
    let wanted = EventFilter::none().interface(InterfaceId::new(7));
    let other = EventFilter::none().interface(InterfaceId::new(8));
    assert_eq!(
        event_to_deliver(&link, &wanted),
        Some(Event::Interface { id: InterfaceId::new(7), kind: ChangeKind::Changed })
    );
    assert_eq!(event_to_deliver(&link, &other), None);
    assert_eq!(event_to_deliver(&RouteNetlinkMessage::Other, &EventFilter::all()), None);
}

#[test]
fn mutation_validation_and_resolver_errors_are_explicit() {
    assert!(matches!(
        resolv_conf_error(FileErrorKind::NotFound, None),
        Error::NotFound
    ));
    assert!(matches!(
        resolv_conf_error(FileErrorKind::PermissionDenied, None),
        Error::PermissionDenied
    ));
    assert!(matches!(
        resolv_conf_error(FileErrorKind::Other, None),
        Error::Platform(PlatformErrorCode::Linux(_))
    ));

    let ipv6 = network_v6([0x2001, 0xdb8, 0, 0, 0, 0, 0, 1], 64);
    let request = NewInterfaceAddress::new(Id::new(1), ipv6)
        .with_broadcast(Ipv4Address::new(192, 0, 2, 255));
    assert!(matches!(address_request(&request), Err(Error::InvalidState)));
}

#[test]
fn address_requests_carry_what_was_asked() {
    let network = network_v4(192, 0, 2, 9, 24);
    let request = NewInterfaceAddress::new(Id::new(5), network)
        .with_broadcast(Ipv4Address::new(192, 0, 2, 255));
    let found = address_request(&request).expect("valid request");
    assert_eq!(found.index, 5);
    assert_eq!(found.address, v4(192, 0, 2, 9));
    assert_eq!(found.prefix_len, 24);
    assert_eq!(found.broadcast, Some(Ipv4Address::new(192, 0, 2, 255)));

    let message = ipv6_address_message();
    let id = message_to_interface_address(&message).expect("address").id;
    assert!(is_address_message(&message, id));
    assert!(!is_address_message(&empty_address_message(), id));
}

#[test]
fn static_neighbors_are_confirmed_and_guarded() {
    let address = v4(192, 0, 2, 1);
    let mac = MacAddress::new([2, 0, 0, 0, 0, 1]);
    let learned = NeighborEntry::new(NeighborId::new(1), 4, address)
        .with_state(NeighborState::Reachable);
    let configured = NeighborEntry::new(NeighborId::new(2), 5, address)
        .with_state(NeighborState::Permanent);
    let observed = vec![learned, configured.clone()];

    assert_eq!(confirm_neighbor(&observed, 5, address).expect("present"), configured);
    assert!(matches!(
        confirm_neighbor(&observed, 6, address),
        Err(Error::InvalidState)
    ));

    let removable = StaticNeighbor::new(InterfaceId::new(5), address, mac);
    assert_eq!(
        static_neighbor_removal(&observed, &removable).expect("permanent"),
        static_neighbor_del_message(5, address)
    );
    let dynamic = StaticNeighbor::new(InterfaceId::new(4), address, mac);
    assert!(matches!(
        static_neighbor_removal(&observed, &dynamic),
        Err(Error::InvalidState)
    ));
    let missing = StaticNeighbor::new(InterfaceId::new(6), address, mac);
    assert!(matches!(
        static_neighbor_removal(&observed, &missing),
        Err(Error::NotFound)
    ));
    let impossible = StaticNeighbor::new(InterfaceId::new(0x1_0000_0005), address, mac);
    assert!(matches!(
        static_neighbor_removal(&observed, &impossible),
        Err(Error::NotFound)
    ));
}
