use net_lattice::capability::require_addition;
use net_lattice::capability::supports;
use net_lattice::capability::supports_addition;
use net_lattice::capability::Addition;
use net_lattice::capability::Capability;
use net_lattice::capability::Platform;
use net_lattice::dnsapi::adapter_guid_text;
use net_lattice::dnsapi::collect_dns;
use net_lattice::dnsapi::config_list;
use net_lattice::dnsapi::dns_failure;
use net_lattice::dnsapi::next_dns_step;
use net_lattice::dnsapi::search_list;
use net_lattice::dnsapi::AdapterDns;
use net_lattice::dnsapi::DnsStep;
use net_lattice::forward::after_event;
use net_lattice::forward::after_notice;
use net_lattice::forward::forward_step;
use net_lattice::forward::goes_on;
use net_lattice::forward::start_sending;
use net_lattice::forward::Answer;
use net_lattice::forward::SendStep;
use net_lattice::identity::synthesize_neighbor_id;
use net_lattice::iphelper::address_query_row;
use net_lattice::iphelper::address_removal_row;
use net_lattice::iphelper::build_row;
use net_lattice::iphelper::build_unicast_address_row;
use net_lattice::iphelper::check_new_address;
use net_lattice::iphelper::complete_address_notification_row;
use net_lattice::iphelper::confirm_static_neighbor;
use net_lattice::iphelper::corrected_route_notification_row;
use net_lattice::iphelper::desired_admin_status;
use net_lattice::iphelper::family_is_present;
use net_lattice::iphelper::find_route_row;
use net_lattice::iphelper::if_type_to_kind;
use net_lattice::iphelper::interface_writes;
use net_lattice::iphelper::io_error_code;
use net_lattice::iphelper::ip_to_sockaddr_inet;
use net_lattice::iphelper::neighbor_state_to_state;
use net_lattice::iphelper::next_write;
use net_lattice::iphelper::prepare_ip_interface_row_for_mtu_update;
use net_lattice::iphelper::row_to_interface;
use net_lattice::iphelper::row_to_interface_address;
use net_lattice::iphelper::row_to_neighbor;
use net_lattice::iphelper::row_to_route;
use net_lattice::iphelper::rows_to_addresses;
use net_lattice::iphelper::rows_to_neighbors;
use net_lattice::iphelper::rows_to_routes;
use net_lattice::iphelper::sockaddr_inet_to_ip;
use net_lattice::iphelper::static_neighbor_addition;
use net_lattice::iphelper::static_neighbor_create_row;
use net_lattice::iphelper::static_neighbor_delete_row;
use net_lattice::iphelper::static_neighbor_mutation_error;
use net_lattice::iphelper::static_neighbor_removal;
use net_lattice::iphelper::validate_route_family;
use net_lattice::iphelper::ForwardRow;
use net_lattice::iphelper::IndexLookup;
use net_lattice::iphelper::InterfaceRow;
use net_lattice::iphelper::InterfaceWrite;
use net_lattice::iphelper::IpFamily;
use net_lattice::iphelper::IpInterfaceRow;
use net_lattice::iphelper::NeighborRow;
use net_lattice::iphelper::SocketAddress;
use net_lattice::iphelper::UnicastRow;
use net_lattice::iphelper::WriteAnswer;
use net_lattice::iphelper::WriteStep;
use net_lattice::iphelper::ERROR_ACCESS_DENIED;
use net_lattice::iphelper::ERROR_NOT_SUPPORTED;
use net_lattice::iphelper::ERROR_OBJECT_ALREADY_EXISTS;
use net_lattice::iphelper::IF_OPER_STATUS_UP;
use net_lattice::iphelper::IF_TYPE_BRIDGE;
use net_lattice::iphelper::IF_TYPE_ETHERNET_CSMACD;
use net_lattice::iphelper::IF_TYPE_IEEE80211;
use net_lattice::iphelper::IF_TYPE_L2_VLAN;
use net_lattice::iphelper::IF_TYPE_PPP;
use net_lattice::iphelper::IF_TYPE_SOFTWARE_LOOPBACK;
use net_lattice::iphelper::MIB_IF_ADMIN_STATUS_DOWN;
use net_lattice::iphelper::MIB_IF_ADMIN_STATUS_UP;
use net_lattice::iphelper::NET_IF_ADMIN_STATUS_UP;
use net_lattice::iphelper::NLNS_DELAY;
use net_lattice::iphelper::NLNS_INCOMPLETE;
use net_lattice::iphelper::NLNS_PERMANENT;
use net_lattice::iphelper::NLNS_PROBE;
use net_lattice::iphelper::NLNS_REACHABLE;
use net_lattice::iphelper::NLNS_STALE;
use net_lattice::ipnotify::address_notification;
use net_lattice::ipnotify::change_kind;
use net_lattice::ipnotify::diff_neighbor_snapshots;
use net_lattice::ipnotify::interface_notification;
use net_lattice::ipnotify::next_watch_step;
use net_lattice::ipnotify::route_notification;
use net_lattice::ipnotify::supports_event_filter;
use net_lattice::ipnotify::CallbackAction;
use net_lattice::ipnotify::NeighborPoller;
use net_lattice::ipnotify::NeighborSnapshot;
use net_lattice::ipnotify::Notification;
use net_lattice::ipnotify::Registration;
use net_lattice::ipnotify::RegistrationReadiness;
use net_lattice::ipnotify::WatchStep;
use net_lattice::ipnotify::ERROR_TIMEOUT;
use net_lattice::wfp::ERROR_NOT_FOUND;
use net_lattice::wide::decode_wide;
use net_lattice::wide::nul_terminated_wide;
use net_lattice::wide::text_of_wide;
use net_lattice::AdminState;
use net_lattice::ChangeKind;
use net_lattice::DesiredAdminState;
use net_lattice::Error;
use net_lattice::Event;
use net_lattice::EventFilter;
use net_lattice::Id;
use net_lattice::InterfaceAddress;
use net_lattice::InterfaceAddressId;
use net_lattice::InterfaceConfig;
use net_lattice::InterfaceId;
use net_lattice::InterfaceKind;
use net_lattice::IpAddress;
use net_lattice::Ipv4Address;
use net_lattice::Ipv4Network;
use net_lattice::Ipv4PrefixLength;
use net_lattice::Ipv6Address;
use net_lattice::Ipv6Network;
use net_lattice::Ipv6PrefixLength;
use net_lattice::MacAddress;
use net_lattice::NeighborEntry;
use net_lattice::NeighborId;
use net_lattice::NeighborState;
use net_lattice::Network;
use net_lattice::NewDnsConfig;
use net_lattice::NewInterfaceAddress;
use net_lattice::OperationalState;
use net_lattice::PlatformErrorCode;
use net_lattice::RouteConfig;
use net_lattice::StaticNeighbor;

fn v4(a: u8, b: u8, c: u8, d: u8) -> IpAddress {
    IpAddress::from(Ipv4Address::new(a, b, c, d))
}

fn v6(text: &str) -> IpAddress {
    IpAddress::from(Ipv6Address::parse(text).expect("valid IPv6 address"))
}

fn network_v4(a: u8, b: u8, c: u8, d: u8, prefix: u8) -> Network {
    Network::from(Ipv4Network::new(
        Ipv4Address::new(a, b, c, d),
        Ipv4PrefixLength::new(prefix).unwrap(),
    ))
}

fn network_v6(groups: [u16; 8], prefix: u8) -> Network {
    Network::from(Ipv6Network::new(
        Ipv6Address::new(groups),
        Ipv6PrefixLength::new(prefix).expect("valid IPv6 prefix"),
    ))
}

fn padded(octets: &[u8]) -> [u8; 32] {
    let mut field = [0u8; 32];
    field[..octets.len()].copy_from_slice(octets);
    field
}

const NO_LOOKUP: IndexLookup = IndexLookup { status: 87, index: 0 };

// ---- interface configuration ----

#[test]
fn interface_configuration_uses_legacy_admin_status_values() {
    assert_eq!(
        desired_admin_status(DesiredAdminState::Up).expect("up is supported"),
        MIB_IF_ADMIN_STATUS_UP
    );
    assert_eq!(
        desired_admin_status(DesiredAdminState::Down).expect("down is supported"),
        MIB_IF_ADMIN_STATUS_DOWN
    );
    assert_eq!(MIB_IF_ADMIN_STATUS_UP, 1);
    assert_eq!(MIB_IF_ADMIN_STATUS_DOWN, 2);
}

fn run(config: &InterfaceConfig, answers: &[WriteAnswer]) -> (Vec<InterfaceWrite>, WriteStep) {
    let writes = interface_writes(config);
    let mut given = Vec::new();
    let mut calls = Vec::new();
    loop {
        match next_write(&writes, &given) {
            WriteStep::Write(write) => {
                calls.push(write);
                given.push(answers[given.len()]);
            }
            step => return (calls, step),
        }
    }
}

/// The requested fields in the order of the writes: an MTU is one field for both families.
fn fields(calls: Vec<InterfaceWrite>) -> Vec<String> {
    let mut fields: Vec<String> = calls
        .into_iter()
        .map(|write| match write {
            InterfaceWrite::Admin(state) => format!("admin:{state:?}"),
            InterfaceWrite::Mtu(_, mtu) => format!("mtu:{mtu}"),
        })
        .collect();
    fields.dedup();
    fields
}

fn families(calls: Vec<InterfaceWrite>) -> Vec<IpFamily> {
    calls
        .into_iter()
        .filter_map(|write| match write {
            InterfaceWrite::Mtu(family, _) => Some(family),
            InterfaceWrite::Admin(_) => None,
        })
        .collect()
}

#[test]
fn interface_configuration_dispatches_each_requested_shape_in_windows_order() {
    fn calls_for(config: InterfaceConfig) -> Vec<String> {
        let (calls, step) = run(&config, &[WriteAnswer::Applied; 3]);
        assert_eq!(step, WriteStep::Finished);
        fields(calls)
    }

    assert_eq!(
        calls_for(
            InterfaceConfig::new(Id::new(7), Some(DesiredAdminState::Down), None)
                .expect("valid admin-only patch"),
        ),
        ["admin:Down"]
    );
    assert_eq!(
        calls_for(
            InterfaceConfig::new(Id::new(7), None, Some(1500)).expect("valid MTU-only patch"),
        ),
        ["mtu:1500"]
    );
    assert_eq!(
        calls_for(
            InterfaceConfig::new(Id::new(7), Some(DesiredAdminState::Up), Some(9000))
                .expect("valid combined patch"),
        ),
        ["admin:Up", "mtu:9000"]
    );
}

#[test]
fn interface_configuration_reports_the_windows_partial_application_boundary() {
    let config = InterfaceConfig::new(Id::new(7), Some(DesiredAdminState::Up), Some(9000))
        .expect("valid combined patch");
    let (calls, step) = run(&config, &[WriteAnswer::Applied, WriteAnswer::Failed]);
    assert_eq!(step, WriteStep::Stop);
    assert_eq!(fields(calls), ["admin:Up", "mtu:9000"]);
}

#[test]
fn interface_mtu_submission_covers_every_applicable_ip_family() {
    let config = InterfaceConfig::new(Id::new(7), None, Some(1500)).expect("patch");
    assert_eq!(
        interface_writes(&config),
        vec![
            InterfaceWrite::Mtu(IpFamily::Inet, 1500),
            InterfaceWrite::Mtu(IpFamily::Inet6, 1500)
        ]
    );
    let (_, step) = run(&config, &[WriteAnswer::Applied, WriteAnswer::Applied]);
    assert_eq!(step, WriteStep::Finished);
    let (_, step) = run(&config, &[WriteAnswer::Absent, WriteAnswer::Applied]);
    assert_eq!(step, WriteStep::Finished);
}

#[test]
fn interface_mtu_update_resets_only_the_ipv4_site_prefix_length() {
    let mut ipv4 = IpInterfaceRow {
        family: IpFamily::Inet,
        interface_index: 0,
        nl_mtu: 0,
        site_prefix_length: 24,
    };
    prepare_ip_interface_row_for_mtu_update(&mut ipv4, 1500);
    assert_eq!(ipv4.nl_mtu, 1500);
    assert_eq!(ipv4.site_prefix_length, 0);

    let mut ipv6 = IpInterfaceRow {
        family: IpFamily::Inet6,
        interface_index: 0,
        nl_mtu: 0,
        site_prefix_length: 64,
    };
    prepare_ip_interface_row_for_mtu_update(&mut ipv6, 1500);
    assert_eq!(ipv6.nl_mtu, 1500);
    assert_eq!(ipv6.site_prefix_length, 64);
}

#[test]
fn interface_mtu_submission_reports_when_no_ip_family_exists() {
    let config = InterfaceConfig::new(Id::new(7), None, Some(1500)).expect("patch");
    let (_, step) = run(&config, &[WriteAnswer::Absent, WriteAnswer::Absent]);
    assert_eq!(step, WriteStep::NoFamily);
    assert!(matches!(family_is_present(ERROR_NOT_FOUND), Ok(false)));
    assert!(matches!(family_is_present(0), Ok(true)));
    assert!(matches!(
        family_is_present(87),
        Err(Error::Platform(PlatformErrorCode::Windows(87)))
    ));
}

#[test]
fn interface_mtu_submission_stops_after_a_partially_applied_second_family_failure() {
    let config = InterfaceConfig::new(Id::new(7), None, Some(1500)).expect("patch");
    let (calls, step) = run(&config, &[WriteAnswer::Applied, WriteAnswer::Failed]);
    assert_eq!(families(calls), vec![IpFamily::Inet, IpFamily::Inet6]);
    assert_eq!(step, WriteStep::Stop);
}

// ---- rows ----

#[test]
fn static_neighbour_rows_preserve_ipv4_arp_and_ipv6_ndp_create_delete_inputs() {
    let ipv4 = v4(192, 0, 2, 17);
    let ipv4_create = static_neighbor_create_row(7, ipv4, [0, 1, 2, 3, 4, 5]);
    assert_eq!(ipv4_create.interface_index, 7);
    assert!(matches!(ipv4_create.address, SocketAddress::Inet(_)));
    assert_eq!(sockaddr_inet_to_ip(&ipv4_create.address), Some(ipv4));
    assert_eq!(ipv4_create.physical_address_length, 6);
    assert_eq!(&ipv4_create.physical_address[..6], &[0, 1, 2, 3, 4, 5]);
    assert_eq!(ipv4_create.state, NLNS_PERMANENT);

    let ipv4_delete = static_neighbor_delete_row(7, ipv4);
    assert_eq!(ipv4_delete.interface_index, 7);
    assert!(matches!(ipv4_delete.address, SocketAddress::Inet(_)));
    assert_eq!(sockaddr_inet_to_ip(&ipv4_delete.address), Some(ipv4));
    assert_eq!(ipv4_delete.physical_address_length, 0);

    let ipv6 = v6("2001:db8:0:17::1");
    let ipv6_create = static_neighbor_create_row(9, ipv6, [2, 0, 0, 0, 0, 0x17]);
    assert_eq!(ipv6_create.interface_index, 9);
    assert!(matches!(ipv6_create.address, SocketAddress::Inet6(_)));
    assert_eq!(sockaddr_inet_to_ip(&ipv6_create.address), Some(ipv6));
    assert_eq!(ipv6_create.physical_address_length, 6);
    assert_eq!(&ipv6_create.physical_address[..6], &[2, 0, 0, 0, 0, 0x17]);
    assert_eq!(ipv6_create.state, NLNS_PERMANENT);

    let ipv6_delete = static_neighbor_delete_row(9, ipv6);
    assert_eq!(ipv6_delete.interface_index, 9);
    assert!(matches!(ipv6_delete.address, SocketAddress::Inet6(_)));
    assert_eq!(sockaddr_inet_to_ip(&ipv6_delete.address), Some(ipv6));
    assert_eq!(ipv6_delete.physical_address_length, 0);
}

#[test]
fn static_neighbor_status_maps_documented_create_delete_errors() {
    assert!(matches!(
        static_neighbor_mutation_error(ERROR_ACCESS_DENIED),
        Error::PermissionDenied
    ));
    assert!(matches!(
        static_neighbor_mutation_error(ERROR_NOT_FOUND),
        Error::NotFound
    ));
    assert!(matches!(
        static_neighbor_mutation_error(ERROR_OBJECT_ALREADY_EXISTS),
        Error::AlreadyExists
    ));
    assert!(matches!(
        static_neighbor_mutation_error(ERROR_NOT_SUPPORTED),
        Error::Unsupported
    ));
}

#[test]
fn static_neighbor_status_falls_back_to_platform_code_for_unmapped_status() {
    match static_neighbor_mutation_error(87) {
        Error::Platform(PlatformErrorCode::Windows(code)) => assert_eq!(code, 87),
        other => panic!("expected Error::Platform(Windows(87)), got {other:?}"),
    }
}

#[test]
fn io_errors_keep_their_code_as_an_unsigned_number() {
    assert_eq!(io_error_code(Some(5)), PlatformErrorCode::Windows(5));
    assert_eq!(io_error_code(Some(-1)), PlatformErrorCode::Windows(0xffff_ffff));
    assert_eq!(io_error_code(None), PlatformErrorCode::Windows(0));
}

#[test]
fn ip_helper_row_fixtures_round_trip_all_read_models() {
    let destination = network_v4(198, 51, 100, 0, 24);
    let route = RouteConfig::new(destination)
        .with_gateway(v4(192, 0, 2, 1))
        .with_interface_index(7)
        .with_metric(42);
    let row = build_row(&route);
    let observed = row_to_route(&row).expect("valid route row");
    assert_eq!(observed.destination, destination);
    assert_eq!(observed.interface_index, Some(7));
    assert_eq!(observed.metric, Some(42));
    assert_eq!(observed.gateway, Some(v4(192, 0, 2, 1)));

    let address = UnicastRow {
        address: ip_to_sockaddr_inet(v4(192, 0, 2, 7)),
        interface_luid: 0,
        interface_index: 7,
        on_link_prefix_length: 24,
    };
    let observed = row_to_interface_address(&address).expect("valid address row");
    assert_eq!(observed.interface_index, 7);
    assert_eq!(observed.address, network_v4(192, 0, 2, 7, 24));

    let mut alias = vec![0u16; 257];
    alias[0] = 'e' as u16;
    alias[1] = 't' as u16;
    alias[2] = 'h' as u16;
    let interface = InterfaceRow {
        index: 7,
        alias,
        physical_address: padded(&[0, 1, 2, 3, 4, 5]),
        physical_address_length: 6,
        if_type: IF_TYPE_ETHERNET_CSMACD,
        admin_status: NET_IF_ADMIN_STATUS_UP,
        oper_status: IF_OPER_STATUS_UP,
        mtu: 1500,
    };
    let observed = row_to_interface(&interface);
    assert_eq!(observed.name, "eth");
    assert_eq!(observed.kind, InterfaceKind::Ethernet);
    assert_eq!(observed.operational_state, OperationalState::Up);
    assert_eq!(observed.mac, Some(MacAddress::new([0, 1, 2, 3, 4, 5])));
    assert_eq!(observed.admin_state, AdminState::Up);
    assert_eq!(observed.mtu, Some(1500));

    let neighbor = NeighborRow {
        interface_index: 7,
        address: ip_to_sockaddr_inet(v4(192, 0, 2, 1)),
        physical_address: padded(&[5, 4, 3, 2, 1, 0]),
        physical_address_length: 6,
        state: NLNS_REACHABLE,
    };
    let observed = row_to_neighbor(&neighbor).expect("valid neighbor row");
    assert_eq!(observed.interface_index, 7);
    assert_eq!(observed.state, NeighborState::Reachable);
    assert_eq!(observed.mac, Some(MacAddress::new([5, 4, 3, 2, 1, 0])));

    let ipv6_neighbor = NeighborRow {
        interface_index: 7,
        address: ip_to_sockaddr_inet(v6("2001:db8:0:16::1")),
        physical_address: padded(&[2, 0, 0, 0, 0, 0x16]),
        physical_address_length: 6,
        state: NLNS_REACHABLE,
    };
    let observed = row_to_neighbor(&ipv6_neighbor).expect("valid IPv6 neighbor row");
    let expected_address =
        IpAddress::from(Ipv6Address::new([0x2001, 0xdb8, 0, 0x16, 0, 0, 0, 1]));
    assert_eq!(observed.interface_index, 7);
    assert_eq!(observed.address, expected_address);
    assert_eq!(observed.state, NeighborState::Reachable);
    assert_eq!(observed.mac, Some(MacAddress::new([2, 0, 0, 0, 0, 0x16])));
    assert_eq!(observed.id, synthesize_neighbor_id(7, &expected_address));
}

#[test]
fn ip_helper_ipv6_route_row_and_callbacks_preserve_route_identity() {
    let destination = network_v6([0x2001, 0xdb8, 0, 0x16, 0, 0, 0, 0], 64);
    let route = RouteConfig::new(destination)
        .with_gateway(IpAddress::from(Ipv6Address::new([
            0x2001, 0xdb8, 0, 0x16, 0, 0, 0, 1,
        ])))
        .with_interface_index(7)
        .with_metric(42);
    let row = build_row(&route);
    assert!(matches!(row.prefix, SocketAddress::Inet6(_)));
    assert!(matches!(row.next_hop, SocketAddress::Inet6(_)));

    let observed = row_to_route(&row).expect("IPv6 route row has a destination");
    assert_eq!(observed.destination, destination);
    assert_eq!(observed.gateway, route.gateway);
    assert_eq!(observed.interface_index, route.interface_index);
    assert_eq!(observed.metric, route.metric);

    let filter = EventFilter::none().route(observed.id);
    assert_eq!(
        route_notification(Some(row), NO_LOOKUP, Notification::Add, &filter),
        CallbackAction::Deliver(Event::Route { id: observed.id, kind: ChangeKind::Added })
    );
    assert_eq!(
        route_notification(Some(row), NO_LOOKUP, Notification::Delete, &filter),
        CallbackAction::Deliver(Event::Route { id: observed.id, kind: ChangeKind::Removed })
    );
}

#[test]
fn ip_helper_ipv6_unicast_row_and_callbacks_preserve_address_identity() {
    let network = network_v6([0x2001, 0xdb8, 0, 0x16, 0, 0, 0, 7], 64);
    let request = NewInterfaceAddress::new(Id::new(7), network);
    let row = build_unicast_address_row(&request);
    assert!(matches!(row.address, SocketAddress::Inet6(_)));
    assert_eq!(row.interface_index, 7);
    assert_eq!(row.on_link_prefix_length, 64);

    let observed = row_to_interface_address(&row).expect("valid IPv6 unicast row");
    assert_eq!(observed.interface_index, 7);
    assert_eq!(observed.address, network);
    assert!(observed.broadcast.is_none());

    let filter = EventFilter::none().address(observed.id);
    assert_eq!(
        address_notification(Some(row), NO_LOOKUP, None, Notification::Add, &filter),
        CallbackAction::Deliver(Event::Address { id: observed.id, kind: ChangeKind::Added })
    );
    assert_eq!(
        address_notification(Some(row), NO_LOOKUP, None, Notification::Delete, &filter),
        CallbackAction::Deliver(Event::Address { id: observed.id, kind: ChangeKind::Removed })
    );
}

#[test]
fn interface_change_fixture_uses_native_changed_event_and_filter() {
    let filter = EventFilter::none().interface(Id::new(7));
    assert_eq!(
        interface_notification(Some(7), Notification::Parameter, &filter),
        CallbackAction::Deliver(Event::Interface {
            id: Id::new(7),
            kind: ChangeKind::Changed,
        })
    );
    assert_eq!(
        interface_notification(Some(8), Notification::Parameter, &filter),
        CallbackAction::Ignore
    );
    assert_eq!(
        interface_notification(None, Notification::Initial, &filter),
        CallbackAction::Confirm
    );
    assert_eq!(
        interface_notification(None, Notification::Add, &filter),
        CallbackAction::Ignore
    );
    assert_eq!(change_kind(Notification::Initial), ChangeKind::Changed);
}

#[test]
fn ip_helper_kind_and_state_mappings_cover_supported_values() {
    assert_eq!(if_type_to_kind(IF_TYPE_SOFTWARE_LOOPBACK), InterfaceKind::Loopback);
    assert_eq!(if_type_to_kind(IF_TYPE_PPP), InterfaceKind::PointToPoint);
    assert_eq!(if_type_to_kind(IF_TYPE_IEEE80211), InterfaceKind::Wireless);
    assert_eq!(if_type_to_kind(IF_TYPE_BRIDGE), InterfaceKind::Bridge);
    assert_eq!(if_type_to_kind(IF_TYPE_L2_VLAN), InterfaceKind::Ethernet);
    assert_eq!(if_type_to_kind(999), InterfaceKind::Other(999));
    assert_eq!(neighbor_state_to_state(NLNS_INCOMPLETE), NeighborState::Incomplete);
    assert_eq!(neighbor_state_to_state(NLNS_STALE), NeighborState::Stale);
    assert_eq!(neighbor_state_to_state(NLNS_DELAY), NeighborState::Delay);
    assert_eq!(neighbor_state_to_state(NLNS_PROBE), NeighborState::Probe);
    assert_eq!(neighbor_state_to_state(NLNS_PERMANENT), NeighborState::Permanent);
}

#[test]
fn routes_are_validated_read_and_found() {
    let destination = network_v4(198, 51, 100, 0, 24);
    let mixed = RouteConfig::new(destination).with_gateway(v6("2001:db8::1"));
    assert!(matches!(validate_route_family(&mixed), Err(Error::InvalidState)));
    let plain = RouteConfig::new(destination);
    assert!(validate_route_family(&plain).is_ok());

    let on_link = build_row(&plain);
    let read = row_to_route(&on_link).expect("route");
    assert_eq!(read.gateway, None);
    assert_eq!(read.interface_index, None);
    assert_eq!(read.metric, Some(0));

    let bad_prefix = ForwardRow { prefix_length: 33, ..on_link };
    let no_prefix = ForwardRow { prefix: SocketAddress::Unspecified, ..on_link };
    let elsewhere = ForwardRow { interface_index: 4, ..on_link };
    let rows = vec![bad_prefix, no_prefix, elsewhere, on_link];
    assert_eq!(rows_to_routes(&rows).len(), 2);
    assert!(matches!(find_route_row(&rows, &plain), Ok(3)));
    assert!(matches!(
        find_route_row(&rows, &plain.with_interface_index(4)),
        Ok(2)
    ));
    assert!(matches!(
        find_route_row(&rows, &plain.with_interface_index(5)),
        Err(Error::NotFound)
    ));
}

#[test]
fn routes_that_differ_in_gateway_or_interface_differ_in_identity() {
    let plain = RouteConfig::new(network_v4(0, 0, 0, 0, 0));
    let ids: Vec<u64> = [
        plain,
        plain.with_gateway(v4(192, 0, 2, 1)),
        plain.with_interface_index(7),
        plain.with_gateway(v4(192, 0, 2, 1)).with_interface_index(7),
    ]
    .iter()
    .map(|config| row_to_route(&build_row(config)).expect("route").id.value())
    .collect();
    for i in 0..ids.len() {
        for k in 0..i {
            assert_ne!(ids[i], ids[k]);
        }
    }
}

#[test]
fn notifications_take_their_interface_from_its_identifier() {
    let row = build_row(&RouteConfig::new(network_v4(198, 51, 100, 0, 24)));
    let found = IndexLookup { status: 0, index: 7 };
    assert_eq!(corrected_route_notification_row(&row, found).interface_index, 7);
    let useless = IndexLookup { status: 0, index: 0 };
    assert_eq!(corrected_route_notification_row(&row, useless).interface_index, 0);
    assert_eq!(corrected_route_notification_row(&row, NO_LOOKUP).interface_index, 0);
}

#[test]
fn address_notifications_are_completed_unless_the_entry_is_gone() {
    let network = network_v4(192, 0, 2, 7, 24);
    let full = build_unicast_address_row(&NewInterfaceAddress::new(Id::new(7), network));
    let partial = UnicastRow { interface_index: 0, on_link_prefix_length: 0, ..full };
    let lookup = IndexLookup { status: 0, index: 7 };

    let query = address_query_row(&partial, lookup);
    assert_eq!(query.interface_index, 7);
    assert_eq!(query.on_link_prefix_length, 0);

    let completed =
        complete_address_notification_row(&partial, false, lookup, Some((full, lookup)));
    assert_eq!(completed, full);

    let removed = complete_address_notification_row(&partial, true, lookup, Some((full, lookup)));
    assert_eq!(removed.interface_index, 7);
    assert_eq!(removed.on_link_prefix_length, 0);
    assert_eq!(
        row_to_interface_address(&removed).expect("address").id,
        row_to_interface_address(&full).expect("address").id
    );
}

#[test]
fn assigned_addresses_are_checked_and_taken_away_by_their_own_row() {
    let network = network_v4(192, 0, 2, 7, 24);
    let request = NewInterfaceAddress::new(Id::new(7), network);
    assert!(check_new_address(&request).is_ok());
    let chosen = request.clone().with_broadcast(Ipv4Address::new(192, 0, 2, 255));
    assert!(matches!(check_new_address(&chosen), Err(Error::Unsupported)));
    let ipv6 = network_v6([0x2001, 0xdb8, 0, 0, 0, 0, 0, 1], 64);
    let impossible = NewInterfaceAddress::new(Id::new(7), ipv6)
        .with_broadcast(Ipv4Address::new(192, 0, 2, 255));
    assert!(matches!(check_new_address(&impossible), Err(Error::InvalidState)));

    let observed = InterfaceAddress::new(InterfaceAddressId::new(1), 7, network);
    assert_eq!(address_removal_row(&observed), build_unicast_address_row(&request));
    let unusable = UnicastRow {
        on_link_prefix_length: 33,
        ..address_removal_row(&observed)
    };
    assert_eq!(rows_to_addresses(&vec![unusable, address_removal_row(&observed)]).len(), 1);
}

#[test]
fn static_entries_are_created_confirmed_and_guarded() {
    let address = v4(192, 0, 2, 1);
    let mac = MacAddress::new([2, 0, 0, 0, 0, 1]);
    let wanted = StaticNeighbor::new(InterfaceId::new(7), address, mac);
    let row = static_neighbor_addition(&wanted);
    let entry = confirm_static_neighbor(0, &row).expect("readable");
    assert_eq!(entry.mac, Some(mac));
    assert_eq!(entry.state, NeighborState::Permanent);
    assert!(matches!(
        confirm_static_neighbor(1168, &row),
        Err(Error::InvalidState)
    ));
    let nowhere = NeighborRow { address: SocketAddress::Unspecified, ..row.clone() };
    assert!(matches!(
        confirm_static_neighbor(0, &nowhere),
        Err(Error::InvalidState)
    ));
    assert_eq!(rows_to_neighbors(&vec![nowhere, row]).len(), 1);

    assert_eq!(
        static_neighbor_removal(&vec![entry.clone()], &wanted).expect("permanent"),
        static_neighbor_delete_row(7, address)
    );
    assert!(matches!(
        static_neighbor_removal(&vec![entry.with_state(NeighborState::Stale)], &wanted),
        Err(Error::InvalidState)
    ));
    assert!(matches!(
        static_neighbor_removal(&Vec::new(), &wanted),
        Err(Error::NotFound)
    ));
}

// ---- subscriptions ----

#[test]
fn monitoring_filter_rejects_only_the_unsupported_neighbor_domain() {
    assert!(supports_event_filter(&EventFilter::none()));
    assert!(supports_event_filter(&EventFilter::none().routes()));
    assert!(supports_event_filter(&EventFilter::none().interfaces()));
    assert!(supports_event_filter(&EventFilter::none().addresses()));
    assert!(!supports_event_filter(&EventFilter::none().neighbors()));
    assert!(!supports_event_filter(&EventFilter::all()));
}

#[test]
fn a_watch_goes_live_after_three_confirmed_subscriptions() {
    assert_eq!(
        next_watch_step(&vec![], None),
        WatchStep::Register(Registration::Route)
    );
    assert_eq!(
        next_watch_step(&vec![0], None),
        WatchStep::Register(Registration::Interface)
    );
    assert_eq!(
        next_watch_step(&vec![0, 0], None),
        WatchStep::Register(Registration::Address)
    );
    assert_eq!(next_watch_step(&vec![0, 0, 0], None), WatchStep::Await);
    assert_eq!(next_watch_step(&vec![0, 0, 0], Some(true)), WatchStep::Live);
    assert_eq!(
        next_watch_step(&vec![0, 0, 0], Some(false)),
        WatchStep::GiveUp { cancel: 3, status: ERROR_TIMEOUT }
    );
    assert_eq!(
        next_watch_step(&vec![0, 87], None),
        WatchStep::GiveUp { cancel: 1, status: 87 }
    );
    assert_eq!(
        next_watch_step(&vec![87], None),
        WatchStep::GiveUp { cancel: 0, status: 87 }
    );
}

#[test]
fn readiness_counts_confirmations_down_to_none() {
    let mut readiness = RegistrationReadiness::new(2);
    assert!(!readiness.is_ready());
    readiness.signal();
    assert!(!readiness.is_ready());
    readiness.signal();
    assert!(readiness.is_ready());
    readiness.signal();
    assert!(readiness.is_ready());
}

// ---- comparing neighbor tables ----

fn neighbor(id: u64, mac: [u8; 6], state: NeighborState) -> NeighborEntry {
    NeighborEntry::new(NeighborId::new(id), 1, v4(10, 0, 0, id as u8))
        .with_mac(MacAddress::new(mac))
        .with_state(state)
}

fn snapshot(entries: Vec<NeighborEntry>) -> NeighborSnapshot {
    NeighborSnapshot::from_entries(&entries)
}

#[test]
fn neighbor_diff_first_poll_produces_no_events() {
    let current = snapshot(vec![neighbor(1, [0, 1, 2, 3, 4, 5], NeighborState::Reachable)]);
    let events = diff_neighbor_snapshots(None, &current);
    assert!(events.is_empty());
}

#[test]
fn neighbor_diff_reports_added_entries() {
    let previous = snapshot(vec![]);
    let current = snapshot(vec![neighbor(1, [0, 1, 2, 3, 4, 5], NeighborState::Reachable)]);
    let events = diff_neighbor_snapshots(Some(&previous), &current);
    assert_eq!(
        events,
        vec![Event::Neighbor { id: NeighborId::new(1), kind: ChangeKind::Added }]
    );
}

#[test]
fn neighbor_diff_reports_removed_entries() {
    let previous = snapshot(vec![neighbor(1, [0, 1, 2, 3, 4, 5], NeighborState::Reachable)]);
    let current = snapshot(vec![]);
    let events = diff_neighbor_snapshots(Some(&previous), &current);
    assert_eq!(
        events,
        vec![Event::Neighbor { id: NeighborId::new(1), kind: ChangeKind::Removed }]
    );
}

#[test]
fn neighbor_diff_reports_changed_mac_and_state() {
    let previous = snapshot(vec![
        neighbor(1, [0, 1, 2, 3, 4, 5], NeighborState::Reachable),
        neighbor(2, [1, 1, 1, 1, 1, 1], NeighborState::Stale),
    ]);
    let current = snapshot(vec![
        neighbor(1, [9, 9, 9, 9, 9, 9], NeighborState::Reachable),
        neighbor(2, [1, 1, 1, 1, 1, 1], NeighborState::Reachable),
    ]);
    let mut events = diff_neighbor_snapshots(Some(&previous), &current);
    events.sort_by_key(|event| match event {
        Event::Neighbor { id, .. } => id.value(),
        _ => unreachable!("only Neighbor events are synthesized"),
    });
    assert_eq!(
        events,
        vec![
            Event::Neighbor { id: NeighborId::new(1), kind: ChangeKind::Changed },
            Event::Neighbor { id: NeighborId::new(2), kind: ChangeKind::Changed },
        ]
    );
}

#[test]
fn neighbor_diff_reports_nothing_for_an_unchanged_entry() {
    let entries = vec![neighbor(1, [0, 1, 2, 3, 4, 5], NeighborState::Reachable)];
    let previous = snapshot(entries.clone());
    let current = snapshot(entries);
    let events = diff_neighbor_snapshots(Some(&previous), &current);
    assert!(events.is_empty());
}

#[test]
fn polling_remembers_the_last_read_and_the_last_of_each_identity() {
    let stale = neighbor(1, [0, 1, 2, 3, 4, 5], NeighborState::Stale);
    let fresh = neighbor(1, [0, 1, 2, 3, 4, 5], NeighborState::Reachable);
    let mut poller = NeighborPoller::new();
    assert!(poller.observe(&vec![stale.clone(), fresh.clone()]).is_empty());
    assert!(poller.observe(&vec![fresh.clone()]).is_empty());
    assert_eq!(
        poller.observe(&vec![stale]),
        vec![Event::Neighbor { id: NeighborId::new(1), kind: ChangeKind::Changed }]
    );
    assert_eq!(
        poller.observe(&Vec::new()),
        vec![Event::Neighbor { id: NeighborId::new(1), kind: ChangeKind::Removed }]
    );
    assert_eq!(
        poller.observe(&vec![fresh]),
        vec![Event::Neighbor { id: NeighborId::new(1), kind: ChangeKind::Added }]
    );
}

// ---- capabilities ----

#[test]
fn capabilities_match_the_implemented_provider_surface() {
    let platform = Platform::Linux;
    assert!(supports(platform, Capability::Ipv6));
    assert!(supports(platform, Capability::RouteMonitoring));
    assert!(supports(platform, Capability::InterfaceMonitoring));
    assert!(supports(platform, Capability::NeighborMonitoring));
    assert!(supports(platform, Capability::AddressMonitoring));
    assert!(supports(platform, Capability::Monitoring));
    assert!(supports(platform, Capability::DnsMutation));
    assert!(supports(platform, Capability::InterfaceAdminState));
    assert!(supports(platform, Capability::InterfaceMtu));
    assert!(supports(platform, Capability::NeighborMutation));
    assert!(supports(platform, Capability::RouteMutation));
    assert!(!supports(platform, Capability::Vrf));
    assert!(!supports(platform, Capability::Namespaces));
}

#[test]
fn lib_capabilities_match_the_implemented_provider_surface() {
    let platform = Platform::Windows;
    assert!(supports(platform, Capability::Ipv6));
    assert!(supports(platform, Capability::RouteMonitoring));
    assert!(supports(platform, Capability::InterfaceMonitoring));
    assert!(supports(platform, Capability::AddressMonitoring));
    assert!(!supports(platform, Capability::NeighborMonitoring));
    assert!(!supports(platform, Capability::Monitoring));
    assert!(supports(platform, Capability::DnsMutation));
    assert!(supports(platform, Capability::InterfaceAdminState));
    assert!(supports(platform, Capability::InterfaceMtu));
    assert!(supports(platform, Capability::NeighborMutation));
    assert!(supports(platform, Capability::RouteMutation));
    assert!(!supports(platform, Capability::Vrf));
    assert!(!supports(platform, Capability::Namespaces));
}

#[test]
fn windows_backend_does_not_advertise_neighbor_monitoring() {
    assert!(!supports(Platform::Windows, Capability::NeighborMonitoring));
}

#[test]
fn windows_backend_advertises_neighbor_monitoring_polling_addition() {
    assert!(supports_addition(
        Platform::Windows,
        Addition::NeighborMonitoringPolling
    ));
    assert!(!supports_addition(
        Platform::Linux,
        Addition::NeighborMonitoringPolling
    ));
}

#[test]
fn watch_addition_rejects_an_unsupported_bit() {
    let result = require_addition(Platform::Windows, Addition::Other);
    assert!(matches!(result, Err(Error::Unsupported)));
    assert!(require_addition(Platform::Windows, Addition::NeighborMonitoringPolling).is_ok());
}

// ---- resolver settings and wide text ----

#[test]
fn dns_nameserver_list_preserves_requested_order() {
    let config = NewDnsConfig::with(
        vec![v4(1, 1, 1, 1), v6("2606:4700:4700::1111"), v4(8, 8, 8, 8)],
        Vec::new(),
    );
    assert_eq!(
        config_list(&config.nameservers),
        "1.1.1.1,2606:4700:4700::1111,8.8.8.8"
    );
    assert_eq!(config_list(&Vec::new()), "");
    assert_eq!(
        search_list(&vec!["a.test".to_string(), "b.test".to_string()]),
        "a.test,b.test"
    );
}

#[test]
fn dns_ipv6_sockaddr_mapping_preserves_family_and_value() {
    let expected = v6("2606:4700:4700::1111");
    let sockaddr = ip_to_sockaddr_inet(expected);
    assert_eq!(sockaddr_inet_to_ip(&sockaddr), Some(expected));
    assert_eq!(sockaddr_inet_to_ip(&SocketAddress::Unspecified), None);
}

#[test]
fn adapters_are_collected_without_repeats() {
    let router = ip_to_sockaddr_inet(v4(192, 0, 2, 1));
    let other = ip_to_sockaddr_inet(v6("2001:db8::1"));
    let adapters = vec![
        AdapterDns {
            nameservers: vec![router, SocketAddress::Unspecified, other],
            suffix: Some("corp.test".to_string()),
        },
        AdapterDns { nameservers: vec![router], suffix: Some(String::new()) },
        AdapterDns { nameservers: vec![], suffix: None },
        AdapterDns { nameservers: vec![other], suffix: Some("corp.test".to_string()) },
        AdapterDns { nameservers: vec![], suffix: Some("lab.test".to_string()) },
    ];
    let config = collect_dns(&adapters);
    assert_eq!(config.nameservers, vec![v4(192, 0, 2, 1), v6("2001:db8::1")]);
    assert_eq!(
        config.search_domains,
        vec!["corp.test".to_string(), "lab.test".to_string()]
    );
    assert!(collect_dns(&Vec::new()).nameservers.is_empty());
}

#[test]
fn resolver_settings_are_written_to_the_machine_and_then_to_every_adapter() {
    assert_eq!(next_dns_step(None, None, &vec![]), DnsStep::SetGlobal);
    assert_eq!(next_dns_step(Some(5), None, &vec![]), DnsStep::Failed(5));
    assert_eq!(next_dns_step(Some(0), None, &vec![]), DnsStep::ListAdapters);
    assert_eq!(next_dns_step(Some(0), Some(0), &vec![]), DnsStep::NoAdapters);
    assert_eq!(next_dns_step(Some(0), Some(2), &vec![]), DnsStep::SetAdapter(0));
    assert_eq!(next_dns_step(Some(0), Some(2), &vec![0]), DnsStep::SetAdapter(1));
    assert_eq!(next_dns_step(Some(0), Some(2), &vec![0, 87]), DnsStep::Failed(87));
    assert_eq!(next_dns_step(Some(0), Some(2), &vec![0, 0]), DnsStep::Finished);
    assert!(matches!(
        dns_failure(DnsStep::NoAdapters),
        Some(Error::InvalidState)
    ));
    assert!(matches!(
        dns_failure(DnsStep::Failed(87)),
        Some(Error::Platform(PlatformErrorCode::Windows(87)))
    ));
    assert!(dns_failure(DnsStep::Finished).is_none());
}

#[test]
fn adapter_names_lose_their_braces() {
    let name = "4D36E972-E325-11CE-BFC1-08002BE10318";
    assert_eq!(adapter_guid_text(&format!("{{{name}}}")), name);
    assert_eq!(adapter_guid_text(name), name);
    assert_eq!(adapter_guid_text("{}"), "");
}

#[test]
fn wide_text_is_encoded_and_decoded_as_std_does() {
    for text in ["", "eth0", "caf\u{e9}", "\u{1F600}x", "a\u{FFFD}b", "\u{FFFF}\u{10000}"] {
        let expected: Vec<u16> = text.encode_utf16().chain(std::iter::once(0)).collect();
        assert_eq!(nul_terminated_wide(text), expected);
        assert_eq!(text_of_wide(&expected), text);
    }
    for units in [
        vec![0xD800u16],
        vec![0xDC00, 0x41],
        vec![0xD83D, 0xD83D, 0xDE00],
        vec![0x41, 0xD83D, 0x42],
    ] {
        let decoded: String = decode_wide(&units).into_iter().collect();
        assert_eq!(decoded, String::from_utf16_lossy(&units));
    }
    assert_eq!(text_of_wide(&vec![0x41, 0, 0x42, 0, 0]), "A\0B");
}

// ---- forwarding ----

#[test]
fn forwarding_hands_events_on_and_ends_with_an_error() {
    let step = forward_step(Ok(Some(7u8)));
    assert!(matches!(step.item, Some(Ok(7))));
    assert!(goes_on(false, step.last, true));
    assert!(!goes_on(false, step.last, false));

    let step = forward_step::<u8>(Ok(None));
    assert!(step.item.is_none());
    assert!(goes_on(false, step.last, true));
    assert!(!goes_on(true, step.last, true));

    let step = forward_step::<u8>(Err(Error::InvalidState));
    assert!(matches!(step.item, Some(Err(Error::InvalidState))));
    assert!(!goes_on(false, step.last, true));
}

/// A queue with room for `capacity` items, and the producer that fills it.
struct Queue {
    items: Vec<&'static str>,
    capacity: usize,
    open: bool,
    overflowed: bool,
}

impl Queue {
    fn offer(&mut self, item: &'static str) -> Answer {
        if !self.open {
            Answer::Gone
        } else if self.items.len() == self.capacity {
            Answer::Full
        } else {
            self.items.push(item);
            Answer::Taken
        }
    }

    fn send(&mut self, event: &'static str) -> bool {
        let mut step = start_sending(self.overflowed);
        if step == SendStep::OfferNotice {
            let progress = after_notice(self.offer("notice"));
            self.overflowed = progress.overflowed;
            step = progress.step;
        }
        if step == SendStep::OfferEvent {
            let progress = after_event(self.offer(event));
            self.overflowed = progress.overflowed;
            step = progress.step;
        }
        step != SendStep::NoConsumer
    }
}

#[test]
fn dropped_events_are_announced_before_later_ones() {
    let mut queue = Queue {
        items: Vec::new(),
        capacity: 2,
        open: true,
        overflowed: false,
    };
    assert!(queue.send("first"));
    assert!(queue.send("second"));
    assert!(queue.send("third"));
    assert!(queue.send("fourth"));
    assert_eq!(queue.items, vec!["first", "second"]);
    assert!(queue.overflowed);

    queue.items.clear();
    assert!(queue.send("fifth"));
    assert_eq!(queue.items, vec!["notice", "fifth"]);
    assert!(!queue.overflowed);

    // Room for the notice alone: the event after it is dropped, and a notice is due again.
    assert!(queue.send("sixth"));
    queue.items.clear();
    queue.capacity = 1;
    assert!(queue.send("seventh"));
    assert_eq!(queue.items, vec!["notice"]);
    assert!(queue.overflowed);

    queue.open = false;
    assert!(!queue.send("eighth"));
    queue.overflowed = false;
    assert!(!queue.send("ninth"));
    assert!(!queue.overflowed);
}
