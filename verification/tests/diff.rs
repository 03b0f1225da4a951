use net_lattice::AddressChange;
use net_lattice::AdminState;
use net_lattice::Change;
use net_lattice::CurrentState;
use net_lattice::DesiredAdminState;
use net_lattice::DesiredState;
use net_lattice::Diff;
use net_lattice::DnsChange;
use net_lattice::DnsConfig;
use net_lattice::Interface;
use net_lattice::InterfaceAddress;
use net_lattice::InterfaceAddressId;
use net_lattice::InterfaceConfig;
use net_lattice::InterfaceId;
use net_lattice::InterfaceKind;
use net_lattice::IpAddress;
use net_lattice::Ipv4Address;
use net_lattice::Ipv4Network;
use net_lattice::Ipv4PrefixLength;
use net_lattice::MacAddress;
use net_lattice::NeighborChange;
use net_lattice::NeighborEntry;
use net_lattice::NeighborId;
use net_lattice::Network;
use net_lattice::NewDnsConfig;
use net_lattice::NewInterfaceAddress;
use net_lattice::Route;
use net_lattice::RouteChange;
use net_lattice::RouteConfig;
use net_lattice::RouteId;
use net_lattice::StaticNeighbor;

fn network(octet: u8) -> Network {
    Network::from(Ipv4Network::new(
        Ipv4Address::new(192, 0, 2, octet),
        Ipv4PrefixLength::new(32).expect("valid prefix"),
    ))
}

fn empty_state() -> CurrentState {
    CurrentState::new(
        Vec::new(),
        Vec::new(),
        Vec::new(),
        Vec::new(),
        DnsConfig::new(),
        Vec::new(),
    )
}

#[test]
fn route_no_op_when_current_matches_desired() {
    let route_config = RouteConfig::new(network(0)).with_interface_index(1);
    let route = Route::new(RouteId::new(1), network(0)).with_interface_index(1);
    let current = CurrentState {
        routes: vec![route],
        ..empty_state()
    };
    let desired = DesiredState::empty().with_routes(vec![route_config]);
    let diff = Diff::compute(&current, &desired);
    assert!(diff.routes.is_empty());
}

#[test]
fn route_added_only() {
    let route_config = RouteConfig::new(network(0));
    let current = empty_state();
    let desired = DesiredState::empty().with_routes(vec![route_config]);
    let diff = Diff::compute(&current, &desired);
    assert_eq!(diff.routes, vec![RouteChange::Added(route_config)]);
}

#[test]
fn route_removed_only() {
    let route = Route::new(RouteId::new(1), network(0));
    let current = CurrentState {
        routes: vec![route.clone()],
        ..empty_state()
    };
    let desired = DesiredState::empty().with_routes(Vec::new());
    let diff = Diff::compute(&current, &desired);
    assert_eq!(diff.routes, vec![RouteChange::Removed(route)]);
}

#[test]
fn route_unmanaged_produces_no_diff() {
    let route = Route::new(RouteId::new(1), network(0));
    let current = CurrentState {
        routes: vec![route],
        ..empty_state()
    };
    let desired = DesiredState::empty();
    let diff = Diff::compute(&current, &desired);
    assert!(diff.routes.is_empty());
}

#[test]
fn route_duplicate_natural_key_collapses_to_one_added_entry() {
    let current = empty_state();
    let dup_a = RouteConfig::new(network(0)).with_metric(1);
    let dup_b = RouteConfig::new(network(0)).with_metric(1);
    let desired = DesiredState::empty().with_routes(vec![dup_a, dup_b]);
    let diff = Diff::compute(&current, &desired);
    assert_eq!(diff.routes.len(), 1);
}

#[test]
fn interface_no_op_when_requested_fields_already_match() {
    let interface = Interface::new(InterfaceId::new(1), 1, "eth0", InterfaceKind::Ethernet)
        .with_admin_state(AdminState::Up)
        .with_mtu(1500);
    let config =
        InterfaceConfig::new(InterfaceId::new(1), Some(DesiredAdminState::Up), Some(1500))
            .expect("valid patch");
    let current = CurrentState {
        interfaces: vec![interface],
        ..empty_state()
    };
    let desired = DesiredState::empty().with_interfaces(vec![config]);
    let diff = Diff::compute(&current, &desired);
    assert!(diff.interfaces.is_empty());
}

#[test]
fn interface_changed_field_surfaces_as_change() {
    let interface = Interface::new(InterfaceId::new(1), 1, "eth0", InterfaceKind::Ethernet)
        .with_admin_state(AdminState::Down)
        .with_mtu(1500);
    let config =
        InterfaceConfig::new(InterfaceId::new(1), Some(DesiredAdminState::Up), Some(9000))
            .expect("valid patch");
    let current = CurrentState {
        interfaces: vec![interface],
        ..empty_state()
    };
    let desired = DesiredState::empty().with_interfaces(vec![config]);
    let diff = Diff::compute(&current, &desired);
    assert_eq!(diff.interfaces.len(), 1);
    let entry = &diff.interfaces[0];
    assert_eq!(entry.interface_id, InterfaceId::new(1));
    assert_eq!(
        entry.admin_state,
        Some(Change {
            current: AdminState::Down,
            desired: DesiredAdminState::Up,
        })
    );
    assert_eq!(
        entry.mtu,
        Some(Change {
            current: 1500,
            desired: 9000,
        })
    );
}

#[test]
fn interface_not_requested_field_never_surfaces() {
    let interface = Interface::new(InterfaceId::new(1), 1, "eth0", InterfaceKind::Ethernet)
        .with_admin_state(AdminState::Down)
        .with_mtu(1500);
    let config = InterfaceConfig::new(InterfaceId::new(1), Some(DesiredAdminState::Up), None)
        .expect("valid patch");
    let current = CurrentState {
        interfaces: vec![interface],
        ..empty_state()
    };
    let desired = DesiredState::empty().with_interfaces(vec![config]);
    let diff = Diff::compute(&current, &desired);
    assert_eq!(diff.interfaces.len(), 1);
    assert!(diff.interfaces[0].admin_state.is_some());
    assert_eq!(diff.interfaces[0].mtu, None);
}

#[test]
fn interface_unmanaged_produces_no_diff() {
    let interface = Interface::new(InterfaceId::new(1), 1, "eth0", InterfaceKind::Ethernet);
    let current = CurrentState {
        interfaces: vec![interface],
        ..empty_state()
    };
    let desired = DesiredState::empty();
    let diff = Diff::compute(&current, &desired);
    assert!(diff.interfaces.is_empty());
}

#[test]
fn interface_target_missing_from_current_produces_no_diff() {
    let config = InterfaceConfig::new(InterfaceId::new(99), Some(DesiredAdminState::Up), None)
        .expect("valid patch");
    let current = empty_state();
    let desired = DesiredState::empty().with_interfaces(vec![config]);
    let diff = Diff::compute(&current, &desired);
    assert!(diff.interfaces.is_empty());
}

#[test]
fn interface_duplicate_natural_key_last_one_wins() {
    let interface = Interface::new(InterfaceId::new(1), 1, "eth0", InterfaceKind::Ethernet)
        .with_admin_state(AdminState::Down);
    let first =
        InterfaceConfig::new(InterfaceId::new(1), Some(DesiredAdminState::Up), None).unwrap();
    let second =
        InterfaceConfig::new(InterfaceId::new(1), Some(DesiredAdminState::Down), None).unwrap();
    let current = CurrentState {
        interfaces: vec![interface],
        ..empty_state()
    };
    let desired = DesiredState::empty().with_interfaces(vec![first, second]);
    let diff = Diff::compute(&current, &desired);
    assert!(diff.interfaces.is_empty());
}

fn neighbor_address() -> IpAddress {
    IpAddress::from(Ipv4Address::new(192, 0, 2, 1))
}

#[test]
fn neighbor_no_op_when_current_matches_desired() {
    let mac = MacAddress::new([0x02, 0x00, 0x00, 0x00, 0x00, 0x01]);
    let entry = NeighborEntry::new(NeighborId::new(1), 1, neighbor_address()).with_mac(mac);
    let desired_neighbor = StaticNeighbor::new(InterfaceId::new(1), neighbor_address(), mac);
    let current = CurrentState {
        neighbors: vec![entry],
        ..empty_state()
    };
    let desired = DesiredState::empty().with_neighbors(vec![desired_neighbor]);
    let diff = Diff::compute(&current, &desired);
    assert!(diff.neighbors.is_empty());
}

#[test]
fn neighbor_added_only() {
    let mac = MacAddress::new([0x02, 0x00, 0x00, 0x00, 0x00, 0x01]);
    let desired_neighbor = StaticNeighbor::new(InterfaceId::new(1), neighbor_address(), mac);
    let current = empty_state();
    let desired = DesiredState::empty().with_neighbors(vec![desired_neighbor]);
    let diff = Diff::compute(&current, &desired);
    assert_eq!(
        diff.neighbors,
        vec![NeighborChange::Added(desired_neighbor)]
    );
}

#[test]
fn neighbor_removed_only() {
    let entry = NeighborEntry::new(NeighborId::new(1), 1, neighbor_address());
    let current = CurrentState {
        neighbors: vec![entry.clone()],
        ..empty_state()
    };
    let desired = DesiredState::empty().with_neighbors(Vec::new());
    let diff = Diff::compute(&current, &desired);
    assert_eq!(diff.neighbors, vec![NeighborChange::Removed(entry)]);
}

#[test]
fn neighbor_changed_mac() {
    let mac_a = MacAddress::new([0x02, 0x00, 0x00, 0x00, 0x00, 0x01]);
    let mac_b = MacAddress::new([0x02, 0x00, 0x00, 0x00, 0x00, 0x02]);
    let entry = NeighborEntry::new(NeighborId::new(1), 1, neighbor_address()).with_mac(mac_a);
    let desired_neighbor = StaticNeighbor::new(InterfaceId::new(1), neighbor_address(), mac_b);
    let current = CurrentState {
        neighbors: vec![entry.clone()],
        ..empty_state()
    };
    let desired = DesiredState::empty().with_neighbors(vec![desired_neighbor]);
    let diff = Diff::compute(&current, &desired);
    assert_eq!(
        diff.neighbors,
        vec![NeighborChange::Changed {
            current: entry,
            desired: desired_neighbor,
        }]
    );
}

#[test]
fn neighbor_unmanaged_produces_no_diff() {
    let entry = NeighborEntry::new(NeighborId::new(1), 1, neighbor_address());
    let current = CurrentState {
        neighbors: vec![entry],
        ..empty_state()
    };
    let desired = DesiredState::empty();
    let diff = Diff::compute(&current, &desired);
    assert!(diff.neighbors.is_empty());
}

#[test]
fn neighbor_duplicate_natural_key_last_one_wins() {
    let mac_a = MacAddress::new([0x02, 0x00, 0x00, 0x00, 0x00, 0x01]);
    let mac_b = MacAddress::new([0x02, 0x00, 0x00, 0x00, 0x00, 0x02]);
    let first = StaticNeighbor::new(InterfaceId::new(1), neighbor_address(), mac_a);
    let second = StaticNeighbor::new(InterfaceId::new(1), neighbor_address(), mac_b);
    let current = empty_state();
    let desired = DesiredState::empty().with_neighbors(vec![first, second]);
    let diff = Diff::compute(&current, &desired);
    assert_eq!(diff.neighbors, vec![NeighborChange::Added(second)]);
}

#[test]
fn address_no_op_when_current_matches_desired() {
    let addr = InterfaceAddress::new(InterfaceAddressId::new(1), 1, network(0));
    let desired_addr = NewInterfaceAddress::new(InterfaceId::new(1), network(0));
    let current = CurrentState {
        addresses: vec![addr],
        ..empty_state()
    };
    let desired = DesiredState::empty().with_addresses(vec![desired_addr]);
    let diff = Diff::compute(&current, &desired);
    assert!(diff.addresses.is_empty());
}

#[test]
fn address_added_only() {
    let desired_addr = NewInterfaceAddress::new(InterfaceId::new(1), network(0));
    let current = empty_state();
    let desired = DesiredState::empty().with_addresses(vec![desired_addr.clone()]);
    let diff = Diff::compute(&current, &desired);
    assert_eq!(diff.addresses, vec![AddressChange::Added(desired_addr)]);
}

#[test]
fn address_removed_only() {
    let addr = InterfaceAddress::new(InterfaceAddressId::new(1), 1, network(0));
    let current = CurrentState {
        addresses: vec![addr.clone()],
        ..empty_state()
    };
    let desired = DesiredState::empty().with_addresses(Vec::new());
    let diff = Diff::compute(&current, &desired);
    assert_eq!(diff.addresses, vec![AddressChange::Removed(addr)]);
}

#[test]
fn address_changed_broadcast() {
    let observed_broadcast = IpAddress::from(Ipv4Address::new(192, 0, 2, 255));
    let addr = InterfaceAddress::new(InterfaceAddressId::new(1), 1, network(0))
        .with_broadcast(observed_broadcast);
    let desired_addr = NewInterfaceAddress::new(InterfaceId::new(1), network(0))
        .with_broadcast(Ipv4Address::new(192, 0, 2, 254));
    let current = CurrentState {
        addresses: vec![addr.clone()],
        ..empty_state()
    };
    let desired = DesiredState::empty().with_addresses(vec![desired_addr.clone()]);
    let diff = Diff::compute(&current, &desired);
    assert_eq!(
        diff.addresses,
        vec![AddressChange::Changed {
            current: addr,
            desired: desired_addr,
        }]
    );
}

#[test]
fn address_desired_broadcast_none_never_produces_a_change() {
    let observed_broadcast = IpAddress::from(Ipv4Address::new(192, 0, 2, 255));
    let addr = InterfaceAddress::new(InterfaceAddressId::new(1), 1, network(0))
        .with_broadcast(observed_broadcast);
    let desired_addr = NewInterfaceAddress::new(InterfaceId::new(1), network(0));
    let current = CurrentState {
        addresses: vec![addr],
        ..empty_state()
    };
    let desired = DesiredState::empty().with_addresses(vec![desired_addr]);
    let diff = Diff::compute(&current, &desired);
    assert!(diff.addresses.is_empty());
}

#[test]
fn address_unmanaged_produces_no_diff() {
    let addr = InterfaceAddress::new(InterfaceAddressId::new(1), 1, network(0));
    let current = CurrentState {
        addresses: vec![addr],
        ..empty_state()
    };
    let desired = DesiredState::empty();
    let diff = Diff::compute(&current, &desired);
    assert!(diff.addresses.is_empty());
}

#[test]
fn address_duplicate_natural_key_last_one_wins() {
    let first = NewInterfaceAddress::new(InterfaceId::new(1), network(0))
        .with_broadcast(Ipv4Address::new(192, 0, 2, 1));
    let second = NewInterfaceAddress::new(InterfaceId::new(1), network(0))
        .with_broadcast(Ipv4Address::new(192, 0, 2, 2));
    let current = empty_state();
    let desired = DesiredState::empty().with_addresses(vec![first, second.clone()]);
    let diff = Diff::compute(&current, &desired);
    assert_eq!(diff.addresses, vec![AddressChange::Added(second)]);
}

#[test]
fn dns_no_op_when_current_matches_desired() {
    let dns = DnsConfig {
        nameservers: vec![IpAddress::from(Ipv4Address::new(1, 1, 1, 1))],
        search_domains: vec!["example.test".to_string()],
    };
    let desired_dns = NewDnsConfig::with(
        vec![IpAddress::from(Ipv4Address::new(1, 1, 1, 1))],
        vec!["example.test".to_string()],
    );
    let current = CurrentState {
        dns,
        ..empty_state()
    };
    let desired = DesiredState::empty().with_dns(desired_dns);
    let diff = Diff::compute(&current, &desired);
    assert_eq!(diff.dns, None);
}

#[test]
fn dns_changed_when_desired_differs() {
    let dns = DnsConfig::new();
    let desired_dns = NewDnsConfig::with(
        vec![IpAddress::from(Ipv4Address::new(1, 1, 1, 1))],
        Vec::new(),
    );
    let current = CurrentState {
        dns: dns.clone(),
        ..empty_state()
    };
    let desired = DesiredState::empty().with_dns(desired_dns.clone());
    let diff = Diff::compute(&current, &desired);
    assert_eq!(
        diff.dns,
        Some(DnsChange {
            current: dns,
            desired: desired_dns,
        })
    );
}

#[test]
fn dns_unmanaged_produces_no_diff() {
    let dns = DnsConfig {
        nameservers: vec![IpAddress::from(Ipv4Address::new(1, 1, 1, 1))],
        search_domains: Vec::new(),
    };
    let current = CurrentState {
        dns,
        ..empty_state()
    };
    let desired = DesiredState::empty();
    let diff = Diff::compute(&current, &desired);
    assert_eq!(diff.dns, None);
}

#[test]
fn empty_current_and_empty_desired_produce_empty_diff() {
    let current = empty_state();
    let desired = DesiredState::empty();
    let diff = Diff::compute(&current, &desired);
    assert!(diff.routes.is_empty());
    assert!(diff.interfaces.is_empty());
    assert!(diff.neighbors.is_empty());
    assert!(diff.addresses.is_empty());
    assert_eq!(diff.dns, None);
}
