use net_lattice::DesiredState;
use net_lattice::FirewallPolicy;
use net_lattice::InterfaceId;
use net_lattice::IpAddress;
use net_lattice::Ipv4Address;
use net_lattice::Ipv4Network;
use net_lattice::Ipv4PrefixLength;
use net_lattice::MacAddress;
use net_lattice::Network;
use net_lattice::NewDnsConfig;
use net_lattice::NewInterfaceAddress;
use net_lattice::RouteConfig;
use net_lattice::StaticNeighbor;
use net_lattice::Verdict;

fn network() -> Network {
    Network::from(Ipv4Network::new(
        Ipv4Address::new(192, 0, 2, 0),
        Ipv4PrefixLength::new(24).expect("valid prefix"),
    ))
}

fn sample() -> DesiredState {
    DesiredState::empty()
        .with_routes(vec![RouteConfig::new(network())])
        .with_neighbors(vec![StaticNeighbor::new(
            InterfaceId::new(1),
            IpAddress::from(Ipv4Address::new(192, 0, 2, 1)),
            MacAddress::new([0x02, 0x00, 0x00, 0x00, 0x00, 0x01]),
        )])
        .with_addresses(vec![NewInterfaceAddress::new(
            InterfaceId::new(1),
            network(),
        )])
        .with_dns(NewDnsConfig::with(
            vec![IpAddress::from(Ipv4Address::new(1, 1, 1, 1))],
            vec!["example.test".to_string()],
        ))
        .with_firewall(FirewallPolicy::new(Verdict::Allow))
}

#[test]
fn empty_manages_no_domain() {
    let state = DesiredState::empty();
    assert_eq!(state.routes, None);
    assert_eq!(state.interfaces, None);
    assert_eq!(state.neighbors, None);
    assert_eq!(state.addresses, None);
    assert_eq!(state.dns, None);
    assert_eq!(state.firewall, None);
}

#[test]
fn builders_set_every_domain() {
    let state = sample();
    assert!(state.routes.is_some());
    assert!(state.neighbors.is_some());
    assert!(state.addresses.is_some());
    assert!(state.dns.is_some());
    assert!(state.firewall.is_some());
    assert_eq!(state.interfaces, None);
}

#[test]
fn desired_state_equal_when_every_field_matches() {
    assert_eq!(sample(), sample());
}

#[test]
fn desired_state_differs_when_one_domain_changes() {
    let mut other = sample();
    other.routes = Some(vec![
        RouteConfig::new(network()),
        RouteConfig::new(network()).with_metric(7),
    ]);
    assert_ne!(sample(), other);
}

#[test]
fn none_and_some_empty_are_distinct_for_a_collection_domain() {
    let unmanaged = DesiredState::empty();
    let managed_empty = DesiredState::empty().with_routes(Vec::new());

    assert_ne!(unmanaged, managed_empty);
    assert_eq!(unmanaged.routes, None);
    assert_eq!(managed_empty.routes, Some(Vec::new()));
    assert_ne!(unmanaged.routes, managed_empty.routes);
}

#[test]
fn none_and_some_default_are_distinct_for_the_dns_domain() {
    let unmanaged = DesiredState::empty();
    let managed_default = DesiredState::empty().with_dns(NewDnsConfig::new());

    assert_ne!(unmanaged, managed_default);
    assert_eq!(unmanaged.dns, None);
    assert_eq!(managed_default.dns, Some(NewDnsConfig::new()));
}

#[test]
fn desired_state_clone_produces_an_equal_value() {
    let state = sample();
    assert_eq!(state.clone(), state);
}
