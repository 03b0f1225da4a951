use net_lattice::CurrentState;
use net_lattice::Direction;
use net_lattice::DnsConfig;
use net_lattice::FirewallRule;
use net_lattice::Interface;
use net_lattice::InterfaceAddress;
use net_lattice::InterfaceAddressId;
use net_lattice::InterfaceId;
use net_lattice::InterfaceKind;
use net_lattice::IpAddress;
use net_lattice::Ipv4Address;
use net_lattice::Ipv4Network;
use net_lattice::Ipv4PrefixLength;
use net_lattice::NeighborEntry;
use net_lattice::NeighborId;
use net_lattice::Network;
use net_lattice::Route;
use net_lattice::RouteId;
use net_lattice::Verdict;

fn network() -> Network {
    Network::from(Ipv4Network::new(
        Ipv4Address::new(192, 0, 2, 0),
        Ipv4PrefixLength::new(24).expect("valid prefix"),
    ))
}

fn sample() -> CurrentState {
    CurrentState {
        routes: vec![Route::new(RouteId::new(1), network())],
        interfaces: vec![Interface::new(
            InterfaceId::new(1),
            1,
            "eth0",
            InterfaceKind::Ethernet,
        )],
        neighbors: vec![NeighborEntry::new(
            NeighborId::new(1),
            1,
            IpAddress::from(Ipv4Address::new(192, 0, 2, 1)),
        )],
        addresses: vec![InterfaceAddress::new(
            InterfaceAddressId::new(1),
            1,
            network(),
        )],
        dns: DnsConfig::new(),
        firewall_rules: vec![FirewallRule::new(
            Direction::Inbound,
            Verdict::Deny,
        )],
    }
}

#[test]
fn constructs_from_every_domain_field() {
    let state = sample();
    assert_eq!(state.routes.len(), 1);
    assert_eq!(state.interfaces.len(), 1);
    assert_eq!(state.neighbors.len(), 1);
    assert_eq!(state.addresses.len(), 1);
    assert_eq!(state.dns, DnsConfig::new());
    assert_eq!(state.firewall_rules.len(), 1);
}

#[test]
fn snapshot_equal_when_every_field_matches() {
    assert_eq!(sample(), sample());
}

#[test]
fn snapshot_differs_when_one_domain_changes() {
    let mut other = sample();
    other.routes.push(Route::new(RouteId::new(2), network()));
    assert_ne!(sample(), other);
}

#[test]
fn empty_state_is_distinct_from_populated_state() {
    let empty = CurrentState {
        routes: Vec::new(),
        interfaces: Vec::new(),
        neighbors: Vec::new(),
        addresses: Vec::new(),
        dns: DnsConfig::new(),
        firewall_rules: Vec::new(),
    };
    assert_ne!(empty, sample());
    assert!(empty.routes.is_empty());
    assert!(empty.interfaces.is_empty());
    assert!(empty.neighbors.is_empty());
    assert!(empty.addresses.is_empty());
    assert!(empty.firewall_rules.is_empty());
}

#[test]
fn snapshot_clone_produces_an_equal_value() {
    let state = sample();
    assert_eq!(state.clone(), state);
}
