use net_lattice::Direction;
use net_lattice::FirewallPolicy;
use net_lattice::FirewallRule;
use net_lattice::Ipv4Address;
use net_lattice::Ipv4Network;
use net_lattice::Ipv4PrefixLength;
use net_lattice::Network;
use net_lattice::PortRange;
use net_lattice::Protocol;
use net_lattice::Verdict;

fn remote() -> Network {
    Network::from(Ipv4Network::new(
        Ipv4Address::new(10, 0, 0, 0),
        Ipv4PrefixLength::new(24).unwrap(),
    ))
}

#[test]
fn new_rule_matches_everything_on_its_direction() {
    let rule = FirewallRule::new(Direction::Outbound, Verdict::Deny);
    assert!(rule.interface_index.is_none());
    assert!(rule.remote.is_none());
    assert!(rule.protocol.is_none());
    assert!(rule.port.is_none());
    assert_eq!(rule.verdict, Verdict::Deny);
}

#[test]
fn firewall_builder_methods_set_optional_fields() {
    let rule = FirewallRule::new(Direction::Outbound, Verdict::Allow)
        .with_interface_index(4)
        .with_remote(remote())
        .with_protocol(Protocol::Udp)
        .with_port(PortRange::single(53));

    assert_eq!(rule.interface_index, Some(4));
    assert_eq!(rule.remote, Some(remote()));
    assert_eq!(rule.protocol, Some(Protocol::Udp));
    assert_eq!(rule.port, Some(PortRange::single(53)));
}

#[test]
fn port_range_single_has_equal_bounds() {
    let port = PortRange::single(443);
    assert_eq!(port.start, 443);
    assert_eq!(port.end, 443);
}

#[test]
fn policy_default_verdict_applies_with_no_rules() {
    let policy = FirewallPolicy::new(Verdict::Deny);
    assert!(policy.rules.is_empty());
    assert_eq!(policy.default_verdict, Verdict::Deny);
}

#[test]
fn policy_with_rule_preserves_insertion_order() {
    let allow_dns = FirewallRule::new(Direction::Outbound, Verdict::Allow)
        .with_protocol(Protocol::Udp)
        .with_port(PortRange::single(53));
    let deny_rest = FirewallRule::new(Direction::Outbound, Verdict::Deny);

    let policy = FirewallPolicy::new(Verdict::Allow)
        .with_rule(allow_dns)
        .with_rule(deny_rest);

    assert_eq!(policy.rules, vec![allow_dns, deny_rest]);
}
