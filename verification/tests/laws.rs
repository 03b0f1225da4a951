use net_lattice::backend::check_static_neighbor_removal;
use net_lattice::backend::confirm_address;
use net_lattice::backend::truncated_index;
use net_lattice::firewall::same_rules;
use net_lattice::identity::address_row;
use net_lattice::identity::hash_rows;
use net_lattice::identity::network_row;
use net_lattice::identity::optional_address_row;
use net_lattice::identity::synthesize_neighbor_id;
use net_lattice::mask::count_leading_ones;
use net_lattice::mask::ipv6_prefix_mask;
use net_lattice::ApplyPlan;
use net_lattice::ApplyStep;
use net_lattice::ChangeKind;
use net_lattice::CurrentState;
use net_lattice::DesiredState;
use net_lattice::Diff;
use net_lattice::Direction;
use net_lattice::DnsConfig;
use net_lattice::Error;
use net_lattice::Event;
use net_lattice::EventDomain;
use net_lattice::EventFilter;
use net_lattice::FirewallPolicy;
use net_lattice::FirewallRule;
use net_lattice::InterfaceAddress;
use net_lattice::InterfaceAddressId;
use net_lattice::InterfaceId;
use net_lattice::IpAddress;
use net_lattice::Ipv4Address;
use net_lattice::Ipv4Network;
use net_lattice::Ipv4PrefixLength;
use net_lattice::Ipv6Address;
use net_lattice::Ipv6Network;
use net_lattice::Ipv6PrefixLength;
use net_lattice::MacAddress;
use net_lattice::Mutation;
use net_lattice::MutationOperationReport;
use net_lattice::MutationOutcome;
use net_lattice::MutationPlan;
use net_lattice::MutationPlanReport;
use net_lattice::NeighborEntry;
use net_lattice::NeighborId;
use net_lattice::NeighborState;
use net_lattice::Network;
use net_lattice::NewDnsConfig;
use net_lattice::RollbackStatus;
use net_lattice::Route;
use net_lattice::RouteChange;
use net_lattice::RouteConfig;
use net_lattice::RouteId;
use net_lattice::Verdict;

fn v4(a: u8, b: u8, c: u8, d: u8) -> IpAddress {
    IpAddress::from(Ipv4Address::new(a, b, c, d))
}

fn network(octet: u8) -> Network {
    Network::from(Ipv4Network::new(
        Ipv4Address::new(192, 0, 2, octet),
        Ipv4PrefixLength::new(32).unwrap(),
    ))
}

fn state_with_routes(routes: Vec<Route>) -> CurrentState {
    CurrentState::new(
        routes,
        Vec::new(),
        Vec::new(),
        Vec::new(),
        DnsConfig::new(),
        Vec::new(),
    )
}

#[test]
fn ipv4_text_reads_back_and_malformed_text_does_not() {
    for (octets, text) in [
        ([0, 0, 0, 0], "0.0.0.0"),
        ([255, 255, 255, 255], "255.255.255.255"),
        ([192, 0, 2, 33], "192.0.2.33"),
    ] {
        let address = Ipv4Address::from_octets(octets);
        assert_eq!(address.to_string(), text);
        assert_eq!(Ipv4Address::parse(text), Some(address));
        assert_eq!(address.octets(), octets);
    }
    for text in ["", "1.2.3", "1.2.3.4.5", "256.0.0.1", "01.2.3.4", "1.2.3.x", " 1.2.3.4"] {
        assert_eq!(Ipv4Address::parse(text), None, "{text}");
    }
}

#[test]
fn ipv6_text_is_canonical_and_reads_back() {
    for (groups, text) in [
        ([0, 0, 0, 0, 0, 0, 0, 0], "::"),
        ([0, 0, 0, 0, 0, 0, 0, 1], "::1"),
        ([1, 0, 0, 0, 0, 0, 0, 0], "1::"),
        ([0x2001, 0xdb8, 0, 0, 1, 0, 0, 1], "2001:db8::1:0:0:1"),
        ([0x2001, 0xdb8, 0, 1, 1, 1, 1, 1], "2001:db8:0:1:1:1:1:1"),
        ([0, 0, 0, 0, 0, 0xffff, 0xc000, 0x201], "::ffff:192.0.2.1"),
        ([0xfe80, 0, 0, 0, 0xabcd, 0, 0, 0xf], "fe80::abcd:0:0:f"),
    ] {
        let address = Ipv6Address::new(groups);
        assert_eq!(address.to_string(), text);
        assert_eq!(Ipv6Address::parse(text), Some(address), "{text}");
        assert_eq!(address.segments(), groups);
        assert_eq!(Ipv6Address::from_octets(address.octets()), address);
    }
    for text in ["", ":", ":::", "1::2::3", "1:2:3:4:5:6:7", "12345::", "g::", "1.2.3.4"] {
        assert_eq!(Ipv6Address::parse(text), None, "{text}");
    }
}

#[test]
fn masks_count_back_to_their_prefix() {
    for prefix in 0..=128u32 {
        let mask = ipv6_prefix_mask(prefix).to_vec();
        assert_eq!(count_leading_ones(&mask) as u32, prefix);
    }
}

#[test]
fn networks_are_their_parts() {
    let address = v4(192, 0, 2, 7);
    let found = Network::from_parts(address, 24).expect("valid prefix");
    assert_eq!(found.address(), address);
    assert_eq!(found.prefix_len(), 24);
    assert_eq!(Network::from_parts(address, 33), None);
    let six = IpAddress::from(Ipv6Address::new([1, 0, 0, 0, 0, 0, 0, 0]));
    assert_eq!(
        Network::from_parts(six, 128),
        Some(Network::from(Ipv6Network::new(
            Ipv6Address::new([1, 0, 0, 0, 0, 0, 0, 0]),
            Ipv6PrefixLength::new(128).unwrap(),
        )))
    );
    assert_eq!(Network::from_parts(six, 129), None);
}

#[test]
fn what_is_hashed_tells_keys_apart() {
    assert_ne!(address_row(&v4(0, 0, 0, 0)), optional_address_row(&None));
    assert_ne!(
        network_row(&network(1)),
        network_row(&Network::from_parts(v4(192, 0, 2, 1), 31).unwrap())
    );
    assert_eq!(address_row(&v4(1, 2, 3, 4)), vec![4, 1, 2, 3, 4]);
    assert_eq!(
        hash_rows(&vec![vec![1], vec![2]]),
        hash_rows(&vec![vec![1], vec![2]])
    );
    assert_eq!(
        synthesize_neighbor_id(7, &v4(192, 0, 2, 1)),
        synthesize_neighbor_id(7, &v4(192, 0, 2, 1))
    );
    assert_ne!(
        synthesize_neighbor_id(7, &v4(192, 0, 2, 1)),
        synthesize_neighbor_id(8, &v4(192, 0, 2, 1))
    );
}

#[test]
fn route_changes_lead_from_what_is_to_what_is_wanted() {
    let kept = Route::new(RouteId::new(1), network(1));
    let gone = Route::new(RouteId::new(2), network(2));
    let current = state_with_routes(vec![kept.clone(), gone.clone()]);
    let wanted = RouteConfig::new(network(3));
    let desired = DesiredState::empty()
        .with_routes(vec![RouteConfig::new(network(1)), wanted, wanted]);
    let diff = Diff::compute(&current, &desired);
    assert_eq!(diff.routes.len(), 2);
    assert!(diff.routes.contains(&RouteChange::Added(wanted)));
    assert!(diff.routes.contains(&RouteChange::Removed(gone)));

    let plan = ApplyPlan::compile(&diff);
    assert_eq!(plan.len(), 2);
    assert!(plan
        .steps()
        .iter()
        .all(|step| matches!(step, ApplyStep::Single(_))));

    let emptied = Diff::compute(&current, &DesiredState::empty().with_routes(Vec::new()));
    assert_eq!(emptied.routes.len(), 2);
    let settled = Diff::compute(
        &state_with_routes(vec![kept]),
        &DesiredState::empty().with_routes(vec![RouteConfig::new(network(1))]),
    );
    assert!(settled.routes.is_empty());
}

#[test]
fn a_firewall_domain_is_compared_by_its_rules() {
    let rule = FirewallRule::new(Direction::Outbound, Verdict::Deny);
    let current = CurrentState::new(
        Vec::new(),
        Vec::new(),
        Vec::new(),
        Vec::new(),
        DnsConfig::new(),
        vec![rule],
    );
    let same = FirewallPolicy::new(Verdict::Allow).with_rule(rule);
    let diff = Diff::compute(&current, &DesiredState::empty().with_firewall(same));
    assert!(diff.firewall.is_none());

    let other = FirewallPolicy::new(Verdict::Allow);
    let diff = Diff::compute(&current, &DesiredState::empty().with_firewall(other.clone()));
    let change = diff.firewall.as_ref().expect("rules differ");
    assert_eq!(change.current, vec![rule]);
    assert_eq!(change.desired, other);
    assert_eq!(
        ApplyPlan::compile(&diff).step(0),
        Some(&ApplyStep::Single(Mutation::SetFirewallPolicy(other)))
    );
    assert!(Diff::compute(&current, &DesiredState::empty()).firewall.is_none());
    assert!(same_rules(&vec![rule], &vec![rule]));
    assert!(!same_rules(&vec![rule], &Vec::new()));
}

#[test]
fn selecting_a_whole_domain_widens_a_narrowed_one() {
    let filter = EventFilter::none().route(RouteId::new(1)).routes();
    assert!(filter.matches(Event::Route {
        id: RouteId::new(2),
        kind: ChangeKind::Added,
    }));
    let cleared = filter.without_domain(EventDomain::Interface);
    assert!(cleared.selects_domain(EventDomain::Route));
}

#[test]
fn preflight_lists_indices_and_reports_count_outcomes() {
    let plan = MutationPlan::from_operations(vec![
        Mutation::SetDnsConfig(NewDnsConfig::new()),
        Mutation::AddRoute(RouteConfig::new(network(1))),
        Mutation::SetFirewallPolicy(FirewallPolicy::new(Verdict::Allow)),
    ]);
    let preflight = plan.preflight();
    for index in preflight.prior_state_indices() {
        assert!(*index < plan.len());
    }
    assert!(preflight.prior_state_indices().contains(&1));
    assert!(preflight.partial_application_indices().contains(&0));

    let report = MutationPlanReport::new(Vec::new(), RollbackStatus::NotNeeded);
    assert!(report.is_empty());
    assert!(report.is_success());
    let report = MutationPlanReport::new(
        vec![MutationOutcome::Applied, MutationOutcome::NotAttempted],
        RollbackStatus::NotAttempted,
    );
    assert_eq!(report.applied_count() + report.not_attempted_count(), 2);
    assert_eq!(
        MutationOperationReport::not_attempted().duration,
        std::time::Duration::from_nanos(0)
    );
}

#[test]
fn what_was_just_written_is_looked_up_among_what_is_observed() {
    let observed = vec![
        InterfaceAddress::new(InterfaceAddressId::new(1), 3, network(1)),
        InterfaceAddress::new(InterfaceAddressId::new(2), 4, network(1)),
    ];
    assert_eq!(
        confirm_address(&observed, 4, network(1)).expect("observed").id,
        InterfaceAddressId::new(2)
    );
    assert!(matches!(
        confirm_address(&observed, 4, network(2)),
        Err(Error::InvalidState)
    ));
    assert_eq!(truncated_index(InterfaceId::new(0x1_0000_0007)), 7);

    let learned = NeighborEntry::new(NeighborId::new(1), 3, v4(192, 0, 2, 1))
        .with_mac(MacAddress::new([2, 0, 0, 0, 0, 1]))
        .with_state(NeighborState::Reachable);
    assert!(matches!(
        check_static_neighbor_removal(&vec![learned], 3, v4(192, 0, 2, 1)),
        Err(Error::InvalidState)
    ));
    assert!(matches!(
        check_static_neighbor_removal(&Vec::new(), 3, v4(192, 0, 2, 1)),
        Err(Error::NotFound)
    ));
}
