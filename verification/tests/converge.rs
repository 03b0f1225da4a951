use net_lattice::AdminState;
use net_lattice::ApplyPlan;
use net_lattice::ApplyStep;
use net_lattice::CurrentState;
use net_lattice::DesiredAdminState;
use net_lattice::DesiredState;
use net_lattice::Diff;
use net_lattice::Direction;
use net_lattice::DnsConfig;
use net_lattice::FirewallPolicy;
use net_lattice::FirewallRule;
use net_lattice::Interface;
use net_lattice::InterfaceAddress;
use net_lattice::InterfaceAddressId;
use net_lattice::InterfaceConfig;
use net_lattice::InterfaceId;
use net_lattice::InterfaceKind;
use net_lattice::IpAddress;
use net_lattice::Ipv4Address;
use net_lattice::Ipv4Network;
use net_lattice::Ipv4PrefixLength;
use net_lattice::MacAddress;
use net_lattice::Mutation;
use net_lattice::NeighborEntry;
use net_lattice::NeighborId;
use net_lattice::Network;
use net_lattice::NewDnsConfig;
use net_lattice::NewInterfaceAddress;
use net_lattice::Route;
use net_lattice::RouteConfig;
use net_lattice::RouteId;
use net_lattice::StaticNeighbor;
use net_lattice::Verdict;
use net_lattice::route::route_config_from_route;

fn v4(octet: u8) -> Ipv4Address {
    Ipv4Address::new(192, 0, 2, octet)
}

fn network(octet: u8) -> Network {
    Network::from(Ipv4Network::new(v4(octet), Ipv4PrefixLength::new(32).unwrap()))
}

fn index_of(id: InterfaceId) -> u32 {
    u32::try_from(id.value()).unwrap()
}

fn add_route(state: &mut CurrentState, config: &RouteConfig) {
    let mut route = Route::new(RouteId::new(100), config.destination);
    route.gateway = config.gateway;
    route.metric = config.metric;
    route.interface_index = config.interface_index;
    state.routes.push(route);
}

fn remove_route(state: &mut CurrentState, config: &RouteConfig) {
    state.routes.retain(|route| route_config_from_route(route) != *config);
}

fn submit(state: &mut CurrentState, mutation: &Mutation) {
    match mutation {
        Mutation::AddRoute(config) => add_route(state, config),
        Mutation::RemoveRoute(config) => remove_route(state, config),
        Mutation::SetInterfaceConfig(patch) => {
            for interface in state.interfaces.iter_mut() {
                if interface.id != patch.interface_id() {
                    continue;
                }
                match patch.admin_state() {
                    Some(DesiredAdminState::Up) => interface.admin_state = AdminState::Up,
                    Some(DesiredAdminState::Down) => interface.admin_state = AdminState::Down,
                    _ => {}
                }
                if let Some(mtu) = patch.mtu() {
                    interface.mtu = Some(mtu);
                }
            }
        }
        Mutation::AddStaticNeighbor(neighbor) => state.neighbors.push(
            NeighborEntry::new(
                NeighborId::new(100),
                index_of(neighbor.interface_id),
                neighbor.address,
            )
            .with_mac(neighbor.mac),
        ),
        Mutation::RemoveStaticNeighbor(neighbor) => state.neighbors.retain(|entry| {
            entry.interface_index != index_of(neighbor.interface_id)
                || entry.address != neighbor.address
        }),
        Mutation::AddAddress(request) => {
            let mut assigned = InterfaceAddress::new(
                InterfaceAddressId::new(100),
                index_of(request.interface_id),
                request.address,
            );
            assigned.broadcast = request.broadcast.map(IpAddress::from);
            state.addresses.push(assigned);
        }
        Mutation::RemoveAddress(assigned) => state.addresses.retain(|other| {
            other.interface_index != assigned.interface_index || other.address != assigned.address
        }),
        Mutation::SetDnsConfig(config) => {
            state.dns.nameservers = config.nameservers.clone();
            state.dns.search_domains = config.search_domains.clone();
        }
        Mutation::SetFirewallPolicy(policy) => state.firewall_rules = policy.rules.clone(),
        other => panic!("unexpected mutation {other:?}"),
    }
}

fn carry_out(state: &mut CurrentState, plan: &ApplyPlan) {
    for step in plan.steps() {
        match step {
            ApplyStep::ReplaceRoute { old, new } => {
                remove_route(state, &route_config_from_route(old));
                add_route(state, new);
            }
            ApplyStep::Single(mutation) => submit(state, mutation),
            other => panic!("unexpected step {other:?}"),
        }
    }
}

fn observed() -> CurrentState {
    let id = InterfaceId::new(2);
    CurrentState::new(
        vec![
            Route::new(RouteId::new(1), network(1)).with_metric(1),
            Route::new(RouteId::new(2), network(2)).with_metric(1),
            Route::new(RouteId::new(3), network(2)).with_metric(2),
            Route::new(RouteId::new(4), network(3)),
        ],
        vec![
            Interface::new(id, 2, "eth0", InterfaceKind::Ethernet)
                .with_mtu(1500)
                .with_admin_state(AdminState::Down),
            Interface::new(InterfaceId::new(3), 3, "eth1", InterfaceKind::Ethernet).with_mtu(9000),
        ],
        vec![
            NeighborEntry::new(NeighborId::new(1), 2, IpAddress::from(v4(10)))
                .with_mac(MacAddress::new([1, 2, 3, 4, 5, 6])),
            NeighborEntry::new(NeighborId::new(2), 2, IpAddress::from(v4(11))),
        ],
        vec![
            InterfaceAddress::new(InterfaceAddressId::new(1), 2, network(20)),
            InterfaceAddress::new(InterfaceAddressId::new(2), 2, network(21))
                .with_broadcast(IpAddress::from(v4(255))),
        ],
        DnsConfig::new(),
        vec![FirewallRule::new(Direction::Inbound, Verdict::Allow)],
    )
}

fn wanted() -> DesiredState {
    let id = InterfaceId::new(2);
    DesiredState::empty()
        .with_routes(vec![
            RouteConfig::new(network(1)).with_metric(9),
            RouteConfig::new(network(2)).with_metric(3),
            RouteConfig::new(network(3)),
            RouteConfig::new(network(4)),
            RouteConfig::new(network(4)),
        ])
        .with_interfaces(vec![
            InterfaceConfig::new(id, None, Some(1280)).unwrap(),
            InterfaceConfig::new(id, Some(DesiredAdminState::Up), Some(1400)).unwrap(),
        ])
        .with_neighbors(vec![
            StaticNeighbor::new(id, IpAddress::from(v4(10)), MacAddress::new([9; 6])),
            StaticNeighbor::new(id, IpAddress::from(v4(12)), MacAddress::new([8; 6])),
        ])
        .with_addresses(vec![
            NewInterfaceAddress::new(id, network(20)).with_broadcast(v4(250)),
            NewInterfaceAddress::new(id, network(21)),
            NewInterfaceAddress::new(id, network(22)),
        ])
        .with_dns(NewDnsConfig::with(vec![IpAddress::from(v4(53))], Vec::new()))
        .with_firewall(
            FirewallPolicy::new(Verdict::Deny)
                .with_rule(FirewallRule::new(Direction::Outbound, Verdict::Deny)),
        )
}

#[test]
fn carrying_out_a_plan_reaches_the_desired_state() {
    let mut state = observed();
    let desired = wanted();
    let plan = ApplyPlan::compile(&Diff::compute(&state, &desired));
    carry_out(&mut state, &plan);

    let routes: Vec<RouteConfig> = state.routes.iter().map(route_config_from_route).collect();
    assert_eq!(routes.len(), 4);
    for config in desired.routes.as_ref().unwrap() {
        assert!(routes.contains(config));
    }
    assert_eq!(state.interfaces[0].mtu, Some(1400));
    assert_eq!(state.interfaces[0].admin_state, AdminState::Up);
    assert_eq!(state.interfaces[1], observed().interfaces[1]);
    assert_eq!(state.neighbors.len(), 2);
    assert!(state.neighbors.iter().any(|entry| {
        entry.address == IpAddress::from(v4(10)) && entry.mac == Some(MacAddress::new([9; 6]))
    }));
    assert!(state.neighbors.iter().any(|entry| entry.address == IpAddress::from(v4(12))));
    let broadcast = |octet: u8| {
        let found = state.addresses.iter().find(|other| other.address == network(octet));
        found.unwrap().broadcast
    };
    assert_eq!(state.addresses.len(), 3);
    assert_eq!(broadcast(20), Some(IpAddress::from(v4(250))));
    assert_eq!(broadcast(21), Some(IpAddress::from(v4(255))));
    assert_eq!(broadcast(22), None);
    assert_eq!(state.dns.nameservers, vec![IpAddress::from(v4(53))]);
    assert_eq!(
        state.firewall_rules,
        vec![FirewallRule::new(Direction::Outbound, Verdict::Deny)]
    );
}

#[test]
fn a_reached_state_needs_no_steps() {
    let mut state = observed();
    let desired = wanted();
    let plan = ApplyPlan::compile(&Diff::compute(&state, &desired));
    carry_out(&mut state, &plan);
    let again = Diff::compute(&state, &desired);
    assert!(ApplyPlan::compile(&again).is_empty());
}

#[test]
fn unmanaged_domains_stay_as_they_were() {
    let mut state = observed();
    let desired = DesiredState::empty().with_routes(Vec::new());
    let plan = ApplyPlan::compile(&Diff::compute(&state, &desired));
    carry_out(&mut state, &plan);
    assert!(state.routes.is_empty());
    assert_eq!(state.interfaces, observed().interfaces);
    assert_eq!(state.neighbors, observed().neighbors);
    assert_eq!(state.addresses, observed().addresses);
    assert_eq!(state.dns, observed().dns);
    assert_eq!(state.firewall_rules, observed().firewall_rules);
}
