use net_lattice::AddressChange;
use net_lattice::AdminState;
use net_lattice::ApplyPlan;
use net_lattice::ApplyPlanReport;
use net_lattice::ApplyStep;
use net_lattice::ApplyStepOutcome;
use net_lattice::Change;
use net_lattice::CurrentState;
use net_lattice::DesiredAdminState;
use net_lattice::DesiredState;
use net_lattice::Diff;
use net_lattice::DnsChange;
use net_lattice::DnsConfig;
use net_lattice::Error;
use net_lattice::FirewallChange;
use net_lattice::FirewallPolicy;
use net_lattice::Interface;
use net_lattice::InterfaceAddress;
use net_lattice::InterfaceAddressId;
use net_lattice::InterfaceConfig;
use net_lattice::InterfaceDiff;
use net_lattice::InterfaceId;
use net_lattice::InterfaceKind;
use net_lattice::IpAddress;
use net_lattice::Ipv4Address;
use net_lattice::Ipv4Network;
use net_lattice::Ipv4PrefixLength;
use net_lattice::MacAddress;
use net_lattice::Mutation;
use net_lattice::MutationConfirmation;
use net_lattice::MutationExecutionPhase;
use net_lattice::MutationIdempotency;
use net_lattice::MutationKind;
use net_lattice::MutationOperationReport;
use net_lattice::MutationPrecondition;
use net_lattice::MutationPrivilege;
use net_lattice::MutationReversibility;
use net_lattice::NeighborChange;
use net_lattice::NeighborEntry;
use net_lattice::NeighborId;
use net_lattice::Network;
use net_lattice::NewDnsConfig;
use net_lattice::NewInterfaceAddress;
use net_lattice::NonConvergentReason;
use net_lattice::RollbackStatus;
use net_lattice::Route;
use net_lattice::RouteChange;
use net_lattice::RouteConfig;
use net_lattice::RouteId;
use net_lattice::StaticNeighbor;
use net_lattice::Verdict;
use net_lattice::route::route_config_from_route;

fn network(octet: u8) -> Network {
    Network::from(Ipv4Network::new(
        Ipv4Address::new(192, 0, 2, octet),
        Ipv4PrefixLength::new(32).expect("valid prefix"),
    ))
}

fn empty_diff() -> Diff {
    Diff {
        routes: Vec::new(),
        interfaces: Vec::new(),
        neighbors: Vec::new(),
        addresses: Vec::new(),
        dns: None,
        firewall: None,
    }
}

#[test]
fn empty_diff_compiles_to_empty_plan() {
    let plan = ApplyPlan::compile(&empty_diff());
    assert!(plan.is_empty());
    assert_eq!(plan.len(), 0);
    assert!(plan.steps().is_empty());
}

#[test]
fn unmanaged_diff_from_compute_compiles_to_empty_plan() {
    let current = CurrentState::new(
        Vec::new(),
        Vec::new(),
        Vec::new(),
        Vec::new(),
        DnsConfig::new(),
        Vec::new(),
    );
    let desired = DesiredState::empty();
    let diff = Diff::compute(&current, &desired);
    let plan = ApplyPlan::compile(&diff);
    assert!(plan.is_empty());
}

#[test]
fn matched_pair_at_one_destination_compiles_to_one_replace_route() {
    let old = Route::new(RouteId::new(1), network(0)).with_interface_index(1);
    let new = RouteConfig::new(network(0)).with_interface_index(2);
    let diff = Diff {
        routes: vec![RouteChange::Removed(old.clone()), RouteChange::Added(new)],
        ..empty_diff()
    };
    let plan = ApplyPlan::compile(&diff);
    assert_eq!(plan.len(), 1);
    assert_eq!(plan.step(0), Some(&ApplyStep::ReplaceRoute { old, new }));
}

#[test]
fn unmatched_bare_added_produces_an_independent_single_step() {
    let new = RouteConfig::new(network(0));
    let diff = Diff {
        routes: vec![RouteChange::Added(new)],
        ..empty_diff()
    };
    let plan = ApplyPlan::compile(&diff);
    assert_eq!(plan.len(), 1);
    assert_eq!(
        plan.step(0),
        Some(&ApplyStep::Single(Mutation::AddRoute(new)))
    );
}

#[test]
fn unmatched_bare_removed_produces_an_independent_single_step() {
    let old = Route::new(RouteId::new(1), network(0))
        .with_gateway(IpAddress::from(Ipv4Address::new(192, 0, 2, 254)));
    let diff = Diff {
        routes: vec![RouteChange::Removed(old.clone())],
        ..empty_diff()
    };
    let plan = ApplyPlan::compile(&diff);
    assert_eq!(plan.len(), 1);
    assert_eq!(
        plan.step(0),
        Some(&ApplyStep::Single(Mutation::RemoveRoute(
            route_config_from_route(&old)
        )))
    );
}

#[test]
fn multipath_destination_with_two_added_never_produces_a_replace_route() {
    let first = RouteConfig::new(network(0)).with_interface_index(1);
    let second = RouteConfig::new(network(0)).with_interface_index(2);
    let diff = Diff {
        routes: vec![RouteChange::Added(first), RouteChange::Added(second)],
        ..empty_diff()
    };
    let plan = ApplyPlan::compile(&diff);
    assert_eq!(plan.len(), 2);
    assert!(
        plan.steps()
            .iter()
            .all(|step| matches!(step, ApplyStep::Single(Mutation::AddRoute(_))))
    );
    assert_eq!(
        plan.step(0),
        Some(&ApplyStep::Single(Mutation::AddRoute(first)))
    );
    assert_eq!(
        plan.step(1),
        Some(&ApplyStep::Single(Mutation::AddRoute(second)))
    );
}

#[test]
fn multipath_destination_with_two_added_and_two_removed_never_produces_a_replace_route() {
    let old_a = Route::new(RouteId::new(1), network(0)).with_interface_index(1);
    let old_b = Route::new(RouteId::new(2), network(0)).with_interface_index(2);
    let new_a = RouteConfig::new(network(0)).with_interface_index(3);
    let new_b = RouteConfig::new(network(0)).with_interface_index(4);
    let diff = Diff {
        routes: vec![
            RouteChange::Removed(old_a.clone()),
            RouteChange::Removed(old_b.clone()),
            RouteChange::Added(new_a),
            RouteChange::Added(new_b),
        ],
        ..empty_diff()
    };
    let plan = ApplyPlan::compile(&diff);
    assert_eq!(plan.len(), 4);
    assert!(
        plan.steps()
            .iter()
            .all(|step| matches!(step, ApplyStep::Single(_)))
    );
}

#[test]
fn route_grouping_preserves_original_order_for_independent_steps() {
    let unrelated_added = RouteConfig::new(network(1));
    let old = Route::new(RouteId::new(1), network(0));
    let new = RouteConfig::new(network(0)).with_metric(9);
    let diff = Diff {
        routes: vec![
            RouteChange::Added(unrelated_added),
            RouteChange::Removed(old.clone()),
            RouteChange::Added(new),
        ],
        ..empty_diff()
    };
    let plan = ApplyPlan::compile(&diff);
    assert_eq!(plan.len(), 2);
    assert_eq!(
        plan.step(0),
        Some(&ApplyStep::Single(Mutation::AddRoute(unrelated_added)))
    );
    assert_eq!(plan.step(1), Some(&ApplyStep::ReplaceRoute { old, new }));
}

#[test]
fn single_route_step_semantics_delegates_to_mutation_semantics() {
    let config = RouteConfig::new(network(0));
    let step = ApplyStep::Single(Mutation::AddRoute(config));
    assert_eq!(step.semantics(), Mutation::AddRoute(config).semantics());
}

#[test]
fn replace_route_step_semantics_synthesizes_a_replace_contract() {
    let old = Route::new(RouteId::new(1), network(0));
    let new = RouteConfig::new(network(0)).with_metric(1);
    let step = ApplyStep::ReplaceRoute { old, new };
    let semantics = step.semantics();
    assert_eq!(semantics.kind, MutationKind::ReplaceRoute);
    assert_eq!(semantics.precondition, MutationPrecondition::Any);
    assert_eq!(semantics.idempotency, MutationIdempotency::Replace);
    assert_eq!(semantics.privilege, MutationPrivilege::Elevated);
    assert_eq!(semantics.confirmation, MutationConfirmation::ReadAfterWrite);
    assert_eq!(
        semantics.reversibility,
        MutationReversibility::RequiresPriorState
    );
    assert!(semantics.may_partially_apply);
}

#[test]
fn interface_diff_compiles_to_set_interface_config_forwarding_only_populated_fields() {
    let diff = Diff {
        interfaces: vec![InterfaceDiff {
            interface_id: InterfaceId::new(1),
            admin_state: Some(Change {
                current: AdminState::Down,
                desired: DesiredAdminState::Up,
            }),
            mtu: None,
        }],
        ..empty_diff()
    };
    let plan = ApplyPlan::compile(&diff);
    assert_eq!(plan.len(), 1);
    let ApplyStep::Single(Mutation::SetInterfaceConfig(patch)) = plan.step(0).unwrap() else {
        panic!("expected a SetInterfaceConfig step");
    };
    assert_eq!(patch.interface_id(), InterfaceId::new(1));
    assert_eq!(patch.admin_state(), Some(DesiredAdminState::Up));
    assert_eq!(patch.mtu(), None);
}

#[test]
fn interface_diff_with_both_fields_forwards_both() {
    let diff = Diff {
        interfaces: vec![InterfaceDiff {
            interface_id: InterfaceId::new(1),
            admin_state: Some(Change {
                current: AdminState::Down,
                desired: DesiredAdminState::Up,
            }),
            mtu: Some(Change {
                current: 1500,
                desired: 9000,
            }),
        }],
        ..empty_diff()
    };
    let plan = ApplyPlan::compile(&diff);
    let ApplyStep::Single(Mutation::SetInterfaceConfig(patch)) = plan.step(0).unwrap() else {
        panic!("expected a SetInterfaceConfig step");
    };
    assert_eq!(patch.admin_state(), Some(DesiredAdminState::Up));
    assert_eq!(patch.mtu(), Some(9000));
}

#[test]
fn interface_diff_via_diff_compute_end_to_end_never_forwards_unrequested_fields() {
    let interface = Interface::new(InterfaceId::new(1), 1, "eth0", InterfaceKind::Ethernet)
        .with_admin_state(AdminState::Down)
        .with_mtu(1500);
    let config = InterfaceConfig::new(
        InterfaceId::new(1),
        Some(DesiredAdminState::Up),
        None,
    )
    .expect("valid patch");
    let current = CurrentState {
        interfaces: vec![interface],
        ..CurrentState::new(
            Vec::new(),
            Vec::new(),
            Vec::new(),
            Vec::new(),
            DnsConfig::new(),
            Vec::new(),
        )
    };
    let desired = DesiredState::empty().with_interfaces(vec![config]);
    let diff = Diff::compute(&current, &desired);
    let plan = ApplyPlan::compile(&diff);
    assert_eq!(plan.len(), 1);
    let ApplyStep::Single(Mutation::SetInterfaceConfig(patch)) = plan.step(0).unwrap() else {
        panic!("expected a SetInterfaceConfig step");
    };
    assert_eq!(patch.mtu(), None);
}

fn neighbor_address() -> IpAddress {
    IpAddress::from(Ipv4Address::new(192, 0, 2, 1))
}

#[test]
fn neighbor_added_compiles_to_add_static_neighbor() {
    let mac = MacAddress::new([0x02, 0x00, 0x00, 0x00, 0x00, 0x01]);
    let desired = StaticNeighbor::new(InterfaceId::new(1), neighbor_address(), mac);
    let diff = Diff {
        neighbors: vec![NeighborChange::Added(desired)],
        ..empty_diff()
    };
    let plan = ApplyPlan::compile(&diff);
    assert_eq!(
        plan.step(0),
        Some(&ApplyStep::Single(Mutation::AddStaticNeighbor(desired)))
    );
}

#[test]
fn neighbor_removed_compiles_to_remove_static_neighbor() {
    let mac = MacAddress::new([0x02, 0x00, 0x00, 0x00, 0x00, 0x01]);
    let entry = NeighborEntry::new(NeighborId::new(1), 1, neighbor_address()).with_mac(mac);
    let diff = Diff {
        neighbors: vec![NeighborChange::Removed(entry)],
        ..empty_diff()
    };
    let plan = ApplyPlan::compile(&diff);
    assert_eq!(
        plan.step(0),
        Some(&ApplyStep::Single(Mutation::RemoveStaticNeighbor(
            StaticNeighbor::new(InterfaceId::new(1), neighbor_address(), mac)
        )))
    );
}

#[test]
fn neighbor_changed_compiles_to_remove_then_add_in_that_order() {
    let mac_a = MacAddress::new([0x02, 0x00, 0x00, 0x00, 0x00, 0x01]);
    let mac_b = MacAddress::new([0x02, 0x00, 0x00, 0x00, 0x00, 0x02]);
    let current = NeighborEntry::new(NeighborId::new(1), 1, neighbor_address()).with_mac(mac_a);
    let desired = StaticNeighbor::new(InterfaceId::new(1), neighbor_address(), mac_b);
    let diff = Diff {
        neighbors: vec![NeighborChange::Changed { current, desired }],
        ..empty_diff()
    };
    let plan = ApplyPlan::compile(&diff);
    assert_eq!(plan.len(), 2);
    assert_eq!(
        plan.step(0),
        Some(&ApplyStep::Single(Mutation::RemoveStaticNeighbor(
            StaticNeighbor::new(InterfaceId::new(1), neighbor_address(), mac_a)
        )))
    );
    assert_eq!(
        plan.step(1),
        Some(&ApplyStep::Single(Mutation::AddStaticNeighbor(desired)))
    );
}

#[test]
fn address_added_compiles_to_add_address() {
    let desired = NewInterfaceAddress::new(InterfaceId::new(1), network(0));
    let diff = Diff {
        addresses: vec![AddressChange::Added(desired.clone())],
        ..empty_diff()
    };
    let plan = ApplyPlan::compile(&diff);
    assert_eq!(
        plan.step(0),
        Some(&ApplyStep::Single(Mutation::AddAddress(desired)))
    );
}

#[test]
fn address_removed_compiles_to_remove_address() {
    let observed = InterfaceAddress::new(InterfaceAddressId::new(1), 1, network(0));
    let diff = Diff {
        addresses: vec![AddressChange::Removed(observed.clone())],
        ..empty_diff()
    };
    let plan = ApplyPlan::compile(&diff);
    assert_eq!(
        plan.step(0),
        Some(&ApplyStep::Single(Mutation::RemoveAddress(observed)))
    );
}

#[test]
fn address_changed_compiles_to_remove_then_add_in_that_order() {
    let current = InterfaceAddress::new(InterfaceAddressId::new(1), 1, network(0))
        .with_broadcast(IpAddress::from(Ipv4Address::new(192, 0, 2, 255)));
    let desired = NewInterfaceAddress::new(InterfaceId::new(1), network(0))
        .with_broadcast(Ipv4Address::new(192, 0, 2, 254));
    let diff = Diff {
        addresses: vec![AddressChange::Changed {
            current: current.clone(),
            desired: desired.clone(),
        }],
        ..empty_diff()
    };
    let plan = ApplyPlan::compile(&diff);
    assert_eq!(plan.len(), 2);
    assert_eq!(
        plan.step(0),
        Some(&ApplyStep::Single(Mutation::RemoveAddress(current)))
    );
    assert_eq!(
        plan.step(1),
        Some(&ApplyStep::Single(Mutation::AddAddress(desired)))
    );
}

#[test]
fn dns_change_compiles_to_set_dns_config() {
    let current = DnsConfig::new();
    let desired = NewDnsConfig::with(
        vec![IpAddress::from(Ipv4Address::new(1, 1, 1, 1))],
        Vec::new(),
    );
    let diff = Diff {
        dns: Some(DnsChange {
            current,
            desired: desired.clone(),
        }),
        ..empty_diff()
    };
    let plan = ApplyPlan::compile(&diff);
    assert_eq!(
        plan.step(0),
        Some(&ApplyStep::Single(Mutation::SetDnsConfig(desired)))
    );
}

#[test]
fn dns_none_produces_no_step() {
    let diff = Diff {
        dns: None,
        ..empty_diff()
    };
    let plan = ApplyPlan::compile(&diff);
    assert!(plan.is_empty());
}

#[test]
fn firewall_change_compiles_to_set_firewall_policy() {
    let desired_policy = FirewallPolicy::new(Verdict::Allow);
    let diff = Diff {
        firewall: Some(FirewallChange {
            current: Vec::new(),
            desired: desired_policy.clone(),
        }),
        ..empty_diff()
    };
    let plan = ApplyPlan::compile(&diff);
    assert_eq!(
        plan.step(0),
        Some(&ApplyStep::Single(Mutation::SetFirewallPolicy(
            desired_policy
        )))
    );
}

#[test]
fn firewall_none_produces_no_step() {
    let diff = Diff {
        firewall: None,
        ..empty_diff()
    };
    let plan = ApplyPlan::compile(&diff);
    assert!(plan.is_empty());
}

#[test]
fn from_steps_and_into_iter_round_trip_declared_order() {
    let first = ApplyStep::Single(Mutation::AddRoute(RouteConfig::new(network(0))));
    let second = ApplyStep::Single(Mutation::RemoveRoute(RouteConfig::new(network(1))));
    let plan = ApplyPlan::from_steps(vec![first.clone(), second.clone()]);
    assert_eq!(plan.steps(), [first.clone(), second.clone()]);
    assert_eq!(plan.into_iter(), vec![first, second]);
}

#[test]
fn apply_plan_report_counts_every_outcome_kind() {
    let report = ApplyPlanReport::new(
        vec![
            ApplyStepOutcome::Applied,
            ApplyStepOutcome::Failed {
                error: Error::PermissionDenied,
                may_have_applied: true,
            },
            ApplyStepOutcome::NotAttempted,
            ApplyStepOutcome::Rejected {
                error: Error::Unsupported,
            },
            ApplyStepOutcome::NonConvergent {
                reason: NonConvergentReason::StalePrecondition,
            },
        ],
        RollbackStatus::NotAttempted,
    );

    assert!(!report.is_success());
    assert_eq!(report.len(), 5);
    assert!(!report.is_empty());
    assert_eq!(report.applied_count(), 1);
    assert_eq!(report.not_attempted_count(), 1);
    assert_eq!(report.rejected_count(), 1);
    assert_eq!(report.non_convergent_count(), 1);
    assert!(matches!(report.rollback(), RollbackStatus::NotAttempted));
    assert_eq!(report.operation_reports().len(), 5);
    assert!(report.operation_report(4).is_some());
    assert!(report.outcome(5).is_none());
    assert!(matches!(
        report.outcome(1),
        Some(ApplyStepOutcome::Failed {
            may_have_applied: true,
            ..
        })
    ));
}

#[test]
fn apply_plan_report_with_operation_reports_preserves_supplied_metadata() {
    let operation_reports = [
        MutationOperationReport {
            phase: MutationExecutionPhase::Execution,
            duration: std::time::Duration::from_millis(3),
            stop_reason: None,
        },
        MutationOperationReport::not_attempted(),
    ];
    let report = ApplyPlanReport::with_operation_reports(
        vec![ApplyStepOutcome::Applied, ApplyStepOutcome::NotAttempted],
        RollbackStatus::NotNeeded,
        operation_reports.to_vec(),
    );

    assert!(!report.is_success());
    assert_eq!(report.applied_count(), 1);
    assert_eq!(report.not_attempted_count(), 1);
    assert_eq!(report.operation_reports(), operation_reports);
}

#[test]
fn apply_plan_report_all_applied_is_success() {
    let report = ApplyPlanReport::new(
        vec![ApplyStepOutcome::Applied, ApplyStepOutcome::Applied],
        RollbackStatus::NotNeeded,
    );
    assert!(report.is_success());
    assert_eq!(report.applied_count(), 2);
    assert_eq!(report.rejected_count(), 0);
    assert_eq!(report.non_convergent_count(), 0);
}
