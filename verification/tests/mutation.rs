use net_lattice::DesiredAdminState;
use net_lattice::Error;
use net_lattice::InterfaceAddress;
use net_lattice::InterfaceAddressId;
use net_lattice::InterfaceConfig;
use net_lattice::InterfaceId;
use net_lattice::IpAddress;
use net_lattice::Ipv4Address;
use net_lattice::Ipv4Network;
use net_lattice::Ipv4PrefixLength;
use net_lattice::MacAddress;
use net_lattice::Mutation;
use net_lattice::MutationConfirmation;
use net_lattice::MutationIdempotency;
use net_lattice::MutationKind;
use net_lattice::MutationOutcome;
use net_lattice::MutationPlan;
use net_lattice::MutationPlanReport;
use net_lattice::MutationPrecondition;
use net_lattice::MutationPrivilege;
use net_lattice::MutationReversibility;
use net_lattice::MutationSnapshot;
use net_lattice::Network;
use net_lattice::NewDnsConfig;
use net_lattice::NewInterfaceAddress;
use net_lattice::RollbackStatus;
use net_lattice::RouteConfig;
use net_lattice::StaticNeighbor;

fn network() -> Network {
    Network::from(Ipv4Network::new(
        Ipv4Address::new(192, 0, 2, 0),
        Ipv4PrefixLength::new(24).expect("valid prefix"),
    ))
}

#[test]
fn dns_replacement_exposes_partial_application_risk() {
    let operation = Mutation::SetDnsConfig(NewDnsConfig::with(
        vec![IpAddress::from(Ipv4Address::new(1, 1, 1, 1))],
        Vec::new(),
    ));
    assert_eq!(
        operation.semantics().precondition,
        MutationPrecondition::Any
    );
    assert_eq!(
        operation.semantics().idempotency,
        MutationIdempotency::Replace
    );
    assert!(operation.semantics().may_partially_apply);
    assert_eq!(
        operation.semantics().confirmation,
        MutationConfirmation::ReadAfterWrite
    );
    assert_eq!(
        operation.semantics().reversibility,
        MutationReversibility::NotGuaranteed
    );
}

#[test]
fn address_addition_has_an_observed_readback_contract() {
    let operation = Mutation::AddAddress(NewInterfaceAddress::new(
        InterfaceId::new(2),
        network(),
    ));
    assert_eq!(
        operation.semantics().confirmation,
        MutationConfirmation::ReadAfterWrite
    );
    assert_eq!(
        operation.semantics().precondition,
        MutationPrecondition::Absent
    );
    assert_eq!(
        operation.semantics().reversibility,
        MutationReversibility::RequiresPriorState
    );
    assert!(!operation.semantics().may_partially_apply);
}

#[test]
fn plan_keeps_declared_order_without_executing_operations() {
    let first = Mutation::AddRoute(RouteConfig::new(network()));
    let second = Mutation::RemoveRoute(RouteConfig::new(network()).with_interface_index(2));
    let plan = MutationPlan::from_operations(vec![first.clone(), second.clone()]);
    assert_eq!(plan.operations(), [first, second]);
    assert!(plan.operation(0).is_some());
    assert!(plan.operation(2).is_none());
    assert_eq!(plan.len(), 2);
    assert!(!plan.is_empty());
}

#[test]
fn route_operations_expose_strict_native_acknowledgement_contracts() {
    let route = RouteConfig::new(network());

    let added = Mutation::AddRoute(route).semantics();
    assert_eq!(added.kind, MutationKind::AddRoute);
    assert_eq!(added.precondition, MutationPrecondition::Absent);
    assert_eq!(added.idempotency, MutationIdempotency::Strict);
    assert_eq!(added.privilege, MutationPrivilege::Elevated);
    assert_eq!(
        added.confirmation,
        MutationConfirmation::NativeAcknowledgement
    );
    assert_eq!(
        added.reversibility,
        MutationReversibility::RequiresPriorState
    );
    assert!(!added.may_partially_apply);

    let removed = Mutation::RemoveRoute(route).semantics();
    assert_eq!(removed.kind, MutationKind::RemoveRoute);
    assert_eq!(removed.precondition, MutationPrecondition::Present);
    assert_eq!(removed.idempotency, MutationIdempotency::Strict);
    assert_eq!(removed.privilege, MutationPrivilege::Elevated);
    assert_eq!(
        removed.confirmation,
        MutationConfirmation::NativeAcknowledgement
    );
    assert_eq!(
        removed.reversibility,
        MutationReversibility::RequiresPriorState
    );
    assert!(!removed.may_partially_apply);
}

#[test]
fn address_removal_exposes_its_observed_record_contract() {
    let address =
        InterfaceAddress::new(InterfaceAddressId::new(1), 1, network());
    let semantics = Mutation::RemoveAddress(address).semantics();

    assert_eq!(semantics.kind, MutationKind::RemoveAddress);
    assert_eq!(semantics.precondition, MutationPrecondition::Present);
    assert_eq!(semantics.idempotency, MutationIdempotency::Strict);
    assert_eq!(semantics.privilege, MutationPrivilege::Elevated);
    assert_eq!(
        semantics.confirmation,
        MutationConfirmation::NativeAcknowledgement
    );
    assert_eq!(
        semantics.reversibility,
        MutationReversibility::RequiresPriorState
    );
    assert!(!semantics.may_partially_apply);
}

#[test]
fn empty_plan_can_be_built_appended_and_consumed() {
    let mut plan = MutationPlan::new();
    assert!(plan.is_empty());
    assert_eq!(plan.len(), 0);

    let operation = Mutation::AddRoute(RouteConfig::new(network()));
    plan.push(operation.clone());
    assert_eq!(plan.operations(), std::slice::from_ref(&operation));
    assert_eq!(plan.into_iter(), vec![operation]);
}

#[test]
fn plan_report_preserves_partial_failure_and_rollback_boundary() {
    let report = MutationPlanReport::new(
        vec![
            MutationOutcome::Applied,
            MutationOutcome::Failed {
                error: Error::PermissionDenied,
                may_have_applied: true,
            },
            MutationOutcome::NotAttempted,
        ],
        RollbackStatus::NotAttempted,
    );

    assert!(!report.is_success());
    assert_eq!(report.applied_count(), 1);
    assert_eq!(report.not_attempted_count(), 1);
    assert_eq!(report.len(), 3);
    assert_eq!(report.operation_reports().len(), 3);
    assert!(report.operation_report(2).is_some());
    assert!(!report.is_empty());
    assert!(report.outcome(3).is_none());
    assert!(matches!(report.rollback(), RollbackStatus::NotAttempted));
    assert!(matches!(
        &report.outcomes()[1],
        MutationOutcome::Failed {
            may_have_applied: true,
            ..
        }
    ));
}

#[test]
fn preflight_identifies_snapshot_and_partial_application_risks() {
    let plan = MutationPlan::from_operations(vec![
        Mutation::AddRoute(RouteConfig::new(network())),
        Mutation::SetDnsConfig(NewDnsConfig::new()),
    ]);
    let preflight = plan.preflight();

    assert_eq!(preflight.prior_state_indices(), &[0]);
    assert_eq!(preflight.partial_application_indices(), &[1]);
    assert!(preflight.requires_prior_state());
    assert!(preflight.may_partially_apply());
}

#[test]
fn interface_configuration_exposes_readback_and_partial_application_contracts() {
    let operation = Mutation::SetInterfaceConfig(
        InterfaceConfig::new(InterfaceId::new(7), Some(DesiredAdminState::Up), Some(1500))
            .expect("valid configuration"),
    );
    let semantics = operation.semantics();

    assert_eq!(semantics.kind, MutationKind::SetInterfaceConfig);
    assert_eq!(semantics.precondition, MutationPrecondition::Present);
    assert_eq!(semantics.idempotency, MutationIdempotency::Replace);
    assert_eq!(semantics.privilege, MutationPrivilege::Elevated);
    assert_eq!(semantics.confirmation, MutationConfirmation::ReadAfterWrite);
    assert_eq!(
        semantics.reversibility,
        MutationReversibility::RequiresPriorState
    );
    assert!(semantics.may_partially_apply);

    let plan = MutationPlan::from_operations(vec![operation]);
    let preflight = plan.preflight();
    assert_eq!(preflight.prior_state_indices(), &[0]);
    assert_eq!(preflight.partial_application_indices(), &[0]);
}

fn static_neighbor() -> StaticNeighbor {
    StaticNeighbor::new(
        InterfaceId::new(4),
        IpAddress::from(Ipv4Address::new(192, 168, 1, 9)),
        MacAddress::new([0x02, 0x00, 0x00, 0x00, 0x00, 0x09]),
    )
}

#[test]
fn add_static_neighbor_requires_absent_target_and_read_after_write() {
    let operation = Mutation::AddStaticNeighbor(static_neighbor());
    let semantics = operation.semantics();

    assert_eq!(semantics.kind, MutationKind::AddStaticNeighbor);
    assert_eq!(semantics.precondition, MutationPrecondition::Absent);
    assert_eq!(semantics.idempotency, MutationIdempotency::Strict);
    assert_eq!(semantics.privilege, MutationPrivilege::Elevated);
    assert_eq!(semantics.confirmation, MutationConfirmation::ReadAfterWrite);
    assert_eq!(
        semantics.reversibility,
        MutationReversibility::RequiresPriorState
    );
    assert!(!semantics.may_partially_apply);
}

#[test]
fn remove_static_neighbor_requires_present_target_and_native_acknowledgement() {
    let operation = Mutation::RemoveStaticNeighbor(static_neighbor());
    let semantics = operation.semantics();

    assert_eq!(semantics.kind, MutationKind::RemoveStaticNeighbor);
    assert_eq!(semantics.precondition, MutationPrecondition::Present);
    assert_eq!(semantics.idempotency, MutationIdempotency::Strict);
    assert_eq!(semantics.privilege, MutationPrivilege::Elevated);
    assert_eq!(
        semantics.confirmation,
        MutationConfirmation::NativeAcknowledgement
    );
    assert_eq!(
        semantics.reversibility,
        MutationReversibility::RequiresPriorState
    );
    assert!(!semantics.may_partially_apply);
}

#[test]
fn neighbor_snapshot_variant_holds_the_matched_observed_entry() {
    let snapshot = MutationSnapshot::Neighbor(None);
    assert!(matches!(snapshot, MutationSnapshot::Neighbor(None)));
}

#[test]
fn static_neighbor_operations_require_prior_state_for_compensation() {
    let plan = MutationPlan::from_operations(vec![
        Mutation::AddStaticNeighbor(static_neighbor()),
        Mutation::RemoveStaticNeighbor(static_neighbor()),
    ]);
    let preflight = plan.preflight();

    assert_eq!(preflight.prior_state_indices(), &[0, 1]);
    assert!(preflight.partial_application_indices().is_empty());
}
