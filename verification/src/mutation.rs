//! Typed, inspectable descriptions of imperative network mutations.
//!
//! These types describe work and its execution report; nothing here touches the operating
//! system.

use crate::dns::DnsConfig;
use crate::dns::NewDnsConfig;
use crate::dns::Resolver;
use crate::error::Error;
use crate::firewall::FirewallPolicy;
use crate::firewall::FirewallRule;
use crate::firewall::Policy;
use crate::gather::count;
use crate::gather::gathered;
use crate::gather::given;
use crate::gather::lemma_count_bound;
use crate::gather::lemma_count_disjoint;
use crate::gather::lemma_count_take;
use crate::gather::lemma_gathered_holds;
use crate::gather::lemma_gathered_origin;
use crate::gather::lemma_gathered_related;
use crate::ifaddr::InterfaceAddress;
use crate::ifaddr::NewInterfaceAddress;
use crate::interface::Interface;
use crate::interface::InterfaceConfig;
use crate::neighbor::NeighborEntry;
use crate::neighbor::StaticNeighbor;
use crate::route::Route;
use crate::route::RouteConfig;
use std::time::Duration;
use vstd::prelude::*;

verus! {

/// One imperative network mutation expressed as data.
#[derive(Debug, Clone, PartialEq, Eq, Hash)]
#[non_exhaustive]
pub enum Mutation {
    /// Adds a route.
    AddRoute(RouteConfig),
    /// Removes a route according to the backend's matching rules.
    RemoveRoute(RouteConfig),
    /// Assigns an interface address.
    AddAddress(NewInterfaceAddress),
    /// Removes an observed interface address.
    RemoveAddress(InterfaceAddress),
    /// Replaces the portable resolver configuration.
    SetDnsConfig(NewDnsConfig),
    /// Applies a partial desired configuration to one network interface.
    ///
    /// MTU and administrative state can require separate native writes, so a failure may have
    /// been partially applied.
    SetInterfaceConfig(InterfaceConfig),
    /// Adds a static ARP/NDP neighbor entry.
    AddStaticNeighbor(StaticNeighbor),
    /// Removes a static ARP/NDP neighbor entry.
    ///
    /// The backend must confirm that the target is presently permanent before removal.
    RemoveStaticNeighbor(StaticNeighbor),
    /// Atomically replaces the managed native-firewall policy.
    ///
    /// Clearing the managed policy is replacing it by one that allows everything.
    SetFirewallPolicy(FirewallPolicy),
}

/// What a mutation asks for.
pub enum Operation {
    /// Adds a route.
    AddRoute(RouteConfig),
    /// Removes a route.
    RemoveRoute(RouteConfig),
    /// Assigns an interface address.
    AddAddress(NewInterfaceAddress),
    /// Removes an interface address.
    RemoveAddress(InterfaceAddress),
    /// Replaces the resolver configuration.
    SetDnsConfig(Resolver),
    /// Patches an interface's configuration.
    SetInterfaceConfig(InterfaceConfig),
    /// Adds a static neighbor entry.
    AddStaticNeighbor(StaticNeighbor),
    /// Removes a static neighbor entry.
    RemoveStaticNeighbor(StaticNeighbor),
    /// Replaces the firewall policy.
    SetFirewallPolicy(Policy),
}

impl View for Mutation {
    type V = Operation;

    open spec fn view(&self) -> Operation {
        match self {
            Mutation::AddRoute(route) => Operation::AddRoute(*route),
            Mutation::RemoveRoute(route) => Operation::RemoveRoute(*route),
            Mutation::AddAddress(address) => Operation::AddAddress(*address),
            Mutation::RemoveAddress(address) => Operation::RemoveAddress(*address),
            Mutation::SetDnsConfig(config) => Operation::SetDnsConfig(config@),
            Mutation::SetInterfaceConfig(config) => Operation::SetInterfaceConfig(*config),
            Mutation::AddStaticNeighbor(neighbor) => Operation::AddStaticNeighbor(*neighbor),
            Mutation::RemoveStaticNeighbor(neighbor) => Operation::RemoveStaticNeighbor(*neighbor),
            Mutation::SetFirewallPolicy(policy) => Operation::SetFirewallPolicy(policy@),
        }
    }
}

/// Observed state captured immediately before a mutation is submitted.
///
/// `None` means that no matching object was observed; it is no promise that the object cannot
/// appear concurrently.
#[derive(Debug, Clone, PartialEq, Eq)]
#[non_exhaustive]
pub enum MutationSnapshot {
    /// The matching route, if one was observed.
    Route(Option<Route>),
    /// The matching interface address, if one was observed.
    InterfaceAddress(Option<InterfaceAddress>),
    /// The resolver view observed before replacement.
    Dns(DnsConfig),
    /// The interface observed before a configuration patch, if it was still present.
    Interface(Option<Interface>),
    /// The matching observed neighbor entry, if one was observed.
    Neighbor(Option<NeighborEntry>),
    /// The managed firewall rules observed before replacement; the default verdict that was in
    /// effect is not part of them.
    Firewall(Vec<FirewallRule>),
}

/// The broad effect an operation requests.
#[derive(Debug, Clone, Copy, PartialEq, Eq, Hash, Structural)]
#[non_exhaustive]
pub enum MutationKind {
    /// Adds a route.
    AddRoute,
    /// Removes a route.
    RemoveRoute,
    /// Adds an interface address.
    AddAddress,
    /// Removes an interface address.
    RemoveAddress,
    /// Replaces the resolver configuration.
    SetDnsConfig,
    /// Patches an interface's configuration.
    SetInterfaceConfig,
    /// Adds a static ARP/NDP neighbor entry.
    AddStaticNeighbor,
    /// Removes a static ARP/NDP neighbor entry.
    RemoveStaticNeighbor,
    /// Removes an observed route and adds its replacement as one unit.
    ReplaceRoute,
    /// Replaces the managed native-firewall policy.
    SetFirewallPolicy,
}

/// State that must hold for an operation to be meaningful.
#[derive(Debug, Clone, Copy, PartialEq, Eq, Hash, Structural)]
#[non_exhaustive]
pub enum MutationPrecondition {
    /// The target must not already exist.
    Absent,
    /// The target must exist and match the backend's removal rule.
    Present,
    /// The operation replaces configuration regardless of its previous value.
    Any,
}

/// Whether repeating an operation with the same input is expected to succeed.
#[derive(Debug, Clone, Copy, PartialEq, Eq, Hash, Structural)]
#[non_exhaustive]
pub enum MutationIdempotency {
    /// Repetition is not a successful no-op.
    Strict,
    /// Repetition requests the same replacement state.
    Replace,
}

/// How much completion evidence an operation returns.
#[derive(Debug, Clone, Copy, PartialEq, Eq, Hash, Structural)]
#[non_exhaustive]
pub enum MutationConfirmation {
    /// The native platform operation acknowledged the request.
    NativeAcknowledgement,
    /// The corresponding observed state was read again after the mutation.
    ReadAfterWrite,
}

/// Privilege level required by an operation.
#[derive(Debug, Clone, Copy, PartialEq, Eq, Hash, Structural)]
#[non_exhaustive]
pub enum MutationPrivilege {
    /// The platform's elevated networking privilege.
    Elevated,
}

/// Whether an operation can be safely compensated without prior state.
#[derive(Debug, Clone, Copy, PartialEq, Eq, Hash, Structural)]
#[non_exhaustive]
pub enum MutationReversibility {
    /// A compensating operation needs a captured prior observed state.
    RequiresPriorState,
    /// No rollback promise is made.
    NotGuaranteed,
}

/// Static metadata describing one operation's contract.
#[derive(Debug, Clone, Copy, PartialEq, Eq, Hash, Structural)]
#[non_exhaustive]
pub struct MutationSemantics {
    /// The requested effect.
    pub kind: MutationKind,
    /// Required state before execution.
    pub precondition: MutationPrecondition,
    /// Repetition behavior.
    pub idempotency: MutationIdempotency,
    /// Privilege required to submit the operation.
    pub privilege: MutationPrivilege,
    /// How successful completion is confirmed.
    pub confirmation: MutationConfirmation,
    /// Whether rollback can be promised by this primitive.
    pub reversibility: MutationReversibility,
    /// Whether a failed operation may already have changed some state.
    pub may_partially_apply: bool,
}

impl Operation {
    /// The effect that the operation requests.
    pub open spec fn kind(self) -> MutationKind {
        match self {
            Operation::AddRoute(_) => MutationKind::AddRoute,
            Operation::RemoveRoute(_) => MutationKind::RemoveRoute,
            Operation::AddAddress(_) => MutationKind::AddAddress,
            Operation::RemoveAddress(_) => MutationKind::RemoveAddress,
            Operation::SetDnsConfig(_) => MutationKind::SetDnsConfig,
            Operation::SetInterfaceConfig(_) => MutationKind::SetInterfaceConfig,
            Operation::AddStaticNeighbor(_) => MutationKind::AddStaticNeighbor,
            Operation::RemoveStaticNeighbor(_) => MutationKind::RemoveStaticNeighbor,
            Operation::SetFirewallPolicy(_) => MutationKind::SetFirewallPolicy,
        }
    }

    /// Whether the operation adds an object.
    pub open spec fn adds(self) -> bool {
        self is AddRoute || self is AddAddress || self is AddStaticNeighbor
    }

    /// Whether the operation removes an object.
    pub open spec fn removes(self) -> bool {
        self is RemoveRoute || self is RemoveAddress || self is RemoveStaticNeighbor
    }

    /// Whether the operation replaces a whole configuration of which there is only one.
    pub open spec fn replaces_whole(self) -> bool {
        self is SetDnsConfig || self is SetFirewallPolicy
    }

    /// The operation's contract: what it needs, what repeating it does, how it is confirmed
    /// and whether it can be taken back.
    pub open spec fn semantics(self) -> MutationSemantics {
        MutationSemantics {
            kind: self.kind(),
            precondition: if self.adds() {
                MutationPrecondition::Absent
            } else if self.replaces_whole() {
                MutationPrecondition::Any
            } else {
                MutationPrecondition::Present
            },
            idempotency: if self.adds() || self.removes() {
                MutationIdempotency::Strict
            } else {
                MutationIdempotency::Replace
            },
            privilege: MutationPrivilege::Elevated,
            confirmation: if self.removes() || self is AddRoute {
                MutationConfirmation::NativeAcknowledgement
            } else {
                MutationConfirmation::ReadAfterWrite
            },
            reversibility: if self.replaces_whole() {
                MutationReversibility::NotGuaranteed
            } else {
                MutationReversibility::RequiresPriorState
            },
            may_partially_apply: self is SetDnsConfig || self is SetInterfaceConfig,
        }
    }
}

impl Mutation {
    /// Returns the static contract of this operation.
    pub fn semantics(&self) -> (semantics: MutationSemantics)
        ensures
            semantics == self@.semantics(),
    {
        match self {
            Mutation::AddRoute(_) => MutationSemantics {
                kind: MutationKind::AddRoute,
                precondition: MutationPrecondition::Absent,
                idempotency: MutationIdempotency::Strict,
                privilege: MutationPrivilege::Elevated,
                confirmation: MutationConfirmation::NativeAcknowledgement,
                reversibility: MutationReversibility::RequiresPriorState,
                may_partially_apply: false,
            },
            Mutation::RemoveRoute(_) => MutationSemantics {
                kind: MutationKind::RemoveRoute,
                precondition: MutationPrecondition::Present,
                idempotency: MutationIdempotency::Strict,
                privilege: MutationPrivilege::Elevated,
                confirmation: MutationConfirmation::NativeAcknowledgement,
                reversibility: MutationReversibility::RequiresPriorState,
                may_partially_apply: false,
            },
            Mutation::AddAddress(_) => MutationSemantics {
                kind: MutationKind::AddAddress,
                precondition: MutationPrecondition::Absent,
                idempotency: MutationIdempotency::Strict,
                privilege: MutationPrivilege::Elevated,
                confirmation: MutationConfirmation::ReadAfterWrite,
                reversibility: MutationReversibility::RequiresPriorState,
                may_partially_apply: false,
            },
            Mutation::RemoveAddress(_) => MutationSemantics {
                kind: MutationKind::RemoveAddress,
                precondition: MutationPrecondition::Present,
                idempotency: MutationIdempotency::Strict,
                privilege: MutationPrivilege::Elevated,
                confirmation: MutationConfirmation::NativeAcknowledgement,
                reversibility: MutationReversibility::RequiresPriorState,
                may_partially_apply: false,
            },
            Mutation::SetDnsConfig(_) => MutationSemantics {
                kind: MutationKind::SetDnsConfig,
                precondition: MutationPrecondition::Any,
                idempotency: MutationIdempotency::Replace,
                privilege: MutationPrivilege::Elevated,
                confirmation: MutationConfirmation::ReadAfterWrite,
                reversibility: MutationReversibility::NotGuaranteed,
                may_partially_apply: true,
            },
            Mutation::SetInterfaceConfig(_) => MutationSemantics {
                kind: MutationKind::SetInterfaceConfig,
                precondition: MutationPrecondition::Present,
                idempotency: MutationIdempotency::Replace,
                privilege: MutationPrivilege::Elevated,
                confirmation: MutationConfirmation::ReadAfterWrite,
                reversibility: MutationReversibility::RequiresPriorState,
                may_partially_apply: true,
            },
            Mutation::AddStaticNeighbor(_) => MutationSemantics {
                kind: MutationKind::AddStaticNeighbor,
                precondition: MutationPrecondition::Absent,
                idempotency: MutationIdempotency::Strict,
                privilege: MutationPrivilege::Elevated,
                confirmation: MutationConfirmation::ReadAfterWrite,
                reversibility: MutationReversibility::RequiresPriorState,
                may_partially_apply: false,
            },
            Mutation::RemoveStaticNeighbor(_) => MutationSemantics {
                kind: MutationKind::RemoveStaticNeighbor,
                precondition: MutationPrecondition::Present,
                idempotency: MutationIdempotency::Strict,
                privilege: MutationPrivilege::Elevated,
                confirmation: MutationConfirmation::NativeAcknowledgement,
                reversibility: MutationReversibility::RequiresPriorState,
                may_partially_apply: false,
            },
            // Every backend replaces the whole policy in one native transaction, so there is
            // no partial write here.
            Mutation::SetFirewallPolicy(_) => MutationSemantics {
                kind: MutationKind::SetFirewallPolicy,
                precondition: MutationPrecondition::Any,
                idempotency: MutationIdempotency::Replace,
                privilege: MutationPrivilege::Elevated,
                confirmation: MutationConfirmation::ReadAfterWrite,
                reversibility: MutationReversibility::NotGuaranteed,
                may_partially_apply: false,
            },
        }
    }
}

/// What a list of mutations asks for.
pub open spec fn operations_of(list: Seq<Mutation>) -> Seq<Operation> {
    list.map_values(|mutation: Mutation| mutation@)
}

/// An ordered, inspectable list of mutations. Creating a plan has no side effects.
#[derive(Debug, Clone, PartialEq, Eq, Hash)]
pub struct MutationPlan {
    operations: Vec<Mutation>,
}

impl View for MutationPlan {
    type V = Seq<Operation>;

    closed spec fn view(&self) -> Seq<Operation> {
        operations_of(self.operations@)
    }
}

impl MutationPlan {
    /// The mutations of the plan, in execution order.
    pub closed spec fn list(self) -> Seq<Mutation> {
        self.operations@
    }

    /// Creates an empty plan.
    pub fn new() -> (plan: Self)
        ensures
            plan.list() == Seq::<Mutation>::empty(),
            plan@ == Seq::<Operation>::empty(),
    {
        let plan = MutationPlan { operations: Vec::new() };
        assert(plan@ =~= Seq::empty());
        plan
    }

    /// Creates a plan from operations in execution order.
    pub fn from_operations(operations: Vec<Mutation>) -> (plan: Self)
        ensures
            plan.list() == operations@,
            plan@ == operations_of(operations@),
    {
        MutationPlan { operations }
    }

    /// Appends an operation after all existing operations.
    pub fn push(&mut self, operation: Mutation)
        ensures
            final(self).list() == old(self).list().push(operation),
            final(self)@ == old(self)@.push(operation@),
    {
        self.operations.push(operation);
        assert(self@ =~= old(self)@.push(operation@));
    }

    /// Returns the operations in their declared order.
    pub fn operations(&self) -> (operations: &[Mutation])
        ensures
            operations@ == self.list(),
            operations_of(operations@) == self@,
    {
        self.operations.as_slice()
    }

    /// Returns the operation at `index`, if present.
    ///
    /// The outcome at the same index of a [`MutationPlanReport`] belongs to it.
    pub fn operation(&self, index: usize) -> (operation: Option<&Mutation>)
        ensures
            match operation {
                Some(found) => index < self.list().len() && *found == self.list()[index as int]
                    && found@ == self@[index as int],
                None => index >= self.list().len(),
            },
    {
        if index < self.operations.len() {
            Some(&self.operations[index])
        } else {
            None
        }
    }

    /// Computes backend-independent execution risks for this plan.
    ///
    /// This neither validates capabilities or privileges nor looks at current state.
    pub fn preflight(&self) -> (preflight: MutationPreflight)
        ensures
            preflight.prior_state() == indices_where(
                self@,
                |operation: Operation|
                    operation.semantics().reversibility
                        == MutationReversibility::RequiresPriorState,
            ),
            preflight.partial_application() == indices_where(
                self@,
                |operation: Operation| operation.semantics().may_partially_apply,
            ),
    {
        let ghost reverts = |operation: Operation|
            operation.semantics().reversibility == MutationReversibility::RequiresPriorState;
        let ghost partial = |operation: Operation| operation.semantics().may_partially_apply;
        let mut prior_state_indices: Vec<usize> = Vec::new();
        let mut partial_application_indices: Vec<usize> = Vec::new();
        let mut index: usize = 0;
        assert(widened(prior_state_indices@) =~= indices_upto(self@, reverts, 0));
        assert(widened(partial_application_indices@) =~= indices_upto(self@, partial, 0));
        while index < self.operations.len()
            invariant
                index <= self.operations.len(),
                reverts == (|operation: Operation|
                    operation.semantics().reversibility
                        == MutationReversibility::RequiresPriorState),
                partial == (|operation: Operation| operation.semantics().may_partially_apply),
                widened(prior_state_indices@) == indices_upto(self@, reverts, index as nat),
                widened(partial_application_indices@) == indices_upto(
                    self@,
                    partial,
                    index as nat,
                ),
            decreases self.operations.len() - index,
        {
            let semantics = self.operations[index].semantics();
            let ghost before_prior = prior_state_indices@;
            let ghost before_partial = partial_application_indices@;
            assert(self@[index as int] == self.operations@[index as int]@);
            if matches!(semantics.reversibility, MutationReversibility::RequiresPriorState) {
                prior_state_indices.push(index);
                assert(widened(prior_state_indices@) =~= widened(before_prior) + seq![
                    index as int,
                ]);
            } else {
                assert(widened(prior_state_indices@) =~= widened(before_prior) + Seq::empty());
            }
            if semantics.may_partially_apply {
                partial_application_indices.push(index);
                assert(widened(partial_application_indices@) =~= widened(before_partial) + seq![
                    index as int,
                ]);
            } else {
                assert(widened(partial_application_indices@) =~= widened(before_partial)
                    + Seq::empty());
            }
            index = index + 1;
        }
        MutationPreflight { prior_state_indices, partial_application_indices }
    }

    /// Whether the plan has no operations.
    pub fn is_empty(&self) -> (empty: bool)
        ensures
            empty == (self@.len() == 0),
    {
        self.operations.len() == 0
    }

    /// Number of operations in the plan.
    pub fn len(&self) -> (len: usize)
        ensures
            len == self@.len(),
    {
        self.operations.len()
    }

    /// Takes the plan apart into its operations, in their declared order.
    pub fn into_iter(self) -> (operations: Vec<Mutation>)
        ensures
            operations@ == self.list(),
            operations_of(operations@) == self@,
    {
        self.operations
    }
}

impl Default for MutationPlan {
    fn default() -> (plan: Self)
        ensures
            plan@ == Seq::<Operation>::empty(),
    {
        MutationPlan::new()
    }
}

/// The indices below `n` of the operations that pass a test, in ascending order.
pub open spec fn indices_upto(
    operations: Seq<Operation>,
    test: spec_fn(Operation) -> bool,
    n: nat,
) -> Seq<int> {
    gathered(n, |i: int| given(test(operations[i]), i))
}

/// The indices of the operations that pass a test, in ascending order.
pub open spec fn indices_where(operations: Seq<Operation>, test: spec_fn(Operation) -> bool) -> Seq<
    int,
> {
    indices_upto(operations, test, operations.len())
}

/// Machine indices as mathematical ones.
pub open spec fn widened(indices: Seq<usize>) -> Seq<int> {
    indices.map_values(|index: usize| index as int)
}

/// Static preflight facts derived from a [`MutationPlan`].
#[derive(Debug, Clone, PartialEq, Eq)]
#[non_exhaustive]
pub struct MutationPreflight {
    prior_state_indices: Vec<usize>,
    partial_application_indices: Vec<usize>,
}

impl MutationPreflight {
    /// The plan-local indices whose compensation needs a prior snapshot.
    pub closed spec fn prior_state(self) -> Seq<int> {
        widened(self.prior_state_indices@)
    }

    /// The plan-local indices whose operation may change state before an error is returned.
    pub closed spec fn partial_application(self) -> Seq<int> {
        widened(self.partial_application_indices@)
    }

    /// Returns plan-local indices whose compensation needs a prior snapshot.
    pub fn prior_state_indices(&self) -> (indices: &[usize])
        ensures
            widened(indices@) == self.prior_state(),
    {
        self.prior_state_indices.as_slice()
    }

    /// Returns plan-local indices whose operation may change state before an error is
    /// returned.
    pub fn partial_application_indices(&self) -> (indices: &[usize])
        ensures
            widened(indices@) == self.partial_application(),
    {
        self.partial_application_indices.as_slice()
    }

    /// Whether any operation requires a prior observed state for compensation.
    pub fn requires_prior_state(&self) -> (required: bool)
        ensures
            required == (self.prior_state().len() > 0),
    {
        self.prior_state_indices.len() > 0
    }

    /// Whether any operation carries a partial-application risk.
    pub fn may_partially_apply(&self) -> (risk: bool)
        ensures
            risk == (self.partial_application().len() > 0),
    {
        self.partial_application_indices.len() > 0
    }
}

/// Preflight lists an index exactly when the operation there passes the test, and every index
/// it lists is one of the plan's.
pub proof fn preflight_lists_exactly_the_passing_indices(
    operations: Seq<Operation>,
    test: spec_fn(Operation) -> bool,
    index: int,
)
    ensures
        indices_where(operations, test).contains(index) <==> 0 <= index < operations.len() && test(
            operations[index],
        ),
{
    let piece = |i: int| given(test(operations[i]), i);
    if indices_where(operations, test).contains(index) {
        let at = lemma_gathered_origin(operations.len(), piece, index);
        assert(piece(at.0)[at.1] == index);
    }
    if 0 <= index < operations.len() && test(operations[index]) {
        assert(piece(index)[0] == index);
        lemma_gathered_holds(operations.len(), piece, index, 0);
    }
}

/// The result recorded for one operation in an applied mutation plan.
#[derive(Debug)]
#[non_exhaustive]
pub enum MutationOutcome {
    /// The backend acknowledged the operation according to its contract.
    Applied,
    /// The operation returned an error.
    Failed {
        /// Backend error returned by the operation.
        error: Error,
        /// Whether the operation may have changed state before failing.
        may_have_applied: bool,
    },
    /// The operation was not attempted because an earlier one failed or execution was
    /// cancelled.
    NotAttempted,
}

/// Status of compensation attempted after a plan failure.
#[derive(Debug)]
#[non_exhaustive]
pub enum RollbackStatus {
    /// No operation failed, so rollback was not needed.
    NotNeeded,
    /// A rollback boundary exists, but compensation was not attempted.
    NotAttempted,
    /// Compensation completed for the operations selected by the executor.
    Completed,
    /// Compensation itself failed.
    Failed {
        /// Index of the operation whose compensation failed.
        operation_index: usize,
        /// Error returned by the compensation attempt.
        error: Error,
    },
}

/// Execution phase associated with an operation report.
#[derive(Debug, Clone, Copy, PartialEq, Eq, Hash, Structural)]
#[non_exhaustive]
pub enum MutationExecutionPhase {
    /// The plan or operation is being checked before submission.
    Validation,
    /// Prior state is being captured for an operation.
    Snapshot,
    /// The mutation is being submitted to the platform backend.
    Execution,
    /// An explicitly supplied compensator is being run.
    Compensation,
    /// Execution stopped at an operation boundary because cancellation was requested.
    Cancellation,
}

/// Why an operation or plan stopped progressing.
#[derive(Debug, Clone, Copy, PartialEq, Eq, Hash, Structural)]
#[non_exhaustive]
pub enum MutationStopReason {
    /// Plan or operation preconditions were rejected.
    ValidationFailed,
    /// Prior-state capture failed before submission.
    SnapshotFailed,
    /// The platform backend rejected or could not complete the operation.
    ExecutionFailed,
    /// The caller requested cancellation before this operation was submitted.
    Cancelled,
    /// An explicitly supplied compensator failed.
    CompensationFailed,
    /// The connected backend cannot honor a field that the operation requires.
    CapabilityRejected,
    /// The resulting state could not be confirmed, or a precondition no longer held.
    NonConvergentReplacement,
}

/// The span of time with the given number of nanoseconds.
pub uninterp spec fn nanoseconds(nanos: u64) -> Duration;

/// `Duration::from_nanos` makes the span of time with the given number of nanoseconds.
pub assume_specification[ Duration::from_nanos ](nanos: u64) -> (duration: Duration)
    ensures
        duration == nanoseconds(nanos),
;

/// Timing and phase metadata for one plan-local operation.
#[derive(Debug, Clone, Copy, PartialEq, Eq, Hash)]
pub struct MutationOperationReport {
    /// Last phase reached by this operation.
    pub phase: MutationExecutionPhase,
    /// Time spent in snapshot and native execution callbacks.
    pub duration: Duration,
    /// Why execution stopped at this operation, if it stopped abnormally.
    pub stop_reason: Option<MutationStopReason>,
}

impl MutationOperationReport {
    /// The metadata of an operation that was not submitted.
    pub open spec fn untouched() -> Self {
        MutationOperationReport {
            phase: MutationExecutionPhase::Validation,
            duration: nanoseconds(0),
            stop_reason: None,
        }
    }

    /// Returns metadata for an operation that was not submitted.
    pub fn not_attempted() -> (report: Self)
        ensures
            report == Self::untouched(),
    {
        MutationOperationReport {
            phase: MutationExecutionPhase::Validation,
            duration: Duration::from_nanos(0),
            stop_reason: None,
        }
    }

    /// One report for each of `count` operations that were not submitted.
    pub(crate) fn not_attempted_each(count: usize) -> (reports: Vec<Self>)
        ensures
            reports@ == Seq::new(count as nat, |i: int| Self::untouched()),
    {
        let mut reports: Vec<Self> = Vec::new();
        let mut i: usize = 0;
        while i < count
            invariant
                i <= count,
                reports@ == Seq::new(i as nat, |k: int| Self::untouched()),
            decreases count - i,
        {
            reports.push(Self::not_attempted());
            i = i + 1;
            assert(reports@ =~= Seq::new(i as nat, |k: int| Self::untouched()));
        }
        reports
    }
}

/// Executor report for an ordered [`MutationPlan`].
///
/// The outcome at index `n` belongs to the plan's operation `n`. Operations may have been
/// partially applied, and rollback is reported separately.
#[derive(Debug)]
pub struct MutationPlanReport {
    outcomes: Vec<MutationOutcome>,
    rollback: RollbackStatus,
    operation_reports: Vec<MutationOperationReport>,
}

impl MutationPlanReport {
    /// The recorded outcomes.
    pub closed spec fn recorded(self) -> Seq<MutationOutcome> {
        self.outcomes@
    }

    /// The recorded rollback status.
    pub closed spec fn recorded_rollback(self) -> RollbackStatus {
        self.rollback
    }

    /// The recorded phase and timing metadata.
    pub closed spec fn recorded_reports(self) -> Seq<MutationOperationReport> {
        self.operation_reports@
    }

    /// Creates a report for outcomes in the plan's declared order.
    pub fn new(outcomes: Vec<MutationOutcome>, rollback: RollbackStatus) -> (report: Self)
        ensures
            report.recorded() == outcomes@,
            report.recorded_rollback() == rollback,
            report.recorded_reports() == Seq::new(
                outcomes@.len(),
                |i: int| MutationOperationReport::untouched(),
            ),
    {
        let operation_reports = MutationOperationReport::not_attempted_each(outcomes.len());
        MutationPlanReport { outcomes, rollback, operation_reports }
    }

    /// Creates a report with phase and timing metadata aligned to outcomes.
    pub fn with_operation_reports(
        outcomes: Vec<MutationOutcome>,
        rollback: RollbackStatus,
        operation_reports: Vec<MutationOperationReport>,
    ) -> (report: Self)
        ensures
            report.recorded() == outcomes@,
            report.recorded_rollback() == rollback,
            report.recorded_reports() == operation_reports@,
    {
        MutationPlanReport { outcomes, rollback, operation_reports }
    }

    /// Returns one outcome for each operation attempted or skipped.
    pub fn outcomes(&self) -> (outcomes: &[MutationOutcome])
        ensures
            outcomes@ == self.recorded(),
    {
        self.outcomes.as_slice()
    }

    /// Returns the outcome at a plan-local operation index, if present.
    pub fn outcome(&self, index: usize) -> (outcome: Option<&MutationOutcome>)
        ensures
            match outcome {
                Some(found) => index < self.recorded().len() && *found
                    == self.recorded()[index as int],
                None => index >= self.recorded().len(),
            },
    {
        if index < self.outcomes.len() {
            Some(&self.outcomes[index])
        } else {
            None
        }
    }

    /// Returns the number of recorded outcomes.
    pub fn len(&self) -> (len: usize)
        ensures
            len == self.recorded().len(),
    {
        self.outcomes.len()
    }

    /// Whether no outcomes have been recorded.
    pub fn is_empty(&self) -> (empty: bool)
        ensures
            empty == (self.recorded().len() == 0),
    {
        self.outcomes.len() == 0
    }

    /// Returns the rollback status recorded by the executor.
    pub fn rollback(&self) -> (rollback: &RollbackStatus)
        ensures
            *rollback == self.recorded_rollback(),
    {
        &self.rollback
    }

    /// Returns phase and timing metadata aligned with [`Self::outcomes`].
    pub fn operation_reports(&self) -> (reports: &[MutationOperationReport])
        ensures
            reports@ == self.recorded_reports(),
    {
        self.operation_reports.as_slice()
    }

    /// Returns phase and timing metadata for one plan-local operation.
    pub fn operation_report(&self, index: usize) -> (report: Option<&MutationOperationReport>)
        ensures
            match report {
                Some(found) => index < self.recorded_reports().len() && *found
                    == self.recorded_reports()[index as int],
                None => index >= self.recorded_reports().len(),
            },
    {
        if index < self.operation_reports.len() {
            Some(&self.operation_reports[index])
        } else {
            None
        }
    }

    /// Whether every recorded operation was applied successfully.
    pub fn is_success(&self) -> (success: bool)
        ensures
            success == (forall|i: int|
                0 <= i < self.recorded().len() ==> #[trigger] self.recorded()[i] is Applied),
    {
        let mut i: usize = 0;
        while i < self.outcomes.len()
            invariant
                i <= self.outcomes.len(),
                forall|k: int| 0 <= k < i ==> #[trigger] self.recorded()[k] is Applied,
            decreases self.outcomes.len() - i,
        {
            if !matches!(self.outcomes[i], MutationOutcome::Applied) {
                assert(!(self.recorded()[i as int] is Applied));
                return false;
            }
            i = i + 1;
        }
        true
    }

    /// Number of operations recorded as applied.
    pub fn applied_count(&self) -> (number: usize)
        ensures
            number == count(self.recorded(), |outcome: MutationOutcome| outcome is Applied),
    {
        let ghost test = |outcome: MutationOutcome| outcome is Applied;
        let mut number: usize = 0;
        let mut i: usize = 0;
        assert(self.outcomes@.take(0) =~= Seq::empty());
        while i < self.outcomes.len()
            invariant
                number <= i <= self.outcomes.len(),
                test == (|outcome: MutationOutcome| outcome is Applied),
                number == count(self.outcomes@.take(i as int), test),
            decreases self.outcomes.len() - i,
        {
            proof {
                lemma_count_take(self.outcomes@, test, i as int);
            }
            if matches!(self.outcomes[i], MutationOutcome::Applied) {
                number = number + 1;
            }
            i = i + 1;
        }
        assert(self.outcomes@.take(i as int) =~= self.outcomes@);
        number
    }

    /// Number of operations the executor did not attempt.
    pub fn not_attempted_count(&self) -> (number: usize)
        ensures
            number == count(self.recorded(), |outcome: MutationOutcome| outcome is NotAttempted),
    {
        let ghost test = |outcome: MutationOutcome| outcome is NotAttempted;
        let mut number: usize = 0;
        let mut i: usize = 0;
        assert(self.outcomes@.take(0) =~= Seq::empty());
        while i < self.outcomes.len()
            invariant
                number <= i <= self.outcomes.len(),
                test == (|outcome: MutationOutcome| outcome is NotAttempted),
                number == count(self.outcomes@.take(i as int), test),
            decreases self.outcomes.len() - i,
        {
            proof {
                lemma_count_take(self.outcomes@, test, i as int);
            }
            if matches!(self.outcomes[i], MutationOutcome::NotAttempted) {
                number = number + 1;
            }
            i = i + 1;
        }
        assert(self.outcomes@.take(i as int) =~= self.outcomes@);
        number
    }
}

/// A report is a success exactly when as many operations were applied as are recorded, and no
/// operation is counted both as applied and as not attempted.
pub proof fn report_counts_agree(outcomes: Seq<MutationOutcome>)
    ensures
        (forall|i: int| 0 <= i < outcomes.len() ==> #[trigger] outcomes[i] is Applied) <==> count(
            outcomes,
            |outcome: MutationOutcome| outcome is Applied,
        ) == outcomes.len(),
        count(outcomes, |outcome: MutationOutcome| outcome is Applied) + count(
            outcomes,
            |outcome: MutationOutcome| outcome is NotAttempted,
        ) <= outcomes.len(),
{
    let applied = |outcome: MutationOutcome| outcome is Applied;
    let skipped = |outcome: MutationOutcome| outcome is NotAttempted;
    let either = |outcome: MutationOutcome| outcome is Applied || outcome is NotAttempted;
    lemma_count_bound(outcomes, applied);
    lemma_count_disjoint(outcomes, applied, skipped, either);
    lemma_count_bound(outcomes, either);
    if count(outcomes, applied) == outcomes.len() {
        assert forall|i: int| 0 <= i < outcomes.len() implies #[trigger] outcomes[i] is Applied by {
            assert(applied(outcomes[i]));
        }
    }
    if forall|i: int| 0 <= i < outcomes.len() ==> #[trigger] outcomes[i] is Applied {
        assert forall|i: int| 0 <= i < outcomes.len() implies applied(#[trigger] outcomes[i]) by {
            assert(outcomes[i] is Applied);
        }
    }
}

/// What an operation needs and promises, by its kind. Adding needs that the object is absent,
/// removing and patching that it is present, and replacing a whole nothing. Adding and removing
/// are strict, and the others replace. All are privileged. Removals and an added route are
/// acknowledged, and the others are read back. What is replaced as a whole may not be restored,
/// and for the others the prior state is needed. Resolver and interface may end up half changed.
pub proof fn operations_need_and_promise_by_kind(operation: Operation)
    ensures
        ({
            let promised = operation.semantics();
            let adding = operation is AddRoute || operation is AddAddress
                || operation is AddStaticNeighbor;
            let removing = operation is RemoveRoute || operation is RemoveAddress
                || operation is RemoveStaticNeighbor;
            let whole = operation is SetDnsConfig || operation is SetFirewallPolicy;
            &&& promised.precondition == MutationPrecondition::Absent <==> adding
            &&& promised.precondition == MutationPrecondition::Present <==> removing
                || operation is SetInterfaceConfig
            &&& promised.precondition == MutationPrecondition::Any <==> whole
            &&& promised.idempotency == MutationIdempotency::Strict <==> adding || removing
            &&& promised.idempotency == MutationIdempotency::Replace <==> !adding && !removing
            &&& promised.privilege == MutationPrivilege::Elevated
            &&& promised.confirmation == MutationConfirmation::NativeAcknowledgement <==> removing
                || operation is AddRoute
            &&& promised.confirmation == MutationConfirmation::ReadAfterWrite <==> !removing && !(
            operation is AddRoute)
            &&& promised.reversibility == MutationReversibility::NotGuaranteed <==> whole
            &&& promised.reversibility == MutationReversibility::RequiresPriorState <==> !whole
            &&& promised.may_partially_apply <==> operation is SetDnsConfig
                || operation is SetInterfaceConfig
            &&& promised.kind == MutationKind::AddRoute <==> operation is AddRoute
            &&& promised.kind == MutationKind::RemoveRoute <==> operation is RemoveRoute
            &&& promised.kind == MutationKind::AddAddress <==> operation is AddAddress
            &&& promised.kind == MutationKind::RemoveAddress <==> operation is RemoveAddress
            &&& promised.kind == MutationKind::SetDnsConfig <==> operation is SetDnsConfig
            &&& promised.kind == MutationKind::SetInterfaceConfig
                <==> operation is SetInterfaceConfig
            &&& promised.kind == MutationKind::AddStaticNeighbor <==> operation is AddStaticNeighbor
            &&& promised.kind == MutationKind::RemoveStaticNeighbor
                <==> operation is RemoveStaticNeighbor
            &&& promised.kind == MutationKind::SetFirewallPolicy <==> operation is SetFirewallPolicy
        }),
{
}

/// A preflight lists an operation for its prior state exactly when it is no replacement of a
/// whole, and as one that may stop half way exactly when it is about the resolver or an
/// interface.
pub proof fn preflight_lists_by_kind(operations: Seq<Operation>, index: int)
    ensures
        indices_where(
            operations,
            |operation: Operation|
                operation.semantics().reversibility == MutationReversibility::RequiresPriorState,
        ).contains(index) <==> 0 <= index < operations.len() && !(operations[index] is SetDnsConfig)
            && !(operations[index] is SetFirewallPolicy),
        indices_where(
            operations,
            |operation: Operation| operation.semantics().may_partially_apply,
        ).contains(index) <==> 0 <= index < operations.len() && (operations[index] is SetDnsConfig
            || operations[index] is SetInterfaceConfig),
{
    preflight_lists_exactly_the_passing_indices(
        operations,
        |operation: Operation|
            operation.semantics().reversibility == MutationReversibility::RequiresPriorState,
        index,
    );
    preflight_lists_exactly_the_passing_indices(
        operations,
        |operation: Operation| operation.semantics().may_partially_apply,
        index,
    );
}

/// A list of indices rises, so that a preflight lists in execution order and each once.
pub proof fn preflight_lists_rise(
    operations: Seq<Operation>,
    test: spec_fn(Operation) -> bool,
    i: int,
    j: int,
)
    requires
        0 <= i < j < indices_where(operations, test).len(),
    ensures
        indices_where(operations, test)[i] < indices_where(operations, test)[j],
{
    let piece = |i: int| given(test(operations[i]), i);
    let related = |left: int, right: int| left < right;
    lemma_gathered_related(operations.len(), piece, related);
    assert(related(indices_where(operations, test)[i], indices_where(operations, test)[j]));
}

/// An operation that was not attempted stood at its validation, took no time, and was not
/// stopped for a reason of its own.
pub proof fn untouched_operations_took_no_time()
    ensures
        MutationOperationReport::untouched().phase == MutationExecutionPhase::Validation,
        MutationOperationReport::untouched().duration == nanoseconds(0),
        MutationOperationReport::untouched().stop_reason is None,
{
}

/// A mutation asks for the operation of its own kind, with what it holds.
pub proof fn mutations_ask_for_what_they_hold(
    route: RouteConfig,
    request: NewInterfaceAddress,
    assigned: InterfaceAddress,
    dns: NewDnsConfig,
    patch: InterfaceConfig,
    neighbor: StaticNeighbor,
    policy: FirewallPolicy,
)
    ensures
        Mutation::AddRoute(route)@ == Operation::AddRoute(route),
        Mutation::RemoveRoute(route)@ == Operation::RemoveRoute(route),
        Mutation::AddAddress(request)@ == Operation::AddAddress(request),
        Mutation::RemoveAddress(assigned)@ == Operation::RemoveAddress(assigned),
        Mutation::SetDnsConfig(dns)@ == Operation::SetDnsConfig(dns@),
        Mutation::SetInterfaceConfig(patch)@ == Operation::SetInterfaceConfig(patch),
        Mutation::AddStaticNeighbor(neighbor)@ == Operation::AddStaticNeighbor(neighbor),
        Mutation::RemoveStaticNeighbor(neighbor)@ == Operation::RemoveStaticNeighbor(neighbor),
        Mutation::SetFirewallPolicy(policy)@ == Operation::SetFirewallPolicy(policy@),
{
}

} // verus!
