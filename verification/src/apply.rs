//! The ordered list of steps that turns an observed state into a desired one.
//!
//! A plan is compiled from a [`Diff`]. Compiling only arranges data: it submits nothing, and
//! it does not know which backend will execute the plan.

use crate::address::Network;
use crate::diff::interface_diffs;
use crate::diff::interface_patch;
use crate::diff::unrequested_fields_are_left_alone;
use crate::diff::wanted_of;
use crate::diff::AddressChange;
use crate::diff::Diff;
use crate::diff::DnsChange;
use crate::diff::FirewallChange;
use crate::diff::InterfaceDiff;
use crate::diff::NeighborChange;
use crate::diff::RouteChange;
use crate::error::Error;
use crate::gather::count;
use crate::gather::gathered;
use crate::gather::last_index;
use crate::gather::lemma_count_bound;
use crate::gather::lemma_count_disjoint;
use crate::gather::lemma_count_lone;
use crate::gather::lemma_count_take;
use crate::gather::lemma_count_unique;
use crate::gather::lemma_count_witness;
use crate::gather::lemma_gathered_at;
use crate::gather::lemma_gathered_holds;
use crate::gather::lemma_gathered_origin;
use crate::gather::lemma_gathered_singles;
use crate::gather::lemma_last_index;
use crate::gather::lemma_last_place;
use crate::id::id_is_its_number;
use crate::ifaddr::InterfaceAddress;
use crate::ifaddr::NewInterfaceAddress;
use crate::interface::interface_config_is_its_parts;
use crate::interface::Interface;
use crate::interface::InterfaceConfig;
use crate::interface::InterfaceId;
use crate::mac::mac_is_its_octets;
use crate::mac::MacAddress;
use crate::mutation::Mutation;
use crate::mutation::MutationConfirmation;
use crate::mutation::MutationIdempotency;
use crate::mutation::MutationKind;
use crate::mutation::MutationOperationReport;
use crate::mutation::MutationPrecondition;
use crate::mutation::MutationPrivilege;
use crate::mutation::MutationReversibility;
use crate::mutation::MutationSemantics;
use crate::mutation::Operation;
use crate::mutation::RollbackStatus;
use crate::neighbor::NeighborEntry;
use crate::neighbor::StaticNeighbor;
use crate::route::intent_of;
use crate::route::route_config_from_route;
use crate::route::Route;
use crate::route::RouteConfig;
use vstd::prelude::*;

verus! {

/// One compiled unit of work.
#[derive(Debug, Clone, PartialEq, Eq)]
#[non_exhaustive]
pub enum ApplyStep {
    /// A single mutation.
    Single(Mutation),
    /// The observed route `old` is removed and the desired route `new` is added, as one unit.
    ReplaceRoute {
        /// The observed route being replaced.
        old: Route,
        /// The desired replacement.
        new: RouteConfig,
    },
}

/// What a step asks for.
pub enum Step {
    /// A single mutation.
    Single(Operation),
    /// The replacement of a route.
    ReplaceRoute {
        /// The observed route being replaced.
        old: Route,
        /// The desired replacement.
        new: RouteConfig,
    },
}

impl View for ApplyStep {
    type V = Step;

    open spec fn view(&self) -> Step {
        match self {
            ApplyStep::Single(mutation) => Step::Single(mutation@),
            ApplyStep::ReplaceRoute { old, new } => Step::ReplaceRoute { old: *old, new: *new },
        }
    }
}

impl Step {
    /// The step's contract. A replacement is confirmed by reading back, can only be compensated
    /// with the captured prior route, and may stop half way.
    pub open spec fn semantics(self) -> MutationSemantics {
        match self {
            Step::Single(operation) => operation.semantics(),
            Step::ReplaceRoute { .. } => MutationSemantics {
                kind: MutationKind::ReplaceRoute,
                precondition: MutationPrecondition::Any,
                idempotency: MutationIdempotency::Replace,
                privilege: MutationPrivilege::Elevated,
                confirmation: MutationConfirmation::ReadAfterWrite,
                reversibility: MutationReversibility::RequiresPriorState,
                may_partially_apply: true,
            },
        }
    }
}

impl ApplyStep {
    /// Returns the static contract of this step's native operation.
    pub fn semantics(&self) -> (semantics: MutationSemantics)
        ensures
            semantics == self@.semantics(),
    {
        match self {
            ApplyStep::Single(mutation) => mutation.semantics(),
            ApplyStep::ReplaceRoute { .. } => MutationSemantics {
                kind: MutationKind::ReplaceRoute,
                precondition: MutationPrecondition::Any,
                idempotency: MutationIdempotency::Replace,
                privilege: MutationPrivilege::Elevated,
                confirmation: MutationConfirmation::ReadAfterWrite,
                reversibility: MutationReversibility::RequiresPriorState,
                may_partially_apply: true,
            },
        }
    }
}

/// What a list of steps asks for.
pub open spec fn steps_of(list: Seq<ApplyStep>) -> Seq<Step> {
    list.map_values(|step: ApplyStep| step@)
}

/// A step appended to a list is appended to what the list asks for.
proof fn lemma_steps_push(list: Seq<ApplyStep>, step: ApplyStep)
    ensures
        steps_of(list.push(step)) == steps_of(list) + seq![step@],
{
    assert(steps_of(list.push(step)) =~= steps_of(list) + seq![step@]);
}

// ---- routes ----

/// The destination that a route change is about.
pub open spec fn destination_of(change: RouteChange) -> Network {
    match change {
        RouteChange::Added(config) => config.destination,
        RouteChange::Removed(route) => route.destination,
    }
}

/// The destinations that route changes are about, in order.
pub open spec fn destinations(changes: Seq<RouteChange>) -> Seq<Network> {
    changes.map_values(|change: RouteChange| destination_of(change))
}

/// Tells whether a change adds a route to a destination.
pub open spec fn adds_to(destination: Network) -> spec_fn(RouteChange) -> bool {
    |change: RouteChange| change is Added && destination_of(change) == destination
}

/// Tells whether a change removes a route from a destination.
pub open spec fn removes_from(destination: Network) -> spec_fn(RouteChange) -> bool {
    |change: RouteChange| change is Removed && destination_of(change) == destination
}

/// Whether exactly one route is added to a destination and exactly one removed from it.
pub open spec fn is_replacement(changes: Seq<RouteChange>, destination: Network) -> bool {
    count(changes, adds_to(destination)) == 1 && count(changes, removes_from(destination)) == 1
}

/// What a route change asks for on its own.
pub open spec fn single_route(change: RouteChange) -> Operation {
    match change {
        RouteChange::Added(config) => Operation::AddRoute(config),
        RouteChange::Removed(route) => Operation::RemoveRoute(intent_of(route)),
    }
}

/// What an addition and a removal, in either order, ask for together.
pub open spec fn both_routes(one: RouteChange, other: RouteChange) -> Seq<Step> {
    match (one, other) {
        (RouteChange::Removed(old), RouteChange::Added(new)) => seq![
            Step::ReplaceRoute { old, new },
        ],
        (RouteChange::Added(new), RouteChange::Removed(old)) => seq![
            Step::ReplaceRoute { old, new },
        ],
        _ => Seq::empty(),
    }
}

/// The steps that stand at the position of the `i`-th route change. Where its destination
/// makes a replacement, that stands at the first of the two changes and nothing at the second;
/// any other change stands for itself.
pub open spec fn route_step(changes: Seq<RouteChange>) -> spec_fn(int) -> Seq<Step> {
    |i: int|
        if is_replacement(changes, destination_of(changes[i])) {
            match last_index(destinations(changes), destination_of(changes[i])) {
                Some(j) if i < j => both_routes(changes[i], changes[j]),
                _ => Seq::empty(),
            }
        } else {
            seq![Step::Single(single_route(changes[i]))]
        }
}

/// The steps for route changes, in the order of the changes.
pub open spec fn route_steps(changes: Seq<RouteChange>) -> Seq<Step> {
    gathered(changes.len(), route_step(changes))
}

/// Returns the destination that a route change is about.
fn route_change_destination(change: &RouteChange) -> (destination: Network)
    ensures
        destination == destination_of(*change),
{
    match change {
        RouteChange::Added(config) => config.destination,
        RouteChange::Removed(route) => route.destination,
    }
}

/// Lowers one unpaired route change to a mutation.
fn single_route_mutation(change: &RouteChange) -> (mutation: Mutation)
    ensures
        mutation@ == single_route(*change),
{
    match change {
        RouteChange::Added(config) => Mutation::AddRoute(*config),
        RouteChange::Removed(route) => Mutation::RemoveRoute(route_config_from_route(route)),
    }
}

/// Whether exactly one route is added to a destination and exactly one removed from it.
fn makes_replacement(changes: &Vec<RouteChange>, destination: Network) -> (replacement: bool)
    ensures
        replacement == is_replacement(changes@, destination),
{
    let ghost adds = adds_to(destination);
    let ghost removes = removes_from(destination);
    let mut added: usize = 0;
    let mut removed: usize = 0;
    let mut i: usize = 0;
    assert(changes@.take(0) =~= Seq::empty());
    while i < changes.len()
        invariant
            i <= changes.len(),
            added <= i,
            removed <= i,
            adds == adds_to(destination),
            removes == removes_from(destination),
            added == count(changes@.take(i as int), adds),
            removed == count(changes@.take(i as int), removes),
        decreases changes.len() - i,
    {
        proof {
            lemma_count_take(changes@, adds, i as int);
            lemma_count_take(changes@, removes, i as int);
        }
        if route_change_destination(&changes[i]) == destination {
            match &changes[i] {
                RouteChange::Added(_) => {
                    added = added + 1;
                },
                RouteChange::Removed(_) => {
                    removed = removed + 1;
                },
            }
        }
        i = i + 1;
    }
    assert(changes@.take(i as int) =~= changes@);
    added == 1 && removed == 1
}

/// Finds the last change that is about a destination.
fn find_last_change(changes: &Vec<RouteChange>, destination: Network) -> (found: Option<usize>)
    ensures
        match found {
            Some(j) => j < changes.len() && last_index(destinations(changes@), destination)
                == Some(j as int),
            None => last_index(destinations(changes@), destination) is None,
        },
{
    let ghost all = destinations(changes@);
    let mut i: usize = changes.len();
    assert(all.take(i as int) =~= all);
    while i > 0
        invariant
            i <= changes.len(),
            all == destinations(changes@),
            last_index(all, destination) == last_index(all.take(i as int), destination),
        decreases i,
    {
        i = i - 1;
        proof {
            assert(all.take(i + 1).last() == destination_of(changes@[i as int]));
            assert(all.take(i + 1).drop_last() =~= all.take(i as int));
        }
        if route_change_destination(&changes[i]) == destination {
            return Some(i);
        }
    }
    None
}

/// Compiles route changes. Only a destination with exactly one addition and one removal makes
/// a replacement; several routes to one destination never do.
fn compile_routes(changes: &Vec<RouteChange>) -> (steps: Vec<ApplyStep>)
    ensures
        steps_of(steps@) == route_steps(changes@),
{
    let ghost piece = route_step(changes@);
    let mut steps: Vec<ApplyStep> = Vec::new();
    let mut i: usize = 0;
    assert(steps_of(steps@) =~= Seq::empty());
    while i < changes.len()
        invariant
            i <= changes.len(),
            piece == route_step(changes@),
            steps_of(steps@) == gathered(i as nat, piece),
        decreases changes.len() - i,
    {
        let ghost before = steps@;
        let destination = route_change_destination(&changes[i]);
        if makes_replacement(changes, destination) {
            if let Some(j) = find_last_change(changes, destination) {
                if i < j {
                    match (&changes[i], &changes[j]) {
                        (RouteChange::Removed(old), RouteChange::Added(new)) => {
                            let step = ApplyStep::ReplaceRoute { old: old.clone(), new: *new };
                            proof {
                                lemma_steps_push(before, step);
                            }
                            steps.push(step);
                        },
                        (RouteChange::Added(new), RouteChange::Removed(old)) => {
                            let step = ApplyStep::ReplaceRoute { old: old.clone(), new: *new };
                            proof {
                                lemma_steps_push(before, step);
                            }
                            steps.push(step);
                        },
                        _ => {},
                    }
                }
            }
        } else {
            let step = ApplyStep::Single(single_route_mutation(&changes[i]));
            proof {
                lemma_steps_push(before, step);
            }
            steps.push(step);
        }
        assert(steps_of(steps@) =~= steps_of(before) + piece(i as int));
        i = i + 1;
        assert(gathered(i as nat, piece) == gathered((i - 1) as nat, piece) + piece(i - 1));
    }
    steps
}

// ---- the other domains ----

/// The step for one interface patch: it forwards only the fields that the patch has.
pub open spec fn interface_step(diffs: Seq<InterfaceDiff>) -> spec_fn(int) -> Seq<Step> {
    |i: int|
        seq![
            Step::Single(
                Operation::SetInterfaceConfig(
                    InterfaceConfig::of(
                        diffs[i].interface_id,
                        wanted_of(diffs[i].admin_state),
                        wanted_of(diffs[i].mtu),
                    ),
                ),
            ),
        ]
}

/// The request that names an observed neighbor entry. Entries are removed by interface and
/// address alone, so an entry without a link-layer address stands for one of all zeros.
pub open spec fn static_neighbor_of(entry: NeighborEntry) -> StaticNeighbor {
    StaticNeighbor {
        interface_id: InterfaceId::of(entry.interface_index as u64),
        address: entry.address,
        mac: match entry.mac {
            Some(mac) => mac,
            None => MacAddress::of(seq![0u8, 0, 0, 0, 0, 0]),
        },
    }
}

/// The steps for one neighbor change. A change removes and then adds, since an entry can only
/// be added where there is none.
pub open spec fn neighbor_step(changes: Seq<NeighborChange>) -> spec_fn(int) -> Seq<Step> {
    |i: int|
        match changes[i] {
            NeighborChange::Added(desired) => seq![
                Step::Single(Operation::AddStaticNeighbor(desired)),
            ],
            NeighborChange::Removed(entry) => seq![
                Step::Single(Operation::RemoveStaticNeighbor(static_neighbor_of(entry))),
            ],
            NeighborChange::Changed { current, desired } => seq![
                Step::Single(Operation::RemoveStaticNeighbor(static_neighbor_of(current))),
                Step::Single(Operation::AddStaticNeighbor(desired)),
            ],
        }
}

/// The steps for one address change. A change removes and then adds, since an address can only
/// be added where there is none.
pub open spec fn address_step(changes: Seq<AddressChange>) -> spec_fn(int) -> Seq<Step> {
    |i: int|
        match changes[i] {
            AddressChange::Added(desired) => seq![Step::Single(Operation::AddAddress(desired))],
            AddressChange::Removed(observed) => seq![
                Step::Single(Operation::RemoveAddress(observed)),
            ],
            AddressChange::Changed { current, desired } => seq![
                Step::Single(Operation::RemoveAddress(current)),
                Step::Single(Operation::AddAddress(desired)),
            ],
        }
}

/// The step for a change of the resolver configuration.
pub open spec fn dns_steps(change: Option<DnsChange>) -> Seq<Step> {
    match change {
        Some(both) => seq![Step::Single(Operation::SetDnsConfig(both.desired@))],
        None => Seq::empty(),
    }
}

/// The step for a change of the firewall policy.
pub open spec fn firewall_steps(change: Option<FirewallChange>) -> Seq<Step> {
    match change {
        Some(both) => seq![Step::Single(Operation::SetFirewallPolicy(both.desired@))],
        None => Seq::empty(),
    }
}

/// The steps of a whole diff: routes, interfaces, neighbors, addresses, resolver, firewall.
pub open spec fn plan_of(diff: Diff) -> Seq<Step> {
    route_steps(diff.routes@) + gathered(
        diff.interfaces@.len(),
        interface_step(diff.interfaces@),
    ) + gathered(diff.neighbors@.len(), neighbor_step(diff.neighbors@)) + gathered(
        diff.addresses@.len(),
        address_step(diff.addresses@),
    ) + dns_steps(diff.dns) + firewall_steps(diff.firewall)
}

/// Turns an observed neighbor entry into the request that names it.
pub fn static_neighbor_from_entry(entry: &NeighborEntry) -> (neighbor: StaticNeighbor)
    ensures
        neighbor == static_neighbor_of(*entry),
{
    let mac = match entry.mac {
        Some(mac) => mac,
        None => {
            let zero: [u8; 6] = [0u8, 0, 0, 0, 0, 0];
            assert(zero@ =~= seq![0u8, 0, 0, 0, 0, 0]);
            MacAddress::new(zero)
        },
    };
    StaticNeighbor::new(InterfaceId::new(entry.interface_index as u64), entry.address, mac)
}

/// Appends one single-mutation step.
fn push_single(steps: &mut Vec<ApplyStep>, mutation: Mutation)
    ensures
        steps_of(final(steps)@) == steps_of(old(steps)@) + seq![Step::Single(mutation@)],
{
    let step = ApplyStep::Single(mutation);
    proof {
        lemma_steps_push(steps@, step);
    }
    steps.push(step);
}

/// Appends the steps for interface patches.
fn compile_interfaces(diffs: &Vec<InterfaceDiff>, steps: &mut Vec<ApplyStep>)
    requires
        forall|i: int| 0 <= i < diffs@.len() ==> (#[trigger] diffs@[i]).well_formed(),
    ensures
        steps_of(final(steps)@) == steps_of(old(steps)@) + gathered(
            diffs@.len(),
            interface_step(diffs@),
        ),
{
    let ghost piece = interface_step(diffs@);
    let mut i: usize = 0;
    assert(steps_of(steps@) =~= steps_of(old(steps)@) + gathered(0, piece));
    while i < diffs.len()
        invariant
            i <= diffs.len(),
            forall|k: int| 0 <= k < diffs@.len() ==> (#[trigger] diffs@[k]).well_formed(),
            piece == interface_step(diffs@),
            steps_of(steps@) == steps_of(old(steps)@) + gathered(i as nat, piece),
        decreases diffs.len() - i,
    {
        let ghost before = steps@;
        let diff = &diffs[i];
        assert(diffs@[i as int].well_formed());
        let admin_state = match &diff.admin_state {
            Some(change) => Some(change.desired),
            None => None,
        };
        let mtu = match &diff.mtu {
            Some(change) => Some(change.desired),
            None => None,
        };
        if let Ok(patch) = InterfaceConfig::new(diff.interface_id, admin_state, mtu) {
            push_single(steps, Mutation::SetInterfaceConfig(patch));
        }
        assert(steps_of(steps@) =~= steps_of(before) + piece(i as int));
        i = i + 1;
        assert(gathered(i as nat, piece) == gathered((i - 1) as nat, piece) + piece(i - 1));
        assert(steps_of(steps@) =~= steps_of(old(steps)@) + gathered(i as nat, piece));
    }
}

/// Appends the steps for neighbor changes.
fn compile_neighbors(changes: &Vec<NeighborChange>, steps: &mut Vec<ApplyStep>)
    ensures
        steps_of(final(steps)@) == steps_of(old(steps)@) + gathered(
            changes@.len(),
            neighbor_step(changes@),
        ),
{
    let ghost piece = neighbor_step(changes@);
    let mut i: usize = 0;
    assert(steps_of(steps@) =~= steps_of(old(steps)@) + gathered(0, piece));
    while i < changes.len()
        invariant
            i <= changes.len(),
            piece == neighbor_step(changes@),
            steps_of(steps@) == steps_of(old(steps)@) + gathered(i as nat, piece),
        decreases changes.len() - i,
    {
        let ghost before = steps@;
        match &changes[i] {
            NeighborChange::Added(desired) => {
                push_single(steps, Mutation::AddStaticNeighbor(*desired));
            },
            NeighborChange::Removed(entry) => {
                push_single(
                    steps,
                    Mutation::RemoveStaticNeighbor(static_neighbor_from_entry(entry)),
                );
            },
            NeighborChange::Changed { current, desired } => {
                push_single(
                    steps,
                    Mutation::RemoveStaticNeighbor(static_neighbor_from_entry(current)),
                );
                push_single(steps, Mutation::AddStaticNeighbor(*desired));
            },
        }
        assert(steps_of(steps@) =~= steps_of(before) + piece(i as int));
        i = i + 1;
        assert(gathered(i as nat, piece) == gathered((i - 1) as nat, piece) + piece(i - 1));
        assert(steps_of(steps@) =~= steps_of(old(steps)@) + gathered(i as nat, piece));
    }
}

/// Appends the steps for address changes.
fn compile_addresses(changes: &Vec<AddressChange>, steps: &mut Vec<ApplyStep>)
    ensures
        steps_of(final(steps)@) == steps_of(old(steps)@) + gathered(
            changes@.len(),
            address_step(changes@),
        ),
{
    let ghost piece = address_step(changes@);
    let mut i: usize = 0;
    assert(steps_of(steps@) =~= steps_of(old(steps)@) + gathered(0, piece));
    while i < changes.len()
        invariant
            i <= changes.len(),
            piece == address_step(changes@),
            steps_of(steps@) == steps_of(old(steps)@) + gathered(i as nat, piece),
        decreases changes.len() - i,
    {
        let ghost before = steps@;
        match &changes[i] {
            AddressChange::Added(desired) => {
                push_single(steps, Mutation::AddAddress(desired.clone()));
            },
            AddressChange::Removed(observed) => {
                push_single(steps, Mutation::RemoveAddress(observed.clone()));
            },
            AddressChange::Changed { current, desired } => {
                push_single(steps, Mutation::RemoveAddress(current.clone()));
                push_single(steps, Mutation::AddAddress(desired.clone()));
            },
        }
        assert(steps_of(steps@) =~= steps_of(before) + piece(i as int));
        i = i + 1;
        assert(gathered(i as nat, piece) == gathered((i - 1) as nat, piece) + piece(i - 1));
        assert(steps_of(steps@) =~= steps_of(old(steps)@) + gathered(i as nat, piece));
    }
}

/// An ordered, inspectable list of steps.
#[derive(Debug, Clone, PartialEq, Eq)]
#[non_exhaustive]
pub struct ApplyPlan {
    steps: Vec<ApplyStep>,
}

impl View for ApplyPlan {
    type V = Seq<Step>;

    closed spec fn view(&self) -> Seq<Step> {
        steps_of(self.steps@)
    }
}

impl ApplyPlan {
    /// The steps of the plan, in execution order.
    pub closed spec fn list(self) -> Seq<ApplyStep> {
        self.steps@
    }

    /// Compiles a diff into a plan.
    ///
    /// Routes that are added and removed in pairs become replacements. Every interface patch
    /// becomes one mutation that carries only the patch's own fields. Additions and removals of
    /// neighbors and addresses map one to one, and a change becomes a removal immediately
    /// followed by an addition. The resolver configuration and the firewall policy are each
    /// replaced as a whole. A diff without changes gives a plan without steps.
    pub fn compile(diff: &Diff) -> (plan: ApplyPlan)
        requires
            diff.well_formed(),
        ensures
            plan@ == plan_of(*diff),
    {
        let mut steps = compile_routes(&diff.routes);
        compile_interfaces(&diff.interfaces, &mut steps);
        compile_neighbors(&diff.neighbors, &mut steps);
        compile_addresses(&diff.addresses, &mut steps);
        if let Some(change) = &diff.dns {
            push_single(&mut steps, Mutation::SetDnsConfig(change.desired.clone()));
        }
        if let Some(change) = &diff.firewall {
            push_single(&mut steps, Mutation::SetFirewallPolicy(change.desired.clone()));
        }
        assert(steps_of(steps@) =~= plan_of(*diff));
        ApplyPlan { steps }
    }

    /// Creates a plan from steps in execution order.
    pub fn from_steps(steps: Vec<ApplyStep>) -> (plan: Self)
        ensures
            plan.list() == steps@,
            plan@ == steps_of(steps@),
    {
        ApplyPlan { steps }
    }

    /// Returns the steps in their declared order.
    pub fn steps(&self) -> (steps: &[ApplyStep])
        ensures
            steps@ == self.list(),
            steps_of(steps@) == self@,
    {
        self.steps.as_slice()
    }

    /// Returns the step at `index`, if present.
    pub fn step(&self, index: usize) -> (step: Option<&ApplyStep>)
        ensures
            match step {
                Some(found) => index < self.list().len() && *found == self.list()[index as int]
                    && found@ == self@[index as int],
                None => index >= self.list().len(),
            },
    {
        if index < self.steps.len() {
            Some(&self.steps[index])
        } else {
            None
        }
    }

    /// Number of steps in the plan.
    pub fn len(&self) -> (len: usize)
        ensures
            len == self@.len(),
    {
        self.steps.len()
    }

    /// Whether the plan has no steps.
    pub fn is_empty(&self) -> (empty: bool)
        ensures
            empty == (self@.len() == 0),
    {
        self.steps.len() == 0
    }

    /// Takes the plan apart into its steps, in their declared order.
    pub fn into_iter(self) -> (steps: Vec<ApplyStep>)
        ensures
            steps@ == self.list(),
            steps_of(steps@) == self@,
    {
        self.steps
    }
}

// ---- reports ----

/// The result recorded for one step of an executed plan.
#[derive(Debug)]
#[non_exhaustive]
pub enum ApplyStepOutcome {
    /// The step completed and, for a replacement, reading back confirmed the end state.
    Applied,
    /// A native operation returned an error.
    Failed {
        /// Backend error returned by the operation.
        error: Error,
        /// Whether the operation may have changed state before failing.
        may_have_applied: bool,
    },
    /// The step was not attempted because an earlier one did not succeed or execution was
    /// cancelled.
    NotAttempted,
    /// Rejected before any native call, because the connected backend cannot honor what the
    /// step requires.
    Rejected {
        /// The rejection error.
        error: Error,
    },
    /// A native call reported success but the end state could not be confirmed, or a
    /// precondition no longer held.
    NonConvergent {
        /// Why the outcome could not be confirmed.
        reason: NonConvergentReason,
    },
}

/// Why an [`ApplyStepOutcome::NonConvergent`] outcome was recorded.
#[derive(Debug, Clone, Copy, PartialEq, Eq, Structural)]
#[non_exhaustive]
pub enum NonConvergentReason {
    /// What the step depended on no longer matched when it was checked again right before
    /// execution.
    StalePrecondition,
    /// Reading back could not confirm both halves of a replacement.
    AmbiguousReplacementUnverifiable,
}

/// Executor report for an ordered [`ApplyPlan`].
///
/// The outcome at index `n` belongs to the plan's step `n`; a replacement is reported as one
/// unit.
#[derive(Debug)]
pub struct ApplyPlanReport {
    outcomes: Vec<ApplyStepOutcome>,
    rollback: RollbackStatus,
    operation_reports: Vec<MutationOperationReport>,
}

impl ApplyPlanReport {
    /// The recorded outcomes.
    pub closed spec fn recorded(self) -> Seq<ApplyStepOutcome> {
        self.outcomes@
    }

    /// The recorded rollback status.
    pub closed spec fn recorded_rollback(self) -> RollbackStatus {
        self.rollback
    }

    /// The recorded phase and timing metadata.
    pub closed spec fn recorded_reports(self) -> Seq<MutationOperationReport> {
        self.operation_reports@
    }

    /// Creates a report for outcomes in the plan's declared order.
    pub fn new(outcomes: Vec<ApplyStepOutcome>, rollback: RollbackStatus) -> (report: Self)
        ensures
            report.recorded() == outcomes@,
            report.recorded_rollback() == rollback,
            report.recorded_reports() == Seq::new(
                outcomes@.len(),
                |i: int| MutationOperationReport::untouched(),
            ),
    {
        let operation_reports = MutationOperationReport::not_attempted_each(outcomes.len());
        ApplyPlanReport { outcomes, rollback, operation_reports }
    }

    /// Creates a report with phase and timing metadata aligned to outcomes.
    pub fn with_operation_reports(
        outcomes: Vec<ApplyStepOutcome>,
        rollback: RollbackStatus,
        operation_reports: Vec<MutationOperationReport>,
    ) -> (report: Self)
        ensures
            report.recorded() == outcomes@,
            report.recorded_rollback() == rollback,
            report.recorded_reports() == operation_reports@,
    {
        ApplyPlanReport { outcomes, rollback, operation_reports }
    }

    /// Returns one outcome for each step attempted or skipped.
    pub fn outcomes(&self) -> (outcomes: &[ApplyStepOutcome])
        ensures
            outcomes@ == self.recorded(),
    {
        self.outcomes.as_slice()
    }

    /// Returns the outcome at a plan-local step index, if present.
    pub fn outcome(&self, index: usize) -> (outcome: Option<&ApplyStepOutcome>)
        ensures
            match outcome {
                Some(found) => index < self.recorded().len() && *found
                    == self.recorded()[index as int],
                None => index >= self.recorded().len(),
            },
    {
        if index < self.outcomes.len() {
            Some(&self.outcomes[index])
        } else {
            None
        }
    }

    /// Returns the number of recorded outcomes.
    pub fn len(&self) -> (len: usize)
        ensures
            len == self.recorded().len(),
    {
        self.outcomes.len()
    }

    /// Whether no outcomes have been recorded.
    pub fn is_empty(&self) -> (empty: bool)
        ensures
            empty == (self.recorded().len() == 0),
    {
        self.outcomes.len() == 0
    }

    /// Returns the rollback status recorded by the executor.
    pub fn rollback(&self) -> (rollback: &RollbackStatus)
        ensures
            *rollback == self.recorded_rollback(),
    {
        &self.rollback
    }

    /// Returns phase and timing metadata aligned with [`Self::outcomes`].
    pub fn operation_reports(&self) -> (reports: &[MutationOperationReport])
        ensures
            reports@ == self.recorded_reports(),
    {
        self.operation_reports.as_slice()
    }

    /// Returns phase and timing metadata for one plan-local step.
    pub fn operation_report(&self, index: usize) -> (report: Option<&MutationOperationReport>)
        ensures
            match report {
                Some(found) => index < self.recorded_reports().len() && *found
                    == self.recorded_reports()[index as int],
                None => index >= self.recorded_reports().len(),
            },
    {
        if index < self.operation_reports.len() {
            Some(&self.operation_reports[index])
        } else {
            None
        }
    }

    /// Whether every recorded step was applied successfully.
    pub fn is_success(&self) -> (success: bool)
        ensures
            success == (forall|i: int|
                0 <= i < self.recorded().len() ==> #[trigger] self.recorded()[i] is Applied),
    {
        let mut i: usize = 0;
        while i < self.outcomes.len()
            invariant
                i <= self.outcomes.len(),
                forall|k: int| 0 <= k < i ==> #[trigger] self.recorded()[k] is Applied,
            decreases self.outcomes.len() - i,
        {
            if !matches!(self.outcomes[i], ApplyStepOutcome::Applied) {
                assert(!(self.recorded()[i as int] is Applied));
                return false;
            }
            i = i + 1;
        }
        true
    }

    /// Number of steps recorded as applied.
    pub fn applied_count(&self) -> (number: usize)
        ensures
            number == count(self.recorded(), |outcome: ApplyStepOutcome| outcome is Applied),
    {
        let ghost test = |outcome: ApplyStepOutcome| outcome is Applied;
        let mut number: usize = 0;
        let mut i: usize = 0;
        assert(self.outcomes@.take(0) =~= Seq::empty());
        while i < self.outcomes.len()
            invariant
                number <= i <= self.outcomes.len(),
                test == (|outcome: ApplyStepOutcome| outcome is Applied),
                number == count(self.outcomes@.take(i as int), test),
            decreases self.outcomes.len() - i,
        {
            proof {
                lemma_count_take(self.outcomes@, test, i as int);
            }
            if matches!(self.outcomes[i], ApplyStepOutcome::Applied) {
                number = number + 1;
            }
            i = i + 1;
        }
        assert(self.outcomes@.take(i as int) =~= self.outcomes@);
        number
    }

    /// Number of steps the executor did not attempt.
    pub fn not_attempted_count(&self) -> (number: usize)
        ensures
            number == count(self.recorded(), |outcome: ApplyStepOutcome| outcome is NotAttempted),
    {
        let ghost test = |outcome: ApplyStepOutcome| outcome is NotAttempted;
        let mut number: usize = 0;
        let mut i: usize = 0;
        assert(self.outcomes@.take(0) =~= Seq::empty());
        while i < self.outcomes.len()
            invariant
                number <= i <= self.outcomes.len(),
                test == (|outcome: ApplyStepOutcome| outcome is NotAttempted),
                number == count(self.outcomes@.take(i as int), test),
            decreases self.outcomes.len() - i,
        {
            proof {
                lemma_count_take(self.outcomes@, test, i as int);
            }
            if matches!(self.outcomes[i], ApplyStepOutcome::NotAttempted) {
                number = number + 1;
            }
            i = i + 1;
        }
        assert(self.outcomes@.take(i as int) =~= self.outcomes@);
        number
    }

    /// Number of steps rejected before any native call was attempted.
    pub fn rejected_count(&self) -> (number: usize)
        ensures
            number == count(self.recorded(), |outcome: ApplyStepOutcome| outcome is Rejected),
    {
        let ghost test = |outcome: ApplyStepOutcome| outcome is Rejected;
        let mut number: usize = 0;
        let mut i: usize = 0;
        assert(self.outcomes@.take(0) =~= Seq::empty());
        while i < self.outcomes.len()
            invariant
                number <= i <= self.outcomes.len(),
                test == (|outcome: ApplyStepOutcome| outcome is Rejected),
                number == count(self.outcomes@.take(i as int), test),
            decreases self.outcomes.len() - i,
        {
            proof {
                lemma_count_take(self.outcomes@, test, i as int);
            }
            if matches!(self.outcomes[i], ApplyStepOutcome::Rejected { .. }) {
                number = number + 1;
            }
            i = i + 1;
        }
        assert(self.outcomes@.take(i as int) =~= self.outcomes@);
        number
    }

    /// Number of steps recorded as non-convergent.
    pub fn non_convergent_count(&self) -> (number: usize)
        ensures
            number == count(self.recorded(), |outcome: ApplyStepOutcome| outcome is NonConvergent),
    {
        let ghost test = |outcome: ApplyStepOutcome| outcome is NonConvergent;
        let mut number: usize = 0;
        let mut i: usize = 0;
        assert(self.outcomes@.take(0) =~= Seq::empty());
        while i < self.outcomes.len()
            invariant
                number <= i <= self.outcomes.len(),
                test == (|outcome: ApplyStepOutcome| outcome is NonConvergent),
                number == count(self.outcomes@.take(i as int), test),
            decreases self.outcomes.len() - i,
        {
            proof {
                lemma_count_take(self.outcomes@, test, i as int);
            }
            if matches!(self.outcomes[i], ApplyStepOutcome::NonConvergent { .. }) {
                number = number + 1;
            }
            i = i + 1;
        }
        assert(self.outcomes@.take(i as int) =~= self.outcomes@);
        number
    }
}

// ---- laws ----

/// A diff without changes compiles to a plan without steps.
pub proof fn empty_diff_compiles_to_empty_plan(diff: Diff)
    requires
        diff.is_empty(),
    ensures
        plan_of(diff) == Seq::<Step>::empty(),
{
    assert(plan_of(diff) =~= Seq::empty());
}

/// A report is a success exactly when as many steps were applied as are recorded, and no step
/// is counted twice.
pub proof fn step_counts_agree(outcomes: Seq<ApplyStepOutcome>)
    ensures
        (forall|i: int| 0 <= i < outcomes.len() ==> #[trigger] outcomes[i] is Applied) <==> count(
            outcomes,
            |outcome: ApplyStepOutcome| outcome is Applied,
        ) == outcomes.len(),
        count(outcomes, |outcome: ApplyStepOutcome| outcome is Applied) + count(
            outcomes,
            |outcome: ApplyStepOutcome| outcome is NotAttempted,
        ) + count(outcomes, |outcome: ApplyStepOutcome| outcome is Rejected) + count(
            outcomes,
            |outcome: ApplyStepOutcome| outcome is NonConvergent,
        ) <= outcomes.len(),
{
    let applied = |outcome: ApplyStepOutcome| outcome is Applied;
    let skipped = |outcome: ApplyStepOutcome| outcome is NotAttempted;
    let rejected = |outcome: ApplyStepOutcome| outcome is Rejected;
    let doubtful = |outcome: ApplyStepOutcome| outcome is NonConvergent;
    let two = |outcome: ApplyStepOutcome| outcome is Applied || outcome is NotAttempted;
    let three = |outcome: ApplyStepOutcome|
        outcome is Applied || outcome is NotAttempted || outcome is Rejected;
    let four = |outcome: ApplyStepOutcome|
        outcome is Applied || outcome is NotAttempted || outcome is Rejected
            || outcome is NonConvergent;
    lemma_count_bound(outcomes, applied);
    lemma_count_disjoint(outcomes, applied, skipped, two);
    lemma_count_disjoint(outcomes, two, rejected, three);
    lemma_count_disjoint(outcomes, three, doubtful, four);
    lemma_count_bound(outcomes, four);
    if count(outcomes, applied) == outcomes.len() {
        assert forall|i: int| 0 <= i < outcomes.len() implies #[trigger] outcomes[i] is Applied by {
            assert(applied(outcomes[i]));
        }
    }
    if forall|i: int| 0 <= i < outcomes.len() ==> #[trigger] outcomes[i] is Applied {
        assert forall|i: int| 0 <= i < outcomes.len() implies applied(#[trigger] outcomes[i]) by {
            assert(outcomes[i] is Applied);
        }
    }
}

/// A replacement is compiled only where exactly one route is added to a destination and
/// exactly one removed from it, and it carries just these two. Several routes to one
/// destination are never replaced.
pub proof fn only_single_pairs_are_replaced(
    changes: Seq<RouteChange>,
    old_route: Route,
    new_route: RouteConfig,
)
    requires
        route_steps(changes).contains(Step::ReplaceRoute { old: old_route, new: new_route }),
    ensures
        is_replacement(changes, new_route.destination),
        old_route.destination == new_route.destination,
        changes.contains(RouteChange::Removed(old_route)),
        changes.contains(RouteChange::Added(new_route)),
{
    let piece = route_step(changes);
    let step = Step::ReplaceRoute { old: old_route, new: new_route };
    let at = lemma_gathered_origin(changes.len(), piece, step);
    let all = destinations(changes);
    let destination = destination_of(changes[at.0]);
    lemma_last_index(all, destination);
    let j = last_index(all, destination)->0;
    assert(destination_of(changes[j]) == destination);
    assert(changes.contains(changes[at.0]));
    assert(changes.contains(changes[j]));
}

/// Every route change is carried out: alone, or as a half of the replacement at its
/// destination.
pub proof fn every_route_change_is_carried_out(changes: Seq<RouteChange>, i: int)
    requires
        0 <= i < changes.len(),
    ensures
        if is_replacement(changes, destination_of(changes[i])) {
            exists|old_route: Route, new_route: RouteConfig|
                #[trigger] route_steps(changes).contains(
                    Step::ReplaceRoute { old: old_route, new: new_route },
                ) && (changes[i] == RouteChange::Removed(old_route) || changes[i]
                    == RouteChange::Added(new_route))
        } else {
            route_steps(changes).contains(Step::Single(single_route(changes[i])))
        },
{
    let piece = route_step(changes);
    let destination = destination_of(changes[i]);
    if is_replacement(changes, destination) {
        let adds = adds_to(destination);
        let removes = removes_from(destination);
        let added = lemma_count_witness(changes, adds);
        let removed = lemma_count_witness(changes, removes);
        if adds(changes[i]) {
            lemma_count_unique(changes, adds, added, i);
        } else {
            assert(removes(changes[i]));
            lemma_count_unique(changes, removes, removed, i);
        }
        let all = destinations(changes);
        let first = if added < removed {
            added
        } else {
            removed
        };
        let second = if added < removed {
            removed
        } else {
            added
        };
        lemma_last_index(all, destination);
        let j = last_index(all, destination)->0;
        assert(all[added] == destination && all[removed] == destination);
        assert(all.contains(destination));
        assert(all[j] == destination_of(changes[j]));
        if adds(changes[j]) {
            lemma_count_unique(changes, adds, added, j);
        } else {
            assert(removes(changes[j]));
            lemma_count_unique(changes, removes, removed, j);
        }
        assert(j == second);
        let old_route = changes[removed]->Removed_0;
        let new_route = changes[added]->Added_0;
        assert(piece(first) == seq![Step::ReplaceRoute { old: old_route, new: new_route }]);
        lemma_gathered_holds(changes.len(), piece, first, 0);
        assert(route_steps(changes).contains(
            Step::ReplaceRoute { old: old_route, new: new_route },
        ));
        assert(changes[i] == RouteChange::Removed(old_route) || changes[i] == RouteChange::Added(
            new_route,
        ));
    } else {
        assert(piece(i)[0] == Step::Single(single_route(changes[i])));
        lemma_gathered_holds(changes.len(), piece, i, 0);
    }
}

/// From a desired state to a plan, a field of an interface that nobody requested is never sent:
/// every patch in the plan goes to an interface that was asked about, with the settings that
/// were asked for and no others.
pub proof fn unrequested_fields_are_never_sent(
    current: Seq<Interface>,
    desired: Seq<InterfaceConfig>,
    patch: InterfaceConfig,
)
    requires
        gathered(
            interface_diffs(current, Some(desired)).len(),
            interface_step(interface_diffs(current, Some(desired))),
        ).contains(Step::Single(Operation::SetInterfaceConfig(patch))),
    ensures
        exists|j: int|
            0 <= j < desired.len() && (#[trigger] desired[j]).interface_id() == patch.interface_id()
                && (patch.admin_state() is Some ==> patch.admin_state()
                == desired[j].admin_state()) && (patch.mtu() is Some ==> patch.mtu()
                == desired[j].mtu()),
{
    let diffs = interface_diffs(current, Some(desired));
    let step = Step::Single(Operation::SetInterfaceConfig(patch));
    let at = lemma_gathered_origin(diffs.len(), interface_step(diffs), step);
    let diff = diffs[at.0];
    interface_config_is_its_parts(
        patch,
        patch,
        diff.interface_id,
        wanted_of(diff.admin_state),
        wanted_of(diff.mtu),
    );
    assert(diffs.contains(diff));
    let from = lemma_gathered_origin(desired.len(), interface_patch(current, desired), diff);
    unrequested_fields_are_left_alone(current, desired[from.0]);
    assert(desired[from.0].interface_id() == patch.interface_id());
}

/// What a change asks for by itself: an addition adds what is desired, a removal removes what was
/// observed, and a change first removes what was observed and then adds what is desired.
pub proof fn changes_remove_before_they_add(
    entry: NeighborEntry,
    neighbor: StaticNeighbor,
    assigned: InterfaceAddress,
    request: NewInterfaceAddress,
)
    ensures
        neighbor_step(seq![NeighborChange::Added(neighbor)])(0) == seq![
            Step::Single(Operation::AddStaticNeighbor(neighbor)),
        ],
        neighbor_step(seq![NeighborChange::Removed(entry)])(0).len() == 1,
        neighbor_step(seq![NeighborChange::Removed(entry)])(0)[0] matches Step::Single(
            Operation::RemoveStaticNeighbor(removed),
        ) && removed.interface_id.value() == entry.interface_index && removed.address
            == entry.address,
        neighbor_step(
            seq![NeighborChange::Changed { current: entry, desired: neighbor }],
        )(0).len() == 2,
        neighbor_step(
            seq![NeighborChange::Changed { current: entry, desired: neighbor }],
        )(0)[0] matches Step::Single(Operation::RemoveStaticNeighbor(removed))
            && removed.interface_id.value() == entry.interface_index && removed.address
            == entry.address,
        neighbor_step(
            seq![NeighborChange::Changed { current: entry, desired: neighbor }],
        )(0)[1] == Step::Single(Operation::AddStaticNeighbor(neighbor)),
        address_step(seq![AddressChange::Added(request)])(0) == seq![
            Step::Single(Operation::AddAddress(request)),
        ],
        address_step(seq![AddressChange::Removed(assigned)])(0) == seq![
            Step::Single(Operation::RemoveAddress(assigned)),
        ],
        address_step(
            seq![AddressChange::Changed { current: assigned, desired: request }],
        )(0) == seq![
            Step::Single(Operation::RemoveAddress(assigned)),
            Step::Single(Operation::AddAddress(request)),
        ],
{
    let id = InterfaceId::of(entry.interface_index as u64);
    id_is_its_number(id, id, entry.interface_index as u64);
}

/// The request that names an observed entry has its interface, its address, and its link-layer
/// address, or one of all zeros where that is not known.
pub proof fn observed_entries_are_named_by_their_key(entry: NeighborEntry)
    ensures
        static_neighbor_of(entry).interface_id.value() == entry.interface_index,
        static_neighbor_of(entry).address == entry.address,
        entry.mac matches Some(mac) ==> static_neighbor_of(entry).mac == mac,
        entry.mac is None ==> static_neighbor_of(entry).mac.bytes() == seq![0u8, 0, 0, 0, 0, 0],
{
    let id = InterfaceId::of(entry.interface_index as u64);
    id_is_its_number(id, id, entry.interface_index as u64);
    let zero = MacAddress::of(seq![0u8, 0, 0, 0, 0, 0]);
    mac_is_its_octets(zero, zero, seq![0u8, 0, 0, 0, 0, 0]);
}

/// A replacement of a route may follow on any state, replaces, is privileged and read back, can
/// be undone with the prior route alone, and may stop half way.
pub proof fn replacements_need_and_promise(old_route: Route, new_route: RouteConfig)
    ensures
        ({
            let promised = (Step::ReplaceRoute { old: old_route, new: new_route }).semantics();
            &&& promised.kind == MutationKind::ReplaceRoute
            &&& promised.precondition == MutationPrecondition::Any
            &&& promised.idempotency == MutationIdempotency::Replace
            &&& promised.privilege == MutationPrivilege::Elevated
            &&& promised.confirmation == MutationConfirmation::ReadAfterWrite
            &&& promised.reversibility == MutationReversibility::RequiresPriorState
            &&& promised.may_partially_apply
        }),
{
}

/// Every change has its steps at its own place: the steps of an earlier neighbor or address
/// change stand before those of a later one.
pub proof fn steps_follow_the_changes(
    neighbors: Seq<NeighborChange>,
    addresses: Seq<AddressChange>,
    i: nat,
    k: int,
)
    ensures
        i < neighbors.len() && 0 <= k < neighbor_step(neighbors)(i as int).len() ==> gathered(
            neighbors.len(),
            neighbor_step(neighbors),
        )[gathered(i, neighbor_step(neighbors)).len() + k] == neighbor_step(neighbors)(
            i as int,
        )[k],
        i < addresses.len() && 0 <= k < address_step(addresses)(i as int).len() ==> gathered(
            addresses.len(),
            address_step(addresses),
        )[gathered(i, address_step(addresses)).len() + k] == address_step(addresses)(i as int)[k],
{
    if i < neighbors.len() && 0 <= k < neighbor_step(neighbors)(i as int).len() {
        lemma_gathered_at(neighbors.len(), neighbor_step(neighbors), i, k);
    }
    if i < addresses.len() && 0 <= k < address_step(addresses)(i as int).len() {
        lemma_gathered_at(addresses.len(), address_step(addresses), i, k);
    }
}

/// What a route change asks for on its own: an addition adds what is desired, and a removal
/// removes the route with the fields that were observed.
pub proof fn single_changes_ask_for_themselves(config: RouteConfig, route: Route)
    ensures
        single_route(RouteChange::Added(config)) == Operation::AddRoute(config),
        single_route(RouteChange::Removed(route)) matches Operation::RemoveRoute(found)
            && found.destination == route.destination && found.gateway == route.gateway
            && found.metric == route.metric && found.interface_index == route.interface_index,
{
}

/// Where a destination loses one route and gets one, and no other change is about it, the two
/// changes become one replacement, at the place of the first.
pub proof fn lone_pairs_are_replaced(changes: Seq<RouteChange>, i: int, j: int)
    requires
        0 <= i < changes.len(),
        0 <= j < changes.len(),
        changes[i] is Removed,
        changes[j] is Added,
        changes[i]->Removed_0.destination == changes[j]->Added_0.destination,
        forall|k: int|
            0 <= k < changes.len() && k != i && k != j ==> (match #[trigger] changes[k] {
                RouteChange::Added(config) => config.destination
                    != changes[j]->Added_0.destination,
                RouteChange::Removed(route) => route.destination
                    != changes[j]->Added_0.destination,
            }),
    ensures
        ({
            let step = Step::ReplaceRoute {
                old: changes[i]->Removed_0,
                new: changes[j]->Added_0,
            };
            &&& route_steps(changes).contains(step)
            &&& i < j ==> route_step(changes)(i) == seq![step] && route_step(changes)(j).len() == 0
            &&& j < i ==> route_step(changes)(j) == seq![step] && route_step(changes)(i).len() == 0
        }),
{
    let destination = changes[j]->Added_0.destination;
    let adds = adds_to(destination);
    let removes = removes_from(destination);
    assert forall|k: int| 0 <= k < changes.len() && k != j implies !adds(
        #[trigger] changes[k],
    ) by {}
    assert forall|k: int| 0 <= k < changes.len() && k != i implies !removes(
        #[trigger] changes[k],
    ) by {}
    lemma_count_lone(changes, adds, j);
    lemma_count_lone(changes, removes, i);
    let all = destinations(changes);
    let first = if i < j {
        i
    } else {
        j
    };
    let second = if i < j {
        j
    } else {
        i
    };
    assert(forall|k: int| 0 <= k < all.len() ==> #[trigger] all[k] == destination_of(changes[k]));
    assert forall|k: int| second < k < all.len() implies #[trigger] all[k] != all[second] by {
        assert(destination_of(changes[k]) != destination);
    }
    lemma_last_place(all, second);
    assert(all[first] == destination && all[second] == destination);
    assert(last_index(all, destination) == Some(second));
    let step = Step::ReplaceRoute { old: changes[i]->Removed_0, new: changes[j]->Added_0 };
    let piece = route_step(changes);
    assert(piece(first) == seq![step]);
    assert(piece(second).len() == 0);
    assert(piece(first)[0] == step);
    lemma_gathered_holds(changes.len(), piece, first, 0);
}

/// A route that is replaced is the only one that its destination loses, and the one that replaces
/// it the only one that its destination gets.
pub proof fn replaced_routes_are_alone(
    changes: Seq<RouteChange>,
    old_route: Route,
    new_route: RouteConfig,
    k: int,
)
    requires
        route_steps(changes).contains(Step::ReplaceRoute { old: old_route, new: new_route }),
        0 <= k < changes.len(),
    ensures
        changes[k] matches RouteChange::Added(config) ==> config.destination
            == new_route.destination ==> config == new_route,
        changes[k] matches RouteChange::Removed(route) ==> route.destination
            == old_route.destination ==> route == old_route,
{
    only_single_pairs_are_replaced(changes, old_route, new_route);
    let destination = new_route.destination;
    let adds = adds_to(destination);
    let removes = removes_from(destination);
    let added = choose|at: int|
        0 <= at < changes.len() && changes[at] == RouteChange::Added(new_route);
    let removed = choose|at: int|
        0 <= at < changes.len() && changes[at] == RouteChange::Removed(old_route);
    assert(adds(changes[added]) && removes(changes[removed]));
    if adds(changes[k]) {
        lemma_count_unique(changes, adds, added, k);
    }
    if removes(changes[k]) {
        lemma_count_unique(changes, removes, removed, k);
    }
}

/// A route change whose destination sees another change of the same kind, or none of the other
/// kind, is carried out on its own.
pub proof fn other_route_changes_stand_alone(changes: Seq<RouteChange>, i: int, other: int)
    requires
        0 <= i < changes.len(),
        ({
            ||| 0 <= other < changes.len() && other != i && (changes[i] is Added
                <==> changes[other] is Added) && destination_of(changes[other]) == destination_of(
                changes[i],
            )
            ||| forall|k: int|
                0 <= k < changes.len() && destination_of(#[trigger] changes[k]) == destination_of(
                    changes[i],
                ) ==> (changes[k] is Added <==> changes[i] is Added)
        }),
    ensures
        route_steps(changes).contains(Step::Single(single_route(changes[i]))),
{
    let destination = destination_of(changes[i]);
    let adds = adds_to(destination);
    let removes = removes_from(destination);
    if is_replacement(changes, destination) {
        let added = lemma_count_witness(changes, adds);
        let removed = lemma_count_witness(changes, removes);
        assert(destination_of(changes[added]) == destination);
        assert(destination_of(changes[removed]) == destination);
        if adds(changes[i]) {
            lemma_count_unique(changes, adds, i, other);
        } else {
            assert(removes(changes[i]));
            lemma_count_unique(changes, removes, i, other);
        }
    }
    every_route_change_is_carried_out(changes, i);
}

/// A patch is sent for its own interface with the values that were desired for the fields that
/// differ, and with no others.
pub proof fn patches_send_what_differs(diffs: Seq<InterfaceDiff>, i: int)
    requires
        0 <= i < diffs.len(),
    ensures
        gathered(diffs.len(), interface_step(diffs)).len() == diffs.len(),
        gathered(diffs.len(), interface_step(diffs))[i] matches Step::Single(
            Operation::SetInterfaceConfig(patch),
        ) && patch.interface_id() == diffs[i].interface_id && (patch.admin_state() is Some
            <==> diffs[i].admin_state is Some) && (patch.mtu() is Some <==> diffs[i].mtu is Some)
            && (diffs[i].admin_state matches Some(change) ==> patch.admin_state() == Some(
            change.desired,
        )) && (diffs[i].mtu matches Some(change) ==> patch.mtu() == Some(change.desired)),
{
    let piece = interface_step(diffs);
    lemma_gathered_singles(diffs.len(), piece);
    assert(gathered(diffs.len(), piece)[i] == piece(i)[0]);
    let patch = InterfaceConfig::of(
        diffs[i].interface_id,
        wanted_of(diffs[i].admin_state),
        wanted_of(diffs[i].mtu),
    );
    interface_config_is_its_parts(
        patch,
        patch,
        diffs[i].interface_id,
        wanted_of(diffs[i].admin_state),
        wanted_of(diffs[i].mtu),
    );
}

/// A change of the resolver or of the firewall is one step with the whole that is desired.
pub proof fn wholes_are_sent_in_one_step(dns: DnsChange, firewall: FirewallChange)
    ensures
        dns_steps(Some(dns)) == seq![Step::Single(Operation::SetDnsConfig(dns.desired@))],
        dns_steps(None).len() == 0,
        firewall_steps(Some(firewall)) == seq![
            Step::Single(Operation::SetFirewallPolicy(firewall.desired@)),
        ],
        firewall_steps(None).len() == 0,
{
}

/// A step asks for what it holds: a single mutation, or a replacement with both routes.
pub proof fn steps_ask_for_what_they_hold(
    mutation: Mutation,
    old_route: Route,
    new_route: RouteConfig,
)
    ensures
        ApplyStep::Single(mutation)@ == Step::Single(mutation@),
        (ApplyStep::ReplaceRoute { old: old_route, new: new_route })@ == (Step::ReplaceRoute {
            old: old_route,
            new: new_route,
        }),
{
}

} // verus!
