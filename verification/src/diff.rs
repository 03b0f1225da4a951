//! The computed difference between an observed state and a desired one.
//!
//! A diff only says what differs. Whether and how it is acted upon is decided elsewhere; see
//! [`crate::apply`].

use crate::address::IpAddress;
use crate::address::Network;
use crate::desired_state::DesiredState;
use crate::dns::same_addresses;
use crate::dns::same_strings;
use crate::dns::DnsConfig;
use crate::dns::NewDnsConfig;
use crate::firewall::copy_rules;
use crate::firewall::same_rules;
use crate::firewall::FirewallPolicy;
use crate::firewall::FirewallRule;
use crate::gather::gathered;
use crate::gather::given;
use crate::gather::is_last;
use crate::gather::last_index;
use crate::gather::lemma_gathered_empty;
use crate::gather::lemma_gathered_holds;
use crate::gather::lemma_gathered_origin;
use crate::gather::lemma_gathered_related;
use crate::gather::lemma_gathered_singles;
use crate::gather::lemma_is_last_index;
use crate::gather::lemma_last_index;
use crate::gather::lemma_last_place;
use crate::gather::optional;
use crate::id::id_is_its_number;
use crate::ifaddr::InterfaceAddress;
use crate::ifaddr::NewInterfaceAddress;
use crate::interface::requests_something;
use crate::interface::AdminState;
use crate::interface::DesiredAdminState;
use crate::interface::Interface;
use crate::interface::InterfaceConfig;
use crate::interface::InterfaceId;
use crate::neighbor::NeighborEntry;
use crate::neighbor::StaticNeighbor;
use crate::route::intent_of;
use crate::route::intents;
use crate::route::route_config_from_route;
use crate::route::Route;
use crate::route::RouteConfig;
use crate::snapshot::CurrentState;
use crate::text::texts;
use vstd::prelude::*;

verus! {

/// The computed difference between a [`CurrentState`] and a [`DesiredState`], one field per
/// domain.
///
/// Routes, neighbors and addresses are matched by a natural key. Interfaces are compared field
/// by field where a field was requested. The resolver configuration and the firewall rules are
/// each compared as a whole.
#[derive(Debug, Clone, PartialEq, Eq)]
pub struct Diff {
    /// Routes to add or remove. There is no "changed" case: all four settable fields belong to
    /// the natural key, so a route that differs in any of them is a removal and an addition.
    pub routes: Vec<RouteChange>,
    /// One patch for each interface that has a requested field which differs from what was
    /// observed.
    pub interfaces: Vec<InterfaceDiff>,
    /// Static neighbor entries to add, remove or change, matched by interface and address.
    pub neighbors: Vec<NeighborChange>,
    /// Interface addresses to add, remove or change, matched by interface and address.
    pub addresses: Vec<AddressChange>,
    /// The change of the resolver configuration, if any.
    pub dns: Option<DnsChange>,
    /// The change of the firewall rules, if any.
    pub firewall: Option<FirewallChange>,
}

/// An observed value beside the desired value that differs from it.
#[derive(Debug, Clone, PartialEq, Eq)]
pub struct Change<C, D> {
    /// The currently observed value.
    pub current: C,
    /// The desired value, which differs from `current`.
    pub desired: D,
}

/// A per-field patch for one interface.
///
/// A field is present only when it was requested and differs from what was observed.
#[derive(Debug, Clone, PartialEq, Eq)]
pub struct InterfaceDiff {
    /// The interface this patch applies to.
    pub interface_id: InterfaceId,
    /// The requested administrative state, if it was requested and differs.
    pub admin_state: Option<Change<AdminState, DesiredAdminState>>,
    /// The requested MTU, if it was requested and differs.
    pub mtu: Option<Change<u32, u32>>,
}

/// A route to add or remove.
#[derive(Debug, Clone, PartialEq, Eq)]
#[non_exhaustive]
pub enum RouteChange {
    /// A desired route that was not observed.
    Added(RouteConfig),
    /// An observed route that is not desired.
    Removed(Route),
}

/// A static neighbor entry to add, remove or change.
#[derive(Debug, Clone, PartialEq, Eq)]
#[non_exhaustive]
pub enum NeighborChange {
    /// A desired entry whose interface and address were not observed.
    Added(StaticNeighbor),
    /// An observed entry whose interface and address are not desired.
    Removed(NeighborEntry),
    /// An entry that is both observed and desired, with another link-layer address.
    Changed {
        /// The currently observed entry.
        current: NeighborEntry,
        /// The desired entry, whose link-layer address differs.
        desired: StaticNeighbor,
    },
}

/// An interface address to add, remove or change.
#[derive(Debug, Clone, PartialEq, Eq)]
#[non_exhaustive]
pub enum AddressChange {
    /// A desired address whose interface and network were not observed.
    Added(NewInterfaceAddress),
    /// An observed address whose interface and network are not desired.
    Removed(InterfaceAddress),
    /// An address that is both observed and desired, with another broadcast address. Desiring
    /// no broadcast address is no preference and never a change.
    Changed {
        /// The currently observed address.
        current: InterfaceAddress,
        /// The desired address, whose broadcast address differs.
        desired: NewInterfaceAddress,
    },
}

/// A change of the whole resolver configuration.
#[derive(Debug, Clone, PartialEq, Eq)]
pub struct DnsChange {
    /// The currently observed resolver configuration.
    pub current: DnsConfig,
    /// The desired resolver configuration, which differs from `current`.
    pub desired: NewDnsConfig,
}

/// A change of the whole firewall policy.
#[derive(Debug, Clone, PartialEq, Eq)]
pub struct FirewallChange {
    /// The currently observed rules.
    pub current: Vec<FirewallRule>,
    /// The desired policy, whose rules differ from `current`.
    pub desired: FirewallPolicy,
}

/// The desired content of a domain, if it is managed.
pub open spec fn managed<T>(desired: Option<Vec<T>>) -> Option<Seq<T>> {
    match desired {
        Some(list) => Some(list@),
        None => None,
    }
}

// ---- routes ----

/// The removal, if any, that the `i`-th observed route calls for.
pub open spec fn route_removal(current: Seq<Route>, desired: Seq<RouteConfig>) -> spec_fn(
    int,
) -> Seq<RouteChange> {
    |i: int| given(!desired.contains(intent_of(current[i])), RouteChange::Removed(current[i]))
}

/// The addition, if any, that the `i`-th desired route calls for. Of equal requests only the
/// last one counts.
pub open spec fn route_addition(current: Seq<Route>, desired: Seq<RouteConfig>) -> spec_fn(
    int,
) -> Seq<RouteChange> {
    |i: int|
        given(
            is_last(desired, i) && !intents(current).contains(desired[i]),
            RouteChange::Added(desired[i]),
        )
}

/// The route changes: removals in observed order, then additions in desired order.
pub open spec fn route_changes(current: Seq<Route>, desired: Option<Seq<RouteConfig>>) -> Seq<
    RouteChange,
> {
    match desired {
        None => Seq::empty(),
        Some(wanted) => gathered(current.len(), route_removal(current, wanted)) + gathered(
            wanted.len(),
            route_addition(current, wanted),
        ),
    }
}

/// Whether a list of requests holds one.
fn holds_config(list: &Vec<RouteConfig>, config: RouteConfig) -> (held: bool)
    ensures
        held == list@.contains(config),
{
    let mut i: usize = 0;
    while i < list.len()
        invariant
            i <= list.len(),
            forall|k: int| 0 <= k < i ==> list@[k] != config,
        decreases list.len() - i,
    {
        if list[i] == config {
            assert(list@[i as int] == config);
            return true;
        }
        i = i + 1;
    }
    false
}

/// Whether a list of observed routes holds one that matches a request.
fn holds_route(list: &Vec<Route>, config: RouteConfig) -> (held: bool)
    ensures
        held == intents(list@).contains(config),
{
    let mut i: usize = 0;
    while i < list.len()
        invariant
            i <= list.len(),
            forall|k: int| 0 <= k < i ==> intents(list@)[k] != config,
        decreases list.len() - i,
    {
        assert(intents(list@)[i as int] == intent_of(list@[i as int]));
        if route_config_from_route(&list[i]) == config {
            return true;
        }
        i = i + 1;
    }
    false
}

/// Whether no later request of a list equals the one at `i`.
fn is_last_config(list: &Vec<RouteConfig>, i: usize) -> (last: bool)
    requires
        i < list.len(),
    ensures
        last == is_last(list@, i as int),
{
    let mut j: usize = i + 1;
    while j < list.len()
        invariant
            i < j <= list.len(),
            forall|k: int| i < k < j ==> list@[k] != list@[i as int],
        decreases list.len() - j,
    {
        if list[j] == list[i] {
            return false;
        }
        j = j + 1;
    }
    true
}

/// Compares the route domain.
fn compute_routes(current: &Vec<Route>, desired: &Option<Vec<RouteConfig>>) -> (changes: Vec<
    RouteChange,
>)
    ensures
        changes@ == route_changes(current@, managed(*desired)),
{
    let mut changes: Vec<RouteChange> = Vec::new();
    let wanted = match desired {
        Some(list) => list,
        None => {
            return changes;
        },
    };
    let ghost removal = route_removal(current@, wanted@);
    let ghost addition = route_addition(current@, wanted@);
    let mut i: usize = 0;
    while i < current.len()
        invariant
            i <= current.len(),
            removal == route_removal(current@, wanted@),
            changes@ == gathered(i as nat, removal),
        decreases current.len() - i,
    {
        if !holds_config(wanted, route_config_from_route(&current[i])) {
            changes.push(RouteChange::Removed(current[i].clone()));
        }
        i = i + 1;
        assert(changes@ =~= gathered((i - 1) as nat, removal) + removal(i - 1));
    }
    let mut j: usize = 0;
    while j < wanted.len()
        invariant
            j <= wanted.len(),
            addition == route_addition(current@, wanted@),
            changes@ == gathered(current@.len(), removal) + gathered(j as nat, addition),
        decreases wanted.len() - j,
    {
        if is_last_config(wanted, j) && !holds_route(current, wanted[j]) {
            changes.push(RouteChange::Added(wanted[j]));
        }
        j = j + 1;
        assert(changes@ =~= gathered(current@.len(), removal) + (gathered((j - 1) as nat, addition)
            + addition(j - 1)));
    }
    changes
}

// ---- interfaces ----

/// Whether an observed administrative state is the desired one.
pub open spec fn state_matches(observed: AdminState, desired: DesiredAdminState) -> bool {
    match desired {
        DesiredAdminState::Up => observed == AdminState::Up,
        DesiredAdminState::Down => observed == AdminState::Down,
    }
}

/// Whether an observed administrative state is the desired one.
pub fn admin_state_matches(observed: AdminState, desired: DesiredAdminState) -> (matched: bool)
    ensures
        matched == state_matches(observed, desired),
{
    match desired {
        DesiredAdminState::Up => observed == AdminState::Up,
        DesiredAdminState::Down => observed == AdminState::Down,
    }
}

/// The first observed interface with a given identity.
pub open spec fn first_interface(current: Seq<Interface>, id: InterfaceId) -> Option<Interface>
    decreases current.len(),
{
    if current.len() == 0 {
        None
    } else if current[0].id == id {
        Some(current[0])
    } else {
        first_interface(current.skip(1), id)
    }
}

/// The requested administrative state where it differs from the observed one.
pub open spec fn admin_change(
    observed: Interface,
    requested: Option<DesiredAdminState>,
) -> Option<Change<AdminState, DesiredAdminState>> {
    match requested {
        Some(desired) if !state_matches(observed.admin_state, desired) => Some(
            Change { current: observed.admin_state, desired },
        ),
        _ => None,
    }
}

/// The requested MTU where it differs from the observed one. An unknown observed MTU is
/// reported as zero.
pub open spec fn mtu_change(observed: Interface, requested: Option<u32>) -> Option<
    Change<u32, u32>,
> {
    match requested {
        Some(desired) if observed.mtu != Some(desired) => Some(
            Change {
                current: match observed.mtu {
                    Some(mtu) => mtu,
                    None => 0,
                },
                desired,
            },
        ),
        _ => None,
    }
}

/// What a patch changes of the interface that it names: nothing if that interface was not
/// observed or already is as requested.
pub open spec fn interface_diff(current: Seq<Interface>, config: InterfaceConfig) -> Option<
    InterfaceDiff,
> {
    match first_interface(current, config.interface_id()) {
        None => None,
        Some(observed) => {
            let admin_state = admin_change(observed, config.admin_state());
            let mtu = mtu_change(observed, config.mtu());
            if admin_state is Some || mtu is Some {
                Some(InterfaceDiff { interface_id: config.interface_id(), admin_state, mtu })
            } else {
                None
            }
        },
    }
}

/// The interfaces that patches name, in order.
pub open spec fn targets(desired: Seq<InterfaceConfig>) -> Seq<InterfaceId> {
    desired.map_values(|config: InterfaceConfig| config.interface_id())
}

/// The interface patch, if any, that the `i`-th desired one calls for. Of patches for one
/// interface only the last one counts.
pub open spec fn interface_patch(current: Seq<Interface>, desired: Seq<InterfaceConfig>) -> spec_fn(
    int,
) -> Seq<InterfaceDiff> {
    |i: int|
        if is_last(targets(desired), i) {
            optional(interface_diff(current, desired[i]))
        } else {
            Seq::empty()
        }
}

/// The interface patches, in desired order.
pub open spec fn interface_diffs(
    current: Seq<Interface>,
    desired: Option<Seq<InterfaceConfig>>,
) -> Seq<InterfaceDiff> {
    match desired {
        None => Seq::empty(),
        Some(wanted) => gathered(wanted.len(), interface_patch(current, wanted)),
    }
}

/// Whether no later patch of a list names the interface of the one at `i`.
fn is_last_target(list: &Vec<InterfaceConfig>, i: usize) -> (last: bool)
    requires
        i < list.len(),
    ensures
        last == is_last(targets(list@), i as int),
{
    let mut j: usize = i + 1;
    assert(targets(list@)[i as int] == list@[i as int].interface_id());
    while j < list.len()
        invariant
            i < j <= list.len(),
            targets(list@)[i as int] == list@[i as int].interface_id(),
            forall|k: int| i < k < j ==> targets(list@)[k] != targets(list@)[i as int],
        decreases list.len() - j,
    {
        assert(targets(list@)[j as int] == list@[j as int].interface_id());
        if list[j].interface_id() == list[i].interface_id() {
            return false;
        }
        j = j + 1;
    }
    true
}

/// Compares one patch with the observed interfaces.
fn compute_interface(current: &Vec<Interface>, config: &InterfaceConfig) -> (diff: Option<
    InterfaceDiff,
>)
    ensures
        diff == interface_diff(current@, *config),
        diff matches Some(patch) ==> patch.well_formed(),
{
    let mut i: usize = 0;
    assert(current@.skip(0) =~= current@);
    while i < current.len()
        invariant
            i <= current.len(),
            first_interface(current@, config.interface_id()) == first_interface(
                current@.skip(i as int),
                config.interface_id(),
            ),
        decreases current.len() - i,
    {
        proof {
            assert(current@.skip(i as int)[0] == current@[i as int]);
            assert(current@.skip(i as int).skip(1) =~= current@.skip(i + 1));
        }
        if current[i].id == config.interface_id() {
            let observed = &current[i];
            let admin_state = match config.admin_state() {
                Some(desired) => if admin_state_matches(observed.admin_state, desired) {
                    None
                } else {
                    Some(Change { current: observed.admin_state, desired })
                },
                None => None,
            };
            let mtu = match config.mtu() {
                Some(desired) => {
                    if observed.mtu == Some(desired) {
                        None
                    } else {
                        let known: u32 = match observed.mtu {
                            Some(mtu) => mtu,
                            None => 0,
                        };
                        Some(Change { current: known, desired })
                    }
                },
                None => None,
            };
            if admin_state.is_some() || mtu.is_some() {
                return Some(InterfaceDiff { interface_id: config.interface_id(), admin_state, mtu });
            } else {
                return None;
            }
        }
        i = i + 1;
    }
    None
}

/// Compares the interface domain.
fn compute_interfaces(current: &Vec<Interface>, desired: &Option<Vec<InterfaceConfig>>) -> (diffs:
    Vec<InterfaceDiff>)
    ensures
        diffs@ == interface_diffs(current@, managed(*desired)),
        forall|i: int| 0 <= i < diffs@.len() ==> (#[trigger] diffs@[i]).well_formed(),
{
    let mut diffs: Vec<InterfaceDiff> = Vec::new();
    let wanted = match desired {
        Some(list) => list,
        None => {
            return diffs;
        },
    };
    let ghost patch = interface_patch(current@, wanted@);
    let mut i: usize = 0;
    while i < wanted.len()
        invariant
            i <= wanted.len(),
            patch == interface_patch(current@, wanted@),
            diffs@ == gathered(i as nat, patch),
            forall|k: int| 0 <= k < diffs@.len() ==> (#[trigger] diffs@[k]).well_formed(),
        decreases wanted.len() - i,
    {
        if is_last_target(wanted, i) {
            if let Some(diff) = compute_interface(current, &wanted[i]) {
                diffs.push(diff);
            }
        }
        i = i + 1;
        assert(diffs@ =~= gathered((i - 1) as nat, patch) + patch(i - 1));
    }
    diffs
}

impl InterfaceDiff {
    /// Whether the patch changes something and sets no MTU of zero.
    pub open spec fn well_formed(self) -> bool {
        requests_something(wanted_of(self.admin_state), wanted_of(self.mtu))
    }
}

/// The desired half of a change.
pub open spec fn wanted_of<C, D>(change: Option<Change<C, D>>) -> Option<D> {
    match change {
        Some(both) => Some(both.desired),
        None => None,
    }
}

// ---- neighbors ----

/// What identifies a neighbor entry: its interface and its address.
pub open spec fn entry_key(entry: NeighborEntry) -> (InterfaceId, IpAddress) {
    (InterfaceId::of(entry.interface_index as u64), entry.address)
}

/// What identifies a desired neighbor entry.
pub open spec fn neighbor_key(neighbor: StaticNeighbor) -> (InterfaceId, IpAddress) {
    (neighbor.interface_id, neighbor.address)
}

/// The keys of observed neighbor entries, in order.
pub open spec fn entry_keys(current: Seq<NeighborEntry>) -> Seq<(InterfaceId, IpAddress)> {
    current.map_values(|entry: NeighborEntry| entry_key(entry))
}

/// The keys of desired neighbor entries, in order.
pub open spec fn neighbor_keys(desired: Seq<StaticNeighbor>) -> Seq<(InterfaceId, IpAddress)> {
    desired.map_values(|neighbor: StaticNeighbor| neighbor_key(neighbor))
}

/// What the `i`-th observed entry calls for: its removal when its key is not desired, a change
/// when the last request for its key has another link-layer address.
pub open spec fn neighbor_revision(
    current: Seq<NeighborEntry>,
    desired: Seq<StaticNeighbor>,
) -> spec_fn(int) -> Seq<NeighborChange> {
    |i: int|
        match last_index(neighbor_keys(desired), entry_key(current[i])) {
            None => seq![NeighborChange::Removed(current[i])],
            Some(j) => given(
                current[i].mac != Some(desired[j].mac),
                NeighborChange::Changed { current: current[i], desired: desired[j] },
            ),
        }
}

/// The addition, if any, that the `i`-th desired entry calls for. Of requests for one key only
/// the last one counts.
pub open spec fn neighbor_addition(
    current: Seq<NeighborEntry>,
    desired: Seq<StaticNeighbor>,
) -> spec_fn(int) -> Seq<NeighborChange> {
    |i: int|
        given(
            is_last(neighbor_keys(desired), i) && !entry_keys(current).contains(
                neighbor_key(desired[i]),
            ),
            NeighborChange::Added(desired[i]),
        )
}

/// The neighbor changes: removals and changes in observed order, then additions in desired
/// order.
pub open spec fn neighbor_changes(
    current: Seq<NeighborEntry>,
    desired: Option<Seq<StaticNeighbor>>,
) -> Seq<NeighborChange> {
    match desired {
        None => Seq::empty(),
        Some(wanted) => gathered(current.len(), neighbor_revision(current, wanted)) + gathered(
            wanted.len(),
            neighbor_addition(current, wanted),
        ),
    }
}

/// Whether two neighbor keys are the same.
fn same_neighbor_key(entry: &NeighborEntry, neighbor: &StaticNeighbor) -> (same: bool)
    ensures
        same == (entry_key(*entry) == neighbor_key(*neighbor)),
{
    InterfaceId::new(entry.interface_index as u64) == neighbor.interface_id && entry.address
        == neighbor.address
}

/// Finds the last request for the key of an observed entry.
fn find_neighbor(list: &Vec<StaticNeighbor>, entry: &NeighborEntry) -> (found: Option<usize>)
    ensures
        match found {
            Some(j) => j < list.len() && last_index(neighbor_keys(list@), entry_key(*entry))
                == Some(j as int),
            None => last_index(neighbor_keys(list@), entry_key(*entry)) is None,
        },
{
    let ghost keys = neighbor_keys(list@);
    let mut i: usize = list.len();
    assert(keys.take(i as int) =~= keys);
    while i > 0
        invariant
            i <= list.len(),
            keys == neighbor_keys(list@),
            last_index(keys, entry_key(*entry)) == last_index(
                keys.take(i as int),
                entry_key(*entry),
            ),
        decreases i,
    {
        i = i - 1;
        proof {
            assert(keys.take(i + 1).last() == neighbor_key(list@[i as int]));
            assert(keys.take(i + 1).drop_last() =~= keys.take(i as int));
        }
        if same_neighbor_key(entry, &list[i]) {
            return Some(i);
        }
    }
    None
}

/// Whether a list of observed entries holds the key of a request.
fn holds_entry(list: &Vec<NeighborEntry>, neighbor: &StaticNeighbor) -> (held: bool)
    ensures
        held == entry_keys(list@).contains(neighbor_key(*neighbor)),
{
    let mut i: usize = 0;
    while i < list.len()
        invariant
            i <= list.len(),
            forall|k: int| 0 <= k < i ==> entry_keys(list@)[k] != neighbor_key(*neighbor),
        decreases list.len() - i,
    {
        assert(entry_keys(list@)[i as int] == entry_key(list@[i as int]));
        if same_neighbor_key(&list[i], neighbor) {
            return true;
        }
        i = i + 1;
    }
    false
}

/// Whether no later request of a list has the key of the one at `i`.
fn is_last_neighbor(list: &Vec<StaticNeighbor>, i: usize) -> (last: bool)
    requires
        i < list.len(),
    ensures
        last == is_last(neighbor_keys(list@), i as int),
{
    let mut j: usize = i + 1;
    assert(neighbor_keys(list@)[i as int] == neighbor_key(list@[i as int]));
    while j < list.len()
        invariant
            i < j <= list.len(),
            neighbor_keys(list@)[i as int] == neighbor_key(list@[i as int]),
            forall|k: int| i < k < j ==> neighbor_keys(list@)[k] != neighbor_keys(list@)[i as int],
        decreases list.len() - j,
    {
        assert(neighbor_keys(list@)[j as int] == neighbor_key(list@[j as int]));
        if list[j].interface_id == list[i].interface_id && list[j].address == list[i].address {
            return false;
        }
        j = j + 1;
    }
    true
}

/// Compares the neighbor domain.
fn compute_neighbors(current: &Vec<NeighborEntry>, desired: &Option<Vec<StaticNeighbor>>) -> (
changes: Vec<NeighborChange>)
    ensures
        changes@ == neighbor_changes(current@, managed(*desired)),
{
    let mut changes: Vec<NeighborChange> = Vec::new();
    let wanted = match desired {
        Some(list) => list,
        None => {
            return changes;
        },
    };
    let ghost revision = neighbor_revision(current@, wanted@);
    let ghost addition = neighbor_addition(current@, wanted@);
    let mut i: usize = 0;
    while i < current.len()
        invariant
            i <= current.len(),
            revision == neighbor_revision(current@, wanted@),
            changes@ == gathered(i as nat, revision),
        decreases current.len() - i,
    {
        match find_neighbor(wanted, &current[i]) {
            Some(j) => {
                let same = match current[i].mac {
                    Some(mac) => mac == wanted[j].mac,
                    None => false,
                };
                if !same {
                    changes.push(
                        NeighborChange::Changed { current: current[i].clone(), desired: wanted[j] },
                    );
                }
            },
            None => {
                changes.push(NeighborChange::Removed(current[i].clone()));
            },
        }
        i = i + 1;
        assert(changes@ =~= gathered((i - 1) as nat, revision) + revision(i - 1));
    }
    let mut j: usize = 0;
    while j < wanted.len()
        invariant
            j <= wanted.len(),
            addition == neighbor_addition(current@, wanted@),
            changes@ == gathered(current@.len(), revision) + gathered(j as nat, addition),
        decreases wanted.len() - j,
    {
        if is_last_neighbor(wanted, j) && !holds_entry(current, &wanted[j]) {
            changes.push(NeighborChange::Added(wanted[j]));
        }
        j = j + 1;
        assert(changes@ =~= gathered(current@.len(), revision) + (gathered((j - 1) as nat, addition)
            + addition(j - 1)));
    }
    changes
}

// ---- addresses ----

/// What identifies an observed address: its interface and its network.
pub open spec fn assigned_key(assigned: InterfaceAddress) -> (InterfaceId, Network) {
    (InterfaceId::of(assigned.interface_index as u64), assigned.address)
}

/// What identifies a desired address.
pub open spec fn address_key(request: NewInterfaceAddress) -> (InterfaceId, Network) {
    (request.interface_id, request.address)
}

/// The keys of observed addresses, in order.
pub open spec fn assigned_keys(current: Seq<InterfaceAddress>) -> Seq<(InterfaceId, Network)> {
    current.map_values(|assigned: InterfaceAddress| assigned_key(assigned))
}

/// The keys of desired addresses, in order.
pub open spec fn address_keys(desired: Seq<NewInterfaceAddress>) -> Seq<(InterfaceId, Network)> {
    desired.map_values(|request: NewInterfaceAddress| address_key(request))
}

/// Whether a request wants a broadcast address that an observed address does not have.
pub open spec fn broadcast_differs(
    assigned: InterfaceAddress,
    request: NewInterfaceAddress,
) -> bool {
    match request.broadcast {
        Some(broadcast) => assigned.broadcast != Some(IpAddress::V4(broadcast)),
        None => false,
    }
}

/// What the `i`-th observed address calls for: its removal when its key is not desired, a
/// change when the last request for its key wants another broadcast address.
pub open spec fn address_revision(
    current: Seq<InterfaceAddress>,
    desired: Seq<NewInterfaceAddress>,
) -> spec_fn(int) -> Seq<AddressChange> {
    |i: int|
        match last_index(address_keys(desired), assigned_key(current[i])) {
            None => seq![AddressChange::Removed(current[i])],
            Some(j) => given(
                broadcast_differs(current[i], desired[j]),
                AddressChange::Changed { current: current[i], desired: desired[j] },
            ),
        }
}

/// The addition, if any, that the `i`-th desired address calls for. Of requests for one key
/// only the last one counts.
pub open spec fn address_addition(
    current: Seq<InterfaceAddress>,
    desired: Seq<NewInterfaceAddress>,
) -> spec_fn(int) -> Seq<AddressChange> {
    |i: int|
        given(
            is_last(address_keys(desired), i) && !assigned_keys(current).contains(
                address_key(desired[i]),
            ),
            AddressChange::Added(desired[i]),
        )
}

/// The address changes: removals and changes in observed order, then additions in desired
/// order.
pub open spec fn address_changes(
    current: Seq<InterfaceAddress>,
    desired: Option<Seq<NewInterfaceAddress>>,
) -> Seq<AddressChange> {
    match desired {
        None => Seq::empty(),
        Some(wanted) => gathered(current.len(), address_revision(current, wanted)) + gathered(
            wanted.len(),
            address_addition(current, wanted),
        ),
    }
}

/// Whether two address keys are the same.
fn same_address_key(assigned: &InterfaceAddress, request: &NewInterfaceAddress) -> (same: bool)
    ensures
        same == (assigned_key(*assigned) == address_key(*request)),
{
    InterfaceId::new(assigned.interface_index as u64) == request.interface_id && assigned.address
        == request.address
}

/// Finds the last request for the key of an observed address.
fn find_address(list: &Vec<NewInterfaceAddress>, assigned: &InterfaceAddress) -> (found: Option<
    usize,
>)
    ensures
        match found {
            Some(j) => j < list.len() && last_index(address_keys(list@), assigned_key(*assigned))
                == Some(j as int),
            None => last_index(address_keys(list@), assigned_key(*assigned)) is None,
        },
{
    let ghost keys = address_keys(list@);
    let mut i: usize = list.len();
    assert(keys.take(i as int) =~= keys);
    while i > 0
        invariant
            i <= list.len(),
            keys == address_keys(list@),
            last_index(keys, assigned_key(*assigned)) == last_index(
                keys.take(i as int),
                assigned_key(*assigned),
            ),
        decreases i,
    {
        i = i - 1;
        proof {
            assert(keys.take(i + 1).last() == address_key(list@[i as int]));
            assert(keys.take(i + 1).drop_last() =~= keys.take(i as int));
        }
        if same_address_key(assigned, &list[i]) {
            return Some(i);
        }
    }
    None
}

/// Whether a list of observed addresses holds the key of a request.
fn holds_address(list: &Vec<InterfaceAddress>, request: &NewInterfaceAddress) -> (held: bool)
    ensures
        held == assigned_keys(list@).contains(address_key(*request)),
{
    let mut i: usize = 0;
    while i < list.len()
        invariant
            i <= list.len(),
            forall|k: int| 0 <= k < i ==> assigned_keys(list@)[k] != address_key(*request),
        decreases list.len() - i,
    {
        assert(assigned_keys(list@)[i as int] == assigned_key(list@[i as int]));
        if same_address_key(&list[i], request) {
            return true;
        }
        i = i + 1;
    }
    false
}

/// Whether no later request of a list has the key of the one at `i`.
fn is_last_address(list: &Vec<NewInterfaceAddress>, i: usize) -> (last: bool)
    requires
        i < list.len(),
    ensures
        last == is_last(address_keys(list@), i as int),
{
    let mut j: usize = i + 1;
    assert(address_keys(list@)[i as int] == address_key(list@[i as int]));
    while j < list.len()
        invariant
            i < j <= list.len(),
            address_keys(list@)[i as int] == address_key(list@[i as int]),
            forall|k: int| i < k < j ==> address_keys(list@)[k] != address_keys(list@)[i as int],
        decreases list.len() - j,
    {
        assert(address_keys(list@)[j as int] == address_key(list@[j as int]));
        if list[j].interface_id == list[i].interface_id && list[j].address == list[i].address {
            return false;
        }
        j = j + 1;
    }
    true
}

/// Compares the address domain.
fn compute_addresses(
    current: &Vec<InterfaceAddress>,
    desired: &Option<Vec<NewInterfaceAddress>>,
) -> (changes: Vec<AddressChange>)
    ensures
        changes@ == address_changes(current@, managed(*desired)),
{
    let mut changes: Vec<AddressChange> = Vec::new();
    let wanted = match desired {
        Some(list) => list,
        None => {
            return changes;
        },
    };
    let ghost revision = address_revision(current@, wanted@);
    let ghost addition = address_addition(current@, wanted@);
    let mut i: usize = 0;
    while i < current.len()
        invariant
            i <= current.len(),
            revision == address_revision(current@, wanted@),
            changes@ == gathered(i as nat, revision),
        decreases current.len() - i,
    {
        match find_address(wanted, &current[i]) {
            Some(j) => {
                let mismatched = match wanted[j].broadcast {
                    Some(broadcast) => match current[i].broadcast {
                        Some(observed) => observed != IpAddress::V4(broadcast),
                        None => true,
                    },
                    None => false,
                };
                if mismatched {
                    changes.push(
                        AddressChange::Changed {
                            current: current[i].clone(),
                            desired: wanted[j].clone(),
                        },
                    );
                }
            },
            None => {
                changes.push(AddressChange::Removed(current[i].clone()));
            },
        }
        i = i + 1;
        assert(changes@ =~= gathered((i - 1) as nat, revision) + revision(i - 1));
    }
    let mut j: usize = 0;
    while j < wanted.len()
        invariant
            j <= wanted.len(),
            addition == address_addition(current@, wanted@),
            changes@ == gathered(current@.len(), revision) + gathered(j as nat, addition),
        decreases wanted.len() - j,
    {
        if is_last_address(wanted, j) && !holds_address(current, &wanted[j]) {
            changes.push(AddressChange::Added(wanted[j].clone()));
        }
        j = j + 1;
        assert(changes@ =~= gathered(current@.len(), revision) + (gathered((j - 1) as nat, addition)
            + addition(j - 1)));
    }
    changes
}

// ---- resolver and firewall ----

/// Whether a comparison of the resolver configuration came out right: it reports both sides
/// when the domain is managed and the two differ, and nothing otherwise.
pub open spec fn dns_compared(
    change: Option<DnsChange>,
    current: DnsConfig,
    desired: Option<NewDnsConfig>,
) -> bool {
    match desired {
        Some(wanted) if wanted@ != current@ => change matches Some(both) && both.current@
            == current@ && both.desired@ == wanted@,
        _ => change is None,
    }
}

/// Compares the resolver configuration.
fn compute_dns(current: &DnsConfig, desired: &Option<NewDnsConfig>) -> (change: Option<DnsChange>)
    ensures
        dns_compared(change, *current, *desired),
{
    match desired {
        Some(wanted) => {
            if same_addresses(&wanted.nameservers, &current.nameservers) && same_strings(
                &wanted.search_domains,
                &current.search_domains,
            ) {
                None
            } else {
                Some(DnsChange { current: current.clone(), desired: wanted.clone() })
            }
        },
        None => None,
    }
}

/// Whether a comparison of the firewall rules came out right: it reports both sides when the
/// domain is managed and the rules differ, and nothing otherwise. The default verdict cannot
/// be observed and takes no part.
pub open spec fn firewall_compared(
    change: Option<FirewallChange>,
    current: Seq<FirewallRule>,
    desired: Option<FirewallPolicy>,
) -> bool {
    match desired {
        Some(wanted) if wanted@.rules != current => change matches Some(both) && both.current@
            == current && both.desired@ == wanted@,
        _ => change is None,
    }
}

/// Compares the firewall rules.
fn compute_firewall(current: &Vec<FirewallRule>, desired: &Option<FirewallPolicy>) -> (change:
    Option<FirewallChange>)
    ensures
        firewall_compared(change, current@, *desired),
{
    match desired {
        Some(wanted) => {
            if same_rules(&wanted.rules, current) {
                None
            } else {
                Some(FirewallChange { current: copy_rules(current), desired: wanted.clone() })
            }
        },
        None => None,
    }
}

// ---- the whole diff ----

impl Diff {
    /// Whether every interface patch changes something and sets no MTU of zero.
    pub open spec fn well_formed(self) -> bool {
        forall|i: int|
            0 <= i < self.interfaces@.len() ==> (#[trigger] self.interfaces@[i]).well_formed()
    }

    /// Whether there is nothing to do.
    pub open spec fn is_empty(self) -> bool {
        &&& self.routes@.len() == 0
        &&& self.interfaces@.len() == 0
        &&& self.neighbors@.len() == 0
        &&& self.addresses@.len() == 0
        &&& self.dns is None
        &&& self.firewall is None
    }

    /// Computes the difference between `current` and `desired`.
    ///
    /// A domain that is not managed never yields a change, not even a removal. A managed but
    /// empty domain yields the removal of everything observed in it. Of desired entries with
    /// one natural key the last one wins, in each domain on its own.
    pub fn compute(current: &CurrentState, desired: &DesiredState) -> (diff: Diff)
        ensures
            diff.routes@ == route_changes(current.routes@, managed(desired.routes)),
            diff.interfaces@ == interface_diffs(current.interfaces@, managed(desired.interfaces)),
            diff.neighbors@ == neighbor_changes(current.neighbors@, managed(desired.neighbors)),
            diff.addresses@ == address_changes(current.addresses@, managed(desired.addresses)),
            dns_compared(diff.dns, current.dns, desired.dns),
            firewall_compared(diff.firewall, current.firewall_rules@, desired.firewall),
            diff.well_formed(),
    {
        Diff {
            routes: compute_routes(&current.routes, &desired.routes),
            interfaces: compute_interfaces(&current.interfaces, &desired.interfaces),
            neighbors: compute_neighbors(&current.neighbors, &desired.neighbors),
            addresses: compute_addresses(&current.addresses, &desired.addresses),
            dns: compute_dns(&current.dns, &desired.dns),
            firewall: compute_firewall(&current.firewall_rules, &desired.firewall),
        }
    }
}

// ---- laws ----

/// A domain that is not managed yields no change.
pub proof fn unmanaged_domains_yield_no_change(
    routes: Seq<Route>,
    interfaces: Seq<Interface>,
    neighbors: Seq<NeighborEntry>,
    addresses: Seq<InterfaceAddress>,
)
    ensures
        route_changes(routes, None) == Seq::<RouteChange>::empty(),
        interface_diffs(interfaces, None) == Seq::<InterfaceDiff>::empty(),
        neighbor_changes(neighbors, None) == Seq::<NeighborChange>::empty(),
        address_changes(addresses, None) == Seq::<AddressChange>::empty(),
{
}

/// A domain that is managed and empty loses everything that was observed in it, in observed
/// order.
pub proof fn emptied_domains_lose_everything(
    routes: Seq<Route>,
    neighbors: Seq<NeighborEntry>,
    addresses: Seq<InterfaceAddress>,
)
    ensures
        route_changes(routes, Some(Seq::empty())) == routes.map_values(
            |route: Route| RouteChange::Removed(route),
        ),
        neighbor_changes(neighbors, Some(Seq::empty())) == neighbors.map_values(
            |entry: NeighborEntry| NeighborChange::Removed(entry),
        ),
        address_changes(addresses, Some(Seq::empty())) == addresses.map_values(
            |assigned: InterfaceAddress| AddressChange::Removed(assigned),
        ),
{
    let routes_wanted = Seq::<RouteConfig>::empty();
    let removal = route_removal(routes, routes_wanted);
    assert forall|i: int| 0 <= i < routes.len() implies (#[trigger] removal(i)).len() == 1 by {}
    lemma_gathered_singles(routes.len(), removal);
    assert(route_changes(routes, Some(routes_wanted)) =~= routes.map_values(
        |route: Route| RouteChange::Removed(route),
    ));
    let neighbors_wanted = Seq::<StaticNeighbor>::empty();
    let revision = neighbor_revision(neighbors, neighbors_wanted);
    assert forall|i: int| 0 <= i < neighbors.len() implies (#[trigger] revision(i)).len() == 1 by {
        assert(neighbor_keys(neighbors_wanted).len() == 0);
    }
    lemma_gathered_singles(neighbors.len(), revision);
    assert forall|i: int| 0 <= i < neighbors.len() implies (#[trigger] revision(i))[0]
        == NeighborChange::Removed(neighbors[i]) by {
        assert(neighbor_keys(neighbors_wanted).len() == 0);
    }
    assert(neighbor_changes(neighbors, Some(neighbors_wanted)) =~= neighbors.map_values(
        |entry: NeighborEntry| NeighborChange::Removed(entry),
    ));
    let addresses_wanted = Seq::<NewInterfaceAddress>::empty();
    let change = address_revision(addresses, addresses_wanted);
    assert forall|i: int| 0 <= i < addresses.len() implies (#[trigger] change(i)).len() == 1 by {
        assert(address_keys(addresses_wanted).len() == 0);
    }
    lemma_gathered_singles(addresses.len(), change);
    assert forall|i: int| 0 <= i < addresses.len() implies (#[trigger] change(i))[0]
        == AddressChange::Removed(addresses[i]) by {
        assert(address_keys(addresses_wanted).len() == 0);
    }
    assert(address_changes(addresses, Some(addresses_wanted)) =~= addresses.map_values(
        |assigned: InterfaceAddress| AddressChange::Removed(assigned),
    ));
}

/// Route changes turn what is there into what is wanted: an observed route is removed exactly
/// when it is not wanted, and a route is added exactly when it is wanted and was not observed.
pub proof fn route_changes_reconcile(current: Seq<Route>, desired: Seq<RouteConfig>)
    ensures
        forall|i: int|
            0 <= i < current.len() ==> (route_changes(current, Some(desired)).contains(
                RouteChange::Removed(#[trigger] current[i]),
            ) <==> !desired.contains(intent_of(current[i]))),
        forall|config: RouteConfig|
            #![trigger route_changes(current, Some(desired)).contains(RouteChange::Added(config))]
            route_changes(current, Some(desired)).contains(RouteChange::Added(config))
                <==> desired.contains(config) && !intents(current).contains(config),
{
    let removal = route_removal(current, desired);
    let addition = route_addition(current, desired);
    let removed = gathered(current.len(), removal);
    let added = gathered(desired.len(), addition);
    let changes = route_changes(current, Some(desired));
    assert forall|i: int| 0 <= i < current.len() implies (changes.contains(
        RouteChange::Removed(#[trigger] current[i]),
    ) <==> !desired.contains(intent_of(current[i]))) by {
        let change = RouteChange::Removed(current[i]);
        if !desired.contains(intent_of(current[i])) {
            assert(removal(i)[0] == change);
            lemma_gathered_holds(current.len(), removal, i, 0);
            lemma_contains_left(removed, added, change);
        } else if changes.contains(change) {
            lemma_contains_either(removed, added, change);
            if removed.contains(change) {
                let at = lemma_gathered_origin(current.len(), removal, change);
                assert(current[at.0] == current[i]);
            } else {
                let at = lemma_gathered_origin(desired.len(), addition, change);
            }
        }
    }
    assert forall|config: RouteConfig|
        #![trigger changes.contains(RouteChange::Added(config))]
        changes.contains(RouteChange::Added(config)) <==> desired.contains(config) && !intents(
            current,
        ).contains(config) by {
        let change = RouteChange::Added(config);
        if desired.contains(config) && !intents(current).contains(config) {
            lemma_last_index(desired, config);
            let i = last_index(desired, config)->0;
            assert(addition(i)[0] == change);
            lemma_gathered_holds(desired.len(), addition, i, 0);
            lemma_contains_right(removed, added, change);
        }
        if changes.contains(change) {
            lemma_contains_either(removed, added, change);
            if removed.contains(change) {
                let at = lemma_gathered_origin(current.len(), removal, change);
            } else {
                let at = lemma_gathered_origin(desired.len(), addition, change);
                assert(desired[at.0] == config);
            }
        }
    }
}

/// Neighbor changes turn what is there into what is wanted. An observed entry is removed
/// exactly when its key is not wanted; it is changed exactly when the last request for its key
/// has another link-layer address; and a request is added exactly when it is the last one for
/// its key and that key was not observed.
pub proof fn neighbor_changes_reconcile(current: Seq<NeighborEntry>, desired: Seq<StaticNeighbor>)
    ensures
        forall|i: int|
            0 <= i < current.len() ==> (neighbor_changes(current, Some(desired)).contains(
                NeighborChange::Removed(#[trigger] current[i]),
            ) <==> !neighbor_keys(desired).contains(entry_key(current[i]))),
        forall|i: int, j: int|
            0 <= i < current.len() && 0 <= j < desired.len() && is_last(neighbor_keys(desired), j)
                && entry_key(current[i]) == neighbor_key(desired[j]) ==> (neighbor_changes(
                current,
                Some(desired),
            ).contains(
                NeighborChange::Changed {
                    current: #[trigger] current[i],
                    desired: #[trigger] desired[j],
                },
            ) <==> current[i].mac != Some(desired[j].mac)),
        forall|j: int|
            0 <= j < desired.len() && is_last(neighbor_keys(desired), j) ==> (neighbor_changes(
                current,
                Some(desired),
            ).contains(NeighborChange::Added(#[trigger] desired[j])) <==> !entry_keys(
                current,
            ).contains(neighbor_key(desired[j]))),
{
    let keys = neighbor_keys(desired);
    let revision = neighbor_revision(current, desired);
    let addition = neighbor_addition(current, desired);
    let revised = gathered(current.len(), revision);
    let added = gathered(desired.len(), addition);
    let changes = neighbor_changes(current, Some(desired));
    assert forall|i: int| 0 <= i < current.len() implies (changes.contains(
        NeighborChange::Removed(#[trigger] current[i]),
    ) <==> !keys.contains(entry_key(current[i]))) by {
        let change = NeighborChange::Removed(current[i]);
        lemma_last_index(keys, entry_key(current[i]));
        if !keys.contains(entry_key(current[i])) {
            assert(revision(i)[0] == change);
            lemma_gathered_holds(current.len(), revision, i, 0);
            lemma_contains_left(revised, added, change);
        } else if changes.contains(change) {
            lemma_contains_either(revised, added, change);
            if revised.contains(change) {
                let at = lemma_gathered_origin(current.len(), revision, change);
                assert(current[at.0] == current[i]);
            } else {
                let at = lemma_gathered_origin(desired.len(), addition, change);
            }
        }
    }
    assert forall|i: int, j: int|
        0 <= i < current.len() && 0 <= j < desired.len() && is_last(keys, j) && entry_key(
            current[i],
        ) == neighbor_key(desired[j]) implies (changes.contains(
        NeighborChange::Changed { current: #[trigger] current[i], desired: #[trigger] desired[j] },
    ) <==> current[i].mac != Some(desired[j].mac)) by {
        let change = NeighborChange::Changed { current: current[i], desired: desired[j] };
        assert(keys[j] == neighbor_key(desired[j]));
        lemma_is_last_index(keys, j);
        if current[i].mac != Some(desired[j].mac) {
            assert(revision(i)[0] == change);
            lemma_gathered_holds(current.len(), revision, i, 0);
            lemma_contains_left(revised, added, change);
        } else if changes.contains(change) {
            lemma_contains_either(revised, added, change);
            if revised.contains(change) {
                let at = lemma_gathered_origin(current.len(), revision, change);
                assert(current[at.0] == current[i]);
            } else {
                let at = lemma_gathered_origin(desired.len(), addition, change);
            }
        }
    }
    assert forall|j: int| 0 <= j < desired.len() && is_last(keys, j) implies (changes.contains(
        NeighborChange::Added(#[trigger] desired[j]),
    ) <==> !entry_keys(current).contains(neighbor_key(desired[j]))) by {
        let change = NeighborChange::Added(desired[j]);
        if !entry_keys(current).contains(neighbor_key(desired[j])) {
            assert(addition(j)[0] == change);
            lemma_gathered_holds(desired.len(), addition, j, 0);
            lemma_contains_right(revised, added, change);
        } else if changes.contains(change) {
            lemma_contains_either(revised, added, change);
            if revised.contains(change) {
                let at = lemma_gathered_origin(current.len(), revision, change);
            } else {
                let at = lemma_gathered_origin(desired.len(), addition, change);
                assert(desired[at.0] == desired[j]);
            }
        }
    }
}

/// Address changes turn what is there into what is wanted. An observed address is removed
/// exactly when its key is not wanted; it is changed exactly when the last request for its key
/// wants another broadcast address; and a request is added exactly when it is the last one for
/// its key and that key was not observed.
pub proof fn address_changes_reconcile(
    current: Seq<InterfaceAddress>,
    desired: Seq<NewInterfaceAddress>,
)
    ensures
        forall|i: int|
            0 <= i < current.len() ==> (address_changes(current, Some(desired)).contains(
                AddressChange::Removed(#[trigger] current[i]),
            ) <==> !address_keys(desired).contains(assigned_key(current[i]))),
        forall|i: int, j: int|
            0 <= i < current.len() && 0 <= j < desired.len() && is_last(address_keys(desired), j)
                && assigned_key(current[i]) == address_key(desired[j]) ==> (address_changes(
                current,
                Some(desired),
            ).contains(
                AddressChange::Changed {
                    current: #[trigger] current[i],
                    desired: #[trigger] desired[j],
                },
            ) <==> broadcast_differs(current[i], desired[j])),
        forall|j: int|
            0 <= j < desired.len() && is_last(address_keys(desired), j) ==> (address_changes(
                current,
                Some(desired),
            ).contains(AddressChange::Added(#[trigger] desired[j])) <==> !assigned_keys(
                current,
            ).contains(address_key(desired[j]))),
{
    let keys = address_keys(desired);
    let revision = address_revision(current, desired);
    let addition = address_addition(current, desired);
    let revised = gathered(current.len(), revision);
    let added = gathered(desired.len(), addition);
    let changes = address_changes(current, Some(desired));
    assert forall|i: int| 0 <= i < current.len() implies (changes.contains(
        AddressChange::Removed(#[trigger] current[i]),
    ) <==> !keys.contains(assigned_key(current[i]))) by {
        let change = AddressChange::Removed(current[i]);
        lemma_last_index(keys, assigned_key(current[i]));
        if !keys.contains(assigned_key(current[i])) {
            assert(revision(i)[0] == change);
            lemma_gathered_holds(current.len(), revision, i, 0);
            lemma_contains_left(revised, added, change);
        } else if changes.contains(change) {
            lemma_contains_either(revised, added, change);
            if revised.contains(change) {
                let at = lemma_gathered_origin(current.len(), revision, change);
                assert(current[at.0] == current[i]);
            } else {
                let at = lemma_gathered_origin(desired.len(), addition, change);
            }
        }
    }
    assert forall|i: int, j: int|
        0 <= i < current.len() && 0 <= j < desired.len() && is_last(keys, j) && assigned_key(
            current[i],
        ) == address_key(desired[j]) implies (changes.contains(
        AddressChange::Changed { current: #[trigger] current[i], desired: #[trigger] desired[j] },
    ) <==> broadcast_differs(current[i], desired[j])) by {
        let change = AddressChange::Changed { current: current[i], desired: desired[j] };
        assert(keys[j] == address_key(desired[j]));
        lemma_is_last_index(keys, j);
        if broadcast_differs(current[i], desired[j]) {
            assert(revision(i)[0] == change);
            lemma_gathered_holds(current.len(), revision, i, 0);
            lemma_contains_left(revised, added, change);
        } else if changes.contains(change) {
            lemma_contains_either(revised, added, change);
            if revised.contains(change) {
                let at = lemma_gathered_origin(current.len(), revision, change);
                assert(current[at.0] == current[i]);
            } else {
                let at = lemma_gathered_origin(desired.len(), addition, change);
            }
        }
    }
    assert forall|j: int| 0 <= j < desired.len() && is_last(keys, j) implies (changes.contains(
        AddressChange::Added(#[trigger] desired[j]),
    ) <==> !assigned_keys(current).contains(address_key(desired[j]))) by {
        let change = AddressChange::Added(desired[j]);
        if !assigned_keys(current).contains(address_key(desired[j])) {
            assert(addition(j)[0] == change);
            lemma_gathered_holds(desired.len(), addition, j, 0);
            lemma_contains_right(revised, added, change);
        } else if changes.contains(change) {
            lemma_contains_either(revised, added, change);
            if revised.contains(change) {
                let at = lemma_gathered_origin(current.len(), revision, change);
            } else {
                let at = lemma_gathered_origin(desired.len(), addition, change);
                assert(desired[at.0] == desired[j]);
            }
        }
    }
}

/// No natural key is added twice: later requests for a key replace earlier ones.
pub proof fn each_key_is_added_once(
    routes: Seq<Route>,
    wanted_routes: Seq<RouteConfig>,
    neighbors: Seq<NeighborEntry>,
    wanted_neighbors: Seq<StaticNeighbor>,
    addresses: Seq<InterfaceAddress>,
    wanted_addresses: Seq<NewInterfaceAddress>,
)
    ensures
        forall|a: int, b: int|
            0 <= a < b < route_changes(routes, Some(wanted_routes)).len() ==> routes_apart(
                #[trigger] route_changes(routes, Some(wanted_routes))[a],
                #[trigger] route_changes(routes, Some(wanted_routes))[b],
            ),
        forall|a: int, b: int|
            0 <= a < b < neighbor_changes(neighbors, Some(wanted_neighbors)).len()
                ==> neighbors_apart(
                #[trigger] neighbor_changes(neighbors, Some(wanted_neighbors))[a],
                #[trigger] neighbor_changes(neighbors, Some(wanted_neighbors))[b],
            ),
        forall|a: int, b: int|
            0 <= a < b < address_changes(addresses, Some(wanted_addresses)).len()
                ==> addresses_apart(
                #[trigger] address_changes(addresses, Some(wanted_addresses))[a],
                #[trigger] address_changes(addresses, Some(wanted_addresses))[b],
            ),
{
    let apart = |left: RouteChange, right: RouteChange| routes_apart(left, right);
    let removal = route_removal(routes, wanted_routes);
    let addition = route_addition(routes, wanted_routes);
    lemma_gathered_related(routes.len(), removal, apart);
    lemma_gathered_related(wanted_routes.len(), addition, apart);
    let removed = gathered(routes.len(), removal);
    assert forall|a: int| 0 <= a < removed.len() implies !((#[trigger] removed[a]) is Added) by {
        assert(removed.contains(removed[a]));
        let at = lemma_gathered_origin(routes.len(), removal, removed[a]);
    }
    lemma_apart_joined(removed, gathered(wanted_routes.len(), addition), apart);

    let apart = |left: NeighborChange, right: NeighborChange| neighbors_apart(left, right);
    let keys = neighbor_keys(wanted_neighbors);
    let revision = neighbor_revision(neighbors, wanted_neighbors);
    let addition = neighbor_addition(neighbors, wanted_neighbors);
    lemma_gathered_related(neighbors.len(), revision, apart);
    assert forall|i: int, j: int|
        0 <= i < j < wanted_neighbors.len() && (#[trigger] addition(i)).len() == 1 && (
        #[trigger] addition(j)).len() == 1 implies apart(addition(i)[0], addition(j)[0]) by {
        assert(keys[i] == neighbor_key(wanted_neighbors[i]));
        assert(keys[j] == neighbor_key(wanted_neighbors[j]));
    }
    lemma_gathered_related(wanted_neighbors.len(), addition, apart);
    let revised = gathered(neighbors.len(), revision);
    assert forall|a: int| 0 <= a < revised.len() implies !((#[trigger] revised[a]) is Added) by {
        assert(revised.contains(revised[a]));
        let at = lemma_gathered_origin(neighbors.len(), revision, revised[a]);
    }
    lemma_apart_joined(revised, gathered(wanted_neighbors.len(), addition), apart);

    let apart = |left: AddressChange, right: AddressChange| addresses_apart(left, right);
    let keys = address_keys(wanted_addresses);
    let revision = address_revision(addresses, wanted_addresses);
    let addition = address_addition(addresses, wanted_addresses);
    lemma_gathered_related(addresses.len(), revision, apart);
    assert forall|i: int, j: int|
        0 <= i < j < wanted_addresses.len() && (#[trigger] addition(i)).len() == 1 && (
        #[trigger] addition(j)).len() == 1 implies apart(addition(i)[0], addition(j)[0]) by {
        assert(keys[i] == address_key(wanted_addresses[i]));
        assert(keys[j] == address_key(wanted_addresses[j]));
    }
    lemma_gathered_related(wanted_addresses.len(), addition, apart);
    let revised = gathered(addresses.len(), revision);
    assert forall|a: int| 0 <= a < revised.len() implies !((#[trigger] revised[a]) is Added) by {
        assert(revised.contains(revised[a]));
        let at = lemma_gathered_origin(addresses.len(), revision, revised[a]);
    }
    lemma_apart_joined(revised, gathered(wanted_addresses.len(), addition), apart);
}

/// Whether two route changes do not both add the same route.
pub open spec fn routes_apart(left: RouteChange, right: RouteChange) -> bool {
    match (left, right) {
        (RouteChange::Added(one), RouteChange::Added(other)) => one != other,
        _ => true,
    }
}

/// Whether two neighbor changes do not both add the same key.
pub open spec fn neighbors_apart(left: NeighborChange, right: NeighborChange) -> bool {
    match (left, right) {
        (NeighborChange::Added(one), NeighborChange::Added(other)) => neighbor_key(one)
            != neighbor_key(other),
        _ => true,
    }
}

/// Whether two address changes do not both add the same key.
pub open spec fn addresses_apart(left: AddressChange, right: AddressChange) -> bool {
    match (left, right) {
        (AddressChange::Added(one), AddressChange::Added(other)) => address_key(one)
            != address_key(other),
        _ => true,
    }
}

/// A relation that holds within two lists and from the first to the second holds within their
/// concatenation.
proof fn lemma_apart_joined<A>(left: Seq<A>, right: Seq<A>, apart: spec_fn(A, A) -> bool)
    requires
        forall|a: int, b: int|
            0 <= a < b < left.len() ==> apart(#[trigger] left[a], #[trigger] left[b]),
        forall|a: int, b: int|
            0 <= a < b < right.len() ==> apart(#[trigger] right[a], #[trigger] right[b]),
        forall|a: int, b: int|
            0 <= a < left.len() && 0 <= b < right.len() ==> apart(
                #[trigger] left[a],
                #[trigger] right[b],
            ),
    ensures
        forall|a: int, b: int|
            0 <= a < b < (left + right).len() ==> apart(
                #[trigger] (left + right)[a],
                #[trigger] (left + right)[b],
            ),
{
    let all = left + right;
    assert forall|a: int, b: int| 0 <= a < b < all.len() implies apart(
        #[trigger] all[a],
        #[trigger] all[b],
    ) by {
        if b < left.len() {
            assert(apart(left[a], left[b]));
        } else if a < left.len() {
            assert(apart(left[a], right[b - left.len()]));
        } else {
            assert(apart(right[a - left.len()], right[b - left.len()]));
        }
    }
}

/// A diff of a state that already is as desired is empty: every observed route is wanted and
/// every wanted one observed, and so for neighbors with their link-layer addresses and for
/// addresses with the broadcast addresses that are asked for.
pub proof fn matching_domains_yield_no_change(
    routes: Seq<Route>,
    wanted_routes: Seq<RouteConfig>,
    neighbors: Seq<NeighborEntry>,
    wanted_neighbors: Seq<StaticNeighbor>,
    addresses: Seq<InterfaceAddress>,
    wanted_addresses: Seq<NewInterfaceAddress>,
)
    requires
        forall|config: RouteConfig|
            #[trigger] wanted_routes.contains(config) <==> intents(routes).contains(config),
        forall|i: int|
            0 <= i < neighbors.len() ==> (last_index(
                neighbor_keys(wanted_neighbors),
                entry_key(#[trigger] neighbors[i]),
            ) matches Some(j) && neighbors[i].mac == Some(wanted_neighbors[j].mac)),
        forall|j: int|
            0 <= j < wanted_neighbors.len() ==> entry_keys(neighbors).contains(
                neighbor_key(#[trigger] wanted_neighbors[j]),
            ),
        forall|i: int|
            0 <= i < addresses.len() ==> (last_index(
                address_keys(wanted_addresses),
                assigned_key(#[trigger] addresses[i]),
            ) matches Some(j) && !broadcast_differs(addresses[i], wanted_addresses[j])),
        forall|j: int|
            0 <= j < wanted_addresses.len() ==> assigned_keys(addresses).contains(
                address_key(#[trigger] wanted_addresses[j]),
            ),
    ensures
        route_changes(routes, Some(wanted_routes)) == Seq::<RouteChange>::empty(),
        neighbor_changes(neighbors, Some(wanted_neighbors)) == Seq::<NeighborChange>::empty(),
        address_changes(addresses, Some(wanted_addresses)) == Seq::<AddressChange>::empty(),
{
    let removal = route_removal(routes, wanted_routes);
    assert forall|i: int| 0 <= i < routes.len() implies (#[trigger] removal(i)).len() == 0 by {
        assert(intents(routes)[i] == intent_of(routes[i]));
        assert(intents(routes).contains(intent_of(routes[i])));
        assert(wanted_routes.contains(intent_of(routes[i])));
    }
    lemma_gathered_empty(routes.len(), removal);
    let addition = route_addition(routes, wanted_routes);
    assert forall|j: int| 0 <= j < wanted_routes.len() implies (#[trigger] addition(j)).len()
        == 0 by {
        assert(wanted_routes.contains(wanted_routes[j]));
    }
    lemma_gathered_empty(wanted_routes.len(), addition);
    lemma_gathered_empty(neighbors.len(), neighbor_revision(neighbors, wanted_neighbors));
    lemma_gathered_empty(wanted_neighbors.len(), neighbor_addition(neighbors, wanted_neighbors));
    lemma_gathered_empty(addresses.len(), address_revision(addresses, wanted_addresses));
    lemma_gathered_empty(wanted_addresses.len(), address_addition(addresses, wanted_addresses));
}

/// An interface patch never sets a field that was not requested.
pub proof fn unrequested_fields_are_left_alone(current: Seq<Interface>, config: InterfaceConfig)
    ensures
        interface_diff(current, config) matches Some(diff) ==> {
            &&& diff.interface_id == config.interface_id()
            &&& diff.admin_state is Some ==> wanted_of(diff.admin_state) == config.admin_state()
            &&& diff.mtu is Some ==> wanted_of(diff.mtu) == config.mtu()
        },
{
}

/// Items of the first list are in a concatenation.
proof fn lemma_contains_left<A>(left: Seq<A>, right: Seq<A>, item: A)
    requires
        left.contains(item),
    ensures
        (left + right).contains(item),
{
    let i = choose|i: int| 0 <= i < left.len() && left[i] == item;
    assert((left + right)[i] == item);
}

/// Items of the second list are in a concatenation.
proof fn lemma_contains_right<A>(left: Seq<A>, right: Seq<A>, item: A)
    requires
        right.contains(item),
    ensures
        (left + right).contains(item),
{
    let i = choose|i: int| 0 <= i < right.len() && right[i] == item;
    assert((left + right)[left.len() + i] == item);
}

/// Items of a concatenation are in one of the two lists.
proof fn lemma_contains_either<A>(left: Seq<A>, right: Seq<A>, item: A)
    requires
        (left + right).contains(item),
    ensures
        left.contains(item) || right.contains(item),
{
    let i = choose|i: int| 0 <= i < (left + right).len() && (left + right)[i] == item;
    if i < left.len() {
        assert(left[i] == item);
    } else {
        assert(right[i - left.len()] == item);
    }
}

// ---- keys and comparisons ----

/// What identifies entries and addresses: an observed one and a desired one have one key exactly
/// when they are on the same interface and have the same address, or the same network.
pub proof fn keys_are_interface_and_address(
    entry: NeighborEntry,
    other: NeighborEntry,
    neighbor: StaticNeighbor,
    assigned: InterfaceAddress,
    another: InterfaceAddress,
    request: NewInterfaceAddress,
)
    ensures
        entry_key(entry) == neighbor_key(neighbor) <==> neighbor.interface_id.value()
            == entry.interface_index && neighbor.address == entry.address,
        entry_key(entry) == entry_key(other) <==> entry.interface_index == other.interface_index
            && entry.address == other.address,
        assigned_key(assigned) == address_key(request) <==> request.interface_id.value()
            == assigned.interface_index && request.address == assigned.address,
        assigned_key(assigned) == assigned_key(another) <==> assigned.interface_index
            == another.interface_index && assigned.address == another.address,
{
    let here = InterfaceId::of(entry.interface_index as u64);
    let there = InterfaceId::of(other.interface_index as u64);
    id_is_its_number(here, neighbor.interface_id, entry.interface_index as u64);
    id_is_its_number(here, there, other.interface_index as u64);
    let on = InterfaceId::of(assigned.interface_index as u64);
    let also = InterfaceId::of(another.interface_index as u64);
    id_is_its_number(on, request.interface_id, assigned.interface_index as u64);
    id_is_its_number(on, also, another.interface_index as u64);
}

/// An observed state matches a desired one exactly when both are up or both are down; an unknown
/// one matches neither.
pub proof fn unknown_states_match_nothing(observed: AdminState)
    ensures
        state_matches(observed, DesiredAdminState::Up) <==> observed == AdminState::Up,
        state_matches(observed, DesiredAdminState::Down) <==> observed == AdminState::Down,
{
}

/// A broadcast address differs exactly when one is asked for and another, or none, is observed;
/// asking for none is no preference.
pub proof fn absent_broadcast_is_no_preference(
    assigned: InterfaceAddress,
    request: NewInterfaceAddress,
)
    ensures
        request.broadcast is None ==> !broadcast_differs(assigned, request),
        request.broadcast matches Some(broadcast) ==> (broadcast_differs(assigned, request)
            <==> assigned.broadcast != Some(IpAddress::V4(broadcast))),
{
}

/// An interface patch holds a field exactly when it was asked for and differs from what was
/// observed, with both values, where an unknown MTU counts as zero. There is no patch where no
/// field differs or the interface was not observed.
pub proof fn patches_hold_the_fields_that_differ(
    current: Seq<Interface>,
    config: InterfaceConfig,
    i: int,
)
    ensures
        (forall|k: int|
            0 <= k < current.len() ==> (#[trigger] current[k]).id != config.interface_id())
            ==> interface_diff(current, config) is None,
        0 <= i < current.len() && current[i].id == config.interface_id() && (forall|k: int|
            0 <= k < i ==> (#[trigger] current[k]).id != config.interface_id()) ==> {
            let state = config.admin_state() matches Some(desired) && !(desired
                == DesiredAdminState::Up && current[i].admin_state == AdminState::Up || desired
                == DesiredAdminState::Down && current[i].admin_state == AdminState::Down);
            let mtu = config.mtu() matches Some(desired) && current[i].mtu != Some(desired);
            &&& interface_diff(current, config) is Some <==> state || mtu
            &&& interface_diff(current, config) matches Some(diff) ==> {
                &&& diff.interface_id == config.interface_id()
                &&& diff.admin_state is Some <==> state
                &&& diff.mtu is Some <==> mtu
                &&& diff.admin_state matches Some(change) ==> change.current
                    == current[i].admin_state && Some(change.desired) == config.admin_state()
                &&& diff.mtu matches Some(change) ==> Some(change.desired) == config.mtu() && (
                current[i].mtu matches Some(old_mtu) ==> change.current == old_mtu) && (
                current[i].mtu is None ==> change.current == 0)
            }
        },
{
    lemma_first_interface(current, config.interface_id(), i);
}

/// The first interface with an identity is found, and none where there is none.
proof fn lemma_first_interface(current: Seq<Interface>, id: InterfaceId, i: int)
    ensures
        (forall|k: int| 0 <= k < current.len() ==> (#[trigger] current[k]).id != id)
            ==> first_interface(current, id) is None,
        0 <= i < current.len() && current[i].id == id && (forall|k: int|
            0 <= k < i ==> (#[trigger] current[k]).id != id) ==> first_interface(current, id)
            == Some(current[i]),
    decreases current.len(),
{
    if current.len() > 0 {
        let rest = current.skip(1);
        assert(forall|k: int| 0 <= k < rest.len() ==> #[trigger] rest[k] == current[k + 1]);
        assert(current[0] == current[0]);
        lemma_first_interface(rest, id, i - 1);
    }
}

/// Removals and changes come before additions, in every domain.
pub proof fn additions_come_last(
    routes: Seq<Route>,
    wanted_routes: Seq<RouteConfig>,
    neighbors: Seq<NeighborEntry>,
    wanted_neighbors: Seq<StaticNeighbor>,
    addresses: Seq<InterfaceAddress>,
    wanted_addresses: Seq<NewInterfaceAddress>,
    i: int,
    j: int,
)
    requires
        0 <= i < j,
    ensures
        ({
            let changes = route_changes(routes, Some(wanted_routes));
            j < changes.len() && changes[i] is Added ==> changes[j] is Added
        }),
        ({
            let changes = neighbor_changes(neighbors, Some(wanted_neighbors));
            j < changes.len() && changes[i] is Added ==> changes[j] is Added
        }),
        ({
            let changes = address_changes(addresses, Some(wanted_addresses));
            j < changes.len() && changes[i] is Added ==> changes[j] is Added
        }),
{
    let removal = route_removal(routes, wanted_routes);
    let addition = route_addition(routes, wanted_routes);
    let removed = gathered(routes.len(), removal);
    let added = gathered(wanted_routes.len(), addition);
    if j < removed.len() + added.len() {
        if i < removed.len() {
            assert(removed.contains(removed[i]));
            let at = lemma_gathered_origin(routes.len(), removal, removed[i]);
        } else {
            assert(added.contains(added[j - removed.len()]));
            let at = lemma_gathered_origin(
                wanted_routes.len(),
                addition,
                added[j - removed.len()],
            );
        }
    }
    let revision = neighbor_revision(neighbors, wanted_neighbors);
    let addition = neighbor_addition(neighbors, wanted_neighbors);
    let revised = gathered(neighbors.len(), revision);
    let added = gathered(wanted_neighbors.len(), addition);
    if j < revised.len() + added.len() {
        if i < revised.len() {
            assert(revised.contains(revised[i]));
            let at = lemma_gathered_origin(neighbors.len(), revision, revised[i]);
        } else {
            assert(added.contains(added[j - revised.len()]));
            let at = lemma_gathered_origin(
                wanted_neighbors.len(),
                addition,
                added[j - revised.len()],
            );
        }
    }
    let revision = address_revision(addresses, wanted_addresses);
    let addition = address_addition(addresses, wanted_addresses);
    let revised = gathered(addresses.len(), revision);
    let added = gathered(wanted_addresses.len(), addition);
    if j < revised.len() + added.len() {
        if i < revised.len() {
            assert(revised.contains(revised[i]));
            let at = lemma_gathered_origin(addresses.len(), revision, revised[i]);
        } else {
            assert(added.contains(added[j - revised.len()]));
            let at = lemma_gathered_origin(
                wanted_addresses.len(),
                addition,
                added[j - revised.len()],
            );
        }
    }
}

/// A list that is given is managed, even an empty one, and only one that is not given is not.
pub proof fn given_lists_are_managed<T>(list: Vec<T>)
    ensures
        managed(Some(list)) == Some(list@),
        managed(None::<Vec<T>>) is None,
{
}

/// The resolver changes exactly when it is managed and the desired nameservers or search domains
/// are others, or in another order, than the observed ones.
pub proof fn resolver_is_compared_as_a_whole(
    change: Option<DnsChange>,
    current: DnsConfig,
    wanted: NewDnsConfig,
)
    ensures
        dns_compared(change, current, None) ==> change is None,
        dns_compared(change, current, Some(wanted)) ==> {
            &&& change is None <==> wanted.nameservers@ == current.nameservers@ && texts(
                wanted.search_domains@,
            ) == texts(current.search_domains@)
            &&& change matches Some(both) ==> both.current@ == current@ && both.desired@ == wanted@
        },
{
}

/// The firewall changes exactly when it is managed and the desired rules are others, or in
/// another order, than the observed ones.
pub proof fn rules_are_compared_in_order(
    change: Option<FirewallChange>,
    current: Seq<FirewallRule>,
    wanted: FirewallPolicy,
)
    ensures
        firewall_compared(change, current, None) ==> change is None,
        firewall_compared(change, current, Some(wanted)) ==> {
            &&& change is None <==> wanted.rules@ == current
            &&& change matches Some(both) ==> both.current@ == current && both.desired@ == wanted@
        },
{
}

/// Of several patches for one interface the last one counts, and an interface is patched at most
/// once.
pub proof fn last_patch_for_an_interface_counts(
    current: Seq<Interface>,
    desired: Seq<InterfaceConfig>,
    i: int,
    a: int,
    b: int,
)
    requires
        0 <= i < desired.len(),
        forall|k: int|
            i < k < desired.len() ==> (#[trigger] desired[k]).interface_id()
                != desired[i].interface_id(),
    ensures
        interface_diff(current, desired[i]) matches Some(diff) ==> interface_diffs(
            current,
            Some(desired),
        ).contains(diff),
        0 <= a < b < interface_diffs(current, Some(desired)).len() ==> interface_diffs(
            current,
            Some(desired),
        )[a].interface_id != interface_diffs(current, Some(desired))[b].interface_id,
{
    let ids = targets(desired);
    let piece = interface_patch(current, desired);
    let diffs = interface_diffs(current, Some(desired));
    assert forall|k: int| i < k < ids.len() implies #[trigger] ids[k] != ids[i] by {
        assert(ids[k] == desired[k].interface_id());
    }
    lemma_last_place(ids, i);
    if let Some(diff) = interface_diff(current, desired[i]) {
        assert(piece(i)[0] == diff);
        lemma_gathered_holds(desired.len(), piece, i, 0);
    }
    let related = |one: InterfaceDiff, other: InterfaceDiff| one.interface_id != other.interface_id;
    assert forall|x: int, y: int|
        0 <= x < y < desired.len() && (#[trigger] piece(x)).len() == 1 && (#[trigger] piece(
            y,
        )).len() == 1 implies related(piece(x)[0], piece(y)[0]) by {
        unrequested_fields_are_left_alone(current, desired[x]);
        unrequested_fields_are_left_alone(current, desired[y]);
        assert(ids[y] != ids[x]);
    }
    lemma_gathered_related(desired.len(), piece, related);
    if 0 <= a < b < diffs.len() {
        assert(related(diffs[a], diffs[b]));
    }
}

} // verus!
