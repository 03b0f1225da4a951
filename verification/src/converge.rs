//! What carrying out a plan leads to.
//!
//! A [`World`] is the configuration of a host as the six domains see it, and [`reached`] is the
//! world that a list of steps leads to when every step does what it asks for. The law of this
//! module is that the plan for a diff leads from the observed state to the desired one.

use crate::address::IpAddress;
use crate::address::Network;
use crate::apply::address_step;
use crate::apply::destination_of;
use crate::apply::destinations;
use crate::apply::dns_steps;
use crate::apply::every_route_change_is_carried_out;
use crate::apply::firewall_steps;
use crate::apply::interface_step;
use crate::apply::is_replacement;
use crate::apply::neighbor_step;
use crate::apply::plan_of;
use crate::apply::route_step;
use crate::apply::route_steps;
use crate::apply::single_route;
use crate::apply::Step;
use crate::desired_state::DesiredState;
use crate::diff::address_addition;
use crate::diff::address_changes;
use crate::diff::address_changes_reconcile;
use crate::diff::address_key;
use crate::diff::address_keys;
use crate::diff::address_revision;
use crate::diff::assigned_key;
use crate::diff::assigned_keys;
use crate::diff::dns_compared;
use crate::diff::entry_key;
use crate::diff::entry_keys;
use crate::diff::firewall_compared;
use crate::diff::first_interface;
use crate::diff::interface_diff;
use crate::diff::interface_diffs;
use crate::diff::interface_patch;
use crate::diff::managed;
use crate::diff::neighbor_addition;
use crate::diff::neighbor_changes;
use crate::diff::neighbor_changes_reconcile;
use crate::diff::neighbor_key;
use crate::diff::neighbor_keys;
use crate::diff::neighbor_revision;
use crate::diff::route_addition;
use crate::diff::route_changes;
use crate::diff::route_changes_reconcile;
use crate::diff::route_removal;
use crate::diff::targets;
use crate::diff::wanted_of;
use crate::diff::AddressChange;
use crate::diff::Diff;
use crate::diff::InterfaceDiff;
use crate::diff::NeighborChange;
use crate::diff::RouteChange;
use crate::dns::Resolver;
use crate::firewall::FirewallRule;
use crate::gather::gathered;
use crate::gather::is_last;
use crate::gather::last_index;
use crate::gather::lemma_gathered_empty;
use crate::gather::lemma_gathered_holds;
use crate::gather::lemma_gathered_origin;
use crate::gather::lemma_is_last_index;
use crate::gather::lemma_last_index;
use crate::ifaddr::InterfaceAddress;
use crate::ifaddr::NewInterfaceAddress;
use crate::interface::interface_config_is_its_parts;
use crate::interface::AdminState;
use crate::interface::DesiredAdminState;
use crate::interface::Interface;
use crate::interface::InterfaceConfig;
use crate::interface::InterfaceId;
use crate::mac::MacAddress;
use crate::mutation::Operation;
use crate::neighbor::NeighborEntry;
use crate::neighbor::StaticNeighbor;
use crate::route::intent_of;
use crate::route::intents;
use crate::route::Route;
use crate::route::RouteConfig;
use crate::snapshot::CurrentState;
use vstd::prelude::*;

verus! {

/// The settings of an interface that a patch can change.
pub struct Link {
    /// The administrative state.
    pub admin_state: AdminState,
    /// The maximum transmission unit, if known.
    pub mtu: Option<u32>,
}

/// A network configuration.
#[verifier::ext_equal]
pub struct World {
    /// The routes, each by its four settable fields.
    pub routes: Set<RouteConfig>,
    /// The settings of each interface.
    pub links: Map<InterfaceId, Link>,
    /// The link-layer address of each neighbor entry, if known.
    pub neighbors: Map<(InterfaceId, IpAddress), Option<MacAddress>>,
    /// The broadcast address of each interface address, if any.
    pub addresses: Map<(InterfaceId, Network), Option<IpAddress>>,
    /// The resolver configuration.
    pub resolver: Resolver,
    /// The firewall rules, in order.
    pub rules: Seq<FirewallRule>,
}

// ---- steps ----

/// The settings of an interface after a patch: what the patch requests, and otherwise what was
/// there.
pub open spec fn patched(link: Link, patch: InterfaceConfig) -> Link {
    Link {
        admin_state: match patch.admin_state() {
            Some(DesiredAdminState::Up) => AdminState::Up,
            Some(DesiredAdminState::Down) => AdminState::Down,
            None => link.admin_state,
        },
        mtu: match patch.mtu() {
            Some(mtu) => Some(mtu),
            None => link.mtu,
        },
    }
}

/// The broadcast address that a request asks for.
pub open spec fn requested_broadcast(request: NewInterfaceAddress) -> Option<IpAddress> {
    match request.broadcast {
        Some(broadcast) => Some(IpAddress::V4(broadcast)),
        None => None,
    }
}

/// The world after a step that did what it asks for. Neighbor entries and addresses are removed
/// by their key alone, and a patch of an interface that is not there does nothing.
pub open spec fn carried_out(world: World, step: Step) -> World {
    match step {
        Step::ReplaceRoute { old: old_route, new: new_route } => World {
            routes: world.routes.remove(intent_of(old_route)).insert(new_route),
            ..world
        },
        Step::Single(Operation::AddRoute(config)) => World {
            routes: world.routes.insert(config),
            ..world
        },
        Step::Single(Operation::RemoveRoute(config)) => World {
            routes: world.routes.remove(config),
            ..world
        },
        Step::Single(Operation::SetInterfaceConfig(patch)) => if world.links.contains_key(
            patch.interface_id(),
        ) {
            World {
                links: world.links.insert(
                    patch.interface_id(),
                    patched(world.links[patch.interface_id()], patch),
                ),
                ..world
            }
        } else {
            world
        },
        Step::Single(Operation::AddStaticNeighbor(neighbor)) => World {
            neighbors: world.neighbors.insert(neighbor_key(neighbor), Some(neighbor.mac)),
            ..world
        },
        Step::Single(Operation::RemoveStaticNeighbor(neighbor)) => World {
            neighbors: world.neighbors.remove(neighbor_key(neighbor)),
            ..world
        },
        Step::Single(Operation::AddAddress(request)) => World {
            addresses: world.addresses.insert(address_key(request), requested_broadcast(request)),
            ..world
        },
        Step::Single(Operation::RemoveAddress(assigned)) => World {
            addresses: world.addresses.remove(assigned_key(assigned)),
            ..world
        },
        Step::Single(Operation::SetDnsConfig(resolver)) => World { resolver, ..world },
        Step::Single(Operation::SetFirewallPolicy(policy)) => World {
            rules: policy.rules,
            ..world
        },
    }
}

/// The world after steps, one after the other, that did what they ask for.
pub open spec fn reached(world: World, steps: Seq<Step>) -> World
    decreases steps.len(),
{
    if steps.len() == 0 {
        world
    } else {
        carried_out(reached(world, steps.drop_last()), steps.last())
    }
}

// ---- the observed and the desired world ----

/// The settings of the observed interfaces. Of interfaces with one identity the first counts.
pub open spec fn seen_links(current: Seq<Interface>) -> Map<InterfaceId, Link> {
    Map::new(
        |id: InterfaceId| first_interface(current, id) is Some,
        |id: InterfaceId|
            Link {
                admin_state: first_interface(current, id)->0.admin_state,
                mtu: first_interface(current, id)->0.mtu,
            },
    )
}

/// The observed neighbor entries. Of entries with one key the last counts.
pub open spec fn seen_neighbors(current: Seq<NeighborEntry>) -> Map<
    (InterfaceId, IpAddress),
    Option<MacAddress>,
> {
    Map::new(
        |key: (InterfaceId, IpAddress)| entry_keys(current).contains(key),
        |key: (InterfaceId, IpAddress)| current[last_index(entry_keys(current), key)->0].mac,
    )
}

/// The observed interface addresses. Of addresses with one key the last counts.
pub open spec fn seen_addresses(current: Seq<InterfaceAddress>) -> Map<
    (InterfaceId, Network),
    Option<IpAddress>,
> {
    Map::new(
        |key: (InterfaceId, Network)| assigned_keys(current).contains(key),
        |key: (InterfaceId, Network)| current[last_index(assigned_keys(current), key)->0].broadcast,
    )
}

/// The world that a snapshot shows.
pub open spec fn seen(current: CurrentState) -> World {
    World {
        routes: intents(current.routes@).to_set(),
        links: seen_links(current.interfaces@),
        neighbors: seen_neighbors(current.neighbors@),
        addresses: seen_addresses(current.addresses@),
        resolver: current.dns@,
        rules: current.firewall_rules@,
    }
}

/// The settings of interfaces as patches want them: the last patch for an interface applied to
/// what was there. Nothing else about them is to change, and no interface is to come or go.
pub open spec fn wanted_links(
    before: Map<InterfaceId, Link>,
    desired: Seq<InterfaceConfig>,
) -> Map<InterfaceId, Link> {
    Map::new(
        |id: InterfaceId| before.contains_key(id),
        |id: InterfaceId|
            match last_index(targets(desired), id) {
                Some(j) => patched(before[id], desired[j]),
                None => before[id],
            },
    )
}

/// The desired neighbor entries. Of requests with one key the last counts.
pub open spec fn wanted_neighbors(desired: Seq<StaticNeighbor>) -> Map<
    (InterfaceId, IpAddress),
    Option<MacAddress>,
> {
    Map::new(
        |key: (InterfaceId, IpAddress)| neighbor_keys(desired).contains(key),
        |key: (InterfaceId, IpAddress)|
            Some(desired[last_index(neighbor_keys(desired), key)->0].mac),
    )
}

/// The desired interface addresses. Of requests with one key the last counts. A request without
/// a broadcast address leaves the one that was there.
pub open spec fn wanted_addresses(
    before: Map<(InterfaceId, Network), Option<IpAddress>>,
    desired: Seq<NewInterfaceAddress>,
) -> Map<(InterfaceId, Network), Option<IpAddress>> {
    Map::new(
        |key: (InterfaceId, Network)| address_keys(desired).contains(key),
        |key: (InterfaceId, Network)|
            {
                let request = desired[last_index(address_keys(desired), key)->0];
                if request.broadcast is None && before.contains_key(key) {
                    before[key]
                } else {
                    requested_broadcast(request)
                }
            },
    )
}

/// The world that a desired state asks for: each managed domain as desired, and every other
/// domain as it was.
pub open spec fn wanted(before: World, desired: DesiredState) -> World {
    World {
        routes: match desired.routes {
            Some(list) => list@.to_set(),
            None => before.routes,
        },
        links: match desired.interfaces {
            Some(list) => wanted_links(before.links, list@),
            None => before.links,
        },
        neighbors: match desired.neighbors {
            Some(list) => wanted_neighbors(list@),
            None => before.neighbors,
        },
        addresses: match desired.addresses {
            Some(list) => wanted_addresses(before.addresses, list@),
            None => before.addresses,
        },
        resolver: match desired.dns {
            Some(config) => config@,
            None => before.resolver,
        },
        rules: match desired.firewall {
            Some(policy) => policy@.rules,
            None => before.rules,
        },
    }
}

// ---- steps one after the other ----

/// Steps in two lists lead on from each other.
proof fn lemma_reached_append(world: World, left: Seq<Step>, right: Seq<Step>)
    ensures
        reached(world, left + right) == reached(reached(world, left), right),
    decreases right.len(),
{
    if right.len() == 0 {
        assert(left + right =~= left);
    } else {
        assert((left + right).drop_last() =~= left + right.drop_last());
        assert((left + right).last() == right.last());
        lemma_reached_append(world, left, right.drop_last());
    }
}

/// No step leads nowhere, one step to where it leads, and two from one to the other.
proof fn lemma_reached_few(world: World, one: Step, two: Step)
    ensures
        reached(world, Seq::empty()) == world,
        reached(world, seq![one]) == carried_out(world, one),
        reached(world, seq![one, two]) == carried_out(carried_out(world, one), two),
{
    reveal_with_fuel(reached, 3);
    assert(seq![one, two].drop_last() =~= seq![one]);
    assert(seq![one].drop_last() =~= Seq::empty());
}

/// What is read of a world settles on one value where every piece that touches it sets that
/// value and no other piece changes it.
proof fn lemma_settles<V>(
    world: World,
    n: nat,
    piece: spec_fn(int) -> Seq<Step>,
    read: spec_fn(World) -> V,
    touches: spec_fn(int) -> bool,
    value: V,
)
    requires
        forall|i: int, before: World|
            0 <= i < n && (read(before) == read(world) || read(before) == value) ==> read(
                #[trigger] reached(before, piece(i)),
            ) == (if touches(i) {
                value
            } else {
                read(before)
            }),
    ensures
        read(reached(world, gathered(n, piece))) == (if exists|i: int|
            0 <= i < n && #[trigger] touches(i) {
            value
        } else {
            read(world)
        }),
    decreases n,
{
    if n > 0 {
        let shorter = (n - 1) as nat;
        lemma_settles(world, shorter, piece, read, touches, value);
        let before = reached(world, gathered(shorter, piece));
        lemma_reached_append(world, gathered(shorter, piece), piece(n - 1));
        assert(gathered(n, piece) == gathered(shorter, piece) + piece(n - 1));
        assert(read(reached(before, piece(n - 1))) == (if touches(n - 1) {
            value
        } else {
            read(before)
        }));
        if exists|i: int| 0 <= i < n && #[trigger] touches(i) {
            let i = choose|i: int| 0 <= i < n && #[trigger] touches(i);
            if i < shorter {
                assert(exists|i: int| 0 <= i < shorter && #[trigger] touches(i));
            }
        }
    }
}

// ---- routes ----

/// Reads whether a route is there.
spec fn holds_route(config: RouteConfig) -> spec_fn(World) -> bool {
    |world: World| world.routes.contains(config)
}

/// Whether a step adds or removes a route.
spec fn moves_route(step: Step, config: RouteConfig) -> bool {
    match step {
        Step::ReplaceRoute { old: old_route, new: new_route } => new_route == config || intent_of(
            old_route,
        ) == config,
        Step::Single(operation) => operation == Operation::AddRoute(config) || operation
            == Operation::RemoveRoute(config),
    }
}

/// A route change adds a desired route or removes an undesired one.
proof fn lemma_route_change(current: Seq<Route>, desired: Seq<RouteConfig>, change: RouteChange)
    requires
        route_changes(current, Some(desired)).contains(change),
    ensures
        match change {
            RouteChange::Added(config) => desired.contains(config),
            RouteChange::Removed(route) => !desired.contains(intent_of(route)),
        },
{
    let removal = route_removal(current, desired);
    let addition = route_addition(current, desired);
    let at = lemma_either_origin(current.len(), removal, desired.len(), addition, change);
    if at.0 {
        assert(removal(at.1)[at.2] == change);
    } else {
        assert(addition(at.1)[at.2] == change);
        assert(desired.contains(desired[at.1]));
    }
}

/// What is in the concatenation of two lists of pieces comes out of a piece of one of them.
proof fn lemma_either_origin<A>(
    n: nat,
    left: spec_fn(int) -> Seq<A>,
    m: nat,
    right: spec_fn(int) -> Seq<A>,
    item: A,
) -> (at: (bool, int, int))
    requires
        (gathered(n, left) + gathered(m, right)).contains(item),
    ensures
        at.0 ==> 0 <= at.1 < n && 0 <= at.2 < left(at.1).len() && left(at.1)[at.2] == item,
        !at.0 ==> 0 <= at.1 < m && 0 <= at.2 < right(at.1).len() && right(at.1)[at.2] == item,
{
    let front = gathered(n, left);
    let back = gathered(m, right);
    let k = choose|k: int| 0 <= k < (front + back).len() && (front + back)[k] == item;
    if k < front.len() {
        assert(front[k] == item);
        let at = lemma_gathered_origin(n, left, item);
        (true, at.0, at.1)
    } else {
        assert(back[k - front.len()] == item);
        let at = lemma_gathered_origin(m, right, item);
        (false, at.0, at.1)
    }
}

/// The steps at the position of a route change leave a route that they move as desired, and
/// every other route as it was.
proof fn lemma_route_piece(
    before: World,
    current: Seq<Route>,
    desired: Seq<RouteConfig>,
    i: int,
    config: RouteConfig,
)
    requires
        0 <= i < route_changes(current, Some(desired)).len(),
    ensures
        ({
            let changes = route_changes(current, Some(desired));
            let steps = route_step(changes)(i);
            &&& steps.len() <= 1
            &&& reached(before, steps).routes.contains(config) == (if steps.len() == 1
                && moves_route(steps[0], config) {
                desired.contains(config)
            } else {
                before.routes.contains(config)
            })
        }),
{
    let changes = route_changes(current, Some(desired));
    let steps = route_step(changes)(i);
    let destination = destination_of(changes[i]);
    lemma_route_change(current, desired, changes[i]);
    if is_replacement(changes, destination) {
        let all = destinations(changes);
        lemma_last_index(all, destination);
        assert(all[i] == destination);
        assert(all.contains(destination));
        let j = last_index(all, destination)->0;
        lemma_route_change(current, desired, changes[j]);
    }
    if steps.len() == 0 {
        assert(steps =~= Seq::empty());
    } else {
        assert(steps =~= seq![steps[0]]);
        lemma_reached_few(before, steps[0], steps[0]);
    }
}

/// Carrying out route changes leads from the observed routes to the desired ones.
proof fn lemma_routes_settle(world: World, current: Seq<Route>, desired: Seq<RouteConfig>)
    requires
        world.routes == intents(current).to_set(),
    ensures
        reached(world, route_steps(route_changes(current, Some(desired)))).routes
            == desired.to_set(),
{
    let changes = route_changes(current, Some(desired));
    let piece = route_step(changes);
    let n = changes.len();
    let after = reached(world, route_steps(changes)).routes;
    route_changes_reconcile(current, desired);
    assert forall|config: RouteConfig| #[trigger]
        after.contains(config) == desired.contains(config) by {
        let read = holds_route(config);
        let touches = |i: int| piece(i).len() == 1 && moves_route(piece(i)[0], config);
        let value = desired.contains(config);
        assert forall|i: int, before: World|
            0 <= i < n && (read(before) == read(world) || read(before) == value) implies read(
            #[trigger] reached(before, piece(i)),
        ) == (if touches(i) {
            value
        } else {
            read(before)
        }) by {
            lemma_route_piece(before, current, desired, i, config);
        }
        lemma_settles(world, n, piece, read, touches, value);
        if read(world) != value {
            let change = if value {
                RouteChange::Added(config)
            } else {
                let k = choose|k: int|
                    0 <= k < intents(current).len() && intents(current)[k] == config;
                assert(intent_of(current[k]) == config);
                RouteChange::Removed(current[k])
            };
            assert(changes.contains(change));
            let i = choose|i: int| 0 <= i < changes.len() && changes[i] == change;
            every_route_change_is_carried_out(changes, i);
            let step = if is_replacement(changes, destination_of(change)) {
                let (old_route, new_route) = choose|old_route: Route, new_route: RouteConfig|
                    #[trigger] route_steps(changes).contains(
                        Step::ReplaceRoute { old: old_route, new: new_route },
                    ) && (changes[i] == RouteChange::Removed(old_route) || changes[i]
                        == RouteChange::Added(new_route));
                Step::ReplaceRoute { old: old_route, new: new_route }
            } else {
                Step::Single(single_route(change))
            };
            let at = lemma_gathered_origin(n, piece, step);
            lemma_route_piece(world, current, desired, at.0, config);
            assert(touches(at.0));
        }
    }
    assert(after =~= desired.to_set());
}

// ---- neighbors ----

/// Reads a neighbor entry.
spec fn neighbor_at(key: (InterfaceId, IpAddress)) -> spec_fn(World) -> Option<
    Option<MacAddress>,
> {
    |world: World|
        if world.neighbors.contains_key(key) {
            Some(world.neighbors[key])
        } else {
            None
        }
}

/// The entry that a neighbor change is about.
spec fn neighbor_changed(change: NeighborChange) -> (InterfaceId, IpAddress) {
    match change {
        NeighborChange::Added(request) => neighbor_key(request),
        NeighborChange::Removed(entry) => entry_key(entry),
        NeighborChange::Changed { current: entry, .. } => entry_key(entry),
    }
}

/// A neighbor change adds a desired entry, removes an undesired one, or gives one its desired
/// link-layer address.
proof fn lemma_neighbor_change(
    current: Seq<NeighborEntry>,
    desired: Seq<StaticNeighbor>,
    change: NeighborChange,
)
    requires
        neighbor_changes(current, Some(desired)).contains(change),
    ensures
        ({
            let key = neighbor_changed(change);
            let after = wanted_neighbors(desired);
            match change {
                NeighborChange::Added(request) => after.contains_key(key) && after[key] == Some(
                    request.mac,
                ),
                NeighborChange::Removed(_) => !after.contains_key(key),
                NeighborChange::Changed { desired: request, .. } => neighbor_key(request) == key
                    && after.contains_key(key) && after[key] == Some(request.mac),
            }
        }),
{
    let revision = neighbor_revision(current, desired);
    let addition = neighbor_addition(current, desired);
    let keys = neighbor_keys(desired);
    let at = lemma_either_origin(current.len(), revision, desired.len(), addition, change);
    if at.0 {
        assert(revision(at.1)[at.2] == change);
        lemma_last_index(keys, entry_key(current[at.1]));
    } else {
        assert(addition(at.1)[at.2] == change);
        assert(keys[at.1] == neighbor_key(desired[at.1]));
        assert(keys.contains(keys[at.1]));
        lemma_is_last_index(keys, at.1);
    }
}

/// The steps for a neighbor change leave its entry as desired, and every other as it was.
proof fn lemma_neighbor_piece(
    before: World,
    current: Seq<NeighborEntry>,
    desired: Seq<StaticNeighbor>,
    i: int,
    key: (InterfaceId, IpAddress),
)
    requires
        0 <= i < neighbor_changes(current, Some(desired)).len(),
    ensures
        ({
            let changes = neighbor_changes(current, Some(desired));
            let after = reached(before, neighbor_step(changes)(i)).neighbors;
            let source = if neighbor_changed(changes[i]) == key {
                wanted_neighbors(desired)
            } else {
                before.neighbors
            };
            &&& after.contains_key(key) == source.contains_key(key)
            &&& after.contains_key(key) ==> after[key] == source[key]
        }),
{
    let changes = neighbor_changes(current, Some(desired));
    let steps = neighbor_step(changes)(i);
    lemma_neighbor_change(current, desired, changes[i]);
    if steps.len() == 1 {
        assert(steps =~= seq![steps[0]]);
        lemma_reached_few(before, steps[0], steps[0]);
    } else {
        assert(steps =~= seq![steps[0], steps[1]]);
        lemma_reached_few(before, steps[0], steps[1]);
    }
}

/// Carrying out neighbor changes leads from the observed entries to the desired ones.
proof fn lemma_neighbors_settle(
    world: World,
    current: Seq<NeighborEntry>,
    desired: Seq<StaticNeighbor>,
)
    requires
        world.neighbors == seen_neighbors(current),
    ensures
        ({
            let changes = neighbor_changes(current, Some(desired));
            reached(world, gathered(changes.len(), neighbor_step(changes))).neighbors
                == wanted_neighbors(desired)
        }),
{
    let changes = neighbor_changes(current, Some(desired));
    let piece = neighbor_step(changes);
    let n = changes.len();
    let after = reached(world, gathered(n, piece)).neighbors;
    let goal = wanted_neighbors(desired);
    neighbor_changes_reconcile(current, desired);
    assert forall|key: (InterfaceId, IpAddress)|
        #![trigger after.contains_key(key)]
        #![trigger goal.contains_key(key)]
        after.contains_key(key) == goal.contains_key(key) && (after.contains_key(key)
            ==> after[key] == goal[key]) by {
        let read = neighbor_at(key);
        let touches = |i: int| neighbor_changed(changes[i]) == key;
        let value = read(World { neighbors: goal, ..world });
        assert forall|i: int, before: World|
            0 <= i < n && (read(before) == read(world) || read(before) == value) implies read(
            #[trigger] reached(before, piece(i)),
        ) == (if touches(i) {
            value
        } else {
            read(before)
        }) by {
            lemma_neighbor_piece(before, current, desired, i, key);
        }
        lemma_settles(world, n, piece, read, touches, value);
        if read(world) != value {
            let keys = neighbor_keys(desired);
            lemma_last_index(keys, key);
            lemma_last_index(entry_keys(current), key);
            let change = match (last_index(entry_keys(current), key), last_index(keys, key)) {
                (Some(k), Some(j)) => NeighborChange::Changed {
                    current: current[k],
                    desired: desired[j],
                },
                (Some(k), None) => NeighborChange::Removed(current[k]),
                (None, Some(j)) => NeighborChange::Added(desired[j]),
                (None, None) => changes[0],
            };
            assert(changes.contains(change));
            let i = choose|i: int| 0 <= i < changes.len() && changes[i] == change;
            assert(touches(i));
        }
        assert(read(reached(world, gathered(n, piece))) == value);
    }
    assert(after =~= goal);
}

// ---- addresses ----

/// Reads an interface address.
spec fn address_at(key: (InterfaceId, Network)) -> spec_fn(World) -> Option<Option<IpAddress>> {
    |world: World|
        if world.addresses.contains_key(key) {
            Some(world.addresses[key])
        } else {
            None
        }
}

/// The address that an address change is about.
spec fn address_changed(change: AddressChange) -> (InterfaceId, Network) {
    match change {
        AddressChange::Added(request) => address_key(request),
        AddressChange::Removed(assigned) => assigned_key(assigned),
        AddressChange::Changed { current: assigned, .. } => assigned_key(assigned),
    }
}

/// An address change adds a desired address, removes an undesired one, or gives one its desired
/// broadcast address.
proof fn lemma_address_change(
    current: Seq<InterfaceAddress>,
    desired: Seq<NewInterfaceAddress>,
    change: AddressChange,
)
    requires
        address_changes(current, Some(desired)).contains(change),
    ensures
        ({
            let key = address_changed(change);
            let after = wanted_addresses(seen_addresses(current), desired);
            match change {
                AddressChange::Added(request) => after.contains_key(key) && after[key]
                    == requested_broadcast(request),
                AddressChange::Removed(_) => !after.contains_key(key),
                AddressChange::Changed { desired: request, .. } => address_key(request) == key
                    && after.contains_key(key) && after[key] == requested_broadcast(request),
            }
        }),
{
    let revision = address_revision(current, desired);
    let addition = address_addition(current, desired);
    let keys = address_keys(desired);
    let at = lemma_either_origin(current.len(), revision, desired.len(), addition, change);
    if at.0 {
        assert(revision(at.1)[at.2] == change);
        lemma_last_index(keys, assigned_key(current[at.1]));
    } else {
        assert(addition(at.1)[at.2] == change);
        assert(keys[at.1] == address_key(desired[at.1]));
        assert(keys.contains(keys[at.1]));
        lemma_is_last_index(keys, at.1);
    }
}

/// The steps for an address change leave its address as desired, and every other as it was.
proof fn lemma_address_piece(
    before: World,
    current: Seq<InterfaceAddress>,
    desired: Seq<NewInterfaceAddress>,
    i: int,
    key: (InterfaceId, Network),
)
    requires
        0 <= i < address_changes(current, Some(desired)).len(),
    ensures
        ({
            let changes = address_changes(current, Some(desired));
            let after = reached(before, address_step(changes)(i)).addresses;
            let source = if address_changed(changes[i]) == key {
                wanted_addresses(seen_addresses(current), desired)
            } else {
                before.addresses
            };
            &&& after.contains_key(key) == source.contains_key(key)
            &&& after.contains_key(key) ==> after[key] == source[key]
        }),
{
    let changes = address_changes(current, Some(desired));
    let steps = address_step(changes)(i);
    lemma_address_change(current, desired, changes[i]);
    if steps.len() == 1 {
        assert(steps =~= seq![steps[0]]);
        lemma_reached_few(before, steps[0], steps[0]);
    } else {
        assert(steps =~= seq![steps[0], steps[1]]);
        lemma_reached_few(before, steps[0], steps[1]);
    }
}

/// Carrying out address changes leads from the observed addresses to the desired ones.
proof fn lemma_addresses_settle(
    world: World,
    current: Seq<InterfaceAddress>,
    desired: Seq<NewInterfaceAddress>,
)
    requires
        world.addresses == seen_addresses(current),
    ensures
        ({
            let changes = address_changes(current, Some(desired));
            reached(world, gathered(changes.len(), address_step(changes))).addresses
                == wanted_addresses(world.addresses, desired)
        }),
{
    let changes = address_changes(current, Some(desired));
    let piece = address_step(changes);
    let n = changes.len();
    let after = reached(world, gathered(n, piece)).addresses;
    let goal = wanted_addresses(world.addresses, desired);
    address_changes_reconcile(current, desired);
    assert forall|key: (InterfaceId, Network)|
        #![trigger after.contains_key(key)]
        #![trigger goal.contains_key(key)]
        after.contains_key(key) == goal.contains_key(key) && (after.contains_key(key)
            ==> after[key] == goal[key]) by {
        let read = address_at(key);
        let touches = |i: int| address_changed(changes[i]) == key;
        let value = read(World { addresses: goal, ..world });
        assert forall|i: int, before: World|
            0 <= i < n && (read(before) == read(world) || read(before) == value) implies read(
            #[trigger] reached(before, piece(i)),
        ) == (if touches(i) {
            value
        } else {
            read(before)
        }) by {
            lemma_address_piece(before, current, desired, i, key);
        }
        lemma_settles(world, n, piece, read, touches, value);
        if read(world) != value {
            let keys = address_keys(desired);
            lemma_last_index(keys, key);
            lemma_last_index(assigned_keys(current), key);
            let change = match (last_index(assigned_keys(current), key), last_index(keys, key)) {
                (Some(k), Some(j)) => AddressChange::Changed {
                    current: current[k],
                    desired: desired[j],
                },
                (Some(k), None) => AddressChange::Removed(current[k]),
                (None, Some(j)) => AddressChange::Added(desired[j]),
                (None, None) => changes[0],
            };
            assert(changes.contains(change));
            let i = choose|i: int| 0 <= i < changes.len() && changes[i] == change;
            assert(touches(i));
        }
        assert(read(reached(world, gathered(n, piece))) == value);
    }
    assert(after =~= goal);
}

// ---- interfaces ----

/// Reads the settings of an interface.
spec fn link_at(id: InterfaceId) -> spec_fn(World) -> Option<Link> {
    |world: World|
        if world.links.contains_key(id) {
            Some(world.links[id])
        } else {
            None
        }
}

/// A patch of the diff names an interface that was observed, and both what was observed of it
/// and what is desired of it become, with the patch, what is desired of it.
proof fn lemma_link_diff(
    current: Seq<Interface>,
    desired: Seq<InterfaceConfig>,
    diff: InterfaceDiff,
)
    requires
        interface_diffs(current, Some(desired)).contains(diff),
    ensures
        ({
            let before = seen_links(current);
            let after = wanted_links(before, desired);
            let id = diff.interface_id;
            let patch = InterfaceConfig::of(id, wanted_of(diff.admin_state), wanted_of(diff.mtu));
            &&& before.contains_key(id)
            &&& after.contains_key(id)
            &&& patch.interface_id() == id
            &&& patched(before[id], patch) == after[id]
            &&& patched(after[id], patch) == after[id]
        }),
{
    let piece = interface_patch(current, desired);
    let at = lemma_gathered_origin(desired.len(), piece, diff);
    let config = desired[at.0];
    let id = config.interface_id();
    let keys = targets(desired);
    assert(keys[at.0] == id);
    lemma_is_last_index(keys, at.0);
    assert(interface_diff(current, config) == Some(diff));
    interface_config_is_its_parts(
        config,
        config,
        id,
        wanted_of(diff.admin_state),
        wanted_of(diff.mtu),
    );
}

/// Carrying out interface patches leads from the observed settings to the desired ones.
proof fn lemma_links_settle(
    world: World,
    current: Seq<Interface>,
    desired: Seq<InterfaceConfig>,
)
    requires
        world.links == seen_links(current),
    ensures
        ({
            let diffs = interface_diffs(current, Some(desired));
            reached(world, gathered(diffs.len(), interface_step(diffs))).links == wanted_links(
                world.links,
                desired,
            )
        }),
{
    let diffs = interface_diffs(current, Some(desired));
    let piece = interface_step(diffs);
    let n = diffs.len();
    let after = reached(world, gathered(n, piece)).links;
    let goal = wanted_links(world.links, desired);
    assert forall|id: InterfaceId|
        #![trigger after.contains_key(id)]
        #![trigger goal.contains_key(id)]
        after.contains_key(id) == goal.contains_key(id) && (after.contains_key(id) ==> after[id]
            == goal[id]) by {
        let read = link_at(id);
        let touches = |i: int| diffs[i].interface_id == id;
        let value = read(World { links: goal, ..world });
        assert forall|i: int, before: World|
            0 <= i < n && (read(before) == read(world) || read(before) == value) implies read(
            #[trigger] reached(before, piece(i)),
        ) == (if touches(i) {
            value
        } else {
            read(before)
        }) by {
            assert(diffs.contains(diffs[i]));
            lemma_link_diff(current, desired, diffs[i]);
            lemma_reached_few(before, piece(i)[0], piece(i)[0]);
            assert(piece(i) =~= seq![piece(i)[0]]);
        }
        lemma_settles(world, n, piece, read, touches, value);
        if read(world) != value {
            let keys = targets(desired);
            lemma_last_index(keys, id);
            let j = last_index(keys, id)->0;
            assert(keys[j] == desired[j].interface_id());
            assert(interface_diff(current, desired[j]) is Some);
            assert(is_last(keys, j));
            lemma_gathered_holds(desired.len(), interface_patch(current, desired), j, 0);
            let diff = interface_diff(current, desired[j])->0;
            assert(diffs.contains(diff));
            let i = choose|i: int| 0 <= i < diffs.len() && diffs[i] == diff;
            assert(touches(i));
        }
        assert(read(reached(world, gathered(n, piece))) == value);
    }
    assert(after =~= goal);
}

// ---- the whole plan ----

/// The part of a world that a step can change.
enum Area {
    Routes,
    Links,
    Neighbors,
    Addresses,
    Resolver,
    Rules,
}

/// The area of a step.
spec fn area_of(step: Step) -> Area {
    match step {
        Step::ReplaceRoute { .. } => Area::Routes,
        Step::Single(operation) => match operation {
            Operation::AddRoute(_) | Operation::RemoveRoute(_) => Area::Routes,
            Operation::SetInterfaceConfig(_) => Area::Links,
            Operation::AddStaticNeighbor(_) | Operation::RemoveStaticNeighbor(_) => Area::Neighbors,
            Operation::AddAddress(_) | Operation::RemoveAddress(_) => Area::Addresses,
            Operation::SetDnsConfig(_) => Area::Resolver,
            Operation::SetFirewallPolicy(_) => Area::Rules,
        },
    }
}

/// Whether two worlds are the same in an area.
spec fn agree(left: World, right: World, area: Area) -> bool {
    match area {
        Area::Routes => left.routes == right.routes,
        Area::Links => left.links == right.links,
        Area::Neighbors => left.neighbors == right.neighbors,
        Area::Addresses => left.addresses == right.addresses,
        Area::Resolver => left.resolver == right.resolver,
        Area::Rules => left.rules == right.rules,
    }
}

/// Whether all steps are of one area.
spec fn confined(steps: Seq<Step>, area: Area) -> bool {
    forall|i: int| 0 <= i < steps.len() ==> area_of(#[trigger] steps[i]) == area
}

/// Steps of one area leave every other as it was.
proof fn lemma_other_area(world: World, steps: Seq<Step>, own: Area, area: Area)
    requires
        confined(steps, own),
        own != area,
    ensures
        agree(reached(world, steps), world, area),
    decreases steps.len(),
{
    if steps.len() > 0 {
        let shorter = steps.drop_last();
        assert forall|i: int| 0 <= i < shorter.len() implies area_of(#[trigger] shorter[i])
            == own by {
            assert(area_of(steps[i]) == own);
        }
        lemma_other_area(world, shorter, own, area);
        assert(area_of(steps[steps.len() - 1]) == own);
    }
}

/// What steps lead to in an area depends on that area alone.
proof fn lemma_own_area(left: World, right: World, steps: Seq<Step>, area: Area)
    requires
        agree(left, right, area),
    ensures
        agree(reached(left, steps), reached(right, steps), area),
    decreases steps.len(),
{
    if steps.len() > 0 {
        lemma_own_area(left, right, steps.drop_last(), area);
    }
}

/// Pieces of one area make steps of that area.
proof fn lemma_gathered_confined(n: nat, piece: spec_fn(int) -> Seq<Step>, area: Area)
    requires
        forall|i: int| 0 <= i < n ==> confined(#[trigger] piece(i), area),
    ensures
        confined(gathered(n, piece), area),
{
    let steps = gathered(n, piece);
    assert forall|k: int| 0 <= k < steps.len() implies area_of(#[trigger] steps[k]) == area by {
        assert(steps.contains(steps[k]));
        let at = lemma_gathered_origin(n, piece, steps[k]);
        assert(confined(piece(at.0), area));
    }
}

/// Steps followed by steps of another area lead, in an area that only the former reach, where
/// the former lead; and steps that follow ones of another area lead, in their own, where they
/// would lead at once.
proof fn lemma_append_area(
    world: World,
    left: Seq<Step>,
    right: Seq<Step>,
    own: Area,
    area: Area,
)
    requires
        confined(right, own),
    ensures
        own != area ==> agree(reached(world, left + right), reached(world, left), area),
        own == area && agree(reached(world, left), world, area) ==> agree(
            reached(world, left + right),
            reached(world, right),
            area,
        ),
{
    lemma_reached_append(world, left, right);
    if own != area {
        lemma_other_area(reached(world, left), right, own, area);
    } else if agree(reached(world, left), world, area) {
        lemma_own_area(reached(world, left), world, right, area);
    }
}

/// The steps of a diff in one area.
spec fn part_of(diff: Diff, area: Area) -> Seq<Step> {
    match area {
        Area::Routes => route_steps(diff.routes@),
        Area::Links => gathered(diff.interfaces@.len(), interface_step(diff.interfaces@)),
        Area::Neighbors => gathered(diff.neighbors@.len(), neighbor_step(diff.neighbors@)),
        Area::Addresses => gathered(diff.addresses@.len(), address_step(diff.addresses@)),
        Area::Resolver => dns_steps(diff.dns),
        Area::Rules => firewall_steps(diff.firewall),
    }
}

/// The steps of a diff in one area are of that area.
proof fn lemma_part_confined(diff: Diff, area: Area)
    ensures
        confined(part_of(diff, area), area),
{
    match area {
        Area::Routes => {
            lemma_gathered_confined(diff.routes@.len(), route_step(diff.routes@), area);
        },
        Area::Links => {
            lemma_gathered_confined(diff.interfaces@.len(), interface_step(diff.interfaces@), area);
        },
        Area::Neighbors => {
            lemma_gathered_confined(diff.neighbors@.len(), neighbor_step(diff.neighbors@), area);
        },
        Area::Addresses => {
            lemma_gathered_confined(diff.addresses@.len(), address_step(diff.addresses@), area);
        },
        Area::Resolver => {},
        Area::Rules => {},
    }
}

/// In each area a plan leads where its steps in that area lead.
proof fn lemma_plan_part(world: World, diff: Diff, area: Area)
    ensures
        agree(reached(world, plan_of(diff)), reached(world, part_of(diff, area)), area),
{
    let routes = part_of(diff, Area::Routes);
    let links = part_of(diff, Area::Links);
    let neighbors = part_of(diff, Area::Neighbors);
    let addresses = part_of(diff, Area::Addresses);
    let resolver = part_of(diff, Area::Resolver);
    let rules = part_of(diff, Area::Rules);
    lemma_part_confined(diff, Area::Routes);
    lemma_part_confined(diff, Area::Links);
    lemma_part_confined(diff, Area::Neighbors);
    lemma_part_confined(diff, Area::Addresses);
    lemma_part_confined(diff, Area::Resolver);
    lemma_part_confined(diff, Area::Rules);
    if area != Area::Routes {
        lemma_other_area(world, routes, Area::Routes, area);
    }
    lemma_append_area(world, routes, links, Area::Links, area);
    lemma_append_area(world, routes + links, neighbors, Area::Neighbors, area);
    lemma_append_area(world, routes + links + neighbors, addresses, Area::Addresses, area);
    lemma_append_area(
        world,
        routes + links + neighbors + addresses,
        resolver,
        Area::Resolver,
        area,
    );
    lemma_append_area(
        world,
        routes + links + neighbors + addresses + resolver,
        rules,
        Area::Rules,
        area,
    );
}

// ---- laws ----

/// Carrying out the plan for a diff leads from the observed state to the desired one: every
/// managed domain becomes what was asked for, and every other domain stays as it was.
pub proof fn plan_leads_to_the_desired_state(
    current: CurrentState,
    desired: DesiredState,
    diff: Diff,
)
    requires
        diff.routes@ == route_changes(current.routes@, managed(desired.routes)),
        diff.interfaces@ == interface_diffs(current.interfaces@, managed(desired.interfaces)),
        diff.neighbors@ == neighbor_changes(current.neighbors@, managed(desired.neighbors)),
        diff.addresses@ == address_changes(current.addresses@, managed(desired.addresses)),
        dns_compared(diff.dns, current.dns, desired.dns),
        firewall_compared(diff.firewall, current.firewall_rules@, desired.firewall),
    ensures
        reached(seen(current), plan_of(diff)) == wanted(seen(current), desired),
{
    let world = seen(current);
    let after = reached(world, plan_of(diff));
    let goal = wanted(world, desired);
    assert(after.routes == goal.routes) by {
        lemma_plan_part(world, diff, Area::Routes);
        if let Some(list) = desired.routes {
            lemma_routes_settle(world, current.routes@, list@);
        }
    }
    assert(after.links == goal.links) by {
        lemma_plan_part(world, diff, Area::Links);
        if let Some(list) = desired.interfaces {
            lemma_links_settle(world, current.interfaces@, list@);
        }
    }
    assert(after.neighbors == goal.neighbors) by {
        lemma_plan_part(world, diff, Area::Neighbors);
        if let Some(list) = desired.neighbors {
            lemma_neighbors_settle(world, current.neighbors@, list@);
        }
    }
    assert(after.addresses == goal.addresses) by {
        lemma_plan_part(world, diff, Area::Addresses);
        if let Some(list) = desired.addresses {
            lemma_addresses_settle(world, current.addresses@, list@);
        }
    }
    assert(after.resolver == goal.resolver) by {
        lemma_plan_part(world, diff, Area::Resolver);
        let steps = dns_steps(diff.dns);
        if steps.len() == 1 {
            lemma_reached_few(world, steps[0], steps[0]);
        }
    }
    assert(after.rules == goal.rules) by {
        lemma_plan_part(world, diff, Area::Rules);
        let steps = firewall_steps(diff.firewall);
        if steps.len() == 1 {
            lemma_reached_few(world, steps[0], steps[0]);
        }
    }
}

/// A state that is as desired needs no steps, where no key is observed twice: carrying out a
/// plan a second time finds nothing to do.
pub proof fn desired_state_needs_no_steps(
    current: CurrentState,
    desired: DesiredState,
    diff: Diff,
)
    requires
        diff.routes@ == route_changes(current.routes@, managed(desired.routes)),
        diff.interfaces@ == interface_diffs(current.interfaces@, managed(desired.interfaces)),
        diff.neighbors@ == neighbor_changes(current.neighbors@, managed(desired.neighbors)),
        diff.addresses@ == address_changes(current.addresses@, managed(desired.addresses)),
        dns_compared(diff.dns, current.dns, desired.dns),
        firewall_compared(diff.firewall, current.firewall_rules@, desired.firewall),
        entry_keys(current.neighbors@).no_duplicates(),
        assigned_keys(current.addresses@).no_duplicates(),
        wanted(seen(current), desired) == seen(current),
    ensures
        diff.is_empty(),
        plan_of(diff) == Seq::<Step>::empty(),
{
    if let Some(list) = desired.routes {
        lemma_routes_agree(current.routes@, list@);
    }
    if let Some(list) = desired.interfaces {
        lemma_links_agree(current.interfaces@, list@);
    }
    if let Some(list) = desired.neighbors {
        lemma_neighbors_agree(current.neighbors@, list@);
    }
    if let Some(list) = desired.addresses {
        lemma_addresses_agree(current.addresses@, list@);
    }
    assert(plan_of(diff) =~= Seq::<Step>::empty());
}

/// Routes that are as desired do not change.
proof fn lemma_routes_agree(current: Seq<Route>, desired: Seq<RouteConfig>)
    requires
        desired.to_set() == intents(current).to_set(),
    ensures
        route_changes(current, Some(desired)).len() == 0,
{
    let removal = route_removal(current, desired);
    let addition = route_addition(current, desired);
    let there = intents(current);
    assert forall|i: int| 0 <= i < current.len() implies (#[trigger] removal(i)).len() == 0 by {
        assert(there[i] == intent_of(current[i]));
        assert(there.to_set().contains(there[i]));
        assert(desired.to_set().contains(there[i]));
    }
    assert forall|i: int| 0 <= i < desired.len() implies (#[trigger] addition(i)).len() == 0 by {
        assert(desired.to_set().contains(desired[i]));
        assert(there.to_set().contains(desired[i]));
    }
    lemma_gathered_empty(current.len(), removal);
    lemma_gathered_empty(desired.len(), addition);
}

/// Interfaces that are as desired do not change.
proof fn lemma_links_agree(current: Seq<Interface>, desired: Seq<InterfaceConfig>)
    requires
        wanted_links(seen_links(current), desired) == seen_links(current),
    ensures
        interface_diffs(current, Some(desired)).len() == 0,
{
    let piece = interface_patch(current, desired);
    let before = seen_links(current);
    let keys = targets(desired);
    assert forall|i: int| 0 <= i < desired.len() implies (#[trigger] piece(i)).len() == 0 by {
        let id = desired[i].interface_id();
        assert(keys[i] == id);
        lemma_is_last_index(keys, i);
        if is_last(keys, i) && before.contains_key(id) {
            assert(wanted_links(before, desired)[id] == patched(before[id], desired[i]));
        }
    }
    lemma_gathered_empty(desired.len(), piece);
}

/// Neighbor entries that are as desired do not change.
proof fn lemma_neighbors_agree(current: Seq<NeighborEntry>, desired: Seq<StaticNeighbor>)
    requires
        entry_keys(current).no_duplicates(),
        wanted_neighbors(desired) == seen_neighbors(current),
    ensures
        neighbor_changes(current, Some(desired)).len() == 0,
{
    let revision = neighbor_revision(current, desired);
    let addition = neighbor_addition(current, desired);
    let there = entry_keys(current);
    let keys = neighbor_keys(desired);
    let before = seen_neighbors(current);
    assert forall|i: int| 0 <= i < current.len() implies (#[trigger] revision(i)).len() == 0 by {
        let key = entry_key(current[i]);
        assert(there[i] == key);
        assert(there.contains(key));
        assert(before.contains_key(key));
        assert(wanted_neighbors(desired).contains_key(key));
        lemma_last_index(keys, key);
        lemma_last_index(there, key);
        assert(last_index(there, key) == Some(i));
        assert(before[key] == current[i].mac);
    }
    assert forall|j: int| 0 <= j < desired.len() implies (#[trigger] addition(j)).len() == 0 by {
        assert(keys[j] == neighbor_key(desired[j]));
        assert(keys.contains(keys[j]));
        assert(wanted_neighbors(desired).contains_key(keys[j]));
        assert(before.contains_key(keys[j]));
    }
    lemma_gathered_empty(current.len(), revision);
    lemma_gathered_empty(desired.len(), addition);
}

/// Interface addresses that are as desired do not change.
proof fn lemma_addresses_agree(current: Seq<InterfaceAddress>, desired: Seq<NewInterfaceAddress>)
    requires
        assigned_keys(current).no_duplicates(),
        wanted_addresses(seen_addresses(current), desired) == seen_addresses(current),
    ensures
        address_changes(current, Some(desired)).len() == 0,
{
    let revision = address_revision(current, desired);
    let addition = address_addition(current, desired);
    let there = assigned_keys(current);
    let keys = address_keys(desired);
    let before = seen_addresses(current);
    assert forall|i: int| 0 <= i < current.len() implies (#[trigger] revision(i)).len() == 0 by {
        let key = assigned_key(current[i]);
        assert(there[i] == key);
        assert(there.contains(key));
        assert(before.contains_key(key));
        assert(wanted_addresses(before, desired).contains_key(key));
        lemma_last_index(keys, key);
        lemma_last_index(there, key);
        assert(last_index(there, key) == Some(i));
        assert(before[key] == current[i].broadcast);
    }
    assert forall|j: int| 0 <= j < desired.len() implies (#[trigger] addition(j)).len() == 0 by {
        assert(keys[j] == address_key(desired[j]));
        assert(keys.contains(keys[j]));
        assert(wanted_addresses(before, desired).contains_key(keys[j]));
        assert(before.contains_key(keys[j]));
    }
    lemma_gathered_empty(current.len(), revision);
    lemma_gathered_empty(desired.len(), addition);
}

/// The place of a step's domain in a plan: routes, interfaces, neighbors, addresses, resolver and
/// firewall.
pub open spec fn stage_of(step: Step) -> int {
    match step {
        Step::ReplaceRoute { .. } => 0,
        Step::Single(operation) => match operation {
            Operation::AddRoute(_) => 0,
            Operation::RemoveRoute(_) => 0,
            Operation::SetInterfaceConfig(_) => 1,
            Operation::AddStaticNeighbor(_) => 2,
            Operation::RemoveStaticNeighbor(_) => 2,
            Operation::AddAddress(_) => 3,
            Operation::RemoveAddress(_) => 3,
            Operation::SetDnsConfig(_) => 4,
            Operation::SetFirewallPolicy(_) => 5,
        },
    }
}

/// Whether steps go domain by domain, the last of them at the given stage at most.
spec fn staged(steps: Seq<Step>, last: int) -> bool {
    &&& forall|i: int| 0 <= i < steps.len() ==> stage_of(#[trigger] steps[i]) <= last
    &&& forall|i: int, j: int|
        0 <= i < j < steps.len() ==> stage_of(#[trigger] steps[i]) <= stage_of(#[trigger] steps[j])
}

/// Steps of one later stage can follow.
proof fn lemma_staged_append(left: Seq<Step>, right: Seq<Step>, before: int, area: Area, last: int)
    requires
        staged(left, before),
        before < last,
        confined(right, area),
        forall|step: Step| area_of(step) == area ==> #[trigger] stage_of(step) == last,
    ensures
        staged(left + right, last),
{
    let all = left + right;
    assert forall|i: int| 0 <= i < all.len() implies stage_of(#[trigger] all[i]) <= last && (i
        >= left.len() ==> stage_of(all[i]) == last) by {
        if i < left.len() {
            assert(all[i] == left[i]);
        } else {
            assert(all[i] == right[i - left.len()]);
        }
    }
    assert forall|i: int, j: int| 0 <= i < j < all.len() implies stage_of(#[trigger] all[i])
        <= stage_of(#[trigger] all[j]) by {
        if j < left.len() {
            assert(all[i] == left[i] && all[j] == left[j]);
        }
    }
}

/// A plan goes domain by domain: routes, interfaces, neighbors, addresses, resolver, firewall.
pub proof fn plans_go_domain_by_domain(diff: Diff, i: int, j: int)
    requires
        0 <= i < j < plan_of(diff).len(),
    ensures
        stage_of(plan_of(diff)[i]) <= stage_of(plan_of(diff)[j]),
{
    let routes = part_of(diff, Area::Routes);
    let links = part_of(diff, Area::Links);
    let neighbors = part_of(diff, Area::Neighbors);
    let addresses = part_of(diff, Area::Addresses);
    let resolver = part_of(diff, Area::Resolver);
    let rules = part_of(diff, Area::Rules);
    lemma_part_confined(diff, Area::Routes);
    lemma_part_confined(diff, Area::Links);
    lemma_part_confined(diff, Area::Neighbors);
    lemma_part_confined(diff, Area::Addresses);
    lemma_part_confined(diff, Area::Resolver);
    lemma_part_confined(diff, Area::Rules);
    assert(staged(routes, 0));
    lemma_staged_append(routes, links, 0, Area::Links, 1);
    lemma_staged_append(routes + links, neighbors, 1, Area::Neighbors, 2);
    lemma_staged_append(routes + links + neighbors, addresses, 2, Area::Addresses, 3);
    lemma_staged_append(
        routes + links + neighbors + addresses,
        resolver,
        3,
        Area::Resolver,
        4,
    );
    lemma_staged_append(
        routes + links + neighbors + addresses + resolver,
        rules,
        4,
        Area::Rules,
        5,
    );
}

} // verus!
