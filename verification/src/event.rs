//! Change notifications and the filters that select them.

use crate::id::Id;
use crate::ifaddr::InterfaceAddressId;
use crate::ifaddr::InterfaceAddressTag;
use crate::interface::InterfaceId;
use crate::interface::InterfaceTag;
use crate::neighbor::NeighborId;
use crate::neighbor::NeighborTag;
use crate::route::RouteId;
use crate::route::RouteTag;
use vstd::prelude::*;

verus! {

/// What kind of change an [`Event`] reports.
#[derive(Debug, Clone, Copy, PartialEq, Eq, Hash, Structural)]
#[non_exhaustive]
pub enum ChangeKind {
    /// An object matching the filter was added.
    Added,
    /// An object matching the filter was removed.
    Removed,
    /// An object changed; a consumer that needs to know how reads it again.
    Changed,
}

/// A domain whose state must be re-read after an overflow notification.
#[derive(Debug, Clone, Copy, PartialEq, Eq, Hash, Structural)]
#[non_exhaustive]
pub enum EventDomain {
    /// The routing table domain.
    Route,
    /// The network interface domain.
    Interface,
    /// The static ARP/NDP neighbor domain.
    Neighbor,
    /// The interface-address domain.
    Address,
    /// Every domain.
    All,
}

/// A signal that something changed, carrying an identifier and a [`ChangeKind`], not the
/// object itself.
#[derive(Debug, Clone, Copy, PartialEq, Eq, Hash)]
#[allow(inconsistent_fields)]
#[non_exhaustive]
pub enum Event {
    /// A route was added, removed, or changed.
    Route {
        /// The affected route's identity.
        id: RouteId,
        /// What kind of change occurred.
        kind: ChangeKind,
    },
    /// An interface was added, removed, or changed.
    Interface {
        /// The affected interface's identity.
        id: InterfaceId,
        /// What kind of change occurred.
        kind: ChangeKind,
    },
    /// A static neighbor entry was added, removed, or changed.
    Neighbor {
        /// The affected neighbor entry's identity.
        id: NeighborId,
        /// What kind of change occurred.
        kind: ChangeKind,
    },
    /// An interface address was added, removed, or changed.
    Address {
        /// The affected interface address's identity.
        id: InterfaceAddressId,
        /// What kind of change occurred.
        kind: ChangeKind,
    },
    /// Notifications were dropped because the bounded queue filled; re-read the indicated
    /// domain before relying on later signals.
    ResyncRequired {
        /// The domain whose state must be re-read.
        domain: EventDomain,
    },
}

impl Event {
    /// Returns a [`ResyncRequired`](Event::ResyncRequired) event covering every domain.
    pub fn resync_all() -> (event: Self)
        ensures
            event == (Event::ResyncRequired { domain: EventDomain::All }),
    {
        Event::ResyncRequired { domain: EventDomain::All }
    }
}

/// Which objects of one domain a filter delivers.
#[verifier::ext_equal]
pub enum Selection<T> {
    /// None: the domain is not selected.
    Nothing,
    /// Every object of the domain.
    Everything,
    /// The listed objects.
    Only(Seq<Id<T>>),
}

impl<T> Selection<T> {
    /// Whether the domain is selected at all.
    pub open spec fn selected(self) -> bool {
        !(self is Nothing)
    }

    /// Whether the object with the given identity is delivered.
    pub open spec fn delivers(self, id: Id<T>) -> bool {
        match self {
            Selection::Nothing => false,
            Selection::Everything => true,
            Selection::Only(ids) => ids.contains(id),
        }
    }

    /// The selection narrowed to `id`, or to the union of `id` with what it was narrowed to
    /// before.
    pub open spec fn narrowed(self, id: Id<T>) -> Self {
        match self {
            Selection::Only(ids) => if ids.contains(id) {
                self
            } else {
                Selection::Only(ids.push(id))
            },
            _ => Selection::Only(seq![id]),
        }
    }
}

/// What a filter selects, domain by domain.
#[verifier::ext_equal]
pub struct Selections {
    /// The selected routes.
    pub routes: Selection<RouteTag>,
    /// The selected interfaces.
    pub interfaces: Selection<InterfaceTag>,
    /// The selected neighbor entries.
    pub neighbors: Selection<NeighborTag>,
    /// The selected interface addresses.
    pub addresses: Selection<InterfaceAddressTag>,
}

impl Selections {
    /// No domain.
    pub open spec fn none() -> Self {
        Selections {
            routes: Selection::Nothing,
            interfaces: Selection::Nothing,
            neighbors: Selection::Nothing,
            addresses: Selection::Nothing,
        }
    }

    /// Every object of every domain.
    pub open spec fn all() -> Self {
        Selections {
            routes: Selection::Everything,
            interfaces: Selection::Everything,
            neighbors: Selection::Everything,
            addresses: Selection::Everything,
        }
    }

    /// Whether `domain` is selected; all of them are when each is.
    pub open spec fn selects(self, domain: EventDomain) -> bool {
        match domain {
            EventDomain::Route => self.routes.selected(),
            EventDomain::Interface => self.interfaces.selected(),
            EventDomain::Neighbor => self.neighbors.selected(),
            EventDomain::Address => self.addresses.selected(),
            EventDomain::All => self.routes.selected() && self.interfaces.selected()
                && self.neighbors.selected() && self.addresses.selected(),
        }
    }

    /// Whether some domain is selected.
    pub open spec fn selects_any(self) -> bool {
        self.routes.selected() || self.interfaces.selected() || self.neighbors.selected()
            || self.addresses.selected()
    }

    /// The selections without `domain`.
    pub open spec fn without(self, domain: EventDomain) -> Self {
        match domain {
            EventDomain::Route => Selections { routes: Selection::Nothing, ..self },
            EventDomain::Interface => Selections { interfaces: Selection::Nothing, ..self },
            EventDomain::Neighbor => Selections { neighbors: Selection::Nothing, ..self },
            EventDomain::Address => Selections { addresses: Selection::Nothing, ..self },
            EventDomain::All => Selections::none(),
        }
    }

    /// Whether `event` is delivered. A resynchronization has no object, so its domain decides;
    /// one of all domains is delivered when any domain is selected.
    pub open spec fn delivers(self, event: Event) -> bool {
        match event {
            Event::Route { id, kind: _ } => self.routes.delivers(id),
            Event::Interface { id, kind: _ } => self.interfaces.delivers(id),
            Event::Neighbor { id, kind: _ } => self.neighbors.delivers(id),
            Event::Address { id, kind: _ } => self.addresses.delivers(id),
            Event::ResyncRequired { domain } => if domain == EventDomain::All {
                self.selects_any()
            } else {
                self.selects(domain)
            },
        }
    }
}

/// A composable filter for event domains and individual network objects.
#[derive(Debug, PartialEq, Eq, Hash)]
pub struct EventFilter {
    routes: bool,
    interfaces: bool,
    neighbors: bool,
    addresses: bool,
    route_ids: Option<Vec<RouteId>>,
    interface_ids: Option<Vec<InterfaceId>>,
    neighbor_ids: Option<Vec<NeighborId>>,
    address_ids: Option<Vec<InterfaceAddressId>>,
}

/// The selection that a domain flag and a list of identifiers describe.
spec fn selection_of<T>(flag: bool, ids: Option<Vec<Id<T>>>) -> Selection<T> {
    if !flag {
        Selection::Nothing
    } else {
        match ids {
            Some(list) => Selection::Only(list@),
            None => Selection::Everything,
        }
    }
}

impl View for EventFilter {
    type V = Selections;

    closed spec fn view(&self) -> Selections {
        Selections {
            routes: selection_of(self.routes, self.route_ids),
            interfaces: selection_of(self.interfaces, self.interface_ids),
            neighbors: selection_of(self.neighbors, self.neighbor_ids),
            addresses: selection_of(self.addresses, self.address_ids),
        }
    }
}

impl EventFilter {
    /// A domain that is not selected is not narrowed either.
    #[verifier::type_invariant]
    spec fn valid(self) -> bool {
        &&& !self.routes ==> self.route_ids is None
        &&& !self.interfaces ==> self.interface_ids is None
        &&& !self.neighbors ==> self.neighbor_ids is None
        &&& !self.addresses ==> self.address_ids is None
    }

    /// A filter that selects every domain and object, with no narrowing.
    pub fn all() -> (filter: Self)
        ensures
            filter@ == Selections::all(),
    {
        EventFilter {
            routes: true,
            interfaces: true,
            neighbors: true,
            addresses: true,
            route_ids: None,
            interface_ids: None,
            neighbor_ids: None,
            address_ids: None,
        }
    }

    /// A filter that selects nothing until narrowed with a builder method.
    pub fn none() -> (filter: Self)
        ensures
            filter@ == Selections::none(),
    {
        EventFilter {
            routes: false,
            interfaces: false,
            neighbors: false,
            addresses: false,
            route_ids: None,
            interface_ids: None,
            neighbor_ids: None,
            address_ids: None,
        }
    }

    /// Selects the route domain, delivering every route event.
    pub fn routes(self) -> (filter: Self)
        ensures
            filter@ == (Selections { routes: Selection::Everything, ..self@ }),
    {
        proof {
            use_type_invariant(&self);
        }
        EventFilter { routes: true, route_ids: None, ..self }
    }

    /// Selects the interface domain, delivering every interface event.
    pub fn interfaces(self) -> (filter: Self)
        ensures
            filter@ == (Selections { interfaces: Selection::Everything, ..self@ }),
    {
        proof {
            use_type_invariant(&self);
        }
        EventFilter { interfaces: true, interface_ids: None, ..self }
    }

    /// Selects the neighbor domain, delivering every neighbor event.
    pub fn neighbors(self) -> (filter: Self)
        ensures
            filter@ == (Selections { neighbors: Selection::Everything, ..self@ }),
    {
        proof {
            use_type_invariant(&self);
        }
        EventFilter { neighbors: true, neighbor_ids: None, ..self }
    }

    /// Selects the address domain, delivering every interface-address event.
    pub fn addresses(self) -> (filter: Self)
        ensures
            filter@ == (Selections { addresses: Selection::Everything, ..self@ }),
    {
        proof {
            use_type_invariant(&self);
        }
        EventFilter { addresses: true, address_ids: None, ..self }
    }

    /// Narrows route delivery to `id`. Repeated object selectors compose as a union within
    /// their domain.
    pub fn route(self, id: RouteId) -> (filter: Self)
        ensures
            filter@ == (Selections { routes: self@.routes.narrowed(id), ..self@ }),
    {
        proof {
            use_type_invariant(&self);
        }
        let ids = with_selector(self.route_ids, id);
        EventFilter { routes: true, route_ids: Some(ids), ..self }
    }

    /// Narrows interface delivery to `id`.
    pub fn interface(self, id: InterfaceId) -> (filter: Self)
        ensures
            filter@ == (Selections { interfaces: self@.interfaces.narrowed(id), ..self@ }),
    {
        proof {
            use_type_invariant(&self);
        }
        let ids = with_selector(self.interface_ids, id);
        EventFilter { interfaces: true, interface_ids: Some(ids), ..self }
    }

    /// Narrows neighbor delivery to `id`.
    pub fn neighbor(self, id: NeighborId) -> (filter: Self)
        ensures
            filter@ == (Selections { neighbors: self@.neighbors.narrowed(id), ..self@ }),
    {
        proof {
            use_type_invariant(&self);
        }
        let ids = with_selector(self.neighbor_ids, id);
        EventFilter { neighbors: true, neighbor_ids: Some(ids), ..self }
    }

    /// Narrows interface-address delivery to `id`.
    pub fn address(self, id: InterfaceAddressId) -> (filter: Self)
        ensures
            filter@ == (Selections { addresses: self@.addresses.narrowed(id), ..self@ }),
    {
        proof {
            use_type_invariant(&self);
        }
        let ids = with_selector(self.address_ids, id);
        EventFilter { addresses: true, address_ids: Some(ids), ..self }
    }

    /// Whether this filter selects no event domain at all.
    pub fn is_empty(&self) -> (empty: bool)
        ensures
            empty == !self@.selects_any(),
    {
        !self.routes && !self.interfaces && !self.neighbors && !self.addresses
    }

    /// Whether this filter selects `domain`, regardless of any object selector within that
    /// domain. [`EventDomain::All`] is selected only when all four domains are.
    pub fn selects_domain(&self, domain: EventDomain) -> (selected: bool)
        ensures
            selected == self@.selects(domain),
    {
        match domain {
            EventDomain::Route => self.routes,
            EventDomain::Interface => self.interfaces,
            EventDomain::Neighbor => self.neighbors,
            EventDomain::Address => self.addresses,
            EventDomain::All => self.routes && self.interfaces && self.neighbors && self.addresses,
        }
    }

    /// Returns this filter with `domain` cleared, discarding any object selector within that
    /// domain. Other domains are unaffected; [`EventDomain::All`] clears every domain.
    pub fn without_domain(self, domain: EventDomain) -> (filter: Self)
        ensures
            filter@ == self@.without(domain),
    {
        proof {
            use_type_invariant(&self);
        }
        match domain {
            EventDomain::Route => EventFilter { routes: false, route_ids: None, ..self },
            EventDomain::Interface => EventFilter {
                interfaces: false,
                interface_ids: None,
                ..self
            },
            EventDomain::Neighbor => EventFilter { neighbors: false, neighbor_ids: None, ..self },
            EventDomain::Address => EventFilter { addresses: false, address_ids: None, ..self },
            EventDomain::All => EventFilter::none(),
        }
    }

    /// Whether this filter delivers `event`. A resynchronization event has no object, so it is
    /// selected by its affected domain.
    pub fn matches(&self, event: Event) -> (delivered: bool)
        ensures
            delivered == self@.delivers(event),
    {
        match event {
            Event::Route { id, .. } => self.routes && selected(&self.route_ids, id),
            Event::Interface { id, .. } => self.interfaces && selected(&self.interface_ids, id),
            Event::Neighbor { id, .. } => self.neighbors && selected(&self.neighbor_ids, id),
            Event::Address { id, .. } => self.addresses && selected(&self.address_ids, id),
            Event::ResyncRequired { domain } => match domain {
                EventDomain::Route => self.routes,
                EventDomain::Interface => self.interfaces,
                EventDomain::Neighbor => self.neighbors,
                EventDomain::Address => self.addresses,
                EventDomain::All => self.routes || self.interfaces || self.neighbors
                    || self.addresses,
            },
        }
    }
}

impl Clone for EventFilter {
    fn clone(&self) -> (copy: Self)
        ensures
            copy@ == self@,
    {
        proof {
            use_type_invariant(self);
        }
        EventFilter {
            routes: self.routes,
            interfaces: self.interfaces,
            neighbors: self.neighbors,
            addresses: self.addresses,
            route_ids: copy_ids(&self.route_ids),
            interface_ids: copy_ids(&self.interface_ids),
            neighbor_ids: copy_ids(&self.neighbor_ids),
            address_ids: copy_ids(&self.address_ids),
        }
    }
}

/// Copies an optional list of identifiers.
fn copy_ids<T>(ids: &Option<Vec<Id<T>>>) -> (copy: Option<Vec<Id<T>>>)
    ensures
        copy is Some <==> *ids is Some,
        copy matches Some(list) ==> list@ == ids->0@,
{
    match ids {
        Some(list) => {
            let mut copy: Vec<Id<T>> = Vec::new();
            let mut i: usize = 0;
            while i < list.len()
                invariant
                    i <= list.len(),
                    copy@ == list@.take(i as int),
                decreases list.len() - i,
            {
                copy.push(list[i]);
                i = i + 1;
                assert(copy@ =~= list@.take(i as int));
            }
            assert(list@.take(i as int) =~= list@);
            Some(copy)
        },
        None => None,
    }
}

impl Default for EventFilter {
    fn default() -> (filter: Self)
        ensures
            filter@ == Selections::all(),
    {
        EventFilter::all()
    }
}

/// Whether `ids` lists `id`.
fn lists<T>(ids: &Vec<Id<T>>, id: Id<T>) -> (found: bool)
    ensures
        found == ids@.contains(id),
{
    let mut i: usize = 0;
    while i < ids.len()
        invariant
            i <= ids.len(),
            forall|k: int| 0 <= k < i ==> ids@[k] != id,
        decreases ids.len() - i,
    {
        if ids[i] == id {
            assert(ids@[i as int] == id);
            return true;
        }
        i = i + 1;
    }
    false
}

/// Adds an identifier to a list that does not hold it yet.
fn with_selector<T>(ids: Option<Vec<Id<T>>>, id: Id<T>) -> (list: Vec<Id<T>>)
    ensures
        match ids {
            Some(before) => list@ == (if before@.contains(id) {
                before@
            } else {
                before@.push(id)
            }),
            None => list@ == seq![id],
        },
{
    match ids {
        Some(mut list) => {
            if !lists(&list, id) {
                list.push(id);
            }
            list
        },
        None => {
            let mut list: Vec<Id<T>> = Vec::new();
            list.push(id);
            assert(list@ =~= seq![id]);
            list
        },
    }
}

/// Whether an object is delivered by an optional list of identifiers.
fn selected<T>(ids: &Option<Vec<Id<T>>>, id: Id<T>) -> (found: bool)
    ensures
        found == (match *ids {
            Some(list) => list@.contains(id),
            None => true,
        }),
{
    match ids {
        Some(list) => lists(list, id),
        None => true,
    }
}

// ---- laws ----

/// Clearing a domain silences that domain and leaves every other one as it was.
pub proof fn clearing_a_domain_touches_no_other(
    selections: Selections,
    domain: EventDomain,
    event: Event,
)
    ensures
        domain != EventDomain::All ==> !selections.without(domain).selects(domain),
        selections.without(EventDomain::All) == Selections::none(),
        !Selections::none().delivers(event),
        event is Route && domain != EventDomain::Route && domain != EventDomain::All
            ==> selections.without(domain).delivers(event) == selections.delivers(event),
        event is Interface && domain != EventDomain::Interface && domain != EventDomain::All
            ==> selections.without(domain).delivers(event) == selections.delivers(event),
        event is Neighbor && domain != EventDomain::Neighbor && domain != EventDomain::All
            ==> selections.without(domain).delivers(event) == selections.delivers(event),
        event is Address && domain != EventDomain::Address && domain != EventDomain::All
            ==> selections.without(domain).delivers(event) == selections.delivers(event),
        event is Route && domain == EventDomain::Route ==> !selections.without(domain).delivers(
            event,
        ),
        event is Interface && domain == EventDomain::Interface ==> !selections.without(
            domain,
        ).delivers(event),
        event is Neighbor && domain == EventDomain::Neighbor ==> !selections.without(
            domain,
        ).delivers(event),
        event is Address && domain == EventDomain::Address ==> !selections.without(
            domain,
        ).delivers(event),
{
}

/// Object selectors compose as a union, and selecting an object twice is selecting it once.
pub proof fn selectors_compose_as_a_union<T>(
    selection: Selection<T>,
    first: Id<T>,
    second: Id<T>,
    other: Id<T>,
)
    ensures
        selection.narrowed(first).narrowed(second).delivers(other) <==> other == first || other
            == second || (selection is Only && selection.delivers(other)),
        selection.narrowed(first).narrowed(first) == selection.narrowed(first),
{
    match selection {
        Selection::Only(ids) => {
            lemma_push_contains(ids, first, other);
            lemma_push_contains(ids, second, other);
            lemma_push_contains(ids.push(first), second, other);
            lemma_push_contains(ids, first, first);
        },
        _ => {
            let one = seq![first];
            assert(one[0] == first);
            lemma_push_contains(one, second, other);
            assert(one.contains(other) ==> other == first);
        },
    }
}

/// A list with an item appended holds that item and what it held before.
proof fn lemma_push_contains<A>(list: Seq<A>, item: A, other: A)
    ensures
        list.push(item).contains(other) <==> list.contains(other) || other == item,
{
    if list.contains(other) {
        let k = choose|k: int| 0 <= k < list.len() && list[k] == other;
        assert(list.push(item)[k] == other);
    }
    assert(list.push(item)[list.len() as int] == item);
}

/// A resynchronization of every domain reaches exactly the filters that select something, and
/// one of a single domain reaches exactly those that select that domain, whatever objects they
/// are narrowed to.
pub proof fn resync_is_selected_by_domain(selections: Selections, domain: EventDomain)
    ensures
        selections.delivers(Event::ResyncRequired { domain: EventDomain::All })
            == selections.selects_any(),
        domain != EventDomain::All ==> selections.delivers(Event::ResyncRequired { domain })
            == selections.selects(domain),
{
}

/// An event is delivered by the selection of its own domain: where that is everything, or where
/// it lists the object; and its kind plays no part.
pub proof fn events_are_selected_by_their_own_domain(
    selections: Selections,
    route: RouteId,
    interface: InterfaceId,
    neighbor: NeighborId,
    address: InterfaceAddressId,
    kind: ChangeKind,
)
    ensures
        selections.delivers(Event::Route { id: route, kind }) <==> selections.routes is Everything
            || (selections.routes matches Selection::Only(ids) && ids.contains(route)),
        selections.delivers(Event::Interface { id: interface, kind })
            <==> selections.interfaces is Everything || (
        selections.interfaces matches Selection::Only(ids) && ids.contains(interface)),
        selections.delivers(Event::Neighbor { id: neighbor, kind })
            <==> selections.neighbors is Everything || (
        selections.neighbors matches Selection::Only(ids) && ids.contains(neighbor)),
        selections.delivers(Event::Address { id: address, kind })
            <==> selections.addresses is Everything || (
        selections.addresses matches Selection::Only(ids) && ids.contains(address)),
        Selections::all().delivers(Event::Route { id: route, kind }),
        Selections::all().delivers(Event::Interface { id: interface, kind }),
        Selections::all().delivers(Event::Neighbor { id: neighbor, kind }),
        Selections::all().delivers(Event::Address { id: address, kind }),
{
}

/// Which domains are selected, one by one, and when all or any of them are.
pub proof fn domains_are_selected_one_by_one(selections: Selections)
    ensures
        selections.selects(EventDomain::Route) <==> !(selections.routes is Nothing),
        selections.selects(EventDomain::Interface) <==> !(selections.interfaces is Nothing),
        selections.selects(EventDomain::Neighbor) <==> !(selections.neighbors is Nothing),
        selections.selects(EventDomain::Address) <==> !(selections.addresses is Nothing),
        selections.selects(EventDomain::All) <==> selections.selects(EventDomain::Route)
            && selections.selects(EventDomain::Interface) && selections.selects(
            EventDomain::Neighbor,
        ) && selections.selects(EventDomain::Address),
        selections.delivers(Event::ResyncRequired { domain: EventDomain::Route })
            <==> !(selections.routes is Nothing),
        selections.delivers(Event::ResyncRequired { domain: EventDomain::Interface })
            <==> !(selections.interfaces is Nothing),
        selections.delivers(Event::ResyncRequired { domain: EventDomain::Neighbor })
            <==> !(selections.neighbors is Nothing),
        selections.delivers(Event::ResyncRequired { domain: EventDomain::Address })
            <==> !(selections.addresses is Nothing),
        selections.delivers(Event::ResyncRequired { domain: EventDomain::All }) <==> !(
        selections.routes is Nothing && selections.interfaces is Nothing
            && selections.neighbors is Nothing && selections.addresses is Nothing),
{
}

} // verus!
