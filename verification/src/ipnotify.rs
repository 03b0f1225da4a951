//! Windows change notifications: what a subscriber gets of them, how a subscription is set up,
//! and how changes of the neighbor table are found by comparing what was read at intervals.
//!
//! Routes, interfaces and addresses have native notifications. The neighbor table has none.

use crate::event::ChangeKind;
use crate::event::Event;
use crate::event::EventDomain;
use crate::event::EventFilter;
use crate::gather::earliest;
use crate::gather::gathered;
use crate::gather::given;
use crate::gather::is_last;
use crate::gather::last_index;
use crate::gather::lemma_gathered_empty;
use crate::gather::lemma_gathered_holds;
use crate::gather::lemma_gathered_origin;
use crate::gather::lemma_gathered_related;
use crate::gather::lemma_last_index;
use crate::gather::lemma_pick_take;
use crate::gather::optional;
use crate::interface::InterfaceId;
use crate::iphelper::address_of_row;
use crate::iphelper::complete_address_notification_row;
use crate::iphelper::completed_row;
use crate::iphelper::corrected_route_notification_row;
use crate::iphelper::notified_index;
use crate::iphelper::route_of_row;
use crate::iphelper::row_to_interface_address;
use crate::iphelper::row_to_route;
use crate::iphelper::ForwardRow;
use crate::iphelper::IndexLookup;
use crate::iphelper::UnicastRow;
use crate::neighbor::NeighborEntry;
use crate::neighbor::NeighborId;
use vstd::prelude::*;

verus! {

/// The status that stands for a subscription that was not confirmed in time.
pub const ERROR_TIMEOUT: u32 = 1460;

/// How many seconds a subscription may take to be confirmed.
pub const REGISTRATION_READY_SECONDS: u64 = 5;

/// How many seconds pass between two reads of the neighbor table.
pub const NEIGHBOR_POLL_SECONDS: u64 = 2;

/// Whether the native notifications can serve a filter: they cannot when it selects neighbors.
pub fn supports_event_filter(filter: &EventFilter) -> (supported: bool)
    ensures
        supported == !filter@.selects(EventDomain::Neighbor),
{
    !filter.selects_domain(EventDomain::Neighbor)
}

// ---- notifications ----

/// What a notification reports.
#[derive(Debug, Clone, Copy, PartialEq, Eq, Structural)]
pub enum Notification {
    /// A change of some setting.
    Parameter,
    /// Something new.
    Add,
    /// Something that is gone.
    Delete,
    /// That the subscription is live.
    Initial,
}

/// The kind of change that a notification reports.
pub open spec fn kind_of_notification(notification: Notification) -> ChangeKind {
    match notification {
        Notification::Add => ChangeKind::Added,
        Notification::Delete => ChangeKind::Removed,
        _ => ChangeKind::Changed,
    }
}

/// Returns the kind of change that a notification reports.
pub fn change_kind(notification: Notification) -> (kind: ChangeKind)
    ensures
        kind == kind_of_notification(notification),
        kind == ChangeKind::Added <==> notification == Notification::Add,
        kind == ChangeKind::Removed <==> notification == Notification::Delete,
        kind == ChangeKind::Changed <==> notification == Notification::Parameter || notification
            == Notification::Initial,
{
    match notification {
        Notification::Add => ChangeKind::Added,
        Notification::Delete => ChangeKind::Removed,
        _ => ChangeKind::Changed,
    }
}

/// What a notification leads to.
#[derive(Debug, Clone, Copy, PartialEq, Eq)]
pub enum CallbackAction {
    /// Nothing.
    Ignore,
    /// One more confirmation that the subscription is live.
    Confirm,
    /// An event for the subscriber.
    Deliver(Event),
}

/// What a notification leads to, given the event it would be and whether that is wanted.
pub open spec fn action_for(
    notification: Notification,
    event: Option<Event>,
    filter: EventFilter,
) -> CallbackAction {
    if notification == Notification::Initial {
        CallbackAction::Confirm
    } else {
        match event {
            Some(found) if filter@.delivers(found) => CallbackAction::Deliver(found),
            _ => CallbackAction::Ignore,
        }
    }
}

/// Decides what a notification leads to, given the event it would be.
fn decide(notification: Notification, event: Option<Event>, filter: &EventFilter) -> (action:
    CallbackAction)
    ensures
        action == action_for(notification, event, *filter),
{
    if notification == Notification::Initial {
        return CallbackAction::Confirm;
    }
    match event {
        Some(event) => {
            if filter.matches(event) {
                CallbackAction::Deliver(event)
            } else {
                CallbackAction::Ignore
            }
        },
        None => CallbackAction::Ignore,
    }
}

/// The event that a route notification would be.
pub open spec fn route_event(
    row: Option<ForwardRow>,
    lookup: IndexLookup,
    notification: Notification,
) -> Option<Event> {
    match row {
        None => None,
        Some(found) => match route_of_row(
            ForwardRow {
                interface_index: notified_index(lookup, found.interface_index),
                ..found
            },
        ) {
            Some(route) => Some(
                Event::Route { id: route.id, kind: kind_of_notification(notification) },
            ),
            None => None,
        },
    }
}

/// Decides what a route notification leads to.
pub fn route_notification(
    row: Option<ForwardRow>,
    lookup: IndexLookup,
    notification: Notification,
    filter: &EventFilter,
) -> (action: CallbackAction)
    ensures
        action == action_for(notification, route_event(row, lookup, notification), *filter),
{
    let event = match row {
        None => None,
        Some(found) => {
            let corrected = corrected_route_notification_row(&found, lookup);
            match row_to_route(&corrected) {
                Some(route) => Some(
                    Event::Route { id: route.id, kind: change_kind(notification) },
                ),
                None => None,
            }
        },
    };
    decide(notification, event, filter)
}

/// The event that an interface notification would be.
pub open spec fn interface_event(index: Option<u32>, notification: Notification) -> Option<Event> {
    match index {
        None => None,
        Some(found) => Some(
            Event::Interface {
                id: InterfaceId::of(found as u64),
                kind: kind_of_notification(notification),
            },
        ),
    }
}

/// Decides what an interface notification leads to.
pub fn interface_notification(
    index: Option<u32>,
    notification: Notification,
    filter: &EventFilter,
) -> (action: CallbackAction)
    ensures
        action == action_for(notification, interface_event(index, notification), *filter),
        action matches CallbackAction::Deliver(event) ==> (event matches Event::Interface {
            id,
            kind,
        } && (index matches Some(found) && id == InterfaceId::of(found as u64)) && (kind
            == ChangeKind::Added <==> notification == Notification::Add) && (kind
            == ChangeKind::Removed <==> notification == Notification::Delete)),
{
    let event = match index {
        None => None,
        Some(found) => Some(
            Event::Interface {
                id: InterfaceId::new(found as u64),
                kind: change_kind(notification),
            },
        ),
    };
    decide(notification, event, filter)
}

/// The event that an address notification would be.
pub open spec fn address_event(
    row: Option<UnicastRow>,
    lookup: IndexLookup,
    queried: Option<(UnicastRow, IndexLookup)>,
    notification: Notification,
) -> Option<Event> {
    match row {
        None => None,
        Some(found) => match address_of_row(
            completed_row(found, notification == Notification::Delete, lookup, queried),
        ) {
            Some(address) => Some(
                Event::Address { id: address.id, kind: kind_of_notification(notification) },
            ),
            None => None,
        },
    }
}

/// Decides what an address notification leads to.
pub fn address_notification(
    row: Option<UnicastRow>,
    lookup: IndexLookup,
    queried: Option<(UnicastRow, IndexLookup)>,
    notification: Notification,
    filter: &EventFilter,
) -> (action: CallbackAction)
    ensures
        action == action_for(
            notification,
            address_event(row, lookup, queried, notification),
            *filter,
        ),
{
    let event = match row {
        None => None,
        Some(found) => {
            let completed = complete_address_notification_row(
                &found,
                notification == Notification::Delete,
                lookup,
                queried,
            );
            match row_to_interface_address(&completed) {
                Some(address) => Some(
                    Event::Address { id: address.id, kind: change_kind(notification) },
                ),
                None => None,
            }
        },
    };
    decide(notification, event, filter)
}

// ---- subscriptions ----

/// Counts the confirmations that a subscription still waits for.
#[derive(Debug, Clone, Copy, PartialEq, Eq, Structural)]
pub struct RegistrationReadiness {
    /// How many are still to come.
    pub remaining: usize,
}

impl RegistrationReadiness {
    /// Waits for a number of confirmations.
    pub fn new(expected_confirmations: usize) -> (readiness: Self)
        ensures
            readiness.remaining == expected_confirmations,
    {
        RegistrationReadiness { remaining: expected_confirmations }
    }

    /// Takes one confirmation in. One too many is of no effect.
    pub fn signal(&mut self)
        ensures
            final(self).remaining == (if old(self).remaining > 0 {
                old(self).remaining - 1
            } else {
                0
            }),
    {
        if self.remaining > 0 {
            self.remaining = self.remaining - 1;
        }
    }

    /// Whether all confirmations have come.
    pub fn is_ready(&self) -> (ready: bool)
        ensures
            ready == (self.remaining == 0),
    {
        self.remaining == 0
    }
}

/// One of the native subscriptions that a watch is made of.
#[derive(Debug, Clone, Copy, PartialEq, Eq, Structural)]
pub enum Registration {
    /// For routes.
    Route,
    /// For interfaces.
    Interface,
    /// For addresses.
    Address,
}

/// The native subscriptions, in the order in which they are made.
pub open spec fn all_registrations() -> Seq<Registration> {
    seq![Registration::Route, Registration::Interface, Registration::Address]
}

/// Returns the native subscriptions, in the order in which they are made.
pub fn registrations() -> (list: Vec<Registration>)
    ensures
        list@ == all_registrations(),
{
    let list = vec![Registration::Route, Registration::Interface, Registration::Address];
    assert(list@ =~= all_registrations());
    list
}

/// What is to be done next to set up a watch.
#[derive(Debug, Clone, Copy, PartialEq, Eq, Structural)]
pub enum WatchStep {
    /// Make this subscription.
    Register(Registration),
    /// Wait until every subscription is confirmed.
    Await,
    /// The watch is live.
    Live,
    /// Cancel so many subscriptions, from the first on, and report this status.
    GiveUp {
        /// How many subscriptions to cancel.
        cancel: usize,
        /// The status to report.
        status: u32,
    },
}

/// What follows on the statuses of the subscriptions so far and on the outcome of waiting. A
/// subscription that fails, or is not confirmed in time, undoes those that were made.
pub open spec fn watch_step(statuses: Seq<u32>, confirmed: Option<bool>) -> WatchStep {
    if statuses.len() > 0 && statuses.last() != 0 {
        WatchStep::GiveUp { cancel: (statuses.len() - 1) as usize, status: statuses.last() }
    } else if statuses.len() < all_registrations().len() {
        WatchStep::Register(all_registrations()[statuses.len() as int])
    } else {
        match confirmed {
            None => WatchStep::Await,
            Some(true) => WatchStep::Live,
            Some(false) => WatchStep::GiveUp {
                cancel: all_registrations().len() as usize,
                status: ERROR_TIMEOUT,
            },
        }
    }
}

/// Returns what follows on the statuses of the subscriptions so far and on the outcome of
/// waiting.
pub fn next_watch_step(statuses: &Vec<u32>, confirmed: Option<bool>) -> (step: WatchStep)
    ensures
        step == watch_step(statuses@, confirmed),
{
    if statuses.len() > 0 && statuses[statuses.len() - 1] != 0 {
        return WatchStep::GiveUp {
            cancel: statuses.len() - 1,
            status: statuses[statuses.len() - 1],
        };
    }
    let list = registrations();
    if statuses.len() < list.len() {
        return WatchStep::Register(list[statuses.len()]);
    }
    match confirmed {
        None => WatchStep::Await,
        Some(true) => WatchStep::Live,
        Some(false) => WatchStep::GiveUp { cancel: list.len(), status: ERROR_TIMEOUT },
    }
}

// ---- comparing what was read ----

/// The identities of entries.
pub open spec fn ids_of(entries: Seq<NeighborEntry>) -> Seq<NeighborId> {
    entries.map_values(|entry: NeighborEntry| entry.id)
}

/// Whether no identity occurs twice.
pub open spec fn distinct(entries: Seq<NeighborEntry>) -> bool {
    forall|i: int, j: int|
        0 <= i < j < entries.len() ==> (#[trigger] entries[i]).id != (#[trigger] entries[j]).id
}

/// The entries of a list, one for each identity: the last that has it.
pub open spec fn last_of_each(entries: Seq<NeighborEntry>) -> Seq<NeighborEntry> {
    gathered(entries.len(), |i: int| given(is_last(ids_of(entries), i), entries[i]))
}

/// The neighbor table as it was read once: one entry for each identity.
#[derive(Debug)]
pub struct NeighborSnapshot {
    entries: Vec<NeighborEntry>,
}

impl View for NeighborSnapshot {
    type V = Seq<NeighborEntry>;

    closed spec fn view(&self) -> Seq<NeighborEntry> {
        self.entries@
    }
}

impl NeighborSnapshot {
    /// Whether no identity occurs twice.
    pub open spec fn well_formed(self) -> bool {
        distinct(self@)
    }

    /// Takes in what was read. Where an identity occurs more than once the last entry counts.
    pub fn from_entries(entries: &Vec<NeighborEntry>) -> (snapshot: Self)
        ensures
            snapshot@ == last_of_each(entries@),
            snapshot.well_formed(),
    {
        let ghost ids = ids_of(entries@);
        let ghost piece = |i: int| given(is_last(ids, i), entries@[i]);
        let mut kept: Vec<NeighborEntry> = Vec::new();
        let mut i: usize = 0;
        while i < entries.len()
            invariant
                i <= entries.len(),
                ids == ids_of(entries@),
                piece == (|k: int| given(is_last(ids, k), entries@[k])),
                kept@ == gathered(i as nat, piece),
            decreases entries.len() - i,
        {
            let mut last = true;
            let mut k: usize = i + 1;
            while k < entries.len()
                invariant
                    i < k <= entries.len(),
                    ids == ids_of(entries@),
                    last == forall|j: int| i < j < k ==> #[trigger] ids[j] != ids[i as int],
                decreases entries.len() - k,
            {
                assert(ids[k as int] == entries@[k as int].id);
                assert(ids[i as int] == entries@[i as int].id);
                if entries[k].id == entries[i].id {
                    last = false;
                }
                k = k + 1;
            }
            assert(last == is_last(ids, i as int));
            if last {
                kept.push(entries[i].clone());
            }
            i = i + 1;
            assert(kept@ =~= gathered((i - 1) as nat, piece) + piece(i - 1));
        }
        proof {
            lemma_last_of_each_distinct(entries@);
        }
        NeighborSnapshot { entries: kept }
    }
}

/// One entry for each identity means that none occurs twice.
proof fn lemma_last_of_each_distinct(entries: Seq<NeighborEntry>)
    ensures
        distinct(last_of_each(entries)),
{
    let ids = ids_of(entries);
    let piece = |i: int| given(is_last(ids, i), entries[i]);
    let related = |left: NeighborEntry, right: NeighborEntry| left.id != right.id;
    assert forall|i: int, j: int|
        0 <= i < j < entries.len() && (#[trigger] piece(i)).len() == 1 && (#[trigger] piece(
            j,
        )).len() == 1 implies related(piece(i)[0], piece(j)[0]) by {
        assert(is_last(ids, i));
        assert(ids[j] != ids[i]);
    }
    lemma_gathered_related(entries.len(), piece, related);
    let kept = last_of_each(entries);
    assert forall|a: int, b: int| 0 <= a < b < kept.len() implies (#[trigger] kept[a]).id != (
    #[trigger] kept[b]).id by {
        assert(related(kept[a], kept[b]));
    }
}

/// Picks out an entry by its identity.
pub open spec fn identified(id: NeighborId) -> spec_fn(NeighborEntry) -> Option<NeighborEntry> {
    |entry: NeighborEntry|
        if entry.id == id {
            Some(entry)
        } else {
            None
        }
}

/// The entry with a given identity.
pub open spec fn entry_with(entries: Seq<NeighborEntry>, id: NeighborId) -> Option<NeighborEntry> {
    earliest(entries, identified(id))
}

/// The event for an entry that was read, given what was read before.
pub open spec fn appearance(previous: Seq<NeighborEntry>, entry: NeighborEntry) -> Option<Event> {
    match entry_with(previous, entry.id) {
        None => Some(Event::Neighbor { id: entry.id, kind: ChangeKind::Added }),
        Some(before) => if before.mac != entry.mac || before.state != entry.state {
            Some(Event::Neighbor { id: entry.id, kind: ChangeKind::Changed })
        } else {
            None
        },
    }
}

/// The event for an entry that was read before, given what is read now.
pub open spec fn disappearance(current: Seq<NeighborEntry>, entry: NeighborEntry) -> Option<Event> {
    match entry_with(current, entry.id) {
        None => Some(Event::Neighbor { id: entry.id, kind: ChangeKind::Removed }),
        Some(_) => None,
    }
}

/// The events that lead from what was read before to what is read now.
pub open spec fn events_between(previous: Seq<NeighborEntry>, current: Seq<NeighborEntry>) -> Seq<
    Event,
> {
    gathered(current.len(), |i: int| optional(appearance(previous, current[i]))) + gathered(
        previous.len(),
        |i: int| optional(disappearance(current, previous[i])),
    )
}

/// Finds the entry with a given identity.
fn find_entry(entries: &Vec<NeighborEntry>, id: NeighborId) -> (found: Option<NeighborEntry>)
    ensures
        found == entry_with(entries@, id),
{
    let mut found: Option<NeighborEntry> = None;
    let mut i: usize = 0;
    assert(entries@.take(0) =~= Seq::empty());
    while i < entries.len()
        invariant
            i <= entries.len(),
            found == earliest(entries@.take(i as int), identified(id)),
        decreases entries.len() - i,
    {
        proof {
            lemma_pick_take(entries@, identified(id), i as int);
        }
        if found.is_none() && entries[i].id == id {
            found = Some(entries[i].clone());
        }
        i = i + 1;
    }
    assert(entries@.take(i as int) =~= entries@);
    found
}

/// Compares what was read with what was read before.
///
/// The first read has nothing to be compared with and gives no events. After that an entry that
/// is new was added, one that is gone was removed, and one with another hardware address or
/// state was changed.
pub fn diff_neighbor_snapshots(
    previous: Option<&NeighborSnapshot>,
    current: &NeighborSnapshot,
) -> (events: Vec<Event>)
    ensures
        events@ == (match previous {
            None => Seq::empty(),
            Some(before) => events_between(before@, current@),
        }),
{
    let before = match previous {
        Some(before) => before,
        None => {
            return Vec::new();
        },
    };
    let ghost arriving = |i: int| optional(appearance(before@, current@[i]));
    let ghost leaving = |i: int| optional(disappearance(current@, before@[i]));
    let mut events: Vec<Event> = Vec::new();
    let mut i: usize = 0;
    while i < current.entries.len()
        invariant
            i <= current.entries.len(),
            current@ == current.entries@,
            before@ == before.entries@,
            arriving == (|k: int| optional(appearance(before@, current@[k]))),
            events@ == gathered(i as nat, arriving),
        decreases current.entries.len() - i,
    {
        let entry = &current.entries[i];
        let id = entry.id;
        match find_entry(&before.entries, id) {
            None => {
                events.push(Event::Neighbor { id, kind: ChangeKind::Added });
            },
            Some(earlier) => {
                if earlier.mac != entry.mac || earlier.state != entry.state {
                    events.push(Event::Neighbor { id, kind: ChangeKind::Changed });
                }
            },
        }
        i = i + 1;
        assert(events@ =~= gathered((i - 1) as nat, arriving) + arriving(i - 1));
    }
    let ghost first = events@;
    let mut k: usize = 0;
    assert(events@ =~= first + gathered(0, leaving));
    while k < before.entries.len()
        invariant
            k <= before.entries.len(),
            current@ == current.entries@,
            before@ == before.entries@,
            leaving == (|j: int| optional(disappearance(current@, before@[j]))),
            events@ == first + gathered(k as nat, leaving),
        decreases before.entries.len() - k,
    {
        let id = before.entries[k].id;
        if find_entry(&current.entries, id).is_none() {
            events.push(Event::Neighbor { id, kind: ChangeKind::Removed });
        }
        k = k + 1;
        assert(gathered(k as nat, leaving) == gathered((k - 1) as nat, leaving) + leaving(k - 1));
        assert(events@ =~= first + gathered(k as nat, leaving));
    }
    events
}

/// Finds changes of the neighbor table by comparing each read with the one before.
#[derive(Debug)]
pub struct NeighborPoller {
    previous: Option<NeighborSnapshot>,
}

impl NeighborPoller {
    /// What was read last.
    pub closed spec fn remembered(self) -> Option<Seq<NeighborEntry>> {
        match self.previous {
            Some(snapshot) => Some(snapshot@),
            None => None,
        }
    }

    /// Starts with nothing read.
    pub fn new() -> (poller: Self)
        ensures
            poller.remembered() is None,
    {
        NeighborPoller { previous: None }
    }

    /// Takes in what was read and returns the events that lead to it.
    pub fn observe(&mut self, entries: &Vec<NeighborEntry>) -> (events: Vec<Event>)
        ensures
            events@ == (match old(self).remembered() {
                None => Seq::empty(),
                Some(before) => events_between(before, last_of_each(entries@)),
            }),
            final(self).remembered() == Some(last_of_each(entries@)),
    {
        let current = NeighborSnapshot::from_entries(entries);
        let events = diff_neighbor_snapshots(self.previous.as_ref(), &current);
        self.previous = Some(current);
        events
    }
}

// ---- laws ----

/// A watch that fails undoes exactly the subscriptions that were made, and one that goes live
/// has made all of them.
pub proof fn failed_watch_undoes_what_it_made(statuses: Seq<u32>, confirmed: Option<bool>)
    requires
        statuses.len() <= all_registrations().len(),
        forall|i: int| 0 <= i < statuses.len() - 1 ==> #[trigger] statuses[i] == 0,
    ensures
        watch_step(statuses, confirmed) matches WatchStep::GiveUp { cancel, status } ==> cancel
            == statuses.filter(|found: u32| found == 0).len() && status != 0,
        watch_step(statuses, confirmed) is Live ==> statuses.len() == all_registrations().len()
            && forall|i: int| 0 <= i < statuses.len() ==> #[trigger] statuses[i] == 0,
{
    if statuses.len() > 0 {
        let earlier = statuses.drop_last();
        lemma_all_made(earlier);
        assert(statuses =~= earlier.push(statuses.last()));
        reveal(Seq::filter);
        assert(statuses.drop_last() =~= earlier);
    }
}

/// Where every status is zero, all of them are.
proof fn lemma_all_made(statuses: Seq<u32>)
    requires
        forall|i: int| 0 <= i < statuses.len() ==> #[trigger] statuses[i] == 0,
    ensures
        statuses.filter(|found: u32| found == 0) == statuses,
    decreases statuses.len(),
{
    reveal(Seq::filter);
    if statuses.len() > 0 {
        lemma_all_made(statuses.drop_last());
        assert(statuses.drop_last().push(statuses.last()) =~= statuses);
    } else {
        assert(statuses.filter(|found: u32| found == 0) =~= statuses);
    }
}

/// An entry with an identity is found exactly when some entry has it.
proof fn lemma_entry_with(entries: Seq<NeighborEntry>, id: NeighborId)
    ensures
        entry_with(entries, id) is Some <==> ids_of(entries).contains(id),
        entry_with(entries, id) matches Some(entry) ==> entries.contains(entry) && entry.id == id,
    decreases entries.len(),
{
    if entries.len() > 0 {
        let shorter = entries.drop_last();
        let last = entries.last();
        lemma_entry_with(shorter, id);
        assert(ids_of(entries)[entries.len() - 1] == last.id);
        assert(entries.contains(last));
        if ids_of(shorter).contains(id) {
            let i = choose|i: int| 0 <= i < shorter.len() && ids_of(shorter)[i] == id;
            assert(ids_of(entries)[i] == id);
        }
        if ids_of(entries).contains(id) && last.id != id {
            let i = choose|i: int| 0 <= i < entries.len() && ids_of(entries)[i] == id;
            assert(ids_of(shorter)[i] == id);
        }
        if let Some(entry) = entry_with(shorter, id) {
            let i = choose|i: int| 0 <= i < shorter.len() && shorter[i] == entry;
            assert(entries[i] == entry);
        }
    }
}

/// Comparing reports an identity as added exactly when it is new, as removed exactly when it is
/// gone, and as changed exactly when it was and is there with another hardware address or
/// state.
pub proof fn comparing_reports_each_change(
    previous: Seq<NeighborEntry>,
    current: Seq<NeighborEntry>,
    id: NeighborId,
)
    requires
        distinct(previous),
        distinct(current),
    ensures
        events_between(previous, current).contains(
            Event::Neighbor { id, kind: ChangeKind::Added },
        ) <==> ids_of(current).contains(id) && !ids_of(previous).contains(id),
        events_between(previous, current).contains(
            Event::Neighbor { id, kind: ChangeKind::Removed },
        ) <==> ids_of(previous).contains(id) && !ids_of(current).contains(id),
        events_between(previous, current).contains(
            Event::Neighbor { id, kind: ChangeKind::Changed },
        ) <==> (entry_with(previous, id) matches Some(before) && (entry_with(
            current,
            id,
        ) matches Some(after) && (before.mac != after.mac || before.state != after.state))),
{
    let events = events_between(previous, current);
    let arriving = |i: int| optional(appearance(previous, current[i]));
    let leaving = |i: int| optional(disappearance(current, previous[i]));
    let first = gathered(current.len(), arriving);
    let second = gathered(previous.len(), leaving);
    lemma_entry_with(previous, id);
    lemma_entry_with(current, id);
    // What is there leads to an event.
    if ids_of(current).contains(id) {
        let i = choose|i: int| 0 <= i < current.len() && ids_of(current)[i] == id;
        assert(current[i].id == id);
        lemma_found_is_unique(current, i);
        if let Some(event) = appearance(previous, current[i]) {
            assert(arriving(i)[0] == event);
            lemma_gathered_holds(current.len(), arriving, i, 0);
            let at = choose|at: int| 0 <= at < first.len() && first[at] == event;
            assert(events[at] == event);
        }
    }
    if ids_of(previous).contains(id) {
        let i = choose|i: int| 0 <= i < previous.len() && ids_of(previous)[i] == id;
        assert(previous[i].id == id);
        if let Some(event) = disappearance(current, previous[i]) {
            assert(leaving(i)[0] == event);
            lemma_gathered_holds(previous.len(), leaving, i, 0);
            let at = choose|at: int| 0 <= at < second.len() && second[at] == event;
            assert(events[first.len() + at] == event);
        }
    }
    // And every event has its reason.
    assert forall|kind: ChangeKind|
        #[trigger] events.contains(Event::Neighbor { id, kind }) implies (exists|i: int|
        0 <= i < current.len() && appearance(previous, #[trigger] current[i]) == Some(
            Event::Neighbor { id, kind },
        )) || (exists|i: int|
        0 <= i < previous.len() && disappearance(current, #[trigger] previous[i]) == Some(
            Event::Neighbor { id, kind },
        )) by {
        let event = Event::Neighbor { id, kind };
        let at = choose|at: int| 0 <= at < events.len() && events[at] == event;
        if at < first.len() {
            assert(first[at] == event);
            assert(first.contains(event));
            let from = lemma_gathered_origin(current.len(), arriving, event);
            assert(appearance(previous, current[from.0]) == Some(event));
        } else {
            assert(second[at - first.len()] == event);
            assert(second.contains(event));
            let from = lemma_gathered_origin(previous.len(), leaving, event);
            assert(disappearance(current, previous[from.0]) == Some(event));
        }
    }
    assert forall|i: int| 0 <= i < current.len() && current[i].id == id implies entry_with(
        current,
        id,
    ) == Some(#[trigger] current[i]) && ids_of(current).contains(id) by {
        lemma_found_is_unique(current, i);
        assert(ids_of(current)[i] == id);
    }
    assert forall|i: int| 0 <= i < previous.len() && (#[trigger] previous[i]).id
        == id implies ids_of(previous).contains(id) by {
        assert(ids_of(previous)[i] == id);
    }
}

/// Where no identity occurs twice, looking one up finds the entry that has it.
proof fn lemma_found_is_unique(entries: Seq<NeighborEntry>, i: int)
    requires
        distinct(entries),
        0 <= i < entries.len(),
    ensures
        entry_with(entries, entries[i].id) == Some(entries[i]),
{
    let id = entries[i].id;
    lemma_entry_with(entries, id);
    assert(ids_of(entries)[i] == id);
    let entry = entry_with(entries, id)->0;
    let k = choose|k: int| 0 <= k < entries.len() && entries[k] == entry;
    if k < i {
        assert(entries[k].id != entries[i].id);
    } else if i < k {
        assert(entries[i].id != entries[k].id);
    }
}

/// Reading the same entries again gives no events.
pub proof fn unchanged_table_is_silent(entries: Seq<NeighborEntry>)
    requires
        distinct(entries),
    ensures
        events_between(entries, entries) == Seq::<Event>::empty(),
{
    let arriving = |i: int| optional(appearance(entries, entries[i]));
    let leaving = |i: int| optional(disappearance(entries, entries[i]));
    assert forall|i: int| 0 <= i < entries.len() implies (#[trigger] arriving(i)).len() == 0 by {
        lemma_found_is_unique(entries, i);
    }
    assert forall|i: int| 0 <= i < entries.len() implies (#[trigger] leaving(i)).len() == 0 by {
        lemma_found_is_unique(entries, i);
    }
    lemma_gathered_empty(entries.len(), arriving);
    lemma_gathered_empty(entries.len(), leaving);
    assert(events_between(entries, entries) =~= Seq::empty());
}

/// A snapshot holds every identity that was read, with the entry that was read last.
pub proof fn snapshot_holds_the_last_of_each(entries: Seq<NeighborEntry>, id: NeighborId)
    ensures
        distinct(last_of_each(entries)),
        match last_index(ids_of(entries), id) {
            None => entry_with(last_of_each(entries), id) is None,
            Some(i) => entry_with(last_of_each(entries), id) == Some(entries[i]),
        },
{
    let ids = ids_of(entries);
    let piece = |i: int| given(is_last(ids, i), entries[i]);
    let kept = last_of_each(entries);
    lemma_last_of_each_distinct(entries);
    lemma_last_index(ids, id);
    lemma_entry_with(kept, id);
    match last_index(ids, id) {
        Some(i) => {
            assert(piece(i)[0] == entries[i]);
            lemma_gathered_holds(entries.len(), piece, i, 0);
            let at = choose|at: int| 0 <= at < kept.len() && kept[at] == entries[i];
            lemma_found_is_unique(kept, at);
        },
        None => {
            if let Some(entry) = entry_with(kept, id) {
                let from = lemma_gathered_origin(entries.len(), piece, entry);
                assert(ids[from.0] == id);
            }
        },
    }
}

// ---- notifications, kind by kind ----

/// A notification of something new is an event of an addition, one of something gone is an event
/// of a removal, and one of a setting is an event of a change, for every interface index.
pub proof fn interface_notifications_keep_their_kind(index: u32)
    ensures
        interface_event(Some(index), Notification::Add) == Some(
            Event::Interface { id: InterfaceId::of(index as u64), kind: ChangeKind::Added },
        ),
        interface_event(Some(index), Notification::Delete) == Some(
            Event::Interface { id: InterfaceId::of(index as u64), kind: ChangeKind::Removed },
        ),
        interface_event(Some(index), Notification::Parameter) == Some(
            Event::Interface { id: InterfaceId::of(index as u64), kind: ChangeKind::Changed },
        ),
        interface_event(None, Notification::Add) is None,
        interface_event(None, Notification::Delete) is None,
        interface_event(None, Notification::Parameter) is None,
{
}

/// The same of routes and addresses: the event is about the object that the notification's row,
/// with its interface made good, reads as, and there is none where nothing is read.
pub proof fn row_notifications_keep_their_kind(
    route: ForwardRow,
    address: UnicastRow,
    lookup: IndexLookup,
    queried: Option<(UnicastRow, IndexLookup)>,
)
    ensures
        ({
            let corrected = ForwardRow {
                interface_index: notified_index(lookup, route.interface_index),
                ..route
            };
            &&& route_of_row(corrected) matches Some(found) ==> {
                &&& route_event(Some(route), lookup, Notification::Add) == Some(
                    Event::Route { id: found.id, kind: ChangeKind::Added },
                )
                &&& route_event(Some(route), lookup, Notification::Delete) == Some(
                    Event::Route { id: found.id, kind: ChangeKind::Removed },
                )
                &&& route_event(Some(route), lookup, Notification::Parameter) == Some(
                    Event::Route { id: found.id, kind: ChangeKind::Changed },
                )
            }
            &&& route_of_row(corrected) is None ==> route_event(
                Some(route),
                lookup,
                Notification::Add,
            ) is None && route_event(Some(route), lookup, Notification::Delete) is None
                && route_event(Some(route), lookup, Notification::Parameter) is None
        }),
        ({
            let full = completed_row(address, false, lookup, queried);
            let gone = completed_row(address, true, lookup, queried);
            &&& address_of_row(full) matches Some(found) ==> {
                &&& address_event(Some(address), lookup, queried, Notification::Add) == Some(
                    Event::Address { id: found.id, kind: ChangeKind::Added },
                )
                &&& address_event(Some(address), lookup, queried, Notification::Parameter) == Some(
                    Event::Address { id: found.id, kind: ChangeKind::Changed },
                )
            }
            &&& address_of_row(gone) matches Some(found) ==> address_event(
                Some(address),
                lookup,
                queried,
                Notification::Delete,
            ) == Some(Event::Address { id: found.id, kind: ChangeKind::Removed })
            &&& address_of_row(full) is None ==> address_event(
                Some(address),
                lookup,
                queried,
                Notification::Add,
            ) is None && address_event(
                Some(address),
                lookup,
                queried,
                Notification::Parameter,
            ) is None
            &&& address_of_row(gone) is None ==> address_event(
                Some(address),
                lookup,
                queried,
                Notification::Delete,
            ) is None
        }),
        route_event(None, lookup, Notification::Add) is None,
        route_event(None, lookup, Notification::Delete) is None,
        route_event(None, lookup, Notification::Parameter) is None,
        address_event(None, lookup, queried, Notification::Add) is None,
        address_event(None, lookup, queried, Notification::Delete) is None,
        address_event(None, lookup, queried, Notification::Parameter) is None,
{
}

/// The notification that a subscription is live confirms it, whatever else it carries. Any other
/// delivers its event exactly when there is one and the filter wants it, and is ignored
/// otherwise.
pub proof fn wanted_events_are_delivered(
    notification: Notification,
    event: Event,
    filter: EventFilter,
)
    ensures
        action_for(Notification::Initial, Some(event), filter) == CallbackAction::Confirm,
        action_for(Notification::Initial, None, filter) == CallbackAction::Confirm,
        notification != Notification::Initial ==> {
            &&& filter@.delivers(event) ==> action_for(notification, Some(event), filter)
                == CallbackAction::Deliver(event)
            &&& !filter@.delivers(event) ==> action_for(notification, Some(event), filter)
                == CallbackAction::Ignore
            &&& action_for(notification, None, filter) == CallbackAction::Ignore
        },
{
}

/// A watch subscribes to routes, then to interfaces, then to addresses, then waits. A refused
/// subscription cancels the earlier ones and reports its status; one that is not confirmed in
/// time cancels all three and reports status 1460.
pub proof fn watches_subscribe_in_order(status: u32, confirmed: Option<bool>)
    ensures
        watch_step(Seq::empty(), confirmed) == WatchStep::Register(Registration::Route),
        watch_step(seq![0u32], confirmed) == WatchStep::Register(Registration::Interface),
        watch_step(seq![0u32, 0], confirmed) == WatchStep::Register(Registration::Address),
        watch_step(seq![0u32, 0, 0], None) == WatchStep::Await,
        watch_step(seq![0u32, 0, 0], Some(true)) == WatchStep::Live,
        watch_step(seq![0u32, 0, 0], Some(false)) == (WatchStep::GiveUp {
            cancel: 3,
            status: 1460,
        }),
        status != 0 ==> watch_step(seq![status], confirmed) == (WatchStep::GiveUp {
            cancel: 0,
            status,
        }),
        status != 0 ==> watch_step(seq![0u32, status], confirmed) == (WatchStep::GiveUp {
            cancel: 1,
            status,
        }),
        status != 0 ==> watch_step(seq![0u32, 0, status], confirmed) == (WatchStep::GiveUp {
            cancel: 2,
            status,
        }),
{
}

/// Comparing reports what is there before what is gone, and each identity at most once.
pub proof fn comparing_reports_removals_last(
    previous: Seq<NeighborEntry>,
    current: Seq<NeighborEntry>,
    i: int,
    j: int,
)
    requires
        distinct(previous),
        distinct(current),
        0 <= i < j < events_between(previous, current).len(),
    ensures
        events_between(previous, current)[i] matches Event::Neighbor { id: first, kind: one } && (
        events_between(previous, current)[j] matches Event::Neighbor { id: second, kind: other }
            && first != second && (one == ChangeKind::Removed ==> other == ChangeKind::Removed)),
{
    let events = events_between(previous, current);
    let arriving = |k: int| optional(appearance(previous, current[k]));
    let leaving = |k: int| optional(disappearance(current, previous[k]));
    let first = gathered(current.len(), arriving);
    let second = gathered(previous.len(), leaving);
    let related = |one: Event, other: Event| one->Neighbor_id != other->Neighbor_id;
    assert forall|a: int, b: int|
        0 <= a < b < current.len() && (#[trigger] arriving(a)).len() == 1 && (#[trigger] arriving(
            b,
        )).len() == 1 implies related(arriving(a)[0], arriving(b)[0]) by {
        assert(current[a].id != current[b].id);
    }
    assert forall|a: int, b: int|
        0 <= a < b < previous.len() && (#[trigger] leaving(a)).len() == 1 && (#[trigger] leaving(
            b,
        )).len() == 1 implies related(leaving(a)[0], leaving(b)[0]) by {
        assert(previous[a].id != previous[b].id);
    }
    lemma_gathered_related(current.len(), arriving, related);
    lemma_gathered_related(previous.len(), leaving, related);
    if j < first.len() {
        assert(related(first[i], first[j]));
        assert(first.contains(first[i]) && first.contains(first[j]));
        let from = lemma_gathered_origin(current.len(), arriving, first[i]);
        let from = lemma_gathered_origin(current.len(), arriving, first[j]);
    } else {
        let there = j - first.len();
        assert(second.contains(second[there]));
        let gone = lemma_gathered_origin(previous.len(), leaving, second[there]);
        lemma_entry_with(current, previous[gone.0].id);
        if i < first.len() {
            assert(first.contains(first[i]));
            let from = lemma_gathered_origin(current.len(), arriving, first[i]);
            assert(ids_of(current)[from.0] == current[from.0].id);
        } else {
            let here = i - first.len();
            assert(related(second[here], second[there]));
            assert(second.contains(second[here]));
            let from = lemma_gathered_origin(previous.len(), leaving, second[here]);
        }
    }
}

/// A snapshot holds an entry exactly when no later one has its identity.
pub proof fn snapshot_holds_what_was_read_last(entries: Seq<NeighborEntry>, i: int)
    requires
        0 <= i < entries.len(),
        forall|k: int| i < k < entries.len() ==> (#[trigger] entries[k]).id != entries[i].id,
    ensures
        entry_with(last_of_each(entries), entries[i].id) == Some(entries[i]),
{
    let ids = ids_of(entries);
    snapshot_holds_the_last_of_each(entries, entries[i].id);
    lemma_last_index(ids, entries[i].id);
    assert(ids[i] == entries[i].id);
    assert(forall|k: int| 0 <= k < entries.len() ==> #[trigger] ids[k] == entries[k].id);
}

/// A watch waits five seconds for its subscriptions, and neighbors are polled every two seconds.
pub proof fn waits_have_their_lengths()
    ensures
        REGISTRATION_READY_SECONDS == 5,
        NEIGHBOR_POLL_SECONDS == 2,
{
}

} // verus!
