use net_lattice::ChangeKind;
use net_lattice::Event;
use net_lattice::EventDomain;
use net_lattice::EventFilter;
use net_lattice::Interface;
use net_lattice::InterfaceAddressId;
use net_lattice::InterfaceId;
use net_lattice::NeighborId;
use net_lattice::Route;
use net_lattice::RouteId;

#[test]
fn events_carry_id_and_kind() {
    let event = Event::Route {
        id: RouteId::new(1),
        kind: ChangeKind::Added,
    };
    assert_eq!(
        event,
        Event::Route {
            id: RouteId::new(1),
            kind: ChangeKind::Added,
        }
    );
    assert_ne!(
        event,
        Event::Route {
            id: RouteId::new(1),
            kind: ChangeKind::Removed,
        }
    );
}

#[test]
fn object_selectors_compose_without_leaking_other_objects() {
    let filter = EventFilter::none()
        .route(RouteId::new(1))
        .route(RouteId::new(2));
    assert!(filter.matches(Event::Route {
        id: RouteId::new(1),
        kind: ChangeKind::Changed,
    }));
    assert!(filter.matches(Event::Route {
        id: RouteId::new(2),
        kind: ChangeKind::Changed,
    }));
    assert!(!filter.matches(Event::Route {
        id: RouteId::new(3),
        kind: ChangeKind::Changed,
    }));
}

#[test]
fn resync_is_selected_by_domain_even_for_object_filter() {
    let filter = EventFilter::none().route(RouteId::new(1));
    assert!(filter.matches(Event::ResyncRequired {
        domain: EventDomain::Route,
    }));
    assert!(!filter.matches(Event::ResyncRequired {
        domain: EventDomain::Address,
    }));
}

#[test]
fn domain_builders_default_and_empty_state_cover_every_domain() {
    let empty = EventFilter::none();
    assert!(empty.is_empty());
    assert!(!empty.matches(Event::Route {
        id: RouteId::new(1),
        kind: ChangeKind::Added,
    }));

    let domains = EventFilter::none()
        .routes()
        .interfaces()
        .neighbors()
        .addresses();
    assert!(!domains.is_empty());
    assert!(domains.matches(Event::Route {
        id: RouteId::new(1),
        kind: ChangeKind::Added,
    }));
    assert!(domains.matches(Event::Interface {
        id: InterfaceId::new(1),
        kind: ChangeKind::Removed,
    }));
    assert!(domains.matches(Event::Neighbor {
        id: NeighborId::new(1),
        kind: ChangeKind::Changed,
    }));
    assert!(domains.matches(Event::Address {
        id: InterfaceAddressId::new(1),
        kind: ChangeKind::Added,
    }));
    assert_eq!(EventFilter::default(), EventFilter::all());
}

#[test]
fn object_selectors_cover_every_domain_and_deduplicate() {
    let filter = EventFilter::none()
        .route(RouteId::new(1))
        .route(RouteId::new(1))
        .interface(InterfaceId::new(2))
        .neighbor(NeighborId::new(3))
        .address(InterfaceAddressId::new(4));

    assert!(filter.matches(Event::Route {
        id: RouteId::new(1),
        kind: ChangeKind::Added,
    }));
    assert!(!filter.matches(Event::Route {
        id: RouteId::new(2),
        kind: ChangeKind::Added,
    }));
    assert!(filter.matches(Event::Interface {
        id: InterfaceId::new(2),
        kind: ChangeKind::Added,
    }));
    assert!(!filter.matches(Event::Interface {
        id: InterfaceId::new(3),
        kind: ChangeKind::Added,
    }));
    assert!(filter.matches(Event::Neighbor {
        id: NeighborId::new(3),
        kind: ChangeKind::Added,
    }));
    assert!(!filter.matches(Event::Neighbor {
        id: NeighborId::new(4),
        kind: ChangeKind::Added,
    }));
    assert!(filter.matches(Event::Address {
        id: InterfaceAddressId::new(4),
        kind: ChangeKind::Added,
    }));
    assert!(!filter.matches(Event::Address {
        id: InterfaceAddressId::new(5),
        kind: ChangeKind::Added,
    }));
}

#[test]
fn resync_all_is_selected_only_when_a_domain_is_selected() {
    assert_eq!(
        Event::resync_all(),
        Event::ResyncRequired {
            domain: EventDomain::All
        }
    );
    assert!(!EventFilter::none().matches(Event::resync_all()));
    assert!(EventFilter::none().routes().matches(Event::resync_all()));
}

#[test]
fn resync_domain_matching_covers_interface_and_neighbor() {
    assert!(
        EventFilter::none()
            .interfaces()
            .matches(Event::ResyncRequired {
                domain: EventDomain::Interface,
            })
    );
    assert!(
        EventFilter::none()
            .neighbors()
            .matches(Event::ResyncRequired {
                domain: EventDomain::Neighbor,
            })
    );
}

#[test]
fn domain_selection_distinguishes_partial_and_all_filters() {
    let route = EventFilter::none().route(RouteId::new(1));
    assert!(route.selects_domain(EventDomain::Route));
    assert!(!route.selects_domain(EventDomain::Neighbor));
    assert!(!route.selects_domain(EventDomain::All));
    assert!(EventFilter::all().selects_domain(EventDomain::All));
}

#[test]
fn without_domain_clears_only_the_targeted_domain_and_its_narrowers() {
    let filter = EventFilter::all()
        .neighbor(NeighborId::new(1))
        .route(RouteId::new(2));
    let stripped = filter.without_domain(EventDomain::Neighbor);
    assert!(!stripped.selects_domain(EventDomain::Neighbor));
    assert!(!stripped.matches(Event::Neighbor {
        id: NeighborId::new(1),
        kind: ChangeKind::Added,
    }));
    assert!(stripped.selects_domain(EventDomain::Route));
    assert!(stripped.selects_domain(EventDomain::Interface));
    assert!(stripped.selects_domain(EventDomain::Address));
    assert!(stripped.matches(Event::Route {
        id: RouteId::new(2),
        kind: ChangeKind::Added,
    }));
}

#[test]
fn without_domain_all_clears_everything() {
    assert_eq!(
        EventFilter::all().without_domain(EventDomain::All),
        EventFilter::none()
    );
}
