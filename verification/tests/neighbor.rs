use net_lattice::InterfaceId;
use net_lattice::IpAddress;
use net_lattice::Ipv4Address;
use net_lattice::Ipv6Address;
use net_lattice::MacAddress;
use net_lattice::NeighborEntry;
use net_lattice::NeighborId;
use net_lattice::NeighborState;
use net_lattice::StaticNeighbor;

#[test]
fn new_entry_has_no_mac_and_unknown_state() {
    let entry = NeighborEntry::new(
        NeighborId::new(1),
        1,
        IpAddress::from(Ipv4Address::new(192, 168, 1, 1)),
    );
    assert!(entry.mac.is_none());
    assert_eq!(entry.state, NeighborState::Unknown);
}

#[test]
fn neighbor_builder_methods_set_optional_fields() {
    let mac = MacAddress::new([0x02, 0x00, 0x00, 0x00, 0x00, 0x01]);
    let entry = NeighborEntry::new(
        NeighborId::new(1),
        1,
        IpAddress::from(Ipv4Address::new(192, 168, 1, 1)),
    )
    .with_mac(mac)
    .with_state(NeighborState::Reachable);
    assert_eq!(entry.mac, Some(mac));
    assert_eq!(entry.state, NeighborState::Reachable);
}

#[test]
fn ipv6_ndp_entry_preserves_observed_identity_and_state() {
    let id = NeighborId::new(0x16);
    let mac = MacAddress::new([0x02, 0x00, 0x00, 0x00, 0x00, 0x16]);
    let address = IpAddress::from(Ipv6Address::new([0x2001, 0xdb8, 0, 0x16, 0, 0, 0, 1]));

    let entry = NeighborEntry::new(id, 7, address)
        .with_mac(mac)
        .with_state(NeighborState::Reachable);

    assert_eq!(entry.id, id);
    assert_eq!(entry.interface_index, 7);
    assert_eq!(entry.address, address);
    assert_eq!(entry.mac, Some(mac));
    assert_eq!(entry.state, NeighborState::Reachable);
}

#[test]
fn static_neighbor_requires_a_mac_and_carries_no_id_or_state() {
    let mac = MacAddress::new([0x02, 0x00, 0x00, 0x00, 0x00, 0x02]);
    let address = IpAddress::from(Ipv4Address::new(192, 168, 1, 2));
    let neighbor = StaticNeighbor::new(InterfaceId::new(3), address, mac);

    assert_eq!(neighbor.interface_id, InterfaceId::new(3));
    assert_eq!(neighbor.address, address);
    assert_eq!(neighbor.mac, mac);
}

#[test]
fn static_neighbor_identity_is_interface_and_address() {
    let mac = MacAddress::new([0x02, 0x00, 0x00, 0x00, 0x00, 0x03]);
    let address = IpAddress::from(Ipv6Address::new([0x2001, 0xdb8, 0, 0, 0, 0, 0, 2]));
    let a = StaticNeighbor::new(InterfaceId::new(1), address, mac);
    let b = StaticNeighbor::new(
        InterfaceId::new(1),
        address,
        MacAddress::new([0x02, 0x00, 0x00, 0x00, 0x00, 0x04]),
    );
    assert_ne!(a, b);
    assert_eq!(a.interface_id, b.interface_id);
    assert_eq!(a.address, b.address);
}
