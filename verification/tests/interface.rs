use net_lattice::AdminState;
use net_lattice::DesiredAdminState;
use net_lattice::Error;
use net_lattice::Interface;
use net_lattice::InterfaceConfig;
use net_lattice::InterfaceId;
use net_lattice::InterfaceKind;
use net_lattice::MacAddress;
use net_lattice::OperationalState;

#[test]
fn new_interface_has_no_optional_fields() {
    let iface = Interface::new(InterfaceId::new(1), 1, "eth0", InterfaceKind::Ethernet);
    assert!(iface.mac.is_none());
    assert!(iface.mtu.is_none());
    assert_eq!(iface.admin_state, AdminState::Unknown);
    assert_eq!(iface.operational_state, OperationalState::Unknown);
}

#[test]
fn interface_builder_methods_set_optional_fields() {
    let mac = MacAddress::new([0x02, 0x00, 0x00, 0x00, 0x00, 0x01]);
    let iface = Interface::new(InterfaceId::new(1), 1, "eth0", InterfaceKind::Ethernet)
        .with_mac(mac)
        .with_mtu(1500)
        .with_admin_state(AdminState::Up)
        .with_operational_state(OperationalState::Up);
    assert_eq!(iface.mac, Some(mac));
    assert_eq!(iface.mtu, Some(1500));
    assert_eq!(iface.admin_state, AdminState::Up);
    assert_eq!(iface.operational_state, OperationalState::Up);
}

#[test]
fn kind_displays() {
    assert_eq!(InterfaceKind::Ethernet.to_string(), "ethernet");
    assert_eq!(InterfaceKind::Wireless.to_string(), "wireless");
    assert_eq!(InterfaceKind::Loopback.to_string(), "loopback");
    assert_eq!(InterfaceKind::PointToPoint.to_string(), "point-to-point");
    assert_eq!(InterfaceKind::Bridge.to_string(), "bridge");
    assert_eq!(InterfaceKind::Other(42).to_string(), "other(42)");
}

#[test]
fn interface_config_preserves_only_requested_settings() {
    let config =
        InterfaceConfig::new(InterfaceId::new(7), Some(DesiredAdminState::Up), Some(1500))
            .expect("valid partial patch");

    assert_eq!(config.interface_id(), InterfaceId::new(7));
    assert_eq!(config.admin_state(), Some(DesiredAdminState::Up));
    assert_eq!(config.mtu(), Some(1500));
}

#[test]
fn interface_config_allows_each_setting_independently() {
    let admin_only =
        InterfaceConfig::new(InterfaceId::new(7), Some(DesiredAdminState::Down), None)
            .expect("admin-only patch");
    let mtu_only =
        InterfaceConfig::new(InterfaceId::new(7), None, Some(9000)).expect("mtu-only patch");

    assert_eq!(admin_only.mtu(), None);
    assert_eq!(mtu_only.admin_state(), None);
}

#[test]
fn interface_config_rejects_empty_or_zero_mtu_patches() {
    assert!(matches!(
        InterfaceConfig::new(InterfaceId::new(7), None, None),
        Err(Error::InvalidState)
    ));
    assert!(matches!(
        InterfaceConfig::new(InterfaceId::new(7), None, Some(0)),
        Err(Error::InvalidState)
    ));
}
