use net_lattice::IpAddress;
use net_lattice::Ipv4Address;
use net_lattice::Ipv4Network;
use net_lattice::Ipv4PrefixLength;
use net_lattice::Ipv6Address;
use net_lattice::Ipv6Network;
use net_lattice::Ipv6PrefixLength;
use net_lattice::Network;
use net_lattice::Route;
use net_lattice::RouteConfig;
use net_lattice::RouteId;

fn destination() -> Network {
    Network::from(Ipv4Network::new(
        Ipv4Address::new(10, 0, 0, 0),
        Ipv4PrefixLength::new(24).unwrap(),
    ))
}

#[test]
fn new_route_has_no_gateway_or_metric() {
    let route = Route::new(RouteId::new(1), destination());
    assert!(route.gateway.is_none());
    assert!(route.metric.is_none());
}

#[test]
fn route_builder_methods_set_optional_fields() {
    let gateway = IpAddress::from(Ipv4Address::new(10, 0, 0, 1));
    let route = Route::new(RouteId::new(1), destination())
        .with_gateway(gateway)
        .with_metric(100)
        .with_interface_index(2);
    assert_eq!(route.gateway, Some(gateway));
    assert_eq!(route.metric, Some(100));
    assert_eq!(route.interface_index, Some(2));
}

#[test]
fn builder_methods_preserve_ipv6_route_fields() {
    let destination = Network::from(Ipv6Network::new(
        Ipv6Address::new([0x2001, 0xdb8, 0, 0x16, 0, 0, 0, 0]),
        Ipv6PrefixLength::new(64).expect("valid IPv6 prefix"),
    ));
    let gateway = IpAddress::from(Ipv6Address::new([0x2001, 0xdb8, 0, 0x16, 0, 0, 0, 1]));

    let route = Route::new(RouteId::new(16), destination)
        .with_gateway(gateway)
        .with_metric(42)
        .with_interface_index(7);

    assert_eq!(route.destination, destination);
    assert_eq!(route.gateway, Some(gateway));
    assert_eq!(route.metric, Some(42));
    assert_eq!(route.interface_index, Some(7));
}

#[test]
fn new_route_config_has_no_gateway_or_metric() {
    let config = RouteConfig::new(destination());
    assert!(config.gateway.is_none());
    assert!(config.metric.is_none());
    assert!(config.interface_index.is_none());
}

#[test]
fn route_config_builder_methods_set_optional_fields() {
    let gateway = IpAddress::from(Ipv4Address::new(10, 0, 0, 1));
    let config = RouteConfig::new(destination())
        .with_gateway(gateway)
        .with_metric(100)
        .with_interface_index(2);
    assert_eq!(config.gateway, Some(gateway));
    assert_eq!(config.metric, Some(100));
    assert_eq!(config.interface_index, Some(2));
}

#[test]
fn route_config_builder_methods_preserve_ipv6_fields() {
    let destination = Network::from(Ipv6Network::new(
        Ipv6Address::new([0x2001, 0xdb8, 0, 0x16, 0, 0, 0, 0]),
        Ipv6PrefixLength::new(64).expect("valid IPv6 prefix"),
    ));
    let gateway = IpAddress::from(Ipv6Address::new([0x2001, 0xdb8, 0, 0x16, 0, 0, 0, 1]));

    let config = RouteConfig::new(destination)
        .with_gateway(gateway)
        .with_metric(42)
        .with_interface_index(7);

    assert_eq!(config.destination, destination);
    assert_eq!(config.gateway, Some(gateway));
    assert_eq!(config.metric, Some(42));
    assert_eq!(config.interface_index, Some(7));
}

#[test]
fn route_config_equality_compares_all_four_fields() {
    let gateway = IpAddress::from(Ipv4Address::new(10, 0, 0, 1));
    let a = RouteConfig::new(destination())
        .with_gateway(gateway)
        .with_metric(10)
        .with_interface_index(1);
    let b = RouteConfig::new(destination())
        .with_gateway(gateway)
        .with_metric(10)
        .with_interface_index(1);
    let different_metric = a.with_metric(20);

    assert_eq!(a, b);
    assert_ne!(a, different_metric);
}

#[test]
fn route_config_carries_no_route_id() {
    let config = RouteConfig::new(destination());
    assert_eq!(config.destination, destination());
}
