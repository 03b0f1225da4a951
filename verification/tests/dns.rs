use net_lattice::DnsConfig;
use net_lattice::IpAddress;
use net_lattice::Ipv4Address;
use net_lattice::Ipv6Address;
use net_lattice::NewDnsConfig;

#[test]
fn new_config_has_no_entries() {
    let config = DnsConfig::new();
    assert!(config.nameservers.is_empty());
    assert!(config.search_domains.is_empty());
}

#[test]
fn config_carries_nameservers_and_search_domains() {
    let config = DnsConfig {
        nameservers: vec![IpAddress::V4(Ipv4Address::new(1, 1, 1, 1))],
        search_domains: vec!["example.com".to_string()],
    };
    assert_eq!(config.nameservers.len(), 1);
    assert_eq!(config.search_domains, vec!["example.com".to_string()]);
}

#[test]
fn new_desired_config_has_no_entries() {
    let config = NewDnsConfig::new();
    assert!(config.nameservers.is_empty());
    assert!(config.search_domains.is_empty());
}

#[test]
fn desired_config_constructor_preserves_entries() {
    let config = NewDnsConfig::with(
        vec![IpAddress::V4(Ipv4Address::new(9, 9, 9, 9))],
        vec!["example.test".to_string()],
    );
    assert_eq!(config.nameservers.len(), 1);
    assert_eq!(config.search_domains, ["example.test"]);
}

#[test]
fn mixed_family_config_preserves_order_and_values() {
    let config = NewDnsConfig::with(
        vec![
            IpAddress::from(Ipv4Address::new(1, 1, 1, 1)),
            IpAddress::from(Ipv6Address::new([
                0x2606, 0x4700, 0x4700, 0, 0, 0, 0, 0x1111,
            ])),
            IpAddress::from(Ipv4Address::new(8, 8, 8, 8)),
        ],
        vec!["example.test".to_string()],
    );

    assert_eq!(config.nameservers.len(), 3);
    assert_eq!(
        config.nameservers[0],
        IpAddress::from(Ipv4Address::new(1, 1, 1, 1))
    );
    assert_eq!(
        config.nameservers[1],
        IpAddress::from(Ipv6Address::new([
            0x2606, 0x4700, 0x4700, 0, 0, 0, 0, 0x1111,
        ]))
    );
    assert_eq!(
        config.nameservers[2],
        IpAddress::from(Ipv4Address::new(8, 8, 8, 8))
    );
    assert_eq!(config.search_domains, ["example.test"]);
}
