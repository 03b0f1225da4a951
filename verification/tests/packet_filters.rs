use net_lattice::firewall::find_index_named;
use net_lattice::firewall::kill_switch_policy;
use net_lattice::firewall::protocol_number;
use net_lattice::mask::count_leading_ones;
use net_lattice::mask::ipv4_prefix_mask;
use net_lattice::mask::ipv6_prefix_mask;
use net_lattice::mask::number_from_bytes;
use net_lattice::mask::number_to_bytes;
use net_lattice::nft::cleared_policy;
use net_lattice::nft::compile_rule;
use net_lattice::nft::policy_batch;
use net_lattice::nft::AppliedPolicy;
use net_lattice::nft::BatchMessage;
use net_lattice::nft::Comparison;
use net_lattice::nft::NftExpr;
use net_lattice::nft::Source;
use net_lattice::nft::INBOUND_CHAIN_NAME;
use net_lattice::nft::OUTBOUND_CHAIN_NAME;
use net_lattice::nft::TABLE_NAME;
use net_lattice::pf;
use net_lattice::pf::address_family;
use net_lattice::pf::anchor_bytes;
use net_lattice::pf::build_pf_rule;
use net_lattice::pf::darwin_error_code;
use net_lattice::pf::decode_pf_rule;
use net_lattice::pf::decode_rules;
use net_lattice::pf::default_rule;
use net_lattice::pf::iowr;
use net_lattice::pf::next_phase;
use net_lattice::pf::pf_action;
use net_lattice::pf::pf_direction;
use net_lattice::pf::policy_rules;
use net_lattice::pf::rule_interface_name;
use net_lattice::pf::set_port_xport;
use net_lattice::pf::InterfaceName;
use net_lattice::pf::PfPhase;
use net_lattice::pf::PfXport;
use net_lattice::pf::PortBytes;
use net_lattice::wfp;
use net_lattice::wfp::build_rule_conditions;
use net_lattice::wfp::decode_filter;
use net_lattice::wfp::decode_layer;
use net_lattice::wfp::every_layer;
use net_lattice::wfp::is_last_page;
use net_lattice::wfp::layers_for_rule;
use net_lattice::wfp::merge_rules;
use net_lattice::wfp::next_step;
use net_lattice::wfp::ok_or_already_exists;
use net_lattice::wfp::ok_or_platform_error;
use net_lattice::wfp::operation_outcome;
use net_lattice::wfp::plan_policy;
use net_lattice::wfp::rule_weight;
use net_lattice::wfp::wfp_action;
use net_lattice::wfp::Filter;
use net_lattice::wfp::LuidIndex;
use net_lattice::wfp::LuidLookup;
use net_lattice::wfp::PlanStep;
use net_lattice::wfp::WfpOperation;
use net_lattice::wfp::FWP_E_ALREADY_EXISTS;
use net_lattice::Direction;
use net_lattice::Error;
use net_lattice::FirewallPolicy;
use net_lattice::FirewallRule;
use net_lattice::Interface;
use net_lattice::InterfaceId;
use net_lattice::InterfaceKind;
use net_lattice::Ipv4Address;
use net_lattice::Ipv4Network;
use net_lattice::Ipv4PrefixLength;
use net_lattice::Ipv6Address;
use net_lattice::Ipv6Network;
use net_lattice::Ipv6PrefixLength;
use net_lattice::Network;
use net_lattice::PlatformErrorCode;
use net_lattice::PortRange;
use net_lattice::Protocol;
use net_lattice::Verdict;

fn v4_network(a: u8, b: u8, c: u8, d: u8, prefix: u8) -> Network {
    Network::V4(Ipv4Network::new(
        Ipv4Address::new(a, b, c, d),
        Ipv4PrefixLength::new(prefix).unwrap(),
    ))
}

fn documentation_v6() -> Network {
    Network::V6(Ipv6Network::new(
        Ipv6Address::new([0x2001, 0xdb8, 0, 0, 0, 0, 0, 0]),
        Ipv6PrefixLength::new(32).unwrap(),
    ))
}

fn every_match_shape() -> Vec<FirewallRule> {
    vec![
        FirewallRule::new(Direction::Outbound, Verdict::Allow).with_interface_index(1),
        FirewallRule::new(Direction::Inbound, Verdict::Deny).with_remote(documentation_v6()),
        FirewallRule::new(Direction::Outbound, Verdict::Deny)
            .with_remote(v4_network(198, 51, 100, 0, 24)),
        FirewallRule::new(Direction::Inbound, Verdict::Allow)
            .with_protocol(Protocol::Tcp)
            .with_port(PortRange::new(1000, 2000)),
        FirewallRule::new(Direction::Outbound, Verdict::Allow)
            .with_protocol(Protocol::Udp)
            .with_port(PortRange::single(53)),
        FirewallRule::new(Direction::Outbound, Verdict::Deny).with_protocol(Protocol::Icmp),
    ]
}

fn policy_of(default_verdict: Verdict, rules: &[FirewallRule]) -> FirewallPolicy {
    let mut policy = FirewallPolicy::new(default_verdict);
    for rule in rules {
        policy = policy.with_rule(*rule);
    }
    policy
}

// ---- masks and numbers ----

#[test]
fn ipv6_prefix_mask_covers_leading_bits_only() {
    assert_eq!(ipv6_prefix_mask(0), [0u8; 16]);
    assert_eq!(ipv6_prefix_mask(128), [0xffu8; 16]);
    let mask = ipv6_prefix_mask(64);
    assert_eq!(&mask[..8], &[0xff; 8]);
    assert_eq!(&mask[8..], &[0x00; 8]);
}

#[test]
fn firewall_ipv6_prefix_mask_covers_leading_bits_only() {
    assert_eq!(ipv6_prefix_mask(0), [0u8; 16]);
    assert_eq!(ipv6_prefix_mask(128), [0xffu8; 16]);

    let mask = ipv6_prefix_mask(64);
    assert_eq!(&mask[..8], &[0xff; 8]);
    assert_eq!(&mask[8..], &[0x00; 8]);

    let mask = ipv6_prefix_mask(12);
    assert_eq!(mask[0], 0xff);
    assert_eq!(mask[1], 0xf0);
    assert_eq!(&mask[2..], &[0x00; 14]);
}

#[test]
fn ipv4_masks_and_numbers_agree() {
    assert_eq!(ipv4_prefix_mask(0), [0, 0, 0, 0]);
    assert_eq!(ipv4_prefix_mask(20), [0xff, 0xff, 0xf0, 0]);
    assert_eq!(ipv4_prefix_mask(32), [0xff; 4]);
    assert_eq!(number_from_bytes(&[192, 0, 2, 1]), 0xc000_0201);
    assert_eq!(number_to_bytes(0xc000_0201), [192, 0, 2, 1]);
    assert_eq!(count_leading_ones(&vec![0xff, 0xf0, 0x80, 0]), 12);
}

#[test]
fn protocol_number_disambiguates_icmp_by_remote_family() {
    let v6 = documentation_v6();
    assert_eq!(
        protocol_number(Protocol::Icmp, Some(&v6)),
        libc::IPPROTO_ICMPV6 as u8
    );
    assert_eq!(
        protocol_number(Protocol::Icmp, None),
        libc::IPPROTO_ICMP as u8
    );
}

#[test]
fn firewall_protocol_number_disambiguates_icmp_by_remote_family() {
    let v6 = documentation_v6();
    assert_eq!(
        protocol_number(Protocol::Icmp, Some(&v6)),
        libc::IPPROTO_ICMPV6 as u8
    );
    assert_eq!(
        protocol_number(Protocol::Icmp, None),
        libc::IPPROTO_ICMP as u8
    );
    assert_eq!(protocol_number(Protocol::Tcp, Some(&v6)), libc::IPPROTO_TCP as u8);
    assert_eq!(protocol_number(Protocol::Udp, None), libc::IPPROTO_UDP as u8);
}

// ---- nftables ----

#[test]
fn rules_compile_to_the_expressions_that_match_them() {
    let rule = FirewallRule::new(Direction::Outbound, Verdict::Allow)
        .with_interface_index(4)
        .with_remote(v4_network(10, 0, 0, 0, 24))
        .with_protocol(Protocol::Udp)
        .with_port(PortRange::single(53));
    assert_eq!(
        compile_rule(&rule),
        vec![
            NftExpr::Load(Source::OutputInterface),
            NftExpr::CompareIndex(4),
            NftExpr::Load(Source::Ipv4Destination),
            NftExpr::Mask { mask: vec![0xff, 0xff, 0xff, 0], xor: vec![0; 4] },
            NftExpr::CompareBytes { op: Comparison::Equal, bytes: vec![10, 0, 0, 0] },
            NftExpr::Load(Source::Layer4Protocol),
            NftExpr::CompareProtocol(17),
            NftExpr::Load(Source::UdpDestinationPort),
            NftExpr::CompareBytes { op: Comparison::Equal, bytes: vec![0, 53] },
            NftExpr::Verdict(Verdict::Allow),
        ]
    );

    let range = FirewallRule::new(Direction::Inbound, Verdict::Deny)
        .with_protocol(Protocol::Tcp)
        .with_port(PortRange::new(1000, 2000));
    assert_eq!(
        compile_rule(&range),
        vec![
            NftExpr::Load(Source::Layer4Protocol),
            NftExpr::CompareProtocol(6),
            NftExpr::Load(Source::TcpSourcePort),
            NftExpr::CompareBytes { op: Comparison::AtLeast, bytes: vec![3, 232] },
            NftExpr::Load(Source::TcpSourcePort),
            NftExpr::CompareBytes { op: Comparison::AtMost, bytes: vec![7, 208] },
            NftExpr::Verdict(Verdict::Deny),
        ]
    );

    let plain = FirewallRule::new(Direction::Inbound, Verdict::Allow);
    assert_eq!(compile_rule(&plain), vec![NftExpr::Verdict(Verdict::Allow)]);
}

#[test]
fn a_policy_replaces_what_was_there_in_one_transaction() {
    let allow_dns = FirewallRule::new(Direction::Outbound, Verdict::Allow)
        .with_protocol(Protocol::Udp)
        .with_port(PortRange::single(53));
    let policy = FirewallPolicy::new(Verdict::Deny).with_rule(allow_dns);
    assert_eq!(
        policy_batch(&policy),
        vec![
            BatchMessage::AddTable,
            BatchMessage::AddChain { direction: Direction::Inbound, policy: Verdict::Deny },
            BatchMessage::AddChain { direction: Direction::Outbound, policy: Verdict::Deny },
            BatchMessage::FlushChain(Direction::Inbound),
            BatchMessage::FlushChain(Direction::Outbound),
            BatchMessage::AddRule {
                direction: Direction::Outbound,
                expressions: compile_rule(&allow_dns),
            },
        ]
    );
    assert_eq!(TABLE_NAME, "net_lattice");
    assert_eq!(INBOUND_CHAIN_NAME, "inbound");
    assert_eq!(OUTBOUND_CHAIN_NAME, "outbound");
}

#[test]
fn the_policy_applied_last_is_remembered() {
    let rules = every_match_shape();
    let mut applied = AppliedPolicy::new();
    assert!(applied.rules().is_empty());
    applied.record(policy_of(Verdict::Deny, &rules));
    assert_eq!(applied.rules(), rules);
    applied.record_cleared();
    assert!(applied.rules().is_empty());
    assert_eq!(cleared_policy(), FirewallPolicy::new(Verdict::Allow));
}

#[test]
fn a_kill_switch_admits_loopback_and_the_tunnel_alone() {
    let interfaces = vec![
        Interface::new(InterfaceId::new(1), 1, "lo", InterfaceKind::Loopback),
        Interface::new(InterfaceId::new(9), 9, "tun0", InterfaceKind::PointToPoint),
    ];
    assert_eq!(find_index_named(&interfaces, "tun0"), Some(9));
    assert_eq!(find_index_named(&interfaces, "tun1"), None);

    let out = FirewallRule::new(Direction::Outbound, Verdict::Allow);
    let into = FirewallRule::new(Direction::Inbound, Verdict::Allow);
    let policy = kill_switch_policy(Some(1), 9);
    assert_eq!(policy.default_verdict, Verdict::Deny);
    assert_eq!(
        policy.rules,
        vec![
            out.with_interface_index(1),
            into.with_interface_index(1),
            out.with_interface_index(9),
            into.with_interface_index(9),
        ]
    );
    assert_eq!(
        kill_switch_policy(None, 9).rules,
        vec![out.with_interface_index(9), into.with_interface_index(9)]
    );
}

// ---- pf ----

#[test]
fn pf_action_and_pf_direction_map_verdict_and_direction() {
    assert_eq!(pf_action(Verdict::Allow), pf::PF_PASS);
    assert_eq!(pf_action(Verdict::Deny), pf::PF_DROP);
    assert_eq!(pf_direction(Direction::Inbound), pf::PF_IN);
    assert_eq!(pf_direction(Direction::Outbound), pf::PF_OUT);
}

#[test]
fn address_family_reflects_remote_presence_and_kind() {
    assert_eq!(address_family(None), libc::AF_UNSPEC as u8);
    let v4 = v4_network(10, 0, 0, 0, 8);
    assert_eq!(address_family(Some(&v4)), libc::AF_INET as u8);
    assert_eq!(address_family(Some(&documentation_v6())), 30);
}

#[test]
fn anchor_bytes_is_null_terminated_and_matches_the_anchor_name() {
    let anchor = b"net_lattice";
    let bytes = anchor_bytes();
    assert_eq!(&bytes[..anchor.len()], anchor);
    assert_eq!(bytes[anchor.len()], 0);
    assert_eq!(bytes.len(), 1024);
}

#[test]
fn darwin_error_code_preserves_the_raw_errno() {
    assert_eq!(darwin_error_code(Some(13)), PlatformErrorCode::Darwin(13));
    assert_eq!(darwin_error_code(None), PlatformErrorCode::Darwin(0));
}

#[test]
fn ioctl_request_codes_match_the_documented_bsd_encoding() {
    for len in [0usize, 24, 1104, 3104, 0x1fff, 0x2001] {
        let expected = 0x8000_0000u64
            | 0x4000_0000u64
            | ((len as u64 & 0x1fff) << 16)
            | (u64::from(b'D') << 8)
            | 4;
        assert_eq!(iowr(b'D', 4, len), expected);
    }
}

fn no_xport() -> PfXport {
    PfXport {
        first: PortBytes { high: 0, low: 0 },
        second: PortBytes { high: 0, low: 0 },
        op: pf::PF_OP_NONE,
    }
}

fn native(port: PortBytes) -> u16 {
    u16::from_ne_bytes([port.high, port.low])
}

#[test]
fn set_port_xport_uses_network_byte_order() {
    let mut xport = no_xport();
    set_port_xport(&mut xport, 53, 53);
    assert_eq!(xport.op, pf::PF_OP_EQ);
    assert_eq!(native(xport.first), 53u16.to_be());

    let mut xport = no_xport();
    set_port_xport(&mut xport, 1000, 2000);
    assert_eq!(xport.op, pf::PF_OP_RRG);
    assert_eq!(native(xport.first), 1000u16.to_be());
    assert_eq!(native(xport.second), 2000u16.to_be());
}

#[test]
fn build_then_decode_pf_rule_round_trips_every_match_shape() {
    let loopback_name = Some(b"lo0".to_vec());
    for rule in every_match_shape() {
        let built = build_pf_rule(&rule, &loopback_name);
        let index = if rule_interface_name(&built) == b"lo0" { 1 } else { 0 };
        assert_eq!(
            decode_pf_rule(&built, index),
            Some(rule),
            "round trip for {rule:?}"
        );
    }
}

#[test]
fn decode_pf_rule_skips_the_default_verdict_catch_all_rule() {
    let catch_all = default_rule(Verdict::Deny);
    assert_eq!(decode_pf_rule(&catch_all, 0), None);
}

#[test]
fn decode_pf_rule_rejects_an_unrecognized_action() {
    let plain = FirewallRule::new(Direction::Outbound, Verdict::Allow);
    let mut rule = build_pf_rule(&plain, &None);
    rule.action = 0xff;
    assert_eq!(decode_pf_rule(&rule, 0), None);

    rule.action = pf::PF_PASS;
    assert!(decode_pf_rule(&rule, 0).is_some());
}

#[test]
fn an_anchor_reads_back_in_the_order_of_the_policy() {
    let table = vec![
        InterfaceName { index: 1, name: b"lo0".to_vec() },
        InterfaceName { index: 7, name: b"en0".to_vec() },
    ];
    let rules = every_match_shape();
    let policy = policy_of(Verdict::Deny, &rules);
    let compiled = policy_rules(&policy, &table);
    assert_eq!(compiled.len(), rules.len() + 1);
    assert_eq!(decode_rules(&compiled, &table), rules);
    assert!(decode_rules(&policy_rules(&cleared_policy(), &table), &table).is_empty());
}

#[test]
fn a_pf_transaction_commits_only_when_every_rule_is_in() {
    let mut phase = PfPhase::Begin;
    let mut seen = Vec::new();
    while phase != PfPhase::Finished {
        seen.push(phase);
        phase = next_phase(phase, 2, true);
    }
    assert_eq!(
        seen,
        vec![
            PfPhase::Begin,
            PfPhase::Reserve(0),
            PfPhase::Add(0),
            PfPhase::Reserve(1),
            PfPhase::Add(1),
            PfPhase::Commit,
        ]
    );
    assert_eq!(next_phase(PfPhase::Add(0), 2, false), PfPhase::Rollback);
    assert_eq!(next_phase(PfPhase::Rollback, 2, true), PfPhase::Finished);
}

// ---- Windows Filtering Platform ----

#[test]
fn rule_weight_decreases_with_index_and_never_reaches_zero() {
    assert_eq!(rule_weight(0, 3), 3);
    assert_eq!(rule_weight(1, 3), 2);
    assert_eq!(rule_weight(2, 3), 1);
    assert!(rule_weight(2, 3) > 0);
}

#[test]
fn rule_weight_clamps_at_u8_max_for_large_policies() {
    assert_eq!(rule_weight(0, 1000), u8::MAX);
    assert_eq!(rule_weight(998, 1000), 2);
    assert_eq!(rule_weight(999, 1000), 1);
}

#[test]
fn protocol_number_disambiguates_icmp_by_layer_family() {
    assert_eq!(wfp::protocol_number(Protocol::Icmp, false), 1);
    assert_eq!(wfp::protocol_number(Protocol::Icmp, true), 58);
    assert_eq!(wfp::protocol_number(Protocol::Tcp, false), 6);
    assert_eq!(wfp::protocol_number(Protocol::Udp, true), 17);
}

#[test]
fn layers_for_rule_with_no_remote_covers_both_families() {
    let rule = FirewallRule::new(Direction::Outbound, Verdict::Deny);
    let layers = layers_for_rule(&rule);
    assert_eq!(
        layers,
        vec![(Direction::Outbound, false), (Direction::Outbound, true)]
    );
}

#[test]
fn layers_for_rule_with_v4_remote_is_v4_only() {
    let rule = FirewallRule::new(Direction::Inbound, Verdict::Allow)
        .with_remote(v4_network(10, 0, 0, 0, 8));
    assert_eq!(layers_for_rule(&rule), vec![(Direction::Inbound, false)]);
}

#[test]
fn layers_for_rule_with_v6_remote_is_v6_only() {
    let rule =
        FirewallRule::new(Direction::Outbound, Verdict::Deny).with_remote(documentation_v6());
    assert_eq!(layers_for_rule(&rule), vec![(Direction::Outbound, true)]);
}

const LOOPBACK_LUID: u64 = 0x18_0000_0000_0000;

fn luid_table() -> Vec<LuidIndex> {
    vec![LuidIndex { luid: LOOPBACK_LUID, index: 1 }]
}

#[test]
fn build_then_decode_filter_round_trips_every_match_shape() {
    let cases = [
        (
            FirewallRule::new(Direction::Outbound, Verdict::Allow).with_interface_index(1),
            false,
        ),
        (
            FirewallRule::new(Direction::Outbound, Verdict::Deny)
                .with_remote(v4_network(198, 51, 100, 0, 24)),
            false,
        ),
        (
            FirewallRule::new(Direction::Inbound, Verdict::Deny).with_remote(documentation_v6()),
            true,
        ),
        (
            FirewallRule::new(Direction::Outbound, Verdict::Allow)
                .with_protocol(Protocol::Udp)
                .with_port(PortRange::single(53)),
            false,
        ),
        (
            FirewallRule::new(Direction::Inbound, Verdict::Allow)
                .with_protocol(Protocol::Tcp)
                .with_port(PortRange::new(1000, 2000)),
            false,
        ),
        (
            FirewallRule::new(Direction::Outbound, Verdict::Deny).with_protocol(Protocol::Icmp),
            false,
        ),
    ];

    for (rule, is_v6) in cases {
        let conditions =
            build_rule_conditions(&rule, is_v6, &Ok(LOOPBACK_LUID)).expect("build conditions");
        let filter = Filter { weight: Some(7), action: wfp_action(rule.verdict), conditions };
        let decoded = decode_filter(&filter, rule.direction, &luid_table());
        assert_eq!(decoded, Some((7, rule)), "round trip for {rule:?}");
    }
}

#[test]
fn decode_filter_skips_the_weight_zero_default_verdict_filter() {
    let filter = Filter {
        weight: Some(0),
        action: wfp_action(Verdict::Deny),
        conditions: Vec::new(),
    };
    assert_eq!(decode_filter(&filter, Direction::Outbound, &luid_table()), None);
}

#[test]
fn an_interface_that_cannot_be_looked_up_fails_the_rule_alone() {
    let rule = FirewallRule::new(Direction::Outbound, Verdict::Allow).with_interface_index(1);
    assert!(matches!(
        build_rule_conditions(&rule, false, &Err(87)),
        Err(Error::Platform(PlatformErrorCode::Windows(87)))
    ));
    let plain = FirewallRule::new(Direction::Outbound, Verdict::Allow);
    assert!(build_rule_conditions(&plain, false, &Err(87)).expect("no interface").is_empty());
}

#[test]
fn statuses_of_creating_something_that_exists_are_tolerated() {
    assert!(ok_or_platform_error(0).is_ok());
    assert!(matches!(
        ok_or_platform_error(FWP_E_ALREADY_EXISTS),
        Err(Error::Platform(PlatformErrorCode::Windows(FWP_E_ALREADY_EXISTS)))
    ));
    assert!(ok_or_already_exists(FWP_E_ALREADY_EXISTS).is_ok());
    assert!(matches!(
        ok_or_already_exists(5),
        Err(Error::Platform(PlatformErrorCode::Windows(5)))
    ));
    assert!(operation_outcome(&WfpOperation::AddProvider, FWP_E_ALREADY_EXISTS).is_ok());
    assert!(operation_outcome(&WfpOperation::Commit, FWP_E_ALREADY_EXISTS).is_err());
    assert!(operation_outcome(&WfpOperation::Fail(87), 0).is_err());
    assert!(is_last_page(127));
    assert!(!is_last_page(128));
}

#[test]
fn a_policy_reads_back_from_the_four_layers_in_its_own_order() {
    let rules = every_match_shape();
    let policy = policy_of(Verdict::Allow, &rules);
    let lookups = vec![LuidLookup { index: 1, result: Ok(LOOPBACK_LUID) }];
    let plan = plan_policy(&policy, &lookups);
    assert_eq!(plan[0], WfpOperation::Begin);
    assert_eq!(plan[plan.len() - 1], WfpOperation::Commit);

    let mut decoded = Vec::new();
    for (direction, is_v6) in every_layer() {
        let mut filters = Vec::new();
        for operation in &plan {
            if let WfpOperation::AddFilter { direction: d, is_v6: v, filter } = operation {
                if (*d, *v) == (direction, is_v6) {
                    filters.push(filter.clone());
                }
            }
        }
        decoded.extend(decode_layer(&filters, direction, &luid_table()));
    }
    assert_eq!(merge_rules(&decoded), rules);
}

#[test]
fn a_plan_gives_up_at_the_first_unknown_interface() {
    let policy = policy_of(Verdict::Allow, &every_match_shape());
    let plan = plan_policy(&policy, &vec![LuidLookup { index: 1, result: Err(1168) }]);
    assert_eq!(plan[plan.len() - 1], WfpOperation::Fail(1168));
    assert_eq!(plan.len(), 12);
    assert_eq!(next_step(PlanStep::Run(0), 12, true), PlanStep::Run(1));
    assert_eq!(next_step(PlanStep::Run(11), 12, false), PlanStep::Abort);
    assert_eq!(next_step(PlanStep::Run(11), 12, true), PlanStep::Finished);
    assert_eq!(next_step(PlanStep::Abort, 12, true), PlanStep::Finished);
}
