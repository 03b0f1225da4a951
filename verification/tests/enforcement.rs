//! Runs compiled policies on packets, the way each platform's filter does.

use net_lattice::nft::policy_batch;
use net_lattice::nft::BatchMessage;
use net_lattice::nft::Comparison;
use net_lattice::nft::NftExpr;
use net_lattice::nft::Source;
use net_lattice::pf;
use net_lattice::pf::pf_direction;
use net_lattice::pf::policy_rules;
use net_lattice::pf::rule_interface_name;
use net_lattice::pf::InterfaceName;
use net_lattice::pf::PfRule;
use net_lattice::pf::PfRuleAddr;
use net_lattice::wfp::plan_policy;
use net_lattice::wfp::Condition;
use net_lattice::wfp::ConditionField;
use net_lattice::wfp::ConditionValue;
use net_lattice::wfp::Filter;
use net_lattice::wfp::FilterAction;
use net_lattice::wfp::LuidLookup;
use net_lattice::wfp::WfpOperation;
use net_lattice::Direction;
use net_lattice::FirewallPolicy;
use net_lattice::FirewallRule;
use net_lattice::Ipv4Address;
use net_lattice::Ipv4Network;
use net_lattice::Ipv4PrefixLength;
use net_lattice::Network;
use net_lattice::PortRange;
use net_lattice::Protocol;
use net_lattice::Verdict;

/// An IPv4 packet on one interface.
#[derive(Clone, Copy)]
struct Packet {
    direction: Direction,
    interface: u32,
    protocol: u8,
    source: [u8; 4],
    destination: [u8; 4],
    source_port: u16,
    destination_port: u16,
}

impl Packet {
    fn remote(&self) -> ([u8; 4], u16) {
        match self.direction {
            Direction::Inbound => (self.source, self.source_port),
            _ => (self.destination, self.destination_port),
        }
    }
}

// ---- nftables ----

fn nft_rule_verdict(packet: &Packet, expressions: &[NftExpr]) -> Option<Verdict> {
    let mut index: Option<u32> = None;
    let mut protocol: Option<u8> = None;
    let mut bytes: Vec<u8> = Vec::new();
    for expression in expressions {
        match expression {
            NftExpr::Load(source) => match source {
                Source::InputInterface | Source::OutputInterface => index = Some(packet.interface),
                Source::Layer4Protocol => protocol = Some(packet.protocol),
                Source::Ipv4Source => bytes = packet.source.to_vec(),
                Source::Ipv4Destination => bytes = packet.destination.to_vec(),
                Source::TcpSourcePort | Source::UdpSourcePort => {
                    bytes = packet.source_port.to_be_bytes().to_vec();
                }
                Source::TcpDestinationPort | Source::UdpDestinationPort => {
                    bytes = packet.destination_port.to_be_bytes().to_vec();
                }
                Source::Ipv6Source | Source::Ipv6Destination => return None,
            },
            NftExpr::Mask { mask, xor } => {
                for i in 0..bytes.len() {
                    bytes[i] = (bytes[i] & mask[i]) ^ xor[i];
                }
            }
            NftExpr::CompareIndex(number) => {
                if index != Some(*number) {
                    return None;
                }
            }
            NftExpr::CompareProtocol(number) => {
                if protocol != Some(*number) {
                    return None;
                }
            }
            NftExpr::CompareBytes { op, bytes: other } => {
                let holds = match op {
                    Comparison::Equal => &bytes == other,
                    Comparison::AtLeast => &bytes >= other,
                    Comparison::AtMost => &bytes <= other,
                };
                if !holds {
                    return None;
                }
            }
            NftExpr::Verdict(verdict) => return Some(*verdict),
        }
    }
    None
}

fn nft_verdict(policy: &FirewallPolicy, packet: &Packet) -> Verdict {
    let mut chain_policy: Option<Verdict> = None;
    let mut rules: Vec<Vec<NftExpr>> = Vec::new();
    for message in policy_batch(policy) {
        match message {
            BatchMessage::AddTable => {}
            BatchMessage::AddChain { direction, policy } => {
                if direction == packet.direction {
                    chain_policy = Some(policy);
                }
            }
            BatchMessage::FlushChain(direction) => {
                if direction == packet.direction {
                    rules.clear();
                }
            }
            BatchMessage::AddRule {
                direction,
                expressions,
            } => {
                if direction == packet.direction {
                    rules.push(expressions);
                }
            }
        }
    }
    for expressions in &rules {
        if let Some(verdict) = nft_rule_verdict(packet, expressions) {
            return verdict;
        }
    }
    chain_policy.unwrap()
}

// ---- pf ----

fn names() -> Vec<InterfaceName> {
    vec![
        InterfaceName {
            index: 4,
            name: b"en0".to_vec(),
        },
        InterfaceName {
            index: 9,
            name: b"utun3".to_vec(),
        },
    ]
}

fn end_matches(end: &PfRuleAddr, address: &[u8; 4], port: u16) -> bool {
    let first = u16::from_be_bytes([end.xport.first.high, end.xport.first.low]);
    let second = u16::from_be_bytes([end.xport.second.high, end.xport.second.low]);
    let port_matches = match end.xport.op {
        pf::PF_OP_NONE => true,
        pf::PF_OP_EQ => port == first,
        pf::PF_OP_RRG => first <= port && port <= second,
        _ => false,
    };
    port_matches && (0..4).all(|i| address[i] & end.mask[i] == end.addr[i] & end.mask[i])
}

fn pf_rule_matches(rule: &PfRule, packet: &Packet) -> bool {
    let name = rule_interface_name(rule);
    let own = names()
        .into_iter()
        .find(|entry| entry.index == packet.interface)
        .unwrap()
        .name;
    (rule.direction == pf::PF_INOUT || rule.direction == pf_direction(packet.direction))
        && (name.is_empty() || name == own)
        && (rule.af == pf::AF_UNSPEC || rule.af == pf::AF_INET)
        && (rule.proto == 0 || rule.proto == packet.protocol)
        && end_matches(&rule.src, &packet.source, packet.source_port)
        && end_matches(&rule.dst, &packet.destination, packet.destination_port)
}

fn pf_verdict(policy: &FirewallPolicy, packet: &Packet) -> Verdict {
    let mut action: Option<u8> = None;
    for rule in policy_rules(policy, &names()) {
        if pf_rule_matches(&rule, packet) {
            action = Some(rule.action);
            if rule.quick != 0 {
                break;
            }
        }
    }
    if action == Some(pf::PF_PASS) {
        Verdict::Allow
    } else {
        Verdict::Deny
    }
}

// ---- the Windows Filtering Platform ----

fn identifiers() -> Vec<LuidLookup> {
    vec![
        LuidLookup {
            index: 4,
            result: Ok(0x4000),
        },
        LuidLookup {
            index: 9,
            result: Ok(0x9000),
        },
    ]
}

fn condition_met(condition: &Condition, packet: &Packet) -> bool {
    let (address, port) = packet.remote();
    match (condition.field, condition.value) {
        (ConditionField::LocalInterface, ConditionValue::Uint64(luid)) => {
            luid == u64::from(packet.interface) * 0x1000
        }
        (ConditionField::RemoteAddress, ConditionValue::V4AddrMask { addr, mask }) => {
            u32::from_be_bytes(address) & mask == addr & mask
        }
        (ConditionField::Protocol, ConditionValue::Uint8(number)) => number == packet.protocol,
        (ConditionField::RemotePort, ConditionValue::Uint16(number)) => number == port,
        (ConditionField::RemotePort, ConditionValue::Range { low, high }) => {
            low <= port && port <= high
        }
        _ => false,
    }
}

fn wfp_verdict(policy: &FirewallPolicy, packet: &Packet) -> Verdict {
    let mut filters: Vec<Filter> = Vec::new();
    for operation in plan_policy(policy, &identifiers()) {
        match operation {
            WfpOperation::FlushLayer { direction, is_v6 } => {
                if direction == packet.direction && !is_v6 {
                    filters.clear();
                }
            }
            WfpOperation::AddFilter {
                direction,
                is_v6,
                filter,
            } => {
                if direction == packet.direction && !is_v6 {
                    filters.push(filter);
                }
            }
            _ => {}
        }
    }
    let heaviest = filters
        .iter()
        .filter(|filter| {
            filter
                .conditions
                .iter()
                .all(|condition| condition_met(condition, packet))
        })
        .max_by_key(|filter| filter.weight)
        .unwrap();
    if heaviest.action == FilterAction::Permit {
        Verdict::Allow
    } else {
        Verdict::Deny
    }
}

// ---- policies ----

fn network(a: u8, b: u8, c: u8, d: u8, prefix: u8) -> Network {
    Network::V4(Ipv4Network::new(
        Ipv4Address::new(a, b, c, d),
        Ipv4PrefixLength::new(prefix).unwrap(),
    ))
}

/// Rules that overlap, so that their order matters.
fn overlapping_policy() -> FirewallPolicy {
    FirewallPolicy::new(Verdict::Deny)
        .with_rule(
            FirewallRule::new(Direction::Outbound, Verdict::Deny)
                .with_remote(network(198, 51, 100, 64, 26))
                .with_protocol(Protocol::Tcp)
                .with_port(PortRange::new(1000, 2000)),
        )
        .with_rule(
            FirewallRule::new(Direction::Outbound, Verdict::Allow)
                .with_remote(network(198, 51, 100, 0, 24)),
        )
        .with_rule(
            FirewallRule::new(Direction::Inbound, Verdict::Allow)
                .with_protocol(Protocol::Udp)
                .with_port(PortRange::single(53)),
        )
        .with_rule(
            FirewallRule::new(Direction::Outbound, Verdict::Allow).with_interface_index(9),
        )
        .with_rule(
            FirewallRule::new(Direction::Outbound, Verdict::Deny).with_protocol(Protocol::Icmp),
        )
}

fn packet(direction: Direction, interface: u32, protocol: u8, remote: [u8; 4], port: u16) -> Packet {
    let local = [10, 0, 0, 1];
    match direction {
        Direction::Inbound => Packet {
            direction,
            interface,
            protocol,
            source: remote,
            destination: local,
            source_port: port,
            destination_port: 40000,
        },
        _ => Packet {
            direction,
            interface,
            protocol,
            source: local,
            destination: remote,
            source_port: 40000,
            destination_port: port,
        },
    }
}

fn expect_everywhere(policy: &FirewallPolicy, packet: Packet, expected: Verdict) {
    assert_eq!(nft_verdict(policy, &packet), expected);
    assert_eq!(pf_verdict(policy, &packet), expected);
    assert_eq!(wfp_verdict(policy, &packet), expected);
}

#[test]
fn the_first_rule_that_describes_a_packet_decides_on_every_platform() {
    let policy = overlapping_policy();
    let out = Direction::Outbound;
    let inward = Direction::Inbound;

    // The narrower rule comes first and wins; beside it the wider one does.
    expect_everywhere(&policy, packet(out, 4, 6, [198, 51, 100, 65], 1000), Verdict::Deny);
    expect_everywhere(&policy, packet(out, 4, 6, [198, 51, 100, 65], 2000), Verdict::Deny);
    expect_everywhere(&policy, packet(out, 4, 6, [198, 51, 100, 65], 2001), Verdict::Allow);
    expect_everywhere(&policy, packet(out, 4, 17, [198, 51, 100, 65], 1500), Verdict::Allow);
    expect_everywhere(&policy, packet(out, 4, 6, [198, 51, 100, 63], 1500), Verdict::Allow);

    // The remote port is the source port of inbound traffic.
    expect_everywhere(&policy, packet(inward, 4, 17, [203, 0, 113, 1], 53), Verdict::Allow);
    expect_everywhere(&policy, packet(inward, 4, 17, [203, 0, 113, 1], 54), Verdict::Deny);
    expect_everywhere(&policy, packet(inward, 4, 6, [203, 0, 113, 1], 53), Verdict::Deny);

    // A rule for an interface, before one for a protocol.
    expect_everywhere(&policy, packet(out, 9, 1, [203, 0, 113, 1], 0), Verdict::Allow);
    expect_everywhere(&policy, packet(out, 4, 1, [203, 0, 113, 1], 0), Verdict::Deny);

    // Nothing describes it.
    expect_everywhere(&policy, packet(out, 4, 6, [203, 0, 113, 1], 443), Verdict::Deny);
    expect_everywhere(&policy, packet(inward, 9, 6, [198, 51, 100, 1], 443), Verdict::Deny);
}

#[test]
fn a_policy_without_rules_is_its_default_verdict_on_every_platform() {
    for verdict in [Verdict::Allow, Verdict::Deny] {
        let policy = FirewallPolicy::new(verdict);
        for direction in [Direction::Inbound, Direction::Outbound] {
            expect_everywhere(&policy, packet(direction, 4, 6, [203, 0, 113, 1], 443), verdict);
        }
    }
}
