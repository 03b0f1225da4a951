//! The macOS firewall: how a policy becomes the rules of one `pf` anchor, and how rules are
//! read back.
//!
//! Every rule is a `quick` rule, so that the first match wins, and the policy's default verdict
//! is one more `quick` rule at the end that matches everything. The rules of an anchor form one
//! list, so reading them back keeps their order.

use crate::address::network_is_its_parts;
use crate::address::IpAddress;
use crate::address::Network;
use crate::error::PlatformErrorCode;
use crate::firewall::number_of_protocol;
use crate::firewall::protocol_number;
use crate::firewall::Direction;
use crate::firewall::FirewallPolicy;
use crate::firewall::FirewallRule;
use crate::firewall::Policy;
use crate::firewall::PortRange;
use crate::firewall::Protocol;
use crate::firewall::Verdict;
use crate::firewall::IPPROTO_ICMP;
use crate::firewall::IPPROTO_ICMPV6;
use crate::firewall::IPPROTO_TCP;
use crate::firewall::IPPROTO_UDP;
use crate::gather::earliest;
use crate::gather::gathered;
use crate::gather::lemma_gathered_congruent;
use crate::gather::lemma_gathered_singles;
use crate::gather::lemma_pick_take;
use crate::gather::optional;
use crate::ipv4::ipv4_is_its_octets;
use crate::ipv4::ipv4_network_is_its_parts;
use crate::ipv4::Ipv4Address;
use crate::ipv4::Ipv4Network;
use crate::ipv6::ipv6_is_its_octets;
use crate::ipv6::ipv6_network_is_its_parts;
use crate::ipv6::Ipv6Address;
use crate::ipv6::Ipv6Network;
use crate::mask::count_leading_ones;
use crate::mask::ipv4_prefix_mask;
use crate::mask::ipv6_prefix_mask;
use crate::mask::leading_ones;
use crate::mask::leading_ones_end_at_the_first_zero;
use crate::mask::mask_counts_back_to_its_prefix;
use crate::mask::prefix_mask;
use crate::nft::zeros;
use crate::prefix::prefix_is_its_length;
use crate::prefix::Ipv4PrefixLength;
use crate::prefix::Ipv6PrefixLength;
use crate::traffic::address_width;
use crate::traffic::control_by_remote;
use crate::traffic::describes;
use crate::traffic::describing;
use crate::traffic::in_network;
use crate::traffic::mask_of;
use crate::traffic::masked;
use crate::traffic::octets_of;
use crate::traffic::policy_verdict;
use crate::traffic::Packet;
use vstd::prelude::*;

verus! {

/// The direction number of a rule for both directions.
pub const PF_INOUT: u8 = 0;

/// The direction number of a rule for inbound traffic.
pub const PF_IN: u8 = 1;

/// The direction number of a rule for outbound traffic.
pub const PF_OUT: u8 = 2;

/// The action number of a rule that lets traffic pass.
pub const PF_PASS: u8 = 0;

/// The action number of a rule that drops traffic.
pub const PF_DROP: u8 = 1;

/// The kind of an address with a mask.
pub const PF_ADDR_ADDRMASK: u8 = 0;

/// The port operator that matches every port.
pub const PF_OP_NONE: u8 = 0;

/// The port operator that matches one port.
pub const PF_OP_EQ: u8 = 2;

/// The port operator that matches a range, ends included.
pub const PF_OP_RRG: u8 = 9;

/// The number of no address family.
pub const AF_UNSPEC: u8 = 0;

/// The number of the IPv4 address family.
pub const AF_INET: u8 = 2;

/// The number of the IPv6 address family.
pub const AF_INET6: u8 = 30;

/// How many bytes an interface name takes, the final zero included.
pub const IFNAMSIZ: usize = 16;

/// How many bytes an anchor path takes.
pub const MAXPATHLEN: usize = 1024;

// ---- request codes ----

/// The code of a request that passes `len` bytes in and out: the two direction bits, the low
/// bits of the length, the group and the number, each in its place.
pub open spec fn request_code(group: u8, num: u8, len: int) -> int {
    0xc000_0000 + (len % 0x2000) * 0x1_0000 + group * 0x100 + num
}

/// Returns the code of a request that passes `len` bytes in and out.
pub fn iowr(group: u8, num: u8, len: usize) -> (code: u64)
    ensures
        code == request_code(group, num, len as int),
{
    0xc000_0000u64 + (len % 0x2000) as u64 * 0x1_0000 + group as u64 * 0x100 + num as u64
}

/// Returns the platform code of an I/O error, given its raw code if it has one.
pub fn darwin_error_code(raw: Option<i32>) -> (code: PlatformErrorCode)
    ensures
        code == PlatformErrorCode::Darwin(
            match raw {
                Some(number) => number,
                None => 0,
            },
        ),
{
    match raw {
        Some(number) => PlatformErrorCode::Darwin(number),
        None => PlatformErrorCode::Darwin(0),
    }
}

/// The name of the anchor.
pub open spec fn anchor_name() -> Seq<u8> {
    seq![110u8, 101, 116, 95, 108, 97, 116, 116, 105, 99, 101]
}

/// Bytes followed by as many zeros as it takes.
pub open spec fn padded(bytes: Seq<u8>, width: nat) -> Seq<u8> {
    Seq::new(
        width,
        |i: int|
            if i < bytes.len() {
                bytes[i]
            } else {
                0u8
            },
    )
}

/// Returns the anchor's name, padded with zeros to the length of a path.
pub fn anchor_bytes() -> (bytes: Vec<u8>)
    ensures
        bytes@ == padded(anchor_name(), MAXPATHLEN as nat),
{
    let mut bytes: Vec<u8> = vec![110, 101, 116, 95, 108, 97, 116, 116, 105, 99, 101];
    let ghost all = padded(anchor_name(), MAXPATHLEN as nat);
    assert(bytes@ =~= all.take(11));
    while bytes.len() < MAXPATHLEN
        invariant
            11 <= bytes.len() <= MAXPATHLEN,
            all == padded(anchor_name(), MAXPATHLEN as nat),
            bytes@ == all.take(bytes@.len() as int),
        decreases MAXPATHLEN - bytes.len(),
    {
        bytes.push(0);
        assert(bytes@ =~= all.take(bytes@.len() as int));
    }
    assert(all.take(MAXPATHLEN as int) =~= all);
    bytes
}

// ---- rules ----

/// The two bytes of a port, as they stand on the wire.
#[derive(Debug, Clone, Copy, PartialEq, Eq, Structural)]
pub struct PortBytes {
    /// The more significant byte.
    pub high: u8,
    /// The less significant byte.
    pub low: u8,
}

/// The ports that one end of a rule matches.
#[derive(Debug, Clone, Copy, PartialEq, Eq, Structural)]
pub struct PfXport {
    /// The one port, or the first of a range.
    pub first: PortBytes,
    /// The last port of a range.
    pub second: PortBytes,
    /// How ports are matched.
    pub op: u8,
}

/// One end of a rule: an address with a mask, and ports.
#[derive(Debug, Clone, Copy, PartialEq, Eq)]
pub struct PfRuleAddr {
    /// The address; IPv4 takes the first four bytes.
    pub addr: [u8; 16],
    /// The mask; IPv4 takes the first four bytes.
    pub mask: [u8; 16],
    /// What kind of address it is.
    pub kind: u8,
    /// The ports.
    pub xport: PfXport,
}

/// A rule of an anchor, as far as this module sets and reads it.
#[derive(Debug, Clone, Copy, PartialEq, Eq)]
pub struct PfRule {
    /// The source end.
    pub src: PfRuleAddr,
    /// The destination end.
    pub dst: PfRuleAddr,
    /// The interface's name, padded with zeros; no name for every interface.
    pub ifname: [u8; 16],
    /// What happens to traffic that matches.
    pub action: u8,
    /// The traffic's direction.
    pub direction: u8,
    /// Whether a match ends the evaluation.
    pub quick: u8,
    /// The address family; none for both.
    pub af: u8,
    /// The transport protocol's number; zero for every protocol.
    pub proto: u8,
}

/// What one end of a rule says.
#[verifier::ext_equal]
pub struct End {
    /// The address.
    pub addr: Seq<u8>,
    /// The mask.
    pub mask: Seq<u8>,
    /// What kind of address it is.
    pub kind: u8,
    /// The ports.
    pub xport: PfXport,
}

/// What a rule says.
#[verifier::ext_equal]
pub struct RuleModel {
    /// The source end.
    pub src: End,
    /// The destination end.
    pub dst: End,
    /// The interface's name.
    pub ifname: Seq<u8>,
    /// What happens to traffic that matches.
    pub action: u8,
    /// The traffic's direction.
    pub direction: u8,
    /// Whether a match ends the evaluation.
    pub quick: u8,
    /// The address family.
    pub af: u8,
    /// The transport protocol's number.
    pub proto: u8,
}

impl View for PfRuleAddr {
    type V = End;

    open spec fn view(&self) -> End {
        End { addr: self.addr@, mask: self.mask@, kind: self.kind, xport: self.xport }
    }
}

impl View for PfRule {
    type V = RuleModel;

    open spec fn view(&self) -> RuleModel {
        RuleModel {
            src: self.src@,
            dst: self.dst@,
            ifname: self.ifname@,
            action: self.action,
            direction: self.direction,
            quick: self.quick,
            af: self.af,
            proto: self.proto,
        }
    }
}

/// The two bytes of a port.
pub open spec fn wire_port(port: u16) -> PortBytes {
    PortBytes { high: (port / 256) as u8, low: (port % 256) as u8 }
}

/// The port that two bytes stand for.
pub open spec fn port_of(bytes: PortBytes) -> u16 {
    (bytes.high * 256 + bytes.low) as u16
}

/// Ports that match every port.
pub open spec fn no_ports() -> PfXport {
    PfXport {
        first: PortBytes { high: 0, low: 0 },
        second: PortBytes { high: 0, low: 0 },
        op: PF_OP_NONE,
    }
}

/// The ports of a range. A single port is matched as such.
pub open spec fn ports_of(range: PortRange) -> PfXport {
    if range.start == range.end {
        PfXport {
            first: wire_port(range.start),
            second: PortBytes { high: 0, low: 0 },
            op: PF_OP_EQ,
        }
    } else {
        PfXport { first: wire_port(range.start), second: wire_port(range.end), op: PF_OP_RRG }
    }
}

/// An end that matches every address and port.
pub open spec fn any_end() -> End {
    End { addr: zeros(16), mask: zeros(16), kind: PF_ADDR_ADDRMASK, xport: no_ports() }
}

/// The end that matches a remote network, or every address if there is none.
pub open spec fn end_of(remote: Option<Network>) -> End {
    match remote {
        None => any_end(),
        Some(network) => End {
            addr: padded(octets_of(network.address()), 16),
            mask: padded(prefix_mask(network.prefix_bits() as int, address_width(network)), 16),
            kind: PF_ADDR_ADDRMASK,
            xport: no_ports(),
        },
    }
}

/// The action number of a verdict.
pub open spec fn action_of(verdict: Verdict) -> u8 {
    match verdict {
        Verdict::Allow => PF_PASS,
        Verdict::Deny => PF_DROP,
    }
}

/// The direction number of a direction.
pub open spec fn direction_of(direction: Direction) -> u8 {
    match direction {
        Direction::Inbound => PF_IN,
        Direction::Outbound => PF_OUT,
    }
}

/// The family number of a remote network.
pub open spec fn family_number(remote: Option<Network>) -> u8 {
    match remote {
        Some(Network::V4(_)) => AF_INET,
        Some(Network::V6(_)) => AF_INET6,
        None => AF_UNSPEC,
    }
}

/// The field that holds an interface name: cut to leave a final zero, and padded.
pub open spec fn name_field(name: Option<Seq<u8>>) -> Seq<u8> {
    match name {
        None => zeros(16),
        Some(bytes) => padded(
            if bytes.len() > 15 {
                bytes.take(15)
            } else {
                bytes
            },
            16,
        ),
    }
}

/// The remote end of a rule: the network and the ports that have an effect.
pub open spec fn remote_end(rule: FirewallRule) -> End {
    End {
        xport: match rule.effective_port() {
            Some(range) => ports_of(range),
            None => no_ports(),
        },
        ..end_of(rule.remote)
    }
}

/// The `pf` rule for a rule, given the name of its interface if that is known. The remote end
/// is the source of inbound traffic and the destination of outbound traffic.
pub open spec fn compiled(rule: FirewallRule, name: Option<Seq<u8>>) -> RuleModel {
    RuleModel {
        src: if rule.direction == Direction::Inbound {
            remote_end(rule)
        } else {
            any_end()
        },
        dst: if rule.direction == Direction::Outbound {
            remote_end(rule)
        } else {
            any_end()
        },
        ifname: name_field(
            if rule.interface_index is Some {
                name
            } else {
                None
            },
        ),
        action: action_of(rule.verdict),
        direction: direction_of(rule.direction),
        quick: 1,
        af: family_number(rule.remote),
        proto: match rule.protocol {
            Some(protocol) => number_of_protocol(protocol, rule.remote),
            None => 0,
        },
    }
}

/// What a policy falls back to: it matches everything.
pub open spec fn catch_all(verdict: Verdict) -> RuleModel {
    RuleModel {
        src: any_end(),
        dst: any_end(),
        ifname: zeros(16),
        action: action_of(verdict),
        direction: PF_INOUT,
        quick: 1,
        af: AF_UNSPEC,
        proto: 0,
    }
}

/// The text that a view of an optional row is.
pub open spec fn optional_row(row: Option<Vec<u8>>) -> Option<Seq<u8>> {
    match row {
        Some(bytes) => Some(bytes@),
        None => None,
    }
}

/// Returns the action number of a verdict.
pub fn pf_action(verdict: Verdict) -> (action: u8)
    ensures
        action == action_of(verdict),
{
    match verdict {
        Verdict::Allow => PF_PASS,
        Verdict::Deny => PF_DROP,
    }
}

/// Returns the direction number of a direction.
pub fn pf_direction(direction: Direction) -> (number: u8)
    ensures
        number == direction_of(direction),
{
    match direction {
        Direction::Inbound => PF_IN,
        Direction::Outbound => PF_OUT,
    }
}

/// Returns the family number of a remote network.
pub fn address_family(remote: Option<&Network>) -> (number: u8)
    ensures
        number == family_number(
            match remote {
                Some(network) => Some(*network),
                None => None,
            },
        ),
{
    match remote {
        Some(Network::V4(_)) => AF_INET,
        Some(Network::V6(_)) => AF_INET6,
        None => AF_UNSPEC,
    }
}

/// Returns sixteen zeros.
fn sixteen_zeros() -> (bytes: [u8; 16])
    ensures
        bytes@ == zeros(16),
{
    let bytes = [0u8, 0, 0, 0, 0, 0, 0, 0, 0, 0, 0, 0, 0, 0, 0, 0];
    assert(bytes@ =~= zeros(16));
    bytes
}

/// Returns an end that matches every address and port.
fn any_rule_addr() -> (end: PfRuleAddr)
    ensures
        end@ == any_end(),
{
    PfRuleAddr {
        addr: sixteen_zeros(),
        mask: sixteen_zeros(),
        kind: PF_ADDR_ADDRMASK,
        xport: PfXport {
            first: PortBytes { high: 0, low: 0 },
            second: PortBytes { high: 0, low: 0 },
            op: PF_OP_NONE,
        },
    }
}

/// Returns sixteen bytes that begin with four given ones.
fn four_padded(bytes: &[u8; 4]) -> (row: [u8; 16])
    ensures
        row@ == padded(bytes@, 16),
{
    let row = [
        bytes[0],
        bytes[1],
        bytes[2],
        bytes[3],
        0u8,
        0,
        0,
        0,
        0,
        0,
        0,
        0,
        0,
        0,
        0,
        0,
    ];
    assert(row@ =~= padded(bytes@, 16));
    row
}

/// Returns the end that matches a remote network.
fn pf_rule_addr_for(remote: Network) -> (end: PfRuleAddr)
    ensures
        end@ == end_of(Some(remote)),
{
    let mut end = any_rule_addr();
    match remote {
        Network::V4(network) => {
            end.addr = four_padded(&network.address().octets());
            end.mask = four_padded(&ipv4_prefix_mask(network.prefix().value() as u32));
        },
        Network::V6(network) => {
            end.addr = network.address().octets();
            end.mask = ipv6_prefix_mask(network.prefix().value() as u32);
            assert(end.addr@ =~= padded(octets_of(remote.address()), 16));
            assert(end.mask@ =~= padded(prefix_mask(remote.prefix_bits() as int, 16), 16));
        },
    }
    end
}

/// Returns the two bytes of a port.
fn port_to_wire(port: u16) -> (bytes: PortBytes)
    ensures
        bytes == wire_port(port),
{
    PortBytes { high: (port / 256) as u8, low: (port % 256) as u8 }
}

/// Returns the port that two bytes stand for.
fn port_from_wire(bytes: PortBytes) -> (port: u16)
    ensures
        port == port_of(bytes),
{
    bytes.high as u16 * 256 + bytes.low as u16
}

/// Sets the ports of a range, in the order of the wire.
pub fn set_port_xport(xport: &mut PfXport, start: u16, end: u16)
    ensures
        *final(xport) == ports_of(PortRange { start, end }),
{
    if start == end {
        *xport =
        PfXport {
            first: port_to_wire(start),
            second: PortBytes { high: 0, low: 0 },
            op: PF_OP_EQ,
        };
    } else {
        *xport = PfXport { first: port_to_wire(start), second: port_to_wire(end), op: PF_OP_RRG };
    }
}

/// Returns the field that holds an interface name.
fn ifname_field(name: &Option<Vec<u8>>) -> (field: [u8; 16])
    ensures
        field@ == name_field(optional_row(*name)),
{
    let mut field = sixteen_zeros();
    if let Some(bytes) = name {
        let length: usize = if bytes.len() > 15 {
            15
        } else {
            bytes.len()
        };
        let ghost kept = if bytes@.len() > 15 {
            bytes@.take(15)
        } else {
            bytes@
        };
        let mut i: usize = 0;
        while i < length
            invariant
                i <= length <= 15,
                length <= bytes.len(),
                kept == (if bytes@.len() > 15 {
                    bytes@.take(15)
                } else {
                    bytes@
                }),
                length == kept.len(),
                field@.len() == 16,
                forall|k: int|
                    0 <= k < 16 ==> #[trigger] field@[k] == (if k < i {
                        kept[k]
                    } else {
                        0u8
                    }),
            decreases length - i,
        {
            field[i] = bytes[i];
            i = i + 1;
        }
        assert(field@ =~= padded(kept, 16));
    }
    field
}

/// Compiles a rule, given the name of its interface if it has one that is known.
pub fn build_pf_rule(config: &FirewallRule, name: &Option<Vec<u8>>) -> (rule: PfRule)
    ensures
        rule@ == compiled(*config, optional_row(*name)),
{
    let ifname = if config.interface_index.is_some() {
        ifname_field(name)
    } else {
        sixteen_zeros()
    };
    let mut remote = match config.remote {
        Some(network) => pf_rule_addr_for(network),
        None => any_rule_addr(),
    };
    let mut proto: u8 = 0;
    if let Some(protocol) = config.protocol {
        proto = protocol_number(protocol, config.remote.as_ref());
        if let Some(port) = config.port {
            if matches!(protocol, Protocol::Tcp) || matches!(protocol, Protocol::Udp) {
                let mut xport = remote.xport;
                set_port_xport(&mut xport, port.start, port.end);
                remote.xport = xport;
            }
        }
    }
    assert(remote@ =~= remote_end(*config));
    let (src, dst) = match config.direction {
        Direction::Inbound => (remote, any_rule_addr()),
        Direction::Outbound => (any_rule_addr(), remote),
    };
    PfRule {
        src,
        dst,
        ifname,
        action: pf_action(config.verdict),
        direction: pf_direction(config.direction),
        quick: 1,
        af: address_family(config.remote.as_ref()),
        proto,
    }
}

/// Returns the rule that realizes a default verdict.
pub fn default_rule(verdict: Verdict) -> (rule: PfRule)
    ensures
        rule@ == catch_all(verdict),
{
    PfRule {
        src: any_rule_addr(),
        dst: any_rule_addr(),
        ifname: sixteen_zeros(),
        action: pf_action(verdict),
        direction: PF_INOUT,
        quick: 1,
        af: AF_UNSPEC,
        proto: 0,
    }
}

// ---- reading rules back ----

/// The range that ports stand for, where this module has written them.
pub open spec fn range_in(xport: PfXport) -> Option<PortRange> {
    if xport.op == PF_OP_EQ {
        Some(PortRange { start: port_of(xport.first), end: port_of(xport.first) })
    } else if xport.op == PF_OP_RRG {
        Some(PortRange { start: port_of(xport.first), end: port_of(xport.second) })
    } else {
        None
    }
}

/// The network that an end stands for. The family tells whether there is one at all.
pub open spec fn network_in(end: End, af: u8) -> Option<Network> {
    if af == AF_INET {
        Network::of_parts(
            IpAddress::V4(Ipv4Address::of(end.addr.take(4))),
            leading_ones(end.mask.take(4)) as u8,
        )
    } else if af == AF_INET6 {
        Network::of_parts(
            IpAddress::V6(Ipv6Address::of_bytes(end.addr)),
            leading_ones(end.mask) as u8,
        )
    } else {
        None
    }
}

/// The protocol with a given number.
pub open spec fn protocol_in(number: u8) -> Option<Protocol> {
    if number == IPPROTO_TCP {
        Some(Protocol::Tcp)
    } else if number == IPPROTO_UDP {
        Some(Protocol::Udp)
    } else if number == IPPROTO_ICMP || number == IPPROTO_ICMPV6 {
        Some(Protocol::Icmp)
    } else {
        None
    }
}

/// The direction with a given number.
pub open spec fn direction_in(number: u8) -> Option<Direction> {
    if number == PF_IN {
        Some(Direction::Inbound)
    } else if number == PF_OUT {
        Some(Direction::Outbound)
    } else {
        None
    }
}

/// The verdict with a given action number.
pub open spec fn verdict_in(number: u8) -> Option<Verdict> {
    if number == PF_PASS {
        Some(Verdict::Allow)
    } else if number == PF_DROP {
        Some(Verdict::Deny)
    } else {
        None
    }
}

/// The rule that a `pf` rule stands for, given the index of the interface that it names; zero
/// where there is no such interface. A rule for both directions, or with an unknown action,
/// stands for none.
pub open spec fn decoded(rule: RuleModel, index: u32) -> Option<FirewallRule> {
    match (direction_in(rule.direction), verdict_in(rule.action)) {
        (Some(direction), Some(verdict)) => {
            let remote_side = match direction {
                Direction::Inbound => rule.src,
                Direction::Outbound => rule.dst,
            };
            Some(
                FirewallRule {
                    direction,
                    interface_index: if rule.ifname[0] != 0 && index != 0 {
                        Some(index)
                    } else {
                        None
                    },
                    remote: network_in(remote_side, rule.af),
                    protocol: protocol_in(rule.proto),
                    port: if protocol_in(rule.proto) is Some {
                        range_in(remote_side.xport)
                    } else {
                        None
                    },
                    verdict,
                },
            )
        },
        _ => None,
    }
}

/// Reads the range that ports stand for.
pub fn decode_port_range(xport: &PfXport) -> (range: Option<PortRange>)
    ensures
        range == range_in(*xport),
{
    if xport.op == PF_OP_EQ {
        Some(PortRange::single(port_from_wire(xport.first)))
    } else if xport.op == PF_OP_RRG {
        Some(PortRange::new(port_from_wire(xport.first), port_from_wire(xport.second)))
    } else {
        None
    }
}

/// Reads the network that an end stands for.
pub fn decode_remote(end: &PfRuleAddr, af: u8) -> (network: Option<Network>)
    ensures
        network == network_in(end@, af),
{
    if af == AF_INET {
        let octets = [end.addr[0], end.addr[1], end.addr[2], end.addr[3]];
        assert(octets@ =~= end@.addr.take(4));
        let mask = vec![end.mask[0], end.mask[1], end.mask[2], end.mask[3]];
        assert(mask@ =~= end@.mask.take(4));
        Network::from_parts(
            IpAddress::V4(Ipv4Address::from_octets(octets)),
            count_leading_ones(&mask),
        )
    } else if af == AF_INET6 {
        let mut mask: Vec<u8> = Vec::new();
        let mut i: usize = 0;
        while i < 16
            invariant
                i <= 16,
                end.mask@.len() == 16,
                mask@ == end.mask@.take(i as int),
            decreases 16 - i,
        {
            mask.push(end.mask[i]);
            i = i + 1;
            assert(mask@ =~= end.mask@.take(i as int));
        }
        assert(end.mask@.take(16) =~= end.mask@);
        Network::from_parts(
            IpAddress::V6(Ipv6Address::from_octets(end.addr)),
            count_leading_ones(&mask),
        )
    } else {
        None
    }
}

/// Reads the protocol with a given number.
pub fn protocol_from_number(number: u8) -> (protocol: Option<Protocol>)
    ensures
        protocol == protocol_in(number),
{
    if number == IPPROTO_TCP {
        Some(Protocol::Tcp)
    } else if number == IPPROTO_UDP {
        Some(Protocol::Udp)
    } else if number == IPPROTO_ICMP || number == IPPROTO_ICMPV6 {
        Some(Protocol::Icmp)
    } else {
        None
    }
}

/// Reads the rule that a `pf` rule stands for, given the index of the interface that it names;
/// zero where there is no such interface.
pub fn decode_pf_rule(rule: &PfRule, index: u32) -> (decoded_rule: Option<FirewallRule>)
    ensures
        decoded_rule == decoded(rule@, index),
{
    let direction = if rule.direction == PF_IN {
        Direction::Inbound
    } else if rule.direction == PF_OUT {
        Direction::Outbound
    } else {
        return None;
    };
    let verdict = if rule.action == PF_PASS {
        Verdict::Allow
    } else if rule.action == PF_DROP {
        Verdict::Deny
    } else {
        return None;
    };
    let interface_index = if rule.ifname[0] != 0 && index != 0 {
        Some(index)
    } else {
        None
    };
    let remote_side = match direction {
        Direction::Inbound => &rule.src,
        Direction::Outbound => &rule.dst,
    };
    let remote = decode_remote(remote_side, rule.af);
    let protocol = protocol_from_number(rule.proto);
    let port = if protocol.is_some() {
        decode_port_range(&remote_side.xport)
    } else {
        None
    };
    Some(FirewallRule { direction, interface_index, remote, protocol, port, verdict })
}

// ---- interface names ----

/// The bytes of a row before its first zero. A row without a zero holds no name.
pub open spec fn name_in(row: Seq<u8>) -> Seq<u8> {
    match first_zero(row, 0) {
        Some(end) => row.take(end),
        None => Seq::empty(),
    }
}

/// Where the first zero at or after `from` stands.
pub open spec fn first_zero(row: Seq<u8>, from: int) -> Option<int>
    decreases row.len() - from,
{
    if from < 0 || from >= row.len() {
        None
    } else if row[from] == 0 {
        Some(from)
    } else {
        first_zero(row, from + 1)
    }
}

/// Reads the name that a zero-terminated row holds.
pub fn name_of_row(row: &Vec<u8>) -> (name: Vec<u8>)
    ensures
        name@ == name_in(row@),
{
    let mut name: Vec<u8> = Vec::new();
    let mut i: usize = 0;
    assert(row@.take(0) =~= Seq::empty());
    while i < row.len()
        invariant
            i <= row.len(),
            name@ == row@.take(i as int),
            first_zero(row@, 0) == first_zero(row@, i as int),
        decreases row.len() - i,
    {
        if row[i] == 0 {
            return name;
        }
        name.push(row[i]);
        i = i + 1;
        assert(name@ =~= row@.take(i as int));
    }
    Vec::new()
}

/// Returns the name in a rule's interface field.
pub fn rule_interface_name(rule: &PfRule) -> (name: Vec<u8>)
    ensures
        name@ == name_in(rule@.ifname),
{
    let mut row: Vec<u8> = Vec::new();
    let mut i: usize = 0;
    while i < 16
        invariant
            i <= 16,
            rule.ifname@.len() == 16,
            row@ == rule.ifname@.take(i as int),
        decreases 16 - i,
    {
        row.push(rule.ifname[i]);
        i = i + 1;
        assert(row@ =~= rule.ifname@.take(i as int));
    }
    assert(rule.ifname@.take(16) =~= rule.ifname@);
    name_of_row(&row)
}

/// An interface's index beside its name.
#[derive(Debug, Clone, PartialEq, Eq)]
pub struct InterfaceName {
    /// The index.
    pub index: u32,
    /// The name, without a final zero.
    pub name: Vec<u8>,
}

/// The name of the first listed interface with a given index.
pub open spec fn name_of(table: Seq<InterfaceName>, index: u32) -> Option<Seq<u8>>
    decreases table.len(),
{
    if table.len() == 0 {
        None
    } else if table[0].index == index {
        Some(table[0].name@)
    } else {
        name_of(table.skip(1), index)
    }
}

/// The index of the first listed interface with a given name; zero if there is none.
pub open spec fn index_named(table: Seq<InterfaceName>, name: Seq<u8>) -> u32
    decreases table.len(),
{
    if table.len() == 0 {
        0
    } else if table[0].name@ == name {
        table[0].index
    } else {
        index_named(table.skip(1), name)
    }
}

/// Whether two rows hold the same bytes.
fn same_bytes(left: &Vec<u8>, right: &Vec<u8>) -> (same: bool)
    ensures
        same == (left@ == right@),
{
    if left.len() != right.len() {
        return false;
    }
    let mut i: usize = 0;
    while i < left.len()
        invariant
            i <= left.len() == right.len(),
            forall|k: int| 0 <= k < i ==> left@[k] == right@[k],
        decreases left.len() - i,
    {
        if left[i] != right[i] {
            return false;
        }
        i = i + 1;
    }
    assert(left@ =~= right@);
    true
}

/// Copies a row of bytes.
fn copy_bytes(row: &Vec<u8>) -> (copy: Vec<u8>)
    ensures
        copy@ == row@,
{
    let mut copy: Vec<u8> = Vec::new();
    let mut i: usize = 0;
    while i < row.len()
        invariant
            i <= row.len(),
            copy@ == row@.take(i as int),
        decreases row.len() - i,
    {
        copy.push(row[i]);
        i = i + 1;
        assert(copy@ =~= row@.take(i as int));
    }
    assert(row@.take(i as int) =~= row@);
    copy
}

/// Finds the name of the first listed interface with a given index.
fn find_name(table: &Vec<InterfaceName>, index: u32) -> (name: Option<Vec<u8>>)
    ensures
        optional_row(name) == name_of(table@, index),
{
    let mut i: usize = 0;
    assert(table@.skip(0) =~= table@);
    while i < table.len()
        invariant
            i <= table.len(),
            name_of(table@, index) == name_of(table@.skip(i as int), index),
        decreases table.len() - i,
    {
        proof {
            assert(table@.skip(i as int)[0] == table@[i as int]);
            assert(table@.skip(i as int).skip(1) =~= table@.skip(i + 1));
        }
        if table[i].index == index {
            return Some(copy_bytes(&table[i].name));
        }
        i = i + 1;
    }
    None
}

/// Finds the index of the first listed interface with a given name; zero if there is none.
fn find_index(table: &Vec<InterfaceName>, name: &Vec<u8>) -> (index: u32)
    ensures
        index == index_named(table@, name@),
{
    let mut i: usize = 0;
    assert(table@.skip(0) =~= table@);
    while i < table.len()
        invariant
            i <= table.len(),
            index_named(table@, name@) == index_named(table@.skip(i as int), name@),
        decreases table.len() - i,
    {
        proof {
            assert(table@.skip(i as int)[0] == table@[i as int]);
            assert(table@.skip(i as int).skip(1) =~= table@.skip(i + 1));
        }
        if same_bytes(&table[i].name, name) {
            return table[i].index;
        }
        i = i + 1;
    }
    0
}

// ---- whole policies ----

/// What a list of rules says.
pub open spec fn models(list: Seq<PfRule>) -> Seq<RuleModel> {
    list.map_values(|rule: PfRule| rule@)
}

/// The name of a rule's interface, if it has one and that is listed.
pub open spec fn rule_name(table: Seq<InterfaceName>, rule: FirewallRule) -> Option<Seq<u8>> {
    match rule.interface_index {
        Some(index) => name_of(table, index),
        None => None,
    }
}

/// The anchor's rules for a policy: its rules in order, then the one for its default verdict.
pub open spec fn anchor_of(policy: Policy, table: Seq<InterfaceName>) -> Seq<RuleModel> {
    policy.rules.map_values(
        |rule: FirewallRule| compiled(rule, rule_name(table, rule)),
    ).push(catch_all(policy.default_verdict))
}

/// Compiles a policy to the anchor's rules, given the interfaces' names.
pub fn policy_rules(policy: &FirewallPolicy, table: &Vec<InterfaceName>) -> (list: Vec<PfRule>)
    ensures
        models(list@) == anchor_of(policy@, table@),
{
    let ghost all = anchor_of(policy@, table@);
    let mut list: Vec<PfRule> = Vec::new();
    let mut i: usize = 0;
    assert(models(list@) =~= all.take(0));
    while i < policy.rules.len()
        invariant
            i <= policy.rules.len(),
            all == anchor_of(policy@, table@),
            models(list@) == all.take(i as int),
        decreases policy.rules.len() - i,
    {
        let ghost before = list@;
        let name = match policy.rules[i].interface_index {
            Some(index) => find_name(table, index),
            None => None,
        };
        let rule = build_pf_rule(&policy.rules[i], &name);
        list.push(rule);
        proof {
            assert(models(list@) =~= models(before).push(rule@));
            assert(all[i as int] == rule@);
        }
        i = i + 1;
        assert(models(list@) =~= all.take(i as int));
    }
    let ghost before = list@;
    let last = default_rule(policy.default_verdict);
    list.push(last);
    proof {
        assert(models(list@) =~= models(before).push(last@));
        assert(all[i as int] == last@);
        assert(models(list@) =~= all);
    }
    list
}

/// Picks the rule that the `i`-th rule of an anchor stands for, if any.
pub open spec fn rule_read(list: Seq<RuleModel>, table: Seq<InterfaceName>) -> spec_fn(int) -> Seq<
    FirewallRule,
> {
    |i: int| optional(decoded(list[i], index_named(table, name_in(list[i].ifname))))
}

/// The rules that an anchor's rules stand for, in order.
pub open spec fn rules_read(list: Seq<RuleModel>, table: Seq<InterfaceName>) -> Seq<FirewallRule> {
    gathered(list.len(), rule_read(list, table))
}

/// Reads the rules that an anchor's rules stand for, given the interfaces' names.
pub fn decode_rules(list: &Vec<PfRule>, table: &Vec<InterfaceName>) -> (rules: Vec<FirewallRule>)
    ensures
        rules@ == rules_read(models(list@), table@),
{
    let ghost piece = rule_read(models(list@), table@);
    let mut rules: Vec<FirewallRule> = Vec::new();
    let mut i: usize = 0;
    while i < list.len()
        invariant
            i <= list.len(),
            piece == rule_read(models(list@), table@),
            rules@ == gathered(i as nat, piece),
        decreases list.len() - i,
    {
        let name = rule_interface_name(&list[i]);
        let index = find_index(table, &name);
        assert(models(list@)[i as int] == list@[i as int]@);
        if let Some(rule) = decode_pf_rule(&list[i], index) {
            rules.push(rule);
        }
        i = i + 1;
        assert(rules@ =~= gathered((i - 1) as nat, piece) + piece(i - 1));
    }
    rules
}

// ---- the transaction ----

/// How far the transaction that replaces the anchor's rules has come: what is to be done next.
#[derive(Debug, Clone, Copy, PartialEq, Eq, Structural)]
pub enum PfPhase {
    /// Open the transaction.
    Begin,
    /// Reserve an address pool for the rule with the given number.
    Reserve(usize),
    /// Add the rule with the given number.
    Add(usize),
    /// Make the new rules take effect.
    Commit,
    /// Give the new rules up.
    Rollback,
    /// Nothing is left to do.
    Finished,
}

/// The phase that follows on one whose request succeeded or failed. Rules are added one by one,
/// each with a pool of its own; only when all are in does the transaction take effect, and any
/// failure gives it up.
pub open spec fn phase_after(phase: PfPhase, rules: int, succeeded: bool) -> PfPhase {
    match phase {
        PfPhase::Finished => PfPhase::Finished,
        PfPhase::Rollback => PfPhase::Finished,
        _ => if !succeeded {
            PfPhase::Rollback
        } else {
            match phase {
                PfPhase::Begin => if rules > 0 {
                    PfPhase::Reserve(0)
                } else {
                    PfPhase::Commit
                },
                PfPhase::Reserve(i) => PfPhase::Add(i),
                PfPhase::Add(i) => if i + 1 < rules {
                    PfPhase::Reserve((i + 1) as usize)
                } else {
                    PfPhase::Commit
                },
                _ => PfPhase::Finished,
            }
        },
    }
}

/// Returns the phase that follows on one whose request succeeded or failed.
pub fn next_phase(phase: PfPhase, rules: usize, succeeded: bool) -> (next: PfPhase)
    ensures
        next == phase_after(phase, rules as int, succeeded),
{
    match phase {
        PfPhase::Finished => PfPhase::Finished,
        PfPhase::Rollback => PfPhase::Finished,
        PfPhase::Begin => if !succeeded {
            PfPhase::Rollback
        } else if rules > 0 {
            PfPhase::Reserve(0)
        } else {
            PfPhase::Commit
        },
        PfPhase::Reserve(i) => if succeeded {
            PfPhase::Add(i)
        } else {
            PfPhase::Rollback
        },
        PfPhase::Add(i) => if !succeeded {
            PfPhase::Rollback
        } else if i < rules && i + 1 < rules {
            PfPhase::Reserve(i + 1)
        } else {
            PfPhase::Commit
        },
        PfPhase::Commit => if succeeded {
            PfPhase::Finished
        } else {
            PfPhase::Rollback
        },
    }
}

/// The phase after requests with the given outcomes, from the start.
pub open spec fn phase_at(rules: int, outcomes: Seq<bool>) -> PfPhase
    decreases outcomes.len(),
{
    if outcomes.len() == 0 {
        PfPhase::Begin
    } else {
        phase_after(phase_at(rules, outcomes.drop_last()), rules, outcomes.last())
    }
}

/// The outcomes of requests that all succeed.
pub open spec fn all_succeeded(n: nat) -> Seq<bool> {
    Seq::new(n, |i: int| true)
}

// ---- laws ----

/// Whether a rule's interface can be named and found again: the table lists it under a name
/// that fits the field and leads back to it.
pub open spec fn interface_is_listed(table: Seq<InterfaceName>, rule: FirewallRule) -> bool {
    rule.interface_index matches Some(index) ==> {
        &&& index != 0
        &&& name_of(table, index) matches Some(name) && {
            &&& 0 < name.len() <= 15
            &&& forall|i: int| 0 <= i < name.len() ==> #[trigger] name[i] != 0
            &&& index_named(table, name) == index
        }
    }
}

/// A compiled rule reads back as the rule, for every rule that says nothing without an effect
/// and whose interface is known.
pub proof fn compiled_rule_reads_back(table: Seq<InterfaceName>, rule: FirewallRule)
    requires
        rule.normal(),
        interface_is_listed(table, rule),
    ensures
        decoded(
            compiled(rule, rule_name(table, rule)),
            index_named(table, name_in(compiled(rule, rule_name(table, rule)).ifname)),
        ) == Some(rule),
{
    let made = compiled(rule, rule_name(table, rule));
    let side = remote_end(rule);
    match rule.interface_index {
        Some(index) => {
            let name = name_of(table, index)->0;
            assert(made.ifname == padded(name, 16));
            lemma_name_field(name);
            assert(made.ifname[0] == name[0]);
        },
        None => {
            assert(made.ifname[0] == 0);
        },
    }
    match rule.remote {
        Some(network) => {
            lemma_network_reads_back(network);
            assert(network_in(side, made.af) == Some(network));
        },
        None => {
            assert(network_in(side, made.af) is None);
        },
    }
    if let Some(protocol) = rule.protocol {
        assert(protocol_in(made.proto) == Some(protocol));
    } else {
        assert(protocol_in(made.proto) is None);
    }
    if let Some(range) = rule.effective_port() {
        assert(range_in(ports_of(range)) == Some(range));
    }
}

/// A padded name reads back.
proof fn lemma_name_field(name: Seq<u8>)
    requires
        name.len() <= 15,
        forall|i: int| 0 <= i < name.len() ==> #[trigger] name[i] != 0,
    ensures
        name_in(padded(name, 16)) == name,
{
    let row = padded(name, 16);
    lemma_first_zero(row, name.len() as int, 0);
    assert(row.take(name.len() as int) =~= name);
}

/// The first zero stands where all bytes before are not zero.
proof fn lemma_first_zero(row: Seq<u8>, at: int, from: int)
    requires
        0 <= from <= at < row.len(),
        row[at] == 0,
        forall|i: int| from <= i < at ==> #[trigger] row[i] != 0,
    ensures
        first_zero(row, from) == Some(at),
    decreases at - from,
{
    if from < at {
        lemma_first_zero(row, at, from + 1);
    }
}

/// A network reads back from the end that matches it.
proof fn lemma_network_reads_back(network: Network)
    requires
        network.valid(),
    ensures
        network_in(end_of(Some(network)), family_number(Some(network))) == Some(network),
{
    let end = end_of(Some(network));
    let bits = network.prefix_bits() as int;
    network_is_its_parts(network);
    match network.address() {
        IpAddress::V4(address) => {
            ipv4_is_its_octets(address, address, zeros(4));
            assert(end.addr.take(4) =~= address.bytes());
            assert(end.mask.take(4) =~= prefix_mask(bits, 4));
            mask_counts_back_to_its_prefix(bits, 4);
        },
        IpAddress::V6(address) => {
            ipv6_is_its_octets(address, zeros(16));
            assert(end.addr =~= address.bytes());
            assert(end.mask =~= prefix_mask(bits, 16));
            mask_counts_back_to_its_prefix(bits, 16);
        },
    }
}

/// An anchor reads back as the policy's rules, in the same order and without the rule for the
/// default verdict, for rules that say nothing without an effect and whose interfaces are
/// known.
pub proof fn anchor_reads_back_as_the_policy(policy: Policy, table: Seq<InterfaceName>)
    requires
        forall|i: int|
            0 <= i < policy.rules.len() ==> (#[trigger] policy.rules[i]).normal()
                && interface_is_listed(table, policy.rules[i]),
    ensures
        rules_read(anchor_of(policy, table), table) == policy.rules,
{
    let list = anchor_of(policy, table);
    let n = policy.rules.len();
    let piece = rule_read(list, table);
    let single = |i: int| seq![policy.rules[i]];
    assert forall|i: int| 0 <= i < n implies #[trigger] piece(i) == single(i) by {
        let rule = policy.rules[i];
        assert(rule.normal());
        compiled_rule_reads_back(table, rule);
        assert(list[i] == compiled(rule, rule_name(table, rule)));
    }
    lemma_gathered_congruent(n, piece, single);
    lemma_gathered_singles(n, single);
    assert(gathered(n, single) =~= policy.rules);
    assert(list[n as int] == catch_all(policy.default_verdict));
    assert(piece(n as int) == Seq::<FirewallRule>::empty());
    assert(rules_read(list, table) =~= gathered(n, piece) + piece(n as int));
    assert(rules_read(list, table) =~= policy.rules);
}

/// A transaction whose requests all succeed opens, reserves and adds for each rule in order,
/// takes effect, and is then finished.
pub proof fn successful_transaction_adds_every_rule(rules: int, n: nat)
    requires
        0 < rules <= usize::MAX,
    ensures
        phase_at(rules, all_succeeded(n)) == (if n == 0 {
            PfPhase::Begin
        } else if n <= 2 * rules {
            if n % 2 == 1 {
                PfPhase::Reserve(((n - 1) / 2) as usize)
            } else {
                PfPhase::Add(((n - 2) / 2) as usize)
            }
        } else if n == 2 * rules + 1 {
            PfPhase::Commit
        } else {
            PfPhase::Finished
        }),
    decreases n,
{
    if n > 0 {
        let outcomes = all_succeeded(n);
        let shorter = (n - 1) as nat;
        successful_transaction_adds_every_rule(rules, shorter);
        assert(outcomes.drop_last() =~= all_succeeded(shorter));
    }
}

/// A transaction takes effect only after every request so far has succeeded; the first failure
/// gives it up, and after that it is finished, however giving it up goes.
pub proof fn failed_transaction_is_given_up(rules: int, n: nat, last: bool)
    requires
        0 < rules <= usize::MAX,
        n <= 2 * rules + 1,
    ensures
        phase_at(rules, all_succeeded(n).push(false)) == PfPhase::Rollback,
        phase_at(rules, all_succeeded(n).push(false).push(last)) == PfPhase::Finished,
{
    let good = all_succeeded(n);
    successful_transaction_adds_every_rule(rules, n);
    assert(good.push(false).drop_last() =~= good);
    assert(good.push(false).push(last).drop_last() =~= good.push(false));
}

// ---- what the rules do ----

/// The family number of a packet's addresses.
pub open spec fn packet_family(packet: Packet) -> u8 {
    if packet.is_v4() {
        AF_INET
    } else {
        AF_INET6
    }
}

/// Whether an end matches an address: they agree in the bits that the mask keeps.
pub open spec fn address_matches(end: End, address: Seq<u8>) -> bool {
    masked(address, end.mask) == masked(end.addr.take(address.len() as int), end.mask)
}

/// Whether an end's ports match a port.
pub open spec fn port_matches(xport: PfXport, port: u16) -> bool {
    if xport.op == PF_OP_NONE {
        true
    } else if xport.op == PF_OP_EQ {
        port == port_of(xport.first)
    } else {
        xport.op == PF_OP_RRG && port_of(xport.first) <= port <= port_of(xport.second)
    }
}

/// Whether a rule matches a packet of a direction on an interface with the given name. A field
/// that is zero or empty matches everything.
pub open spec fn rule_matches(
    rule: RuleModel,
    direction: Direction,
    interface: Seq<u8>,
    packet: Packet,
) -> bool {
    &&& rule.direction == PF_INOUT || rule.direction == direction_of(direction)
    &&& name_in(rule.ifname).len() == 0 || name_in(rule.ifname) == interface
    &&& rule.af == AF_UNSPEC || rule.af == packet_family(packet)
    &&& rule.proto == 0 || rule.proto == packet.protocol
    &&& address_matches(rule.src, packet.source)
    &&& address_matches(rule.dst, packet.destination)
    &&& port_matches(rule.src.xport, packet.source_port)
    &&& port_matches(rule.dst.xport, packet.destination_port)
}

/// How far the evaluation of rules has come.
pub struct Evaluation {
    /// The action of the last rule that matched.
    pub action: Option<u8>,
    /// Whether that rule ended the evaluation.
    pub decided: bool,
}

/// The evaluation of rules: the last rule that matches counts, unless a quick one matches, which
/// ends it.
pub open spec fn evaluation(
    rules: Seq<RuleModel>,
    direction: Direction,
    interface: Seq<u8>,
    packet: Packet,
) -> Evaluation
    decreases rules.len(),
{
    if rules.len() == 0 {
        Evaluation { action: None, decided: false }
    } else {
        let before = evaluation(rules.drop_last(), direction, interface, packet);
        let rule = rules.last();
        if !before.decided && rule_matches(rule, direction, interface, packet) {
            Evaluation { action: Some(rule.action), decided: rule.quick != 0 }
        } else {
            before
        }
    }
}

/// Whether a rule's interface is named so that a packet on the interface `found`, with the name
/// `interface`, is told apart: the table lists a name that fits the field, and it is that of the
/// packet's interface exactly when the index is.
pub open spec fn interface_is_named(
    table: Seq<InterfaceName>,
    rule: FirewallRule,
    found: u32,
    interface: Seq<u8>,
) -> bool {
    rule.interface_index matches Some(index) ==> {
        &&& name_of(table, index) matches Some(name) && {
            &&& 0 < name.len() <= 15
            &&& forall|i: int| 0 <= i < name.len() ==> #[trigger] name[i] != 0
            &&& name == interface <==> index == found
        }
    }
}

/// A mask of zeros keeps nothing of an address.
proof fn lemma_any_end(address: Seq<u8>)
    requires
        address.len() <= 16,
    ensures
        address_matches(any_end(), address),
{
    let end = any_end();
    let own = end.addr.take(address.len() as int);
    assert forall|i: int| 0 <= i < address.len() implies masked(address, end.mask)[i] == masked(
        own,
        end.mask,
    )[i] by {
        let byte = address[i];
        assert(byte & 0u8 == 0u8 & 0u8) by (bit_vector);
    }
    assert(masked(address, end.mask) =~= masked(own, end.mask));
}

/// An end matches exactly the addresses of its network, for addresses of its family.
proof fn lemma_network_end(network: Network, address: Seq<u8>)
    requires
        address.len() == address_width(network),
    ensures
        address_matches(end_of(Some(network)), address) <==> in_network(address, network),
{
    let end = end_of(Some(network));
    match network.address() {
        IpAddress::V4(inner) => ipv4_is_its_octets(inner, inner, zeros(4)),
        IpAddress::V6(inner) => ipv6_is_its_octets(inner, zeros(16)),
    }
    let own = octets_of(network.address());
    assert(end.addr.take(address.len() as int) =~= own);
    assert(masked(address, end.mask) =~= masked(address, mask_of(network)));
    assert(masked(own, end.mask) =~= masked(own, mask_of(network)));
}

/// A compiled rule matches exactly the packets of its direction that the rule describes.
pub proof fn compiled_rule_matches_its_packets(
    rule: FirewallRule,
    table: Seq<InterfaceName>,
    direction: Direction,
    interface: Seq<u8>,
    packet: Packet,
)
    requires
        packet.is_v4() || packet.is_v6(),
        rule.direction == direction ==> interface_is_named(
            table,
            rule,
            packet.interface(direction),
            interface,
        ),
    ensures
        rule_matches(compiled(rule, rule_name(table, rule)), direction, interface, packet) <==> (
        rule.direction == direction && describes(rule, packet, control_by_remote()(rule))),
{
    let made = compiled(rule, rule_name(table, rule));
    lemma_any_end(packet.source);
    lemma_any_end(packet.destination);
    match rule.interface_index {
        Some(index) => {
            if rule.direction == direction {
                let name = name_of(table, index)->0;
                assert(made.ifname == padded(name, 16));
                lemma_name_field(name);
            }
        },
        None => {
            assert(made.ifname[0] == 0);
            assert(name_in(made.ifname).len() == 0);
        },
    }
    let address = packet.remote_address(rule.direction);
    if let Some(network) = rule.remote {
        if address.len() == address_width(network) {
            lemma_network_end(network, address);
            assert(address_matches(remote_end(rule), address) == address_matches(
                end_of(Some(network)),
                address,
            ));
        }
    } else {
        lemma_any_end(address);
        assert(address_matches(remote_end(rule), address) == address_matches(any_end(), address));
    }
    if let Some(range) = rule.effective_port() {
        assert(port_of(wire_port(range.start)) == range.start);
        assert(port_of(wire_port(range.end)) == range.end);
    }
}

/// The anchor does what the policy says: a packet of either direction gets the action for the
/// verdict of the first rule that describes it, or else for the default verdict. Interfaces
/// that rules name are known to the table.
pub proof fn anchor_enforces_the_policy(
    policy: Policy,
    table: Seq<InterfaceName>,
    direction: Direction,
    interface: Seq<u8>,
    packet: Packet,
)
    requires
        packet.is_v4() || packet.is_v6(),
        forall|i: int|
            0 <= i < policy.rules.len() && (#[trigger] policy.rules[i]).direction == direction
                ==> interface_is_named(
                table,
                policy.rules[i],
                packet.interface(direction),
                interface,
            ),
    ensures
        evaluation(anchor_of(policy, table), direction, interface, packet).action == Some(
            action_of(policy_verdict(policy, direction, packet, control_by_remote())),
        ),
{
    let all = anchor_of(policy, table);
    let n = policy.rules.len();
    lemma_evaluation(policy, table, direction, interface, packet, n);
    assert(policy.rules.take(n as int) =~= policy.rules);
    assert(all.drop_last() =~= all.take(n as int));
    assert(all.last() == catch_all(policy.default_verdict));
    lemma_any_end(packet.source);
    lemma_any_end(packet.destination);
    assert(all.last().ifname[0] == 0);
    assert(name_in(all.last().ifname).len() == 0);
    assert(rule_matches(all.last(), direction, interface, packet));
}

/// The evaluation of the anchor's first `n` rules.
proof fn lemma_evaluation(
    policy: Policy,
    table: Seq<InterfaceName>,
    direction: Direction,
    interface: Seq<u8>,
    packet: Packet,
    n: nat,
)
    requires
        n <= policy.rules.len(),
        packet.is_v4() || packet.is_v6(),
        forall|i: int|
            0 <= i < policy.rules.len() && (#[trigger] policy.rules[i]).direction == direction
                ==> interface_is_named(
                table,
                policy.rules[i],
                packet.interface(direction),
                interface,
            ),
    ensures
        evaluation(anchor_of(policy, table).take(n as int), direction, interface, packet) == (
        match earliest(
            policy.rules.take(n as int),
            describing(direction, packet, control_by_remote()),
        ) {
            Some(verdict) => Evaluation { action: Some(action_of(verdict)), decided: true },
            None => Evaluation { action: None, decided: false },
        }),
    decreases n,
{
    let all = anchor_of(policy, table);
    let pick = describing(direction, packet, control_by_remote());
    if n == 0 {
        assert(policy.rules.take(0) =~= Seq::empty());
        assert(all.take(0) =~= Seq::empty());
    } else {
        let shorter = (n - 1) as nat;
        lemma_evaluation(policy, table, direction, interface, packet, shorter);
        lemma_pick_take(policy.rules, pick, shorter as int);
        let rule = policy.rules[shorter as int];
        assert(all.take(n as int).drop_last() =~= all.take(shorter as int));
        assert(all.take(n as int).last() == compiled(rule, rule_name(table, rule)));
        compiled_rule_matches_its_packets(rule, table, direction, interface, packet);
    }
}

// ---- numbers and fields ----

/// Verdicts, directions, families and comparisons have the numbers that the packet filter gives
/// them: 0 passes and 1 drops; 1 is inbound, 2 is outbound and 0 is both; 2 is IPv4, 30 is IPv6
/// and 0 is either; 0 compares no ports, 2 one port and 9 a range that includes both ends.
pub proof fn rules_use_the_numbers_of_the_packet_filter(
    v4: Ipv4Network,
    v6: Ipv6Network,
    verdict: Verdict,
    range: PortRange,
)
    ensures
        action_of(Verdict::Allow) == 0,
        action_of(Verdict::Deny) == 1,
        direction_of(Direction::Inbound) == 1,
        direction_of(Direction::Outbound) == 2,
        family_number(Some(Network::V4(v4))) == 2,
        family_number(Some(Network::V6(v6))) == 30,
        family_number(None) == 0,
        catch_all(verdict).direction == 0,
        catch_all(verdict).quick == 1,
        catch_all(verdict).proto == 0,
        catch_all(verdict).af == 0,
        no_ports().op == 0,
        ports_of(range).op == (if range.start == range.end {
            2u8
        } else {
            9u8
        }),
        any_end().kind == 0,
        end_of(Some(Network::V4(v4))).kind == 0,
        end_of(Some(Network::V6(v6))).kind == 0,
{
}

/// What a number reads as: a direction is read from 1 and 2 alone, a verdict from 0 and 1 alone,
/// and a protocol from 6, 17, 1 and 58 alone, where both 1 and 58 are ICMP.
pub proof fn numbers_read_as_what_they_stand_for(number: u8)
    ensures
        direction_in(number) == Some(Direction::Inbound) <==> number == 1,
        direction_in(number) == Some(Direction::Outbound) <==> number == 2,
        verdict_in(number) == Some(Verdict::Allow) <==> number == 0,
        verdict_in(number) == Some(Verdict::Deny) <==> number == 1,
        protocol_in(number) == Some(Protocol::Tcp) <==> number == 6,
        protocol_in(number) == Some(Protocol::Udp) <==> number == 17,
        protocol_in(number) == Some(Protocol::Icmp) <==> number == 1 || number == 58,
        direction_in(number) is Some <==> number == 1 || number == 2,
        verdict_in(number) is Some <==> number == 0 || number == 1,
{
}

/// A port on the wire is its value in base 256, most significant byte first, and reads back.
pub proof fn ports_are_big_endian(port: u16, bytes: PortBytes)
    ensures
        wire_port(port).high * 256 + wire_port(port).low == port,
        port_of(bytes) == bytes.high * 256 + bytes.low,
        port_of(wire_port(port)) == port,
{
}

/// A port range is read where it is compared: one port under 2, both ends under 9, and nothing
/// under any other number.
pub proof fn port_range_is_read_by_its_comparison(xport: PfXport)
    ensures
        range_in(xport) is Some <==> xport.op == 2 || xport.op == 9,
        range_in(xport) matches Some(range) ==> range.start == xport.first.high * 256
            + xport.first.low,
        xport.op == 2 ==> (range_in(xport) matches Some(range) && range.end == range.start),
        xport.op == 9 ==> (range_in(xport) matches Some(range) && range.end == xport.second.high
            * 256 + xport.second.low),
{
}

/// The fields of a compiled rule: it ends the evaluation, its remote side is the source inbound
/// and the destination outbound, its other side matches everything, and its protocol is 6, 17,
/// 58 beside an IPv6 network and 1 beside any other, or 0 for every protocol.
pub proof fn compiled_rule_has_its_fields(rule: FirewallRule, name: Option<Seq<u8>>)
    ensures
        ({
            let made = compiled(rule, name);
            let (own, other) = if rule.direction == Direction::Inbound {
                (made.src, made.dst)
            } else {
                (made.dst, made.src)
            };
            &&& made.quick == 1
            &&& rule.verdict == Verdict::Allow <==> made.action == 0
            &&& rule.verdict == Verdict::Deny <==> made.action == 1
            &&& rule.direction == Direction::Inbound <==> made.direction == 1
            &&& rule.direction == Direction::Outbound <==> made.direction == 2
            &&& rule.remote is None <==> made.af == 0
            &&& rule.remote matches Some(network) ==> made.af == (if network is V4 {
                2u8
            } else {
                30u8
            })
            &&& rule.protocol is None ==> made.proto == 0
            &&& rule.protocol == Some(Protocol::Tcp) ==> made.proto == 6
            &&& rule.protocol == Some(Protocol::Udp) ==> made.proto == 17
            &&& rule.protocol == Some(Protocol::Icmp) ==> made.proto == (match rule.remote {
                Some(Network::V6(_)) => 58u8,
                _ => 1u8,
            })
            &&& other.mask == Seq::new(16, |i: int| 0u8)
            &&& other.addr == Seq::new(16, |i: int| 0u8)
            &&& other.xport.op == 0
            &&& rule.remote is None ==> own.mask == Seq::new(16, |i: int| 0u8)
            &&& (rule.protocol == Some(Protocol::Tcp) || rule.protocol == Some(Protocol::Udp)) && (
            rule.port is Some) <==> own.xport.op != 0
            &&& rule.port matches Some(range) ==> own.xport.op != 0 ==> port_of(own.xport.first)
                == range.start && (range.start != range.end ==> port_of(own.xport.second)
                == range.end)
        }),
{
    if let Some(range) = rule.port {
        ports_are_big_endian(range.start, no_ports().first);
        ports_are_big_endian(range.end, no_ports().first);
    }
}

/// The interface's name stands in its field up to fifteen bytes, followed by zeros, and only in
/// a rule for an interface.
pub proof fn interface_names_are_cut_and_padded(rule: FirewallRule, name: Seq<u8>, i: int)
    requires
        0 <= i < 16,
    ensures
        ({
            let field = compiled(rule, Some(name)).ifname;
            &&& field.len() == 16
            &&& field[i] == (if rule.interface_index is Some && i < 15 && i < name.len() {
                name[i]
            } else {
                0u8
            })
            &&& compiled(rule, None).ifname[i] == 0
        }),
{
}

/// What a rule in the anchor reads as. It is read exactly when it has a direction and a verdict;
/// its remote side is the source inbound and the destination outbound; its interface is known
/// when the rule names one that was found; and ports are read beside a known protocol alone.
pub proof fn anchor_rules_read_field_by_field(rule: RuleModel, index: u32)
    ensures
        decoded(rule, index) is Some <==> (rule.direction == 1 || rule.direction == 2) && (
        rule.action == 0 || rule.action == 1),
        decoded(rule, index) matches Some(found) ==> {
            let own = if rule.direction == 1 {
                rule.src
            } else {
                rule.dst
            };
            &&& found.direction == Direction::Inbound <==> rule.direction == 1
            &&& found.verdict == Verdict::Allow <==> rule.action == 0
            &&& found.interface_index == (if rule.ifname[0] != 0 && index != 0 {
                Some(index)
            } else {
                None
            })
            &&& found.protocol == Some(Protocol::Tcp) <==> rule.proto == 6
            &&& found.protocol == Some(Protocol::Udp) <==> rule.proto == 17
            &&& found.protocol == Some(Protocol::Icmp) <==> rule.proto == 1 || rule.proto == 58
            &&& found.port is Some <==> found.protocol is Some && (own.xport.op == 2
                || own.xport.op == 9)
            &&& found.port is Some ==> found.port == range_in(own.xport)
            &&& found.remote is Some ==> rule.af == 2 || rule.af == 30
            &&& found.remote matches Some(network) ==> (network is V4 <==> rule.af == 2)
            &&& found.remote == network_in(own, rule.af)
        },
{
}

/// A network is read by its family: four bytes of address and mask for IPv4, all sixteen for
/// IPv6, and none for any other family. The prefix length counts the mask's leading ones.
pub proof fn remote_networks_read_by_their_family(end: End, af: u8)
    requires
        end.addr.len() == 16,
        end.mask.len() == 16,
    ensures
        network_in(end, af) is Some <==> af == 2 || af == 30,
        af == 2 ==> (network_in(end, af) matches Some(network) ==> octets_of(network.address())
            == end.addr.take(4) && network.prefix_bits() == leading_ones(end.mask.take(4)) as u8),
        af == 30 ==> (network_in(end, af) matches Some(network) ==> octets_of(network.address())
            == end.addr && network.prefix_bits() == leading_ones(end.mask) as u8),
{
    let short = Ipv4Address::of(end.addr.take(4));
    ipv4_is_its_octets(short, short, end.addr.take(4));
    ipv6_is_its_octets(Ipv6Address::of_bytes(end.addr), end.addr);
    leading_ones_end_at_the_first_zero(end.mask.take(4), 0, 0);
    leading_ones_end_at_the_first_zero(end.mask, 0, 0);
    if let Some(network) = network_in(end, af) {
        match network {
            Network::V4(inner) => {
                let prefix = Ipv4PrefixLength::of(leading_ones(end.mask.take(4)) as u8);
                ipv4_network_is_its_parts(inner, short, prefix);
                prefix_is_its_length(
                    prefix,
                    prefix,
                    Ipv6PrefixLength::of(0),
                    Ipv6PrefixLength::of(0),
                    leading_ones(end.mask.take(4)) as u8,
                );
            },
            Network::V6(inner) => {
                let prefix = Ipv6PrefixLength::of(leading_ones(end.mask) as u8);
                ipv6_network_is_its_parts(inner, Ipv6Address::of_bytes(end.addr), prefix);
                prefix_is_its_length(
                    Ipv4PrefixLength::of(0),
                    Ipv4PrefixLength::of(0),
                    prefix,
                    prefix,
                    leading_ones(end.mask) as u8,
                );
            },
        }
    }
}

/// A name ends before the first zero byte of its field, and a field without one names nothing.
pub proof fn names_end_at_the_first_zero(row: Seq<u8>)
    ensures
        (forall|i: int| 0 <= i < row.len() ==> #[trigger] row[i] != 0) ==> name_in(row).len() == 0,
        !(forall|i: int| 0 <= i < row.len() ==> #[trigger] row[i] != 0) ==> {
            &&& name_in(row).len() < row.len()
            &&& row[name_in(row).len() as int] == 0
            &&& forall|i: int| 0 <= i < name_in(row).len() ==> #[trigger] name_in(row)[i] == row[i]
                && row[i] != 0
        },
{
    lemma_first_zero_from(row, 0);
}

/// The first zero from an index on is the first.
proof fn lemma_first_zero_from(row: Seq<u8>, from: int)
    requires
        0 <= from <= row.len(),
    ensures
        match first_zero(row, from) {
            Some(end) => from <= end < row.len() && row[end] == 0 && forall|i: int|
                from <= i < end ==> #[trigger] row[i] != 0,
            None => forall|i: int| from <= i < row.len() ==> #[trigger] row[i] != 0,
        },
    decreases row.len() - from,
{
    if from < row.len() && row[from] != 0 {
        lemma_first_zero_from(row, from + 1);
    }
}

/// Names and indices are looked up from the front: the first entry with the index, and the
/// first with the name, count, and without such an entry there is no name and the index is zero.
pub proof fn first_listed_interface_counts(
    table: Seq<InterfaceName>,
    index: u32,
    name: Seq<u8>,
    i: int,
)
    ensures
        0 <= i < table.len() && table[i].index == index && (forall|k: int|
            0 <= k < i ==> (#[trigger] table[k]).index != index) ==> name_of(table, index) == Some(
            table[i].name@,
        ),
        (forall|k: int| 0 <= k < table.len() ==> (#[trigger] table[k]).index != index) ==> name_of(
            table,
            index,
        ) is None,
        0 <= i < table.len() && table[i].name@ == name && (forall|k: int|
            0 <= k < i ==> (#[trigger] table[k]).name@ != name) ==> index_named(table, name)
            == table[i].index,
        (forall|k: int| 0 <= k < table.len() ==> (#[trigger] table[k]).name@ != name)
            ==> index_named(table, name) == 0,
    decreases table.len(),
{
    if table.len() > 0 {
        let rest = table.skip(1);
        assert(forall|k: int| 0 <= k < rest.len() ==> #[trigger] rest[k] == table[k + 1]);
        assert(table[0] == table[0]);
        first_listed_interface_counts(rest, index, name, i - 1);
    }
}

/// A request code carries its parts: the number in the lowest byte, the group in the next, the
/// length's low thirteen bits above these, and on top the two bits for copying in and out.
pub proof fn request_code_carries_its_parts(group: u8, num: u8, len: int)
    requires
        0 <= len,
    ensures
        request_code(group, num, len) % 0x100 == num,
        request_code(group, num, len) / 0x100 % 0x100 == group,
        request_code(group, num, len) / 0x1_0000 % 0x2000 == len % 0x2000,
        request_code(group, num, len) / 0x2000_0000 == 6,
{
    let low: int = len % 0x2000;
    let code = request_code(group, num, len);
    assert(0 <= low < 0x2000);
    assert(code == 0xc000_0000 + low * 0x1_0000 + group * 0x100 + num);
    assert(code / 0x1_0000 == 0xc000 + low);
    assert(code / 0x100 == 0xc0_0000 + low * 0x100 + group);
}

/// The anchor is named `net_lattice`.
pub proof fn anchor_has_its_name(i: int)
    ensures
        anchor_name().len() == "net_lattice"@.len(),
        0 <= i < anchor_name().len() ==> anchor_name()[i] as char == "net_lattice"@[i],
        padded(anchor_name(), 1024).len() == 1024,
        anchor_name().len() <= i < 1024 ==> padded(anchor_name(), 1024)[i] == 0,
{
    reveal_strlit("net_lattice");
}

/// A transaction without rules is begun and committed, and one that fails at any point is rolled
/// back and then finished.
pub proof fn transactions_end_in_commit_or_rollback(phase: PfPhase, rules: int)
    ensures
        phase_after(PfPhase::Begin, 0, true) == PfPhase::Commit,
        phase_after(PfPhase::Commit, rules, true) == PfPhase::Finished,
        phase is Begin || phase is Reserve || phase is Add || phase is Commit ==> phase_after(
            phase,
            rules,
            false,
        ) == PfPhase::Rollback,
        phase_after(PfPhase::Rollback, rules, true) == PfPhase::Finished,
        phase_after(PfPhase::Rollback, rules, false) == PfPhase::Finished,
{
}

/// The remote network of a compiled rule stands at the front of its address and mask fields, and
/// zeros behind it.
pub proof fn remote_networks_are_padded(rule: FirewallRule, name: Option<Seq<u8>>)
    ensures
        ({
            let made = compiled(rule, name);
            let own = if rule.direction == Direction::Inbound {
                made.src
            } else {
                made.dst
            };
            &&& rule.remote matches Some(Network::V4(network)) ==> {
                &&& own.addr == network.address().bytes() + Seq::new(12, |i: int| 0u8)
                &&& own.mask == prefix_mask(network.prefix().bits() as int, 4) + Seq::new(
                    12,
                    |i: int| 0u8,
                )
            }
            &&& rule.remote matches Some(Network::V6(network)) ==> {
                &&& own.addr == network.address().bytes()
                &&& own.mask == prefix_mask(network.prefix().bits() as int, 16)
            }
        }),
{
    let made = compiled(rule, name);
    let own = if rule.direction == Direction::Inbound {
        made.src
    } else {
        made.dst
    };
    match rule.remote {
        Some(Network::V4(network)) => {
            let address = network.address();
            ipv4_is_its_octets(address, address, Seq::new(4, |i: int| 0u8));
            assert(own.addr =~= address.bytes() + Seq::new(12, |i: int| 0u8));
            assert(own.mask =~= prefix_mask(network.prefix().bits() as int, 4) + Seq::new(
                12,
                |i: int| 0u8,
            ));
        },
        Some(Network::V6(network)) => {
            ipv6_is_its_octets(network.address(), Seq::new(16, |i: int| 0u8));
            assert(own.addr =~= network.address().bytes());
            assert(own.mask =~= prefix_mask(network.prefix().bits() as int, 16));
        },
        None => {},
    }
}

/// An anchor holds one rule for each rule of the policy, in order, and one for the default
/// verdict behind them.
pub proof fn anchor_holds_the_rules_in_order(policy: Policy, table: Seq<InterfaceName>, i: int)
    ensures
        anchor_of(policy, table).len() == policy.rules.len() + 1,
        0 <= i < policy.rules.len() ==> anchor_of(policy, table)[i] == compiled(
            policy.rules[i],
            match policy.rules[i].interface_index {
                Some(index) => name_of(table, index),
                None => None,
            },
        ),
        anchor_of(policy, table).last() == catch_all(policy.default_verdict),
        catch_all(Verdict::Allow).action == 0,
        catch_all(Verdict::Deny).action == 1,
        catch_all(policy.default_verdict).src.mask == Seq::new(16, |k: int| 0u8),
        catch_all(policy.default_verdict).dst.mask == Seq::new(16, |k: int| 0u8),
        catch_all(policy.default_verdict).src.xport.op == 0,
        catch_all(policy.default_verdict).dst.xport.op == 0,
        catch_all(policy.default_verdict).ifname == Seq::new(16, |k: int| 0u8),
{
}

/// A rule stands for its fields.
pub proof fn rules_stand_for_their_fields(rule: PfRule, end: PfRuleAddr)
    ensures
        end@.addr == end.addr@,
        end@.mask == end.mask@,
        end@.kind == end.kind,
        end@.xport == end.xport,
        rule@.src == rule.src@,
        rule@.dst == rule.dst@,
        rule@.ifname == rule.ifname@,
        rule@.action == rule.action,
        rule@.direction == rule.direction,
        rule@.quick == rule.quick,
        rule@.af == rule.af,
        rule@.proto == rule.proto,
{
}

} // verus!
