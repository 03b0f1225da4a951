//! What a firewall policy means for traffic.
//!
//! The packet filters of the platforms are driven in different ways. What they are to achieve is
//! stated here once: the first rule that describes a packet decides, and where there is none the
//! default verdict does.

use crate::address::IpAddress;
use crate::address::Network;
use crate::firewall::both_ways;
use crate::firewall::Direction;
use crate::firewall::FirewallRule;
use crate::firewall::Policy;
use crate::firewall::Protocol;
use crate::firewall::Verdict;
use crate::gather::earliest;
use crate::gather::lemma_earliest_at;
use crate::ipv4::ipv4_is_its_octets;
use crate::ipv4::Ipv4Address;
use crate::ipv6::ipv6_is_its_octets;
use crate::ipv6::Ipv6Address;
use crate::mask::mask_sets_exactly_the_leading_bits;
use crate::mask::prefix_mask;
use vstd::prelude::*;

verus! {

/// A packet, as far as rules look at it.
pub struct Packet {
    /// The interface that it came in on.
    pub input: u32,
    /// The interface that it goes out on.
    pub output: u32,
    /// Its transport protocol's number.
    pub protocol: u8,
    /// Its source address.
    pub source: Seq<u8>,
    /// Its destination address.
    pub destination: Seq<u8>,
    /// Its source port.
    pub source_port: u16,
    /// Its destination port.
    pub destination_port: u16,
}

impl Packet {
    /// Whether both addresses are IPv4 addresses.
    pub open spec fn is_v4(self) -> bool {
        self.source.len() == 4 && self.destination.len() == 4
    }

    /// Whether both addresses are IPv6 addresses.
    pub open spec fn is_v6(self) -> bool {
        self.source.len() == 16 && self.destination.len() == 16
    }

    /// The local interface.
    pub open spec fn interface(self, direction: Direction) -> u32 {
        match direction {
            Direction::Inbound => self.input,
            Direction::Outbound => self.output,
        }
    }

    /// The remote address.
    pub open spec fn remote_address(self, direction: Direction) -> Seq<u8> {
        match direction {
            Direction::Inbound => self.source,
            Direction::Outbound => self.destination,
        }
    }

    /// The remote port.
    pub open spec fn remote_port(self, direction: Direction) -> u16 {
        match direction {
            Direction::Inbound => self.source_port,
            Direction::Outbound => self.destination_port,
        }
    }
}

/// Bytes of which only the masked bits are kept.
pub open spec fn masked(bytes: Seq<u8>, mask: Seq<u8>) -> Seq<u8> {
    Seq::new(bytes.len(), |i: int| bytes[i] & mask[i])
}

/// How many bytes an address of the network's family has.
pub open spec fn address_width(network: Network) -> nat {
    if network is V4 {
        4
    } else {
        16
    }
}

/// The bytes of an address.
pub open spec fn octets_of(address: IpAddress) -> Seq<u8> {
    match address {
        IpAddress::V4(inner) => inner.bytes(),
        IpAddress::V6(inner) => inner.bytes(),
    }
}

/// The mask that keeps the bits of a network's prefix.
pub open spec fn mask_of(network: Network) -> Seq<u8> {
    prefix_mask(network.prefix_bits() as int, address_width(network))
}

/// Whether an address is in a network: it is of the network's family, and its leading bits are
/// those of the network.
pub open spec fn in_network(address: Seq<u8>, network: Network) -> bool {
    &&& address.len() == address_width(network)
    &&& masked(address, mask_of(network)) == masked(octets_of(network.address()), mask_of(network))
}

/// Whether a network's address has no bits beyond its prefix.
pub open spec fn is_network_address(network: Network) -> bool {
    masked(octets_of(network.address()), mask_of(network)) == octets_of(network.address())
}

/// The number of a protocol, given the one of the control messages that ICMP carries.
pub open spec fn protocol_beside(protocol: Protocol, control: u8) -> u8 {
    match protocol {
        Protocol::Tcp => 6,
        Protocol::Udp => 17,
        Protocol::Icmp => control,
    }
}

/// Whether a rule describes a packet: on its interface, with a remote address in its network,
/// of its protocol, and with a remote port in its range. What a rule does not say holds of
/// every packet.
pub open spec fn describes(rule: FirewallRule, packet: Packet, control: u8) -> bool {
    &&& rule.interface_index matches Some(index) ==> index == packet.interface(rule.direction)
    &&& rule.remote matches Some(network) ==> in_network(
        packet.remote_address(rule.direction),
        network,
    )
    &&& rule.protocol matches Some(protocol) ==> packet.protocol == protocol_beside(
        protocol,
        control,
    )
    &&& rule.port matches Some(range) ==> (rule.protocol == Some(Protocol::Tcp) || rule.protocol
        == Some(Protocol::Udp)) ==> range.start <= packet.remote_port(rule.direction) <= range.end
}

/// The number that ICMP has in a rule: that of the remote network's family, and of IPv4 where
/// there is no remote network.
pub open spec fn control_by_remote() -> spec_fn(FirewallRule) -> u8 {
    |rule: FirewallRule|
        match rule.remote {
            Some(Network::V6(_)) => 58u8,
            Some(Network::V4(_)) => 1u8,
            None => 1u8,
        }
}

/// Picks out the verdict of a rule that describes a packet of a direction.
pub open spec fn describing(
    direction: Direction,
    packet: Packet,
    control: spec_fn(FirewallRule) -> u8,
) -> spec_fn(FirewallRule) -> Option<Verdict> {
    |rule: FirewallRule|
        if rule.direction == direction && describes(rule, packet, control(rule)) {
            Some(rule.verdict)
        } else {
            None
        }
}

/// What a policy wants done to a packet of a direction: the verdict of the first rule that
/// describes it, or else the default verdict.
pub open spec fn policy_verdict(
    policy: Policy,
    direction: Direction,
    packet: Packet,
    control: spec_fn(FirewallRule) -> u8,
) -> Verdict {
    match earliest(policy.rules, describing(direction, packet, control)) {
        Some(verdict) => verdict,
        None => policy.default_verdict,
    }
}

// ---- laws ----

/// What a rule describes, field by field. Inbound it looks at the interface that a packet came
/// in on, its source address and its source port; outbound at the interface that it goes out on,
/// its destination address and its destination port. TCP is protocol 6 and UDP 17. ICMP is
/// protocol 58 beside an IPv6 network, and 1 beside an IPv4 network or none.
pub proof fn rule_describes_its_traffic(rule: FirewallRule, packet: Packet)
    ensures
        rule.direction == Direction::Inbound ==> (describes(
            rule,
            packet,
            control_by_remote()(rule),
        ) <==> {
            &&& rule.interface_index matches Some(index) ==> packet.input == index
            &&& rule.remote matches Some(network) ==> in_network(packet.source, network)
            &&& rule.protocol == Some(Protocol::Tcp) ==> packet.protocol == 6
            &&& rule.protocol == Some(Protocol::Udp) ==> packet.protocol == 17
            &&& rule.protocol == Some(Protocol::Icmp) && (rule.remote matches Some(network)
                && network is V6) ==> packet.protocol == 58
            &&& rule.protocol == Some(Protocol::Icmp) && !(rule.remote matches Some(network)
                && network is V6) ==> packet.protocol == 1
            &&& rule.protocol == Some(Protocol::Tcp) || rule.protocol == Some(Protocol::Udp) ==> (
            rule.port matches Some(range) ==> range.start <= packet.source_port <= range.end)
        }),
        rule.direction == Direction::Outbound ==> (describes(
            rule,
            packet,
            control_by_remote()(rule),
        ) <==> {
            &&& rule.interface_index matches Some(index) ==> packet.output == index
            &&& rule.remote matches Some(network) ==> in_network(packet.destination, network)
            &&& rule.protocol == Some(Protocol::Tcp) ==> packet.protocol == 6
            &&& rule.protocol == Some(Protocol::Udp) ==> packet.protocol == 17
            &&& rule.protocol == Some(Protocol::Icmp) && (rule.remote matches Some(network)
                && network is V6) ==> packet.protocol == 58
            &&& rule.protocol == Some(Protocol::Icmp) && !(rule.remote matches Some(network)
                && network is V6) ==> packet.protocol == 1
            &&& rule.protocol == Some(Protocol::Tcp) || rule.protocol == Some(Protocol::Udp) ==> (
            rule.port matches Some(range) ==> range.start <= packet.destination_port <= range.end)
        }),
{
}

/// A bit of a byte, counted from the most significant one.
pub open spec fn bit_at(byte: u8, bit: u8) -> bool {
    (byte >> ((7 - bit) as u8)) & 1 == 1
}

/// Bytes agree under a mask exactly when they agree in every bit that the mask keeps.
proof fn lemma_masked_byte(left: u8, right: u8, mask: u8)
    ensures
        left & mask == right & mask <==> forall|bit: u8|
            bit < 8 && bit_at(mask, bit) ==> #[trigger] bit_at(left, bit) == bit_at(right, bit),
{
    if left & mask == right & mask {
        assert forall|bit: u8| bit < 8 && bit_at(mask, bit) implies #[trigger] bit_at(left, bit)
            == bit_at(right, bit) by {
            let shift = (7 - bit) as u8;
            assert((left >> shift) & 1 == (right >> shift) & 1) by (bit_vector)
                requires
                    left & mask == right & mask,
                    (mask >> shift) & 1 == 1,
                    shift < 8,
            ;
        }
    }
    if forall|bit: u8|
        bit < 8 && bit_at(mask, bit) ==> #[trigger] bit_at(left, bit) == bit_at(right, bit) {
        assert(bit_at(mask, 0) ==> bit_at(left, 0) == bit_at(right, 0));
        assert(bit_at(mask, 1) ==> bit_at(left, 1) == bit_at(right, 1));
        assert(bit_at(mask, 2) ==> bit_at(left, 2) == bit_at(right, 2));
        assert(bit_at(mask, 3) ==> bit_at(left, 3) == bit_at(right, 3));
        assert(bit_at(mask, 4) ==> bit_at(left, 4) == bit_at(right, 4));
        assert(bit_at(mask, 5) ==> bit_at(left, 5) == bit_at(right, 5));
        assert(bit_at(mask, 6) ==> bit_at(left, 6) == bit_at(right, 6));
        assert(bit_at(mask, 7) ==> bit_at(left, 7) == bit_at(right, 7));
        assert(left & mask == right & mask) by (bit_vector)
            requires
                (mask >> 7u8) & 1 == 1 ==> ((left >> 7u8) & 1 == 1 <==> (right >> 7u8) & 1 == 1),
                (mask >> 6u8) & 1 == 1 ==> ((left >> 6u8) & 1 == 1 <==> (right >> 6u8) & 1 == 1),
                (mask >> 5u8) & 1 == 1 ==> ((left >> 5u8) & 1 == 1 <==> (right >> 5u8) & 1 == 1),
                (mask >> 4u8) & 1 == 1 ==> ((left >> 4u8) & 1 == 1 <==> (right >> 4u8) & 1 == 1),
                (mask >> 3u8) & 1 == 1 ==> ((left >> 3u8) & 1 == 1 <==> (right >> 3u8) & 1 == 1),
                (mask >> 2u8) & 1 == 1 ==> ((left >> 2u8) & 1 == 1 <==> (right >> 2u8) & 1 == 1),
                (mask >> 1u8) & 1 == 1 ==> ((left >> 1u8) & 1 == 1 <==> (right >> 1u8) & 1 == 1),
                (mask >> 0u8) & 1 == 1 ==> ((left >> 0u8) & 1 == 1 <==> (right >> 0u8) & 1 == 1),
        ;
    }
}

/// A network holds exactly the addresses of its family that have its leading bits: as many as
/// its prefix length says.
pub proof fn network_holds_what_shares_its_leading_bits(address: Seq<u8>, network: Network)
    requires
        network.valid(),
    ensures
        in_network(address, network) <==> {
            &&& network is V4 ==> address.len() == 4
            &&& network is V6 ==> address.len() == 16
            &&& forall|k: int, bit: u8|
                0 <= k < address.len() && bit < 8 && 8 * k + bit < network.prefix_bits()
                    ==> #[trigger] bit_at(address[k], bit) == bit_at(
                    octets_of(network.address())[k],
                    bit,
                )
        },
{
    let width = address_width(network);
    let mask = mask_of(network);
    let own = octets_of(network.address());
    match network {
        Network::V4(inner) => {
            ipv4_is_its_octets(inner.address(), inner.address(), seq![0u8, 0, 0, 0]);
        },
        Network::V6(inner) => {
            ipv6_is_its_octets(inner.address(), Seq::new(16, |i: int| 0u8));
        },
    }
    assert(own.len() == width);
    if address.len() == width {
        let here = masked(address, mask);
        let there = masked(own, mask);
        assert forall|k: int, bit: u8|
            0 <= k < width && bit < 8 && here[k] == there[k] && 8 * k + bit
                < network.prefix_bits() implies #[trigger] bit_at(address[k], bit) == bit_at(
            own[k],
            bit,
        ) by {
            mask_sets_exactly_the_leading_bits(network.prefix_bits() as int, width, bit, k);
            assert(bit_at(mask[k], bit));
            lemma_masked_byte(address[k], own[k], mask[k]);
        }
        if in_network(address, network) {
            assert(forall|k: int| 0 <= k < width ==> #[trigger] here[k] == there[k]);
        }
        if forall|k: int, bit: u8|
            0 <= k < address.len() && bit < 8 && 8 * k + bit < network.prefix_bits()
                ==> #[trigger] bit_at(address[k], bit) == bit_at(own[k], bit) {
            assert forall|k: int| 0 <= k < width implies #[trigger] here[k] == there[k] by {
                assert forall|bit: u8| bit < 8 && bit_at(mask[k], bit) implies #[trigger] bit_at(
                    address[k],
                    bit,
                ) == bit_at(own[k], bit) by {
                    mask_sets_exactly_the_leading_bits(
                        network.prefix_bits() as int,
                        width,
                        bit,
                        k,
                    );
                }
                lemma_masked_byte(address[k], own[k], mask[k]);
            }
            assert(here =~= there);
        }
    }
}

/// The first rule that describes a packet of a direction decides about it, and where no rule
/// does the default verdict decides.
pub proof fn first_describing_rule_decides(
    policy: Policy,
    direction: Direction,
    packet: Packet,
    control: spec_fn(FirewallRule) -> u8,
    i: int,
)
    ensures
        0 <= i < policy.rules.len() && policy.rules[i].direction == direction && describes(
            policy.rules[i],
            packet,
            control(policy.rules[i]),
        ) && (forall|j: int|
            0 <= j < i ==> !((#[trigger] policy.rules[j]).direction == direction && describes(
                policy.rules[j],
                packet,
                control(policy.rules[j]),
            ))) ==> policy_verdict(policy, direction, packet, control) == policy.rules[i].verdict,
        (forall|j: int|
            0 <= j < policy.rules.len() ==> !((#[trigger] policy.rules[j]).direction == direction
                && describes(policy.rules[j], packet, control(policy.rules[j]))))
            ==> policy_verdict(policy, direction, packet, control) == policy.default_verdict,
{
    let pick = describing(direction, packet, control);
    let at = lemma_earliest_at(policy.rules, pick);
    if earliest(policy.rules, pick) is Some {
        assert(pick(policy.rules[at]) is Some);
        if 0 <= i < policy.rules.len() && pick(policy.rules[i]) is Some && i < at {
            assert(pick(policy.rules[i]) is None);
        }
    }
}

/// The policy for tunnels admits exactly the traffic on loopback and on the tunnel, in both
/// directions, and drops everything else.
pub proof fn kill_switch_admits_loopback_and_tunnel_alone(
    loopback_index: Option<u32>,
    tunnel_index: u32,
    direction: Direction,
    packet: Packet,
    control: spec_fn(FirewallRule) -> u8,
)
    ensures
        ({
            let policy = Policy {
                rules: match loopback_index {
                    Some(index) => both_ways(index),
                    None => Seq::empty(),
                } + both_ways(tunnel_index),
                default_verdict: Verdict::Deny,
            };
            policy_verdict(policy, direction, packet, control) == (if packet.interface(direction)
                == tunnel_index || loopback_index == Some(packet.interface(direction)) {
                Verdict::Allow
            } else {
                Verdict::Deny
            })
        }),
{
    let rules = match loopback_index {
        Some(index) => both_ways(index),
        None => Seq::empty(),
    } + both_ways(tunnel_index);
    let policy = Policy { rules, default_verdict: Verdict::Deny };
    let pick = describing(direction, packet, control);
    let at = lemma_earliest_at(rules, pick);
    let n = rules.len();
    assert(n == 2 || n == 4);
    assert(pick(rules[n - 2]) is Some || pick(rules[n - 1]) is Some <==> packet.interface(direction)
        == tunnel_index);
    if let Some(index) = loopback_index {
        assert(pick(rules[0]) is Some || pick(rules[1]) is Some <==> packet.interface(direction)
            == index);
    }
}

/// A packet's local interface, remote address and remote port are those of its arrival inbound
/// and of its departure outbound.
pub proof fn remote_side_follows_the_direction(packet: Packet)
    ensures
        packet.interface(Direction::Inbound) == packet.input,
        packet.interface(Direction::Outbound) == packet.output,
        packet.remote_address(Direction::Inbound) == packet.source,
        packet.remote_address(Direction::Outbound) == packet.destination,
        packet.remote_port(Direction::Inbound) == packet.source_port,
        packet.remote_port(Direction::Outbound) == packet.destination_port,
{
}

/// The octets of an address are those of its family: four or sixteen of them, in their order.
pub proof fn octets_are_those_of_the_family(four: Ipv4Address, six: Ipv6Address)
    ensures
        octets_of(IpAddress::V4(four)) == four.bytes(),
        octets_of(IpAddress::V6(six)) == six.bytes(),
{
}

/// An address is a network's own where all bits beyond the prefix are zero.
pub proof fn network_addresses_have_no_further_bits(network: Network)
    requires
        network.valid(),
    ensures
        is_network_address(network) <==> forall|k: int|
            0 <= k < octets_of(network.address()).len() ==> octets_of(network.address())[k]
                & prefix_mask(
                network.prefix_bits() as int,
                octets_of(network.address()).len(),
            )[k] == #[trigger] octets_of(network.address())[k],
{
    let octets = octets_of(network.address());
    match network.address() {
        IpAddress::V4(inner) => {
            ipv4_is_its_octets(inner, inner, Seq::new(4, |i: int| 0u8));
        },
        IpAddress::V6(inner) => {
            ipv6_is_its_octets(inner, Seq::new(16, |i: int| 0u8));
        },
    }
    let kept = masked(octets, mask_of(network));
    if is_network_address(network) {
        assert forall|k: int| 0 <= k < octets.len() implies octets[k] & mask_of(network)[k]
            == #[trigger] octets[k] by {
            assert(kept[k] == octets[k]);
        }
    }
    if forall|k: int|
        0 <= k < octets.len() ==> octets[k] & mask_of(network)[k] == #[trigger] octets[k] {
        assert(kept =~= octets);
    }
}

} // verus!
