//! Native-firewall rules and policies.

use crate::address::Network;
use crate::interface::Interface;
use crate::ipv4::Ipv4Network;
use crate::ipv6::Ipv6Network;
use crate::text::chars_of;
use crate::text::same_chars;
use vstd::prelude::*;

verus! {

/// Which side of a connection a [`FirewallRule`] matches.
#[derive(Debug, Clone, Copy, PartialEq, Eq, Hash, Structural)]
#[non_exhaustive]
pub enum Direction {
    /// Matches inbound traffic (arriving at this host).
    Inbound,
    /// Matches outbound traffic (leaving this host).
    Outbound,
}

/// The terminating action a matching [`FirewallRule`] applies.
#[derive(Debug, Clone, Copy, PartialEq, Eq, Hash, Structural)]
#[non_exhaustive]
pub enum Verdict {
    /// Permit the matching traffic.
    Allow,
    /// Silently drop the matching traffic.
    Deny,
}

/// The transport-layer protocol a [`FirewallRule`] matches.
#[derive(Debug, Clone, Copy, PartialEq, Eq, Hash, Structural)]
#[non_exhaustive]
pub enum Protocol {
    /// TCP.
    Tcp,
    /// UDP.
    Udp,
    /// ICMP (IPv4) or ICMPv6.
    Icmp,
}

/// An inclusive range of transport-layer ports, `start..=end`.
///
/// A single port is expressed as a range whose `start` equals its `end`.
#[derive(Debug, Clone, Copy, PartialEq, Eq, Hash, Structural)]
pub struct PortRange {
    /// The first port in the range, inclusive.
    pub start: u16,
    /// The last port in the range, inclusive.
    pub end: u16,
}

impl PortRange {
    /// Creates a range covering exactly one port.
    pub fn single(port: u16) -> (range: Self)
        ensures
            range == (PortRange { start: port, end: port }),
    {
        PortRange { start: port, end: port }
    }

    /// Creates an inclusive port range.
    ///
    /// Both ends are taken as given, including the degenerate case `start > end`.
    pub fn new(start: u16, end: u16) -> (range: Self)
        ensures
            range == (PortRange { start, end }),
    {
        PortRange { start, end }
    }
}

/// A single native-firewall rule: a packet match plus a terminating [`Verdict`].
#[derive(Debug, Clone, Copy, PartialEq, Eq, Hash, Structural)]
#[non_exhaustive]
pub struct FirewallRule {
    /// Which side of a connection this rule matches.
    pub direction: Direction,
    /// The interface this rule is scoped to, by raw OS-level index, if any. A rule with no
    /// interface matches on every interface.
    pub interface_index: Option<u32>,
    /// The remote network to match, if any (source for [`Direction::Inbound`], destination for
    /// [`Direction::Outbound`]). A rule with no remote network matches every remote address.
    pub remote: Option<Network>,
    /// The transport protocol to match, if any. Required for `port` to have any effect.
    pub protocol: Option<Protocol>,
    /// The remote port range to match, if any. Only meaningful alongside a protocol with
    /// ports.
    pub port: Option<PortRange>,
    /// The action this rule applies when it matches.
    pub verdict: Verdict,
}

impl FirewallRule {
    /// The rule for every interface and remote address.
    pub open spec fn plain(direction: Direction, verdict: Verdict) -> Self {
        FirewallRule {
            direction,
            interface_index: None,
            remote: None,
            protocol: None,
            port: None,
            verdict,
        }
    }

    /// Creates a rule matching every interface and remote address for `direction`, applying
    /// `verdict`.
    pub fn new(direction: Direction, verdict: Verdict) -> (rule: Self)
        ensures
            rule == Self::plain(direction, verdict),
            rule.direction == direction,
            rule.verdict == verdict,
            rule.interface_index is None,
            rule.remote is None,
            rule.protocol is None,
            rule.port is None,
    {
        FirewallRule {
            direction,
            interface_index: None,
            remote: None,
            protocol: None,
            port: None,
            verdict,
        }
    }

    /// Scopes this rule to one interface, by raw OS-level index.
    pub fn with_interface_index(self, interface_index: u32) -> (rule: Self)
        ensures
            rule == (FirewallRule { interface_index: Some(interface_index), ..self }),
    {
        FirewallRule { interface_index: Some(interface_index), ..self }
    }

    /// Scopes this rule to one remote network.
    pub fn with_remote(self, remote: Network) -> (rule: Self)
        ensures
            rule == (FirewallRule { remote: Some(remote), ..self }),
    {
        FirewallRule { remote: Some(remote), ..self }
    }

    /// Scopes this rule to one transport protocol.
    pub fn with_protocol(self, protocol: Protocol) -> (rule: Self)
        ensures
            rule == (FirewallRule { protocol: Some(protocol), ..self }),
    {
        FirewallRule { protocol: Some(protocol), ..self }
    }

    /// Scopes this rule to one remote port range.
    pub fn with_port(self, port: PortRange) -> (rule: Self)
        ensures
            rule == (FirewallRule { port: Some(port), ..self }),
    {
        FirewallRule { port: Some(port), ..self }
    }

    /// The port range that has an effect: the one beside a protocol with ports.
    pub open spec fn effective_port(self) -> Option<PortRange> {
        if self.protocol == Some(Protocol::Tcp) || self.protocol == Some(Protocol::Udp) {
            self.port
        } else {
            None
        }
    }

    /// Whether a rule says nothing that has no effect: a port range stands only beside a
    /// protocol with ports, and a remote network's prefix suits its family.
    pub open spec fn normal(self) -> bool {
        &&& self.effective_port() == self.port
        &&& self.remote matches Some(network) ==> network.valid()
    }
}

/// What a policy says: the rules in order, and the verdict when none of them matches.
#[verifier::ext_equal]
pub struct Policy {
    /// The ordered rules; the first match wins.
    pub rules: Seq<FirewallRule>,
    /// The verdict when no rule matches.
    pub default_verdict: Verdict,
}

/// An ordered native-firewall policy: [`FirewallRule`]s evaluated in order, first match wins,
/// falling back to `default_verdict` when no rule matches.
#[derive(Debug, PartialEq, Eq, Hash)]
#[non_exhaustive]
pub struct FirewallPolicy {
    /// The ordered list of rules, evaluated first-match-wins.
    pub rules: Vec<FirewallRule>,
    /// The verdict applied when no rule in `rules` matches.
    pub default_verdict: Verdict,
}

impl View for FirewallPolicy {
    type V = Policy;

    open spec fn view(&self) -> Policy {
        Policy { rules: self.rules@, default_verdict: self.default_verdict }
    }
}

impl FirewallPolicy {
    /// Creates a policy with no rules, applying `default_verdict` to every packet.
    pub fn new(default_verdict: Verdict) -> (policy: Self)
        ensures
            policy@ == (Policy { rules: Seq::empty(), default_verdict }),
    {
        FirewallPolicy { rules: Vec::new(), default_verdict }
    }

    /// Appends one rule to the end of the ordered rule list.
    pub fn with_rule(self, rule: FirewallRule) -> (policy: Self)
        ensures
            policy@ == (Policy {
                rules: self@.rules.push(rule),
                default_verdict: self@.default_verdict,
            }),
    {
        let mut rules = self.rules;
        rules.push(rule);
        FirewallPolicy { rules, default_verdict: self.default_verdict }
    }
}

impl Clone for FirewallPolicy {
    fn clone(&self) -> (copy: Self)
        ensures
            copy@ == self@,
    {
        FirewallPolicy {
            rules: copy_rules(&self.rules),
            default_verdict: self.default_verdict,
        }
    }
}

/// Copies a list of rules.
pub fn copy_rules(list: &Vec<FirewallRule>) -> (copy: Vec<FirewallRule>)
    ensures
        copy@ == list@,
{
    let mut copy: Vec<FirewallRule> = Vec::new();
    let mut i: usize = 0;
    while i < list.len()
        invariant
            i <= list.len(),
            copy@ == list@.take(i as int),
        decreases list.len() - i,
    {
        copy.push(list[i]);
        i = i + 1;
        assert(copy@ =~= list@.take(i as int));
    }
    assert(list@.take(i as int) =~= list@);
    copy
}

/// Whether two lists hold the same rules in the same order.
pub fn same_rules(left: &Vec<FirewallRule>, right: &Vec<FirewallRule>) -> (same: bool)
    ensures
        same == (left@ == right@),
{
    if left.len() != right.len() {
        return false;
    }
    let mut i: usize = 0;
    while i < left.len()
        invariant
            i <= left.len() == right.len(),
            forall|k: int| 0 <= k < i ==> left@[k] == right@[k],
        decreases left.len() - i,
    {
        if left[i] != right[i] {
            return false;
        }
        i = i + 1;
    }
    assert(left@ =~= right@);
    true
}

// ---- protocol numbers ----

/// The protocol number of ICMP.
pub const IPPROTO_ICMP: u8 = 1;

/// The protocol number of TCP.
pub const IPPROTO_TCP: u8 = 6;

/// The protocol number of UDP.
pub const IPPROTO_UDP: u8 = 17;

/// The protocol number of ICMPv6.
pub const IPPROTO_ICMPV6: u8 = 58;

/// The number of a protocol beside a remote network.
pub open spec fn number_of_protocol(protocol: Protocol, remote: Option<Network>) -> u8 {
    match protocol {
        Protocol::Tcp => IPPROTO_TCP,
        Protocol::Udp => IPPROTO_UDP,
        Protocol::Icmp => if remote matches Some(network) && network is V6 {
            IPPROTO_ICMPV6
        } else {
            IPPROTO_ICMP
        },
    }
}

/// Returns the number of a protocol beside a remote network.
///
/// ICMP is ICMPv6 beside an IPv6 network and IPv4 ICMP otherwise, also when there is no remote
/// network to tell the family.
pub fn protocol_number(protocol: Protocol, remote: Option<&Network>) -> (number: u8)
    ensures
        number == number_of_protocol(
            protocol,
            match remote {
                Some(network) => Some(*network),
                None => None,
            },
        ),
        protocol == Protocol::Tcp ==> number == 6,
        protocol == Protocol::Udp ==> number == 17,
        protocol == Protocol::Icmp && (remote matches Some(network) && *network is V6) ==> number
            == 58,
        protocol == Protocol::Icmp && !(remote matches Some(network) && *network is V6) ==> number
            == 1,
{
    match protocol {
        Protocol::Tcp => IPPROTO_TCP,
        Protocol::Udp => IPPROTO_UDP,
        Protocol::Icmp => match remote {
            Some(Network::V6(_)) => IPPROTO_ICMPV6,
            _ => IPPROTO_ICMP,
        },
    }
}

/// The two bytes of a port, most significant first.
pub open spec fn port_bytes(port: u16) -> Seq<u8> {
    seq![(port / 256) as u8, (port % 256) as u8]
}

/// Returns the two bytes of a port, most significant first.
pub fn port_row(port: u16) -> (row: Vec<u8>)
    ensures
        row@ == port_bytes(port),
        row@.len() == 2,
        row@[0] * 256 + row@[1] == port,
{
    let row = vec![(port / 256) as u8, (port % 256) as u8];
    assert(row@ =~= port_bytes(port));
    row
}

// ---- a policy for tunnels ----

/// The rules that admit traffic of both directions on one interface.
pub open spec fn both_ways(interface_index: u32) -> Seq<FirewallRule> {
    seq![
        FirewallRule {
            interface_index: Some(interface_index),
            ..FirewallRule::plain(Direction::Outbound, Verdict::Allow)
        },
        FirewallRule {
            interface_index: Some(interface_index),
            ..FirewallRule::plain(Direction::Inbound, Verdict::Allow)
        },
    ]
}

/// A policy that admits traffic only through loopback and a tunnel.
///
/// Everything else, including traffic that would leave through the physical interface when
/// the tunnel drops, falls through to the default verdict and is dropped.
pub fn kill_switch_policy(loopback_index: Option<u32>, tunnel_index: u32) -> (policy:
    FirewallPolicy)
    ensures
        policy@ == (Policy {
            rules: match loopback_index {
                Some(index) => both_ways(index),
                None => Seq::empty(),
            } + both_ways(tunnel_index),
            default_verdict: Verdict::Deny,
        }),
{
    let mut policy = FirewallPolicy::new(Verdict::Deny);
    if let Some(index) = loopback_index {
        policy = policy.with_rule(
            FirewallRule::new(Direction::Outbound, Verdict::Allow).with_interface_index(index),
        ).with_rule(
            FirewallRule::new(Direction::Inbound, Verdict::Allow).with_interface_index(index),
        );
    }
    let policy = policy.with_rule(
        FirewallRule::new(Direction::Outbound, Verdict::Allow).with_interface_index(tunnel_index),
    ).with_rule(
        FirewallRule::new(Direction::Inbound, Verdict::Allow).with_interface_index(tunnel_index),
    );
    assert(policy@ =~= Policy {
        rules: match loopback_index {
            Some(index) => both_ways(index),
            None => Seq::empty(),
        } + both_ways(tunnel_index),
        default_verdict: Verdict::Deny,
    });
    policy
}

/// The index of the first interface with a given name.
pub open spec fn index_named(interfaces: Seq<Interface>, name: Seq<char>) -> Option<u32>
    decreases interfaces.len(),
{
    if interfaces.len() == 0 {
        None
    } else if interfaces[0].name@ == name {
        Some(interfaces[0].index)
    } else {
        index_named(interfaces.skip(1), name)
    }
}

/// Finds the index of the first interface with a given name.
pub fn find_index_named(interfaces: &Vec<Interface>, name: &str) -> (index: Option<u32>)
    ensures
        index == index_named(interfaces@, name@),
        match index {
            Some(found) => exists|i: int|
                0 <= i < interfaces@.len() && (#[trigger] interfaces@[i]).name@ == name@
                    && interfaces@[i].index == found && forall|k: int|
                    0 <= k < i ==> (#[trigger] interfaces@[k]).name@ != name@,
            None => forall|k: int|
                0 <= k < interfaces@.len() ==> (#[trigger] interfaces@[k]).name@ != name@,
        },
{
    let wanted = chars_of(name);
    let mut i: usize = 0;
    assert(interfaces@.skip(0) =~= interfaces@);
    while i < interfaces.len()
        invariant
            i <= interfaces.len(),
            wanted@ == name@,
            forall|k: int| 0 <= k < i ==> (#[trigger] interfaces@[k]).name@ != name@,
            index_named(interfaces@, name@) == index_named(interfaces@.skip(i as int), name@),
        decreases interfaces.len() - i,
    {
        let found = chars_of(interfaces[i].name.as_str());
        proof {
            assert(interfaces@.skip(i as int)[0] == interfaces@[i as int]);
            assert(interfaces@[i as int].name@ == found@);
            assert(interfaces@.skip(i as int).skip(1) =~= interfaces@.skip(i + 1));
        }
        if same_chars(&found, &wanted) {
            return Some(interfaces[i].index);
        }
        i = i + 1;
    }
    None
}

// ---- laws ----

/// Protocols have their assigned numbers: TCP is 6 and UDP is 17 beside any network, and ICMP is
/// 58 beside an IPv6 network, 1 beside an IPv4 network and 1 beside none.
pub proof fn protocols_have_their_assigned_numbers(
    remote: Option<Network>,
    v4: Ipv4Network,
    v6: Ipv6Network,
)
    ensures
        number_of_protocol(Protocol::Tcp, remote) == 6,
        number_of_protocol(Protocol::Udp, remote) == 17,
        number_of_protocol(Protocol::Icmp, Some(Network::V4(v4))) == 1,
        number_of_protocol(Protocol::Icmp, Some(Network::V6(v6))) == 58,
        number_of_protocol(Protocol::Icmp, None) == 1,
{
}

/// A port range has an effect exactly beside a protocol with ports: beside TCP and UDP it is
/// kept, beside ICMP or no protocol it is not.
pub proof fn ports_count_beside_protocols_with_ports(rule: FirewallRule)
    ensures
        rule.protocol == Some(Protocol::Tcp) ==> rule.effective_port() == rule.port,
        rule.protocol == Some(Protocol::Udp) ==> rule.effective_port() == rule.port,
        rule.protocol == Some(Protocol::Icmp) ==> rule.effective_port() is None,
        rule.protocol is None ==> rule.effective_port() is None,
{
}

/// The two bytes of a port are its value in base 256, most significant first.
pub proof fn port_bytes_are_big_endian(port: u16)
    ensures
        port_bytes(port).len() == 2,
        port_bytes(port)[0] * 256 + port_bytes(port)[1] == port,
{
}

/// A policy says its rules, in their order, and its default verdict.
pub proof fn policies_say_what_they_hold(policy: FirewallPolicy)
    ensures
        policy@.rules == policy.rules@,
        policy@.default_verdict == policy.default_verdict,
{
}

} // verus!
