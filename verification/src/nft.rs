//! The Linux firewall: how a policy becomes an nftables transaction.
//!
//! One table holds two base chains, one for traffic to this host and one for traffic from it.
//! The policy's default verdict is the policy of both chains, and every rule becomes one
//! nftables rule in the chain of its direction.

use crate::address::Network;
use crate::firewall::copy_rules;
use crate::firewall::number_of_protocol;
use crate::firewall::port_bytes;
use crate::firewall::port_row;
use crate::firewall::protocol_number;
use crate::firewall::Direction;
use crate::firewall::FirewallPolicy;
use crate::firewall::FirewallRule;
use crate::firewall::Policy;
use crate::firewall::PortRange;
use crate::firewall::Protocol;
use crate::firewall::Verdict;
use crate::gather::earliest;
use crate::ipv4::Ipv4Network;
use crate::ipv6::Ipv6Network;
use crate::mask::ipv4_prefix_mask;
use crate::mask::ipv6_prefix_mask;
use crate::mask::prefix_mask;
use crate::traffic::address_width;
use crate::traffic::control_by_remote;
use crate::traffic::describes;
use crate::traffic::describing;
use crate::traffic::in_network;
use crate::traffic::is_network_address;
use crate::traffic::mask_of;
use crate::traffic::masked;
use crate::traffic::octets_of;
use crate::traffic::policy_verdict;
use crate::traffic::Packet;
use vstd::prelude::*;

verus! {

/// The policy that this backend takes.
pub type LinuxFirewallPolicy = FirewallPolicy;

/// What an expression loads out of a packet.
#[derive(Debug, Clone, Copy, PartialEq, Eq, Structural)]
pub enum Source {
    /// The index of the interface that the packet came in on.
    InputInterface,
    /// The index of the interface that the packet goes out on.
    OutputInterface,
    /// The transport protocol's number.
    Layer4Protocol,
    /// The IPv4 source address.
    Ipv4Source,
    /// The IPv4 destination address.
    Ipv4Destination,
    /// The IPv6 source address.
    Ipv6Source,
    /// The IPv6 destination address.
    Ipv6Destination,
    /// The TCP source port.
    TcpSourcePort,
    /// The TCP destination port.
    TcpDestinationPort,
    /// The UDP source port.
    UdpSourcePort,
    /// The UDP destination port.
    UdpDestinationPort,
}

/// How loaded bytes are compared.
#[derive(Debug, Clone, Copy, PartialEq, Eq, Structural)]
pub enum Comparison {
    /// Equal.
    Equal,
    /// Greater or equal.
    AtLeast,
    /// Less or equal.
    AtMost,
}

/// One expression of an nftables rule.
#[derive(Debug, Clone, PartialEq, Eq)]
pub enum NftExpr {
    /// Loads something out of the packet.
    Load(Source),
    /// Masks the loaded bytes, then flips some of them.
    Mask {
        /// The bytes to keep.
        mask: Vec<u8>,
        /// The bits to flip.
        xor: Vec<u8>,
    },
    /// Goes on only if the loaded interface index is the given one.
    CompareIndex(u32),
    /// Goes on only if the loaded protocol number is the given one.
    CompareProtocol(u8),
    /// Goes on only if the loaded bytes compare to the given ones.
    CompareBytes {
        /// How they have to compare.
        op: Comparison,
        /// The bytes to compare with, in the order of the wire.
        bytes: Vec<u8>,
    },
    /// Ends the evaluation with a verdict.
    Verdict(Verdict),
}

/// What an expression says.
#[verifier::ext_equal]
pub enum Expression {
    /// Loads something out of the packet.
    Load(Source),
    /// Masks the loaded bytes, then flips some of them.
    Mask {
        /// The bytes to keep.
        mask: Seq<u8>,
        /// The bits to flip.
        xor: Seq<u8>,
    },
    /// Goes on only if the loaded interface index is the given one.
    CompareIndex(u32),
    /// Goes on only if the loaded protocol number is the given one.
    CompareProtocol(u8),
    /// Goes on only if the loaded bytes compare to the given ones.
    CompareBytes {
        /// How they have to compare.
        op: Comparison,
        /// The bytes to compare with.
        bytes: Seq<u8>,
    },
    /// Ends the evaluation with a verdict.
    Verdict(Verdict),
}

impl View for NftExpr {
    type V = Expression;

    open spec fn view(&self) -> Expression {
        match self {
            NftExpr::Load(source) => Expression::Load(*source),
            NftExpr::Mask { mask, xor } => Expression::Mask { mask: mask@, xor: xor@ },
            NftExpr::CompareIndex(index) => Expression::CompareIndex(*index),
            NftExpr::CompareProtocol(number) => Expression::CompareProtocol(*number),
            NftExpr::CompareBytes { op, bytes } => Expression::CompareBytes {
                op: *op,
                bytes: bytes@,
            },
            NftExpr::Verdict(verdict) => Expression::Verdict(*verdict),
        }
    }
}

/// What a list of expressions says.
pub open spec fn expressions(list: Seq<NftExpr>) -> Seq<Expression> {
    list.map_values(|expr: NftExpr| expr@)
}

/// An expression appended to a list is appended to what the list says.
proof fn lemma_expressions_push(list: Seq<NftExpr>, expr: NftExpr)
    ensures
        expressions(list.push(expr)) == expressions(list) + seq![expr@],
{
    assert(expressions(list.push(expr)) =~= expressions(list) + seq![expr@]);
}

/// Appends an expression.
fn push_expr(list: &mut Vec<NftExpr>, expr: NftExpr)
    ensures
        expressions(final(list)@) == expressions(old(list)@) + seq![expr@],
{
    proof {
        lemma_expressions_push(list@, expr);
    }
    list.push(expr);
}

// ---- expressions of a rule ----

/// Row of zero bytes.
pub open spec fn zeros(width: nat) -> Seq<u8> {
    Seq::new(width, |i: int| 0u8)
}

/// The expressions that match an interface.
pub open spec fn interface_match(direction: Direction, index: Option<u32>) -> Seq<Expression> {
    match index {
        None => Seq::empty(),
        Some(number) => seq![
            Expression::Load(
                match direction {
                    Direction::Inbound => Source::InputInterface,
                    Direction::Outbound => Source::OutputInterface,
                },
            ),
            Expression::CompareIndex(number),
        ],
    }
}

/// Where the remote address of a packet stands.
pub open spec fn remote_source(direction: Direction, remote: Network) -> Source {
    match (remote, direction) {
        (Network::V4(_), Direction::Inbound) => Source::Ipv4Source,
        (Network::V4(_), Direction::Outbound) => Source::Ipv4Destination,
        (Network::V6(_), Direction::Inbound) => Source::Ipv6Source,
        (Network::V6(_), Direction::Outbound) => Source::Ipv6Destination,
    }
}

/// The expressions that match a remote network: its address, masked by its prefix length.
pub open spec fn remote_match(direction: Direction, remote: Option<Network>) -> Seq<Expression> {
    match remote {
        None => Seq::empty(),
        Some(network) => seq![
            Expression::Load(remote_source(direction, network)),
            Expression::Mask {
                mask: mask_of(network),
                xor: zeros(address_width(network)),
            },
            Expression::CompareBytes {
                op: Comparison::Equal,
                bytes: octets_of(network.address()),
            },
        ],
    }
}

/// The expressions that match a protocol.
pub open spec fn protocol_match(protocol: Option<Protocol>, remote: Option<Network>) -> Seq<
    Expression,
> {
    match protocol {
        None => Seq::empty(),
        Some(inner) => seq![
            Expression::Load(Source::Layer4Protocol),
            Expression::CompareProtocol(number_of_protocol(inner, remote)),
        ],
    }
}

/// Where the remote port of a packet stands, for a protocol that has ports.
pub open spec fn port_source(direction: Direction, protocol: Protocol) -> Source {
    match (protocol, direction) {
        (Protocol::Tcp, Direction::Inbound) => Source::TcpSourcePort,
        (Protocol::Tcp, Direction::Outbound) => Source::TcpDestinationPort,
        (_, Direction::Inbound) => Source::UdpSourcePort,
        (_, Direction::Outbound) => Source::UdpDestinationPort,
    }
}

/// The expressions that match a range of remote ports. A single port is one comparison, a
/// wider range two.
pub open spec fn port_match(
    direction: Direction,
    protocol: Option<Protocol>,
    port: Option<PortRange>,
) -> Seq<Expression> {
    match (protocol, port) {
        (Some(inner), Some(range)) => if inner == Protocol::Icmp {
            Seq::empty()
        } else if range.start == range.end {
            seq![
                Expression::Load(port_source(direction, inner)),
                Expression::CompareBytes { op: Comparison::Equal, bytes: port_bytes(range.start) },
            ]
        } else {
            seq![
                Expression::Load(port_source(direction, inner)),
                Expression::CompareBytes {
                    op: Comparison::AtLeast,
                    bytes: port_bytes(range.start),
                },
                Expression::Load(port_source(direction, inner)),
                Expression::CompareBytes { op: Comparison::AtMost, bytes: port_bytes(range.end) },
            ]
        },
        _ => Seq::empty(),
    }
}

/// The expressions of a rule: interface, remote network, protocol, port, verdict.
pub open spec fn rule_expressions(rule: FirewallRule) -> Seq<Expression> {
    interface_match(rule.direction, rule.interface_index) + remote_match(
        rule.direction,
        rule.remote,
    ) + protocol_match(rule.protocol, rule.remote) + port_match(
        rule.direction,
        rule.protocol,
        rule.port,
    ) + seq![Expression::Verdict(rule.verdict)]
}

/// Appends the expressions that match a remote network: the source address of inbound traffic,
/// the destination address of outbound traffic.
fn add_remote_match(list: &mut Vec<NftExpr>, direction: Direction, remote: Network)
    ensures
        expressions(final(list)@) == expressions(old(list)@) + remote_match(
            direction,
            Some(remote),
        ),
{
    match remote {
        Network::V4(network) => {
            let source = match direction {
                Direction::Inbound => Source::Ipv4Source,
                Direction::Outbound => Source::Ipv4Destination,
            };
            push_expr(list, NftExpr::Load(source));
            let mask = ipv4_prefix_mask(network.prefix().value() as u32);
            let mask = vec![mask[0], mask[1], mask[2], mask[3]];
            assert(mask@ =~= prefix_mask(remote.prefix_bits() as int, 4));
            let xor = vec![0u8, 0, 0, 0];
            assert(xor@ =~= zeros(4));
            push_expr(list, NftExpr::Mask { mask, xor });
            let octets = network.address().octets();
            let bytes = vec![octets[0], octets[1], octets[2], octets[3]];
            assert(bytes@ =~= octets@);
            push_expr(list, NftExpr::CompareBytes { op: Comparison::Equal, bytes });
        },
        Network::V6(network) => {
            let source = match direction {
                Direction::Inbound => Source::Ipv6Source,
                Direction::Outbound => Source::Ipv6Destination,
            };
            push_expr(list, NftExpr::Load(source));
            let mask = row_of_16(&ipv6_prefix_mask(network.prefix().value() as u32));
            let mut xor: Vec<u8> = Vec::new();
            let mut i: usize = 0;
            while i < 16
                invariant
                    i <= 16,
                    xor@ == zeros(i as nat),
                decreases 16 - i,
            {
                xor.push(0);
                i = i + 1;
                assert(xor@ =~= zeros(i as nat));
            }
            push_expr(list, NftExpr::Mask { mask, xor });
            let bytes = row_of_16(&network.address().octets());
            push_expr(list, NftExpr::CompareBytes { op: Comparison::Equal, bytes });
        },
    }
    assert(expressions(list@) =~= expressions(old(list)@) + remote_match(direction, Some(remote)));
}

/// Copies sixteen bytes.
fn row_of_16(bytes: &[u8; 16]) -> (row: Vec<u8>)
    ensures
        row@ == bytes@,
{
    let mut row: Vec<u8> = Vec::new();
    let mut i: usize = 0;
    while i < 16
        invariant
            i <= 16,
            bytes@.len() == 16,
            row@ == bytes@.take(i as int),
        decreases 16 - i,
    {
        row.push(bytes[i]);
        i = i + 1;
        assert(row@ =~= bytes@.take(i as int));
    }
    assert(bytes@.take(16) =~= bytes@);
    row
}

/// Appends the expressions that match a range of ports: the source port of inbound traffic, the
/// destination port of outbound traffic. ICMP has no ports.
fn add_port_match(
    list: &mut Vec<NftExpr>,
    direction: Direction,
    protocol: Protocol,
    start: u16,
    end: u16,
)
    ensures
        expressions(final(list)@) == expressions(old(list)@) + port_match(
            direction,
            Some(protocol),
            Some(PortRange { start, end }),
        ),
{
    let source = match (protocol, direction) {
        (Protocol::Tcp, Direction::Inbound) => Source::TcpSourcePort,
        (Protocol::Tcp, Direction::Outbound) => Source::TcpDestinationPort,
        (Protocol::Udp, Direction::Inbound) => Source::UdpSourcePort,
        (Protocol::Udp, Direction::Outbound) => Source::UdpDestinationPort,
        (Protocol::Icmp, _) => {
            assert(expressions(list@) =~= expressions(old(list)@) + Seq::empty());
            return;
        },
    };
    push_expr(list, NftExpr::Load(source));
    if start == end {
        push_expr(
            list,
            NftExpr::CompareBytes { op: Comparison::Equal, bytes: port_row(start) },
        );
    } else {
        push_expr(
            list,
            NftExpr::CompareBytes { op: Comparison::AtLeast, bytes: port_row(start) },
        );
        push_expr(list, NftExpr::Load(source));
        push_expr(list, NftExpr::CompareBytes { op: Comparison::AtMost, bytes: port_row(end) });
    }
    assert(expressions(list@) =~= expressions(old(list)@) + port_match(
        direction,
        Some(protocol),
        Some(PortRange { start, end }),
    ));
}

/// Compiles a rule to its expressions.
pub fn compile_rule(rule: &FirewallRule) -> (list: Vec<NftExpr>)
    ensures
        expressions(list@) == rule_expressions(*rule),
{
    let mut list: Vec<NftExpr> = Vec::new();
    assert(expressions(list@) =~= Seq::empty());
    if let Some(index) = rule.interface_index {
        let source = match rule.direction {
            Direction::Inbound => Source::InputInterface,
            Direction::Outbound => Source::OutputInterface,
        };
        push_expr(&mut list, NftExpr::Load(source));
        push_expr(&mut list, NftExpr::CompareIndex(index));
    }
    assert(expressions(list@) =~= interface_match(rule.direction, rule.interface_index));
    let ghost first = expressions(list@);
    if let Some(remote) = rule.remote {
        add_remote_match(&mut list, rule.direction, remote);
    }
    assert(expressions(list@) =~= first + remote_match(rule.direction, rule.remote));
    let ghost second = expressions(list@);
    if let Some(protocol) = rule.protocol {
        push_expr(&mut list, NftExpr::Load(Source::Layer4Protocol));
        push_expr(
            &mut list,
            NftExpr::CompareProtocol(protocol_number(protocol, rule.remote.as_ref())),
        );
        assert(expressions(list@) =~= second + protocol_match(rule.protocol, rule.remote));
        let ghost third = expressions(list@);
        if let Some(port) = rule.port {
            if matches!(protocol, Protocol::Tcp) || matches!(protocol, Protocol::Udp) {
                add_port_match(&mut list, rule.direction, protocol, port.start, port.end);
            }
        }
        assert(expressions(list@) =~= third + port_match(rule.direction, rule.protocol, rule.port));
    }
    let ghost matches = interface_match(rule.direction, rule.interface_index) + remote_match(
        rule.direction,
        rule.remote,
    ) + protocol_match(rule.protocol, rule.remote) + port_match(
        rule.direction,
        rule.protocol,
        rule.port,
    );
    assert(expressions(list@) =~= matches);
    push_expr(&mut list, NftExpr::Verdict(rule.verdict));
    list
}

// ---- the transaction ----

/// The name of the table.
pub const TABLE_NAME: &'static str = "net_lattice";

/// The name of the chain for traffic to this host.
pub const INBOUND_CHAIN_NAME: &'static str = "inbound";

/// The name of the chain for traffic from this host.
pub const OUTBOUND_CHAIN_NAME: &'static str = "outbound";

/// One message of the transaction that replaces the policy.
#[derive(Debug, Clone, PartialEq, Eq)]
pub enum BatchMessage {
    /// Creates the table unless it exists.
    AddTable,
    /// Creates the chain of a direction unless it exists, and sets its policy.
    AddChain {
        /// The chain's direction.
        direction: Direction,
        /// What happens to a packet that no rule matches.
        policy: Verdict,
    },
    /// Removes every rule of a direction's chain.
    FlushChain(Direction),
    /// Appends a rule to a direction's chain.
    AddRule {
        /// The chain's direction.
        direction: Direction,
        /// The rule's expressions.
        expressions: Vec<NftExpr>,
    },
}

/// What a message of the transaction says.
#[verifier::ext_equal]
pub enum BatchStep {
    /// Creates the table.
    AddTable,
    /// Creates a chain.
    AddChain {
        /// The chain's direction.
        direction: Direction,
        /// What happens to a packet that no rule matches.
        policy: Verdict,
    },
    /// Removes every rule of a chain.
    FlushChain(Direction),
    /// Appends a rule to a chain.
    AddRule {
        /// The chain's direction.
        direction: Direction,
        /// The rule's expressions.
        expressions: Seq<Expression>,
    },
}

impl View for BatchMessage {
    type V = BatchStep;

    open spec fn view(&self) -> BatchStep {
        match self {
            BatchMessage::AddTable => BatchStep::AddTable,
            BatchMessage::AddChain { direction, policy } => BatchStep::AddChain {
                direction: *direction,
                policy: *policy,
            },
            BatchMessage::FlushChain(direction) => BatchStep::FlushChain(*direction),
            BatchMessage::AddRule { direction, expressions } => BatchStep::AddRule {
                direction: *direction,
                expressions: self::expressions(expressions@),
            },
        }
    }
}

/// What a list of messages says.
pub open spec fn batch_steps(list: Seq<BatchMessage>) -> Seq<BatchStep> {
    list.map_values(|message: BatchMessage| message@)
}

/// The transaction that replaces whatever was there by a policy: table and chains, then an
/// empty slate, then the rules in order.
pub open spec fn batch_of(policy: Policy) -> Seq<BatchStep> {
    seq![
        BatchStep::AddTable,
        BatchStep::AddChain { direction: Direction::Inbound, policy: policy.default_verdict },
        BatchStep::AddChain { direction: Direction::Outbound, policy: policy.default_verdict },
        BatchStep::FlushChain(Direction::Inbound),
        BatchStep::FlushChain(Direction::Outbound),
    ] + policy.rules.map_values(
        |rule: FirewallRule|
            BatchStep::AddRule { direction: rule.direction, expressions: rule_expressions(rule) },
    )
}

/// Builds the transaction that replaces the managed rules by a policy.
pub fn policy_batch(policy: &FirewallPolicy) -> (batch: Vec<BatchMessage>)
    ensures
        batch_steps(batch@) == batch_of(policy@),
{
    let mut batch: Vec<BatchMessage> = vec![
        BatchMessage::AddTable,
        BatchMessage::AddChain { direction: Direction::Inbound, policy: policy.default_verdict },
        BatchMessage::AddChain { direction: Direction::Outbound, policy: policy.default_verdict },
        BatchMessage::FlushChain(Direction::Inbound),
        BatchMessage::FlushChain(Direction::Outbound),
    ];
    let ghost all = batch_of(policy@);
    let mut i: usize = 0;
    assert(batch_steps(batch@) =~= all.take(5));
    while i < policy.rules.len()
        invariant
            i <= policy.rules.len(),
            all == batch_of(policy@),
            batch_steps(batch@) == all.take(5 + i),
        decreases policy.rules.len() - i,
    {
        let ghost before = batch@;
        let rule = &policy.rules[i];
        let message = BatchMessage::AddRule {
            direction: rule.direction,
            expressions: compile_rule(rule),
        };
        batch.push(message);
        proof {
            assert(batch_steps(batch@) =~= batch_steps(before).push(message@));
            assert(all[5 + i] == message@);
        }
        i = i + 1;
        assert(batch_steps(batch@) =~= all.take(5 + i));
    }
    assert(all.take(5 + i) =~= all);
    batch
}

/// Remembers the policy that was applied last.
///
/// The rules are not read back from the kernel, so a change made by someone else is not seen.
#[derive(Debug)]
pub struct AppliedPolicy {
    policy: Option<FirewallPolicy>,
}

impl AppliedPolicy {
    /// The rules of the policy that was applied last; none before that.
    pub closed spec fn remembered(self) -> Seq<FirewallRule> {
        match self.policy {
            Some(policy) => policy@.rules,
            None => Seq::empty(),
        }
    }

    /// Starts with nothing applied.
    pub fn new() -> (applied: Self)
        ensures
            applied.remembered() == Seq::<FirewallRule>::empty(),
    {
        AppliedPolicy { policy: None }
    }

    /// Remembers a policy that was applied.
    pub fn record(&mut self, policy: FirewallPolicy)
        ensures
            final(self).remembered() == policy@.rules,
    {
        self.policy = Some(policy);
    }

    /// Remembers that the policy was cleared, which is a policy without rules that allows
    /// everything.
    pub fn record_cleared(&mut self)
        ensures
            final(self).remembered() == Seq::<FirewallRule>::empty(),
    {
        self.policy = Some(cleared_policy());
    }

    /// Returns the rules of the policy that was applied last.
    pub fn rules(&self) -> (rules: Vec<FirewallRule>)
        ensures
            rules@ == self.remembered(),
    {
        match &self.policy {
            Some(policy) => copy_rules(&policy.rules),
            None => Vec::new(),
        }
    }
}

/// Returns the policy that stands for no policy: it allows everything.
pub fn cleared_policy() -> (policy: FirewallPolicy)
    ensures
        policy@ == (Policy { rules: Seq::empty(), default_verdict: Verdict::Allow }),
{
    FirewallPolicy::new(Verdict::Allow)
}

// ---- what the expressions do ----

/// What is loaded.
pub enum Loaded {
    /// Nothing yet.
    Nothing,
    /// An interface index.
    Index(u32),
    /// A protocol number.
    Protocol(u8),
    /// Bytes of the packet.
    Bytes(Seq<u8>),
}

/// How far an evaluation has come.
pub struct Progress {
    /// What is loaded.
    pub loaded: Loaded,
    /// The verdict, once there is one.
    pub verdict: Option<Verdict>,
}

/// What a source loads out of a packet.
pub open spec fn load(packet: Packet, source: Source) -> Loaded {
    match source {
        Source::InputInterface => Loaded::Index(packet.input),
        Source::OutputInterface => Loaded::Index(packet.output),
        Source::Layer4Protocol => Loaded::Protocol(packet.protocol),
        Source::Ipv4Source => Loaded::Bytes(packet.source),
        Source::Ipv4Destination => Loaded::Bytes(packet.destination),
        Source::Ipv6Source => Loaded::Bytes(packet.source),
        Source::Ipv6Destination => Loaded::Bytes(packet.destination),
        Source::TcpSourcePort => Loaded::Bytes(port_bytes(packet.source_port)),
        Source::TcpDestinationPort => Loaded::Bytes(port_bytes(packet.destination_port)),
        Source::UdpSourcePort => Loaded::Bytes(port_bytes(packet.source_port)),
        Source::UdpDestinationPort => Loaded::Bytes(port_bytes(packet.destination_port)),
    }
}

/// Bytes with some bits flipped.
pub open spec fn flipped(bytes: Seq<u8>, xor: Seq<u8>) -> Seq<u8> {
    Seq::new(bytes.len(), |i: int| bytes[i] ^ xor[i])
}

/// Whether the first bytes are no greater than the second ones, compared from the left.
pub open spec fn no_greater(left: Seq<u8>, right: Seq<u8>) -> bool
    decreases left.len(),
{
    left.len() == 0 || right.len() == 0 || left[0] < right[0] || left[0] == right[0] && no_greater(
        left.skip(1),
        right.skip(1),
    )
}

/// One step of the evaluation; nothing where a comparison fails.
pub open spec fn step(packet: Packet, progress: Progress, expression: Expression) -> Option<
    Progress,
> {
    match expression {
        Expression::Load(source) => Some(Progress { loaded: load(packet, source), ..progress }),
        Expression::Mask { mask, xor } => match progress.loaded {
            Loaded::Bytes(bytes) => Some(
                Progress { loaded: Loaded::Bytes(flipped(masked(bytes, mask), xor)), ..progress },
            ),
            _ => None,
        },
        Expression::CompareIndex(index) => if progress.loaded == Loaded::Index(index) {
            Some(progress)
        } else {
            None
        },
        Expression::CompareProtocol(number) => if progress.loaded == Loaded::Protocol(number) {
            Some(progress)
        } else {
            None
        },
        Expression::CompareBytes { op, bytes } => match progress.loaded {
            Loaded::Bytes(found) => if match op {
                Comparison::Equal => found == bytes,
                Comparison::AtLeast => no_greater(bytes, found),
                Comparison::AtMost => no_greater(found, bytes),
            } {
                Some(progress)
            } else {
                None
            },
            _ => None,
        },
        Expression::Verdict(verdict) => Some(Progress { verdict: Some(verdict), ..progress }),
    }
}

/// The evaluation of a list of expressions; nothing where a comparison fails.
pub open spec fn evaluate(
    packet: Packet,
    start: Progress,
    list: Seq<Expression>,
) -> Option<Progress>
    decreases list.len(),
{
    if list.len() == 0 {
        Some(start)
    } else {
        match evaluate(packet, start, list.drop_last()) {
            None => None,
            Some(progress) => step(packet, progress, list.last()),
        }
    }
}

/// The verdict that a list of expressions gives on a packet; none where it does not match.
pub open spec fn verdict_on(packet: Packet, list: Seq<Expression>) -> Option<Verdict> {
    match evaluate(packet, Progress { loaded: Loaded::Nothing, verdict: None }, list) {
        Some(progress) => progress.verdict,
        None => None,
    }
}

/// Evaluation goes part by part.
proof fn lemma_evaluate_append(
    packet: Packet,
    start: Progress,
    left: Seq<Expression>,
    right: Seq<Expression>,
)
    ensures
        evaluate(packet, start, left + right) == (match evaluate(packet, start, left) {
            None => None,
            Some(progress) => evaluate(packet, progress, right),
        }),
    decreases right.len(),
{
    if right.len() == 0 {
        assert(left + right =~= left);
    } else {
        lemma_evaluate_append(packet, start, left, right.drop_last());
        assert((left + right).drop_last() =~= left + right.drop_last());
        assert((left + right).last() == right.last());
    }
}

/// Evaluation of two expressions.
proof fn lemma_evaluate_two(packet: Packet, start: Progress, a: Expression, b: Expression)
    ensures
        evaluate(packet, start, seq![a, b]) == (match step(packet, start, a) {
            None => None,
            Some(progress) => step(packet, progress, b),
        }),
{
    reveal_with_fuel(evaluate, 3);
    assert(seq![a, b].drop_last() =~= seq![a]);
    assert(seq![a].drop_last() =~= Seq::empty());
}

/// Two-byte ports compare as numbers.
proof fn lemma_ports_compare(left: u16, right: u16)
    ensures
        no_greater(port_bytes(left), port_bytes(right)) <==> left <= right,
        port_bytes(left) == port_bytes(right) <==> left == right,
{
    reveal_with_fuel(no_greater, 3);
    let l = port_bytes(left);
    let r = port_bytes(right);
    assert(l.skip(1)[0] == l[1]);
    assert(r.skip(1)[0] == r[1]);
    assert(left == l[0] * 256 + l[1]);
    assert(right == r[0] * 256 + r[1]);
}

/// Flipping no bits changes nothing.
proof fn lemma_flip_nothing(bytes: Seq<u8>, width: nat)
    requires
        bytes.len() == width,
    ensures
        flipped(bytes, zeros(width)) == bytes,
{
    assert forall|i: int| 0 <= i < width implies flipped(bytes, zeros(width))[i] == bytes[i] by {
        let byte = bytes[i];
        assert(byte ^ 0u8 == byte) by (bit_vector);
    }
    assert(flipped(bytes, zeros(width)) =~= bytes);
}

/// A compiled rule gives its verdict on exactly the packets that the rule describes.
///
/// The remote network's address has no bits beyond its prefix, and packets have addresses of
/// its family: an address with further bits matches no packet, and expressions for one family
/// say nothing of packets of the other.
pub proof fn compiled_rule_matches_what_it_describes(rule: FirewallRule, packet: Packet)
    requires
        rule.remote matches Some(network) ==> is_network_address(network)
            && packet.remote_address(rule.direction).len() == address_width(network),
    ensures
        verdict_on(packet, rule_expressions(rule)) == (if describes(
            rule,
            packet,
            control_by_remote()(rule),
        ) {
            Some(rule.verdict)
        } else {
            None
        }),
{
    let start = Progress { loaded: Loaded::Nothing, verdict: None };
    let interface = interface_match(rule.direction, rule.interface_index);
    let remote = remote_match(rule.direction, rule.remote);
    let protocol = protocol_match(rule.protocol, rule.remote);
    let port = port_match(rule.direction, rule.protocol, rule.port);
    let verdict = seq![Expression::Verdict(rule.verdict)];
    lemma_evaluate_append(packet, start, interface + remote + protocol + port, verdict);
    lemma_evaluate_append(packet, start, interface + remote + protocol, port);
    lemma_evaluate_append(packet, start, interface + remote, protocol);
    lemma_evaluate_append(packet, start, interface, remote);
    lemma_interface_part(rule, packet, start);
    let after_interface = evaluate(packet, start, interface);
    if let Some(first) = after_interface {
        lemma_remote_part(rule, packet, first);
        if let Some(second) = evaluate(packet, first, remote) {
            lemma_protocol_part(rule, packet, second);
            if let Some(third) = evaluate(packet, second, protocol) {
                lemma_port_part(rule, packet, third);
                if let Some(fourth) = evaluate(packet, third, port) {
                    reveal_with_fuel(evaluate, 2);
                    assert(verdict.drop_last() =~= Seq::empty());
                    assert(evaluate(packet, fourth, verdict) == step(
                        packet,
                        fourth,
                        Expression::Verdict(rule.verdict),
                    ));
                }
            }
        }
    }
}

/// The interface part goes on exactly where the packet is on the interface.
proof fn lemma_interface_part(rule: FirewallRule, packet: Packet, start: Progress)
    ensures
        evaluate(packet, start, interface_match(rule.direction, rule.interface_index)) is Some
            <==> (rule.interface_index matches Some(index) ==> index == (match rule.direction {
            Direction::Inbound => packet.input,
            Direction::Outbound => packet.output,
        })),
{
    if let Some(index) = rule.interface_index {
        let list = interface_match(rule.direction, rule.interface_index);
        assert(list =~= seq![list[0], list[1]]);
        lemma_evaluate_two(packet, start, list[0], list[1]);
    }
}

/// The remote part goes on exactly where the remote address is in the network.
proof fn lemma_remote_part(rule: FirewallRule, packet: Packet, start: Progress)
    requires
        rule.remote matches Some(network) ==> is_network_address(network)
            && packet.remote_address(rule.direction).len() == address_width(network),
    ensures
        evaluate(packet, start, remote_match(rule.direction, rule.remote)) is Some <==> (
        rule.remote matches Some(network) ==> in_network(
            packet.remote_address(rule.direction),
            network,
        )),
{
    if let Some(network) = rule.remote {
        let list = remote_match(rule.direction, rule.remote);
        let address = packet.remote_address(rule.direction);
        let width = address_width(network);
        let mask = mask_of(network);
        assert(list =~= seq![list[0], list[1]] + seq![list[2]]);
        lemma_evaluate_append(packet, start, seq![list[0], list[1]], seq![list[2]]);
        lemma_evaluate_two(packet, start, list[0], list[1]);
        lemma_flip_nothing(masked(address, mask), width);
        reveal_with_fuel(evaluate, 2);
        assert(seq![list[2]].drop_last() =~= Seq::empty());
    }
}

/// The protocol part goes on exactly where the packet has the protocol.
proof fn lemma_protocol_part(rule: FirewallRule, packet: Packet, start: Progress)
    ensures
        evaluate(packet, start, protocol_match(rule.protocol, rule.remote)) is Some <==> (
        rule.protocol matches Some(protocol) ==> packet.protocol == number_of_protocol(
            protocol,
            rule.remote,
        )),
{
    if let Some(protocol) = rule.protocol {
        let list = protocol_match(rule.protocol, rule.remote);
        assert(list =~= seq![list[0], list[1]]);
        lemma_evaluate_two(packet, start, list[0], list[1]);
    }
}

/// The port part goes on exactly where the remote port is in the range.
proof fn lemma_port_part(rule: FirewallRule, packet: Packet, start: Progress)
    ensures
        evaluate(packet, start, port_match(rule.direction, rule.protocol, rule.port)) is Some
            <==> (rule.effective_port() matches Some(range) ==> range.start <= packet.remote_port(
            rule.direction,
        ) <= range.end),
{
    if let (Some(protocol), Some(range)) = (rule.protocol, rule.port) {
        if protocol != Protocol::Icmp {
            let list = port_match(rule.direction, rule.protocol, rule.port);
            let found = packet.remote_port(rule.direction);
            lemma_ports_compare(range.start, found);
            lemma_ports_compare(found, range.end);
            lemma_ports_compare(found, range.start);
            if range.start == range.end {
                assert(list =~= seq![list[0], list[1]]);
                lemma_evaluate_two(packet, start, list[0], list[1]);
            } else {
                let low = seq![list[0], list[1]];
                let high = seq![list[2], list[3]];
                assert(list =~= low + high);
                lemma_evaluate_append(packet, start, low, high);
                lemma_evaluate_two(packet, start, list[0], list[1]);
                if let Some(middle) = evaluate(packet, start, low) {
                    lemma_evaluate_two(packet, middle, list[2], list[3]);
                }
            }
        }
    }
}

// ---- what the transaction does ----

/// A chain.
#[verifier::ext_equal]
pub struct ChainState {
    /// What happens to a packet that no rule matches, once the chain exists.
    pub policy: Option<Verdict>,
    /// The chain's rules, in order.
    pub rules: Seq<Seq<Expression>>,
}

/// A direction's chain after one more message.
pub open spec fn chain_step(
    chain: ChainState,
    direction: Direction,
    step: BatchStep,
) -> ChainState {
    match step {
        BatchStep::AddTable => chain,
        BatchStep::AddChain { direction: which, policy } => if which == direction {
            ChainState { policy: Some(policy), ..chain }
        } else {
            chain
        },
        BatchStep::FlushChain(which) => if which == direction {
            ChainState { rules: Seq::empty(), ..chain }
        } else {
            chain
        },
        BatchStep::AddRule { direction: which, expressions } => if which == direction {
            ChainState { rules: chain.rules.push(expressions), ..chain }
        } else {
            chain
        },
    }
}

/// A direction's chain after a transaction.
pub open spec fn chain_after(
    chain: ChainState,
    direction: Direction,
    steps: Seq<BatchStep>,
) -> ChainState
    decreases steps.len(),
{
    if steps.len() == 0 {
        chain
    } else {
        chain_step(chain_after(chain, direction, steps.drop_last()), direction, steps.last())
    }
}

/// What a chain does to a packet: the verdict of the first rule that matches, or else its
/// policy.
pub open spec fn chain_verdict(chain: ChainState, packet: Packet) -> Option<Verdict> {
    match earliest(chain.rules, |list: Seq<Expression>| verdict_on(packet, list)) {
        Some(verdict) => Some(verdict),
        None => chain.policy,
    }
}

/// Whether a rule can be matched by expressions alone: its remote network's address has no bits
/// beyond its prefix, and the packet's addresses are of its family.
pub open spec fn comparable(rule: FirewallRule, packet: Packet) -> bool {
    rule.remote matches Some(network) ==> is_network_address(network)
            && packet.remote_address(rule.direction).len() == address_width(network)
}

/// The transaction does what the policy says. Whatever the chains held before, a packet of
/// either direction gets the verdict of the first rule that describes it, or else the default
/// verdict.
pub proof fn transaction_enforces_the_policy(
    policy: Policy,
    before: ChainState,
    direction: Direction,
    packet: Packet,
)
    requires
        forall|i: int|
            0 <= i < policy.rules.len() ==> comparable(#[trigger] policy.rules[i], packet),
    ensures
        chain_verdict(chain_after(before, direction, batch_of(policy)), packet) == Some(
            policy_verdict(policy, direction, packet, control_by_remote()),
        ),
{
    let all = batch_of(policy);
    lemma_chain_rules(policy, before, direction, packet, policy.rules.len());
    assert(all.take((5 + policy.rules.len()) as int) =~= all);
    assert(policy.rules.take(policy.rules.len() as int) =~= policy.rules);
}

/// The chain after table, chains, flushes and the first `n` rules.
proof fn lemma_chain_rules(
    policy: Policy,
    before: ChainState,
    direction: Direction,
    packet: Packet,
    n: nat,
)
    requires
        n <= policy.rules.len(),
        forall|i: int|
            0 <= i < policy.rules.len() ==> comparable(#[trigger] policy.rules[i], packet),
    ensures
        chain_after(before, direction, batch_of(policy).take((5 + n) as int)).policy == Some(
            policy.default_verdict,
        ),
        earliest(
            chain_after(before, direction, batch_of(policy).take((5 + n) as int)).rules,
            |list: Seq<Expression>| verdict_on(packet, list),
        ) == earliest(
            policy.rules.take(n as int),
            describing(direction, packet, control_by_remote()),
        ),
    decreases n,
{
    let all = batch_of(policy);
    let pick = |list: Seq<Expression>| verdict_on(packet, list);
    if n == 0 {
        reveal_with_fuel(chain_after, 6);
        let five = all.take(5);
        assert(five.drop_last() =~= all.take(4));
        assert(all.take(4).drop_last() =~= all.take(3));
        assert(all.take(3).drop_last() =~= all.take(2));
        assert(all.take(2).drop_last() =~= all.take(1));
        assert(all.take(1).drop_last() =~= all.take(0));
        assert(five.last() == BatchStep::FlushChain(Direction::Outbound));
        assert(all.take(4).last() == BatchStep::FlushChain(Direction::Inbound));
        assert(chain_after(before, direction, five).rules =~= Seq::empty());
        assert(policy.rules.take(0) =~= Seq::empty());
    } else {
        let shorter = (n - 1) as nat;
        lemma_chain_rules(policy, before, direction, packet, shorter);
        let longer = all.take((5 + n) as int);
        assert(longer.drop_last() =~= all.take((5 + shorter) as int));
        let rule = policy.rules[shorter as int];
        assert(longer.last() == BatchStep::AddRule {
            direction: rule.direction,
            expressions: rule_expressions(rule),
        });
        assert(policy.rules.take(n as int).drop_last() =~= policy.rules.take(shorter as int));
        assert(policy.rules.take(n as int).last() == rule);
        assert(comparable(rule, packet));
        compiled_rule_matches_what_it_describes(rule, packet);
        let chain = chain_after(before, direction, all.take((5 + shorter) as int));
        let next = chain_after(before, direction, longer);
        if rule.direction == direction {
            assert(next.rules == chain.rules.push(rule_expressions(rule)));
            assert(next.rules.drop_last() =~= chain.rules);
            assert(next.rules.last() == rule_expressions(rule));
            assert(earliest(next.rules, pick) == (match earliest(chain.rules, pick) {
                Some(value) => Some(value),
                None => pick(rule_expressions(rule)),
            }));
        } else {
            assert(next.rules == chain.rules);
        }
    }
}

/// A source reads the field of the packet that it names.
pub proof fn sources_read_what_they_name(packet: Packet)
    ensures
        load(packet, Source::InputInterface) == Loaded::Index(packet.input),
        load(packet, Source::OutputInterface) == Loaded::Index(packet.output),
        load(packet, Source::Layer4Protocol) == Loaded::Protocol(packet.protocol),
        load(packet, Source::Ipv4Source) == Loaded::Bytes(packet.source),
        load(packet, Source::Ipv4Destination) == Loaded::Bytes(packet.destination),
        load(packet, Source::Ipv6Source) == Loaded::Bytes(packet.source),
        load(packet, Source::Ipv6Destination) == Loaded::Bytes(packet.destination),
        load(packet, Source::TcpSourcePort) == Loaded::Bytes(port_bytes(packet.source_port)),
        load(packet, Source::TcpDestinationPort) == Loaded::Bytes(
            port_bytes(packet.destination_port),
        ),
        load(packet, Source::UdpSourcePort) == Loaded::Bytes(port_bytes(packet.source_port)),
        load(packet, Source::UdpDestinationPort) == Loaded::Bytes(
            port_bytes(packet.destination_port),
        ),
{
}

/// Comparing the bytes of two ports compares the ports as numbers: the loaded port is equal to,
/// at least, or at most the one that is compared with.
pub proof fn port_comparisons_compare_numbers(
    packet: Packet,
    verdict: Option<Verdict>,
    found: u16,
    bound: u16,
)
    ensures
        ({
            let progress = Progress { loaded: Loaded::Bytes(port_bytes(found)), verdict };
            let bytes = port_bytes(bound);
            &&& step(packet, progress, Expression::CompareBytes { op: Comparison::Equal, bytes })
                is Some <==> found == bound
            &&& step(packet, progress, Expression::CompareBytes { op: Comparison::AtLeast, bytes })
                is Some <==> found >= bound
            &&& step(packet, progress, Expression::CompareBytes { op: Comparison::AtMost, bytes })
                is Some <==> found <= bound
        }),
{
    lemma_ports_compare(found, bound);
    lemma_ports_compare(bound, found);
}

/// What a compiled rule looks at follows its direction and its families: the input interface,
/// the source address and the source port inbound; the output interface, the destination address
/// and the destination port outbound. Addresses are compared with the network's own, under the
/// mask of its prefix and with no bit flipped.
pub proof fn compiled_rule_looks_at_the_remote_side(
    v4: Ipv4Network,
    v6: Ipv6Network,
    index: u32,
    range: PortRange,
)
    ensures
        interface_match(Direction::Inbound, Some(index))[0] == Expression::Load(
            Source::InputInterface,
        ),
        interface_match(Direction::Outbound, Some(index))[0] == Expression::Load(
            Source::OutputInterface,
        ),
        interface_match(Direction::Inbound, Some(index))[1] == Expression::CompareIndex(index),
        interface_match(Direction::Outbound, Some(index))[1] == Expression::CompareIndex(index),
        remote_match(Direction::Inbound, Some(Network::V4(v4))) == seq![
            Expression::Load(Source::Ipv4Source),
            Expression::Mask {
                mask: prefix_mask(v4.prefix().bits() as int, 4),
                xor: seq![0u8, 0, 0, 0],
            },
            Expression::CompareBytes { op: Comparison::Equal, bytes: v4.address().bytes() },
        ],
        remote_match(Direction::Outbound, Some(Network::V4(v4)))[0] == Expression::Load(
            Source::Ipv4Destination,
        ),
        remote_match(Direction::Outbound, Some(Network::V4(v4))).skip(1) == remote_match(
            Direction::Inbound,
            Some(Network::V4(v4)),
        ).skip(1),
        remote_match(Direction::Inbound, Some(Network::V6(v6))) == seq![
            Expression::Load(Source::Ipv6Source),
            Expression::Mask {
                mask: prefix_mask(v6.prefix().bits() as int, 16),
                xor: Seq::new(16, |i: int| 0u8),
            },
            Expression::CompareBytes { op: Comparison::Equal, bytes: v6.address().bytes() },
        ],
        remote_match(Direction::Outbound, Some(Network::V6(v6)))[0] == Expression::Load(
            Source::Ipv6Destination,
        ),
        remote_match(Direction::Outbound, Some(Network::V6(v6))).skip(1) == remote_match(
            Direction::Inbound,
            Some(Network::V6(v6)),
        ).skip(1),
        port_match(Direction::Inbound, Some(Protocol::Tcp), Some(range))[0] == Expression::Load(
            Source::TcpSourcePort,
        ),
        port_match(Direction::Outbound, Some(Protocol::Tcp), Some(range))[0] == Expression::Load(
            Source::TcpDestinationPort,
        ),
        port_match(Direction::Inbound, Some(Protocol::Udp), Some(range))[0] == Expression::Load(
            Source::UdpSourcePort,
        ),
        port_match(Direction::Outbound, Some(Protocol::Udp), Some(range))[0] == Expression::Load(
            Source::UdpDestinationPort,
        ),
{
    assert(zeros(4) =~= seq![0u8, 0, 0, 0]);
}

/// A rule for ICMP compares with protocol 1 beside an IPv4 network or none and with protocol 58
/// beside an IPv6 network; rules for TCP and UDP compare with 6 and 17. Ports play no part in a
/// rule for ICMP.
pub proof fn compiled_rule_compares_assigned_numbers(
    remote: Option<Network>,
    v4: Ipv4Network,
    v6: Ipv6Network,
    direction: Direction,
    range: PortRange,
)
    ensures
        protocol_match(Some(Protocol::Tcp), remote) == seq![
            Expression::Load(Source::Layer4Protocol),
            Expression::CompareProtocol(6),
        ],
        protocol_match(Some(Protocol::Udp), remote) == seq![
            Expression::Load(Source::Layer4Protocol),
            Expression::CompareProtocol(17),
        ],
        protocol_match(Some(Protocol::Icmp), Some(Network::V4(v4))) == seq![
            Expression::Load(Source::Layer4Protocol),
            Expression::CompareProtocol(1),
        ],
        protocol_match(Some(Protocol::Icmp), Some(Network::V6(v6))) == seq![
            Expression::Load(Source::Layer4Protocol),
            Expression::CompareProtocol(58),
        ],
        protocol_match(Some(Protocol::Icmp), None) == seq![
            Expression::Load(Source::Layer4Protocol),
            Expression::CompareProtocol(1),
        ],
        port_match(direction, Some(Protocol::Icmp), Some(range)).len() == 0,
{
}

/// A batch makes the table and both chains with the policy's default verdict, then empties both
/// chains, and only then adds the rules, in order and each to the chain of its direction.
pub proof fn batch_replaces_what_was_there(policy: Policy, i: int)
    ensures
        batch_of(policy).len() == 5 + policy.rules.len(),
        batch_of(policy)[0] is AddTable,
        batch_of(policy)[1] == (BatchStep::AddChain {
            direction: Direction::Inbound,
            policy: policy.default_verdict,
        }),
        batch_of(policy)[2] == (BatchStep::AddChain {
            direction: Direction::Outbound,
            policy: policy.default_verdict,
        }),
        batch_of(policy)[3] == BatchStep::FlushChain(Direction::Inbound),
        batch_of(policy)[4] == BatchStep::FlushChain(Direction::Outbound),
        0 <= i < policy.rules.len() ==> (batch_of(policy)[5 + i] matches BatchStep::AddRule {
            direction,
            expressions,
        } && direction == policy.rules[i].direction && expressions == rule_expressions(
            policy.rules[i],
        )),
{
}

/// Expressions and messages stand for what they hold.
pub proof fn messages_stand_for_what_they_hold(
    list: Vec<NftExpr>,
    op: Comparison,
    bytes: Vec<u8>,
    mask: Vec<u8>,
    xor: Vec<u8>,
    direction: Direction,
    i: int,
)
    ensures
        (NftExpr::CompareBytes { op, bytes })@ == (Expression::CompareBytes { op, bytes: bytes@ }),
        (NftExpr::Mask { mask, xor })@ == (Expression::Mask { mask: mask@, xor: xor@ }),
        (BatchMessage::AddRule { direction, expressions: list })@ matches BatchStep::AddRule {
            direction: found,
            expressions,
        } && found == direction && expressions.len() == list@.len() && (0 <= i < list@.len()
            ==> expressions[i] == list@[i]@),
{
}

/// The table and its chains have their names.
pub proof fn table_and_chains_have_their_names()
    ensures
        TABLE_NAME@ == "net_lattice"@,
        INBOUND_CHAIN_NAME@ == "inbound"@,
        OUTBOUND_CHAIN_NAME@ == "outbound"@,
{
}

} // verus!
