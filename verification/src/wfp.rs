//! The Windows firewall: how a policy becomes filters of the Windows Filtering Platform, and
//! how filters are read back.
//!
//! Filters live in four layers: connecting out and accepting in, each for IPv4 and IPv6. Within
//! a sublayer a filter of greater weight goes first, so a rule's weight falls with its position
//! and the default verdict is a filter of weight zero without conditions in every layer. A
//! weight is one byte, so that only as many rules as there are weights can be told apart.

use crate::address::network_has_the_parts_it_was_made_of;
use crate::address::network_is_its_parts;
use crate::address::IpAddress;
use crate::address::Network;
use crate::error::Error;
use crate::error::PlatformErrorCode;
use crate::error::Result;
use crate::firewall::Direction;
use crate::firewall::FirewallPolicy;
use crate::firewall::FirewallRule;
use crate::firewall::Policy;
use crate::firewall::PortRange;
use crate::firewall::Protocol;
use crate::firewall::Verdict;
use crate::firewall::IPPROTO_ICMP;
use crate::firewall::IPPROTO_ICMPV6;
use crate::firewall::IPPROTO_TCP;
use crate::firewall::IPPROTO_UDP;
use crate::gather::earliest;
use crate::gather::gathered;
use crate::gather::latest;
use crate::gather::lemma_earliest_at;
use crate::gather::lemma_earliest_is;
use crate::gather::lemma_gathered_at;
use crate::gather::lemma_gathered_empty;
use crate::gather::lemma_gathered_holds;
use crate::gather::lemma_gathered_origin;
use crate::gather::lemma_gathered_singles;
use crate::gather::lemma_gathered_split;
use crate::gather::lemma_latest_is;
use crate::gather::lemma_pick_take;
use crate::gather::optional;
use crate::ipv4::ipv4_is_its_octets;
use crate::ipv4::Ipv4Address;
use crate::ipv4::Ipv4Network;
use crate::ipv6::Ipv6Address;
use crate::ipv6::Ipv6Network;
use crate::mask::bytes_are_big_endian;
use crate::mask::bytes_of;
use crate::mask::count_leading_ones;
use crate::mask::ipv4_prefix_mask;
use crate::mask::leading_ones;
use crate::mask::leading_ones_end_at_the_first_zero;
use crate::mask::mask_counts_back_to_its_prefix;
use crate::mask::number_and_bytes_agree;
use crate::mask::number_from_bytes;
use crate::mask::number_of;
use crate::mask::number_to_bytes;
use crate::mask::prefix_mask;
use crate::pf::protocol_from_number;
use crate::pf::protocol_in;
use crate::traffic::describes;
use crate::traffic::describing;
use crate::traffic::in_network;
use crate::traffic::masked;
use crate::traffic::octets_of;
use crate::traffic::policy_verdict;
use crate::traffic::Packet;
use vstd::prelude::*;

verus! {

/// The policy that this backend takes.
pub type WindowsFirewallPolicy = FirewallPolicy;

/// The status of a request that succeeded.
pub const ERROR_SUCCESS: u32 = 0;

/// The status of a request for something that is not there.
pub const ERROR_NOT_FOUND: u32 = 1168;

/// The status of a request to create something that is already there.
pub const FWP_E_ALREADY_EXISTS: u32 = 0x8032_0009;

/// How many filters are asked for at a time.
pub const PAGE_SIZE: u32 = 128;

// ---- statuses ----

/// Tells whether a request succeeded, given its status. Every failure keeps its status.
pub fn ok_or_platform_error(status: u32) -> (outcome: Result<()>)
    ensures
        match outcome {
            Ok(_) => status == ERROR_SUCCESS,
            Err(error) => status != ERROR_SUCCESS && error == Error::Platform(
                PlatformErrorCode::Windows(status),
            ),
        },
        outcome is Ok <==> status == 0,
{
    if status == ERROR_SUCCESS {
        Ok(())
    } else {
        Err(Error::Platform(PlatformErrorCode::Windows(status)))
    }
}

/// Tells whether a request to create something succeeded, given its status. That it already
/// exists is a success.
pub fn ok_or_already_exists(status: u32) -> (outcome: Result<()>)
    ensures
        match outcome {
            Ok(_) => status == ERROR_SUCCESS || status == FWP_E_ALREADY_EXISTS,
            Err(error) => status != ERROR_SUCCESS && status != FWP_E_ALREADY_EXISTS && error
                == Error::Platform(PlatformErrorCode::Windows(status)),
        },
        outcome is Ok <==> status == 0 || status == 0x8032_0009,
{
    if status == ERROR_SUCCESS || status == FWP_E_ALREADY_EXISTS {
        Ok(())
    } else {
        Err(Error::Platform(PlatformErrorCode::Windows(status)))
    }
}

/// Whether a page of filters is the last one: only a full page may be followed by another.
pub fn is_last_page(returned: u32) -> (last: bool)
    ensures
        last == (returned < PAGE_SIZE),
        last <==> returned < 128,
{
    returned < PAGE_SIZE
}

// ---- filters ----

/// What a condition looks at.
#[derive(Debug, Clone, Copy, PartialEq, Eq, Structural)]
pub enum ConditionField {
    /// The local interface.
    LocalInterface,
    /// The remote address.
    RemoteAddress,
    /// The transport protocol.
    Protocol,
    /// The remote port.
    RemotePort,
    /// Anything else.
    Other,
}

/// How a condition compares.
#[derive(Debug, Clone, Copy, PartialEq, Eq, Structural)]
pub enum MatchType {
    /// Equal.
    Equal,
    /// Within a range.
    Range,
    /// In any other way.
    Other,
}

/// What a condition compares with.
#[derive(Debug, Clone, Copy, PartialEq, Eq, Structural)]
pub enum ConditionValue {
    /// A byte.
    Uint8(u8),
    /// A 16-bit number.
    Uint16(u16),
    /// A 64-bit number.
    Uint64(u64),
    /// An IPv4 address with a mask, as numbers.
    V4AddrMask {
        /// The address.
        addr: u32,
        /// The mask.
        mask: u32,
    },
    /// An IPv6 address with a prefix length.
    V6AddrMask {
        /// The address.
        addr: Ipv6Address,
        /// The prefix length.
        prefix_length: u8,
    },
    /// A range of 16-bit numbers, ends included.
    Range {
        /// The first number.
        low: u16,
        /// The last number.
        high: u16,
    },
    /// Anything else.
    Other,
}

/// One condition of a filter.
#[derive(Debug, Clone, Copy, PartialEq, Eq, Structural)]
pub struct Condition {
    /// What it looks at.
    pub field: ConditionField,
    /// How it compares.
    pub match_type: MatchType,
    /// What it compares with.
    pub value: ConditionValue,
}

/// What a filter does with traffic that meets its conditions.
#[derive(Debug, Clone, Copy, PartialEq, Eq, Structural)]
pub enum FilterAction {
    /// Lets it pass.
    Permit,
    /// Blocks it.
    Block,
    /// Anything else.
    Other,
}

/// A filter.
#[derive(Debug, Clone, PartialEq, Eq)]
pub struct Filter {
    /// The weight, if it is a single byte.
    pub weight: Option<u8>,
    /// What happens to traffic that meets the conditions.
    pub action: FilterAction,
    /// The conditions, all of which have to hold.
    pub conditions: Vec<Condition>,
}

/// What a filter says.
#[verifier::ext_equal]
pub struct FilterModel {
    /// The weight, if it is a single byte.
    pub weight: Option<u8>,
    /// What happens to traffic that meets the conditions.
    pub action: FilterAction,
    /// The conditions.
    pub conditions: Seq<Condition>,
}

impl View for Filter {
    type V = FilterModel;

    open spec fn view(&self) -> FilterModel {
        FilterModel {
            weight: self.weight,
            action: self.action,
            conditions: self.conditions@,
        }
    }
}

/// The action for a verdict.
pub open spec fn action_of(verdict: Verdict) -> FilterAction {
    match verdict {
        Verdict::Allow => FilterAction::Permit,
        Verdict::Deny => FilterAction::Block,
    }
}

/// Returns the action for a verdict.
pub fn wfp_action(verdict: Verdict) -> (action: FilterAction)
    ensures
        action == action_of(verdict),
{
    match verdict {
        Verdict::Allow => FilterAction::Permit,
        Verdict::Deny => FilterAction::Block,
    }
}

/// The number of a protocol in a layer of one family.
pub open spec fn layer_protocol(protocol: Protocol, is_v6: bool) -> u8 {
    match protocol {
        Protocol::Tcp => IPPROTO_TCP,
        Protocol::Udp => IPPROTO_UDP,
        Protocol::Icmp => if is_v6 {
            IPPROTO_ICMPV6
        } else {
            IPPROTO_ICMP
        },
    }
}

/// Returns the number of a protocol in a layer of one family. Each layer has one family, so
/// that it is always clear which ICMP is meant.
pub fn protocol_number(protocol: Protocol, is_v6_layer: bool) -> (number: u8)
    ensures
        number == layer_protocol(protocol, is_v6_layer),
{
    match protocol {
        Protocol::Tcp => IPPROTO_TCP,
        Protocol::Udp => IPPROTO_UDP,
        Protocol::Icmp => {
            if is_v6_layer {
                IPPROTO_ICMPV6
            } else {
                IPPROTO_ICMP
            }
        },
    }
}

/// The layers that hold a rule's filters, each by its direction and whether it is for IPv6.
pub open spec fn layers_of(rule: FirewallRule) -> Seq<(Direction, bool)> {
    match rule.remote {
        None => seq![(rule.direction, false), (rule.direction, true)],
        Some(Network::V4(_)) => seq![(rule.direction, false)],
        Some(Network::V6(_)) => seq![(rule.direction, true)],
    }
}

/// Returns the layers that hold a rule's filters: of its direction, and of both families unless
/// its remote network is of one.
pub fn layers_for_rule(rule: &FirewallRule) -> (layers: Vec<(Direction, bool)>)
    ensures
        layers@ == layers_of(*rule),
{
    let layers = match rule.remote {
        None => vec![(rule.direction, false), (rule.direction, true)],
        Some(Network::V4(_)) => vec![(rule.direction, false)],
        Some(Network::V6(_)) => vec![(rule.direction, true)],
    };
    assert(layers@ =~= layers_of(*rule));
    layers
}

/// The four layers.
pub open spec fn all_layers() -> Seq<(Direction, bool)> {
    seq![
        (Direction::Outbound, false),
        (Direction::Outbound, true),
        (Direction::Inbound, false),
        (Direction::Inbound, true),
    ]
}

/// Returns the four layers.
pub fn every_layer() -> (layers: Vec<(Direction, bool)>)
    ensures
        layers@ == all_layers(),
{
    let layers = vec![
        (Direction::Outbound, false),
        (Direction::Outbound, true),
        (Direction::Inbound, false),
        (Direction::Inbound, true),
    ];
    assert(layers@ =~= all_layers());
    layers
}

/// The weight of the rule at a position of a policy with so many rules.
pub open spec fn weight_at(index: int, count: int) -> int {
    if count - index <= 1 {
        1
    } else if count - index >= 255 {
        255
    } else {
        count - index
    }
}

/// Returns the weight of the rule at a position of a policy with so many rules: it falls from
/// position to position, never reaches the zero of the default verdict, and never exceeds a
/// byte.
pub fn rule_weight(index: usize, rule_count: usize) -> (weight: u8)
    ensures
        weight == weight_at(index as int, rule_count as int),
{
    if index >= rule_count || rule_count - index <= 1 {
        1
    } else if rule_count - index >= 255 {
        255
    } else {
        (rule_count - index) as u8
    }
}

// ---- building ----

/// The condition on an interface.
pub open spec fn interface_condition(luid: u64) -> Condition {
    Condition {
        field: ConditionField::LocalInterface,
        match_type: MatchType::Equal,
        value: ConditionValue::Uint64(luid),
    }
}

/// The conditions on a remote network, in a layer of one family. There is none in a layer of
/// the other family.
pub open spec fn remote_conditions(remote: Option<Network>, is_v6: bool) -> Seq<Condition> {
    match remote {
        Some(Network::V4(network)) if !is_v6 => seq![
            Condition {
                field: ConditionField::RemoteAddress,
                match_type: MatchType::Equal,
                value: ConditionValue::V4AddrMask {
                    addr: number_of(network.address().bytes()),
                    mask: number_of(prefix_mask(network.prefix().bits() as int, 4)),
                },
            },
        ],
        Some(Network::V6(network)) if is_v6 => seq![
            Condition {
                field: ConditionField::RemoteAddress,
                match_type: MatchType::Equal,
                value: ConditionValue::V6AddrMask {
                    addr: network.address(),
                    prefix_length: network.prefix().bits(),
                },
            },
        ],
        _ => Seq::empty(),
    }
}

/// The conditions on a protocol, in a layer of one family.
pub open spec fn protocol_conditions(protocol: Option<Protocol>, is_v6: bool) -> Seq<Condition> {
    match protocol {
        Some(inner) => seq![
            Condition {
                field: ConditionField::Protocol,
                match_type: MatchType::Equal,
                value: ConditionValue::Uint8(layer_protocol(inner, is_v6)),
            },
        ],
        None => Seq::empty(),
    }
}

/// The conditions on ports: a single port is compared, a wider range is a range.
pub open spec fn port_conditions(port: Option<PortRange>) -> Seq<Condition> {
    match port {
        Some(range) => seq![
            if range.start == range.end {
                Condition {
                    field: ConditionField::RemotePort,
                    match_type: MatchType::Equal,
                    value: ConditionValue::Uint16(range.start),
                }
            } else {
                Condition {
                    field: ConditionField::RemotePort,
                    match_type: MatchType::Range,
                    value: ConditionValue::Range { low: range.start, high: range.end },
                }
            },
        ],
        None => Seq::empty(),
    }
}

/// The conditions of a rule in a layer of one family, given its interface's identifier if it
/// has an interface.
pub open spec fn conditions_of(rule: FirewallRule, is_v6: bool, luid: u64) -> Seq<Condition> {
    (match rule.interface_index {
        Some(_) => seq![interface_condition(luid)],
        None => Seq::empty(),
    }) + remote_conditions(rule.remote, is_v6) + protocol_conditions(rule.protocol, is_v6)
        + port_conditions(rule.effective_port())
}

/// Builds the conditions of a rule in a layer of one family.
///
/// `luid` is the identifier of the rule's interface, or the status with which looking it up
/// failed. Only a rule with an interface depends on it: then a failure is the result.
pub fn build_rule_conditions(
    rule: &FirewallRule,
    is_v6: bool,
    luid: &std::result::Result<u64, u32>,
) -> (conditions: Result<Vec<Condition>>)
    ensures
        match (rule.interface_index, *luid) {
            (Some(_), Err(status)) => conditions matches Err(error) && error == Error::Platform(
                PlatformErrorCode::Windows(status),
            ),
            (Some(_), Ok(identifier)) => conditions matches Ok(list) && list@ == conditions_of(
                *rule,
                is_v6,
                identifier,
            ),
            (None, _) => conditions matches Ok(list) && list@ == conditions_of(*rule, is_v6, 0),
        },
{
    let mut conditions: Vec<Condition> = Vec::new();
    if rule.interface_index.is_some() {
        match luid {
            Ok(identifier) => {
                conditions.push(
                    Condition {
                        field: ConditionField::LocalInterface,
                        match_type: MatchType::Equal,
                        value: ConditionValue::Uint64(*identifier),
                    },
                );
            },
            Err(status) => {
                return Err(Error::Platform(PlatformErrorCode::Windows(*status)));
            },
        }
    }
    let ghost first = conditions@;
    match rule.remote {
        Some(Network::V4(network)) => {
            if !is_v6 {
                let addr = number_from_bytes(&network.address().octets());
                let mask = number_from_bytes(&ipv4_prefix_mask(network.prefix().value() as u32));
                conditions.push(
                    Condition {
                        field: ConditionField::RemoteAddress,
                        match_type: MatchType::Equal,
                        value: ConditionValue::V4AddrMask { addr, mask },
                    },
                );
            }
        },
        Some(Network::V6(network)) => {
            if is_v6 {
                conditions.push(
                    Condition {
                        field: ConditionField::RemoteAddress,
                        match_type: MatchType::Equal,
                        value: ConditionValue::V6AddrMask {
                            addr: network.address(),
                            prefix_length: network.prefix().value(),
                        },
                    },
                );
            }
        },
        None => {},
    }
    assert(conditions@ =~= first + remote_conditions(rule.remote, is_v6));
    let ghost second = conditions@;
    if let Some(protocol) = rule.protocol {
        conditions.push(
            Condition {
                field: ConditionField::Protocol,
                match_type: MatchType::Equal,
                value: ConditionValue::Uint8(protocol_number(protocol, is_v6)),
            },
        );
        if let Some(port) = rule.port {
            if matches!(protocol, Protocol::Tcp) || matches!(protocol, Protocol::Udp) {
                if port.start == port.end {
                    conditions.push(
                        Condition {
                            field: ConditionField::RemotePort,
                            match_type: MatchType::Equal,
                            value: ConditionValue::Uint16(port.start),
                        },
                    );
                } else {
                    conditions.push(
                        Condition {
                            field: ConditionField::RemotePort,
                            match_type: MatchType::Range,
                            value: ConditionValue::Range { low: port.start, high: port.end },
                        },
                    );
                }
            }
        }
    }
    assert(conditions@ =~= second + protocol_conditions(rule.protocol, is_v6) + port_conditions(
        rule.effective_port(),
    ));
    Ok(conditions)
}

// ---- reading back ----

/// An interface's identifier beside its index.
#[derive(Debug, Clone, Copy, PartialEq, Eq, Structural)]
pub struct LuidIndex {
    /// The identifier.
    pub luid: u64,
    /// The index.
    pub index: u32,
}

/// The index of the first listed interface with a given identifier.
pub open spec fn index_of_luid(table: Seq<LuidIndex>, luid: u64) -> Option<u32> {
    earliest(
        table,
        |entry: LuidIndex|
            if entry.luid == luid {
                Some(entry.index)
            } else {
                None
            },
    )
}

/// Picks out the interface that a condition names.
pub open spec fn interface_in(table: Seq<LuidIndex>) -> spec_fn(Condition) -> Option<u32> {
    |condition: Condition|
        match (condition.field, condition.value) {
            (ConditionField::LocalInterface, ConditionValue::Uint64(luid)) => index_of_luid(
                table,
                luid,
            ),
            _ => None,
        }
}

/// Picks out the network that a condition names.
pub open spec fn remote_in() -> spec_fn(Condition) -> Option<Network> {
    |condition: Condition|
        match (condition.field, condition.value) {
            (
                ConditionField::RemoteAddress,
                ConditionValue::V4AddrMask { addr, mask },
            ) => Network::of_parts(
                IpAddress::V4(Ipv4Address::of(bytes_of(addr))),
                leading_ones(bytes_of(mask)) as u8,
            ),
            (
                ConditionField::RemoteAddress,
                ConditionValue::V6AddrMask { addr, prefix_length },
            ) => Network::of_parts(IpAddress::V6(addr), prefix_length),
            _ => None,
        }
}

/// Picks out the protocol that a condition names.
pub open spec fn protocol_named() -> spec_fn(Condition) -> Option<Protocol> {
    |condition: Condition|
        match (condition.field, condition.value) {
            (ConditionField::Protocol, ConditionValue::Uint8(number)) => protocol_in(number),
            _ => None,
        }
}

/// Picks out the ports that a condition names.
pub open spec fn ports_named() -> spec_fn(Condition) -> Option<PortRange> {
    |condition: Condition|
        match (condition.field, condition.value) {
            (ConditionField::RemotePort, ConditionValue::Uint16(port)) => Some(
                PortRange { start: port, end: port },
            ),
            (ConditionField::RemotePort, ConditionValue::Range { low, high }) => Some(
                PortRange { start: low, end: high },
            ),
            _ => None,
        }
}

/// The verdict of a filter's action.
pub open spec fn verdict_of(action: FilterAction) -> Option<Verdict> {
    match action {
        FilterAction::Permit => Some(Verdict::Allow),
        FilterAction::Block => Some(Verdict::Deny),
        FilterAction::Other => None,
    }
}

/// The rule that a filter of a layer stands for, with its weight. A filter of weight zero is
/// that of the default verdict and stands for none, and neither does one with a weight or an
/// action of another sort. Conditions of another sort are passed over.
pub open spec fn decoded(
    filter: FilterModel,
    direction: Direction,
    table: Seq<LuidIndex>,
) -> Option<(u8, FirewallRule)> {
    match (filter.weight, verdict_of(filter.action)) {
        (Some(weight), Some(verdict)) => if weight == 0 {
            None
        } else {
            Some(
                (
                    weight,
                    FirewallRule {
                        direction,
                        interface_index: latest(filter.conditions, interface_in(table)),
                        remote: latest(filter.conditions, remote_in()),
                        protocol: latest(filter.conditions, protocol_named()),
                        port: latest(filter.conditions, ports_named()),
                        verdict,
                    },
                ),
            )
        },
        _ => None,
    }
}

/// Finds the index of the first listed interface with a given identifier.
fn find_index(table: &Vec<LuidIndex>, luid: u64) -> (index: Option<u32>)
    ensures
        index == index_of_luid(table@, luid),
{
    let ghost pick = |entry: LuidIndex|
        if entry.luid == luid {
            Some(entry.index)
        } else {
            None
        };
    let mut i: usize = 0;
    let mut found: Option<u32> = None;
    assert(table@.take(0) =~= Seq::empty());
    while i < table.len()
        invariant
            i <= table.len(),
            pick == (|entry: LuidIndex|
                if entry.luid == luid {
                    Some(entry.index)
                } else {
                    None
                }),
            found == earliest(table@.take(i as int), pick),
        decreases table.len() - i,
    {
        proof {
            lemma_pick_take(table@, pick, i as int);
        }
        if found.is_none() && table[i].luid == luid {
            found = Some(table[i].index);
        }
        i = i + 1;
    }
    assert(table@.take(i as int) =~= table@);
    found
}

/// Reads the network that a condition names.
fn remote_of(condition: &Condition) -> (network: Option<Network>)
    ensures
        network == remote_in()(*condition),
{
    match (condition.field, condition.value) {
        (ConditionField::RemoteAddress, ConditionValue::V4AddrMask { addr, mask }) => {
            let octets = number_to_bytes(addr);
            let mask_bytes = number_to_bytes(mask);
            let row = vec![mask_bytes[0], mask_bytes[1], mask_bytes[2], mask_bytes[3]];
            assert(row@ =~= bytes_of(mask));
            Network::from_parts(
                IpAddress::V4(Ipv4Address::from_octets(octets)),
                count_leading_ones(&row),
            )
        },
        (ConditionField::RemoteAddress, ConditionValue::V6AddrMask { addr, prefix_length }) => {
            Network::from_parts(IpAddress::V6(addr), prefix_length)
        },
        _ => None,
    }
}

/// Reads the rule that a filter of a layer stands for, with its weight.
pub fn decode_filter(filter: &Filter, direction: Direction, table: &Vec<LuidIndex>) -> (rule:
    Option<(u8, FirewallRule)>)
    ensures
        rule == decoded(filter@, direction, table@),
{
    let weight: u8 = match filter.weight {
        Some(weight) => weight,
        None => {
            return None;
        },
    };
    if weight == 0 {
        return None;
    }
    let verdict = match filter.action {
        FilterAction::Permit => Verdict::Allow,
        FilterAction::Block => Verdict::Deny,
        FilterAction::Other => {
            return None;
        },
    };
    let ghost conditions = filter.conditions@;
    let mut interface_index: Option<u32> = None;
    let mut remote: Option<Network> = None;
    let mut protocol: Option<Protocol> = None;
    let mut port: Option<PortRange> = None;
    let mut i: usize = 0;
    assert(conditions.take(0) =~= Seq::empty());
    while i < filter.conditions.len()
        invariant
            i <= filter.conditions.len(),
            conditions == filter.conditions@,
            interface_index == latest(conditions.take(i as int), interface_in(table@)),
            remote == latest(conditions.take(i as int), remote_in()),
            protocol == latest(conditions.take(i as int), protocol_named()),
            port == latest(conditions.take(i as int), ports_named()),
        decreases filter.conditions.len() - i,
    {
        proof {
            lemma_pick_take(conditions, interface_in(table@), i as int);
            lemma_pick_take(conditions, remote_in(), i as int);
            lemma_pick_take(conditions, protocol_named(), i as int);
            lemma_pick_take(conditions, ports_named(), i as int);
        }
        let condition = filter.conditions[i];
        match (condition.field, condition.value) {
            (ConditionField::LocalInterface, ConditionValue::Uint64(luid)) => {
                if let Some(index) = find_index(table, luid) {
                    interface_index = Some(index);
                }
            },
            (ConditionField::RemoteAddress, _) => {
                if let Some(network) = remote_of(&condition) {
                    remote = Some(network);
                }
            },
            (ConditionField::Protocol, ConditionValue::Uint8(number)) => {
                if let Some(found) = protocol_from_number(number) {
                    protocol = Some(found);
                }
            },
            (ConditionField::RemotePort, ConditionValue::Uint16(number)) => {
                port = Some(PortRange::single(number));
            },
            (ConditionField::RemotePort, ConditionValue::Range { low, high }) => {
                port = Some(PortRange::new(low, high));
            },
            _ => {},
        }
        i = i + 1;
    }
    assert(conditions.take(i as int) =~= conditions);
    Some((weight, FirewallRule { direction, interface_index, remote, protocol, port, verdict }))
}

/// What a list of filters says.
pub open spec fn filter_models(list: Seq<Filter>) -> Seq<FilterModel> {
    list.map_values(|filter: Filter| filter@)
}

/// The rules that a layer's filters stand for, with their weights, in the order of the filters.
pub open spec fn layer_rules(
    filters: Seq<FilterModel>,
    direction: Direction,
    table: Seq<LuidIndex>,
) -> Seq<(u8, FirewallRule)> {
    gathered(filters.len(), |i: int| optional(decoded(filters[i], direction, table)))
}

/// Reads the rules that a layer's filters stand for.
pub fn decode_layer(filters: &Vec<Filter>, direction: Direction, table: &Vec<LuidIndex>) -> (rules:
    Vec<(u8, FirewallRule)>)
    ensures
        rules@ == layer_rules(filter_models(filters@), direction, table@),
{
    let ghost all = filter_models(filters@);
    let ghost piece = |i: int| optional(decoded(all[i], direction, table@));
    let mut rules: Vec<(u8, FirewallRule)> = Vec::new();
    let mut i: usize = 0;
    while i < filters.len()
        invariant
            i <= filters.len(),
            all == filter_models(filters@),
            piece == (|k: int| optional(decoded(all[k], direction, table@))),
            rules@ == gathered(i as nat, piece),
        decreases filters.len() - i,
    {
        assert(all[i as int] == filters@[i as int]@);
        if let Some(rule) = decode_filter(&filters[i], direction, table) {
            rules.push(rule);
        }
        i = i + 1;
        assert(rules@ =~= gathered((i - 1) as nat, piece) + piece(i - 1));
    }
    rules
}

/// Picks out the rule of a given weight.
pub open spec fn weighing(weight: int) -> spec_fn((u8, FirewallRule)) -> Option<FirewallRule> {
    |entry: (u8, FirewallRule)|
        if entry.0 == weight {
            Some(entry.1)
        } else {
            None
        }
}

/// The rules in order of falling weight, one for each weight: the first that has it.
pub open spec fn merged(entries: Seq<(u8, FirewallRule)>) -> Seq<FirewallRule> {
    gathered(256, |i: int| optional(earliest(entries, weighing(255 - i))))
}

/// Merges the rules read from all layers into one list, in order of falling weight.
///
/// A rule for both families is read from two layers with the same weight and comes out once.
pub fn merge_rules(entries: &Vec<(u8, FirewallRule)>) -> (rules: Vec<FirewallRule>)
    ensures
        rules@ == merged(entries@),
{
    let ghost piece = |i: int| optional(earliest(entries@, weighing(255 - i)));
    let mut rules: Vec<FirewallRule> = Vec::new();
    let mut i: usize = 0;
    while i < 256
        invariant
            i <= 256,
            piece == (|k: int| optional(earliest(entries@, weighing(255 - k)))),
            rules@ == gathered(i as nat, piece),
        decreases 256 - i,
    {
        let weight: u8 = (255 - i) as u8;
        let mut found: Option<FirewallRule> = None;
        let mut k: usize = 0;
        assert(entries@.take(0) =~= Seq::empty());
        while k < entries.len()
            invariant
                i < 256,
                k <= entries.len(),
                weight == 255 - i,
                found == earliest(entries@.take(k as int), weighing(weight as int)),
            decreases entries.len() - k,
        {
            proof {
                lemma_pick_take(entries@, weighing(weight as int), k as int);
            }
            if found.is_none() && entries[k].0 == weight {
                found = Some(entries[k].1);
            }
            k = k + 1;
        }
        assert(entries@.take(k as int) =~= entries@);
        if let Some(rule) = found {
            rules.push(rule);
        }
        i = i + 1;
        assert(rules@ =~= gathered((i - 1) as nat, piece) + piece(i - 1));
    }
    rules
}

// ---- the transaction ----

/// An interface's identifier as it was looked up by its index, or the status with which that
/// failed.
#[derive(Debug, Clone, Copy, PartialEq, Eq)]
pub struct LuidLookup {
    /// The index.
    pub index: u32,
    /// The identifier or the status.
    pub result: std::result::Result<u64, u32>,
}

/// What looking up an index gave; not found if it is not listed.
pub open spec fn lookup(table: Seq<LuidLookup>, index: u32) -> std::result::Result<u64, u32> {
    match earliest(
        table,
        |entry: LuidLookup|
            if entry.index == index {
                Some(entry.result)
            } else {
                None
            },
    ) {
        Some(result) => result,
        None => Err(ERROR_NOT_FOUND),
    }
}

/// Finds what looking up an index gave.
fn find_luid(table: &Vec<LuidLookup>, index: u32) -> (result: std::result::Result<u64, u32>)
    ensures
        result == lookup(table@, index),
{
    let ghost pick = |entry: LuidLookup|
        if entry.index == index {
            Some(entry.result)
        } else {
            None
        };
    let mut found: Option<std::result::Result<u64, u32>> = None;
    let mut i: usize = 0;
    assert(table@.take(0) =~= Seq::empty());
    while i < table.len()
        invariant
            i <= table.len(),
            pick == (|entry: LuidLookup|
                if entry.index == index {
                    Some(entry.result)
                } else {
                    None
                }),
            found == earliest(table@.take(i as int), pick),
        decreases table.len() - i,
    {
        proof {
            lemma_pick_take(table@, pick, i as int);
        }
        if found.is_none() && table[i].index == index {
            found = Some(table[i].result);
        }
        i = i + 1;
    }
    assert(table@.take(i as int) =~= table@);
    match found {
        Some(result) => result,
        None => Err(ERROR_NOT_FOUND),
    }
}

/// One operation of the transaction that replaces the policy.
#[derive(Debug, Clone, PartialEq, Eq)]
pub enum WfpOperation {
    /// Opens the transaction.
    Begin,
    /// Creates the provider unless it exists.
    AddProvider,
    /// Creates the sublayer unless it exists.
    AddSublayer,
    /// Removes every filter of the provider from a layer.
    FlushLayer {
        /// The layer's direction.
        direction: Direction,
        /// Whether the layer is for IPv6.
        is_v6: bool,
    },
    /// Adds a filter to a layer.
    AddFilter {
        /// The layer's direction.
        direction: Direction,
        /// Whether the layer is for IPv6.
        is_v6: bool,
        /// The filter.
        filter: Filter,
    },
    /// Makes the new filters take effect.
    Commit,
    /// Gives up: an interface could not be looked up, with this status.
    Fail(u32),
}

/// What an operation says.
#[verifier::ext_equal]
pub enum WfpStep {
    /// Opens the transaction.
    Begin,
    /// Creates the provider.
    AddProvider,
    /// Creates the sublayer.
    AddSublayer,
    /// Removes every filter from a layer.
    FlushLayer {
        /// The layer's direction.
        direction: Direction,
        /// Whether the layer is for IPv6.
        is_v6: bool,
    },
    /// Adds a filter to a layer.
    AddFilter {
        /// The layer's direction.
        direction: Direction,
        /// Whether the layer is for IPv6.
        is_v6: bool,
        /// The filter.
        filter: FilterModel,
    },
    /// Makes the new filters take effect.
    Commit,
    /// Gives up.
    Fail(u32),
}

impl View for WfpOperation {
    type V = WfpStep;

    open spec fn view(&self) -> WfpStep {
        match self {
            WfpOperation::Begin => WfpStep::Begin,
            WfpOperation::AddProvider => WfpStep::AddProvider,
            WfpOperation::AddSublayer => WfpStep::AddSublayer,
            WfpOperation::FlushLayer { direction, is_v6 } => WfpStep::FlushLayer {
                direction: *direction,
                is_v6: *is_v6,
            },
            WfpOperation::AddFilter { direction, is_v6, filter } => WfpStep::AddFilter {
                direction: *direction,
                is_v6: *is_v6,
                filter: filter@,
            },
            WfpOperation::Commit => WfpStep::Commit,
            WfpOperation::Fail(status) => WfpStep::Fail(*status),
        }
    }
}

/// What a list of operations says.
pub open spec fn wfp_steps(list: Seq<WfpOperation>) -> Seq<WfpStep> {
    list.map_values(|operation: WfpOperation| operation@)
}

/// An operation appended to a list is appended to what the list says.
proof fn lemma_wfp_steps_push(list: Seq<WfpOperation>, operation: WfpOperation)
    ensures
        wfp_steps(list.push(operation)) == wfp_steps(list) + seq![operation@],
{
    assert(wfp_steps(list.push(operation)) =~= wfp_steps(list) + seq![operation@]);
}

/// The filter of a rule in a layer of one family.
pub open spec fn rule_filter(rule: FirewallRule, weight: int, is_v6: bool, luid: u64) -> FilterModel {
    FilterModel {
        weight: Some(weight as u8),
        action: action_of(rule.verdict),
        conditions: conditions_of(rule, is_v6, luid),
    }
}

/// The filter of a default verdict.
pub open spec fn default_filter(verdict: Verdict) -> FilterModel {
    FilterModel { weight: Some(0u8), action: action_of(verdict), conditions: Seq::empty() }
}

/// What looking up a rule's interface gave; nothing is looked up for a rule without one.
pub open spec fn rule_luid(rule: FirewallRule, table: Seq<LuidLookup>) -> std::result::Result<
    u64,
    u32,
> {
    match rule.interface_index {
        Some(index) => lookup(table, index),
        None => Ok(0),
    }
}

/// The operations that add a rule's filters, one for each of its layers.
pub open spec fn rule_steps(
    rules: Seq<FirewallRule>,
    table: Seq<LuidLookup>,
) -> spec_fn(int) -> Seq<WfpStep> {
    |i: int|
        layers_of(rules[i]).map_values(
            |layer: (Direction, bool)|
                WfpStep::AddFilter {
                    direction: layer.0,
                    is_v6: layer.1,
                    filter: rule_filter(
                        rules[i],
                        weight_at(i, rules.len() as int),
                        layer.1,
                        rule_luid(rules[i], table)->Ok_0,
                    ),
                },
        )
}

/// How many rules come before the first one whose interface could not be looked up.
pub open spec fn resolved(rules: Seq<FirewallRule>, table: Seq<LuidLookup>) -> nat
    decreases rules.len(),
{
    if rules.len() == 0 {
        0
    } else {
        let before = resolved(rules.drop_last(), table);
        if before == rules.len() - 1 && rule_luid(rules.last(), table) is Ok {
            rules.len()
        } else {
            before
        }
    }
}

/// The operations that come before those for rules: transaction, provider, sublayer, an empty
/// slate, and the default verdict in every layer.
pub open spec fn opening(verdict: Verdict) -> Seq<WfpStep> {
    seq![WfpStep::Begin, WfpStep::AddProvider, WfpStep::AddSublayer] + all_layers().map_values(
        |layer: (Direction, bool)| WfpStep::FlushLayer { direction: layer.0, is_v6: layer.1 },
    ) + all_layers().map_values(
        |layer: (Direction, bool)|
            WfpStep::AddFilter {
                direction: layer.0,
                is_v6: layer.1,
                filter: default_filter(verdict),
            },
    )
}

/// The operations that replace whatever was there by a policy. Where an interface cannot be
/// looked up they end by giving up, and otherwise by taking effect.
pub open spec fn operations_of(policy: Policy, table: Seq<LuidLookup>) -> Seq<WfpStep> {
    let n = resolved(policy.rules, table);
    opening(policy.default_verdict) + gathered(n, rule_steps(policy.rules, table)) + seq![
        if n == policy.rules.len() {
            WfpStep::Commit
        } else {
            WfpStep::Fail(rule_luid(policy.rules[n as int], table)->Err_0)
        },
    ]
}

/// Appends one operation.
fn push_operation(list: &mut Vec<WfpOperation>, operation: WfpOperation)
    ensures
        wfp_steps(final(list)@) == wfp_steps(old(list)@) + seq![operation@],
{
    proof {
        lemma_wfp_steps_push(list@, operation);
    }
    list.push(operation);
}

/// Returns the operations that come before those for rules.
fn opening_operations(verdict: Verdict) -> (list: Vec<WfpOperation>)
    ensures
        wfp_steps(list@) == opening(verdict),
{
    let mut list: Vec<WfpOperation> = Vec::new();
    assert(wfp_steps(list@) =~= Seq::empty());
    push_operation(&mut list, WfpOperation::Begin);
    push_operation(&mut list, WfpOperation::AddProvider);
    push_operation(&mut list, WfpOperation::AddSublayer);
    let ghost all = opening(verdict);
    let layers = every_layer();
    assert(wfp_steps(list@) =~= all.take(3));
    let mut i: usize = 0;
    while i < 4
        invariant
            i <= 4,
            layers@ == all_layers(),
            all == opening(verdict),
            wfp_steps(list@) == all.take(3 + i),
        decreases 4 - i,
    {
        let (direction, is_v6) = layers[i];
        push_operation(&mut list, WfpOperation::FlushLayer { direction, is_v6 });
        assert(all[3 + i] == WfpStep::FlushLayer { direction, is_v6 });
        i = i + 1;
        assert(wfp_steps(list@) =~= all.take(3 + i));
    }
    let mut k: usize = 0;
    while k < 4
        invariant
            k <= 4,
            layers@ == all_layers(),
            all == opening(verdict),
            wfp_steps(list@) == all.take(7 + k),
        decreases 4 - k,
    {
        let (direction, is_v6) = layers[k];
        let filter = Filter {
            weight: Some(0),
            action: wfp_action(verdict),
            conditions: Vec::new(),
        };
        assert(filter@ =~= default_filter(verdict));
        push_operation(&mut list, WfpOperation::AddFilter { direction, is_v6, filter });
        assert(all[7 + k] == WfpStep::AddFilter {
            direction,
            is_v6,
            filter: default_filter(verdict),
        });
        k = k + 1;
        assert(wfp_steps(list@) =~= all.take(7 + k));
    }
    assert(all.take(11) =~= all);
    list
}

/// How many rules resolve grows rule by rule.
proof fn lemma_resolved_take(rules: Seq<FirewallRule>, table: Seq<LuidLookup>, n: int)
    requires
        0 <= n < rules.len(),
    ensures
        resolved(rules.take(n + 1), table) == (if resolved(rules.take(n), table) == n && rule_luid(
            rules[n],
            table,
        ) is Ok {
            (n + 1) as nat
        } else {
            resolved(rules.take(n), table)
        }),
        resolved(rules.take(n), table) <= n,
    decreases n,
{
    assert(rules.take(n + 1).drop_last() =~= rules.take(n));
    if n > 0 {
        lemma_resolved_take(rules, table, n - 1);
    }
}

/// Once a rule does not resolve, no later one counts.
proof fn lemma_resolved_stops(rules: Seq<FirewallRule>, table: Seq<LuidLookup>, k: int, n: int)
    requires
        0 <= k < n <= rules.len(),
        resolved(rules.take(k), table) == k,
        rule_luid(rules[k], table) is Err,
    ensures
        resolved(rules.take(n), table) == k,
    decreases n,
{
    lemma_resolved_take(rules, table, n - 1);
    if n - 1 > k {
        lemma_resolved_stops(rules, table, k, n - 1);
    }
}

/// Plans the transaction that replaces the managed filters by a policy, given what looking up
/// the interfaces gave.
pub fn plan_policy(policy: &FirewallPolicy, table: &Vec<LuidLookup>) -> (plan: Vec<WfpOperation>)
    ensures
        wfp_steps(plan@) == operations_of(policy@, table@),
{
    let mut plan = opening_operations(policy.default_verdict);
    let ghost rules = policy@.rules;
    let ghost head = opening(policy@.default_verdict);
    let ghost piece = rule_steps(rules, table@);
    let count = policy.rules.len();
    let mut i: usize = 0;
    assert(rules.take(0) =~= Seq::empty());
    assert(wfp_steps(plan@) =~= head + gathered(0, piece));
    while i < count
        invariant
            i <= count == policy.rules.len(),
            rules == policy@.rules,
            head == opening(policy@.default_verdict),
            piece == rule_steps(rules, table@),
            resolved(rules.take(i as int), table@) == i,
            wfp_steps(plan@) == head + gathered(i as nat, piece),
        decreases count - i,
    {
        let rule = policy.rules[i];
        let luid = match rule.interface_index {
            Some(index) => find_luid(table, index),
            None => Ok(0),
        };
        assert(luid == rule_luid(rules[i as int], table@));
        proof {
            lemma_resolved_take(rules, table@, i as int);
        }
        if let Err(status) = luid {
            proof {
                lemma_resolved_stops(rules, table@, i as int, rules.len() as int);
                assert(rules.take(rules.len() as int) =~= rules);
            }
            push_operation(&mut plan, WfpOperation::Fail(status));
            assert(wfp_steps(plan@) =~= operations_of(policy@, table@));
            return plan;
        }
        let weight = rule_weight(i, count);
        let layers = layers_for_rule(&rule);
        let ghost before = wfp_steps(plan@);
        let ghost steps = piece(i as int);
        let mut k: usize = 0;
        assert(wfp_steps(plan@) =~= before + steps.take(0));
        while k < layers.len()
            invariant
                i < count == rules.len(),
                k <= layers.len(),
                layers@ == layers_of(rule),
                rule == rules[i as int],
                weight == weight_at(i as int, count as int),
                luid == rule_luid(rule, table@),
                luid is Ok,
                steps == rule_steps(rules, table@)(i as int),
                steps.len() == layers@.len(),
                wfp_steps(plan@) == before + steps.take(k as int),
            decreases layers.len() - k,
        {
            let (direction, is_v6) = layers[k];
            match build_rule_conditions(&rule, is_v6, &luid) {
                Ok(conditions) => {
                    let filter = Filter {
                        weight: Some(weight),
                        action: wfp_action(rule.verdict),
                        conditions,
                    };
                    assert(filter@ =~= rule_filter(
                        rule,
                        weight_at(i as int, rules.len() as int),
                        is_v6,
                        luid->Ok_0,
                    ));
                    assert(steps[k as int] == WfpStep::AddFilter {
                        direction,
                        is_v6,
                        filter: filter@,
                    });
                    push_operation(
                        &mut plan,
                        WfpOperation::AddFilter { direction, is_v6, filter },
                    );
                },
                Err(_) => {
                    assert(false);
                },
            }
            k = k + 1;
            assert(wfp_steps(plan@) =~= before + steps.take(k as int));
        }
        assert(steps.take(k as int) =~= steps);
        i = i + 1;
        assert(gathered(i as nat, piece) == gathered((i - 1) as nat, piece) + piece(i - 1));
        assert(wfp_steps(plan@) =~= head + gathered(i as nat, piece));
    }
    assert(rules.take(i as int) =~= rules);
    push_operation(&mut plan, WfpOperation::Commit);
    assert(wfp_steps(plan@) =~= operations_of(policy@, table@));
    plan
}

/// What is to be done next of a plan.
#[derive(Debug, Clone, Copy, PartialEq, Eq, Structural)]
pub enum PlanStep {
    /// Run the operation with the given number.
    Run(usize),
    /// Abort the transaction.
    Abort,
    /// Nothing is left to do.
    Finished,
}

/// What follows on a step that succeeded or failed: operations run in order, and the first
/// failure aborts the transaction.
pub open spec fn step_after(step: PlanStep, count: int, succeeded: bool) -> PlanStep {
    match step {
        PlanStep::Run(i) => if !succeeded {
            PlanStep::Abort
        } else if i + 1 < count {
            PlanStep::Run((i + 1) as usize)
        } else {
            PlanStep::Finished
        },
        _ => PlanStep::Finished,
    }
}

/// Returns what follows on a step that succeeded or failed.
pub fn next_step(step: PlanStep, count: usize, succeeded: bool) -> (next: PlanStep)
    ensures
        next == step_after(step, count as int, succeeded),
{
    match step {
        PlanStep::Run(i) => {
            if !succeeded {
                PlanStep::Abort
            } else if i < count && i + 1 < count {
                PlanStep::Run(i + 1)
            } else {
                PlanStep::Finished
            }
        },
        _ => PlanStep::Finished,
    }
}

/// Tells whether an operation succeeded, given its status: creating the provider or the
/// sublayer also succeeds when it already exists.
pub fn operation_outcome(operation: &WfpOperation, status: u32) -> (outcome: Result<()>)
    ensures
        match outcome {
            Ok(_) => !(operation@ is Fail) && (status == ERROR_SUCCESS || status
                == FWP_E_ALREADY_EXISTS && (operation@ is AddProvider
                || operation@ is AddSublayer)),
            Err(error) => error == Error::Platform(
                PlatformErrorCode::Windows(
                    match operation@ {
                        WfpStep::Fail(found) => found,
                        _ => status,
                    },
                ),
            ) && (operation@ is Fail || status != ERROR_SUCCESS && !(status == FWP_E_ALREADY_EXISTS
                && (operation@ is AddProvider || operation@ is AddSublayer))),
        },
{
    match operation {
        WfpOperation::Fail(found) => Err(Error::Platform(PlatformErrorCode::Windows(*found))),
        WfpOperation::AddProvider => ok_or_already_exists(status),
        WfpOperation::AddSublayer => ok_or_already_exists(status),
        _ => ok_or_platform_error(status),
    }
}

// ---- laws ----

/// Weights fall from position to position as long as there are no more rules than weights, and
/// are never zero.
pub proof fn weights_fall(left: int, right: int, count: int)
    requires
        0 <= left < right < count,
    ensures
        1 <= weight_at(right, count) <= weight_at(left, count) <= 255,
        count <= 255 ==> weight_at(right, count) < weight_at(left, count),
        count <= 255 ==> weight_at(left, count) == count - left,
{
}

/// Whether a rule's interface can be looked up in both directions.
pub open spec fn interface_is_known(
    rule: FirewallRule,
    lookups: Seq<LuidLookup>,
    table: Seq<LuidIndex>,
) -> bool {
    rule.interface_index matches Some(index) ==> (lookup(lookups, index) matches Ok(luid)
        && index_of_luid(table, luid) == Some(index))
}

/// A filter reads back as the rule it was built for, with its weight, in every layer that holds
/// the rule, for every rule that says nothing without an effect and whose interface is known.
pub proof fn filter_reads_back(
    rule: FirewallRule,
    weight: int,
    is_v6: bool,
    lookups: Seq<LuidLookup>,
    table: Seq<LuidIndex>,
)
    requires
        rule.normal(),
        interface_is_known(rule, lookups, table),
        layers_of(rule).contains((rule.direction, is_v6)),
        1 <= weight <= 255,
    ensures
        decoded(
            rule_filter(rule, weight, is_v6, rule_luid(rule, lookups)->Ok_0),
            rule.direction,
            table,
        ) == Some((weight as u8, rule)),
{
    let luid = rule_luid(rule, lookups)->Ok_0;
    let conditions = conditions_of(rule, is_v6, luid);
    if let Some(network) = rule.remote {
        lemma_remote_reads_back(network, is_v6);
        match network {
            Network::V4(_) => {
                assert(layers_of(rule) =~= seq![(rule.direction, false)]);
                assert(!is_v6);
            },
            Network::V6(_) => {
                assert(layers_of(rule) =~= seq![(rule.direction, true)]);
                assert(is_v6);
            },
        }
    }
    let a = match rule.interface_index {
        Some(_) => seq![interface_condition(luid)],
        None => Seq::<Condition>::empty(),
    };
    let b = remote_conditions(rule.remote, is_v6);
    let c = protocol_conditions(rule.protocol, is_v6);
    let d = port_conditions(rule.effective_port());
    lemma_latest_four(a, b, c, d, interface_in(table));
    lemma_latest_four(a, b, c, d, remote_in());
    lemma_latest_four(a, b, c, d, protocol_named());
    lemma_latest_four(a, b, c, d, ports_named());
    lemma_latest_small(a, interface_in(table));
    lemma_latest_small(b, interface_in(table));
    lemma_latest_small(c, interface_in(table));
    lemma_latest_small(d, interface_in(table));
    lemma_latest_small(a, remote_in());
    lemma_latest_small(b, remote_in());
    lemma_latest_small(c, remote_in());
    lemma_latest_small(d, remote_in());
    lemma_latest_small(a, protocol_named());
    lemma_latest_small(b, protocol_named());
    lemma_latest_small(c, protocol_named());
    lemma_latest_small(d, protocol_named());
    lemma_latest_small(a, ports_named());
    lemma_latest_small(b, ports_named());
    lemma_latest_small(c, ports_named());
    lemma_latest_small(d, ports_named());
    assert(conditions =~= a + b + c + d);
    assert(latest(conditions, interface_in(table)) == rule.interface_index);
    assert(latest(conditions, remote_in()) == rule.remote);
    assert(latest(conditions, protocol_named()) == rule.protocol);
    assert(latest(conditions, ports_named()) == rule.port);
}

/// A list of at most one condition says what that says.
proof fn lemma_latest_small<B>(list: Seq<Condition>, pick: spec_fn(Condition) -> Option<B>)
    requires
        list.len() <= 1,
    ensures
        latest(list, pick) == (if list.len() == 1 {
            pick(list[0])
        } else {
            None
        }),
{
    reveal_with_fuel(latest, 2);
}

/// Of lists one after the other, the last that yields something counts.
proof fn lemma_latest_append<A, B>(left: Seq<A>, right: Seq<A>, pick: spec_fn(A) -> Option<B>)
    ensures
        latest(left + right, pick) == (match latest(right, pick) {
            Some(value) => Some(value),
            None => latest(left, pick),
        }),
    decreases right.len(),
{
    if right.len() == 0 {
        assert(left + right =~= left);
    } else {
        assert((left + right).drop_last() =~= left + right.drop_last());
        assert((left + right).last() == right.last());
        lemma_latest_append(left, right.drop_last(), pick);
    }
}

/// Of four lists one after the other, the last that yields something counts.
proof fn lemma_latest_four<A, B>(
    a: Seq<A>,
    b: Seq<A>,
    c: Seq<A>,
    d: Seq<A>,
    pick: spec_fn(A) -> Option<B>,
)
    ensures
        latest(a + b + c + d, pick) == (match latest(d, pick) {
            Some(value) => Some(value),
            None => match latest(c, pick) {
                Some(value) => Some(value),
                None => match latest(b, pick) {
                    Some(value) => Some(value),
                    None => latest(a, pick),
                },
            },
        }),
{
    lemma_latest_append(a + b + c, d, pick);
    lemma_latest_append(a + b, c, pick);
    lemma_latest_append(a, b, pick);
}

/// A remote network reads back from its condition, in a layer of its family.
proof fn lemma_remote_reads_back(network: Network, is_v6: bool)
    requires
        network.valid(),
    ensures
        network is V4 && !is_v6 || network is V6 && is_v6 ==> remote_conditions(
            Some(network),
            is_v6,
        ).len() == 1 && remote_in()(remote_conditions(Some(network), is_v6)[0]) == Some(network),
{
    network_is_its_parts(network);
    match network {
        Network::V4(inner) => {
            let address = inner.address();
            let bits = inner.prefix().bits() as int;
            let mask = prefix_mask(bits, 4);
            ipv4_is_its_octets(address, address, seq![0u8, 0, 0, 0]);
            number_and_bytes_agree(address.bytes(), 0);
            number_and_bytes_agree(mask, 0);
            mask_counts_back_to_its_prefix(bits, 4);
        },
        Network::V6(_) => {},
    }
}

/// The filters that operations add to a layer, in order.
pub open spec fn filters_added(steps: Seq<WfpStep>, layer: (Direction, bool)) -> Seq<FilterModel> {
    gathered(steps.len(), filter_added(steps, layer))
}

/// Picks out the filter that the `i`-th operation adds to a layer, if any.
pub open spec fn filter_added(steps: Seq<WfpStep>, layer: (Direction, bool)) -> spec_fn(
    int,
) -> Seq<FilterModel> {
    |i: int|
        match steps[i] {
            WfpStep::AddFilter { direction, is_v6, filter } => if (direction, is_v6) == layer {
                seq![filter]
            } else {
                Seq::empty()
            },
            _ => Seq::empty(),
        }
}

/// What is read from all four layers after operations, one layer after the other.
pub open spec fn rules_after(steps: Seq<WfpStep>, table: Seq<LuidIndex>) -> Seq<
    (u8, FirewallRule),
> {
    gathered(
        4,
        |k: int|
            layer_rules(filters_added(steps, all_layers()[k]), all_layers()[k].0, table),
    )
}

/// A policy reads back from the four layers exactly as it was, in its own order even where
/// directions alternate, as long as it has no more rules than there are weights, says nothing
/// without an effect, and its interfaces are known.
pub proof fn layers_read_back_as_the_policy(
    policy: Policy,
    lookups: Seq<LuidLookup>,
    table: Seq<LuidIndex>,
)
    requires
        policy.rules.len() <= 255,
        forall|i: int|
            0 <= i < policy.rules.len() ==> (#[trigger] policy.rules[i]).normal()
                && interface_is_known(policy.rules[i], lookups, table),
    ensures
        merged(rules_after(operations_of(policy, lookups), table)) == policy.rules,
{
    let rules = policy.rules;
    let n = rules.len();
    let steps = operations_of(policy, lookups);
    let entries = rules_after(steps, table);
    lemma_all_resolve(rules, lookups, table);
    assert forall|entry: (u8, FirewallRule)| #[trigger] entries.contains(entry) implies exists|
        i: int,
    |
        0 <= i < n && entry == (weight_at(i, n as int) as u8, #[trigger] rules[i]) by {
        lemma_entry_origin(policy, lookups, table, entry);
    }
    assert forall|i: int| 0 <= i < n implies #[trigger] entries.contains(
        (weight_at(i, n as int) as u8, rules[i]),
    ) by {
        lemma_entry_present(policy, lookups, table, i);
    }
    let piece = |k: int| optional(earliest(entries, weighing(255 - k)));
    let low = (255 - n) as nat;
    assert forall|k: int| 0 <= k < 256 implies #[trigger] piece(k) == (if low <= k < 255 {
        seq![rules[k - low]]
    } else {
        Seq::empty()
    }) by {
        let weight = 255 - k;
        if low <= k < 255 {
            let i = k - low;
            assert(weight_at(i, n as int) == weight);
            assert(entries.contains((weight_at(i, n as int) as u8, rules[i])));
            assert forall|entry: (u8, FirewallRule)|
                #[trigger] entries.contains(entry) && entry.0 == weight implies entry.1
                == rules[i] by {
                let j = choose|j: int|
                    0 <= j < n && entry == (weight_at(j, n as int) as u8, #[trigger] rules[j]);
                assert(weight_at(j, n as int) == n - j);
            }
            lemma_earliest_weight(entries, weight, rules[i]);
        } else {
            assert forall|entry: (u8, FirewallRule)| #[trigger] entries.contains(entry) implies entry.0
                != weight by {
                let j = choose|j: int|
                    0 <= j < n && entry == (weight_at(j, n as int) as u8, #[trigger] rules[j]);
                assert(weight_at(j, n as int) == n - j);
            }
            lemma_earliest_none(entries, weight);
        }
    }
    // Nothing before the first rule's weight, one rule for each weight, nothing at zero.
    let middle = |k: int| piece(low + k);
    let last = |k: int| piece(255 + k);
    lemma_gathered_split(low, n, piece, middle);
    lemma_gathered_split((low + n) as nat, 1, piece, last);
    assert(low + n == 255);
    lemma_gathered_empty(low, piece);
    assert forall|k: int| 0 <= k < n implies (#[trigger] middle(k)).len() == 1 by {
        assert(piece(low + k) == seq![rules[k]]);
    }
    lemma_gathered_singles(n, middle);
    assert forall|k: int| 0 <= k < n implies gathered(n, middle)[k] == rules[k] by {
        assert(middle(k) == seq![rules[k]]);
    }
    assert(gathered(n, middle) =~= rules);
    assert(last(0) == piece(255));
    lemma_gathered_empty(1, last);
    assert(gathered(256, piece) =~= rules);
}

/// Rules whose interfaces are known all resolve.
proof fn lemma_all_resolve(
    rules: Seq<FirewallRule>,
    lookups: Seq<LuidLookup>,
    table: Seq<LuidIndex>,
)
    requires
        forall|i: int|
            0 <= i < rules.len() ==> interface_is_known(#[trigger] rules[i], lookups, table),
    ensures
        resolved(rules, lookups) == rules.len(),
    decreases rules.len(),
{
    if rules.len() > 0 {
        let shorter = rules.drop_last();
        assert forall|i: int| 0 <= i < shorter.len() implies interface_is_known(
            #[trigger] shorter[i],
            lookups,
            table,
        ) by {
            assert(shorter[i] == rules[i]);
        }
        lemma_all_resolve(shorter, lookups, table);
        assert(interface_is_known(rules[rules.len() - 1], lookups, table));
    }
}

/// Whatever is read back stands for one of the rules, with its weight.
proof fn lemma_entry_origin(
    policy: Policy,
    lookups: Seq<LuidLookup>,
    table: Seq<LuidIndex>,
    entry: (u8, FirewallRule),
) -> (i: int)
    requires
        policy.rules.len() <= 255,
        resolved(policy.rules, lookups) == policy.rules.len(),
        forall|i: int|
            0 <= i < policy.rules.len() ==> (#[trigger] policy.rules[i]).normal()
                && interface_is_known(policy.rules[i], lookups, table),
        rules_after(operations_of(policy, lookups), table).contains(entry),
    ensures
        0 <= i < policy.rules.len(),
        entry == (weight_at(i, policy.rules.len() as int) as u8, policy.rules[i]),
{
    let rules = policy.rules;
    let n = rules.len();
    let steps = operations_of(policy, lookups);
    let by_layer = |k: int|
        layer_rules(filters_added(steps, all_layers()[k]), all_layers()[k].0, table);
    let at = lemma_gathered_origin(4, by_layer, entry);
    let layer = all_layers()[at.0];
    let filters = filters_added(steps, layer);
    let read = |m: int| optional(decoded(filters[m], layer.0, table));
    assert(by_layer(at.0).contains(entry));
    let from = lemma_gathered_origin(filters.len(), read, entry);
    let filter = filters[from.0];
    assert(filters.contains(filter));
    let step_at = lemma_gathered_origin(steps.len(), filter_added(steps, layer), filter);
    let step = steps[step_at.0];
    assert(step is AddFilter);
    // A filter with a weight is one of a rule.
    let head = opening(policy.default_verdict);
    let tail = gathered(n, rule_steps(rules, lookups));
    assert(filter.weight != Some(0u8));
    if step_at.0 < head.len() {
        assert(step == head[step_at.0]);
        assert(false);
    }
    assert(step_at.0 < head.len() + tail.len());
    assert(step == tail[step_at.0 - head.len()]);
    assert(tail.contains(step));
    let rule_at = lemma_gathered_origin(n, rule_steps(rules, lookups), step);
    let i = rule_at.0;
    let rule = rules[i];
    assert(rule.normal() && interface_is_known(rule, lookups, table));
    assert(layers_of(rule)[rule_at.1] == layer);
    assert(layers_of(rule).contains(layer));
    assert(layer.0 == rule.direction);
    filter_reads_back(rule, weight_at(i, n as int), layer.1, lookups, table);
    i
}

/// Every rule is read back, with its weight.
proof fn lemma_entry_present(
    policy: Policy,
    lookups: Seq<LuidLookup>,
    table: Seq<LuidIndex>,
    i: int,
)
    requires
        policy.rules.len() <= 255,
        resolved(policy.rules, lookups) == policy.rules.len(),
        0 <= i < policy.rules.len(),
        policy.rules[i].normal(),
        interface_is_known(policy.rules[i], lookups, table),
    ensures
        rules_after(operations_of(policy, lookups), table).contains(
            (weight_at(i, policy.rules.len() as int) as u8, policy.rules[i]),
        ),
{
    let rules = policy.rules;
    let n = rules.len();
    let rule = rules[i];
    let weight = weight_at(i, n as int);
    let entry = (weight as u8, rule);
    let steps = operations_of(policy, lookups);
    let layer = layers_of(rule)[0];
    assert(layers_of(rule).contains(layer));
    filter_reads_back(rule, weight, layer.1, lookups, table);
    let filter = rule_filter(rule, weight, layer.1, rule_luid(rule, lookups)->Ok_0);
    let step = WfpStep::AddFilter { direction: layer.0, is_v6: layer.1, filter };
    // The step is among the operations.
    let head = opening(policy.default_verdict);
    let tail = gathered(n, rule_steps(rules, lookups));
    assert(rule_steps(rules, lookups)(i)[0] == step);
    lemma_gathered_holds(n, rule_steps(rules, lookups), i, 0);
    let at = choose|at: int| 0 <= at < tail.len() && tail[at] == step;
    assert(steps[head.len() + at] == step);
    // So its filter is in the layer.
    let picks = filter_added(steps, layer);
    assert(picks(head.len() + at) == seq![filter]);
    lemma_gathered_holds(steps.len(), picks, head.len() + at, 0);
    let filters = filters_added(steps, layer);
    let m = choose|m: int| 0 <= m < filters.len() && filters[m] == filter;
    // So it is read from the layer.
    let read = |x: int| optional(decoded(filters[x], layer.0, table));
    assert(read(m) == seq![entry]);
    lemma_gathered_holds(filters.len(), read, m, 0);
    let found = layer_rules(filters, layer.0, table);
    let y = choose|y: int| 0 <= y < found.len() && found[y] == entry;
    // So it is among what is read from all layers.
    let by_layer = |k: int|
        layer_rules(filters_added(steps, all_layers()[k]), all_layers()[k].0, table);
    let k = if layer.0 == Direction::Outbound {
        if layer.1 {
            1int
        } else {
            0int
        }
    } else {
        if layer.1 {
            3int
        } else {
            2int
        }
    };
    assert(all_layers()[k] == layer);
    assert(by_layer(k)[y] == entry);
    lemma_gathered_holds(4, by_layer, k, y);
}

/// Where all entries of a weight hold one rule and there is one, that rule is found.
proof fn lemma_earliest_weight(entries: Seq<(u8, FirewallRule)>, weight: int, rule: FirewallRule)
    requires
        0 <= weight <= 255,
        entries.contains((weight as u8, rule)),
        forall|entry: (u8, FirewallRule)|
            #[trigger] entries.contains(entry) && entry.0 == weight ==> entry.1 == rule,
    ensures
        earliest(entries, weighing(weight)) == Some(rule),
    decreases entries.len(),
{
    let shorter = entries.drop_last();
    let last = entries.last();
    assert(entries.contains(last));
    assert forall|entry: (u8, FirewallRule)| #[trigger] shorter.contains(entry) implies entries.contains(
        entry,
    ) by {
        let i = choose|i: int| 0 <= i < shorter.len() && shorter[i] == entry;
        assert(entries[i] == entry);
    }
    if shorter.contains((weight as u8, rule)) {
        lemma_earliest_weight(shorter, weight, rule);
    } else {
        let i = choose|i: int| 0 <= i < entries.len() && entries[i] == (weight as u8, rule);
        if i < shorter.len() {
            assert(shorter[i] == (weight as u8, rule));
        }
        assert(last == (weight as u8, rule));
        assert forall|entry: (u8, FirewallRule)| #[trigger] shorter.contains(entry) implies entry.0
            != weight by {
            if entry.0 == weight {
                assert(entries.contains(entry));
                assert(entry == (weight as u8, rule));
            }
        }
        lemma_earliest_none(shorter, weight);
    }
}

/// Where no entry has a weight, nothing is found.
proof fn lemma_earliest_none(entries: Seq<(u8, FirewallRule)>, weight: int)
    requires
        forall|entry: (u8, FirewallRule)| #[trigger] entries.contains(entry) ==> entry.0 != weight,
    ensures
        earliest(entries, weighing(weight)) is None,
    decreases entries.len(),
{
    if entries.len() > 0 {
        let shorter = entries.drop_last();
        assert(entries.contains(entries.last()));
        assert forall|entry: (u8, FirewallRule)| #[trigger] shorter.contains(entry) implies entry.0
            != weight by {
            let i = choose|i: int| 0 <= i < shorter.len() && shorter[i] == entry;
            assert(entries[i] == entry);
            assert(entries.contains(entry));
        }
        lemma_earliest_none(shorter, weight);
    }
}

// ---- what the filters do ----

/// Whether a packet of a direction, on the interface with the given identifier, meets a
/// condition.
pub open spec fn condition_met(
    condition: Condition,
    direction: Direction,
    luid: u64,
    packet: Packet,
) -> bool {
    let address = packet.remote_address(direction);
    let port = packet.remote_port(direction);
    match (condition.field, condition.value) {
        (ConditionField::LocalInterface, ConditionValue::Uint64(number)) => condition.match_type
            == MatchType::Equal && number == luid,
        (ConditionField::RemoteAddress, ConditionValue::V4AddrMask { addr, mask }) => {
            &&& condition.match_type == MatchType::Equal
            &&& address.len() == 4
            &&& masked(address, bytes_of(mask)) == masked(bytes_of(addr), bytes_of(mask))
        },
        (ConditionField::RemoteAddress, ConditionValue::V6AddrMask { addr, prefix_length }) => {
            let mask = prefix_mask(prefix_length as int, 16);
            &&& condition.match_type == MatchType::Equal
            &&& address.len() == 16
            &&& masked(address, mask) == masked(addr.bytes(), mask)
        },
        (ConditionField::Protocol, ConditionValue::Uint8(number)) => condition.match_type
            == MatchType::Equal && number == packet.protocol,
        (ConditionField::RemotePort, ConditionValue::Uint16(number)) => condition.match_type
            == MatchType::Equal && number == port,
        (ConditionField::RemotePort, ConditionValue::Range { low, high }) => condition.match_type
            == MatchType::Range && low <= port <= high,
        _ => false,
    }
}

/// Whether a packet meets all conditions of a filter.
pub open spec fn filter_met(
    filter: FilterModel,
    direction: Direction,
    luid: u64,
    packet: Packet,
) -> bool {
    forall|i: int|
        0 <= i < filter.conditions.len() ==> condition_met(
            #[trigger] filter.conditions[i],
            direction,
            luid,
            packet,
        )
}

/// How heavy a filter is.
pub open spec fn heaviness(filter: FilterModel) -> int {
    match filter.weight {
        Some(weight) => weight as int,
        None => -1,
    }
}

/// Whether a filter may decide on a packet: the packet meets its conditions, and none of the
/// other filters whose conditions it meets is heavier.
pub open spec fn decides(
    filters: Seq<FilterModel>,
    filter: FilterModel,
    direction: Direction,
    luid: u64,
    packet: Packet,
) -> bool {
    &&& filters.contains(filter)
    &&& filter_met(filter, direction, luid, packet)
    &&& forall|other: FilterModel| #[trigger]
        filters.contains(other) && filter_met(other, direction, luid, packet) ==> heaviness(other)
            <= heaviness(filter)
}

/// A layer's filters after one more operation.
pub open spec fn layer_step(
    filters: Seq<FilterModel>,
    layer: (Direction, bool),
    step: WfpStep,
) -> Seq<FilterModel> {
    match step {
        WfpStep::FlushLayer { direction, is_v6 } => if (direction, is_v6) == layer {
            Seq::empty()
        } else {
            filters
        },
        WfpStep::AddFilter { direction, is_v6, filter } => if (direction, is_v6) == layer {
            filters.push(filter)
        } else {
            filters
        },
        _ => filters,
    }
}

/// A layer's filters after operations.
pub open spec fn layer_after(
    filters: Seq<FilterModel>,
    layer: (Direction, bool),
    steps: Seq<WfpStep>,
) -> Seq<FilterModel>
    decreases steps.len(),
{
    if steps.len() == 0 {
        filters
    } else {
        layer_step(layer_after(filters, layer, steps.drop_last()), layer, steps.last())
    }
}

/// The number that ICMP has in a layer of one family.
pub open spec fn control_in_layer(is_v6: bool) -> spec_fn(FirewallRule) -> u8 {
    |rule: FirewallRule|
        if is_v6 {
            58u8
        } else {
            1u8
        }
}

/// Whether a rule's interface has an identifier, and that is the one of a packet's interface
/// exactly when the index is.
pub open spec fn interface_is_identified(
    rule: FirewallRule,
    lookups: Seq<LuidLookup>,
    found: u32,
    luid: u64,
) -> bool {
    rule.interface_index matches Some(index) ==> (lookup(lookups, index) matches Ok(identifier) && (
    identifier == luid <==> index == found))
}

/// Operations go part by part.
proof fn lemma_layer_append(
    filters: Seq<FilterModel>,
    layer: (Direction, bool),
    left: Seq<WfpStep>,
    right: Seq<WfpStep>,
)
    ensures
        layer_after(filters, layer, left + right) == layer_after(
            layer_after(filters, layer, left),
            layer,
            right,
        ),
    decreases right.len(),
{
    if right.len() == 0 {
        assert(left + right =~= left);
    } else {
        lemma_layer_append(filters, layer, left, right.drop_last());
        assert((left + right).drop_last() =~= left + right.drop_last());
        assert((left + right).last() == right.last());
    }
}

/// Operations that do not flush leave what is there and add their filters.
proof fn lemma_layer_holds(
    filters: Seq<FilterModel>,
    layer: (Direction, bool),
    steps: Seq<WfpStep>,
    filter: FilterModel,
)
    requires
        forall|i: int| 0 <= i < steps.len() ==> !((#[trigger] steps[i]) is FlushLayer),
    ensures
        layer_after(filters, layer, steps).contains(filter) <==> filters.contains(filter)
            || steps.contains(
            WfpStep::AddFilter { direction: layer.0, is_v6: layer.1, filter },
        ),
    decreases steps.len(),
{
    let step = WfpStep::AddFilter { direction: layer.0, is_v6: layer.1, filter };
    if steps.len() > 0 {
        let shorter = steps.drop_last();
        let last = steps.last();
        assert forall|i: int| 0 <= i < shorter.len() implies !(
        (#[trigger] shorter[i]) is FlushLayer) by {
            assert(shorter[i] == steps[i]);
        }
        lemma_layer_holds(filters, layer, shorter, filter);
        let before = layer_after(filters, layer, shorter);
        let after = layer_after(filters, layer, steps);
        assert(steps =~= shorter.push(last));
        assert(!(last is FlushLayer)) by {
            assert(steps[steps.len() - 1] == last);
        }
        assert(steps.contains(step) <==> shorter.contains(step) || last == step) by {
            if shorter.contains(step) {
                let i = choose|i: int| 0 <= i < shorter.len() && shorter[i] == step;
                assert(steps[i] == step);
            }
            if last == step {
                assert(steps[steps.len() - 1] == step);
            }
            if steps.contains(step) {
                let i = choose|i: int| 0 <= i < steps.len() && steps[i] == step;
                if i < shorter.len() {
                    assert(shorter[i] == step);
                }
            }
        }
        if let WfpStep::AddFilter { direction, is_v6, filter: added } = last {
            if (direction, is_v6) == layer {
                assert(after == before.push(added));
                assert(after.contains(filter) <==> before.contains(filter) || added == filter) by {
                    if before.contains(filter) {
                        let i = choose|i: int| 0 <= i < before.len() && before[i] == filter;
                        assert(after[i] == filter);
                    }
                    if added == filter {
                        assert(after[before.len() as int] == filter);
                    }
                    if after.contains(filter) {
                        let i = choose|i: int| 0 <= i < after.len() && after[i] == filter;
                        if i < before.len() {
                            assert(before[i] == filter);
                        }
                    }
                }
            }
        }
    }
}

/// A layer's filters go operation by operation.
proof fn lemma_layer_take(
    filters: Seq<FilterModel>,
    layer: (Direction, bool),
    steps: Seq<WfpStep>,
    n: int,
)
    requires
        0 <= n < steps.len(),
    ensures
        layer_after(filters, layer, steps.take(n + 1)) == layer_step(
            layer_after(filters, layer, steps.take(n)),
            layer,
            steps[n],
        ),
{
    assert(steps.take(n + 1).drop_last() =~= steps.take(n));
    assert(steps.take(n + 1).last() == steps[n]);
}

/// After the opening a layer holds the filter of the default verdict alone.
proof fn lemma_opening_layer(
    before: Seq<FilterModel>,
    layer: (Direction, bool),
    verdict: Verdict,
)
    ensures
        layer_after(before, layer, opening(verdict)) == seq![default_filter(verdict)],
{
    let steps = opening(verdict);
    let filter = default_filter(verdict);
    let (direction, is_v6) = layer;
    assert(direction == Direction::Outbound || direction == Direction::Inbound);
    lemma_layer_take(before, layer, steps, 3);
    lemma_layer_take(before, layer, steps, 4);
    lemma_layer_take(before, layer, steps, 5);
    lemma_layer_take(before, layer, steps, 6);
    assert(steps[3] == WfpStep::FlushLayer { direction: Direction::Outbound, is_v6: false });
    assert(steps[4] == WfpStep::FlushLayer { direction: Direction::Outbound, is_v6: true });
    assert(steps[5] == WfpStep::FlushLayer { direction: Direction::Inbound, is_v6: false });
    assert(steps[6] == WfpStep::FlushLayer { direction: Direction::Inbound, is_v6: true });
    assert(layer_after(before, layer, steps.take(7)) == Seq::<FilterModel>::empty());
    lemma_layer_take(before, layer, steps, 7);
    lemma_layer_take(before, layer, steps, 8);
    lemma_layer_take(before, layer, steps, 9);
    lemma_layer_take(before, layer, steps, 10);
    assert(steps[7] == WfpStep::AddFilter {
        direction: Direction::Outbound,
        is_v6: false,
        filter,
    });
    assert(steps[8] == WfpStep::AddFilter { direction: Direction::Outbound, is_v6: true, filter });
    assert(steps[9] == WfpStep::AddFilter { direction: Direction::Inbound, is_v6: false, filter });
    assert(steps[10] == WfpStep::AddFilter { direction: Direction::Inbound, is_v6: true, filter });
    assert(steps.take(11) =~= steps);
    assert(layer_after(before, layer, steps) =~= seq![filter]);
}

/// A layer holds exactly the filter of the default verdict and those of its rules.
proof fn lemma_layer_filters(
    policy: Policy,
    lookups: Seq<LuidLookup>,
    before: Seq<FilterModel>,
    layer: (Direction, bool),
    filter: FilterModel,
)
    requires
        resolved(policy.rules, lookups) == policy.rules.len(),
    ensures
        layer_after(before, layer, operations_of(policy, lookups)).contains(filter) <==> filter
            == default_filter(policy.default_verdict) || exists|i: int|
            0 <= i < policy.rules.len() && layers_of(#[trigger] policy.rules[i]).contains(layer)
                && filter == rule_filter(
                policy.rules[i],
                weight_at(i, policy.rules.len() as int),
                layer.1,
                rule_luid(policy.rules[i], lookups)->Ok_0,
            ),
{
    let rules = policy.rules;
    let n = rules.len();
    let piece = rule_steps(rules, lookups);
    let head = opening(policy.default_verdict);
    let middle = gathered(n, piece);
    let steps = operations_of(policy, lookups);
    let step = WfpStep::AddFilter { direction: layer.0, is_v6: layer.1, filter };
    let rest = middle + seq![WfpStep::Commit];
    assert(steps =~= head + rest);
    lemma_layer_append(before, layer, head, rest);
    lemma_opening_layer(before, layer, policy.default_verdict);
    let start = seq![default_filter(policy.default_verdict)];
    assert forall|i: int| 0 <= i < rest.len() implies !((#[trigger] rest[i]) is FlushLayer) by {
        if i < middle.len() {
            assert(middle.contains(middle[i]));
            let at = lemma_gathered_origin(n, piece, middle[i]);
            assert(piece(at.0)[at.1] == middle[i]);
        }
    }
    lemma_layer_holds(start, layer, rest, filter);
    assert(start.contains(filter) <==> filter == start[0]) by {
        if filter == start[0] {
            assert(start[0] == filter);
        }
    }
    if rest.contains(step) {
        let k = choose|k: int| 0 <= k < rest.len() && rest[k] == step;
        assert(k < middle.len());
        assert(middle[k] == step);
        assert(middle.contains(step));
        let at = lemma_gathered_origin(n, piece, step);
        assert(piece(at.0)[at.1] == step);
        assert(layers_of(rules[at.0])[at.1] == layer);
        assert(layers_of(rules[at.0]).contains(layer));
    }
    assert forall|i: int|
        0 <= i < n && layers_of(#[trigger] rules[i]).contains(layer) && filter == rule_filter(
            rules[i],
            weight_at(i, n as int),
            layer.1,
            rule_luid(rules[i], lookups)->Ok_0,
        ) implies rest.contains(step) by {
        let k = choose|k: int| 0 <= k < layers_of(rules[i]).len() && layers_of(rules[i])[k] == layer;
        assert(piece(i)[k] == step);
        lemma_gathered_holds(n, piece, i, k);
        let at = choose|at: int| 0 <= at < middle.len() && middle[at] == step;
        assert(rest[at] == step);
    }
}

/// A packet meets the conditions of a rule's filter exactly when the rule describes it, in a
/// layer of the packet's family that holds the rule.
pub proof fn filter_matches_what_its_rule_describes(
    rule: FirewallRule,
    weight: int,
    is_v6: bool,
    lookups: Seq<LuidLookup>,
    luid: u64,
    packet: Packet,
)
    requires
        if is_v6 {
            packet.is_v6()
        } else {
            packet.is_v4()
        },
        layers_of(rule).contains((rule.direction, is_v6)),
        interface_is_identified(rule, lookups, packet.interface(rule.direction), luid),
    ensures
        filter_met(
            rule_filter(rule, weight, is_v6, rule_luid(rule, lookups)->Ok_0),
            rule.direction,
            luid,
            packet,
        ) <==> describes(rule, packet, control_in_layer(is_v6)(rule)),
{
    let identifier = rule_luid(rule, lookups)->Ok_0;
    let filter = rule_filter(rule, weight, is_v6, identifier);
    let a = match rule.interface_index {
        Some(_) => seq![interface_condition(identifier)],
        None => Seq::<Condition>::empty(),
    };
    let b = remote_conditions(rule.remote, is_v6);
    let c = protocol_conditions(rule.protocol, is_v6);
    let d = port_conditions(rule.effective_port());
    let all = a + b + c + d;
    assert(filter.conditions =~= all);
    let direction = rule.direction;
    lemma_all_met(a + b + c, d, direction, luid, packet);
    lemma_all_met(a + b, c, direction, luid, packet);
    lemma_all_met(a, b, direction, luid, packet);
    if let Some(network) = rule.remote {
        lemma_remote_condition(network, is_v6, direction, luid, packet);
        match network {
            Network::V4(_) => {
                assert(layers_of(rule) =~= seq![(rule.direction, false)]);
            },
            Network::V6(_) => {
                assert(layers_of(rule) =~= seq![(rule.direction, true)]);
            },
        }
    }
    if rule.interface_index is Some {
        assert(a[0] == interface_condition(identifier));
    }
    if rule.protocol is Some {
        assert(c[0].field == ConditionField::Protocol);
    }
    if rule.effective_port() is Some {
        assert(d[0].field == ConditionField::RemotePort);
    }
}

/// Conditions are met part by part.
proof fn lemma_all_met(
    left: Seq<Condition>,
    right: Seq<Condition>,
    direction: Direction,
    luid: u64,
    packet: Packet,
)
    ensures
        (forall|i: int|
            0 <= i < (left + right).len() ==> condition_met(
                #[trigger] (left + right)[i],
                direction,
                luid,
                packet,
            )) <==> (forall|i: int|
            0 <= i < left.len() ==> condition_met(#[trigger] left[i], direction, luid, packet)) && (
        forall|i: int|
            0 <= i < right.len() ==> condition_met(#[trigger] right[i], direction, luid, packet)),
{
    let all = left + right;
    if forall|i: int|
        0 <= i < all.len() ==> condition_met(#[trigger] all[i], direction, luid, packet) {
        assert forall|i: int| 0 <= i < left.len() implies condition_met(
            #[trigger] left[i],
            direction,
            luid,
            packet,
        ) by {
            assert(all[i] == left[i]);
        }
        assert forall|i: int| 0 <= i < right.len() implies condition_met(
            #[trigger] right[i],
            direction,
            luid,
            packet,
        ) by {
            assert(all[left.len() + i] == right[i]);
        }
    }
}

/// The condition on a remote network is met exactly by the addresses in it.
proof fn lemma_remote_condition(
    network: Network,
    is_v6: bool,
    direction: Direction,
    luid: u64,
    packet: Packet,
)
    ensures
        network is V4 && !is_v6 || network is V6 && is_v6 ==> remote_conditions(
            Some(network),
            is_v6,
        ).len() == 1 && (condition_met(
            remote_conditions(Some(network), is_v6)[0],
            direction,
            luid,
            packet,
        ) <==> in_network(packet.remote_address(direction), network)),
{
    match network {
        Network::V4(inner) => {
            let address = inner.address();
            let mask = prefix_mask(inner.prefix().bits() as int, 4);
            ipv4_is_its_octets(address, address, seq![0u8, 0, 0, 0]);
            number_and_bytes_agree(address.bytes(), 0);
            number_and_bytes_agree(mask, 0);
        },
        Network::V6(_) => {},
    }
}

/// The filters do what the policy says. Whatever the layers held before, a packet is decided on
/// by a filter, and every filter that may decide has the action for the verdict of the first
/// rule that describes the packet, or else for the default verdict. The policy has no more rules
/// than there are weights, and its interfaces are known.
pub proof fn filters_enforce_the_policy(
    policy: Policy,
    lookups: Seq<LuidLookup>,
    before: Seq<FilterModel>,
    direction: Direction,
    is_v6: bool,
    luid: u64,
    packet: Packet,
)
    requires
        policy.rules.len() <= 255,
        if is_v6 {
            packet.is_v6()
        } else {
            packet.is_v4()
        },
        resolved(policy.rules, lookups) == policy.rules.len(),
        forall|i: int|
            0 <= i < policy.rules.len() && (#[trigger] policy.rules[i]).direction == direction
                ==> interface_is_identified(
                policy.rules[i],
                lookups,
                packet.interface(direction),
                luid,
            ),
    ensures
        exists|filter: FilterModel| #[trigger]
            decides(
                layer_after(before, (direction, is_v6), operations_of(policy, lookups)),
                filter,
                direction,
                luid,
                packet,
            ),
        forall|filter: FilterModel| #[trigger]
            decides(
                layer_after(before, (direction, is_v6), operations_of(policy, lookups)),
                filter,
                direction,
                luid,
                packet,
            ) ==> filter.action == action_of(
                policy_verdict(policy, direction, packet, control_in_layer(is_v6)),
            ),
{
    let rules = policy.rules;
    let n = rules.len() as int;
    let layer = (direction, is_v6);
    let filters = layer_after(before, layer, operations_of(policy, lookups));
    let pick = describing(direction, packet, control_in_layer(is_v6));
    let fallback = default_filter(policy.default_verdict);
    let of_rule = |i: int|
        rule_filter(rules[i], weight_at(i, n), is_v6, rule_luid(rules[i], lookups)->Ok_0);
    // A filter that is met is the fallback, or that of a rule that describes the packet.
    assert forall|filter: FilterModel| #[trigger]
        filters.contains(filter) && filter_met(filter, direction, luid, packet) implies filter
        == fallback || exists|i: int|
        0 <= i < n && pick(#[trigger] rules[i]) is Some && filter == of_rule(i) by {
        lemma_layer_filters(policy, lookups, before, layer, filter);
        if filter != fallback {
            let i = choose|i: int|
                0 <= i < rules.len() && layers_of(#[trigger] rules[i]).contains(layer) && filter
                    == rule_filter(
                    rules[i],
                    weight_at(i, rules.len() as int),
                    layer.1,
                    rule_luid(rules[i], lookups)->Ok_0,
                );
            lemma_layers_of(rules[i], layer);
            filter_matches_what_its_rule_describes(
                rules[i],
                weight_at(i, n),
                is_v6,
                lookups,
                luid,
                packet,
            );
            assert(pick(rules[i]) is Some);
        }
    }
    lemma_layer_filters(policy, lookups, before, layer, fallback);
    assert(filter_met(fallback, direction, luid, packet));
    let at = lemma_earliest_at(rules, pick);
    if earliest(rules, pick) is Some {
        let rule = rules[at];
        let chosen = of_rule(at);
        lemma_describes_layer(rule, direction, is_v6, packet);
        lemma_layer_filters(policy, lookups, before, layer, chosen);
        filter_matches_what_its_rule_describes(
            rule,
            weight_at(at, n),
            is_v6,
            lookups,
            luid,
            packet,
        );
        assert(filters.contains(chosen));
        assert(filter_met(chosen, direction, luid, packet));
        assert forall|other: FilterModel| #[trigger]
            filters.contains(other) && filter_met(other, direction, luid, packet) implies heaviness(
            other,
        ) <= heaviness(chosen) && (heaviness(other) == heaviness(chosen) ==> other == chosen) by {
            if other != fallback {
                let i = choose|i: int|
                    0 <= i < n && pick(#[trigger] rules[i]) is Some && other == of_rule(i);
                assert(at <= i);
                assert(weight_at(i, n) == n - i);
                assert(weight_at(at, n) == n - at);
            }
        }
        assert(decides(filters, chosen, direction, luid, packet));
        assert forall|filter: FilterModel| #[trigger]
            decides(filters, filter, direction, luid, packet) implies filter.action == action_of(
            policy_verdict(policy, direction, packet, control_in_layer(is_v6)),
        ) by {
            assert(heaviness(chosen) <= heaviness(filter));
            assert(filter == chosen);
        }
    } else {
        assert forall|other: FilterModel| #[trigger]
            filters.contains(other) && filter_met(other, direction, luid, packet) implies other
            == fallback by {
            if other != fallback {
                let i = choose|i: int|
                    0 <= i < n && pick(#[trigger] rules[i]) is Some && other == of_rule(i);
                assert(pick(rules[i]) is None);
            }
        }
        assert(decides(filters, fallback, direction, luid, packet));
    }
}

/// A rule's layers are of its direction.
proof fn lemma_layers_of(rule: FirewallRule, layer: (Direction, bool))
    requires
        layers_of(rule).contains(layer),
    ensures
        rule.direction == layer.0,
{
    let k = choose|k: int| 0 <= k < layers_of(rule).len() && layers_of(rule)[k] == layer;
    assert(layers_of(rule)[k].0 == rule.direction);
}

/// The layer of a packet's family holds every rule that describes the packet.
proof fn lemma_describes_layer(
    rule: FirewallRule,
    direction: Direction,
    is_v6: bool,
    packet: Packet,
)
    requires
        if is_v6 {
            packet.is_v6()
        } else {
            packet.is_v4()
        },
        rule.direction == direction,
        describes(rule, packet, control_in_layer(is_v6)(rule)),
    ensures
        layers_of(rule).contains((direction, is_v6)),
{
    match rule.remote {
        None => {
            let k = if is_v6 {
                1int
            } else {
                0int
            };
            assert(layers_of(rule)[k] == (direction, is_v6));
        },
        Some(_) => {
            assert(layers_of(rule)[0] == (direction, is_v6));
        },
    }
}

// ---- numbers and fields ----

/// A verdict to allow permits and one to deny blocks, and they read back; no other action reads
/// as a verdict.
pub proof fn actions_are_their_verdicts(action: FilterAction)
    ensures
        action_of(Verdict::Allow) == FilterAction::Permit,
        action_of(Verdict::Deny) == FilterAction::Block,
        verdict_of(action) == Some(Verdict::Allow) <==> action == FilterAction::Permit,
        verdict_of(action) == Some(Verdict::Deny) <==> action == FilterAction::Block,
{
}

/// In a layer ICMP is number 58 for IPv6 and number 1 for IPv4; TCP is 6 and UDP is 17 in both.
pub proof fn layers_have_their_protocol_numbers(is_v6: bool)
    ensures
        layer_protocol(Protocol::Tcp, is_v6) == 6,
        layer_protocol(Protocol::Udp, is_v6) == 17,
        layer_protocol(Protocol::Icmp, true) == 58,
        layer_protocol(Protocol::Icmp, false) == 1,
{
}

/// A rule belongs to the layers of its own direction: to that of its remote network's family, or
/// to both where it has no remote network.
pub proof fn rules_belong_to_layers_of_their_direction(
    rule: FirewallRule,
    layer: (Direction, bool),
)
    ensures
        layers_of(rule).contains(layer) <==> layer.0 == rule.direction && (match rule.remote {
            None => true,
            Some(Network::V4(_)) => !layer.1,
            Some(Network::V6(_)) => layer.1,
        }),
        layers_of(rule).len() == (if rule.remote is None {
            2nat
        } else {
            1nat
        }),
{
    let list = layers_of(rule);
    let (direction, is_v6) = layer;
    assert(list[0] == (rule.direction, list[0].1));
    if direction == rule.direction {
        if rule.remote is None {
            assert(list[if is_v6 {
                1int
            } else {
                0int
            }] == layer);
        } else if (rule.remote->0 is V6) == is_v6 {
            assert(list[0] == layer);
        }
    }
}

/// The layers are those of both directions and both families.
pub proof fn every_layer_is_listed(layer: (Direction, bool))
    ensures
        all_layers().contains(layer),
        all_layers().len() == 4,
{
    let (direction, is_v6) = layer;
    assert(direction == Direction::Inbound || direction == Direction::Outbound);
    assert(all_layers()[0] == (Direction::Outbound, false));
    assert(all_layers()[1] == (Direction::Outbound, true));
    assert(all_layers()[2] == (Direction::Inbound, false));
    assert(all_layers()[3] == (Direction::Inbound, true));
}

/// A rule's weight is the number of rules from it on, kept between 1 and 255.
pub proof fn weight_counts_the_rules_from_here(index: int, count: int)
    ensures
        1 <= count - index <= 255 ==> weight_at(index, count) == count - index,
        count - index > 255 ==> weight_at(index, count) == 255,
        count - index < 1 ==> weight_at(index, count) == 1,
{
}

/// The filter for the default verdict has weight 0 and no conditions, below every rule's.
pub proof fn default_filter_is_the_lightest(verdict: Verdict, index: int, count: int)
    ensures
        default_filter(verdict).weight == Some(0u8),
        default_filter(verdict).conditions.len() == 0,
        default_filter(Verdict::Allow).action == FilterAction::Permit,
        default_filter(Verdict::Deny).action == FilterAction::Block,
        weight_at(index, count) > 0,
{
}

/// The conditions of a rule compare for equality, except a range of ports, and look at nothing
/// that the rule does not name.
pub proof fn conditions_name_what_the_rule_names(
    rule: FirewallRule,
    is_v6: bool,
    luid: u64,
    i: int,
)
    requires
        0 <= i < conditions_of(rule, is_v6, luid).len(),
    ensures
        ({
            let condition = conditions_of(rule, is_v6, luid)[i];
            &&& condition.match_type == MatchType::Range <==> condition.field
                == ConditionField::RemotePort && (rule.port matches Some(range) && range.start
                != range.end)
            &&& condition.match_type == MatchType::Range || condition.match_type
                == MatchType::Equal
            &&& condition.field == ConditionField::LocalInterface ==> rule.interface_index is Some
                && condition.value == ConditionValue::Uint64(luid)
            &&& condition.field == ConditionField::RemoteAddress ==> rule.remote is Some
            &&& condition.field == ConditionField::Protocol ==> rule.protocol is Some
            &&& condition.field == ConditionField::RemotePort ==> (rule.protocol == Some(
                Protocol::Tcp,
            ) || rule.protocol == Some(Protocol::Udp)) && (rule.port matches Some(range) && (
            range.start == range.end ==> condition.value == ConditionValue::Uint16(range.start))
                && (range.start != range.end ==> condition.value == (ConditionValue::Range {
                low: range.start,
                high: range.end,
            })))
        }),
{
    let a = match rule.interface_index {
        Some(_) => seq![interface_condition(luid)],
        None => Seq::empty(),
    };
    let b = remote_conditions(rule.remote, is_v6);
    let c = protocol_conditions(rule.protocol, is_v6);
    let d = port_conditions(rule.effective_port());
    let condition = conditions_of(rule, is_v6, luid)[i];
    if i < a.len() {
        assert(condition == a[i]);
    } else if i < a.len() + b.len() {
        assert(condition == b[i - a.len()]);
    } else if i < a.len() + b.len() + c.len() {
        assert(condition == c[i - a.len() - b.len()]);
    } else {
        assert(condition == d[i - a.len() - b.len() - c.len()]);
    }
}

/// What a filter reads as. It is read exactly when it has a weight other than zero and permits
/// or blocks. Of conditions on one thing the last one counts.
pub proof fn filters_read_field_by_field(
    filter: FilterModel,
    direction: Direction,
    table: Seq<LuidIndex>,
    i: int,
)
    ensures
        decoded(filter, direction, table) is Some <==> (filter.weight matches Some(weight) && weight
            != 0) && filter.action != FilterAction::Other,
        decoded(filter, direction, table) matches Some((weight, rule)) ==> {
            let condition = filter.conditions[i];
            let last = 0 <= i < filter.conditions.len() && forall|j: int|
                i < j < filter.conditions.len() ==> (#[trigger] filter.conditions[j]).field
                    != condition.field;
            &&& filter.weight == Some(weight)
            &&& rule.direction == direction
            &&& rule.verdict == Verdict::Allow <==> filter.action == FilterAction::Permit
            &&& last && condition.field == ConditionField::RemotePort ==> (
            condition.value matches ConditionValue::Uint16(port) ==> rule.port == Some(
                PortRange { start: port, end: port },
            ))
            &&& last && condition.field == ConditionField::RemotePort ==> (
            condition.value matches ConditionValue::Range { low, high } ==> rule.port == Some(
                PortRange { start: low, end: high },
            ))
            &&& last && condition.field == ConditionField::Protocol ==> (
            condition.value matches ConditionValue::Uint8(number) ==> (number == 6
                ==> rule.protocol == Some(Protocol::Tcp)) && (number == 17 ==> rule.protocol
                == Some(Protocol::Udp)) && (number == 1 || number == 58 ==> rule.protocol == Some(
                Protocol::Icmp,
            )))
            &&& last && condition.field == ConditionField::RemoteAddress ==> (
            condition.value matches ConditionValue::V6AddrMask { addr, prefix_length }
                ==> prefix_length <= 128 ==> (rule.remote matches Some(network)
                && network.address() == IpAddress::V6(addr) && network.prefix_bits()
                == prefix_length))
            &&& last && condition.field == ConditionField::RemoteAddress ==> (
            condition.value matches ConditionValue::V4AddrMask { addr, mask } ==> (
            rule.remote matches Some(network) && network is V4 && octets_of(network.address())
                == bytes_of(addr) && network.prefix_bits() == leading_ones(bytes_of(mask))))
            &&& last && condition.field == ConditionField::LocalInterface ==> (
            condition.value matches ConditionValue::Uint64(luid) ==> (index_of_luid(
                table,
                luid,
            ) is Some ==> rule.interface_index == index_of_luid(table, luid)))
            &&& (forall|j: int|
                0 <= j < filter.conditions.len() ==> (#[trigger] filter.conditions[j]).field
                    != ConditionField::RemotePort) ==> rule.port is None
            &&& (forall|j: int|
                0 <= j < filter.conditions.len() ==> (#[trigger] filter.conditions[j]).field
                    != ConditionField::Protocol) ==> rule.protocol is None
            &&& (forall|j: int|
                0 <= j < filter.conditions.len() ==> (#[trigger] filter.conditions[j]).field
                    != ConditionField::RemoteAddress) ==> rule.remote is None
            &&& (forall|j: int|
                0 <= j < filter.conditions.len() ==> (#[trigger] filter.conditions[j]).field
                    != ConditionField::LocalInterface) ==> rule.interface_index is None
        },
{
    lemma_latest_is(filter.conditions, ports_named(), i);
    lemma_latest_is(filter.conditions, protocol_named(), i);
    lemma_latest_is(filter.conditions, interface_in(table), i);
    lemma_latest_is(filter.conditions, remote_in(), i);
    match filter.conditions[i].value {
        ConditionValue::V6AddrMask { addr, prefix_length } => {
            network_has_the_parts_it_was_made_of(IpAddress::V6(addr), prefix_length);
        },
        ConditionValue::V4AddrMask { addr, mask } => {
            lemma_masked_network(addr, mask);
        },
        _ => {},
    }
}

/// An address and a mask make a network.
proof fn lemma_masked_network(addr: u32, mask: u32)
    ensures
        Network::of_parts(
            IpAddress::V4(Ipv4Address::of(bytes_of(addr))),
            leading_ones(bytes_of(mask)) as u8,
        ) matches Some(network) && network is V4 && octets_of(network.address()) == bytes_of(addr)
            && network.prefix_bits() == leading_ones(bytes_of(mask)),
{
    let address = Ipv4Address::of(bytes_of(addr));
    bytes_are_big_endian(addr);
    bytes_are_big_endian(mask);
    leading_ones_end_at_the_first_zero(bytes_of(mask), 0, 0);
    ipv4_is_its_octets(address, address, bytes_of(addr));
    network_has_the_parts_it_was_made_of(
        IpAddress::V4(address),
        leading_ones(bytes_of(mask)) as u8,
    );
}

/// An identifier reads as the index of the first entry that has it, and an index is looked up at
/// the first entry that has it; one that is not listed was not found, which is status 1168.
pub proof fn first_listed_entry_counts(
    indices: Seq<LuidIndex>,
    luid: u64,
    lookups: Seq<LuidLookup>,
    index: u32,
    i: int,
)
    ensures
        0 <= i < indices.len() && indices[i].luid == luid && (forall|k: int|
            0 <= k < i ==> (#[trigger] indices[k]).luid != luid) ==> index_of_luid(indices, luid)
            == Some(indices[i].index),
        (forall|k: int| 0 <= k < indices.len() ==> (#[trigger] indices[k]).luid != luid)
            ==> index_of_luid(indices, luid) is None,
        0 <= i < lookups.len() && lookups[i].index == index && (forall|k: int|
            0 <= k < i ==> (#[trigger] lookups[k]).index != index) ==> lookup(lookups, index)
            == lookups[i].result,
        (forall|k: int| 0 <= k < lookups.len() ==> (#[trigger] lookups[k]).index != index)
            ==> lookup(lookups, index) == Err::<u64, u32>(1168),
{
    lemma_earliest_is(
        indices,
        |entry: LuidIndex|
            if entry.luid == luid {
                Some(entry.index)
            } else {
                None
            },
        i,
    );
    lemma_earliest_is(
        lookups,
        |entry: LuidLookup|
            if entry.index == index {
                Some(entry.result)
            } else {
                None
            },
        i,
    );
}

/// Merging keeps one rule for each weight, the first one read, and orders them by falling
/// weight.
pub proof fn merging_orders_by_falling_weight(
    entries: Seq<(u8, FirewallRule)>,
    i: int,
    j: int,
    rule: FirewallRule,
)
    ensures
        0 <= i < entries.len() && (forall|k: int|
            0 <= k < i ==> (#[trigger] entries[k]).0 != entries[i].0) ==> merged(entries).contains(
            entries[i].1,
        ),
        merged(entries).contains(rule) ==> exists|k: int|
            0 <= k < entries.len() && (#[trigger] entries[k]).1 == rule,
        0 <= i < entries.len() && 0 <= j < entries.len() && entries[i].0 > entries[j].0 && (forall|
            k: int,
        |
            0 <= k < i ==> (#[trigger] entries[k]).0 != entries[i].0) && (forall|k: int|
            0 <= k < j ==> (#[trigger] entries[k]).0 != entries[j].0) ==> exists|a: int, b: int|
            0 <= a < b < merged(entries).len() && #[trigger] merged(entries)[a] == entries[i].1
                && #[trigger] merged(entries)[b] == entries[j].1,
{
    let piece = |i: int| optional(earliest(entries, weighing(255 - i)));
    assert(merged(entries) == gathered(256, piece));
    if merged(entries).contains(rule) {
        let at = lemma_gathered_origin(256, piece, rule);
        let found = lemma_earliest_at(entries, weighing(255 - at.0));
        assert(entries[found].1 == rule);
    }
    if 0 <= i < entries.len() && (forall|k: int|
        0 <= k < i ==> (#[trigger] entries[k]).0 != entries[i].0) {
        let a: nat = (255 - entries[i].0) as nat;
        lemma_earliest_is(entries, weighing(entries[i].0 as int), i);
        assert(piece(a as int) == seq![entries[i].1]);
        lemma_gathered_at(256, piece, a, 0);
        let at = gathered(a, piece).len();
        assert(merged(entries)[at as int] == entries[i].1);
        if 0 <= j < entries.len() && entries[i].0 > entries[j].0 && (forall|k: int|
            0 <= k < j ==> (#[trigger] entries[k]).0 != entries[j].0) {
            let b: nat = (255 - entries[j].0) as nat;
            lemma_earliest_is(entries, weighing(entries[j].0 as int), j);
            assert(piece(b as int) == seq![entries[j].1]);
            lemma_gathered_at(256, piece, b, 0);
            lemma_gathered_at(b, piece, a, 0);
            let later = gathered(b, piece).len();
            assert(merged(entries)[later as int] == entries[j].1);
            assert(at < later);
        }
    }
}

/// A transaction is opened, then every layer is emptied and given the default filter, all before
/// the first rule; and it ends in a commit exactly when every rule's interface was found.
pub proof fn transaction_starts_clean_and_ends_in_a_commit(
    policy: Policy,
    table: Seq<LuidLookup>,
    k: int,
)
    requires
        0 <= k < 4,
    ensures
        ({
            let steps = operations_of(policy, table);
            let layer = all_layers()[k];
            &&& steps.len() >= 12
            &&& steps[0] is Begin
            &&& steps[1] is AddProvider
            &&& steps[2] is AddSublayer
            &&& steps[3 + k] == (WfpStep::FlushLayer { direction: layer.0, is_v6: layer.1 })
            &&& steps[7 + k] == (WfpStep::AddFilter {
                direction: layer.0,
                is_v6: layer.1,
                filter: default_filter(policy.default_verdict),
            })
            &&& steps.last() is Commit <==> forall|i: int|
                0 <= i < policy.rules.len() ==> rule_luid(#[trigger] policy.rules[i], table) is Ok
            &&& steps.last() matches WfpStep::Fail(status) ==> exists|i: int|
                0 <= i < policy.rules.len() && rule_luid(#[trigger] policy.rules[i], table) == Err::<
                    u64,
                    u32,
                >(status) && forall|j: int|
                    0 <= j < i ==> rule_luid(#[trigger] policy.rules[j], table) is Ok
            &&& steps.last() is Commit || steps.last() is Fail
        }),
{
    let steps = operations_of(policy, table);
    let start = opening(policy.default_verdict);
    let n = resolved(policy.rules, table);
    let middle = gathered(n, rule_steps(policy.rules, table));
    assert(start.len() == 11);
    assert(steps[0] == start[0] && steps[1] == start[1] && steps[2] == start[2]);
    assert(steps[3 + k] == start[3 + k]);
    assert(steps[7 + k] == start[7 + k]);
    lemma_resolved_prefix(policy.rules, table);
    if n < policy.rules.len() {
        assert(rule_luid(policy.rules[n as int], table) is Err);
    }
}

/// As many rules are resolved as stand before the first whose interface is not found.
proof fn lemma_resolved_prefix(rules: Seq<FirewallRule>, table: Seq<LuidLookup>)
    ensures
        resolved(rules, table) <= rules.len(),
        forall|i: int|
            0 <= i < resolved(rules, table) ==> rule_luid(#[trigger] rules[i], table) is Ok,
        resolved(rules, table) < rules.len() ==> rule_luid(
            rules[resolved(rules, table) as int],
            table,
        ) is Err,
    decreases rules.len(),
{
    if rules.len() > 0 {
        let shorter = rules.drop_last();
        lemma_resolved_prefix(shorter, table);
        assert forall|i: int| 0 <= i < resolved(rules, table) implies rule_luid(
            #[trigger] rules[i],
            table,
        ) is Ok by {
            if i < shorter.len() {
                assert(shorter[i] == rules[i]);
            }
        }
    }
}

/// Operations run in order, each after the one before succeeded; the first failure aborts, and
/// after the last operation or an abort nothing is left to do.
pub proof fn operations_run_in_order(i: usize, count: int)
    ensures
        i + 1 < count && count <= usize::MAX ==> step_after(PlanStep::Run(i), count, true)
            == PlanStep::Run((i + 1) as usize),
        i + 1 >= count ==> step_after(PlanStep::Run(i), count, true) == PlanStep::Finished,
        step_after(PlanStep::Run(i), count, false) == PlanStep::Abort,
        step_after(PlanStep::Abort, count, true) == PlanStep::Finished,
        step_after(PlanStep::Abort, count, false) == PlanStep::Finished,
{
}

/// A rule has as many conditions as it names things that count in the layer: an interface, a
/// remote network of the layer's family, a protocol, and ports beside a protocol with ports. A
/// protocol is compared with its number in the layer.
pub proof fn every_named_thing_is_a_condition(
    rule: FirewallRule,
    is_v6: bool,
    luid: u64,
    i: int,
)
    ensures
        conditions_of(rule, is_v6, luid).len() == (if rule.interface_index is Some {
            1int
        } else {
            0
        }) + (if rule.remote matches Some(network) && (network is V6 <==> is_v6) {
            1int
        } else {
            0
        }) + (if rule.protocol is Some {
            1int
        } else {
            0
        }) + (if rule.port is Some && (rule.protocol == Some(Protocol::Tcp) || rule.protocol
            == Some(Protocol::Udp)) {
            1int
        } else {
            0
        }),
        0 <= i < conditions_of(rule, is_v6, luid).len() && conditions_of(
            rule,
            is_v6,
            luid,
        )[i].field == ConditionField::Protocol ==> conditions_of(rule, is_v6, luid)[i].value
            == ConditionValue::Uint8(
            match rule.protocol->0 {
                Protocol::Tcp => 6,
                Protocol::Udp => 17,
                Protocol::Icmp => if is_v6 {
                    58
                } else {
                    1
                },
            },
        ),
{
    let list = conditions_of(rule, is_v6, luid);
    if 0 <= i < list.len() {
        conditions_name_what_the_rule_names(rule, is_v6, luid, i);
    }
}

/// The condition on a remote network holds the network's address and its prefix, as a mask for
/// IPv4 and as a length for IPv6.
pub proof fn remote_conditions_hold_the_network(four: Ipv4Network, six: Ipv6Network)
    ensures
        remote_conditions(Some(Network::V4(four)), true).len() == 0,
        remote_conditions(Some(Network::V6(six)), false).len() == 0,
        remote_conditions(Some(Network::V4(four)), false).len() == 1,
        remote_conditions(Some(Network::V4(four)), false)[0].field == ConditionField::RemoteAddress,
        remote_conditions(
            Some(Network::V4(four)),
            false,
        )[0].value matches ConditionValue::V4AddrMask { addr, mask } && bytes_of(addr)
            == four.address().bytes() && bytes_of(mask) == prefix_mask(
            four.prefix().bits() as int,
            4,
        ),
        remote_conditions(Some(Network::V6(six)), true) == seq![
            Condition {
                field: ConditionField::RemoteAddress,
                match_type: MatchType::Equal,
                value: ConditionValue::V6AddrMask {
                    addr: six.address(),
                    prefix_length: six.prefix().bits(),
                },
            },
        ],
{
    let address = four.address();
    ipv4_is_its_octets(address, address, Seq::new(4, |i: int| 0u8));
    number_and_bytes_agree(address.bytes(), 0);
    number_and_bytes_agree(prefix_mask(four.prefix().bits() as int, 4), 0);
}

/// A filter stands for its fields, and an operation for what it holds.
pub proof fn operations_stand_for_what_they_hold(
    filter: Filter,
    direction: Direction,
    is_v6: bool,
    status: u32,
)
    ensures
        filter@.weight == filter.weight,
        filter@.action == filter.action,
        filter@.conditions == filter.conditions@,
        (WfpOperation::FlushLayer { direction, is_v6 })@ == (WfpStep::FlushLayer {
            direction,
            is_v6,
        }),
        (WfpOperation::AddFilter { direction, is_v6, filter })@ == (WfpStep::AddFilter {
            direction,
            is_v6,
            filter: filter@,
        }),
        WfpOperation::Fail(status)@ == WfpStep::Fail(status),
        WfpOperation::Commit@ is Commit,
        WfpOperation::Begin@ is Begin,
{
}

} // verus!
