//! Windows resolver settings: what the adapters say together, and how new settings are written.

use crate::address::IpAddress;
use crate::dns::DnsConfig;
use crate::dns::Resolver;
use crate::error::Error;
use crate::error::PlatformErrorCode;
use crate::gather::gathered;
use crate::gather::given;
use crate::gather::lemma_gathered_congruent;
use crate::gather::lemma_gathered_holds;
use crate::gather::lemma_gathered_origin;
use crate::gather::optional;
use crate::gather::repeats_are_left_out;
use crate::gather::without_repeats;
use crate::iphelper::ip_in;
use crate::iphelper::sockaddr_inet_to_ip;
use crate::iphelper::SocketAddress;
use crate::ipv4::lemma_ipv4_characters;
use crate::ipv6::lemma_ipv6_characters;
use crate::text::chars_of;
use crate::text::digit_value;
use crate::text::exactly;
use crate::text::join;
use crate::text::lemma_pieces_join;
use crate::text::pieces;
use crate::text::push_chars;
use crate::text::string_of;
use crate::text::texts;
use crate::text::unbroken;
use vstd::prelude::*;

verus! {

/// What one adapter says about name resolution.
#[derive(Debug, Clone, PartialEq, Eq)]
pub struct AdapterDns {
    /// The nameservers' addresses, in order.
    pub nameservers: Vec<SocketAddress>,
    /// The domain to search, if there is one that can be read.
    pub suffix: Option<String>,
}

// ---- reading ----

/// The nameservers of one adapter.
pub open spec fn servers_of(adapter: AdapterDns) -> Seq<IpAddress> {
    gathered(adapter.nameservers@.len(), |k: int| optional(ip_in(adapter.nameservers@[k])))
}

/// The nameservers of all adapters, one adapter after the other.
pub open spec fn all_servers(adapters: Seq<AdapterDns>) -> Seq<IpAddress> {
    gathered(adapters.len(), |i: int| servers_of(adapters[i]))
}

/// The domain of one adapter, unless it is empty.
pub open spec fn domain_of(adapter: AdapterDns) -> Seq<Seq<char>> {
    match adapter.suffix {
        Some(suffix) => given(suffix@.len() > 0, suffix@),
        None => Seq::empty(),
    }
}

/// The domains of all adapters, one adapter after the other.
pub open spec fn all_domains(adapters: Seq<AdapterDns>) -> Seq<Seq<char>> {
    gathered(adapters.len(), |i: int| domain_of(adapters[i]))
}

/// What the adapters say together. Several adapters can name the same nameserver or domain,
/// which then counts where it stands first.
pub open spec fn collected(adapters: Seq<AdapterDns>) -> Resolver {
    Resolver {
        nameservers: without_repeats(all_servers(adapters)),
        search_domains: without_repeats(all_domains(adapters)),
    }
}

/// Lists the nameservers of all adapters, one adapter after the other.
fn list_servers(adapters: &Vec<AdapterDns>) -> (list: Vec<IpAddress>)
    ensures
        list@ == all_servers(adapters@),
{
    let ghost outer = |i: int| servers_of(adapters@[i]);
    let mut list: Vec<IpAddress> = Vec::new();
    let mut i: usize = 0;
    while i < adapters.len()
        invariant
            i <= adapters.len(),
            outer == (|n: int| servers_of(adapters@[n])),
            list@ == gathered(i as nat, outer),
        decreases adapters.len() - i,
    {
        let adapter = &adapters[i];
        let ghost before = list@;
        let ghost inner = |k: int| optional(ip_in(adapter.nameservers@[k]));
        let mut k: usize = 0;
        assert(list@ =~= before + gathered(0, inner));
        while k < adapter.nameservers.len()
            invariant
                k <= adapter.nameservers.len(),
                inner == (|n: int| optional(ip_in(adapter.nameservers@[n]))),
                list@ == before + gathered(k as nat, inner),
            decreases adapter.nameservers.len() - k,
        {
            if let Some(address) = sockaddr_inet_to_ip(&adapter.nameservers[k]) {
                list.push(address);
            }
            k = k + 1;
            assert(gathered(k as nat, inner) == gathered((k - 1) as nat, inner) + inner(k - 1));
            assert(list@ =~= before + gathered(k as nat, inner));
        }
        i = i + 1;
        assert(outer(i - 1) == servers_of(*adapter));
        assert(list@ =~= gathered((i - 1) as nat, outer) + outer(i - 1));
    }
    list
}

/// Leaves out repeated addresses.
fn unique_addresses(list: &Vec<IpAddress>) -> (unique: Vec<IpAddress>)
    ensures
        unique@ == without_repeats(list@),
{
    let mut unique: Vec<IpAddress> = Vec::new();
    let mut i: usize = 0;
    assert(without_repeats(list@.take(0)) =~= Seq::empty());
    while i < list.len()
        invariant
            i <= list.len(),
            unique@ == without_repeats(list@.take(i as int)),
        decreases list.len() - i,
    {
        let address = list[i];
        let mut seen = false;
        let mut k: usize = 0;
        while k < unique.len()
            invariant
                k <= unique.len(),
                seen == exists|n: int| 0 <= n < k && #[trigger] unique@[n] == address,
            decreases unique.len() - k,
        {
            if unique[k] == address {
                seen = true;
            }
            k = k + 1;
        }
        assert(seen == unique@.contains(address));
        assert(list@.take(i + 1).drop_last() =~= list@.take(i as int));
        assert(list@.take(i + 1).last() == address);
        if !seen {
            unique.push(address);
        }
        i = i + 1;
    }
    assert(list@.take(i as int) =~= list@);
    unique
}

/// Collects the domains of all adapters, each where it stands first.
fn unique_domains(adapters: &Vec<AdapterDns>) -> (unique: Vec<String>)
    ensures
        texts(unique@) == without_repeats(all_domains(adapters@)),
{
    let ghost piece = |i: int| domain_of(adapters@[i]);
    let mut unique: Vec<String> = Vec::new();
    let mut i: usize = 0;
    assert(texts(unique@) =~= without_repeats(gathered(0, piece)));
    while i < adapters.len()
        invariant
            i <= adapters.len(),
            piece == (|n: int| domain_of(adapters@[n])),
            texts(unique@) == without_repeats(gathered(i as nat, piece)),
        decreases adapters.len() - i,
    {
        let ghost so_far = gathered(i as nat, piece);
        let ghost longer = gathered((i + 1) as nat, piece);
        assert(longer == so_far + piece(i as int));
        let ghost before = unique@;
        let mut extended = false;
        if let Some(suffix) = &adapters[i].suffix {
            let chars = chars_of(suffix.as_str());
            if chars.len() > 0 {
                extended = true;
                assert(longer.drop_last() =~= so_far);
                assert(longer.last() == suffix@);
                let mut seen = false;
                let mut k: usize = 0;
                while k < unique.len()
                    invariant
                        k <= unique.len(),
                        seen == exists|n: int|
                            0 <= n < k && #[trigger] texts(unique@)[n] == suffix@,
                    decreases unique.len() - k,
                {
                    assert(texts(unique@)[k as int] == unique@[k as int]@);
                    if unique[k] == *suffix {
                        seen = true;
                    }
                    k = k + 1;
                }
                assert(texts(unique@).len() == unique@.len());
                assert(seen == texts(unique@).contains(suffix@));
                if !seen {
                    let copy = suffix.clone();
                    unique.push(copy);
                    assert(texts(unique@) =~= texts(before).push(copy@));
                }
            }
        }
        if !extended {
            assert(longer =~= so_far);
        }
        i = i + 1;
    }
    unique
}

/// Collects what the adapters say into one configuration.
pub fn collect_dns(adapters: &Vec<AdapterDns>) -> (config: DnsConfig)
    ensures
        config@ == collected(adapters@),
{
    let servers = list_servers(adapters);
    let config = DnsConfig {
        nameservers: unique_addresses(&servers),
        search_domains: unique_domains(adapters),
    };
    assert(config@ =~= collected(adapters@));
    config
}

// ---- writing ----

/// The texts of addresses.
pub open spec fn address_texts(addresses: Seq<IpAddress>) -> Seq<Seq<char>> {
    addresses.map_values(|address: IpAddress| address.text())
}

/// Returns the addresses, separated by commas.
pub fn config_list(addresses: &Vec<IpAddress>) -> (list: String)
    ensures
        list@ == join(address_texts(addresses@), ','),
{
    let ghost all = address_texts(addresses@);
    let mut list = String::new();
    let mut i: usize = 0;
    assert(list@ =~= join(all.take(0), ','));
    while i < addresses.len()
        invariant
            i <= addresses.len(),
            all == address_texts(addresses@),
            list@ == join(all.take(i as int), ','),
        decreases addresses.len() - i,
    {
        let ghost before = list@;
        if i > 0 {
            list.push(',');
        }
        addresses[i].push_text(&mut list);
        proof {
            assert(all[i as int] == addresses@[i as int].text());
            assert(all.take(i + 1).drop_last() =~= all.take(i as int));
            assert(all.take(i + 1).last() == all[i as int]);
            if i == 0 {
                assert(all.take(1)[0] == all[0]);
                assert(list@ =~= all[0]);
            } else {
                assert(list@ =~= before.push(',') + all[i as int]);
            }
        }
        i = i + 1;
    }
    assert(all.take(i as int) =~= all);
    list
}

/// Returns the domains, separated by commas.
pub fn search_list(domains: &Vec<String>) -> (list: String)
    ensures
        list@ == join(texts(domains@), ','),
{
    let ghost all = texts(domains@);
    let mut list = String::new();
    let mut i: usize = 0;
    assert(list@ =~= join(all.take(0), ','));
    while i < domains.len()
        invariant
            i <= domains.len(),
            all == texts(domains@),
            list@ == join(all.take(i as int), ','),
        decreases domains.len() - i,
    {
        let ghost before = list@;
        if i > 0 {
            list.push(',');
        }
        let chars = chars_of(domains[i].as_str());
        push_chars(&mut list, &chars);
        proof {
            assert(all[i as int] == domains@[i as int]@);
            assert(all.take(i + 1).drop_last() =~= all.take(i as int));
            assert(all.take(i + 1).last() == all[i as int]);
            if i == 0 {
                assert(all.take(1)[0] == all[0]);
                assert(list@ =~= all[0]);
            } else {
                assert(list@ =~= before.push(',') + all[i as int]);
            }
        }
        i = i + 1;
    }
    assert(all.take(i as int) =~= all);
    list
}

/// Whether a character is a brace.
pub open spec fn is_brace(c: char) -> bool {
    c == '{' || c == '}'
}

/// The text without the braces at its start.
pub open spec fn without_leading_braces(text: Seq<char>) -> Seq<char>
    decreases text.len(),
{
    if text.len() > 0 && is_brace(text[0]) {
        without_leading_braces(text.skip(1))
    } else {
        text
    }
}

/// The text without the braces at its end.
pub open spec fn without_trailing_braces(text: Seq<char>) -> Seq<char>
    decreases text.len(),
{
    if text.len() > 0 && is_brace(text.last()) {
        without_trailing_braces(text.drop_last())
    } else {
        text
    }
}

/// Returns an adapter's name without the braces around it.
pub fn adapter_guid_text(adapter_name: &str) -> (text: String)
    ensures
        text@ == without_trailing_braces(without_leading_braces(adapter_name@)),
{
    let chars = chars_of(adapter_name);
    let mut start: usize = 0;
    assert(chars@.skip(0) =~= chars@);
    while start < chars.len() && (chars[start] == '{' || chars[start] == '}')
        invariant
            start <= chars.len(),
            without_leading_braces(chars@.skip(start as int)) == without_leading_braces(chars@),
        decreases chars.len() - start,
    {
        assert(chars@.skip(start as int)[0] == chars@[start as int]);
        assert(chars@.skip(start as int).skip(1) =~= chars@.skip(start + 1));
        start = start + 1;
    }
    let ghost rest = chars@.skip(start as int);
    if start < chars.len() {
        assert(rest[0] == chars@[start as int]);
    }
    assert(rest == without_leading_braces(chars@));
    let mut end = chars.len();
    assert(chars@.subrange(start as int, end as int) =~= rest);
    while start < end && (chars[end - 1] == '{' || chars[end - 1] == '}')
        invariant
            start <= end <= chars.len(),
            without_trailing_braces(chars@.subrange(start as int, end as int))
                == without_trailing_braces(rest),
        decreases end - start,
    {
        let ghost part = chars@.subrange(start as int, end as int);
        assert(part.last() == chars@[end - 1]);
        assert(part.drop_last() =~= chars@.subrange(start as int, end - 1));
        end = end - 1;
    }
    let ghost part = chars@.subrange(start as int, end as int);
    if start < end {
        assert(part.last() == chars@[end - 1]);
    }
    assert(part == without_trailing_braces(rest));
    let mut kept: Vec<char> = Vec::new();
    let mut i = start;
    while i < end
        invariant
            start <= i <= end <= chars.len(),
            kept@ == chars@.subrange(start as int, i as int),
        decreases end - i,
    {
        kept.push(chars[i]);
        i = i + 1;
        assert(kept@ =~= chars@.subrange(start as int, i as int));
    }
    string_of(&kept)
}

/// What is to be done next to write resolver settings.
#[derive(Debug, Clone, Copy, PartialEq, Eq, Structural)]
pub enum DnsStep {
    /// Write the settings of the whole machine.
    SetGlobal,
    /// List the adapters.
    ListAdapters,
    /// Write the settings of the adapter at this position.
    SetAdapter(usize),
    /// Give up: there are no adapters.
    NoAdapters,
    /// Give up: the last write failed with this status.
    Failed(u32),
    /// Everything was written.
    Finished,
}

/// What follows on the writes so far: first the machine, then every adapter in order. The first
/// failure ends it and leaves the earlier writes standing.
pub open spec fn dns_step(
    global: Option<u32>,
    adapters: Option<usize>,
    statuses: Seq<u32>,
) -> DnsStep {
    match global {
        None => DnsStep::SetGlobal,
        Some(status) => if status != 0 {
            DnsStep::Failed(status)
        } else {
            match adapters {
                None => DnsStep::ListAdapters,
                Some(count) => if count == 0 {
                    DnsStep::NoAdapters
                } else if statuses.len() > 0 && statuses.last() != 0 {
                    DnsStep::Failed(statuses.last())
                } else if statuses.len() < count {
                    DnsStep::SetAdapter(statuses.len() as usize)
                } else {
                    DnsStep::Finished
                },
            }
        },
    }
}

/// Returns what follows on the writes so far: the status of writing the machine's settings, how
/// many adapters there are, and the statuses of writing theirs.
pub fn next_dns_step(global: Option<u32>, adapters: Option<usize>, statuses: &Vec<u32>) -> (step:
    DnsStep)
    ensures
        step == dns_step(global, adapters, statuses@),
{
    match global {
        None => DnsStep::SetGlobal,
        Some(status) => {
            if status != 0 {
                return DnsStep::Failed(status);
            }
            match adapters {
                None => DnsStep::ListAdapters,
                Some(count) => {
                    if count == 0 {
                        DnsStep::NoAdapters
                    } else if statuses.len() > 0 && statuses[statuses.len() - 1] != 0 {
                        DnsStep::Failed(statuses[statuses.len() - 1])
                    } else if statuses.len() < count {
                        DnsStep::SetAdapter(statuses.len())
                    } else {
                        DnsStep::Finished
                    }
                },
            }
        },
    }
}

/// Returns the error that a step reports, if it is one that gives up.
pub fn dns_failure(step: DnsStep) -> (error: Option<Error>)
    ensures
        error == (match step {
            DnsStep::NoAdapters => Some(Error::InvalidState),
            DnsStep::Failed(status) => Some(Error::Platform(PlatformErrorCode::Windows(status))),
            _ => None,
        }),
{
    match step {
        DnsStep::NoAdapters => Some(Error::InvalidState),
        DnsStep::Failed(status) => Some(Error::Platform(PlatformErrorCode::Windows(status))),
        _ => None,
    }
}

// ---- laws ----

/// A list of addresses comes apart at its commas into the addresses' texts, in order.
pub proof fn address_list_comes_apart(addresses: Seq<IpAddress>)
    requires
        addresses.len() > 0,
    ensures
        pieces(join(address_texts(addresses), ','), exactly(',')) == address_texts(addresses),
{
    let all = address_texts(addresses);
    assert forall|i: int| 0 <= i < all.len() implies unbroken(#[trigger] all[i], exactly(',')) by {
        match addresses[i] {
            IpAddress::V4(inner) => lemma_ipv4_characters(inner),
            IpAddress::V6(inner) => lemma_ipv6_characters(inner),
        }
        let text = addresses[i].text();
        assert forall|k: int| 0 <= k < text.len() implies !exactly(',')(#[trigger] text[k]) by {
            assert(digit_value(text[k]) is Some || text[k] == ':' || text[k] == '.');
        }
    }
    lemma_pieces_join(all, ',', exactly(','));
}

/// A name in braces loses exactly them, if it neither starts nor ends with a brace itself.
pub proof fn braces_around_a_name_are_left_out(name: Seq<char>)
    requires
        name.len() > 0,
        !is_brace(name[0]),
        !is_brace(name.last()),
    ensures
        without_trailing_braces(without_leading_braces(seq!['{'] + name + seq!['}'])) == name,
{
    let text = seq!['{'] + name + seq!['}'];
    assert(text.skip(1) =~= name + seq!['}']);
    assert((name + seq!['}'])[0] == name[0]);
    assert((name + seq!['}']).drop_last() =~= name);
    reveal_with_fuel(without_leading_braces, 2);
    reveal_with_fuel(without_trailing_braces, 2);
}

/// The collected nameservers are those of all adapters, each once: an address is listed exactly
/// when some adapter has it. Addresses of no family are left out.
pub proof fn every_adapter_contributes_its_servers(adapters: Seq<AdapterDns>, address: IpAddress)
    ensures
        collected(adapters).nameservers.contains(address) <==> exists|i: int, k: int|
            0 <= i < adapters.len() && 0 <= k < adapters[i].nameservers@.len() && ip_in(
                #[trigger] adapters[i].nameservers@[k],
            ) == Some(address),
        collected(adapters).nameservers.no_duplicates(),
{
    repeats_are_left_out(all_servers(adapters));
    let outer = |i: int| servers_of(adapters[i]);
    let all = all_servers(adapters);
    if all.contains(address) {
        let at = lemma_gathered_origin(adapters.len(), outer, address);
        let adapter = adapters[at.0];
        let inner = |k: int| optional(ip_in(adapter.nameservers@[k]));
        assert(servers_of(adapter).contains(address));
        let from = lemma_gathered_origin(adapter.nameservers@.len(), inner, address);
        assert(ip_in(adapters[at.0].nameservers@[from.0]) == Some(address));
    }
    if exists|i: int, k: int|
        0 <= i < adapters.len() && 0 <= k < adapters[i].nameservers@.len() && ip_in(
            #[trigger] adapters[i].nameservers@[k],
        ) == Some(address) {
        let (i, k) = choose|i: int, k: int|
            0 <= i < adapters.len() && 0 <= k < adapters[i].nameservers@.len() && ip_in(
                #[trigger] adapters[i].nameservers@[k],
            ) == Some(address);
        let adapter = adapters[i];
        let inner = |k: int| optional(ip_in(adapter.nameservers@[k]));
        assert(inner(k)[0] == address);
        lemma_gathered_holds(adapter.nameservers@.len(), inner, k, 0);
        assert(servers_of(adapter).contains(address));
        let at = choose|at: int|
            0 <= at < servers_of(adapter).len() && servers_of(adapter)[at] == address;
        lemma_gathered_holds(adapters.len(), outer, i, at);
    }
}

/// The collected search domains are the suffixes of all adapters, each once, without the empty
/// ones.
pub proof fn every_adapter_contributes_its_suffix(adapters: Seq<AdapterDns>, domain: Seq<char>)
    ensures
        collected(adapters).search_domains.contains(domain) <==> domain.len() > 0 && exists|i: int|
            0 <= i < adapters.len() && ((#[trigger] adapters[i]).suffix matches Some(suffix)
                && suffix@ == domain),
        collected(adapters).search_domains.no_duplicates(),
{
    repeats_are_left_out(all_domains(adapters));
    let outer = |i: int| domain_of(adapters[i]);
    let all = all_domains(adapters);
    if all.contains(domain) {
        let at = lemma_gathered_origin(adapters.len(), outer, domain);
        assert(adapters[at.0].suffix matches Some(suffix) && suffix@ == domain);
    }
    if domain.len() > 0 && exists|i: int|
        0 <= i < adapters.len() && ((#[trigger] adapters[i]).suffix matches Some(suffix) && suffix@
            == domain) {
        let i = choose|i: int|
            0 <= i < adapters.len() && ((#[trigger] adapters[i]).suffix matches Some(suffix)
                && suffix@ == domain);
        assert(outer(i)[0] == domain);
        lemma_gathered_holds(adapters.len(), outer, i, 0);
    }
}

/// The servers of an earlier adapter come before those that only a later one adds.
pub proof fn earlier_adapters_come_first(adapters: Seq<AdapterDns>, later: AdapterDns)
    ensures
        collected(adapters).nameservers.is_prefix_of(
            collected(adapters.push(later)).nameservers,
        ),
        collected(adapters).search_domains.is_prefix_of(
            collected(adapters.push(later)).search_domains,
        ),
{
    let more = adapters.push(later);
    let n = adapters.len();
    lemma_gathered_congruent(n, |i: int| servers_of(adapters[i]), |i: int| servers_of(more[i]));
    lemma_gathered_congruent(n, |i: int| domain_of(adapters[i]), |i: int| domain_of(more[i]));
    assert(all_servers(more) == all_servers(adapters) + servers_of(later));
    assert(all_domains(more) == all_domains(adapters) + domain_of(later));
    lemma_without_repeats_prefix(all_servers(adapters), servers_of(later));
    lemma_without_repeats_prefix(all_domains(adapters), domain_of(later));
}

/// What is kept of a list is kept first of a longer one.
proof fn lemma_without_repeats_prefix<A>(list: Seq<A>, more: Seq<A>)
    ensures
        without_repeats(list).is_prefix_of(without_repeats(list + more)),
    decreases more.len(),
{
    if more.len() == 0 {
        assert(list + more =~= list);
    } else {
        lemma_without_repeats_prefix(list, more.drop_last());
        assert((list + more).drop_last() =~= list + more.drop_last());
    }
}

/// The resolver is written for the machine first, then the adapters are listed, and then each
/// is written, in order. A status other than zero ends it at once and is reported; without
/// adapters nothing can be written.
pub proof fn resolver_is_written_machine_first(
    global: u32,
    adapters: Option<usize>,
    count: usize,
    statuses: Seq<u32>,
)
    ensures
        dns_step(None, adapters, statuses) == DnsStep::SetGlobal,
        global != 0 ==> dns_step(Some(global), adapters, statuses) == DnsStep::Failed(global),
        dns_step(Some(0), None, statuses) == DnsStep::ListAdapters,
        dns_step(Some(0), Some(0), statuses) == DnsStep::NoAdapters,
        count > 0 && statuses.len() > 0 && statuses.last() != 0 ==> dns_step(
            Some(0),
            Some(count),
            statuses,
        ) == DnsStep::Failed(statuses.last()),
        count > 0 && (statuses.len() > 0 ==> statuses.last() == 0) && statuses.len() < count
            ==> dns_step(Some(0), Some(count), statuses) == DnsStep::SetAdapter(
            statuses.len() as usize,
        ),
        count > 0 && (statuses.len() > 0 ==> statuses.last() == 0) && statuses.len() >= count
            ==> dns_step(Some(0), Some(count), statuses) == DnsStep::Finished,
{
}

/// A name without braces at its ends is left as it is, and what is left of any name has none
/// there.
pub proof fn names_are_left_without_braces(name: Seq<char>)
    ensures
        ({
            let left = without_trailing_braces(without_leading_braces(name));
            &&& left.len() > 0 ==> left[0] != '{' && left[0] != '}'
            &&& left.len() > 0 ==> left.last() != '{' && left.last() != '}'
            &&& name.len() > 0 && name[0] != '{' && name[0] != '}' && name.last() != '{'
                && name.last() != '}' ==> left == name
        }),
{
    lemma_leading_braces(name);
    lemma_trailing_braces(without_leading_braces(name));
}

/// Nothing begins with a brace once leading braces are left out.
proof fn lemma_leading_braces(name: Seq<char>)
    ensures
        without_leading_braces(name).len() > 0 ==> !is_brace(without_leading_braces(name)[0]),
    decreases name.len(),
{
    if name.len() > 0 && is_brace(name[0]) {
        lemma_leading_braces(name.skip(1));
    }
}

/// Nothing ends with a brace once trailing braces are left out, and the beginning stays.
proof fn lemma_trailing_braces(name: Seq<char>)
    ensures
        without_trailing_braces(name).len() > 0 ==> !is_brace(without_trailing_braces(name).last())
            && without_trailing_braces(name)[0] == name[0],
    decreases name.len(),
{
    if name.len() > 0 && is_brace(name.last()) {
        lemma_trailing_braces(name.drop_last());
    }
}

/// The servers of one adapter are listed in its own order: one more at its end adds at the end.
pub proof fn servers_keep_their_order(
    adapters: Seq<AdapterDns>,
    adapter: AdapterDns,
    longer: AdapterDns,
    server: SocketAddress,
)
    requires
        longer.nameservers@ == adapter.nameservers@.push(server),
    ensures
        collected(adapters.push(adapter)).nameservers.is_prefix_of(
            collected(adapters.push(longer)).nameservers,
        ),
{
    let one = adapters.push(adapter);
    let other = adapters.push(longer);
    let n = adapters.len();
    lemma_gathered_congruent(n, |i: int| servers_of(adapters[i]), |i: int| servers_of(one[i]));
    lemma_gathered_congruent(n, |i: int| servers_of(adapters[i]), |i: int| servers_of(other[i]));
    lemma_gathered_congruent(
        adapter.nameservers@.len(),
        |k: int| optional(ip_in(adapter.nameservers@[k])),
        |k: int| optional(ip_in(longer.nameservers@[k])),
    );
    let last = optional(ip_in(server));
    assert(servers_of(longer) == servers_of(adapter) + last);
    assert(all_servers(one) == all_servers(adapters) + servers_of(adapter));
    assert(all_servers(other) == all_servers(adapters) + servers_of(longer));
    assert(all_servers(other) =~= all_servers(one) + last);
    lemma_without_repeats_prefix(all_servers(one), last);
}

} // verus!
