//! Resolver configuration, observed and desired.

use crate::address::IpAddress;
use crate::text::texts;
use vstd::prelude::*;

verus! {

/// What a resolver configuration says: the nameservers and the search domains, each in order.
#[verifier::ext_equal]
pub struct Resolver {
    /// Nameserver addresses, in resolution order.
    pub nameservers: Seq<IpAddress>,
    /// Search-list domains, in order.
    pub search_domains: Seq<Seq<char>>,
}

/// The resolver configuration observed through the active platform backend.
///
/// Server and search-domain order is preserved as reported by the backend.
#[derive(Debug, PartialEq, Eq, Hash)]
pub struct DnsConfig {
    /// Nameserver addresses, in resolution order.
    pub nameservers: Vec<IpAddress>,
    /// Search-list domains appended to unqualified lookups, in order.
    pub search_domains: Vec<String>,
}

impl View for DnsConfig {
    type V = Resolver;

    open spec fn view(&self) -> Resolver {
        Resolver { nameservers: self.nameservers@, search_domains: texts(self.search_domains@) }
    }
}

/// The resolver configuration without nameservers and search domains.
pub open spec fn empty_resolver() -> Resolver {
    Resolver { nameservers: Seq::empty(), search_domains: Seq::empty() }
}

impl DnsConfig {
    /// Returns an empty configuration with no nameservers or search domains.
    pub fn new() -> (config: Self)
        ensures
            config@ == empty_resolver(),
    {
        let config = DnsConfig { nameservers: Vec::new(), search_domains: Vec::new() };
        assert(config@ =~= empty_resolver());
        config
    }
}

impl Default for DnsConfig {
    fn default() -> (config: Self)
        ensures
            config@ == empty_resolver(),
    {
        DnsConfig::new()
    }
}

impl Clone for DnsConfig {
    fn clone(&self) -> (copy: Self)
        ensures
            copy@ == self@,
    {
        let copy = DnsConfig {
            nameservers: copy_addresses(&self.nameservers),
            search_domains: copy_strings(&self.search_domains),
        };
        assert(copy@ =~= self@);
        copy
    }
}

/// Desired system resolver configuration.
#[derive(Debug, PartialEq, Eq, Hash)]
#[non_exhaustive]
pub struct NewDnsConfig {
    /// Nameserver addresses, in resolution order.
    pub nameservers: Vec<IpAddress>,
    /// Search-list domains appended to unqualified lookups, in order.
    pub search_domains: Vec<String>,
}

impl View for NewDnsConfig {
    type V = Resolver;

    open spec fn view(&self) -> Resolver {
        Resolver { nameservers: self.nameservers@, search_domains: texts(self.search_domains@) }
    }
}

impl NewDnsConfig {
    /// Creates an empty resolver configuration.
    ///
    /// An empty configuration requests removal of explicitly configured nameservers and search
    /// domains where the platform supports it.
    pub fn new() -> (config: Self)
        ensures
            config@ == empty_resolver(),
    {
        let config = NewDnsConfig { nameservers: Vec::new(), search_domains: Vec::new() };
        assert(config@ =~= empty_resolver());
        config
    }

    /// Creates a desired resolver configuration from ordered servers and search domains.
    pub fn with(nameservers: Vec<IpAddress>, search_domains: Vec<String>) -> (config: Self)
        ensures
            config@ == (Resolver {
                nameservers: nameservers@,
                search_domains: texts(search_domains@),
            }),
    {
        NewDnsConfig { nameservers, search_domains }
    }
}

impl Default for NewDnsConfig {
    fn default() -> (config: Self)
        ensures
            config@ == empty_resolver(),
    {
        NewDnsConfig::new()
    }
}

impl Clone for NewDnsConfig {
    fn clone(&self) -> (copy: Self)
        ensures
            copy@ == self@,
    {
        let copy = NewDnsConfig {
            nameservers: copy_addresses(&self.nameservers),
            search_domains: copy_strings(&self.search_domains),
        };
        assert(copy@ =~= self@);
        copy
    }
}

/// Copies a list of addresses.
fn copy_addresses(list: &Vec<IpAddress>) -> (copy: Vec<IpAddress>)
    ensures
        copy@ == list@,
{
    let mut copy: Vec<IpAddress> = Vec::new();
    let mut i: usize = 0;
    while i < list.len()
        invariant
            i <= list.len(),
            copy@ == list@.take(i as int),
        decreases list.len() - i,
    {
        copy.push(list[i]);
        i = i + 1;
        assert(copy@ =~= list@.take(i as int));
    }
    assert(list@.take(i as int) =~= list@);
    copy
}

/// Copies a list of strings.
pub fn copy_strings(list: &Vec<String>) -> (copy: Vec<String>)
    ensures
        texts(copy@) == texts(list@),
{
    let mut copy: Vec<String> = Vec::new();
    let mut i: usize = 0;
    while i < list.len()
        invariant
            i <= list.len(),
            texts(copy@) == texts(list@).take(i as int),
        decreases list.len() - i,
    {
        let ghost before = copy@;
        let text = list[i].clone();
        copy.push(text);
        proof {
            assert(texts(copy@) =~= texts(before).push(text@));
            assert(texts(list@)[i as int] == list@[i as int]@);
        }
        i = i + 1;
        assert(texts(copy@) =~= texts(list@).take(i as int));
    }
    assert(texts(list@).take(i as int) =~= texts(list@));
    copy
}

/// Whether two lists hold the same addresses in the same order.
pub fn same_addresses(left: &Vec<IpAddress>, right: &Vec<IpAddress>) -> (same: bool)
    ensures
        same == (left@ == right@),
{
    if left.len() != right.len() {
        return false;
    }
    let mut i: usize = 0;
    while i < left.len()
        invariant
            i <= left.len() == right.len(),
            forall|k: int| 0 <= k < i ==> left@[k] == right@[k],
        decreases left.len() - i,
    {
        if left[i] != right[i] {
            return false;
        }
        i = i + 1;
    }
    assert(left@ =~= right@);
    true
}

/// Whether two lists hold the same texts in the same order.
pub fn same_strings(left: &Vec<String>, right: &Vec<String>) -> (same: bool)
    ensures
        same == (texts(left@) == texts(right@)),
{
    assert(texts(left@).len() == left.len() && texts(right@).len() == right.len());
    if left.len() != right.len() {
        return false;
    }
    let mut i: usize = 0;
    while i < left.len()
        invariant
            i <= left.len() == right.len(),
            forall|k: int| 0 <= k < i ==> texts(left@)[k] == texts(right@)[k],
        decreases left.len() - i,
    {
        assert(texts(left@)[i as int] == left@[i as int]@);
        assert(texts(right@)[i as int] == right@[i as int]@);
        if left[i] != right[i] {
            return false;
        }
        i = i + 1;
    }
    assert(texts(left@) =~= texts(right@));
    true
}

/// A resolver configuration says what its lists hold, in order, and an empty one says nothing.
pub proof fn configurations_say_what_they_hold(
    observed: DnsConfig,
    desired: NewDnsConfig,
    i: int,
)
    ensures
        observed@.nameservers == observed.nameservers@,
        observed@.search_domains.len() == observed.search_domains@.len(),
        0 <= i < observed.search_domains@.len() ==> observed@.search_domains[i]
            == observed.search_domains@[i]@,
        desired@.nameservers == desired.nameservers@,
        desired@.search_domains.len() == desired.search_domains@.len(),
        0 <= i < desired.search_domains@.len() ==> desired@.search_domains[i]
            == desired.search_domains@[i]@,
        empty_resolver().nameservers.len() == 0,
        empty_resolver().search_domains.len() == 0,
{
}

} // verus!
