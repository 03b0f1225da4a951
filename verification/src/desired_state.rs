//! A whole-system, caller-authored desired-state aggregate.

use crate::dns::NewDnsConfig;
use crate::firewall::FirewallPolicy;
use crate::ifaddr::NewInterfaceAddress;
use crate::interface::InterfaceConfig;
use crate::neighbor::StaticNeighbor;
use crate::route::RouteConfig;
use vstd::prelude::*;

verus! {

/// A whole-system desired state, authored by a caller.
///
/// `None` means that a domain is not managed: nothing is proposed for it, not even removals.
/// `Some` means that it is managed and holds the complete desired content, so that an empty
/// list asks for every observed entry of the domain to be removed.
#[derive(Debug, Clone, PartialEq, Eq)]
#[non_exhaustive]
pub struct DesiredState {
    /// Desired routes, or `None` if routes are not managed.
    pub routes: Option<Vec<RouteConfig>>,
    /// Desired interface patches, or `None` if interfaces are not managed.
    pub interfaces: Option<Vec<InterfaceConfig>>,
    /// Desired static neighbor entries, or `None` if neighbors are not managed.
    pub neighbors: Option<Vec<StaticNeighbor>>,
    /// Desired interface addresses, or `None` if addresses are not managed.
    pub addresses: Option<Vec<NewInterfaceAddress>>,
    /// Desired resolver configuration, or `None` if DNS is not managed.
    pub dns: Option<NewDnsConfig>,
    /// Desired firewall policy, or `None` if the firewall is not managed.
    pub firewall: Option<FirewallPolicy>,
}

impl DesiredState {
    /// Creates a state that manages no domain at all.
    pub fn empty() -> (state: Self)
        ensures
            state == (DesiredState {
                routes: None,
                interfaces: None,
                neighbors: None,
                addresses: None,
                dns: None,
                firewall: None,
            }),
    {
        DesiredState {
            routes: None,
            interfaces: None,
            neighbors: None,
            addresses: None,
            dns: None,
            firewall: None,
        }
    }

    /// Marks the route domain as managed, with `routes` as its desired content.
    pub fn with_routes(self, routes: Vec<RouteConfig>) -> (state: Self)
        ensures
            state == (DesiredState { routes: Some(routes), ..self }),
    {
        DesiredState { routes: Some(routes), ..self }
    }

    /// Marks the interface domain as managed, with `interfaces` as its desired content.
    pub fn with_interfaces(self, interfaces: Vec<InterfaceConfig>) -> (state: Self)
        ensures
            state == (DesiredState { interfaces: Some(interfaces), ..self }),
    {
        DesiredState { interfaces: Some(interfaces), ..self }
    }

    /// Marks the neighbor domain as managed, with `neighbors` as its desired content.
    pub fn with_neighbors(self, neighbors: Vec<StaticNeighbor>) -> (state: Self)
        ensures
            state == (DesiredState { neighbors: Some(neighbors), ..self }),
    {
        DesiredState { neighbors: Some(neighbors), ..self }
    }

    /// Marks the address domain as managed, with `addresses` as its desired content.
    pub fn with_addresses(self, addresses: Vec<NewInterfaceAddress>) -> (state: Self)
        ensures
            state == (DesiredState { addresses: Some(addresses), ..self }),
    {
        DesiredState { addresses: Some(addresses), ..self }
    }

    /// Marks the DNS domain as managed, with `dns` as its desired resolver configuration.
    pub fn with_dns(self, dns: NewDnsConfig) -> (state: Self)
        ensures
            state == (DesiredState { dns: Some(dns), ..self }),
    {
        DesiredState { dns: Some(dns), ..self }
    }

    /// Marks the firewall domain as managed, with `firewall` as its desired policy.
    pub fn with_firewall(self, firewall: FirewallPolicy) -> (state: Self)
        ensures
            state == (DesiredState { firewall: Some(firewall), ..self }),
    {
        DesiredState { firewall: Some(firewall), ..self }
    }
}

} // verus!
