//! A whole-system, best-effort observed-state snapshot.

use crate::dns::DnsConfig;
use crate::firewall::FirewallRule;
use crate::ifaddr::InterfaceAddress;
use crate::interface::Interface;
use crate::neighbor::NeighborEntry;
use crate::route::Route;
use vstd::prelude::*;

verus! {

/// A best-effort, non-atomic snapshot of observed networking state across every domain.
///
/// The domains are read one after the other, so a snapshot is no consistent point-in-time view
/// across them.
#[derive(Debug, Clone, PartialEq, Eq)]
pub struct CurrentState {
    /// Routes observed at read time.
    pub routes: Vec<Route>,
    /// Interfaces observed at read time.
    pub interfaces: Vec<Interface>,
    /// ARP/NDP neighbor entries observed at read time.
    pub neighbors: Vec<NeighborEntry>,
    /// Interface addresses observed at read time.
    pub addresses: Vec<InterfaceAddress>,
    /// Resolver configuration observed at read time.
    pub dns: DnsConfig,
    /// Firewall rules observed at read time, in the order the backend applies them. The
    /// default verdict is not observable.
    pub firewall_rules: Vec<FirewallRule>,
}

impl CurrentState {
    /// Assembles a snapshot from its six per-domain reads.
    pub fn new(
        routes: Vec<Route>,
        interfaces: Vec<Interface>,
        neighbors: Vec<NeighborEntry>,
        addresses: Vec<InterfaceAddress>,
        dns: DnsConfig,
        firewall_rules: Vec<FirewallRule>,
    ) -> (state: Self)
        ensures
            state == (CurrentState {
                routes,
                interfaces,
                neighbors,
                addresses,
                dns,
                firewall_rules,
            }),
    {
        CurrentState { routes, interfaces, neighbors, addresses, dns, firewall_rules }
    }
}

} // verus!
