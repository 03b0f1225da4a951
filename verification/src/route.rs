//! Routing table entries, observed and desired.

use crate::address::IpAddress;
use crate::address::Network;
use crate::id::Id;
use vstd::prelude::*;

verus! {

/// Marks the identifiers of routes.
#[derive(Debug, Clone, Copy, PartialEq, Eq, Hash)]
pub struct RouteTag;

/// Identifies a [`Route`].
pub type RouteId = Id<RouteTag>;

/// A single observed routing table entry.
#[derive(Debug, PartialEq, Eq, Hash)]
#[non_exhaustive]
pub struct Route {
    /// The route's identity.
    pub id: RouteId,
    /// The destination network.
    pub destination: Network,
    /// The next hop, if any.
    pub gateway: Option<IpAddress>,
    /// The route metric, if known.
    pub metric: Option<u32>,
    /// The outgoing interface's raw OS-level index, if any.
    pub interface_index: Option<u32>,
}

impl Route {
    /// Creates a route with no gateway, metric, or outgoing interface set.
    pub fn new(id: RouteId, destination: Network) -> (route: Self)
        ensures
            route == (Route {
                id,
                destination,
                gateway: None,
                metric: None,
                interface_index: None,
            }),
    {
        Route { id, destination, gateway: None, metric: None, interface_index: None }
    }

    /// Sets the next-hop gateway address.
    pub fn with_gateway(self, gateway: IpAddress) -> (route: Self)
        ensures
            route == (Route { gateway: Some(gateway), ..self }),
    {
        Route { gateway: Some(gateway), ..self }
    }

    /// Sets the route metric.
    pub fn with_metric(self, metric: u32) -> (route: Self)
        ensures
            route == (Route { metric: Some(metric), ..self }),
    {
        Route { metric: Some(metric), ..self }
    }

    /// Sets the outgoing interface's raw OS-level index.
    pub fn with_interface_index(self, interface_index: u32) -> (route: Self)
        ensures
            route == (Route { interface_index: Some(interface_index), ..self }),
    {
        Route { interface_index: Some(interface_index), ..self }
    }
}

impl Clone for Route {
    fn clone(&self) -> (copy: Self)
        ensures
            copy == *self,
    {
        Route {
            id: self.id,
            destination: self.destination,
            gateway: self.gateway,
            metric: self.metric,
            interface_index: self.interface_index,
        }
    }
}

/// Intent to add or remove a route.
///
/// Distinct from [`Route`]: a request carries no identifier, since identifiers are derived
/// from what was observed. All four fields together identify the request.
#[derive(Debug, Clone, Copy, PartialEq, Eq, Hash, Structural)]
#[non_exhaustive]
pub struct RouteConfig {
    /// The destination network.
    pub destination: Network,
    /// The requested next hop, if any.
    pub gateway: Option<IpAddress>,
    /// The requested metric, if any. Honored on Linux and Windows, ignored on Darwin.
    pub metric: Option<u32>,
    /// The requested outgoing interface's raw OS-level index, if any.
    pub interface_index: Option<u32>,
}

impl RouteConfig {
    /// Creates a route intent with no gateway, metric, or outgoing interface requested.
    pub fn new(destination: Network) -> (config: Self)
        ensures
            config == (RouteConfig {
                destination,
                gateway: None,
                metric: None,
                interface_index: None,
            }),
    {
        RouteConfig { destination, gateway: None, metric: None, interface_index: None }
    }

    /// Requests a next-hop gateway address.
    pub fn with_gateway(self, gateway: IpAddress) -> (config: Self)
        ensures
            config == (RouteConfig { gateway: Some(gateway), ..self }),
    {
        RouteConfig { gateway: Some(gateway), ..self }
    }

    /// Requests a route metric.
    pub fn with_metric(self, metric: u32) -> (config: Self)
        ensures
            config == (RouteConfig { metric: Some(metric), ..self }),
    {
        RouteConfig { metric: Some(metric), ..self }
    }

    /// Requests an outgoing interface, identified by its raw OS-level index.
    pub fn with_interface_index(self, interface_index: u32) -> (config: Self)
        ensures
            config == (RouteConfig { interface_index: Some(interface_index), ..self }),
    {
        RouteConfig { interface_index: Some(interface_index), ..self }
    }
}

/// The request that matches an observed route in all four fields.
pub open spec fn intent_of(route: Route) -> RouteConfig {
    RouteConfig {
        destination: route.destination,
        gateway: route.gateway,
        metric: route.metric,
        interface_index: route.interface_index,
    }
}

/// The requests that match observed routes, in order.
pub open spec fn intents(routes: Seq<Route>) -> Seq<RouteConfig> {
    routes.map_values(|route: Route| intent_of(route))
}

/// Turns an observed route into the request that matches it, carrying forward only the fields
/// that the observed route has.
pub fn route_config_from_route(route: &Route) -> (config: RouteConfig)
    ensures
        config == intent_of(*route),
{
    let mut config = RouteConfig::new(route.destination);
    if let Some(gateway) = route.gateway {
        config = config.with_gateway(gateway);
    }
    if let Some(metric) = route.metric {
        config = config.with_metric(metric);
    }
    if let Some(interface_index) = route.interface_index {
        config = config.with_interface_index(interface_index);
    }
    config
}

// ---- laws ----

/// Two routes ask for the same exactly when they have the same destination, gateway, metric and
/// interface; their identities play no part.
pub proof fn routes_ask_for_their_four_fields(left: Route, right: Route, config: RouteConfig)
    ensures
        intent_of(left) == intent_of(right) <==> left.destination == right.destination
            && left.gateway == right.gateway && left.metric == right.metric && left.interface_index
            == right.interface_index,
        intent_of(left) == config <==> left.destination == config.destination && left.gateway
            == config.gateway && left.metric == config.metric && left.interface_index
            == config.interface_index,
{
}

} // verus!
