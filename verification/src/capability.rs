//! What each backend can do.

use crate::error::Error;
use crate::error::Result;
use vstd::prelude::*;

verus! {

/// A platform that has a backend.
#[derive(Debug, Clone, Copy, PartialEq, Eq, Hash, Structural)]
pub enum Platform {
    /// Linux.
    Linux,
    /// Windows.
    Windows,
}

/// Something that a backend may be able to do.
#[derive(Debug, Clone, Copy, PartialEq, Eq, Hash, Structural)]
pub enum Capability {
    /// Handle IPv6 wherever it handles IPv4.
    Ipv6,
    /// Keep several routing instances apart.
    Vrf,
    /// Work in another network namespace.
    Namespaces,
    /// Report changes of routes.
    RouteMonitoring,
    /// Report changes of interfaces.
    InterfaceMonitoring,
    /// Report changes of neighbor entries.
    NeighborMonitoring,
    /// Report changes of assigned addresses.
    AddressMonitoring,
    /// Report changes of all of these.
    Monitoring,
    /// Change the resolver configuration.
    DnsMutation,
    /// Change an interface's administrative state.
    InterfaceAdminState,
    /// Change an interface's MTU.
    InterfaceMtu,
    /// Change static neighbor entries.
    NeighborMutation,
    /// Change routes.
    RouteMutation,
}

/// Something that a backend can offer in place of a capability that the system lacks.
#[derive(Debug, Clone, Copy, PartialEq, Eq, Hash, Structural)]
pub enum Addition {
    /// Find changes of neighbor entries by reading the table at intervals.
    NeighborMonitoringPolling,
    /// Anything else.
    Other,
}

/// Whether the backend of a platform can do something. Linux reports changes of everything;
/// Windows has no notification for neighbor entries.
pub open spec fn can(platform: Platform, capability: Capability) -> bool {
    match capability {
        Capability::Vrf => false,
        Capability::Namespaces => false,
        Capability::NeighborMonitoring => platform == Platform::Linux,
        Capability::Monitoring => platform == Platform::Linux,
        _ => true,
    }
}

/// Returns whether the backend of a platform can do something.
pub fn supports(platform: Platform, capability: Capability) -> (supported: bool)
    ensures
        supported == can(platform, capability),
{
    match capability {
        Capability::Vrf => false,
        Capability::Namespaces => false,
        Capability::NeighborMonitoring => platform == Platform::Linux,
        Capability::Monitoring => platform == Platform::Linux,
        _ => true,
    }
}

/// Whether the backend of a platform offers something in place of a capability.
pub open spec fn offers(platform: Platform, addition: Addition) -> bool {
    platform == Platform::Windows && addition == Addition::NeighborMonitoringPolling
}

/// Returns whether the backend of a platform offers something in place of a capability.
pub fn supports_addition(platform: Platform, addition: Addition) -> (supported: bool)
    ensures
        supported == offers(platform, addition),
{
    platform == Platform::Windows && addition == Addition::NeighborMonitoringPolling
}

/// Checks that the backend of a platform offers something in place of a capability:
/// [`Error::Unsupported`] when it does not.
pub fn require_addition(platform: Platform, addition: Addition) -> (offered: Result<()>)
    ensures
        match offered {
            Ok(_) => offers(platform, addition),
            Err(error) => !offers(platform, addition) && error is Unsupported,
        },
{
    if supports_addition(platform, addition) {
        Ok(())
    } else {
        Err(Error::Unsupported)
    }
}

/// A backend reports changes of everything exactly when it reports those of every domain, and
/// what is missing on the way to that is offered in another form.
pub proof fn monitoring_is_monitoring_every_domain(platform: Platform)
    ensures
        can(platform, Capability::Monitoring) <==> can(platform, Capability::RouteMonitoring)
            && can(platform, Capability::InterfaceMonitoring) && can(
            platform,
            Capability::NeighborMonitoring,
        ) && can(platform, Capability::AddressMonitoring),
        can(platform, Capability::NeighborMonitoring) <==> !offers(
            platform,
            Addition::NeighborMonitoringPolling,
        ),
{
}

/// What the backends can do: both handle IPv6, report changes of routes, interfaces and
/// addresses, and change the resolver, interfaces, neighbors and routes; only Linux reports
/// changes of neighbors, and neither has routing instances or namespaces. Only Windows offers to
/// poll for neighbors, and nothing else is offered.
pub proof fn backends_can_do_what_they_say(platform: Platform)
    ensures
        can(platform, Capability::Ipv6),
        can(platform, Capability::RouteMonitoring),
        can(platform, Capability::InterfaceMonitoring),
        can(platform, Capability::AddressMonitoring),
        can(platform, Capability::DnsMutation),
        can(platform, Capability::InterfaceAdminState),
        can(platform, Capability::InterfaceMtu),
        can(platform, Capability::NeighborMutation),
        can(platform, Capability::RouteMutation),
        !can(platform, Capability::Vrf),
        !can(platform, Capability::Namespaces),
        can(Platform::Linux, Capability::NeighborMonitoring),
        can(Platform::Linux, Capability::Monitoring),
        !can(Platform::Windows, Capability::NeighborMonitoring),
        !can(Platform::Windows, Capability::Monitoring),
        offers(Platform::Windows, Addition::NeighborMonitoringPolling),
        !offers(Platform::Linux, Addition::NeighborMonitoringPolling),
        !offers(platform, Addition::Other),
{
}

} // verus!
