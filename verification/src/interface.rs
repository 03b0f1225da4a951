//! Network interfaces, observed and desired.

use crate::error::Error;
use crate::error::Result;
use crate::id::Id;
use crate::mac::MacAddress;
use crate::text::numeral;
use crate::text::push_numeral;
use vstd::prelude::*;

verus! {

/// Marks the identifiers of interfaces.
#[derive(Debug, Clone, Copy, PartialEq, Eq, Hash)]
pub struct InterfaceTag;

/// Identifies an [`Interface`].
///
/// Every interface identifier is the platform's 32-bit interface index, widened. A raw index
/// captured with another object is matched against an identifier by widening it the same way.
pub type InterfaceId = Id<InterfaceTag>;

/// The kind of a network interface.
#[derive(Debug, Clone, Copy, PartialEq, Eq, Hash, Structural)]
#[non_exhaustive]
pub enum InterfaceKind {
    /// Ethernet and other IEEE 802 MAC-layer interfaces.
    Ethernet,
    /// Wi-Fi / 802.11 wireless.
    Wireless,
    /// Loopback.
    Loopback,
    /// Point-to-point tunnels and virtual links without a broadcast domain.
    PointToPoint,
    /// A bridge or other software switch aggregating member interfaces.
    Bridge,
    /// Anything not classified, with the raw type code for diagnostics.
    Other(u32),
}

impl InterfaceKind {
    /// The kind in words.
    pub open spec fn text(self) -> Seq<char> {
        match self {
            InterfaceKind::Ethernet => "ethernet"@,
            InterfaceKind::Wireless => "wireless"@,
            InterfaceKind::Loopback => "loopback"@,
            InterfaceKind::PointToPoint => "point-to-point"@,
            InterfaceKind::Bridge => "bridge"@,
            InterfaceKind::Other(code) => ("other("@ + numeral(code as nat, 10)).push(')'),
        }
    }

    /// Returns the kind in words.
    pub fn to_string(&self) -> (text: String)
        ensures
            text@ == self.text(),
    {
        match self {
            InterfaceKind::Ethernet => String::from_str("ethernet"),
            InterfaceKind::Wireless => String::from_str("wireless"),
            InterfaceKind::Loopback => String::from_str("loopback"),
            InterfaceKind::PointToPoint => String::from_str("point-to-point"),
            InterfaceKind::Bridge => String::from_str("bridge"),
            InterfaceKind::Other(code) => {
                let mut text = String::from_str("other(");
                push_numeral(&mut text, *code as u64, 10);
                text.push(')');
                text
            },
        }
    }
}

/// The administrative state of an interface, as configured by the operator.
///
/// Distinct from [`OperationalState`]: an interface can be administratively up but
/// operationally down.
#[derive(Debug, Clone, Copy, PartialEq, Eq, Hash, Structural)]
#[non_exhaustive]
pub enum AdminState {
    /// Administratively enabled.
    Up,
    /// Administratively disabled.
    Down,
    /// The platform does not expose a separate administrative state.
    Unknown,
}

/// The administrative state requested for an interface.
///
/// Separate from observed [`AdminState`]: an unknown state reports a limit of observation and
/// is never valid intent.
#[derive(Debug, Clone, Copy, PartialEq, Eq, Hash, Structural)]
#[non_exhaustive]
pub enum DesiredAdminState {
    /// Request that the interface be administratively enabled.
    Up,
    /// Request that the interface be administratively disabled.
    Down,
}

/// The operational state of an interface, as observed from the link layer.
#[derive(Debug, Clone, Copy, PartialEq, Eq, Hash, Structural)]
#[non_exhaustive]
pub enum OperationalState {
    /// The link is up.
    Up,
    /// The link is down.
    Down,
    /// The interface is up but has no lower-layer connectivity.
    NoCarrier,
    /// The platform does not expose a separate operational state.
    Unknown,
}

/// A partial desired configuration for one network interface.
///
/// It describes only the requested settings: at least one of them, and never an MTU of zero.
/// Every other MTU is left to the backend to accept or reject.
#[derive(Debug, PartialEq, Eq, Hash)]
pub struct InterfaceConfig {
    interface_id: InterfaceId,
    admin_state: Option<DesiredAdminState>,
    mtu: Option<u32>,
}

/// Whether a patch requests at least one setting and no MTU of zero.
pub open spec fn requests_something(
    admin_state: Option<DesiredAdminState>,
    mtu: Option<u32>,
) -> bool {
    (admin_state is Some || mtu is Some) && mtu != Some(0u32)
}

impl InterfaceConfig {
    /// The patch with the given parts.
    pub closed spec fn of(
        interface_id: InterfaceId,
        admin_state: Option<DesiredAdminState>,
        mtu: Option<u32>,
    ) -> Self {
        InterfaceConfig { interface_id, admin_state, mtu }
    }

    /// The interface targeted by this patch.
    pub closed spec fn spec_interface_id(&self) -> InterfaceId {
        self.interface_id
    }

    /// The requested administrative state, if any.
    pub closed spec fn spec_admin_state(&self) -> Option<DesiredAdminState> {
        self.admin_state
    }

    /// The requested MTU, if any.
    pub closed spec fn spec_mtu(&self) -> Option<u32> {
        self.mtu
    }

    /// A patch requests something.
    #[verifier::type_invariant]
    spec fn valid(self) -> bool {
        requests_something(self.admin_state, self.mtu)
    }

    /// Creates a patch for `interface_id`.
    ///
    /// Returns [`Error::InvalidState`] when no setting is requested or when `mtu` is zero.
    pub fn new(
        interface_id: InterfaceId,
        admin_state: Option<DesiredAdminState>,
        mtu: Option<u32>,
    ) -> (config: Result<Self>)
        ensures
            match config {
                Ok(patch) => requests_something(admin_state, mtu) && patch == Self::of(
                    interface_id,
                    admin_state,
                    mtu,
                ),
                Err(error) => !requests_something(admin_state, mtu) && error is InvalidState,
            },
    {
        let zero = match mtu {
            Some(value) => value == 0,
            None => false,
        };
        if admin_state.is_none() && mtu.is_none() || zero {
            return Err(Error::InvalidState);
        }
        Ok(InterfaceConfig { interface_id, admin_state, mtu })
    }

    /// Returns the interface targeted by this patch.
    #[verifier::when_used_as_spec(spec_interface_id)]
    pub fn interface_id(&self) -> (id: InterfaceId)
        ensures
            id == self.spec_interface_id(),
    {
        self.interface_id
    }

    /// Returns the requested administrative state, if any.
    #[verifier::when_used_as_spec(spec_admin_state)]
    pub fn admin_state(&self) -> (state: Option<DesiredAdminState>)
        ensures
            state == self.spec_admin_state(),
    {
        self.admin_state
    }

    /// Returns the requested MTU, if any.
    #[verifier::when_used_as_spec(spec_mtu)]
    pub fn mtu(&self) -> (mtu: Option<u32>)
        ensures
            mtu == self.spec_mtu(),
            requests_something(self.admin_state(), mtu),
    {
        proof {
            use_type_invariant(self);
        }
        self.mtu
    }
}

impl Clone for InterfaceConfig {
    fn clone(&self) -> (copy: Self)
        ensures
            copy == *self,
    {
        proof {
            use_type_invariant(self);
        }
        InterfaceConfig {
            interface_id: self.interface_id,
            admin_state: self.admin_state,
            mtu: self.mtu,
        }
    }
}

/// A patch is its three parts, and has the parts it was made of.
pub proof fn interface_config_is_its_parts(
    left: InterfaceConfig,
    right: InterfaceConfig,
    interface_id: InterfaceId,
    admin_state: Option<DesiredAdminState>,
    mtu: Option<u32>,
)
    ensures
        left == right <==> left.interface_id() == right.interface_id() && left.admin_state()
            == right.admin_state() && left.mtu() == right.mtu(),
        InterfaceConfig::of(interface_id, admin_state, mtu).interface_id() == interface_id,
        InterfaceConfig::of(interface_id, admin_state, mtu).admin_state() == admin_state,
        InterfaceConfig::of(interface_id, admin_state, mtu).mtu() == mtu,
{
}

/// A network interface.
#[derive(Debug, PartialEq, Eq, Hash)]
#[non_exhaustive]
pub struct Interface {
    /// The interface's identity.
    pub id: InterfaceId,
    /// The OS-level interface index.
    pub index: u32,
    /// The interface's name.
    pub name: String,
    /// What kind of interface it is.
    pub kind: InterfaceKind,
    /// The hardware address, if any.
    pub mac: Option<MacAddress>,
    /// The maximum transmission unit, if known.
    pub mtu: Option<u32>,
    /// The observed administrative state.
    pub admin_state: AdminState,
    /// The observed operational state.
    pub operational_state: OperationalState,
}

impl Interface {
    /// Creates an interface with no MAC address and no MTU, and with unknown administrative
    /// and operational state.
    pub fn new(
        id: InterfaceId,
        index: u32,
        name: impl Into<String>,
        kind: InterfaceKind,
    ) -> (interface: Self)
        ensures
            interface.id == id,
            interface.index == index,
            call_ensures(Into::<String>::into, (name,), interface.name),
            interface.kind == kind,
            interface.mac is None,
            interface.mtu is None,
            interface.admin_state == AdminState::Unknown,
            interface.operational_state == OperationalState::Unknown,
    {
        Interface {
            id,
            index,
            name: name.into(),
            kind,
            mac: None,
            mtu: None,
            admin_state: AdminState::Unknown,
            operational_state: OperationalState::Unknown,
        }
    }

    /// Sets the hardware (link-layer) address.
    pub fn with_mac(self, mac: MacAddress) -> (interface: Self)
        ensures
            interface == (Interface { mac: Some(mac), ..self }),
    {
        Interface { mac: Some(mac), ..self }
    }

    /// Sets the maximum transmission unit.
    pub fn with_mtu(self, mtu: u32) -> (interface: Self)
        ensures
            interface == (Interface { mtu: Some(mtu), ..self }),
    {
        Interface { mtu: Some(mtu), ..self }
    }

    /// Sets the observed administrative state.
    pub fn with_admin_state(self, state: AdminState) -> (interface: Self)
        ensures
            interface == (Interface { admin_state: state, ..self }),
    {
        Interface { admin_state: state, ..self }
    }

    /// Sets the observed operational (link-layer) state.
    pub fn with_operational_state(self, state: OperationalState) -> (interface: Self)
        ensures
            interface == (Interface { operational_state: state, ..self }),
    {
        Interface { operational_state: state, ..self }
    }
}

impl Clone for Interface {
    fn clone(&self) -> (copy: Self)
        ensures
            copy == *self,
    {
        Interface {
            id: self.id,
            index: self.index,
            name: self.name.clone(),
            kind: self.kind,
            mac: self.mac,
            mtu: self.mtu,
            admin_state: self.admin_state,
            operational_state: self.operational_state,
        }
    }
}

/// A patch is valid exactly when it asks for an administrative state or an MTU, and for no MTU
/// of zero.
pub proof fn patches_ask_for_something(admin_state: Option<DesiredAdminState>, mtu: Option<u32>)
    ensures
        requests_something(None, None) == false,
        requests_something(admin_state, Some(0u32)) == false,
        admin_state is Some ==> requests_something(admin_state, None),
        mtu matches Some(value) ==> value > 0 ==> requests_something(admin_state, mtu),
{
}

/// Kinds of interfaces are called by their names.
pub proof fn kinds_are_called_by_their_names(code: u32)
    ensures
        InterfaceKind::Ethernet.text() == "ethernet"@,
        InterfaceKind::Wireless.text() == "wireless"@,
        InterfaceKind::Loopback.text() == "loopback"@,
        InterfaceKind::PointToPoint.text() == "point-to-point"@,
        InterfaceKind::Bridge.text() == "bridge"@,
        InterfaceKind::Other(code).text() == "other("@ + numeral(code as nat, 10) + ")"@,
{
    reveal_strlit(")");
    assert(InterfaceKind::Other(code).text() =~= "other("@ + numeral(code as nat, 10) + ")"@);
}

} // verus!
