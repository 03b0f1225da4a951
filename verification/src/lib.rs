//! Declarative network configuration.
//!
//! A [`snapshot::CurrentState`] holds what is, a [`desired_state::DesiredState`] what is wanted.
//! [`diff::Diff::compute`] says how the two differ, [`apply::ApplyPlan::compile`] turns the
//! difference into steps, and [`mutation`] says what each step needs and promises. [`converge`]
//! says where carrying the steps out leads.
//!
//! The modules below these are the platforms: what their tables, messages and notifications say
//! in the terms of the model, and which requests bring a change about. They hold the decisions;
//! talking to the operating system is left to the application around this library. What a
//! firewall policy decides about a packet, on every platform, is said in [`traffic`].
//!
//! - Linux: [`netlink`], [`linux`], [`resolv`], [`nft`]
//! - Windows: [`iphelper`], [`ipnotify`], [`dnsapi`], [`wfp`], [`wide`]
//! - macOS: [`pf`]

pub mod address;
pub mod apply;
pub mod backend;
pub mod capability;
pub mod converge;
pub mod desired_state;
pub mod diff;
pub mod dns;
pub mod dnsapi;
pub mod error;
pub mod event;
pub mod firewall;
pub mod forward;
pub mod gather;
pub mod id;
pub mod identity;
pub mod ifaddr;
pub mod interface;
pub mod iphelper;
pub mod ipnotify;
pub mod ipv4;
pub mod ipv6;
pub mod linux;
pub mod mac;
pub mod mask;
pub mod mutation;
pub mod neighbor;
pub mod netlink;
pub mod nft;
pub mod pf;
pub mod prefix;
pub mod resolv;
pub mod route;
pub mod snapshot;
pub mod text;
pub mod traffic;
pub mod wfp;
pub mod wide;

pub use address::IpAddress;
pub use address::Network;
pub use apply::ApplyPlan;
pub use apply::ApplyPlanReport;
pub use apply::ApplyStep;
pub use apply::ApplyStepOutcome;
pub use apply::NonConvergentReason;
pub use desired_state::DesiredState;
pub use diff::AddressChange;
pub use diff::Change;
pub use diff::Diff;
pub use diff::DnsChange;
pub use diff::FirewallChange;
pub use diff::InterfaceDiff;
pub use diff::NeighborChange;
pub use diff::RouteChange;
pub use dns::DnsConfig;
pub use dns::NewDnsConfig;
pub use error::Error;
pub use error::PlatformErrorCode;
pub use error::Result;
pub use event::ChangeKind;
pub use event::Event;
pub use event::EventDomain;
pub use event::EventFilter;
pub use firewall::Direction;
pub use firewall::FirewallPolicy;
pub use firewall::FirewallRule;
pub use firewall::PortRange;
pub use firewall::Protocol;
pub use firewall::Verdict;
pub use id::Id;
pub use ifaddr::InterfaceAddress;
pub use ifaddr::InterfaceAddressId;
pub use ifaddr::NewInterfaceAddress;
pub use interface::AdminState;
pub use interface::DesiredAdminState;
pub use interface::Interface;
pub use interface::InterfaceConfig;
pub use interface::InterfaceId;
pub use interface::InterfaceKind;
pub use interface::OperationalState;
pub use ipv4::Ipv4Address;
pub use ipv4::Ipv4Network;
pub use ipv6::Ipv6Address;
pub use ipv6::Ipv6Network;
pub use mac::MacAddress;
pub use mutation::Mutation;
pub use mutation::MutationConfirmation;
pub use mutation::MutationExecutionPhase;
pub use mutation::MutationIdempotency;
pub use mutation::MutationKind;
pub use mutation::MutationOperationReport;
pub use mutation::MutationOutcome;
pub use mutation::MutationPlan;
pub use mutation::MutationPlanReport;
pub use mutation::MutationPrecondition;
pub use mutation::MutationPreflight;
pub use mutation::MutationPrivilege;
pub use mutation::MutationReversibility;
pub use mutation::MutationSemantics;
pub use mutation::MutationSnapshot;
pub use mutation::MutationStopReason;
pub use mutation::RollbackStatus;
pub use neighbor::NeighborEntry;
pub use neighbor::NeighborId;
pub use neighbor::NeighborState;
pub use neighbor::StaticNeighbor;
pub use prefix::Ipv4PrefixLength;
pub use prefix::Ipv6PrefixLength;
pub use route::Route;
pub use route::RouteConfig;
pub use route::RouteId;
pub use snapshot::CurrentState;
