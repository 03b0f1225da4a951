//! Validated prefix lengths.

use crate::text::numeral;
use crate::text::push_numeral;
use vstd::prelude::*;

verus! {

/// A validated IPv4 prefix length (`0..=32`).
#[derive(Debug, Clone, Copy, PartialEq, Eq, Hash, Structural)]
pub struct Ipv4PrefixLength(u8);

impl Ipv4PrefixLength {
    /// The longest IPv4 prefix.
    pub const MAX: u8 = 32;

    /// The number of leading bits that the prefix covers.
    pub closed spec fn bits(self) -> u8 {
        self.0
    }

    /// The prefix is no longer than an address.
    #[verifier::type_invariant]
    spec fn valid(self) -> bool {
        self.0 <= 32
    }

    /// The prefix of the given length.
    pub closed spec fn of(value: u8) -> Self {
        Ipv4PrefixLength(value)
    }

    /// Validates `value` as an IPv4 prefix length, returning `None` when it exceeds
    /// [`Self::MAX`].
    pub fn new(value: u8) -> (prefix: Option<Self>)
        ensures
            prefix == (if value <= 32 {
                Some(Self::of(value))
            } else {
                None
            }),
            prefix matches Some(p) ==> p.bits() == value,
    {
        if value <= Self::MAX {
            Some(Ipv4PrefixLength(value))
        } else {
            None
        }
    }

    /// Returns the number of leading bits that the prefix covers.
    pub fn value(&self) -> (value: u8)
        ensures
            value == self.bits(),
            value <= 32,
    {
        proof {
            use_type_invariant(self);
        }
        self.0
    }

    /// Returns the length in decimal.
    pub fn to_string(&self) -> (text: String)
        ensures
            text@ == numeral(self.bits() as nat, 10),
    {
        let mut text = String::new();
        push_numeral(&mut text, self.0 as u64, 10);
        assert(text@ =~= numeral(self.bits() as nat, 10));
        text
    }
}

/// A validated IPv6 prefix length (`0..=128`).
#[derive(Debug, Clone, Copy, PartialEq, Eq, Hash, Structural)]
pub struct Ipv6PrefixLength(u8);

impl Ipv6PrefixLength {
    /// The longest IPv6 prefix.
    pub const MAX: u8 = 128;

    /// The number of leading bits that the prefix covers.
    pub closed spec fn bits(self) -> u8 {
        self.0
    }

    /// The prefix is no longer than an address.
    #[verifier::type_invariant]
    spec fn valid(self) -> bool {
        self.0 <= 128
    }

    /// The prefix of the given length.
    pub closed spec fn of(value: u8) -> Self {
        Ipv6PrefixLength(value)
    }

    /// Validates `value` as an IPv6 prefix length, returning `None` when it exceeds
    /// [`Self::MAX`].
    pub fn new(value: u8) -> (prefix: Option<Self>)
        ensures
            prefix == (if value <= 128 {
                Some(Self::of(value))
            } else {
                None
            }),
            prefix matches Some(p) ==> p.bits() == value,
    {
        if value <= Self::MAX {
            Some(Ipv6PrefixLength(value))
        } else {
            None
        }
    }

    /// Returns the number of leading bits that the prefix covers.
    pub fn value(&self) -> (value: u8)
        ensures
            value == self.bits(),
            value <= 128,
    {
        proof {
            use_type_invariant(self);
        }
        self.0
    }

    /// Returns the length in decimal.
    pub fn to_string(&self) -> (text: String)
        ensures
            text@ == numeral(self.bits() as nat, 10),
    {
        let mut text = String::new();
        push_numeral(&mut text, self.0 as u64, 10);
        assert(text@ =~= numeral(self.bits() as nat, 10));
        text
    }
}

/// A prefix is its length, and the prefix made for a length has that length.
pub proof fn prefix_is_its_length(
    left: Ipv4PrefixLength,
    right: Ipv4PrefixLength,
    left6: Ipv6PrefixLength,
    right6: Ipv6PrefixLength,
    value: u8,
)
    ensures
        left == right <==> left.bits() == right.bits(),
        left6 == right6 <==> left6.bits() == right6.bits(),
        Ipv4PrefixLength::of(value).bits() == value,
        Ipv4PrefixLength::of(left.bits()) == left,
        Ipv6PrefixLength::of(value).bits() == value,
        Ipv6PrefixLength::of(left6.bits()) == left6,
{
}

} // verus!
