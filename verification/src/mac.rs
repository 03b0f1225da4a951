//! Hardware addresses.

use vstd::prelude::*;

verus! {

/// A 48-bit hardware (MAC) address.
#[derive(Debug, Clone, Copy, PartialEq, Eq, Hash, Structural)]
pub struct MacAddress {
    a: u8,
    b: u8,
    c: u8,
    d: u8,
    e: u8,
    f: u8,
}

impl MacAddress {
    /// The address with the given octets.
    pub closed spec fn of(octets: Seq<u8>) -> Self {
        MacAddress {
            a: octets[0],
            b: octets[1],
            c: octets[2],
            d: octets[3],
            e: octets[4],
            f: octets[5],
        }
    }

    /// The six octets.
    pub closed spec fn bytes(self) -> Seq<u8> {
        seq![self.a, self.b, self.c, self.d, self.e, self.f]
    }

    /// The address that a row of octets stands for: there must be six of them.
    pub open spec fn of_row(octets: Seq<u8>) -> Option<Self> {
        if octets.len() == 6 {
            Some(Self::of(octets))
        } else {
            None
        }
    }

    /// Creates an address from its six octets.
    pub fn new(octets: [u8; 6]) -> (address: Self)
        ensures
            address == Self::of(octets@),
            address.bytes() == octets@,
    {
        let address = MacAddress {
            a: octets[0],
            b: octets[1],
            c: octets[2],
            d: octets[3],
            e: octets[4],
            f: octets[5],
        };
        assert(address.bytes() =~= octets@);
        address
    }

    /// Creates an address from a row of octets; absent unless there are six of them.
    pub fn from_row(octets: &Vec<u8>) -> (address: Option<Self>)
        ensures
            address == Self::of_row(octets@),
    {
        if octets.len() == 6 {
            Some(
                MacAddress {
                    a: octets[0],
                    b: octets[1],
                    c: octets[2],
                    d: octets[3],
                    e: octets[4],
                    f: octets[5],
                },
            )
        } else {
            None
        }
    }

    /// Returns the six octets.
    pub fn octets(&self) -> (octets: [u8; 6])
        ensures
            octets@ == self.bytes(),
    {
        let octets = [self.a, self.b, self.c, self.d, self.e, self.f];
        assert(octets@ =~= self.bytes());
        octets
    }
}

/// An address is its octets.
pub proof fn mac_is_its_octets(left: MacAddress, right: MacAddress, octets: Seq<u8>)
    requires
        octets.len() == 6,
    ensures
        left.bytes().len() == 6,
        left == right <==> left.bytes() == right.bytes(),
        MacAddress::of(octets).bytes() == octets,
        MacAddress::of(left.bytes()) == left,
{
    assert(MacAddress::of(octets).bytes() =~= octets);
    let l = left.bytes();
    let r = right.bytes();
    assert(l == r ==> l[0] == r[0] && l[1] == r[1] && l[2] == r[2] && l[3] == r[3] && l[4] == r[4]
        && l[5] == r[5]);
}

/// A row of octets is an address exactly when there are six of them, and is that address.
pub proof fn six_octets_are_an_address(octets: Seq<u8>)
    ensures
        MacAddress::of_row(octets) is Some <==> octets.len() == 6,
        MacAddress::of_row(octets) matches Some(address) ==> address.bytes() == octets,
{
    if octets.len() == 6 {
        let address = MacAddress::of(octets);
        mac_is_its_octets(address, address, octets);
    }
}

} // verus!
