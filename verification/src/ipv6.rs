//! IPv6 addresses and networks.

use crate::ipv4::ipv4_is_its_octets;
use crate::ipv4::ipv4_text_reads_back;
use crate::ipv4::ipv4_value;
use crate::ipv4::lemma_ipv4_characters;
use crate::ipv4::read_ipv4;
use crate::ipv4::Ipv4Address;
use crate::prefix::Ipv6PrefixLength;
use crate::text::chars_of;
use crate::text::digit_value;
use crate::text::digits_value;
use crate::text::exactly;
use crate::text::join;
use crate::text::lemma_numeral;
use crate::text::lemma_numeral_len;
use crate::text::lemma_pieces_after_separator;
use crate::text::lemma_pieces_join;
use crate::text::lemma_pieces_some;
use crate::text::lemma_pieces_unbroken;
use crate::text::number_in;
use crate::text::numeral;
use crate::text::pieces;
use crate::text::power;
use crate::text::push_numeral;
use crate::text::read_digits;
use crate::text::rows;
use crate::text::split_at_char;
use crate::text::unbroken;
use vstd::prelude::*;

verus! {

/// An IPv6 address.
#[derive(Debug, Clone, Copy, PartialEq, Eq, Hash, Structural)]
pub struct Ipv6Address {
    g0: u16,
    g1: u16,
    g2: u16,
    g3: u16,
    g4: u16,
    g5: u16,
    g6: u16,
    g7: u16,
}

impl Ipv6Address {
    /// The address with the given eight groups.
    pub closed spec fn of(groups: Seq<u16>) -> Self {
        Ipv6Address {
            g0: groups[0],
            g1: groups[1],
            g2: groups[2],
            g3: groups[3],
            g4: groups[4],
            g5: groups[5],
            g6: groups[6],
            g7: groups[7],
        }
    }

    /// The eight 16-bit groups, most significant first.
    pub closed spec fn groups(self) -> Seq<u16> {
        seq![self.g0, self.g1, self.g2, self.g3, self.g4, self.g5, self.g6, self.g7]
    }

    /// The sixteen octets, most significant first.
    pub open spec fn bytes(self) -> Seq<u8> {
        group_bytes(self.groups())
    }

    /// The address with the given octets.
    pub open spec fn of_bytes(octets: Seq<u8>) -> Self {
        Self::of(byte_groups(octets))
    }

    /// Creates an address from its eight groups.
    pub fn new(segments: [u16; 8]) -> (address: Self)
        ensures
            address == Self::of(segments@),
            address.groups() == segments@,
    {
        let address = Ipv6Address {
            g0: segments[0],
            g1: segments[1],
            g2: segments[2],
            g3: segments[3],
            g4: segments[4],
            g5: segments[5],
            g6: segments[6],
            g7: segments[7],
        };
        assert(address.groups() =~= segments@);
        address
    }

    /// Returns the eight groups, most significant first.
    pub fn segments(&self) -> (segments: [u16; 8])
        ensures
            segments@ == self.groups(),
    {
        let segments = [
            self.g0,
            self.g1,
            self.g2,
            self.g3,
            self.g4,
            self.g5,
            self.g6,
            self.g7,
        ];
        assert(segments@ =~= self.groups());
        segments
    }

    /// Creates an address from its sixteen octets, most significant first.
    pub fn from_octets(octets: [u8; 16]) -> (address: Self)
        ensures
            address == Self::of_bytes(octets@),
            address.bytes() == octets@,
    {
        let mut segments: [u16; 8] = [0u16; 8];
        let mut k: usize = 0;
        while k < 8
            invariant
                k <= 8,
                forall|i: int|
                    0 <= i < k ==> #[trigger] segments@[i] == octets@[2 * i] * 256 + octets@[2 * i
                        + 1],
            decreases 8 - k,
        {
            segments[k] = octets[2 * k] as u16 * 256 + octets[2 * k + 1] as u16;
            k = k + 1;
        }
        let address = Self::new(segments);
        assert(segments@ =~= Seq::new(
            8,
            |i: int| (octets@[2 * i] * 256 + octets@[2 * i + 1]) as u16,
        ));
        assert forall|i: int| 0 <= i < 16 implies address.bytes()[i] == octets@[i] by {
            let g = segments@[i / 2];
            assert(g == octets@[2 * (i / 2)] * 256 + octets@[2 * (i / 2) + 1]);
        }
        assert(address.bytes() =~= octets@);
        address
    }

    /// Returns the sixteen octets, most significant first.
    pub fn octets(&self) -> (octets: [u8; 16])
        ensures
            octets@ == self.bytes(),
    {
        let segments = self.segments();
        let mut octets: [u8; 16] = [0u8; 16];
        let mut k: usize = 0;
        while k < 8
            invariant
                k <= 8,
                segments@ == self.groups(),
                forall|i: int| 0 <= i < 2 * k ==> octets@[i] == #[trigger] self.bytes()[i],
            decreases 8 - k,
        {
            octets[2 * k] = (segments[k] / 256) as u8;
            octets[2 * k + 1] = (segments[k] % 256) as u8;
            k = k + 1;
        }
        assert(octets@ =~= self.bytes());
        octets
    }

    /// The canonical text of the address.
    pub open spec fn text(self) -> Seq<char> {
        ipv6_text(self.groups())
    }

    /// Appends the canonical text of the address.
    pub fn push_text(&self, text: &mut String)
        ensures
            final(text)@ == old(text)@ + self.text(),
    {
        let segments = self.segments();
        if segments[0] == 0 && segments[1] == 0 && segments[2] == 0 && segments[3] == 0
            && segments[4] == 0 && segments[5] == 0xffff {
            text.append("::ffff:");
            let last = Ipv4Address::new(
                (segments[6] / 256) as u8,
                (segments[6] % 256) as u8,
                (segments[7] / 256) as u8,
                (segments[7] % 256) as u8,
            );
            last.push_text(text);
            proof {
                assert(segments@.take(6) =~= seq![0u16, 0, 0, 0, 0, 0xffff]);
                assert(text@ =~= old(text)@ + self.text());
            }
            return;
        }
        let (start, length) = longest_zero_run(&segments);
        if length >= 2 {
            push_groups(text, &segments, 0, start);
            text.append("::");
            push_groups(text, &segments, start + length, 8);
            assert(segments@.subrange(0, start as int) =~= segments@.take(start as int));
            assert(segments@.subrange(start + length, 8) =~= segments@.skip(start + length));
            assert(text@ =~= old(text)@ + self.text());
        } else {
            push_groups(text, &segments, 0, 8);
            assert(segments@.subrange(0, 8) =~= segments@);
        }
    }

    /// Returns the canonical text of the address.
    pub fn to_string(&self) -> (text: String)
        ensures
            text@ == self.text(),
    {
        let mut text = String::new();
        self.push_text(&mut text);
        assert(text@ =~= self.text());
        text
    }

    /// Reads an address in colon-separated hexadecimal.
    pub fn parse(text: &str) -> (address: Option<Self>)
        ensures
            address == ipv6_value(text@),
    {
        read_ipv6(&chars_of(text))
    }
}

/// The octets of a row of groups.
pub open spec fn group_bytes(groups: Seq<u16>) -> Seq<u8> {
    Seq::new(
        2 * groups.len(),
        |i: int|
            if i % 2 == 0 {
                (groups[i / 2] / 256) as u8
            } else {
                (groups[i / 2] % 256) as u8
            },
    )
}

/// The eight groups of sixteen octets.
pub open spec fn byte_groups(octets: Seq<u8>) -> Seq<u16> {
    Seq::new(8, |i: int| (octets[2 * i] * 256 + octets[2 * i + 1]) as u16)
}

/// Eight groups come out of their octets again.
proof fn lemma_groups_come_back(groups: Seq<u16>)
    requires
        groups.len() == 8,
    ensures
        byte_groups(group_bytes(groups)) == groups,
{
    let bytes = group_bytes(groups);
    assert forall|i: int| 0 <= i < 8 implies byte_groups(bytes)[i] == groups[i] by {
        assert((2 * i) % 2 == 0 && (2 * i) / 2 == i);
        assert((2 * i + 1) % 2 == 1 && (2 * i + 1) / 2 == i);
        assert(bytes[2 * i] == groups[i] / 256);
        assert(bytes[2 * i + 1] == groups[i] % 256);
    }
    assert(byte_groups(bytes) =~= groups);
}

/// Sixteen octets come out of their groups again.
proof fn lemma_octets_come_back(octets: Seq<u8>)
    requires
        octets.len() == 16,
    ensures
        group_bytes(byte_groups(octets)) == octets,
{
    let groups = byte_groups(octets);
    assert forall|i: int| 0 <= i < 16 implies group_bytes(groups)[i] == octets[i] by {
        let k = i / 2;
        let high = octets[2 * k];
        let low = octets[2 * k + 1];
        assert(groups[k] == high * 256 + low);
        assert(groups[k] / 256 == high && groups[k] % 256 == low);
        assert(i == 2 * k || i == 2 * k + 1);
    }
    assert(group_bytes(groups) =~= octets);
}

/// An address comes out of its octets again, and octets out of their address.
pub proof fn ipv6_is_its_octets(address: Ipv6Address, octets: Seq<u8>)
    requires
        octets.len() == 16,
    ensures
        address.bytes().len() == 16,
        Ipv6Address::of_bytes(address.bytes()) == address,
        Ipv6Address::of_bytes(octets).bytes() == octets,
{
    let made = byte_groups(octets);
    ipv6_is_its_groups(address, address, made);
    lemma_groups_come_back(address.groups());
    lemma_octets_come_back(octets);
}

/// An address is its groups, and it is its octets.
pub proof fn ipv6_is_its_groups(left: Ipv6Address, right: Ipv6Address, groups: Seq<u16>)
    requires
        groups.len() == 8,
    ensures
        left.groups().len() == 8,
        left == right <==> left.groups() == right.groups(),
        left == right <==> left.bytes() == right.bytes(),
        Ipv6Address::of(groups).groups() == groups,
        Ipv6Address::of(left.groups()) == left,
{
    assert(Ipv6Address::of(groups).groups() =~= groups);
    let l = left.groups();
    let r = right.groups();
    if left.bytes() == right.bytes() {
        assert forall|k: int| 0 <= k < 8 implies l[k] == r[k] by {
            assert(left.bytes()[2 * k] == right.bytes()[2 * k]);
            assert(left.bytes()[2 * k + 1] == right.bytes()[2 * k + 1]);
            assert((2 * k + 1) / 2 == k);
        }
        assert(l =~= r);
    }
    if l == r {
        assert(l[0] == r[0] && l[1] == r[1] && l[2] == r[2] && l[3] == r[3] && l[4] == r[4] && l[5]
            == r[5] && l[6] == r[6] && l[7] == r[7]);
    }
}

// ---- writing ----

/// The hexadecimal numerals of a row of groups.
pub open spec fn group_numerals(groups: Seq<u16>) -> Seq<Seq<char>> {
    groups.map_values(|group: u16| numeral(group as nat, 16))
}

/// A row of groups in hexadecimal, separated by colons.
pub open spec fn groups_text(groups: Seq<u16>) -> Seq<char> {
    join(group_numerals(groups), ':')
}

/// How many zero groups follow each other from index `i` on.
pub open spec fn zero_run(groups: Seq<u16>, i: int) -> nat
    decreases groups.len() - i,
{
    if 0 <= i < groups.len() && groups[i] == 0 {
        1 + zero_run(groups, i + 1)
    } else {
        0
    }
}

/// Start and length of the longest run of zero groups that starts before index `n`; of several
/// equally long ones, the first.
pub open spec fn longest_run(groups: Seq<u16>, n: nat) -> (int, nat)
    decreases n,
{
    if n == 0 {
        (0, 0)
    } else {
        let before = longest_run(groups, (n - 1) as nat);
        let here = zero_run(groups, n - 1);
        if here > before.1 {
            (n - 1, here)
        } else {
            before
        }
    }
}

/// Whether the groups hold an IPv4 address behind the prefix `::ffff:`.
pub open spec fn maps_ipv4(groups: Seq<u16>) -> bool {
    groups.take(6) == seq![0u16, 0, 0, 0, 0, 0xffff]
}

/// The IPv4 address in the last two groups.
pub open spec fn last_ipv4(groups: Seq<u16>) -> Ipv4Address {
    Ipv4Address::of(
        seq![
            (groups[6] / 256) as u8,
            (groups[6] % 256) as u8,
            (groups[7] / 256) as u8,
            (groups[7] % 256) as u8,
        ],
    )
}

/// The canonical text of eight groups: the longest run of at least two zero groups is written
/// as `::`, and a mapped IPv4 address is written in dotted decimal.
pub open spec fn ipv6_text(groups: Seq<u16>) -> Seq<char> {
    if maps_ipv4(groups) {
        "::ffff:"@ + last_ipv4(groups).text()
    } else {
        let (start, length) = longest_run(groups, 8);
        if length >= 2 {
            groups_text(groups.take(start)) + "::"@ + groups_text(groups.skip(start + length))
        } else {
            groups_text(groups)
        }
    }
}

/// Returns the number of zero groups from index `from` on.
fn count_zero_run(segments: &[u16; 8], from: usize) -> (length: usize)
    requires
        from <= 8,
    ensures
        length == zero_run(segments@, from as int),
        from + length <= 8,
{
    let mut i: usize = from;
    while i < 8 && segments[i] == 0
        invariant
            from <= i <= 8,
            zero_run(segments@, from as int) == (i - from) + zero_run(segments@, i as int),
        decreases 8 - i,
    {
        i = i + 1;
    }
    i - from
}

/// Returns start and length of the first longest run of zero groups.
fn longest_zero_run(segments: &[u16; 8]) -> (run: (usize, usize))
    ensures
        (run.0 as int, run.1 as nat) == longest_run(segments@, 8),
        run.0 + run.1 <= 8,
{
    let mut start: usize = 0;
    let mut length: usize = 0;
    let mut i: usize = 0;
    while i < 8
        invariant
            i <= 8,
            start + length <= 8,
            (start as int, length as nat) == longest_run(segments@, i as nat),
        decreases 8 - i,
    {
        let here: usize = count_zero_run(segments, i);
        if here > length {
            start = i;
            length = here;
        }
        i = i + 1;
    }
    (start, length)
}

/// Appends the groups from index `from` up to `to`.
fn push_groups(text: &mut String, segments: &[u16; 8], from: usize, to: usize)
    requires
        from <= to <= 8,
    ensures
        final(text)@ == old(text)@ + groups_text(segments@.subrange(from as int, to as int)),
{
    let mut k: usize = from;
    assert(text@ =~= old(text)@ + groups_text(segments@.subrange(from as int, k as int)));
    while k < to
        invariant
            from <= k <= to <= 8,
            text@ == old(text)@ + groups_text(segments@.subrange(from as int, k as int)),
        decreases to - k,
    {
        let ghost done = segments@.subrange(from as int, k as int);
        if k > from {
            text.push(':');
        }
        push_numeral(text, segments[k] as u64, 16);
        proof {
            let group = segments@[k as int];
            let longer = segments@.subrange(from as int, k + 1);
            assert(longer =~= done.push(group));
            let parts = group_numerals(longer);
            assert(parts.drop_last() =~= group_numerals(done));
            assert(parts.last() == numeral(group as nat, 16));
            if k > from {
                assert(parts.len() > 1);
            } else {
                assert(parts.len() == 1);
            }
            assert(text@ =~= old(text)@ + groups_text(longer));
        }
        k = k + 1;
    }
}

// ---- reading ----

/// The group that one to four hexadecimal digits stand for.
pub open spec fn group_value(text: Seq<char>) -> Option<u16> {
    match number_in(text, 16, 4) {
        Some(value) => Some(value as u16),
        None => None,
    }
}

/// The groups that a list of texts stands for, one each.
pub open spec fn group_values(parts: Seq<Seq<char>>) -> Option<Seq<u16>>
    decreases parts.len(),
{
    if parts.len() == 0 {
        Some(Seq::empty())
    } else {
        match (group_values(parts.drop_last()), group_value(parts.last())) {
            (Some(before), Some(group)) => Some(before.push(group)),
            _ => None,
        }
    }
}

/// The groups that stand before a `::`, which may be none.
pub open spec fn leading_groups(text: Seq<char>) -> Option<Seq<u16>> {
    if text.len() == 0 {
        Some(Seq::empty())
    } else {
        group_values(pieces(text, exactly(':')))
    }
}

/// The groups at the end of an address, where the last two may be written as an IPv4 address.
pub open spec fn trailing_groups(text: Seq<char>) -> Option<Seq<u16>> {
    if text.len() == 0 {
        Some(Seq::empty())
    } else {
        let parts = pieces(text, exactly(':'));
        match (group_values(parts.drop_last()), group_value(parts.last()), ipv4_value(parts.last())) {
            (Some(before), Some(group), _) => Some(before.push(group)),
            (Some(before), None, Some(address)) => Some(
                before.push((address.bytes()[0] * 256 + address.bytes()[1]) as u16).push(
                    (address.bytes()[2] * 256 + address.bytes()[3]) as u16,
                ),
            ),
            _ => None,
        }
    }
}

/// The first index from `i` on at which two colons follow each other.
pub open spec fn colon_pair(text: Seq<char>, i: int) -> Option<int>
    decreases text.len() - i,
{
    if i < 0 || i + 1 >= text.len() {
        None
    } else if text[i] == ':' && text[i + 1] == ':' {
        Some(i)
    } else {
        colon_pair(text, i + 1)
    }
}

/// The address that a text stands for: eight groups, or fewer with one `::` in place of at
/// least one zero group.
pub open spec fn ipv6_value(text: Seq<char>) -> Option<Ipv6Address> {
    match colon_pair(text, 0) {
        None => match trailing_groups(text) {
            Some(groups) => if groups.len() == 8 {
                Some(Ipv6Address::of(groups))
            } else {
                None
            },
            None => None,
        },
        Some(at) => match (leading_groups(text.take(at)), trailing_groups(text.skip(at + 2))) {
            (Some(head), Some(tail)) => if head.len() + tail.len() <= 7 {
                Some(Ipv6Address::of(with_zeros(head, tail)))
            } else {
                None
            },
            _ => None,
        },
    }
}

/// Eight groups: `head`, zeros, `tail`.
pub open spec fn with_zeros(head: Seq<u16>, tail: Seq<u16>) -> Seq<u16> {
    head + Seq::new((8 - head.len() - tail.len()) as nat, |i: int| 0u16) + tail
}

/// Reads one group.
fn read_group(text: &Vec<char>) -> (group: Option<u16>)
    ensures
        group == group_value(text@),
{
    match read_digits(text, 16, 4) {
        Some(value) => {
            proof {
                lemma_group_bound(text@);
            }
            Some(value as u16)
        },
        None => None,
    }
}

/// Up to four hexadecimal digits stand for a number below 65536.
proof fn lemma_group_bound(text: Seq<char>)
    requires
        text.len() <= 4,
    ensures
        digits_value(text, 16) matches Some(value) ==> value < power(16, text.len()) <= 65536,
    decreases text.len(),
{
    reveal_with_fuel(power, 5);
    assert(16nat * (16nat * (16nat * (16nat * 1nat))) == 65536) by (nonlinear_arith);
    assert(16nat * (16nat * (16nat * 1nat)) == 4096) by (nonlinear_arith);
    assert(16nat * (16nat * 1nat) == 256) by (nonlinear_arith);
    if text.len() > 0 {
        lemma_group_bound(text.drop_last());
    }
}

/// Reads the first `count` texts of a list, one group each.
fn read_groups(parts: &Vec<Vec<char>>, count: usize) -> (groups: Option<Vec<u16>>)
    requires
        count <= parts.len(),
    ensures
        match groups {
            Some(list) => group_values(rows(parts@).take(count as int)) == Some(list@),
            None => group_values(rows(parts@).take(count as int)) is None,
        },
{
    let mut groups: Vec<u16> = Vec::new();
    let mut k: usize = 0;
    assert(rows(parts@).take(0) =~= Seq::empty());
    assert(groups@ =~= Seq::empty());
    while k < count
        invariant
            k <= count <= parts.len(),
            group_values(rows(parts@).take(k as int)) == Some(groups@),
        decreases count - k,
    {
        proof {
            let longer = rows(parts@).take(k + 1);
            assert(longer.drop_last() =~= rows(parts@).take(k as int));
            assert(longer.last() == parts@[k as int]@);
        }
        match read_group(&parts[k]) {
            Some(group) => {
                groups.push(group);
            },
            None => {
                proof {
                    lemma_group_values_spoilt(rows(parts@), k + 1, count as int);
                }
                return None;
            },
        }
        k = k + 1;
    }
    Some(groups)
}

/// A list that is spoilt at some point stays so.
proof fn lemma_group_values_spoilt(parts: Seq<Seq<char>>, n: int, m: int)
    requires
        0 <= n <= m <= parts.len(),
        group_values(parts.take(n)) is None,
    ensures
        group_values(parts.take(m)) is None,
    decreases m - n,
{
    if n < m {
        let longer = parts.take(n + 1);
        assert(longer.drop_last() =~= parts.take(n));
        lemma_group_values_spoilt(parts, n + 1, m);
    }
}

/// Reads the groups that stand before a `::`.
fn read_leading(text: &Vec<char>) -> (groups: Option<Vec<u16>>)
    ensures
        match groups {
            Some(list) => leading_groups(text@) == Some(list@),
            None => leading_groups(text@) is None,
        },
{
    if text.len() == 0 {
        let groups: Vec<u16> = Vec::new();
        assert(groups@ =~= Seq::empty());
        return Some(groups);
    }
    let parts = split_at_char(text, ':');
    assert(rows(parts@).take(parts.len() as int) =~= rows(parts@));
    read_groups(&parts, parts.len())
}

/// Reads the groups at the end of an address.
fn read_trailing(text: &Vec<char>) -> (groups: Option<Vec<u16>>)
    ensures
        match groups {
            Some(list) => trailing_groups(text@) == Some(list@),
            None => trailing_groups(text@) is None,
        },
{
    if text.len() == 0 {
        let groups: Vec<u16> = Vec::new();
        assert(groups@ =~= Seq::empty());
        return Some(groups);
    }
    let parts = split_at_char(text, ':');
    proof {
        lemma_pieces_some(text@, exactly(':'));
        assert(rows(parts@).len() == parts.len());
        assert(rows(parts@).take(parts.len() - 1) =~= rows(parts@).drop_last());
        assert(rows(parts@).last() == parts@.last()@);
    }
    let last = &parts[parts.len() - 1];
    match read_groups(&parts, parts.len() - 1) {
        Some(mut groups) => match read_group(last) {
            Some(group) => {
                groups.push(group);
                Some(groups)
            },
            None => match read_ipv4(last) {
                Some(address) => {
                    let octets = address.octets();
                    groups.push(octets[0] as u16 * 256 + octets[1] as u16);
                    groups.push(octets[2] as u16 * 256 + octets[3] as u16);
                    Some(groups)
                },
                None => None,
            },
        },
        None => None,
    }
}

/// Finds the first place at which two colons follow each other.
fn find_colon_pair(text: &Vec<char>) -> (at: Option<usize>)
    ensures
        match at {
            Some(i) => colon_pair(text@, 0) == Some(i as int) && i + 2 <= text.len(),
            None => colon_pair(text@, 0) is None,
        },
{
    let mut i: usize = 0;
    while i < text.len() && text.len() - i >= 2
        invariant
            i <= text.len(),
            colon_pair(text@, 0) == colon_pair(text@, i as int),
        decreases text.len() - i,
    {
        if text[i] == ':' && text[i + 1] == ':' {
            return Some(i);
        }
        i = i + 1;
    }
    None
}

/// The characters of `text` from index `from` up to `to`.
fn part_of(text: &Vec<char>, from: usize, to: usize) -> (part: Vec<char>)
    requires
        from <= to <= text.len(),
    ensures
        part@ == text@.subrange(from as int, to as int),
{
    let mut part: Vec<char> = Vec::new();
    let mut k: usize = from;
    while k < to
        invariant
            from <= k <= to <= text.len(),
            part@ == text@.subrange(from as int, k as int),
        decreases to - k,
    {
        part.push(text[k]);
        k = k + 1;
        assert(part@ =~= text@.subrange(from as int, k as int));
    }
    part
}

/// The address with exactly eight groups.
fn address_of(groups: &Vec<u16>) -> (address: Ipv6Address)
    requires
        groups.len() == 8,
    ensures
        address == Ipv6Address::of(groups@),
{
    let segments = [
        groups[0],
        groups[1],
        groups[2],
        groups[3],
        groups[4],
        groups[5],
        groups[6],
        groups[7],
    ];
    assert(segments@ =~= groups@);
    Ipv6Address::new(segments)
}

/// Reads an address in colon-separated hexadecimal.
pub fn read_ipv6(text: &Vec<char>) -> (address: Option<Ipv6Address>)
    ensures
        address == ipv6_value(text@),
{
    match find_colon_pair(text) {
        None => match read_trailing(text) {
            Some(groups) => if groups.len() == 8 {
                Some(address_of(&groups))
            } else {
                None
            },
            None => None,
        },
        Some(at) => {
            let before = part_of(text, 0, at);
            let after = part_of(text, at + 2, text.len());
            assert(before@ =~= text@.take(at as int));
            assert(after@ =~= text@.skip(at + 2));
            match (read_leading(&before), read_trailing(&after)) {
                (Some(head), Some(tail)) => if head.len() <= 7 && tail.len() <= 7 - head.len() {
                    let mut groups: Vec<u16> = Vec::new();
                    let mut k: usize = 0;
                    while k < 8
                        invariant
                            k <= 8,
                            head.len() + tail.len() <= 7,
                            groups@ == with_zeros(head@, tail@).take(k as int),
                        decreases 8 - k,
                    {
                        if k < head.len() {
                            groups.push(head[k]);
                        } else if k < 8 - tail.len() {
                            groups.push(0);
                        } else {
                            groups.push(tail[k - (8 - tail.len())]);
                        }
                        k = k + 1;
                        assert(groups@ =~= with_zeros(head@, tail@).take(k as int));
                    }
                    assert(groups@ =~= with_zeros(head@, tail@));
                    Some(address_of(&groups))
                } else {
                    None
                },
                _ => None,
            }
        },
    }
}

// ---- reading back what was written ----

/// A group's numeral reads back as the group, and consists of digits.
proof fn lemma_group(group: u16)
    ensures
        group_value(numeral(group as nat, 16)) == Some(group),
        numeral(group as nat, 16).len() > 0,
        unbroken(numeral(group as nat, 16), exactly(':')),
        forall|i: int|
            0 <= i < numeral(group as nat, 16).len() ==> digit_value(
                #[trigger] numeral(group as nat, 16)[i],
            ) is Some,
{
    lemma_numeral(group as nat, 16);
    reveal_with_fuel(power, 5);
    assert(16nat * (16nat * (16nat * (16nat * 1nat))) == 65536) by (nonlinear_arith);
    lemma_numeral_len(group as nat, 16, 4);
    assert forall|i: int| 0 <= i < numeral(group as nat, 16).len() implies !exactly(':')(
        #[trigger] numeral(group as nat, 16)[i],
    ) by {
        assert(digit_value(numeral(group as nat, 16)[i]) is Some);
    }
}

/// A row of numerals reads back as its groups.
proof fn lemma_group_values(groups: Seq<u16>)
    ensures
        group_values(group_numerals(groups)) == Some(groups),
    decreases groups.len(),
{
    if groups.len() > 0 {
        let before = groups.drop_last();
        lemma_group_values(before);
        lemma_group(groups.last());
        assert(group_numerals(groups).drop_last() =~= group_numerals(before));
        assert(before.push(groups.last()) =~= groups);
    } else {
        assert(groups =~= Seq::empty());
    }
}

/// The text of a row of groups comes apart into their numerals.
proof fn lemma_groups_pieces(groups: Seq<u16>)
    requires
        groups.len() > 0,
    ensures
        pieces(groups_text(groups), exactly(':')) == group_numerals(groups),
{
    let parts = group_numerals(groups);
    assert forall|i: int| 0 <= i < parts.len() implies unbroken(
        #[trigger] parts[i],
        exactly(':'),
    ) by {
        lemma_group(groups[i]);
    }
    lemma_pieces_join(parts, ':', exactly(':'));
}

/// In the text of a row of groups no two colons follow each other, and it neither starts nor
/// ends with one; it holds digits and colons only.
proof fn lemma_groups_text(groups: Seq<u16>)
    ensures
        groups_text(groups).len() == 0 <==> groups.len() == 0,
        groups.len() > 0 ==> groups_text(groups)[0] != ':' && groups_text(groups).last() != ':',
        forall|i: int|
            0 <= i < groups_text(groups).len() - 1 ==> !(#[trigger] groups_text(groups)[i] == ':'
                && groups_text(groups)[i + 1] == ':'),
        forall|i: int|
            0 <= i < groups_text(groups).len() ==> digit_value(#[trigger] groups_text(groups)[i])
                is Some || groups_text(groups)[i] == ':',
    decreases groups.len(),
{
    let parts = group_numerals(groups);
    if groups.len() > 0 {
        let last = numeral(groups.last() as nat, 16);
        lemma_group(groups.last());
        assert(parts.last() == last);
        assert(digit_value(last[0]) is Some);
        assert(digit_value(last[last.len() - 1]) is Some);
        let text = groups_text(groups);
        if groups.len() == 1 {
            assert(parts[0] == last);
            assert(text == last);
            assert forall|i: int| 0 <= i < text.len() implies digit_value(#[trigger] text[i])
                is Some by {
                assert(text[i] == last[i]);
            }
        } else {
            let before = groups.drop_last();
            lemma_groups_text(before);
            let ahead = groups_text(before);
            assert(parts.drop_last() =~= group_numerals(before));
            assert(text == ahead.push(':') + last);
            assert(text[0] == ahead[0]);
            assert(text.last() == last.last());
            assert forall|i: int| 0 <= i < text.len() implies digit_value(#[trigger] text[i])
                is Some || text[i] == ':' by {
                if i < ahead.len() {
                    assert(text[i] == ahead[i]);
                } else if i > ahead.len() {
                    assert(text[i] == last[i - ahead.len() - 1]);
                }
            }
            assert forall|i: int| 0 <= i < text.len() - 1 implies !(#[trigger] text[i] == ':'
                && text[i + 1] == ':') by {
                if i + 1 < ahead.len() {
                    assert(text[i] == ahead[i] && text[i + 1] == ahead[i + 1]);
                } else if i + 1 == ahead.len() {
                    assert(text[i] == ahead.last());
                } else if i == ahead.len() {
                    assert(text[i + 1] == last[0]);
                } else {
                    assert(text[i] == last[i - ahead.len() - 1]);
                }
            }
        }
    }
}

/// A text without two adjacent colons has no colon pair.
proof fn lemma_no_colon_pair(text: Seq<char>, i: int)
    requires
        0 <= i,
        forall|k: int|
            i <= k < text.len() - 1 ==> !(#[trigger] text[k] == ':' && text[k + 1] == ':'),
    ensures
        colon_pair(text, i) is None,
    decreases text.len() - i,
{
    if i + 1 < text.len() {
        assert(!(text[i] == ':' && text[i + 1] == ':'));
        lemma_no_colon_pair(text, i + 1);
    }
}

/// The first colon pair is the one that no other precedes.
proof fn lemma_colon_pair_at(text: Seq<char>, i: int, at: int)
    requires
        0 <= i <= at < text.len() - 1,
        text[at] == ':' && text[at + 1] == ':',
        forall|k: int| i <= k < at ==> !(#[trigger] text[k] == ':' && text[k + 1] == ':'),
    ensures
        colon_pair(text, i) == Some(at),
    decreases at - i,
{
    if i < at {
        assert(!(text[i] == ':' && text[i + 1] == ':'));
        lemma_colon_pair_at(text, i + 1, at);
    }
}

/// The text of a row of groups reads back as the row, before and behind a `::`.
proof fn lemma_groups_read_back(groups: Seq<u16>)
    ensures
        leading_groups(groups_text(groups)) == Some(groups),
        trailing_groups(groups_text(groups)) == Some(groups),
{
    lemma_groups_text(groups);
    if groups.len() == 0 {
        assert(groups =~= Seq::empty());
    } else {
        lemma_groups_pieces(groups);
        lemma_group_values(groups);
        let before = groups.drop_last();
        lemma_group_values(before);
        lemma_group(groups.last());
        assert(group_numerals(groups).drop_last() =~= group_numerals(before));
        assert(group_numerals(groups).last() == numeral(groups.last() as nat, 16));
        assert(before.push(groups.last()) =~= groups);
    }
}

/// The groups of a zero run are zero.
proof fn lemma_zero_run(groups: Seq<u16>, i: int)
    requires
        0 <= i <= groups.len(),
    ensures
        i + zero_run(groups, i) <= groups.len(),
        forall|k: int| i <= k < i + zero_run(groups, i) ==> groups[k] == 0,
    decreases groups.len() - i,
{
    if i < groups.len() && groups[i] == 0 {
        lemma_zero_run(groups, i + 1);
    }
}

/// The longest run is a run of zero groups.
proof fn lemma_longest_run(groups: Seq<u16>, n: nat)
    requires
        n <= groups.len(),
    ensures
        0 <= longest_run(groups, n).0 <= groups.len(),
        longest_run(groups, n).0 + longest_run(groups, n).1 <= groups.len(),
        forall|k: int|
            longest_run(groups, n).0 <= k < longest_run(groups, n).0 + longest_run(groups, n).1
                ==> groups[k] == 0,
    decreases n,
{
    if n > 0 {
        lemma_longest_run(groups, (n - 1) as nat);
        lemma_zero_run(groups, n - 1);
    }
}

/// The four digits that mark a mapped IPv4 address.
spec fn mapped_mark() -> Seq<char> {
    seq!['f', 'f', 'f', 'f']
}

/// The mark reads as one group with all bits set.
proof fn lemma_mark()
    ensures
        group_values(seq![mapped_mark()]) == Some(seq![0xffffu16]),
{
    let mark = mapped_mark();
    assert(digits_value(mark, 16) == Some(0xffffnat)) by {
        reveal_with_fuel(digits_value, 5);
        assert(mark.drop_last() =~= seq!['f', 'f', 'f']);
        assert(mark.drop_last().drop_last() =~= seq!['f', 'f']);
        assert(mark.drop_last().drop_last().drop_last() =~= seq!['f']);
        assert(mark.drop_last().drop_last().drop_last().drop_last() =~= Seq::empty());
    }
    assert(seq![mark].drop_last() =~= Seq::empty());
    assert(group_values(seq![mark].drop_last()) == Some(Seq::<u16>::empty()));
    assert(Seq::<u16>::empty().push(0xffffu16) =~= seq![0xffffu16]);
}

/// The mark and an IPv4 address behind it read as three groups.
proof fn lemma_mapped_tail(inner: Ipv4Address, high: u16, low: u16)
    requires
        high == inner.bytes()[0] * 256 + inner.bytes()[1],
        low == inner.bytes()[2] * 256 + inner.bytes()[3],
    ensures
        trailing_groups(mapped_mark().push(':') + inner.text()) == Some(seq![0xffffu16, high, low]),
{
    let mark = mapped_mark();
    let rest = inner.text();
    ipv4_text_reads_back(inner);
    lemma_ipv4_characters(inner);
    assert forall|i: int| 0 <= i < rest.len() implies !exactly(':')(#[trigger] rest[i]) by {
        assert(digit_value(rest[i]) is Some || rest[i] == '.');
    }
    lemma_pieces_after_separator(mark, ':', rest, exactly(':'));
    lemma_pieces_unbroken(mark, exactly(':'));
    lemma_pieces_unbroken(rest, exactly(':'));
    let parts = pieces(mark.push(':') + rest, exactly(':'));
    assert(parts =~= seq![mark, rest]);
    assert(parts.drop_last() =~= seq![mark]);
    lemma_mark();
    assert(group_value(rest) is None);
    assert(seq![0xffffu16].push(high).push(low) =~= seq![0xffffu16, high, low]);
}

/// A mapped IPv4 address reads back.
proof fn lemma_mapped_reads_back(address: Ipv6Address)
    requires
        maps_ipv4(address.groups()),
    ensures
        ipv6_value(address.text()) == Some(address),
{
    let groups = address.groups();
    ipv6_is_its_groups(address, address, groups);
    let inner = last_ipv4(groups);
    let octets = seq![
        (groups[6] / 256) as u8,
        (groups[6] % 256) as u8,
        (groups[7] / 256) as u8,
        (groups[7] % 256) as u8,
    ];
    ipv4_is_its_octets(inner, inner, octets);
    lemma_mapped_tail(inner, groups[6], groups[7]);
    reveal_strlit("::ffff:");
    let text = address.text();
    assert(text == "::ffff:"@ + inner.text());
    assert(text[0] == ':' && text[1] == ':');
    lemma_colon_pair_at(text, 0, 0);
    assert(text.take(0) =~= Seq::empty());
    assert(text.skip(2) =~= mapped_mark().push(':') + inner.text());
    let tail = seq![0xffffu16, groups[6], groups[7]];
    let read = with_zeros(Seq::empty(), tail);
    assert forall|k: int| 0 <= k < 8 implies read[k] == groups[k] by {
        if k < 6 {
            assert(groups.take(6)[k] == groups[k]);
        }
    }
    assert(read =~= groups);
}

/// Reading the text of an address gives the address back.
pub proof fn ipv6_text_reads_back(address: Ipv6Address)
    ensures
        ipv6_value(address.text()) == Some(address),
{
    let groups = address.groups();
    ipv6_is_its_groups(address, address, groups);
    if maps_ipv4(groups) {
        lemma_mapped_reads_back(address);
    } else {
        let (start, length) = longest_run(groups, 8);
        lemma_longest_run(groups, 8);
        if length >= 2 {
            let head = groups.take(start);
            let tail = groups.skip(start + length);
            lemma_groups_text(head);
            lemma_groups_text(tail);
            lemma_groups_read_back(head);
            lemma_groups_read_back(tail);
            reveal_strlit("::");
            let text = address.text();
            let at = groups_text(head).len() as int;
            assert(text == groups_text(head) + "::"@ + groups_text(tail));
            assert(text[at] == ':' && text[at + 1] == ':');
            assert forall|k: int| 0 <= k < at implies !(#[trigger] text[k] == ':' && text[k + 1]
                == ':') by {
                assert(text[k] == groups_text(head)[k]);
                if k + 1 < at {
                    assert(text[k + 1] == groups_text(head)[k + 1]);
                }
            }
            lemma_colon_pair_at(text, 0, at);
            assert(text.take(at) =~= groups_text(head));
            assert(text.skip(at + 2) =~= groups_text(tail));
            assert(with_zeros(head, tail) =~= groups);
        } else {
            lemma_groups_text(groups);
            lemma_groups_read_back(groups);
            lemma_no_colon_pair(address.text(), 0);
        }
    }
}

/// The text of an address is not empty and holds digits, colons and dots only.
pub proof fn lemma_ipv6_characters(address: Ipv6Address)
    ensures
        address.text().len() > 0,
        forall|i: int|
            0 <= i < address.text().len() ==> digit_value(#[trigger] address.text()[i]) is Some
                || address.text()[i] == ':' || address.text()[i] == '.',
{
    let groups = address.groups();
    let text = address.text();
    ipv6_is_its_groups(address, address, groups);
    if maps_ipv4(groups) {
        reveal_strlit("::ffff:");
        let rest = last_ipv4(groups).text();
        lemma_ipv4_characters(last_ipv4(groups));
        assert forall|i: int| 0 <= i < text.len() implies digit_value(#[trigger] text[i]) is Some
            || text[i] == ':' || text[i] == '.' by {
            if i >= 7 {
                assert(text[i] == rest[i - 7]);
            }
        }
    } else {
        let (start, length) = longest_run(groups, 8);
        lemma_longest_run(groups, 8);
        if length >= 2 {
            let head = groups_text(groups.take(start));
            let tail = groups_text(groups.skip(start + length));
            lemma_groups_text(groups.take(start));
            lemma_groups_text(groups.skip(start + length));
            reveal_strlit("::");
            assert forall|i: int| 0 <= i < text.len() implies digit_value(#[trigger] text[i])
                is Some || text[i] == ':' || text[i] == '.' by {
                if i < head.len() {
                    assert(text[i] == head[i]);
                } else if i >= head.len() + 2 {
                    assert(text[i] == tail[i - head.len() - 2]);
                }
            }
        } else {
            lemma_groups_text(groups);
        }
    }
}

/// The text of an address holds a colon.
pub proof fn lemma_ipv6_has_colon(address: Ipv6Address) -> (i: int)
    ensures
        0 <= i < address.text().len(),
        address.text()[i] == ':',
{
    let groups = address.groups();
    let text = address.text();
    ipv6_is_its_groups(address, address, groups);
    reveal_strlit("::ffff:");
    reveal_strlit("::");
    if maps_ipv4(groups) {
        assert(text[0] == ':');
        0
    } else {
        let (start, length) = longest_run(groups, 8);
        if length >= 2 {
            let head = groups_text(groups.take(start));
            assert(text[head.len() as int] == ':');
            head.len() as int
        } else {
            let parts = group_numerals(groups);
            let ahead = join(parts.drop_last(), ':');
            assert(text == ahead.push(':') + parts.last());
            assert(text[ahead.len() as int] == ':');
            ahead.len() as int
        }
    }
}

/// An IPv6 network: an address with a prefix length.
#[derive(Debug, Clone, Copy, PartialEq, Eq, Hash, Structural)]
pub struct Ipv6Network {
    address: Ipv6Address,
    prefix: Ipv6PrefixLength,
}

impl Ipv6Network {
    /// The network with the given address and prefix.
    pub closed spec fn of(address: Ipv6Address, prefix: Ipv6PrefixLength) -> Self {
        Ipv6Network { address, prefix }
    }

    /// The network's address.
    pub closed spec fn spec_address(&self) -> Ipv6Address {
        self.address
    }

    /// The network's prefix length.
    pub closed spec fn spec_prefix(&self) -> Ipv6PrefixLength {
        self.prefix
    }

    /// Creates a network from an address and a prefix length; the address is kept as given.
    pub fn new(address: Ipv6Address, prefix: Ipv6PrefixLength) -> (network: Self)
        ensures
            network == Self::of(address, prefix),
            network.address() == address,
            network.prefix() == prefix,
    {
        Ipv6Network { address, prefix }
    }

    /// Returns the network's address.
    #[verifier::when_used_as_spec(spec_address)]
    pub fn address(&self) -> (address: Ipv6Address)
        ensures
            address == self.spec_address(),
    {
        self.address
    }

    /// Returns the network's prefix length.
    #[verifier::when_used_as_spec(spec_prefix)]
    pub fn prefix(&self) -> (prefix: Ipv6PrefixLength)
        ensures
            prefix == self.spec_prefix(),
    {
        self.prefix
    }

    /// The address, a slash and the prefix length.
    pub open spec fn text(self) -> Seq<char> {
        self.address().text().push('/') + numeral(self.prefix().bits() as nat, 10)
    }

    /// Returns the address, a slash and the prefix length.
    pub fn to_string(&self) -> (text: String)
        ensures
            text@ == self.text(),
    {
        let mut text = self.address.to_string();
        text.push('/');
        push_numeral(&mut text, self.prefix.value() as u64, 10);
        text
    }
}

/// A network is its address and prefix length.
pub proof fn ipv6_network_is_its_parts(
    network: Ipv6Network,
    address: Ipv6Address,
    prefix: Ipv6PrefixLength,
)
    ensures
        network == Ipv6Network::of(network.address(), network.prefix()),
        Ipv6Network::of(address, prefix).address() == address,
        Ipv6Network::of(address, prefix).prefix() == prefix,
{
}

/// A group is written with one to four hexadecimal digits, of either case, and is their value.
pub proof fn groups_are_up_to_four_hexadecimal_digits(text: Seq<char>)
    ensures
        group_value(text) is Some ==> 1 <= text.len() <= 4 && forall|i: int|
            0 <= i < text.len() ==> digit_value(#[trigger] text[i]) is Some,
        group_value(text) matches Some(group) ==> digits_value(text, 16) == Some(group as nat),
        text.len() == 0 || text.len() > 4 ==> group_value(text) is None,
        1 <= text.len() <= 4 && digits_value(text, 16) is Some ==> group_value(text) is Some,
{
    if group_value(text) is Some {
        lemma_group_bound(text);
        lemma_digits_all(text, 16);
    }
}

/// Where digits have a value each of them has one.
proof fn lemma_digits_all(digits: Seq<char>, base: nat)
    ensures
        digits_value(digits, base) is Some ==> forall|i: int|
            0 <= i < digits.len() ==> digit_value(#[trigger] digits[i]) is Some,
    decreases digits.len(),
{
    if digits.len() > 0 {
        lemma_digits_all(digits.drop_last(), base);
        if digits_value(digits, base) is Some {
            assert forall|i: int| 0 <= i < digits.len() implies digit_value(#[trigger] digits[i])
                is Some by {
                if i < digits.len() - 1 {
                    assert(digits.drop_last()[i] == digits[i]);
                }
            }
        }
    }
}

/// A double colon stands for as many zero groups as are missing, at least one: whatever groups
/// stand before and behind it keep their places at the front and at the end.
pub proof fn double_colon_stands_for_the_missing_zeros(head: Seq<u16>, tail: Seq<u16>)
    requires
        head.len() + tail.len() <= 7,
    ensures
        ipv6_value(groups_text(head) + "::"@ + groups_text(tail)) == Some(
            Ipv6Address::of(
                head + Seq::new((8 - head.len() - tail.len()) as nat, |i: int| 0u16) + tail,
            ),
        ),
{
    lemma_groups_text(head);
    lemma_groups_text(tail);
    lemma_groups_read_back(head);
    lemma_groups_read_back(tail);
    reveal_strlit("::");
    let text = groups_text(head) + "::"@ + groups_text(tail);
    let at = groups_text(head).len() as int;
    assert(text[at] == ':' && text[at + 1] == ':');
    assert forall|k: int| 0 <= k < at implies !(#[trigger] text[k] == ':' && text[k + 1]
        == ':') by {
        assert(text[k] == groups_text(head)[k]);
        if k + 1 < at {
            assert(text[k + 1] == groups_text(head)[k + 1]);
        }
    }
    lemma_colon_pair_at(text, 0, at);
    assert(text.take(at) =~= groups_text(head));
    assert(text.skip(at + 2) =~= groups_text(tail));
}

/// Without a double colon an address is eight groups joined by colons, and fewer or more are no
/// address.
pub proof fn eight_groups_are_an_address(groups: Seq<u16>)
    requires
        groups.len() > 0,
    ensures
        groups.len() == 8 ==> ipv6_value(groups_text(groups)) == Some(Ipv6Address::of(groups)),
        groups.len() != 8 ==> ipv6_value(groups_text(groups)) is None,
{
    lemma_groups_text(groups);
    lemma_groups_read_back(groups);
    lemma_no_colon_pair(groups_text(groups), 0);
}

/// The zero groups that a text leaves out are a longest run of them, and the first of that
/// length.
pub proof fn longest_run_of_zeros_is_the_first_of_its_length(groups: Seq<u16>, i: int, n: int)
    requires
        groups.len() == 8,
        0 <= i,
        n >= 1,
        i + n <= 8,
        forall|k: int| i <= k < i + n ==> #[trigger] groups[k] == 0,
    ensures
        ({
            let (start, length) = longest_run(groups, 8);
            &&& n <= length
            &&& n == length ==> start <= i
            &&& forall|k: int| start <= k < start + length ==> #[trigger] groups[k] == 0
            &&& 0 <= start && start + length <= 8
        }),
{
    lemma_longest_run(groups, 8);
    lemma_run_counts(groups, i, n);
    lemma_longest_is_longest(groups, 8, i);
}

/// A run of zeros is counted in full.
proof fn lemma_run_counts(groups: Seq<u16>, i: int, n: int)
    requires
        0 <= i,
        0 <= n,
        i + n <= groups.len(),
        forall|k: int| i <= k < i + n ==> #[trigger] groups[k] == 0,
    ensures
        zero_run(groups, i) >= n,
    decreases n,
{
    if n > 0 {
        assert(groups[i] == 0);
        lemma_run_counts(groups, i + 1, n - 1);
    }
}

/// No run that begins before is longer than the longest, and none of its length begins earlier.
proof fn lemma_longest_is_longest(groups: Seq<u16>, n: nat, i: int)
    requires
        0 <= i < n,
    ensures
        zero_run(groups, i) <= longest_run(groups, n).1,
        zero_run(groups, i) == longest_run(groups, n).1 ==> longest_run(groups, n).0 <= i,
    decreases n,
{
    if i < n - 1 {
        lemma_longest_is_longest(groups, (n - 1) as nat, i);
    } else {
        lemma_longest_start(groups, (n - 1) as nat);
    }
}

/// The longest run begins before the end.
proof fn lemma_longest_start(groups: Seq<u16>, n: nat)
    ensures
        0 <= longest_run(groups, n).0 <= n,
    decreases n,
{
    if n > 0 {
        lemma_longest_start(groups, (n - 1) as nat);
    }
}

/// How an address is written: one that maps an IPv4 address with that address at its end; any
/// other with its longest run of at least two zero groups left out, or without such a run with
/// all eight groups.
pub proof fn text_leaves_out_the_longest_run_of_zeros(address: Ipv6Address)
    ensures
        ({
            let groups = address.groups();
            let (start, length) = longest_run(groups, 8);
            if groups.take(6) == seq![0u16, 0, 0, 0, 0, 0xffff] {
                address.text() == "::ffff:"@ + last_ipv4(groups).text() && last_ipv4(groups).bytes()
                    == address.bytes().skip(12)
            } else if length >= 2 {
                address.text() == groups_text(groups.take(start)) + "::"@ + groups_text(
                    groups.skip(start + length),
                )
            } else {
                address.text() == groups_text(groups)
            }
        }),
{
    let groups = address.groups();
    ipv6_is_its_groups(address, address, groups);
    let last = last_ipv4(groups);
    let octets = seq![
        (groups[6] / 256) as u8,
        (groups[6] % 256) as u8,
        (groups[7] / 256) as u8,
        (groups[7] % 256) as u8,
    ];
    ipv4_is_its_octets(last, last, octets);
    assert(last.bytes() =~= address.bytes().skip(12));
}

/// The bytes of an address are its groups, most significant byte first.
pub proof fn ipv6_bytes_are_big_endian(address: Ipv6Address, i: int)
    requires
        0 <= i < 8,
    ensures
        address.bytes()[2 * i] * 256 + address.bytes()[2 * i + 1] == address.groups()[i],
{
    ipv6_is_its_groups(address, address, address.groups());
}

/// The last two groups may be written as an IPv4 address, behind a double colon as well as behind
/// a single one.
pub proof fn last_groups_may_be_written_dotted(head: Seq<u16>, inner: Ipv4Address)
    ensures
        head.len() <= 5 ==> ipv6_value(groups_text(head) + "::"@ + inner.text()) == Some(
            Ipv6Address::of(
                head + Seq::new((6 - head.len()) as nat, |i: int| 0u16) + dotted_groups(inner),
            ),
        ),
        head.len() == 6 ==> ipv6_value(groups_text(head) + seq![':'] + inner.text()) == Some(
            Ipv6Address::of(head + dotted_groups(inner)),
        ),
{
    let rest = inner.text();
    let tail = dotted_groups(inner);
    lemma_groups_text(head);
    lemma_groups_read_back(head);
    ipv4_text_reads_back(inner);
    lemma_ipv4_characters(inner);
    assert forall|i: int| 0 <= i < rest.len() implies !exactly(':')(#[trigger] rest[i]) && rest[i]
        != ':' by {
        assert(digit_value(rest[i]) is Some || rest[i] == '.');
    }
    lemma_pieces_unbroken(rest, exactly(':'));
    assert(group_value(rest) is None);
    if head.len() <= 5 {
        reveal_strlit("::");
        assert(seq![rest].drop_last() =~= Seq::empty());
        assert(group_values(Seq::empty()) == Some(Seq::<u16>::empty()));
        assert(trailing_groups(rest) == Some(tail)) by {
            assert(Seq::<u16>::empty().push(tail[0]).push(tail[1]) =~= tail);
        }
        let text = groups_text(head) + "::"@ + rest;
        let at = groups_text(head).len() as int;
        assert(text[at] == ':' && text[at + 1] == ':');
        assert forall|k: int| 0 <= k < at implies !(#[trigger] text[k] == ':' && text[k + 1]
            == ':') by {
            assert(text[k] == groups_text(head)[k]);
            if k + 1 < at {
                assert(text[k + 1] == groups_text(head)[k + 1]);
            }
        }
        lemma_colon_pair_at(text, 0, at);
        assert(text.take(at) =~= groups_text(head));
        assert(text.skip(at + 2) =~= rest);
        assert(with_zeros(head, tail) =~= head + Seq::new((6 - head.len()) as nat, |i: int| 0u16)
            + tail);
    } else if head.len() == 6 {
        let ahead = groups_text(head);
        let text = ahead + seq![':'] + rest;
        assert(text =~= ahead.push(':') + rest);
        assert forall|k: int| 0 <= k < text.len() - 1 implies !(#[trigger] text[k] == ':'
            && text[k + 1] == ':') by {
            if k + 1 < ahead.len() {
                assert(text[k] == ahead[k] && text[k + 1] == ahead[k + 1]);
            } else if k + 1 == ahead.len() {
                assert(text[k] == ahead.last());
            } else {
                assert(text[k + 1] == rest[k - ahead.len()]);
            }
        }
        lemma_no_colon_pair(text, 0);
        lemma_pieces_after_separator(ahead, ':', rest, exactly(':'));
        lemma_groups_pieces(head);
        lemma_group_values(head);
        let parts = pieces(text, exactly(':'));
        assert(parts =~= group_numerals(head).push(rest));
        assert(parts.drop_last() =~= group_numerals(head));
        assert(head.push(tail[0]).push(tail[1]) =~= head + tail);
    }
}

/// The two groups that an IPv4 address stands for.
pub open spec fn dotted_groups(inner: Ipv4Address) -> Seq<u16> {
    seq![
        (inner.bytes()[0] * 256 + inner.bytes()[1]) as u16,
        (inner.bytes()[2] * 256 + inner.bytes()[3]) as u16,
    ]
}

} // verus!
