//! Wide text: characters as 16-bit units, as the Windows API takes and gives them.

use vstd::prelude::*;

verus! {

/// Whether a number is that of a character.
pub open spec fn is_scalar(number: int) -> bool {
    0 <= number <= 0xD7FF || 0xE000 <= number <= 0x10FFFF
}

/// `char::from_u32` returns the character with the given number, and nothing for a number that
/// is not that of a character.
pub assume_specification[ char::from_u32 ](i: u32) -> (c: Option<char>)
    ensures
        c == (if is_scalar(i as int) {
            Some(i as char)
        } else {
            None
        }),
;

/// Whether a unit is the first of a pair.
pub open spec fn is_high(unit: u16) -> bool {
    0xD800 <= unit <= 0xDBFF
}

/// Whether a unit is the second of a pair.
pub open spec fn is_low(unit: u16) -> bool {
    0xDC00 <= unit <= 0xDFFF
}

/// The character that a pair stands for.
pub open spec fn paired(high: u16, low: u16) -> char {
    (0x10000 + (high - 0xD800) * 0x400 + (low - 0xDC00)) as char
}

/// The units of one character: one, or a pair for a character beyond their range.
pub open spec fn units_of(c: char) -> Seq<u16> {
    if (c as int) < 0x10000 {
        seq![c as u16]
    } else {
        seq![
            (0xD800 + (c as int - 0x10000) / 0x400) as u16,
            (0xDC00 + (c as int - 0x10000) % 0x400) as u16,
        ]
    }
}

/// The units of a text.
pub open spec fn encoded(text: Seq<char>) -> Seq<u16>
    decreases text.len(),
{
    if text.len() == 0 {
        Seq::empty()
    } else {
        units_of(text[0]) + encoded(text.skip(1))
    }
}

/// The text that units stand for. A unit of a pair that stands alone stands for the replacement
/// character.
pub open spec fn decoded_text(units: Seq<u16>) -> Seq<char>
    decreases units.len(),
{
    if units.len() == 0 {
        Seq::empty()
    } else if !is_high(units[0]) && !is_low(units[0]) {
        seq![units[0] as char] + decoded_text(units.skip(1))
    } else if is_high(units[0]) && units.len() >= 2 && is_low(units[1]) {
        seq![paired(units[0], units[1])] + decoded_text(units.skip(2))
    } else {
        seq!['\u{FFFD}'] + decoded_text(units.skip(1))
    }
}

/// The text without the NUL characters at its end.
pub open spec fn without_trailing_nuls(text: Seq<char>) -> Seq<char>
    decreases text.len(),
{
    if text.len() > 0 && text.last() == '\0' {
        without_trailing_nuls(text.drop_last())
    } else {
        text
    }
}

/// Appends the units of one character.
fn push_units(units: &mut Vec<u16>, c: char)
    ensures
        final(units)@ == old(units)@ + units_of(c),
{
    let ghost before = units@;
    let number: u32 = c as u32;
    if number < 0x10000 {
        units.push(number as u16);
    } else {
        let beyond: u32 = number - 0x10000;
        units.push((0xD800 + beyond / 0x400) as u16);
        units.push((0xDC00 + beyond % 0x400) as u16);
    }
    assert(units@ =~= before + units_of(c));
}

/// Encodes a text and puts a NUL behind it.
pub fn nul_terminated_wide(value: &str) -> (units: Vec<u16>)
    ensures
        units@ == encoded(value@).push(0),
{
    let chars = crate::text::chars_of(value);
    let mut units: Vec<u16> = Vec::new();
    let mut i: usize = 0;
    assert(chars@.skip(0) =~= chars@);
    assert(units@ + encoded(chars@.skip(0)) =~= encoded(value@));
    while i < chars.len()
        invariant
            i <= chars.len(),
            chars@ == value@,
            units@ + encoded(chars@.skip(i as int)) == encoded(value@),
        decreases chars.len() - i,
    {
        let ghost before = units@;
        let c = chars[i];
        push_units(&mut units, c);
        proof {
            assert(chars@.skip(i as int)[0] == c);
            assert(chars@.skip(i as int).skip(1) =~= chars@.skip(i + 1));
            assert(before + (units_of(c) + encoded(chars@.skip(i + 1))) =~= units@ + encoded(
                chars@.skip(i + 1),
            ));
        }
        i = i + 1;
    }
    assert(encoded(chars@.skip(i as int)) =~= Seq::empty());
    assert(units@ =~= encoded(value@));
    units.push(0);
    units
}

/// Decodes units, as many as there are.
pub fn decode_wide(units: &Vec<u16>) -> (chars: Vec<char>)
    ensures
        chars@ == decoded_text(units@),
{
    let mut chars: Vec<char> = Vec::new();
    let mut i: usize = 0;
    assert(units@.skip(0) =~= units@);
    assert(chars@ + decoded_text(units@.skip(0)) =~= decoded_text(units@));
    while i < units.len()
        invariant
            i <= units.len(),
            chars@ + decoded_text(units@.skip(i as int)) == decoded_text(units@),
        decreases units.len() - i,
    {
        let ghost before = chars@;
        let ghost rest = units@.skip(i as int);
        assert(rest[0] == units@[i as int]);
        assert(rest.skip(1) =~= units@.skip(i + 1));
        let first: u16 = units[i];
        let high = 0xD800 <= first && first <= 0xDBFF;
        let low = 0xDC00 <= first && first <= 0xDFFF;
        if !high && !low {
            match char::from_u32(first as u32) {
                Some(c) => {
                    chars.push(c);
                    assert(c == rest[0] as char);
                },
                None => {
                    assert(false);
                },
            }
            assert(chars@ + decoded_text(units@.skip(i + 1)) =~= before + (seq![rest[0] as char]
                + decoded_text(rest.skip(1))));
            i = i + 1;
        } else if high && i + 1 < units.len() && 0xDC00 <= units[i + 1] && units[i + 1] <= 0xDFFF {
            let second: u16 = units[i + 1];
            let number: u32 = 0x10000 + (first as u32 - 0xD800) * 0x400 + (second as u32 - 0xDC00);
            assert(rest[1] == second);
            assert(rest.skip(2) =~= units@.skip(i + 2));
            match char::from_u32(number) {
                Some(c) => {
                    chars.push(c);
                    assert(c == paired(rest[0], rest[1]));
                },
                None => {
                    assert(false);
                },
            }
            assert(chars@ + decoded_text(units@.skip(i + 2)) =~= before + (seq![
                paired(rest[0], rest[1]),
            ] + decoded_text(rest.skip(2))));
            i = i + 2;
        } else {
            chars.push('\u{FFFD}');
            assert(chars@ + decoded_text(units@.skip(i + 1)) =~= before + (seq!['\u{FFFD}']
                + decoded_text(rest.skip(1))));
            i = i + 1;
        }
    }
    assert(decoded_text(units@.skip(i as int)) =~= Seq::empty());
    assert(chars@ =~= decoded_text(units@));
    chars
}

/// Decodes units and leaves out the NULs at the end.
pub fn text_of_wide(units: &Vec<u16>) -> (text: String)
    ensures
        text@ == without_trailing_nuls(decoded_text(units@)),
{
    let mut chars = decode_wide(units);
    while chars.len() > 0 && chars[chars.len() - 1] == '\0'
        invariant
            without_trailing_nuls(chars@) == without_trailing_nuls(decoded_text(units@)),
        decreases chars.len(),
    {
        let ghost before = chars@;
        chars.pop();
        assert(chars@ =~= before.drop_last());
    }
    crate::text::string_of(&chars)
}

// ---- laws ----

/// Text that was encoded decodes to itself, whatever follows it.
pub proof fn encoded_text_decodes_to_itself(text: Seq<char>, rest: Seq<u16>)
    ensures
        decoded_text(encoded(text) + rest) == text + decoded_text(rest),
        decoded_text(encoded(text)) == text,
    decreases text.len(),
{
    if text.len() == 0 {
        assert(encoded(text) + rest =~= rest);
        assert(text + decoded_text(rest) =~= decoded_text(rest));
    } else {
        encoded_text_decodes_to_itself(text.skip(1), rest);
        lemma_first_decodes(text[0], encoded(text.skip(1)) + rest);
        lemma_first_decodes(text[0], encoded(text.skip(1)));
        assert(encoded(text) + rest =~= units_of(text[0]) + (encoded(text.skip(1)) + rest));
        assert(seq![text[0]] + (text.skip(1) + decoded_text(rest)) =~= text + decoded_text(rest));
        assert(seq![text[0]] + text.skip(1) =~= text);
    }
}

/// The units of a character decode to it.
proof fn lemma_first_decodes(c: char, rest: Seq<u16>)
    ensures
        decoded_text(units_of(c) + rest) == seq![c] + decoded_text(rest),
{
    let units = units_of(c) + rest;
    if (c as int) < 0x10000 {
        assert(units.skip(1) =~= rest);
        assert(units[0] as char == c);
    } else {
        assert(units.skip(2) =~= rest);
        assert(paired(units[0], units[1]) == c);
    }
}

/// A name that was written into a fixed field, padded with NULs, reads back, unless it ends
/// with a NUL itself.
pub proof fn padded_text_reads_back(text: Seq<char>, padding: nat)
    requires
        text.len() == 0 || text.last() != '\0',
    ensures
        without_trailing_nuls(decoded_text(encoded(text) + Seq::new(padding, |i: int| 0u16)))
            == text,
{
    let zeros = Seq::new(padding, |i: int| 0u16);
    encoded_text_decodes_to_itself(text, zeros);
    lemma_zeros_are_trimmed(text, padding);
}

/// NULs at the end are left out.
proof fn lemma_zeros_are_trimmed(text: Seq<char>, padding: nat)
    requires
        text.len() == 0 || text.last() != '\0',
    ensures
        without_trailing_nuls(text + decoded_text(Seq::new(padding, |i: int| 0u16))) == text,
    decreases padding,
{
    lemma_zeros_decode(padding);
    let nuls = Seq::new(padding, |i: int| '\0');
    if padding == 0 {
        assert(text + nuls =~= text);
    } else {
        let fewer = (padding - 1) as nat;
        lemma_zeros_are_trimmed(text, fewer);
        lemma_zeros_decode(fewer);
        assert((text + nuls).drop_last() =~= text + Seq::new(fewer, |i: int| '\0'));
        assert((text + nuls).last() == '\0');
    }
}

/// Zeros decode to NULs.
proof fn lemma_zeros_decode(padding: nat)
    ensures
        decoded_text(Seq::new(padding, |i: int| 0u16)) == Seq::new(padding, |i: int| '\0'),
    decreases padding,
{
    let zeros = Seq::new(padding, |i: int| 0u16);
    if padding > 0 {
        let fewer = (padding - 1) as nat;
        lemma_zeros_decode(fewer);
        assert(zeros.skip(1) =~= Seq::new(fewer, |i: int| 0u16));
        assert(seq!['\0'] + Seq::new(fewer, |i: int| '\0') =~= Seq::new(padding, |i: int| '\0'));
        assert(zeros[0] as char == '\0');
    } else {
        assert(decoded_text(zeros) =~= Seq::new(padding, |i: int| '\0'));
    }
}

/// A character below 0x10000 is one unit, its own number; any other is a high and a low
/// surrogate, which together hold the character's number less 0x10000, ten bits each.
pub proof fn characters_encode_by_their_number(c: char)
    ensures
        (c as int) < 0x10000 ==> units_of(c).len() == 1 && units_of(c)[0] == c as int,
        (c as int) >= 0x10000 ==> {
            &&& units_of(c).len() == 2
            &&& 0xD800 <= units_of(c)[0] <= 0xDBFF
            &&& 0xDC00 <= units_of(c)[1] <= 0xDFFF
            &&& (units_of(c)[0] - 0xD800) * 0x400 + (units_of(c)[1] - 0xDC00) == c as int - 0x10000
        },
{
}

/// Units decode from the front: one that is no surrogate is the character of its number, a high
/// one followed by a low one is one character, and any other surrogate is replaced.
pub proof fn stray_surrogates_are_replaced(units: Seq<u16>)
    ensures
        units.len() > 0 && !(0xD800 <= units[0] <= 0xDFFF) ==> decoded_text(units) == seq![
            units[0] as char,
        ] + decoded_text(units.skip(1)),
        units.len() > 0 && 0xDC00 <= units[0] <= 0xDFFF ==> decoded_text(units) == seq!['\u{FFFD}']
            + decoded_text(units.skip(1)),
        units.len() > 0 && 0xD800 <= units[0] <= 0xDBFF && !(units.len() > 1 && 0xDC00 <= units[1]
            <= 0xDFFF) ==> decoded_text(units) == seq!['\u{FFFD}'] + decoded_text(units.skip(1)),
        units.len() > 1 && 0xD800 <= units[0] <= 0xDBFF && 0xDC00 <= units[1] <= 0xDFFF
            ==> decoded_text(units) == seq![
            (0x10000 + (units[0] - 0xD800) * 0x400 + (units[1] - 0xDC00)) as char,
        ] + decoded_text(units.skip(2)),
        decoded_text(Seq::empty()) == Seq::<char>::empty(),
{
}

/// What is left without trailing NULs ends in none, begins as before, and lacks NULs alone.
pub proof fn trailing_nuls_are_left_out(text: Seq<char>, i: int)
    ensures
        ({
            let left = without_trailing_nuls(text);
            &&& left.len() <= text.len()
            &&& left.len() > 0 ==> left.last() != '\0'
            &&& 0 <= i < left.len() ==> left[i] == text[i]
            &&& left.len() <= i < text.len() ==> text[i] == '\0'
        }),
    decreases text.len(),
{
    if text.len() > 0 && text.last() == '\0' {
        trailing_nuls_are_left_out(text.drop_last(), i);
    }
}

} // verus!
