//! Numerals, words and lines: the small pieces of text that addresses and configuration files
//! are made of.
//!
//! Text is modelled as a sequence of characters. Splitting is defined once, for an arbitrary
//! separator test, and the rest is stated over it.

use crate::gather::gathered;
use crate::gather::given;
use crate::gather::lemma_gathered_origin;
use vstd::prelude::*;

verus! {

/// `String::push` appends one character to the end of the string.
pub assume_specification[ String::push ](text: &mut String, c: char)
    ensures
        final(text)@ == old(text)@.push(c),
;

// ---- numerals ----

/// The character for one digit: `0` to `9`, then `a` to `f`.
pub open spec fn digit_char(digit: int) -> char {
    if digit < 10 {
        (48 + digit) as char
    } else {
        (87 + digit) as char
    }
}

/// The number that one digit stands for, in either letter case.
pub open spec fn digit_value(c: char) -> Option<int> {
    if '0' <= c <= '9' {
        Some(c as int - 48)
    } else if 'a' <= c <= 'f' {
        Some(c as int - 87)
    } else if 'A' <= c <= 'F' {
        Some(c as int - 55)
    } else {
        None
    }
}

/// The numeral for `n` in the given base, without leading zeros.
pub open spec fn numeral(n: nat, base: nat) -> Seq<char>
    recommends
        2 <= base <= 16,
    decreases n,
{
    if base < 2 || n < base {
        seq![digit_char(n as int)]
    } else {
        proof {
            assert(n / base < n) by (nonlinear_arith)
                requires
                    n >= base,
                    base >= 2,
            ;
        }
        numeral(n / base, base).push(digit_char((n % base) as int))
    }
}

/// The number that a row of digits stands for, `0` for the empty row.
pub open spec fn digits_value(digits: Seq<char>, base: nat) -> Option<nat>
    decreases digits.len(),
{
    if digits.len() == 0 {
        Some(0)
    } else {
        match (digits_value(digits.drop_last(), base), digit_value(digits.last())) {
            (Some(high), Some(low)) => if low < base {
                Some((high * base + low) as nat)
            } else {
                None
            },
            _ => None,
        }
    }
}

/// Every digit reads back as itself.
proof fn lemma_digit(digit: int)
    requires
        0 <= digit < 16,
    ensures
        digit_value(digit_char(digit)) == Some(digit),
{
}

/// A numeral reads back as its number, has at least one digit, and starts with a zero only
/// when it is the numeral for zero.
pub proof fn lemma_numeral(n: nat, base: nat)
    requires
        2 <= base <= 16,
    ensures
        digits_value(numeral(n, base), base) == Some(n),
        numeral(n, base).len() >= 1,
        numeral(n, base)[0] == '0' ==> n == 0,
        n == 0 ==> numeral(n, base) == seq!['0'],
        forall|i: int|
            0 <= i < numeral(n, base).len() ==> digit_value(#[trigger] numeral(n, base)[i])
                is Some,
    decreases n,
{
    let text = numeral(n, base);
    if n < base {
        lemma_digit(n as int);
        assert(text.drop_last() =~= Seq::empty());
        assert(digits_value(text.drop_last(), base) == Some(0nat));
        assert(0 * base == 0) by (nonlinear_arith);
    } else {
        assert(n / base < n) by (nonlinear_arith)
            requires
                n >= base,
                base >= 2,
        ;
        lemma_numeral(n / base, base);
        let low = (n % base) as int;
        assert(0 <= low < base) by (nonlinear_arith)
            requires
                base >= 2,
                low == n % base,
        ;
        lemma_digit(low);
        assert(text.drop_last() =~= numeral(n / base, base));
        assert((n / base) * base + n % base == n) by (nonlinear_arith)
            requires
                base >= 2,
        ;
        assert(n / base != 0) by (nonlinear_arith)
            requires
                n >= base,
                base >= 2,
        ;
        assert(text[0] == numeral(n / base, base)[0]);
    }
}

/// A number below `base * bound` has at most one digit more than one below `bound`.
pub proof fn lemma_numeral_len(n: nat, base: nat, width: nat)
    requires
        2 <= base <= 16,
        n < power(base, width),
        width >= 1,
    ensures
        numeral(n, base).len() <= width,
    decreases width,
{
    reveal_with_fuel(power, 2);
    if n >= base {
        if width == 1 {
            assert(power(base, 1) == base * power(base, 0));
            assert(base * 1 == base) by (nonlinear_arith);
            assert(false);
        }
        let rest = (width - 1) as nat;
        assert(n / base < power(base, rest)) by (nonlinear_arith)
            requires
                base >= 2,
                n < base * power(base, rest),
        ;
        lemma_numeral_len(n / base, base, rest);
    }
}

/// `base` to the power of `exponent`.
pub open spec fn power(base: nat, exponent: nat) -> nat
    decreases exponent,
{
    if exponent == 0 {
        1
    } else {
        base * power(base, (exponent - 1) as nat)
    }
}

/// Appends the digit for `digit`.
fn push_digit(text: &mut String, digit: u8)
    requires
        digit < 16,
    ensures
        final(text)@ == old(text)@.push(digit_char(digit as int)),
{
    let code: u8 = if digit < 10 {
        48 + digit
    } else {
        87 + digit
    };
    text.push(code as char);
}

/// Appends the numeral for `n` in the given base.
pub fn push_numeral(text: &mut String, n: u64, base: u64)
    requires
        2 <= base <= 16,
    ensures
        final(text)@ == old(text)@ + numeral(n as nat, base as nat),
    decreases n,
{
    if n < base {
        push_digit(text, n as u8);
        assert(text@ =~= old(text)@ + numeral(n as nat, base as nat));
    } else {
        let high: u64 = n / base;
        let low: u64 = n % base;
        assert(high < n) by (nonlinear_arith)
            requires
                n >= base,
                base >= 2,
                high == n / base,
        ;
        push_numeral(text, high, base);
        push_digit(text, low as u8);
        assert(text@ =~= old(text)@ + numeral(n as nat, base as nat));
    }
}

/// Appends the decimal numeral for a signed number, with a minus sign when it is negative.
pub fn push_signed(text: &mut String, n: i64)
    ensures
        final(text)@ == old(text)@ + signed_numeral(n as int),
{
    if n < 0 {
        text.push('-');
        let magnitude: u64 = (-(n as i128)) as u64;
        push_numeral(text, magnitude, 10);
        assert(text@ =~= old(text)@ + signed_numeral(n as int));
    } else {
        push_numeral(text, n as u64, 10);
    }
}

/// The decimal numeral for `n`, with a minus sign when it is negative.
pub open spec fn signed_numeral(n: int) -> Seq<char> {
    if n < 0 {
        seq!['-'] + numeral((-n) as nat, 10)
    } else {
        numeral(n as nat, 10)
    }
}

/// Reads a row of at most `width` digits in the given base.
///
/// The result is absent when a character is no digit of the base, or when there is no digit or
/// more than `width` of them.
pub fn read_digits(digits: &Vec<char>, base: u32, width: usize) -> (value: Option<u32>)
    requires
        base == 10 && width <= 3 || base == 16 && width <= 4,
    ensures
        value == number_in(digits@, base as nat, width as nat),
{
    if digits.len() == 0 || digits.len() > width {
        return None;
    }
    let mut value: u32 = 0;
    let mut i: usize = 0;
    while i < digits.len()
        invariant
            i <= digits.len() <= width,
            base == 10 && width <= 3 || base == 16 && width <= 4,
            digits_value(digits@.take(i as int), base as nat) == Some(value as nat),
            i == 0 ==> value == 0,
            i == 1 ==> value < base,
            i == 2 ==> value < base * base,
            i == 3 ==> value < base * base * base,
            i == 4 ==> value < 65536,
        decreases digits.len() - i,
    {
        let c: char = digits[i];
        proof {
            let longer = digits@.take(i + 1);
            assert(longer.drop_last() =~= digits@.take(i as int));
            assert(longer.last() == c);
        }
        let low: u32 = if '0' <= c && c <= '9' {
            c as u32 - 48
        } else if 'a' <= c && c <= 'f' {
            c as u32 - 87
        } else if 'A' <= c && c <= 'F' {
            c as u32 - 55
        } else {
            proof {
                lemma_bad_prefix(digits@, base as nat, i + 1);
            }
            return None;
        };
        if low >= base {
            proof {
                lemma_bad_prefix(digits@, base as nat, i + 1);
            }
            return None;
        }
        value = value * base + low;
        i = i + 1;
    }
    assert(digits@.take(i as int) =~= digits@);
    Some(value)
}

/// The number that between one and `width` digits stand for.
pub open spec fn number_in(digits: Seq<char>, base: nat, width: nat) -> Option<u32> {
    if 1 <= digits.len() <= width {
        match digits_value(digits, base) {
            Some(value) => Some(value as u32),
            None => None,
        }
    } else {
        None
    }
}

/// A row of digits that is spoilt at some point stays so.
proof fn lemma_bad_prefix(digits: Seq<char>, base: nat, n: int)
    requires
        0 <= n <= digits.len(),
        digits_value(digits.take(n), base) is None,
    ensures
        digits_value(digits, base) is None,
    decreases digits.len() - n,
{
    if n == digits.len() {
        assert(digits.take(n) =~= digits);
    } else {
        let longer = digits.take(n + 1);
        assert(longer.drop_last() =~= digits.take(n));
        lemma_bad_prefix(digits, base, n + 1);
    }
}

// ---- pieces ----

/// The pieces of `text` between separators; there is one more of them than there are
/// separators.
pub open spec fn pieces(text: Seq<char>, separates: spec_fn(char) -> bool) -> Seq<Seq<char>>
    decreases text.len(),
{
    if text.len() == 0 {
        seq![Seq::empty()]
    } else {
        let before = pieces(text.drop_last(), separates);
        if separates(text.last()) {
            before.push(Seq::empty())
        } else {
            before.drop_last().push(before.last().push(text.last()))
        }
    }
}

/// The test for one separating character.
pub open spec fn exactly(separator: char) -> spec_fn(char) -> bool {
    |c: char| c == separator
}

/// `parts` with `separator` between each two of them.
pub open spec fn join(parts: Seq<Seq<char>>, separator: char) -> Seq<char>
    decreases parts.len(),
{
    if parts.len() == 0 {
        Seq::empty()
    } else if parts.len() == 1 {
        parts[0]
    } else {
        join(parts.drop_last(), separator).push(separator) + parts.last()
    }
}

/// No character of `text` separates.
pub open spec fn unbroken(text: Seq<char>, separates: spec_fn(char) -> bool) -> bool {
    forall|i: int| 0 <= i < text.len() ==> !separates(#[trigger] text[i])
}

/// There is at least one piece.
pub proof fn lemma_pieces_some(text: Seq<char>, separates: spec_fn(char) -> bool)
    ensures
        pieces(text, separates).len() >= 1,
    decreases text.len(),
{
    if text.len() > 0 {
        lemma_pieces_some(text.drop_last(), separates);
    }
}

/// Text without separators is one piece.
pub proof fn lemma_pieces_unbroken(text: Seq<char>, separates: spec_fn(char) -> bool)
    requires
        unbroken(text, separates),
    ensures
        pieces(text, separates) == seq![text],
    decreases text.len(),
{
    if text.len() > 0 {
        let shorter = text.drop_last();
        assert forall|i: int| 0 <= i < shorter.len() implies !separates(#[trigger] shorter[i]) by {
            assert(shorter[i] == text[i]);
        }
        lemma_pieces_unbroken(shorter, separates);
        assert(!separates(text[text.len() - 1]));
        assert(shorter.push(text.last()) =~= text);
        assert(pieces(text, separates) =~= seq![text]);
    } else {
        assert(text =~= Seq::empty());
        assert(pieces(text, separates) =~= seq![text]);
    }
}

/// Where two texts meet, the last piece of the first and the first piece of the second become
/// one.
pub proof fn lemma_pieces_append(
    left: Seq<char>,
    right: Seq<char>,
    separates: spec_fn(char) -> bool,
)
    ensures
        pieces(left + right, separates) == pieces(left, separates).drop_last() + seq![
            pieces(left, separates).last() + pieces(right, separates)[0],
        ] + pieces(right, separates).skip(1),
    decreases right.len(),
{
    lemma_pieces_some(left, separates);
    lemma_pieces_some(right, separates);
    let ahead = pieces(left, separates);
    if right.len() == 0 {
        assert(left + right =~= left);
        assert(ahead.last() + Seq::<char>::empty() =~= ahead.last());
        assert(pieces(right, separates).skip(1) =~= Seq::empty());
        assert(ahead =~= ahead.drop_last() + seq![ahead.last()] + Seq::<Seq<char>>::empty());
    } else {
        let shorter = right.drop_last();
        let c = right.last();
        lemma_pieces_some(shorter, separates);
        lemma_pieces_append(left, shorter, separates);
        assert((left + right).drop_last() =~= left + shorter);
        assert((left + right).last() == c);
        let met = pieces(left + shorter, separates);
        let tail = pieces(shorter, separates);
        if separates(c) {
            assert(pieces(right, separates).skip(1) =~= tail.skip(1).push(Seq::empty()));
            assert(pieces(left + right, separates) =~= ahead.drop_last() + seq![
                ahead.last() + pieces(right, separates)[0],
            ] + pieces(right, separates).skip(1));
        } else {
            assert(met.len() == ahead.len() + tail.len() - 1);
            if tail.len() == 1 {
                assert(met.last() == ahead.last() + tail[0]);
                assert((ahead.last() + tail[0]).push(c) =~= ahead.last() + tail[0].push(c));
            } else {
                assert(met.last() == tail.last());
            }
            assert(pieces(left + right, separates) =~= ahead.drop_last() + seq![
                ahead.last() + pieces(right, separates)[0],
            ] + pieces(right, separates).skip(1));
        }
    }
}

/// What follows a separator is split on its own.
pub proof fn lemma_pieces_after_separator(
    left: Seq<char>,
    separator: char,
    right: Seq<char>,
    separates: spec_fn(char) -> bool,
)
    requires
        separates(separator),
    ensures
        pieces(left.push(separator) + right, separates) == pieces(left, separates) + pieces(
            right,
            separates,
        ),
{
    let closed = left.push(separator);
    lemma_pieces_some(left, separates);
    lemma_pieces_some(right, separates);
    lemma_pieces_append(closed, right, separates);
    assert(closed.drop_last() =~= left);
    let empty = Seq::<char>::empty();
    let tail = pieces(right, separates);
    assert(pieces(closed, separates) == pieces(left, separates).push(empty));
    assert(empty + tail[0] =~= tail[0]);
    assert(pieces(closed + right, separates) =~= pieces(left, separates) + tail);
}

/// Joined parts that hold no separator come apart again.
pub proof fn lemma_pieces_join(
    parts: Seq<Seq<char>>,
    separator: char,
    separates: spec_fn(char) -> bool,
)
    requires
        parts.len() >= 1,
        separates(separator),
        forall|i: int| 0 <= i < parts.len() ==> unbroken(#[trigger] parts[i], separates),
    ensures
        pieces(join(parts, separator), separates) == parts,
    decreases parts.len(),
{
    let last = parts.last();
    assert(unbroken(parts[parts.len() - 1], separates));
    lemma_pieces_unbroken(last, separates);
    if parts.len() == 1 {
        assert(parts =~= seq![last]);
    } else {
        let ahead = parts.drop_last();
        assert forall|i: int| 0 <= i < ahead.len() implies unbroken(
            #[trigger] ahead[i],
            separates,
        ) by {
            assert(ahead[i] == parts[i]);
        }
        lemma_pieces_join(ahead, separator, separates);
        lemma_pieces_after_separator(join(ahead, separator), separator, last, separates);
        assert(ahead + seq![last] =~= parts);
    }
}

/// The texts that a list of character rows holds.
pub open spec fn rows(list: Seq<Vec<char>>) -> Seq<Seq<char>> {
    list.map_values(|row: Vec<char>| row@)
}

/// The texts that a list of strings holds.
pub open spec fn texts(list: Seq<String>) -> Seq<Seq<char>> {
    list.map_values(|text: String| text@)
}

/// The characters of `text`.
pub fn chars_of(text: &str) -> (chars: Vec<char>)
    ensures
        chars@ == text@,
{
    let mut chars: Vec<char> = Vec::new();
    for c in it: text.chars()
        invariant
            it.seq() == text@,
            chars@ == it.seq().take(it.index() as int),
    {
        chars.push(c);
    }
    chars
}

/// Appends every character of `chars`.
pub fn push_chars(text: &mut String, chars: &Vec<char>)
    ensures
        final(text)@ == old(text)@ + chars@,
{
    let mut i: usize = 0;
    assert(text@ =~= old(text)@ + chars@.take(0));
    while i < chars.len()
        invariant
            i <= chars.len(),
            text@ == old(text)@ + chars@.take(i as int),
        decreases chars.len() - i,
    {
        text.push(chars[i]);
        i = i + 1;
        assert(text@ =~= old(text)@ + chars@.take(i as int));
    }
    assert(chars@.take(i as int) =~= chars@);
}

/// The string made of `chars`.
pub fn string_of(chars: &Vec<char>) -> (text: String)
    ensures
        text@ == chars@,
{
    let mut text = String::new();
    push_chars(&mut text, chars);
    assert(text@ =~= chars@);
    text
}

/// Whether two rows hold the same characters.
pub fn same_chars(left: &Vec<char>, right: &Vec<char>) -> (same: bool)
    ensures
        same == (left@ == right@),
{
    if left.len() != right.len() {
        return false;
    }
    let mut i: usize = 0;
    while i < left.len()
        invariant
            i <= left.len() == right.len(),
            forall|k: int| 0 <= k < i ==> left[k] == right[k],
        decreases left.len() - i,
    {
        if left[i] != right[i] {
            return false;
        }
        i = i + 1;
    }
    assert(left@ =~= right@);
    true
}

/// Splits `text` at every `separator`.
pub fn split_at_char(text: &Vec<char>, separator: char) -> (parts: Vec<Vec<char>>)
    ensures
        rows(parts@) == pieces(text@, exactly(separator)),
{
    let mut parts: Vec<Vec<char>> = Vec::new();
    let mut current: Vec<char> = Vec::new();
    let mut i: usize = 0;
    assert(rows(parts@).push(current@) =~= pieces(text@.take(0), exactly(separator)));
    while i < text.len()
        invariant
            i <= text.len(),
            rows(parts@).push(current@) == pieces(text@.take(i as int), exactly(separator)),
        decreases text.len() - i,
    {
        let c: char = text[i];
        let ghost before = rows(parts@).push(current@);
        let ghost shorter = text@.take(i as int);
        i = i + 1;
        proof {
            assert(text@.take(i as int).drop_last() =~= shorter);
            assert(before.drop_last() =~= rows(parts@));
        }
        if c == separator {
            let ghost done = rows(parts@);
            let ghost row = current;
            parts.push(current);
            current = Vec::new();
            proof {
                assert(rows(parts@) =~= done.push(row@));
            }
        } else {
            current.push(c);
        }
        assert(rows(parts@).push(current@) =~= pieces(text@.take(i as int), exactly(separator)));
    }
    assert(text@.take(i as int) =~= text@);
    let ghost done = rows(parts@);
    let ghost row = current;
    parts.push(current);
    assert(rows(parts@) =~= done.push(row@));
    parts
}

// ---- words ----

/// The white space that separates words: the characters with the Unicode `White_Space`
/// property.
pub open spec fn is_space(c: char) -> bool {
    ||| 0x9 <= c as int <= 0xd
    ||| c as int == 0x20
    ||| c as int == 0x85
    ||| c as int == 0xa0
    ||| c as int == 0x1680
    ||| 0x2000 <= c as int <= 0x200a
    ||| c as int == 0x2028
    ||| c as int == 0x2029
    ||| c as int == 0x202f
    ||| c as int == 0x205f
    ||| c as int == 0x3000
}

/// The test for white space.
pub open spec fn space() -> spec_fn(char) -> bool {
    |c: char| is_space(c)
}

/// The words of a text, in order: its pieces between white space, without the empty ones.
pub open spec fn words(text: Seq<char>) -> Seq<Seq<char>> {
    nonempty(pieces(text, space()))
}

/// The texts of a list that are not empty, in order.
pub open spec fn nonempty(list: Seq<Seq<char>>) -> Seq<Seq<char>> {
    gathered(list.len(), |i: int| given(list[i].len() > 0, list[i]))
}

/// Dropping empty texts goes text by text.
pub proof fn lemma_nonempty_push(list: Seq<Seq<char>>, text: Seq<char>)
    ensures
        nonempty(list.push(text)) == nonempty(list) + given(text.len() > 0, text),
{
    let longer = list.push(text);
    crate::gather::lemma_gathered_congruent(
        list.len(),
        |i: int| given(longer[i].len() > 0, longer[i]),
        |i: int| given(list[i].len() > 0, list[i]),
    );
}

/// A list without empty texts is kept whole.
pub proof fn lemma_nonempty_all(list: Seq<Seq<char>>)
    requires
        forall|i: int| 0 <= i < list.len() ==> (#[trigger] list[i]).len() > 0,
    ensures
        nonempty(list) == list,
{
    let piece = |i: int| given(list[i].len() > 0, list[i]);
    crate::gather::lemma_gathered_singles(list.len(), piece);
    assert forall|i: int| 0 <= i < list.len() implies nonempty(list)[i] == list[i] by {
        assert(nonempty(list)[i] == piece(i)[0]);
    }
    assert(nonempty(list) =~= list);
}

/// Whether a character is white space.
fn is_space_char(c: char) -> (found: bool)
    ensures
        found == is_space(c),
{
    let code: u32 = c as u32;
    (0x9 <= code && code <= 0xd) || code == 0x20 || code == 0x85 || code == 0xa0 || code == 0x1680
        || (0x2000 <= code && code <= 0x200a) || code == 0x2028 || code == 0x2029 || code == 0x202f
        || code == 0x205f || code == 0x3000
}

/// Splits a text into its words.
pub fn split_words(text: &Vec<char>) -> (list: Vec<Vec<char>>)
    ensures
        rows(list@) == words(text@),
{
    let mut list: Vec<Vec<char>> = Vec::new();
    let mut current: Vec<char> = Vec::new();
    let mut i: usize = 0;
    assert(pieces(text@.take(0), space()).drop_last() =~= Seq::empty());
    assert(rows(list@) =~= nonempty(Seq::empty()));
    while i < text.len()
        invariant
            i <= text.len(),
            pieces(text@.take(i as int), space()).len() >= 1,
            pieces(text@.take(i as int), space()).last() == current@,
            rows(list@) == nonempty(pieces(text@.take(i as int), space()).drop_last()),
        decreases text.len() - i,
    {
        let c: char = text[i];
        let ghost before = pieces(text@.take(i as int), space());
        i = i + 1;
        proof {
            assert(text@.take(i as int).drop_last() =~= text@.take(i - 1));
            lemma_nonempty_push(before.drop_last(), before.last());
            assert(before.drop_last().push(before.last()) =~= before);
        }
        let ghost after = pieces(text@.take(i as int), space());
        if is_space_char(c) {
            assert(after.drop_last() =~= before);
            if current.len() > 0 {
                let ghost kept = rows(list@);
                let ghost row = current;
                list.push(current);
                assert(rows(list@) =~= kept.push(row@));
                assert(kept.push(row@) =~= kept + seq![row@]);
            } else {
                assert(rows(list@) =~= rows(list@) + Seq::empty());
            }
            current = Vec::new();
        } else {
            current.push(c);
            assert(after.drop_last() =~= before.drop_last());
        }
    }
    assert(text@.take(i as int) =~= text@);
    proof {
        let all = pieces(text@, space());
        lemma_nonempty_push(all.drop_last(), all.last());
        assert(all.drop_last().push(all.last()) =~= all);
    }
    if current.len() > 0 {
        let ghost kept = rows(list@);
        let ghost row = current;
        list.push(current);
        assert(rows(list@) =~= kept.push(row@));
        assert(kept.push(row@) =~= kept + seq![row@]);
    } else {
        assert(rows(list@) =~= rows(list@) + Seq::empty());
    }
    list
}

// ---- laws ----

/// White space is what Unicode counts as such.
pub proof fn white_space_is_unicode_white_space(c: char)
    ensures
        is_space(c) <==> (c as int == 0x9 || c as int == 0xa || c as int == 0xb || c as int == 0xc
            || c as int == 0xd || c as int == 0x20 || c as int == 0x85 || c as int == 0xa0
            || c as int == 0x1680 || 0x2000 <= c as int <= 0x200a || c as int == 0x2028 || c as int
            == 0x2029 || c as int == 0x202f || c as int == 0x205f || c as int == 0x3000),
        is_space(' '),
        is_space('\t'),
        is_space('\r'),
        is_space('\n'),
{
}

/// Digits stand for their values: decimal digits for 0 to 9, and letters of either case for 10
/// to 15. A value is written as a decimal digit or a small letter.
pub proof fn digits_stand_for_their_values(digit: int, c: char)
    ensures
        '0' <= c <= '9' ==> digit_value(c) == Some(c as int - '0' as int),
        'a' <= c <= 'f' ==> digit_value(c) == Some(c as int - 'a' as int + 10),
        'A' <= c <= 'F' ==> digit_value(c) == Some(c as int - 'A' as int + 10),
        !('0' <= c <= '9') && !('a' <= c <= 'f') && !('A' <= c <= 'F') ==> digit_value(c) is None,
        0 <= digit < 10 ==> digit_char(digit) as int == '0' as int + digit,
        10 <= digit < 16 ==> digit_char(digit) as int == 'a' as int + digit - 10,
{
}

/// A numeral is the most significant digits followed by the last one.
pub proof fn numerals_are_positional(n: nat, base: nat)
    requires
        2 <= base <= 16,
    ensures
        n < base ==> numeral(n, base) == seq![digit_char(n as int)],
        n >= base ==> numeral(n, base) == numeral(n / base, base).push(
            digit_char((n % base) as int),
        ),
        signed_numeral(n as int) == numeral(n, 10),
        n > 0 ==> signed_numeral(-(n as int)) == seq!['-'] + numeral(n, 10),
{
}

/// Pieces hold no separator, and put together again with it they are the text.
pub proof fn pieces_come_together_again(text: Seq<char>, separator: char)
    ensures
        join(pieces(text, exactly(separator)), separator) == text,
        forall|i: int|
            0 <= i < pieces(text, exactly(separator)).len() ==> unbroken(
                #[trigger] pieces(text, exactly(separator))[i],
                exactly(separator),
            ),
    decreases text.len(),
{
    let all = pieces(text, exactly(separator));
    lemma_pieces_some(text, exactly(separator));
    if text.len() > 0 {
        let shorter = text.drop_last();
        let before = pieces(shorter, exactly(separator));
        pieces_come_together_again(shorter, separator);
        lemma_pieces_some(shorter, exactly(separator));
        if text.last() == separator {
            assert(all.drop_last() =~= before);
            assert(join(all, separator) =~= text);
        } else {
            let c = text.last();
            let front = before.drop_last();
            assert(all.drop_last() =~= front);
            assert(all.last() == before.last().push(c));
            if before.len() == 1 {
                assert(join(all, separator) == all[0]);
                assert(join(before, separator) == before[0]);
            } else {
                assert(join(all, separator) == join(front, separator).push(separator)
                    + before.last().push(c));
                assert(join(before, separator) == join(front, separator).push(separator)
                    + before.last());
            }
            assert(join(all, separator) =~= join(before, separator).push(c));
            assert(text =~= shorter.push(c));
            assert forall|i: int| 0 <= i < all.len() implies unbroken(
                #[trigger] all[i],
                exactly(separator),
            ) by {
                assert(unbroken(before[i], exactly(separator)));
                if i == all.len() - 1 {
                    assert forall|k: int| 0 <= k < all[i].len() implies !exactly(separator)(
                        #[trigger] all[i][k],
                    ) by {
                        if k < before[i].len() {
                            assert(!exactly(separator)(before[i][k]));
                        }
                    }
                }
            }
        }
    } else {
        assert(join(all, separator) == all[0]);
    }
}

/// Words are not empty and hold no white space.
pub proof fn words_hold_no_white_space(text: Seq<char>, i: int, k: int)
    requires
        0 <= i < words(text).len(),
    ensures
        words(text)[i].len() > 0,
        0 <= k < words(text)[i].len() ==> !is_space(words(text)[i][k]),
{
    let list = pieces(text, space());
    let piece = |j: int| given(list[j].len() > 0, list[j]);
    let word = words(text)[i];
    assert(words(text) == gathered(list.len(), piece));
    assert(words(text).contains(word));
    let at = lemma_gathered_origin(list.len(), piece, word);
    lemma_pieces_hold_none(text, space(), at.0);
    if 0 <= k < word.len() {
        assert(!space()(word[k]));
    }
}

/// A piece holds no separator.
proof fn lemma_pieces_hold_none(text: Seq<char>, separates: spec_fn(char) -> bool, i: int)
    requires
        0 <= i < pieces(text, separates).len(),
    ensures
        unbroken(pieces(text, separates)[i], separates),
    decreases text.len(),
{
    if text.len() > 0 {
        let before = pieces(text.drop_last(), separates);
        lemma_pieces_some(text.drop_last(), separates);
        if i < before.len() {
            lemma_pieces_hold_none(text.drop_last(), separates, i);
        }
    }
}

/// A decimal number without a needless leading zero is written in one way alone.
pub proof fn lemma_decimal_is_canonical(digits: Seq<char>)
    requires
        digits.len() >= 1,
        digits.len() > 1 ==> digits[0] != '0',
    ensures
        digits_value(digits, 10) matches Some(value) ==> numeral(value, 10) == digits && (
        digits[0] != '0' ==> value > 0),
    decreases digits.len(),
{
    reveal_with_fuel(digits_value, 2);
    if let Some(value) = digits_value(digits, 10) {
        let before = digits.drop_last();
        let last = digits.last();
        let high = digits_value(before, 10)->0;
        let low = digit_value(last)->0;
        assert(value == high * 10 + low && 0 <= low < 10);
        assert(digit_char(low) == last);
        if digits.len() == 1 {
            assert(before =~= Seq::empty());
            assert(high == 0);
            assert(numeral(value, 10) =~= digits);
        } else {
            assert(before[0] == digits[0]);
            lemma_decimal_is_canonical(before);
            assert(high > 0);
            assert(value / 10 == high && value % 10 == low);
            assert(numeral(value, 10) == numeral(high, 10).push(digit_char(low)));
            assert(numeral(value, 10) =~= digits);
        }
    }
}

} // verus!
