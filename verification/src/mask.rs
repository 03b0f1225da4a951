//! Prefix masks as rows of bytes.

use vstd::prelude::*;

verus! {

/// The byte whose leading `ones` bits are set, and no others.
pub open spec fn ones_byte(ones: int) -> u8 {
    if ones <= 0 {
        0x00
    } else if ones == 1 {
        0x80
    } else if ones == 2 {
        0xc0
    } else if ones == 3 {
        0xe0
    } else if ones == 4 {
        0xf0
    } else if ones == 5 {
        0xf8
    } else if ones == 6 {
        0xfc
    } else if ones == 7 {
        0xfe
    } else {
        0xff
    }
}

/// A row of `width` bytes whose leading `prefix` bits are set, and no others.
pub open spec fn prefix_mask(prefix: int, width: nat) -> Seq<u8> {
    Seq::new(width, |k: int| ones_byte(prefix - 8 * k))
}

/// How many leading bits of a byte are set.
pub open spec fn byte_ones(byte: u8) -> nat {
    if byte < 0x80 {
        0
    } else if byte < 0xc0 {
        1
    } else if byte < 0xe0 {
        2
    } else if byte < 0xf0 {
        3
    } else if byte < 0xf8 {
        4
    } else if byte < 0xfc {
        5
    } else if byte < 0xfe {
        6
    } else if byte < 0xff {
        7
    } else {
        8
    }
}

/// How many leading bits of a row of bytes are set.
pub open spec fn leading_ones(bytes: Seq<u8>) -> nat
    decreases bytes.len(),
{
    if bytes.len() == 0 {
        0
    } else if bytes[0] == 0xff {
        8 + leading_ones(bytes.skip(1))
    } else {
        byte_ones(bytes[0])
    }
}

/// The number that four bytes, most significant first, stand for.
pub open spec fn number_of(bytes: Seq<u8>) -> u32 {
    (bytes[0] * 0x100_0000 + bytes[1] * 0x1_0000 + bytes[2] * 0x100 + bytes[3]) as u32
}

/// The four bytes of a number, most significant first.
pub open spec fn bytes_of(number: u32) -> Seq<u8> {
    seq![
        (number / 0x100_0000) as u8,
        (number / 0x1_0000 % 0x100) as u8,
        (number / 0x100 % 0x100) as u8,
        (number % 0x100) as u8,
    ]
}

/// Counting the leading bits of a prefix mask gives the prefix back.
pub proof fn mask_counts_back_to_its_prefix(prefix: int, width: nat)
    requires
        0 <= prefix <= 8 * width,
    ensures
        leading_ones(prefix_mask(prefix, width)) == prefix,
    decreases width,
{
    let mask = prefix_mask(prefix, width);
    if width > 0 {
        if prefix >= 8 {
            let rest = (width - 1) as nat;
            mask_counts_back_to_its_prefix(prefix - 8, rest);
            assert(mask.skip(1) =~= prefix_mask(prefix - 8, rest));
        }
    }
}

/// In a prefix mask, exactly the bits before the prefix's end are set.
pub proof fn mask_sets_exactly_the_leading_bits(prefix: int, width: nat, bit: u8, k: int)
    requires
        0 <= k < width,
        bit < 8,
    ensures
        (prefix_mask(prefix, width)[k] >> ((7 - bit) as u8)) & 1 == 1 <==> 8 * k + bit < prefix,
{
    let shift: u8 = (7 - bit) as u8;
    let ones = prefix - 8 * k;
    let byte: u8 = ones_byte(ones);
    assert(prefix_mask(prefix, width)[k] == byte);
    assert(bit < 8 && shift == 7 - bit ==> {
        &&& (0x00u8 >> shift) & 1 == 0
        &&& ((0x80u8 >> shift) & 1 == 1 <==> bit < 1)
        &&& ((0xc0u8 >> shift) & 1 == 1 <==> bit < 2)
        &&& ((0xe0u8 >> shift) & 1 == 1 <==> bit < 3)
        &&& ((0xf0u8 >> shift) & 1 == 1 <==> bit < 4)
        &&& ((0xf8u8 >> shift) & 1 == 1 <==> bit < 5)
        &&& ((0xfcu8 >> shift) & 1 == 1 <==> bit < 6)
        &&& ((0xfeu8 >> shift) & 1 == 1 <==> bit < 7)
        &&& (0xffu8 >> shift) & 1 == 1
    }) by (bit_vector);
}

/// The quotients and remainders that take a number apart into its digits in base 256.
proof fn lemma_base_256(n: int, a: int, b: int, c: int, d: int)
    requires
        0 <= a < 0x100,
        0 <= b < 0x100,
        0 <= c < 0x100,
        0 <= d < 0x100,
        n == a * 0x100_0000 + b * 0x1_0000 + c * 0x100 + d,
    ensures
        n / 0x100_0000 == a,
        n / 0x1_0000 % 0x100 == b,
        n / 0x100 % 0x100 == c,
        n % 0x100 == d,
        0 <= n < 0x1_0000_0000,
{
    assert(n / 0x100 == a * 0x1_0000 + b * 0x100 + c);
    assert(n / 0x1_0000 == a * 0x100 + b);
}

/// Four bytes and the number they stand for determine each other.
pub proof fn number_and_bytes_agree(bytes: Seq<u8>, number: u32)
    requires
        bytes.len() == 4,
    ensures
        bytes_of(number_of(bytes)) == bytes,
        number_of(bytes_of(number)) == number,
{
    let n = bytes[0] * 0x100_0000 + bytes[1] * 0x1_0000 + bytes[2] * 0x100 + bytes[3];
    lemma_base_256(n, bytes[0] as int, bytes[1] as int, bytes[2] as int, bytes[3] as int);
    assert(number_of(bytes) == n);
    assert(bytes_of(number_of(bytes)) =~= bytes);
    let m = number as int;
    assert(m / 0x1_0000 == (m / 0x100) / 0x100);
    assert(m / 0x100_0000 == (m / 0x1_0000) / 0x100);
    assert(m == (m / 0x100_0000) * 0x100_0000 + (m / 0x1_0000 % 0x100) * 0x1_0000 + (m / 0x100
        % 0x100) * 0x100 + m % 0x100);
}

/// Returns the byte whose leading `ones` bits are set.
fn ones_byte_of(ones: u32) -> (byte: u8)
    ensures
        byte == ones_byte(ones as int),
{
    match ones {
        0 => 0x00,
        1 => 0x80,
        2 => 0xc0,
        3 => 0xe0,
        4 => 0xf0,
        5 => 0xf8,
        6 => 0xfc,
        7 => 0xfe,
        _ => 0xff,
    }
}

/// Builds the 4-byte mask that covers the leading `prefix` bits.
pub fn ipv4_prefix_mask(prefix: u32) -> (mask: [u8; 4])
    ensures
        mask@ == prefix_mask(prefix as int, 4),
{
    let mut mask: [u8; 4] = [0u8; 4];
    let mut k: usize = 0;
    while k < 4
        invariant
            k <= 4,
            forall|i: int| 0 <= i < k ==> mask@[i] == ones_byte(prefix - 8 * i),
        decreases 4 - k,
    {
        let offset: u32 = k as u32 * 8;
        mask[k] = ones_byte_of(if prefix > offset {
            prefix - offset
        } else {
            0
        });
        k = k + 1;
    }
    assert(mask@ =~= prefix_mask(prefix as int, 4));
    mask
}

/// Builds the 16-byte mask that covers the leading `prefix` bits.
pub fn ipv6_prefix_mask(prefix: u32) -> (mask: [u8; 16])
    ensures
        mask@ == prefix_mask(prefix as int, 16),
{
    let mut mask: [u8; 16] = [0u8; 16];
    let mut k: usize = 0;
    while k < 16
        invariant
            k <= 16,
            forall|i: int| 0 <= i < k ==> mask@[i] == ones_byte(prefix - 8 * i),
        decreases 16 - k,
    {
        let offset: u32 = k as u32 * 8;
        mask[k] = ones_byte_of(if prefix > offset {
            prefix - offset
        } else {
            0
        });
        k = k + 1;
    }
    assert(mask@ =~= prefix_mask(prefix as int, 16));
    mask
}

/// Counts the leading set bits of a row of at most 16 bytes.
pub fn count_leading_ones(bytes: &Vec<u8>) -> (count: u8)
    requires
        bytes.len() <= 16,
    ensures
        count == leading_ones(bytes@),
{
    let mut count: u8 = 0;
    let mut k: usize = 0;
    assert(bytes@.skip(0) =~= bytes@);
    while k < bytes.len()
        invariant
            k <= bytes.len() <= 16,
            count == 8 * k,
            leading_ones(bytes@) == 8 * k + leading_ones(bytes@.skip(k as int)),
        decreases bytes.len() - k,
    {
        let byte: u8 = bytes[k];
        proof {
            assert(bytes@.skip(k as int)[0] == byte);
            assert(bytes@.skip(k as int).skip(1) =~= bytes@.skip(k + 1));
        }
        if byte != 0xff {
            let ones: u8 = if byte < 0x80 {
                0
            } else if byte < 0xc0 {
                1
            } else if byte < 0xe0 {
                2
            } else if byte < 0xf0 {
                3
            } else if byte < 0xf8 {
                4
            } else if byte < 0xfc {
                5
            } else if byte < 0xfe {
                6
            } else {
                7
            };
            return count + ones;
        }
        count = count + 8;
        k = k + 1;
    }
    count
}

/// Returns the number that four bytes, most significant first, stand for.
pub fn number_from_bytes(bytes: &[u8; 4]) -> (number: u32)
    ensures
        number == number_of(bytes@),
        number == bytes@[0] * 0x100_0000 + bytes@[1] * 0x1_0000 + bytes@[2] * 0x100 + bytes@[3],
{
    bytes[0] as u32 * 0x100_0000 + bytes[1] as u32 * 0x1_0000 + bytes[2] as u32 * 0x100
        + bytes[3] as u32
}

/// Returns the four bytes of a number, most significant first.
pub fn number_to_bytes(number: u32) -> (bytes: [u8; 4])
    ensures
        bytes@ == bytes_of(number),
        bytes@[0] * 0x100_0000 + bytes@[1] * 0x1_0000 + bytes@[2] * 0x100 + bytes@[3] == number,
{
    let bytes = [
        (number / 0x100_0000) as u8,
        (number / 0x1_0000 % 0x100) as u8,
        (number / 0x100 % 0x100) as u8,
        (number % 0x100) as u8,
    ];
    assert(bytes@ =~= bytes_of(number));
    bytes
}

/// A number's bytes are its digits in base 256, most significant first.
pub proof fn bytes_are_big_endian(number: u32)
    ensures
        bytes_of(number).len() == 4,
        bytes_of(number)[0] * 0x100_0000 + bytes_of(number)[1] * 0x1_0000 + bytes_of(number)[2]
            * 0x100 + bytes_of(number)[3] == number,
{
}

/// Leading ones are counted up to the first zero bit: every bit before the count is set, and the
/// bit at the count is not.
pub proof fn leading_ones_end_at_the_first_zero(bytes: Seq<u8>, k: int, bit: u8)
    requires
        0 <= k < bytes.len(),
        bit < 8,
    ensures
        leading_ones(bytes) <= 8 * bytes.len(),
        8 * k + bit < leading_ones(bytes) ==> (bytes[k] >> ((7 - bit) as u8)) & 1 == 1,
        8 * k + bit == leading_ones(bytes) ==> (bytes[k] >> ((7 - bit) as u8)) & 1 == 0,
    decreases bytes.len(),
{
    lemma_byte_ones(bytes[0], bit);
    lemma_leading_ones_bound(bytes);
    if bytes[0] == 0xff {
        if k > 0 {
            assert(bytes.skip(1)[k - 1] == bytes[k]);
            leading_ones_end_at_the_first_zero(bytes.skip(1), k - 1, bit);
        }
    }
}

/// There are no more leading ones than bits.
proof fn lemma_leading_ones_bound(bytes: Seq<u8>)
    ensures
        leading_ones(bytes) <= 8 * bytes.len(),
    decreases bytes.len(),
{
    if bytes.len() > 0 && bytes[0] == 0xff {
        lemma_leading_ones_bound(bytes.skip(1));
    }
}

/// A byte's leading ones are counted up to its first zero bit.
proof fn lemma_byte_ones(byte: u8, bit: u8)
    requires
        bit < 8,
    ensures
        bit < byte_ones(byte) ==> (byte >> ((7 - bit) as u8)) & 1 == 1,
        bit == byte_ones(byte) ==> (byte >> ((7 - bit) as u8)) & 1 == 0,
        byte_ones(byte) == 8 <==> byte == 0xff,
{
    let shift: u8 = (7 - bit) as u8;
    assert(shift == 7 - bit && bit < 8 ==> {
        &&& (byte < 0x80 && bit == 0 ==> (byte >> shift) & 1 == 0)
        &&& (byte >= 0x80 && bit < 1 ==> (byte >> shift) & 1 == 1)
        &&& (0x80 <= byte < 0xc0 && bit == 1 ==> (byte >> shift) & 1 == 0)
        &&& (byte >= 0xc0 && bit < 2 ==> (byte >> shift) & 1 == 1)
        &&& (0xc0 <= byte < 0xe0 && bit == 2 ==> (byte >> shift) & 1 == 0)
        &&& (byte >= 0xe0 && bit < 3 ==> (byte >> shift) & 1 == 1)
        &&& (0xe0 <= byte < 0xf0 && bit == 3 ==> (byte >> shift) & 1 == 0)
        &&& (byte >= 0xf0 && bit < 4 ==> (byte >> shift) & 1 == 1)
        &&& (0xf0 <= byte < 0xf8 && bit == 4 ==> (byte >> shift) & 1 == 0)
        &&& (byte >= 0xf8 && bit < 5 ==> (byte >> shift) & 1 == 1)
        &&& (0xf8 <= byte < 0xfc && bit == 5 ==> (byte >> shift) & 1 == 0)
        &&& (byte >= 0xfc && bit < 6 ==> (byte >> shift) & 1 == 1)
        &&& (0xfc <= byte < 0xfe && bit == 6 ==> (byte >> shift) & 1 == 0)
        &&& (byte >= 0xfe && bit < 7 ==> (byte >> shift) & 1 == 1)
        &&& (byte == 0xfe && bit == 7 ==> (byte >> shift) & 1 == 0)
        &&& (byte == 0xff ==> (byte >> shift) & 1 == 1)
    }) by (bit_vector);
}

} // verus!
