//! The checksum that guards every record on disk: CRC-32 (IEEE).
use vstd::prelude::*;

verus! {

/// The polynomial of the checksum, its bits in reverse.
pub const CRC_POLYNOMIAL: u32 = 0xedb8_8320;

/// Where the checksum starts; it is also what turns it around at the end.
pub const CRC_ONES: u32 = 0xffff_ffff;

/// The remainder, one bit further.
pub open spec fn crc_bit(c: u32) -> u32 {
    if c & 1 == 1 {
        (c >> 1) ^ CRC_POLYNOMIAL
    } else {
        c >> 1
    }
}

/// The remainder, `n` bits further.
pub open spec fn crc_bits(c: u32, n: nat) -> u32
    decreases n,
{
    if n == 0 {
        c
    } else {
        crc_bits(crc_bit(c), (n - 1) as nat)
    }
}

/// The remainder behind a run of bytes, each taken from its lowest bit on.
pub open spec fn crc_remainder(bytes: Seq<u8>) -> u32
    decreases bytes.len(),
{
    if bytes.len() == 0 {
        CRC_ONES
    } else {
        crc_bits(crc_remainder(bytes.drop_last()) ^ (bytes.last() as u32), 8)
    }
}

/// The CRC-32 (IEEE) of a run of bytes.
#[verifier::opaque]
pub open spec fn crc32(bytes: Seq<u8>) -> u32 {
    crc_remainder(bytes) ^ CRC_ONES
}

/// Trusted: `crc32fast::hash` returns the CRC-32 (IEEE) of its argument, as
/// its documentation says.
pub assume_specification[ crc32fast::hash ](buf: &[u8]) -> (crc: u32)
    ensures
        crc == crc32(buf@),
;

/// Remainders that differ stay different.
proof fn lemma_bits_differ(a: u32, b: u32, n: nat)
    requires
        a != b,
    ensures
        crc_bits(a, n) != crc_bits(b, n),
    decreases n,
{
    if n > 0 {
        let x = if a & 1 == 1 {
            (a >> 1) ^ 0xedb8_8320u32
        } else {
            a >> 1
        };
        let y = if b & 1 == 1 {
            (b >> 1) ^ 0xedb8_8320u32
        } else {
            b >> 1
        };
        assert(x != y) by (bit_vector)
            requires
                a != b,
                x == (if a & 1 == 1 {
                    (a >> 1) ^ 0xedb8_8320u32
                } else {
                    a >> 1
                }),
                y == (if b & 1 == 1 {
                    (b >> 1) ^ 0xedb8_8320u32
                } else {
                    b >> 1
                }),
        ;
        lemma_bits_differ(crc_bit(a), crc_bit(b), (n - 1) as nat);
    }
}

proof fn lemma_remainders_differ(bytes: Seq<u8>, i: int, b: u8)
    requires
        0 <= i < bytes.len(),
        bytes[i] != b,
    ensures
        crc_remainder(bytes.update(i, b)) != crc_remainder(bytes),
    decreases bytes.len(),
{
    let changed = bytes.update(i, b);
    let (c, d) = (crc_remainder(bytes.drop_last()), crc_remainder(changed.drop_last()));
    let (x, y) = (bytes.last() as u32, changed.last() as u32);
    if i == bytes.len() - 1 {
        assert(changed.drop_last() =~= bytes.drop_last());
        assert(c ^ x != c ^ y) by (bit_vector)
            requires
                x != y,
        ;
    } else {
        assert(changed.drop_last() =~= bytes.drop_last().update(i, b));
        lemma_remainders_differ(bytes.drop_last(), i, b);
        assert(c ^ x != d ^ x) by (bit_vector)
            requires
                c != d,
        ;
    }
    lemma_bits_differ(c ^ x, d ^ y, 8);
}

/// A run of bytes of which one byte is changed has another checksum. So has
/// one of which one bit is flipped.
pub proof fn law_changed_byte(bytes: Seq<u8>, i: int, b: u8)
    requires
        0 <= i < bytes.len(),
        bytes[i] != b,
    ensures
        crc32(bytes.update(i, b)) != crc32(bytes),
{
    reveal(crc32);
    lemma_remainders_differ(bytes, i, b);
    let (x, y) = (crc_remainder(bytes), crc_remainder(bytes.update(i, b)));
    assert(x ^ 0xffff_ffffu32 != y ^ 0xffff_ffffu32) by (bit_vector)
        requires
            x != y,
    ;
}

} // verus!
