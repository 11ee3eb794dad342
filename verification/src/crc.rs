//! CRC-32/MPEG-2: polynomial 0x04C11DB7, initial value 0xFFFFFFFF, no
//! reflection, no final xor.

use crate::bytes::be32;
use vstd::prelude::*;

verus! {

/// Bit `i` of `b`, counted from the most significant one.
pub open spec fn message_bit(b: u8, i: int) -> bool {
    (b >> ((7 - i) as u8)) & 1 == 1
}

/// The register after one more message bit: it is doubled modulo the
/// generator polynomial, where the bit is added at the top.
pub open spec fn crc_feed(c: u32, bit: bool) -> u32 {
    if (c >= 0x8000_0000) != bit {
        (c << 1) ^ 0x04C11DB7
    } else {
        c << 1
    }
}

/// The register after the first `n` bits of the byte `b`.
pub open spec fn crc_byte(c: u32, b: u8, n: nat) -> u32
    decreases n,
{
    if n == 0 {
        c
    } else {
        crc_feed(crc_byte(c, b, (n - 1) as nat), message_bit(b, n - 1))
    }
}

/// The register after every byte of `s`, started at `c`.
pub open spec fn crc_from(c: u32, s: Seq<u8>) -> u32
    decreases s.len(),
{
    if s.len() == 0 {
        c
    } else {
        crc_byte(crc_from(c, s.drop_last()), s.last(), 8)
    }
}

/// CRC-32/MPEG-2 of `s`.
pub open spec fn crc32(s: Seq<u8>) -> u32 {
    crc_from(0xFFFF_FFFF, s)
}

proof fn lemma_shift_step(c: u32, b: u8, k: u8)
    requires
        k < 8,
    ensures
        ({
            let x = c ^ (((b << k) as u32) << 24);
            let shifted = if x & 0x8000_0000 != 0 {
                (x << 1) ^ 0x04C11DB7
            } else {
                x << 1
            };
            shifted == crc_feed(c, (b >> ((7 - k) as u8)) & 1 == 1) ^ (((b << ((k + 1) as u8))
                as u32) << 24)
        }),
{
    assert(({
        let x = c ^ (((b << k) as u32) << 24);
        let shifted = if x & 0x8000_0000 != 0 {
            (x << 1) ^ 0x04C11DB7
        } else {
            x << 1
        };
        let fed = if (c >= 0x8000_0000) != ((b >> ((7 - k) as u8)) & 1 == 1) {
            (c << 1) ^ 0x04C11DB7
        } else {
            c << 1
        };
        shifted == fed ^ (((b << ((k + 1) as u8)) as u32) << 24)
    })) by (bit_vector)
        requires
            k < 8,
    ;
}

/// CRC-32/MPEG-2 of `data`.
pub fn crc32_mpeg2(data: &[u8]) -> (r: u32)
    ensures
        r == crc32(data@),
{
    let mut crc: u32 = 0xFFFF_FFFF;
    let mut i: usize = 0;
    while i < data.len()
        invariant
            i <= data@.len(),
            crc == crc32(data@.take(i as int)),
        decreases data@.len() - i,
    {
        let b: u8 = data[i];
        let ghost start = crc;
        crc = crc ^ ((b as u32) << 24);
        assert(crc == start ^ (((b << 0u8) as u32) << 24)) by (bit_vector)
            requires
                crc == start ^ ((b as u32) << 24),
        ;
        let mut k: u8 = 0;
        while k < 8
            invariant
                k <= 8,
                crc == crc_byte(start, b, k as nat) ^ (((b << k) as u32) << 24),
            decreases 8 - k,
        {
            proof {
                lemma_shift_step(crc_byte(start, b, k as nat), b, k);
            }
            crc = if crc & 0x8000_0000 != 0 {
                (crc << 1) ^ 0x04C11DB7
            } else {
                crc << 1
            };
            k = k + 1;
        }
        let ghost fed = crc_byte(start, b, 8);
        assert(crc == fed) by (bit_vector)
            requires
                crc == fed ^ (((b << 8u8) as u32) << 24),
        ;
        assert(data@.take(i + 1).drop_last() =~= data@.take(i as int));
        i = i + 1;
    }
    assert(data@.take(i as int) =~= data@);
    crc
}

/// Appending bytes continues the register where the earlier ones left it.
pub proof fn lemma_crc_concat(c: u32, s: Seq<u8>, t: Seq<u8>)
    ensures
        crc_from(c, s + t) == crc_from(crc_from(c, s), t),
    decreases t.len(),
{
    if t.len() == 0 {
        assert(s + t =~= s);
    } else {
        lemma_crc_concat(c, s, t.drop_last());
        assert((s + t).drop_last() =~= s + t.drop_last());
    }
}

/// Feeding the register its own top byte shifts that byte out.
proof fn lemma_crc_own_byte(c: u32, k: nat)
    requires
        k <= 8,
    ensures
        crc_byte(c, (c / 0x100_0000) as u8, k) == c << (k as u32),
    decreases k,
{
    if k == 0 {
        assert(c << 0u32 == c) by (bit_vector);
    } else {
        lemma_crc_own_byte(c, (k - 1) as nat);
        let j = (k - 1) as u32;
        let b = (c / 0x100_0000) as u8;
        let s = (7 - j) as u8;
        assert(((c << j) >= 0x8000_0000) == ((b >> s) & 1 == 1)) by (bit_vector)
            requires
                b == (c / 0x100_0000) as u8,
                j < 8,
                s == 7 - j,
        ;
        assert((c << j) << 1 == c << ((j + 1) as u32)) by (bit_vector)
            requires
                j < 8,
        ;
        assert(message_bit(b, k - 1) == ((b >> s) & 1 == 1));
    }
}

proof fn lemma_crc_own_register(c: u32)
    ensures
        crc_from(c, be32(c)) == 0,
{
    let b = be32(c);
    let b1 = b.take(1);
    let b2 = b.take(2);
    let b3 = b.take(3);
    assert(b.drop_last() =~= b3);
    assert(b3.drop_last() =~= b2);
    assert(b2.drop_last() =~= b1);
    assert(b1.drop_last() =~= b.take(0));
    let c1 = c << 8u32;
    let c2 = c1 << 8u32;
    let c3 = c2 << 8u32;
    assert(c1 / 0x100_0000 == c / 0x1_0000 % 256 && c2 / 0x100_0000 == c / 0x100 % 256 && c3
        / 0x100_0000 == c % 256 && c3 << 8u32 == 0) by (bit_vector)
        requires
            c1 == c << 8u32,
            c2 == c1 << 8u32,
            c3 == c2 << 8u32,
    ;
    lemma_crc_own_byte(c, 8);
    lemma_crc_own_byte(c1, 8);
    lemma_crc_own_byte(c2, 8);
    lemma_crc_own_byte(c3, 8);
    assert(crc_from(c, b.take(0)) == c);
    assert(crc_from(c, b1) == c1);
    assert(crc_from(c, b2) == c2);
    assert(crc_from(c, b3) == c3);
}

/// A message followed by its own checksum has the checksum zero, which is
/// how a receiver accepts a table.
pub proof fn lemma_crc_checks(s: Seq<u8>)
    ensures
        crc32(s + be32(crc32(s))) == 0,
{
    lemma_crc_concat(0xFFFF_FFFF, s, be32(crc32(s)));
    lemma_crc_own_register(crc32(s));
}

/// The checksum is linear, which is what lets it find errors: two registers
/// and two message bits that are added step to the sum of their steps.
pub proof fn lemma_crc_linear(c: u32, d: u32, p: bool, q: bool)
    ensures
        crc_feed(c ^ d, p != q) == crc_feed(c, p) ^ crc_feed(d, q),
{
    assert((if ((c ^ d) >= 0x8000_0000) != (p != q) {
        ((c ^ d) << 1) ^ 0x04C11DB7
    } else {
        (c ^ d) << 1
    }) == (if (c >= 0x8000_0000) != p {
        (c << 1) ^ 0x04C11DB7
    } else {
        c << 1
    }) ^ (if (d >= 0x8000_0000) != q {
        (d << 1) ^ 0x04C11DB7
    } else {
        d << 1
    })) by (bit_vector);
}

} // verus!
