//! Single bits of a byte, counted from the least significant one.

use vstd::prelude::*;

verus! {

/// Whether bit `n` of `byte` is set; bit 0 is the least significant.
pub open spec fn bit_is_set(byte: u8, n: int) -> bool {
    byte & (1u8 << (n as u8)) != 0
}

/// The byte whose bit `n` is set exactly if `wanted(n)`, for `n` in `0..8`.
pub open spec fn byte_with(wanted: spec_fn(int) -> bool) -> u8 {
    (if wanted(0) { 1u8 } else { 0u8 })
        | (if wanted(1) { 2u8 } else { 0u8 })
        | (if wanted(2) { 4u8 } else { 0u8 })
        | (if wanted(3) { 8u8 } else { 0u8 })
        | (if wanted(4) { 16u8 } else { 0u8 })
        | (if wanted(5) { 32u8 } else { 0u8 })
        | (if wanted(6) { 64u8 } else { 0u8 })
        | (if wanted(7) { 128u8 } else { 0u8 })
}

/// Reads bit `n` of `byte`.
pub fn read_bit(byte: u8, n: usize) -> (set: bool)
    requires
        n < 8,
    ensures
        set == bit_is_set(byte, n as int),
{
    byte & (1u8 << (n as u8)) != 0
}

/// Sets bit `n` of `byte` and leaves the others.
pub fn set_bit(byte: u8, n: usize) -> (raised: u8)
    requires
        n < 8,
    ensures
        forall|k: int| 0 <= k < 8 ==> #[trigger] bit_is_set(raised, k) == (bit_is_set(byte, k) || k == n),
{
    let m: u8 = n as u8;
    let raised = byte | (1u8 << m);
    assert forall|k: int| 0 <= k < 8 implies #[trigger] bit_is_set(raised, k) == (bit_is_set(
        byte,
        k,
    ) || k == n) by {
        let j: u8 = k as u8;
        assert((byte | (1u8 << m)) & (1u8 << j) != 0 <==> (byte & (1u8 << j) != 0 || j == m))
            by (bit_vector)
            requires
                m < 8,
                j < 8,
        ;
    }
    raised
}

/// `byte_with` builds the byte that its argument describes.
pub proof fn lemma_byte_with(wanted: spec_fn(int) -> bool, n: int)
    requires
        0 <= n < 8,
    ensures
        bit_is_set(byte_with(wanted), n) == wanted(n),
{
    let m0 = if wanted(0) { 1u8 } else { 0u8 };
    let m1 = if wanted(1) { 2u8 } else { 0u8 };
    let m2 = if wanted(2) { 4u8 } else { 0u8 };
    let m3 = if wanted(3) { 8u8 } else { 0u8 };
    let m4 = if wanted(4) { 16u8 } else { 0u8 };
    let m5 = if wanted(5) { 32u8 } else { 0u8 };
    let m6 = if wanted(6) { 64u8 } else { 0u8 };
    let m7 = if wanted(7) { 128u8 } else { 0u8 };
    let b = m0 | m1 | m2 | m3 | m4 | m5 | m6 | m7;
    assert(b & 1 == m0 && b & 2 == m1 && b & 4 == m2 && b & 8 == m3 && b & 16 == m4 && b & 32 == m5
        && b & 64 == m6 && b & 128 == m7) by (bit_vector)
        requires
            b == m0 | m1 | m2 | m3 | m4 | m5 | m6 | m7,
            m0 == 0 || m0 == 1,
            m1 == 0 || m1 == 2,
            m2 == 0 || m2 == 4,
            m3 == 0 || m3 == 8,
            m4 == 0 || m4 == 16,
            m5 == 0 || m5 == 32,
            m6 == 0 || m6 == 64,
            m7 == 0 || m7 == 128,
    ;
    lemma_bit_masks();
}

/// The eight single-bit masks, written out.
pub proof fn lemma_bit_masks()
    ensures
        1u8 << 0u8 == 1,
        1u8 << 1u8 == 2,
        1u8 << 2u8 == 4,
        1u8 << 3u8 == 8,
        1u8 << 4u8 == 16,
        1u8 << 5u8 == 32,
        1u8 << 6u8 == 64,
        1u8 << 7u8 == 128,
{
    assert(1u8 << 0u8 == 1 && 1u8 << 1u8 == 2 && 1u8 << 2u8 == 4 && 1u8 << 3u8 == 8 && 1u8 << 4u8
        == 16 && 1u8 << 5u8 == 32 && 1u8 << 6u8 == 64 && 1u8 << 7u8 == 128) by (bit_vector);
}

/// Two bytes with the same eight bits are the same byte.
pub proof fn lemma_same_bits(a: u8, b: u8)
    requires
        forall|n: int| 0 <= n < 8 ==> bit_is_set(a, n) == bit_is_set(b, n),
    ensures
        a == b,
{
    lemma_bit_masks();
    assert(bit_is_set(a, 0) == bit_is_set(b, 0));
    assert(bit_is_set(a, 1) == bit_is_set(b, 1));
    assert(bit_is_set(a, 2) == bit_is_set(b, 2));
    assert(bit_is_set(a, 3) == bit_is_set(b, 3));
    assert(bit_is_set(a, 4) == bit_is_set(b, 4));
    assert(bit_is_set(a, 5) == bit_is_set(b, 5));
    assert(bit_is_set(a, 6) == bit_is_set(b, 6));
    assert(bit_is_set(a, 7) == bit_is_set(b, 7));
    assert(a == b) by (bit_vector)
        requires
            (a & 1 != 0) == (b & 1 != 0),
            (a & 2 != 0) == (b & 2 != 0),
            (a & 4 != 0) == (b & 4 != 0),
            (a & 8 != 0) == (b & 8 != 0),
            (a & 16 != 0) == (b & 16 != 0),
            (a & 32 != 0) == (b & 32 != 0),
            (a & 64 != 0) == (b & 64 != 0),
            (a & 128 != 0) == (b & 128 != 0),
    ;
}

} // verus!
