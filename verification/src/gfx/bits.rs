//! Facts about single bits of a byte.
use vstd::prelude::*;

verus! {

/// Whether bit `k` of `b` is set; bit 0 is the least significant.
pub open spec fn bit(b: u8, k: u8) -> bool {
    (b >> k) & 1u8 == 1u8
}

/// Two bytes with the same eight bits are the same byte.
pub proof fn lemma_bits_determine_byte(a: u8, b: u8)
    requires
        forall|k: u8| k < 8 ==> bit(a, k) == bit(b, k),
    ensures
        a == b,
{
    assert(bit(a, 0) == bit(b, 0) && bit(a, 1) == bit(b, 1) && bit(a, 2) == bit(b, 2) && bit(a, 3) == bit(b, 3));
    assert(bit(a, 4) == bit(b, 4) && bit(a, 5) == bit(b, 5) && bit(a, 6) == bit(b, 6) && bit(a, 7) == bit(b, 7));
    assert(a == b) by (bit_vector)
        requires
            bit(a, 0) == bit(b, 0),
            bit(a, 1) == bit(b, 1),
            bit(a, 2) == bit(b, 2),
            bit(a, 3) == bit(b, 3),
            bit(a, 4) == bit(b, 4),
            bit(a, 5) == bit(b, 5),
            bit(a, 6) == bit(b, 6),
            bit(a, 7) == bit(b, 7),
    ;
}

/// No bit of zero is set.
pub proof fn lemma_zero_has_no_bits(k: u8)
    requires
        k < 8,
    ensures
        !bit(0u8, k),
{
    assert(!bit(0u8, k)) by (bit_vector)
        requires
            k < 8,
    ;
}

/// OR-ing a mask in sets the masked bits and keeps the others.
pub proof fn lemma_or_bit(b: u8, m: u8, k: u8)
    requires
        k < 8,
    ensures
        bit(b | m, k) == (bit(b, k) || bit(m, k)),
{
    assert(bit(b | m, k) == (bit(b, k) || bit(m, k))) by (bit_vector)
        requires
            k < 8,
    ;
}

/// AND-ing a mask's complement in clears the masked bits and keeps the others.
pub proof fn lemma_and_not_bit(b: u8, m: u8, k: u8)
    requires
        k < 8,
    ensures
        bit(b & !m, k) == (bit(b, k) && !bit(m, k)),
{
    assert(bit(b & !m, k) == (bit(b, k) && !bit(m, k))) by (bit_vector)
        requires
            k < 8,
    ;
}

/// The byte that carries `n` rows of a glyph byte into a frame byte: bits
/// `in_shift .. in_shift + n` of `src`, moved to `out_shift .. out_shift + n`.
pub open spec fn moved_rows(src: u8, in_shift: u8, out_shift: u8, n: u8) -> u8 {
    ((src >> in_shift) & ((0xffu8 << ((8 - n) as u8)) >> ((8 - n) as u8))) << out_shift
}

/// Bit `k` of the moved rows is the source bit that lands on `k`, and no
/// bit outside the landing range is set.
pub proof fn lemma_moved_rows_bit(src: u8, in_shift: u8, out_shift: u8, n: u8, k: u8)
    requires
        1 <= n,
        in_shift + n <= 8,
        out_shift + n <= 8,
        k < 8,
    ensures
        bit(moved_rows(src, in_shift, out_shift, n), k) == (out_shift <= k < out_shift + n && bit(
            src,
            (k - out_shift + in_shift) as u8,
        )),
{
    assert(bit(moved_rows(src, in_shift, out_shift, n), k) == (out_shift <= k && k < out_shift + n
        && bit(src, (k - out_shift + in_shift) as u8))) by (bit_vector)
        requires
            1 <= n,
            in_shift + n <= 8,
            out_shift + n <= 8,
            k < 8,
    ;
}

/// The mask of one band of a rectangle: all bits, less those below `lo`
/// and those above `hi`.
pub open spec fn band_mask(lo: u8, hi: u8) -> u8 {
    (((0xffu8 >> lo) << lo) << ((7 - hi) as u8)) >> ((7 - hi) as u8)
}

/// The band mask has exactly the bits from `lo` to `hi` set.
pub proof fn lemma_band_mask_bit(lo: u8, hi: u8, k: u8)
    requires
        lo <= hi < 8,
        k < 8,
    ensures
        bit(band_mask(lo, hi), k) == (lo <= k <= hi),
{
    assert(bit(band_mask(lo, hi), k) == (lo <= k && k <= hi)) by (bit_vector)
        requires
            lo <= hi,
            hi < 8,
            k < 8,
    ;
}

/// Setting bit `b` changes that bit and no other.
pub proof fn lemma_set_bit(v: u8, b: u8, k: u8)
    requires
        b < 8,
        k < 8,
    ensures
        bit(v | (1u8 << b), k) == (bit(v, k) || k == b),
{
    assert(bit(v | (1u8 << b), k) == (bit(v, k) || k == b)) by (bit_vector)
        requires
            b < 8,
            k < 8,
    ;
}

} // verus!
