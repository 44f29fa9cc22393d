//! Bit-level facts shared by the address and entry encodings.
use vstd::prelude::*;

verus! {

/// Whether bit `i` of `x` is set.
pub open spec fn bit_set(x: u64, i: u64) -> bool {
    (x >> i) & 1 == 1
}

/// Splitting an address into its page offset and its 9-bit index fields is
/// the same as dividing by the page sizes.
pub proof fn lemma_address_fields(x: u64)
    by (bit_vector)
    ensures
        x & 0xfff == x % 0x1000,
        (x >> 12) & 0x1ff == (x / 0x1000) % 512,
        (x >> 21) & 0x1ff == (x / 0x20_0000) % 512,
        (x >> 30) & 0x1ff == (x / 0x4000_0000) % 512,
        (x >> 39) & 0x1ff == (x / 0x80_0000_0000) % 512,
        (x >> 39) & 0x1_ffff == (x / 0x80_0000_0000) % 0x2_0000,
        (x >> 30) & 0x3ff_ffff == (x / 0x4000_0000) % 0x400_0000,
        (x >> 12) & 0xfff_ffff_ffff == (x / 0x1000) % 0x1000_0000_0000,
        x & 0xffff_ffff_ffff == x % 0x1_0000_0000_0000,
        x & 0xffff_ffff_f000 == (x % 0x1_0000_0000_0000) / 0x1000 * 0x1000,
        x & 0x00ff_ffff_ffff_f000 == (x % 0x100_0000_0000_0000) / 0x1000 * 0x1000,
        (x & 0xffff_ffff_f000) >> 12 == (x % 0x1_0000_0000_0000) / 0x1000,
        x & !0xffff_ffff_ffffu64 == 0 <==> x < 0x1_0000_0000_0000,
{
}

/// Setting or clearing bit `i` changes that bit and no other.
pub proof fn lemma_set_bit(x: u64, i: u64, j: u64)
    by (bit_vector)
    requires
        i < 64,
        j < 64,
    ensures
        ((x | (1u64 << i)) >> j) & 1 == 1 <==> (j == i || (x >> j) & 1 == 1),
        ((x & !(1u64 << i)) >> j) & 1 == 1 <==> (j != i && (x >> j) & 1 == 1),
{
}

} // verus!
