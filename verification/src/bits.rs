//! A set of registers as the bits of one 32-bit word: bit `i` stands for the
//! register with encoding `i`.

use vstd::prelude::*;
use crate::registers::{GPR, XMM};

verus! {

/// Whether bit `i` of `v` is one.
pub open spec fn has_bit(v: u32, i: u32) -> bool {
    (v >> i) & 1 == 1
}

/// The general-purpose registers whose bits are set in `bits`.
pub open spec fn gpr_set(bits: u32) -> Set<GPR> {
    Set::new(|g: GPR| has_bit(bits, g.index() as u32))
}

/// The vector registers whose bits are set in `bits`.
pub open spec fn xmm_set(bits: u32) -> Set<XMM> {
    Set::new(|x: XMM| has_bit(bits, x.index() as u32))
}

/// Only bits that encode a register are set.
pub open spec fn within_register_file(bits: u32) -> bool {
    bits & 0xffff_0000 == 0
}

/// Setting bit `i` sets that bit and leaves the others.
pub proof fn lemma_bit_after_set(v: u32, i: u32, j: u32)
    by (bit_vector)
    requires
        i < 32,
        j < 32,
    ensures
        has_bit(v | (1u32 << i), j) == (j == i || has_bit(v, j)),
{
}

/// Clearing bit `i` clears that bit and leaves the others.
pub proof fn lemma_bit_after_clear(v: u32, i: u32, j: u32)
    by (bit_vector)
    requires
        i < 32,
        j < 32,
    ensures
        has_bit(v & !(1u32 << i), j) == (j != i && has_bit(v, j)),
{
}

/// Masking with bit `i` tells whether bit `i` is set.
pub proof fn lemma_bit_test(v: u32, i: u32)
    by (bit_vector)
    requires
        i < 32,
    ensures
        (v & (1u32 << i) != 0) == has_bit(v, i),
{
}

/// The bits of `mask` that are clear in `used` are those set in `!used & mask`.
pub proof fn lemma_bit_of_free_candidates(used: u32, mask: u32, j: u32)
    by (bit_vector)
    requires
        j < 32,
    ensures
        has_bit(!used & mask, j) == (!has_bit(used, j) && has_bit(mask, j)),
{
}

/// No bit is set in zero.
pub proof fn lemma_no_bit_in_zero(j: u32)
    by (bit_vector)
    requires
        j < 32,
    ensures
        !has_bit(0u32, j),
{
}

/// Setting the bit of a register stays within the register file.
pub proof fn lemma_file_kept_by_set(v: u32, i: u32)
    by (bit_vector)
    requires
        v & 0xffff_0000 == 0,
        i < 16,
    ensures
        (v | (1u32 << i)) & 0xffff_0000 == 0,
{
}

/// Clearing a bit stays within the register file.
pub proof fn lemma_file_kept_by_clear(v: u32, i: u32)
    by (bit_vector)
    requires
        v & 0xffff_0000 == 0,
        i < 32,
    ensures
        (v & !(1u32 << i)) & 0xffff_0000 == 0,
{
}

/// Bits 6 to 11: RSI, RDI, R8, R9, R10, R11.
pub proof fn lemma_bits_of_value_gprs(j: u32)
    by (bit_vector)
    requires
        j < 32,
    ensures
        has_bit(0x0fc0u32, j) == (6 <= j && j <= 11),
{
}

/// Bits 3 to 7: XMM3 to XMM7.
pub proof fn lemma_bits_of_value_xmms(j: u32)
    by (bit_vector)
    requires
        j < 32,
    ensures
        has_bit(0x00f8u32, j) == (3 <= j && j <= 7),
{
}

/// Bits 0 to 2: RAX, RCX, RDX, and XMM0, XMM1, XMM2.
pub proof fn lemma_bits_of_temporaries(j: u32)
    by (bit_vector)
    requires
        j < 32,
    ensures
        has_bit(0x0007u32, j) == (j <= 2),
{
}

/// Setting the bit of `g` adds `g` to the set, and nothing else.
pub proof fn lemma_gpr_set_insert(bits: u32, g: GPR)
    ensures
        gpr_set(bits | (1u32 << (g.index() as u32))) == gpr_set(bits).insert(g),
        within_register_file(bits) ==> within_register_file(bits | (1u32 << (g.index() as u32))),
{
    let i: u32 = g.index() as u32;
    let after: u32 = bits | (1u32 << i);
    assert forall|h: GPR| gpr_set(after).contains(h) == gpr_set(bits).insert(g).contains(h) by {
        lemma_bit_after_set(bits, i, h.index() as u32);
    }
    assert(gpr_set(after) =~= gpr_set(bits).insert(g));
    if within_register_file(bits) {
        lemma_file_kept_by_set(bits, i);
    }
}

/// Clearing the bit of `g` removes `g` from the set, and nothing else.
pub proof fn lemma_gpr_set_remove(bits: u32, g: GPR)
    ensures
        gpr_set(bits & !(1u32 << (g.index() as u32))) == gpr_set(bits).remove(g),
        within_register_file(bits) ==> within_register_file(bits & !(1u32 << (g.index() as u32))),
{
    let i: u32 = g.index() as u32;
    let after: u32 = bits & !(1u32 << i);
    assert forall|h: GPR| gpr_set(after).contains(h) == gpr_set(bits).remove(g).contains(h) by {
        lemma_bit_after_clear(bits, i, h.index() as u32);
    }
    assert(gpr_set(after) =~= gpr_set(bits).remove(g));
    if within_register_file(bits) {
        lemma_file_kept_by_clear(bits, i);
    }
}

/// Setting the bit of `x` adds `x` to the set, and nothing else.
pub proof fn lemma_xmm_set_insert(bits: u32, x: XMM)
    ensures
        xmm_set(bits | (1u32 << (x.index() as u32))) == xmm_set(bits).insert(x),
        within_register_file(bits) ==> within_register_file(bits | (1u32 << (x.index() as u32))),
{
    let i: u32 = x.index() as u32;
    let after: u32 = bits | (1u32 << i);
    assert forall|h: XMM| xmm_set(after).contains(h) == xmm_set(bits).insert(x).contains(h) by {
        lemma_bit_after_set(bits, i, h.index() as u32);
    }
    assert(xmm_set(after) =~= xmm_set(bits).insert(x));
    if within_register_file(bits) {
        lemma_file_kept_by_set(bits, i);
    }
}

/// Clearing the bit of `x` removes `x` from the set, and nothing else.
pub proof fn lemma_xmm_set_remove(bits: u32, x: XMM)
    ensures
        xmm_set(bits & !(1u32 << (x.index() as u32))) == xmm_set(bits).remove(x),
        within_register_file(bits) ==> within_register_file(bits & !(1u32 << (x.index() as u32))),
{
    let i: u32 = x.index() as u32;
    let after: u32 = bits & !(1u32 << i);
    assert forall|h: XMM| xmm_set(after).contains(h) == xmm_set(bits).remove(x).contains(h) by {
        lemma_bit_after_clear(bits, i, h.index() as u32);
    }
    assert(xmm_set(after) =~= xmm_set(bits).remove(x));
    if within_register_file(bits) {
        lemma_file_kept_by_clear(bits, i);
    }
}

/// The word zero stands for the empty set.
pub proof fn lemma_empty_sets()
    ensures
        gpr_set(0) == Set::<GPR>::empty(),
        xmm_set(0) == Set::<XMM>::empty(),
{
    assert forall|g: GPR| !gpr_set(0).contains(g) by {
        lemma_no_bit_in_zero(g.index() as u32);
    }
    assert(gpr_set(0) =~= Set::<GPR>::empty());
    assert forall|x: XMM| !xmm_set(0).contains(x) by {
        lemma_no_bit_in_zero(x.index() as u32);
    }
    assert(xmm_set(0) =~= Set::<XMM>::empty());
}

/// The positions below `n` of the bits set in `v`, in ascending order.
pub open spec fn set_bits_below(v: u32, n: nat) -> Seq<u8>
    decreases n,
{
    if n == 0 {
        Seq::empty()
    } else {
        let lower = set_bits_below(v, (n - 1) as nat);
        if has_bit(v, (n - 1) as u32) {
            lower.push((n - 1) as u8)
        } else {
            lower
        }
    }
}

/// The positions of the bits set in `v`, in ascending order.
pub open spec fn set_bits(v: u32) -> Seq<u8> {
    set_bits_below(v, 32)
}

/// Bit `j` of `v` shifted right by `n` is bit `n + j` of `v`, and clear
/// past the width.
pub proof fn lemma_bit_of_shifted(v: u32, n: u32, j: u32)
    by (bit_vector)
    requires
        n < 32,
        j < 32,
    ensures
        n + j < 32 ==> has_bit(v >> n, j) == has_bit(v, (n + j) as u32),
        n + j >= 32 ==> !has_bit(v >> n, j),
{
}

/// Shifting right twice is shifting by the sum, and leaves nothing once
/// the sum reaches the width.
pub proof fn lemma_shift_twice(v: u32, a: u32, b: u32)
    by (bit_vector)
    requires
        a < 32,
        b < 32,
    ensures
        a + b < 32 ==> (v >> a) >> b == v >> ((a + b) as u32),
        a + b >= 32 ==> (v >> a) >> b == 0,
        v >> 0 == v,
{
}

/// A bit set within the register file is one of the sixteen low bits.
pub proof fn lemma_bit_within_file(v: u32, j: u32)
    by (bit_vector)
    requires
        v & 0xffff_0000 == 0,
        j < 32,
        has_bit(v, j),
    ensures
        j < 16,
{
}

/// Where no bit is set from position `n` up to `m`, there are no more set
/// bits below `m` than below `n`.
pub proof fn lemma_set_bits_over_clear_range(v: u32, n: nat, m: nat)
    requires
        n <= m <= 32,
        forall|j: u32| n <= j < m ==> !#[trigger] has_bit(v, j),
    ensures
        set_bits_below(v, m) == set_bits_below(v, n),
    decreases m,
{
    if n < m {
        assert(!has_bit(v, (m - 1) as u32));
        lemma_set_bits_over_clear_range(v, n, (m - 1) as nat);
    }
}

/// The sequence of set bits holds positions of set bits only, in strictly
/// ascending order, and misses none.
pub proof fn lemma_set_bits(v: u32, n: nat)
    requires
        n <= 32,
    ensures
        forall|k: int|
            0 <= k < set_bits_below(v, n).len() ==> (#[trigger] set_bits_below(v, n)[k]) < n
                && has_bit(v, set_bits_below(v, n)[k] as u32),
        forall|k: int, l: int|
            0 <= k < l < set_bits_below(v, n).len() ==> (#[trigger] set_bits_below(v, n)[k])
                < #[trigger] set_bits_below(v, n)[l],
        forall|j: u8| j < n && has_bit(v, j as u32) ==> set_bits_below(v, n).contains(j),
    decreases n,
{
    if n > 0 {
        let lower: Seq<u8> = set_bits_below(v, (n - 1) as nat);
        let all: Seq<u8> = set_bits_below(v, n);
        lemma_set_bits(v, (n - 1) as nat);
        assert forall|j: u8| j < n && has_bit(v, j as u32) implies all.contains(j) by {
            if j < n - 1 {
                assert(lower.contains(j));
                let k: int = choose|k: int| 0 <= k < lower.len() && lower[k] == j;
                assert(all[k] == j);
            } else {
                assert(all[all.len() - 1] == j);
            }
        }
    }
}

} // verus!
