//! What holds of the allocator whatever it is asked to do.

use vstd::prelude::*;
use crate::bits::{
    has_bit, lemma_bits_of_temporaries, lemma_bits_of_value_gprs, lemma_bits_of_value_xmms,
};
use crate::frame::{frame_slot, local_location};
use crate::location::{Location, RegisterClass, WpType};
use crate::machine::{TEMP_GPRS, TEMP_XMMS, VALUE_GPRS, VALUE_XMMS};
use crate::model::{
    acquirable, acquire, acquire_one, all_supported, frame_slot_count, free_temp_gpr,
    free_temp_xmm, free_value_gpr, free_value_xmm, gprs_in, is_reserved_gpr, is_temp_gpr,
    is_temp_xmm, is_value_gpr, is_value_xmm, lemma_acquire_grows, lemma_release_next,
    registers_releasable, release_registers, release_stack, stack_releasable, valid, xmms_in,
    MachineState,
};
use crate::registers::{GPR, XMM};

verus! {

/// No register is a candidate both for values and for temporaries, and the
/// registers that are never handed out are candidates for neither: the frame
/// and stack pointers, the register of the instance context and the four
/// registers of the locals.
pub proof fn lemma_candidates_are_disjoint()
    ensures
        forall|g: GPR| !(is_value_gpr(g) && is_temp_gpr(g)),
        forall|g: GPR| is_reserved_gpr(g) ==> !is_value_gpr(g) && !is_temp_gpr(g),
        forall|x: XMM| !(is_value_xmm(x) && is_temp_xmm(x)),
        forall|i: nat, lo: nat|
            i < 4 ==> ((#[trigger] local_location(i, lo)) matches Location::GPR(g)
                && is_reserved_gpr(g)),
{
}

/// The candidate masks hold the bits of the candidate registers and no
/// others, so a mask for values and a mask for temporaries share no bit.
pub proof fn lemma_masks_are_the_candidates()
    ensures
        forall|g: GPR| has_bit(VALUE_GPRS, #[trigger] g.index() as u32) <==> is_value_gpr(g),
        forall|g: GPR| has_bit(TEMP_GPRS, #[trigger] g.index() as u32) <==> is_temp_gpr(g),
        forall|x: XMM| has_bit(VALUE_XMMS, #[trigger] x.index() as u32) <==> is_value_xmm(x),
        forall|x: XMM| has_bit(TEMP_XMMS, #[trigger] x.index() as u32) <==> is_temp_xmm(x),
        VALUE_GPRS & TEMP_GPRS == 0,
        VALUE_XMMS & TEMP_XMMS == 0,
{
    assert forall|g: GPR| has_bit(VALUE_GPRS, #[trigger] g.index() as u32) <==> is_value_gpr(
        g,
    ) by {
        lemma_bits_of_value_gprs(g.index() as u32);
    }
    assert forall|g: GPR| has_bit(TEMP_GPRS, #[trigger] g.index() as u32) <==> is_temp_gpr(g) by {
        lemma_bits_of_temporaries(g.index() as u32);
    }
    assert forall|x: XMM| has_bit(VALUE_XMMS, #[trigger] x.index() as u32) <==> is_value_xmm(
        x,
    ) by {
        lemma_bits_of_value_xmms(x.index() as u32);
    }
    assert forall|x: XMM| has_bit(TEMP_XMMS, #[trigger] x.index() as u32) <==> is_temp_xmm(x) by {
        lemma_bits_of_temporaries(x.index() as u32);
    }
    assert(0x0fc0u32 & 0x0007u32 == 0) by (bit_vector);
    assert(0x00f8u32 & 0x0007u32 == 0) by (bit_vector);
}

/// A pick yields the candidate of the lowest encoding that is free, and
/// yields nothing only when every candidate is occupied.
pub proof fn lemma_pick_is_lowest_free(used_gprs: Set<GPR>, used_xmms: Set<XMM>)
    ensures
        match free_value_gpr(used_gprs) {
            Some(g) => is_value_gpr(g) && !used_gprs.contains(g) && forall|h: GPR|
                is_value_gpr(h) && h.index() < g.index() ==> used_gprs.contains(h),
            None => forall|h: GPR| is_value_gpr(h) ==> used_gprs.contains(h),
        },
        match free_temp_gpr(used_gprs) {
            Some(g) => is_temp_gpr(g) && !used_gprs.contains(g) && forall|h: GPR|
                is_temp_gpr(h) && h.index() < g.index() ==> used_gprs.contains(h),
            None => forall|h: GPR| is_temp_gpr(h) ==> used_gprs.contains(h),
        },
        match free_value_xmm(used_xmms) {
            Some(x) => is_value_xmm(x) && !used_xmms.contains(x) && forall|y: XMM|
                is_value_xmm(y) && y.index() < x.index() ==> used_xmms.contains(y),
            None => forall|y: XMM| is_value_xmm(y) ==> used_xmms.contains(y),
        },
        match free_temp_xmm(used_xmms) {
            Some(x) => is_temp_xmm(x) && !used_xmms.contains(x) && forall|y: XMM|
                is_temp_xmm(y) && y.index() < x.index() ==> used_xmms.contains(y),
            None => forall|y: XMM| is_temp_xmm(y) ==> used_xmms.contains(y),
        },
{
}

/// Locals determinism: the home of a local is a function of its index and of
/// the depth at which the locals begin, and two locals never share a home.
pub proof fn lemma_locals_have_homes_of_their_own(i: nat, j: nat, locals_offset: nat)
    requires
        i != j,
        i <= 999_999,
        j <= 999_999,
        locals_offset <= 64,
    ensures
        local_location(i, locals_offset) != local_location(j, locals_offset),
{
}

/// The frame slots among two lists put together are those of the one and
/// those of the other.
pub proof fn lemma_frame_slot_count_add(a: Seq<Location>, b: Seq<Location>)
    ensures
        frame_slot_count(a + b) == frame_slot_count(a) + frame_slot_count(b),
    decreases a.len(),
{
    if a.len() == 0 {
        assert(a + b =~= b);
    } else {
        assert((a + b).drop_first() =~= a.drop_first() + b);
        lemma_frame_slot_count_add(a.drop_first(), b);
    }
}

/// What is among a list with one more location at its end.
pub proof fn lemma_one_more_location(locs: Seq<Location>, loc: Location)
    ensures
        frame_slot_count(locs.push(loc)) == frame_slot_count(locs) + (if loc.is_frame_slot() {
            1nat
        } else {
            0nat
        }),
        gprs_in(locs.push(loc)) == (match loc {
            Location::GPR(g) => gprs_in(locs).insert(g),
            _ => gprs_in(locs),
        }),
        xmms_in(locs.push(loc)) == (match loc {
            Location::XMM(x) => xmms_in(locs).insert(x),
            _ => xmms_in(locs),
        }),
{
    let one: Seq<Location> = seq![loc];
    assert(locs.push(loc) =~= locs + one);
    lemma_frame_slot_count_add(locs, one);
    assert(one.drop_first() =~= Seq::<Location>::empty());
    assert(frame_slot_count(one) == (if loc.is_frame_slot() {
        1nat
    } else {
        0nat
    })) by {
        reveal_with_fuel(frame_slot_count, 2);
    }
    let more: Seq<Location> = locs.push(loc);
    assert forall|v: Location| more.contains(v) == (v == loc || locs.contains(v)) by {
        if more.contains(v) {
            let k: int = choose|k: int| 0 <= k < more.len() && more[k] == v;
            if k < locs.len() {
                assert(locs[k] == v);
            }
        }
        if locs.contains(v) {
            let k: int = choose|k: int| 0 <= k < locs.len() && locs[k] == v;
            assert(more[k] == v);
        }
        if v == loc {
            assert(more[locs.len() as int] == v);
        }
    }
    assert(gprs_in(more) =~= (match loc {
        Location::GPR(g) => gprs_in(locs).insert(g),
        _ => gprs_in(locs),
    }));
    assert(xmms_in(more) =~= (match loc {
        Location::XMM(x) => xmms_in(locs).insert(x),
        _ => xmms_in(locs),
    }));
}

/// Acquiring takes only what is free. Every home is a value register or a
/// slot of the frame, never a temporary or a reserved register; no register
/// is handed out twice; the registers occupied afterwards are those occupied
/// before and those handed out; and the slots handed out lie one below the
/// other from the old top of the stack.
pub proof fn lemma_acquire_takes_free(s: MachineState, tys: Seq<WpType>)
    requires
        valid(s),
        acquirable(s, tys),
    ensures
        valid(acquire(s, tys).0),
        acquire(s, tys).1.len() == tys.len(),
        acquire(s, tys).0.used_gprs == s.used_gprs.union(gprs_in(acquire(s, tys).1)),
        acquire(s, tys).0.used_xmms == s.used_xmms.union(xmms_in(acquire(s, tys).1)),
        s.used_gprs.disjoint(gprs_in(acquire(s, tys).1)),
        s.used_xmms.disjoint(xmms_in(acquire(s, tys).1)),
        acquire(s, tys).0.stack_offset == s.stack_offset + 8 * frame_slot_count(
            acquire(s, tys).1,
        ),
        forall|i: int|
            0 <= i < tys.len() ==> match #[trigger] acquire(s, tys).1[i] {
                Location::GPR(g) => is_value_gpr(g) && tys[i].class() == Some(
                    RegisterClass::Integer,
                ),
                Location::XMM(x) => is_value_xmm(x) && tys[i].class() == Some(
                    RegisterClass::Float,
                ),
                loc => loc.is_frame_slot() && loc.depth() == s.stack_offset + 8 * (
                frame_slot_count(acquire(s, tys).1.take(i)) + 1),
            },
        forall|i: int, j: int|
            0 <= i < j < tys.len() && (#[trigger] acquire(s, tys).1[i]).is_register()
                ==> acquire(s, tys).1[i] != #[trigger] acquire(s, tys).1[j],
    decreases tys.len(),
{
    let after: MachineState = acquire(s, tys).0;
    let locs: Seq<Location> = acquire(s, tys).1;
    if tys.len() == 0 {
        assert(gprs_in(locs) =~= Set::<GPR>::empty());
        assert(xmms_in(locs) =~= Set::<XMM>::empty());
        assert(after.used_gprs =~= s.used_gprs.union(gprs_in(locs)));
        assert(after.used_xmms =~= s.used_xmms.union(xmms_in(locs)));
    } else {
        let head: Seq<WpType> = tys.drop_last();
        let before: MachineState = acquire(s, head).0;
        let first: Seq<Location> = acquire(s, head).1;
        let class: RegisterClass = tys.last().class()->0;
        let loc: Location = acquire_one(before, class).1;
        lemma_acquire_grows(before, seq![tys.last()]);
        assert(after.stack_offset >= before.stack_offset);
        assert(all_supported(head)) by {
            assert forall|i: int| 0 <= i < head.len() implies (
            #[trigger] head[i]).is_supported() by {
                assert(head[i] == tys[i]);
            }
        }
        lemma_acquire_takes_free(s, head);
        lemma_one_more_location(first, loc);
        lemma_pick_is_lowest_free(before.used_gprs, before.used_xmms);
        assert(tys.last().is_supported());
        assert(locs == first.push(loc));
        assert(after.used_gprs =~= s.used_gprs.union(gprs_in(locs)));
        assert(after.used_xmms =~= s.used_xmms.union(xmms_in(locs)));
        assert forall|i: int| 0 <= i < tys.len() implies match #[trigger] locs[i] {
            Location::GPR(g) => is_value_gpr(g) && tys[i].class() == Some(RegisterClass::Integer),
            Location::XMM(x) => is_value_xmm(x) && tys[i].class() == Some(RegisterClass::Float),
            l => l.is_frame_slot() && l.depth() == s.stack_offset + 8 * (frame_slot_count(
                locs.take(i),
            ) + 1),
        } by {
            if i < head.len() {
                assert(locs[i] == first[i]);
                assert(head[i] == tys[i]);
                assert(locs.take(i) =~= first.take(i));
            } else {
                assert(locs.take(i) =~= first);
            }
        }
        assert forall|i: int, j: int|
            0 <= i < j < tys.len() && (#[trigger] locs[i]).is_register() implies locs[i]
            != #[trigger] locs[j] by {
            if j < head.len() {
                assert(locs[i] == first[i] && locs[j] == first[j]);
            } else {
                assert(locs[i] == first[i]);
                assert(first.contains(first[i]));
                match first[i] {
                    Location::GPR(g) => {
                        assert(gprs_in(first).contains(g));
                        assert(before.used_gprs.contains(g));
                    },
                    Location::XMM(x) => {
                        assert(xmms_in(first).contains(x));
                        assert(before.used_xmms.contains(x));
                    },
                    _ => {},
                }
            }
        }
    }
}

/// Register conservation, for one acquisition: what was acquired can be
/// released, and releasing it leaves the machine as it was before: the same
/// registers occupied, the stack as deep.
pub proof fn lemma_release_undoes_acquire(s: MachineState, tys: Seq<WpType>)
    requires
        valid(s),
        acquirable(s, tys),
    ensures
        registers_releasable(acquire(s, tys).0, acquire(s, tys).1),
        stack_releasable(acquire(s, tys).0, acquire(s, tys).1),
        release_stack(
            release_registers(acquire(s, tys).0, acquire(s, tys).1),
            acquire(s, tys).1,
        ) == s,
{
    let after: MachineState = acquire(s, tys).0;
    let locs: Seq<Location> = acquire(s, tys).1;
    let n: int = locs.len() as int;
    lemma_acquire_takes_free(s, tys);
    lemma_acquire_grows(s, tys);
    assert forall|i: int| 0 <= i < n implies match #[trigger] locs[i] {
        Location::GPR(g) => after.used_gprs.contains(g),
        Location::XMM(x) => after.used_xmms.contains(x),
        _ => true,
    } by {
        assert(locs.contains(locs[i]));
        match locs[i] {
            Location::GPR(g) => {
                assert(gprs_in(locs).contains(g));
            },
            Location::XMM(x) => {
                assert(xmms_in(locs).contains(x));
            },
            _ => {},
        }
    }
    assert forall|i: int| 0 <= i < n && (#[trigger] locs[i]).is_frame_slot() implies locs[i].depth()
        == after.stack_offset - 8 * frame_slot_count(locs.subrange(i + 1, n)) by {
        assert(locs =~= locs.take(i) + locs.subrange(i, n));
        lemma_frame_slot_count_add(locs.take(i), locs.subrange(i, n));
        lemma_release_next(locs, i);
    }
    let back: MachineState = release_stack(release_registers(after, locs), locs);
    assert(back.used_gprs =~= s.used_gprs);
    assert(back.used_xmms =~= s.used_xmms);
    assert(back =~= s);
}

/// The stack is last in, first out: where a list can be released, the frame
/// slots in it are exactly the topmost slots of the stack, deeper ones later
/// in the list, so that read from the end the first is the top of the stack
/// and each next one lies eight bytes above it.
pub proof fn lemma_releasable_slots_are_the_top(s: MachineState, locs: Seq<Location>, i: int)
    requires
        valid(s),
        stack_releasable(s, locs),
        0 <= i < locs.len(),
        locs[i].is_frame_slot(),
    ensures
        locs[i] == frame_slot(
            s.stack_offset - 8 * frame_slot_count(locs.subrange(i + 1, locs.len() as int)),
        ),
        8 * frame_slot_count(locs.subrange(i, locs.len() as int)) <= s.stack_offset,
        forall|j: int|
            i < j < locs.len() && (#[trigger] locs[j]).is_frame_slot() ==> locs[i].depth()
                < locs[j].depth(),
{
    let n: int = locs.len() as int;
    lemma_release_next(locs, i);
    assert forall|j: int| i < j < n && (#[trigger] locs[j]).is_frame_slot() implies locs[i].depth()
        < locs[j].depth() by {
        assert(locs.subrange(i + 1, n) =~= locs.subrange(i + 1, j) + locs.subrange(j, n));
        lemma_frame_slot_count_add(locs.subrange(i + 1, j), locs.subrange(j, n));
        lemma_release_next(locs, j);
    }
}

/// The frame slots of a list that can be released are all on the stack: they
/// take no more bytes than the stack is deep.
pub proof fn lemma_slots_fit_the_stack(s: MachineState, locs: Seq<Location>)
    requires
        valid(s),
        stack_releasable(s, locs),
    ensures
        8 * frame_slot_count(locs) <= s.stack_offset,
    decreases locs.len(),
{
    if locs.len() > 0 {
        let n: int = locs.len() as int;
        let rest: Seq<Location> = locs.drop_first();
        assert forall|i: int|
            0 <= i < rest.len() && (#[trigger] rest[i]).is_frame_slot() implies rest[i].depth()
            == s.stack_offset - 8 * frame_slot_count(rest.subrange(i + 1, rest.len() as int)) by {
            assert(rest[i] == locs[i + 1]);
            assert(rest.subrange(i + 1, rest.len() as int) =~= locs.subrange(i + 2, n));
        }
        lemma_slots_fit_the_stack(s, rest);
        if locs[0].is_frame_slot() {
            assert(locs.subrange(1, n) =~= rest);
        }
    }
}

/// Releasing in another order is refused: a list that can be released can no
/// longer be released once two of its frame slots have changed places.
pub proof fn lemma_swapped_slots_are_refused(
    s: MachineState,
    locs: Seq<Location>,
    i: int,
    j: int,
)
    requires
        valid(s),
        stack_releasable(s, locs),
        0 <= i < j < locs.len(),
        locs[i].is_frame_slot(),
        locs[j].is_frame_slot(),
    ensures
        !stack_releasable(s, locs.update(i, locs[j]).update(j, locs[i])),
{
    let n: int = locs.len() as int;
    let swapped: Seq<Location> = locs.update(i, locs[j]).update(j, locs[i]);
    lemma_releasable_slots_are_the_top(s, locs, i);
    assert(locs[j].depth() == s.stack_offset - 8 * frame_slot_count(locs.subrange(j + 1, n)));
    assert(swapped.subrange(j + 1, n) =~= locs.subrange(j + 1, n));
    assert(swapped[j] == locs[i]);
    assert(swapped[j].is_frame_slot());
    assert(swapped[j].depth() != s.stack_offset - 8 * frame_slot_count(
        swapped.subrange(j + 1, n),
    ));
}

} // verus!
