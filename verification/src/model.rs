//! The mathematical model of the allocator: what its state is, and what each
//! operation makes of it.

use vstd::prelude::*;
use crate::emitter::Instruction;
use crate::frame::frame_slot;
use crate::location::{Location, RegisterClass, Size, WpType};
use crate::registers::{GPR, XMM};

verus! {

/// The state of a [`crate::machine::Machine`].
#[verifier::ext_equal]
pub struct MachineState {
    /// The general-purpose registers that are occupied.
    pub used_gprs: Set<GPR>,
    /// The vector registers that are occupied.
    pub used_xmms: Set<XMM>,
    /// How many bytes below the frame pointer are taken.
    pub stack_offset: nat,
    /// The depth of the bottom of the register save area, once the prologue
    /// has been written.
    pub save_area_offset: Option<nat>,
    /// The depth of the first local that lives on the stack.
    pub locals_offset: nat,
}

/// The deepest the stack can stand: displacements are 32-bit and signed.
pub open spec fn max_stack_offset() -> nat {
    0x7fff_ffff
}

/// What holds of the state of every machine: the stack grows by whole slots
/// of eight bytes, and every depth fits a displacement.
pub open spec fn valid(s: MachineState) -> bool {
    &&& s.stack_offset % 8 == 0
    &&& s.stack_offset <= max_stack_offset()
    &&& s.locals_offset <= 64
    &&& s.save_area_offset matches Some(off) ==> off <= max_stack_offset()
}

/// The state of a machine that has not done anything yet.
pub open spec fn fresh_state() -> MachineState {
    MachineState {
        used_gprs: Set::empty(),
        used_xmms: Set::empty(),
        stack_offset: 0,
        save_area_offset: None,
        locals_offset: 0,
    }
}

/// The general-purpose registers that may hold a value or an argument.
pub open spec fn is_value_gpr(g: GPR) -> bool {
    g == GPR::RSI || g == GPR::RDI || g == GPR::R8 || g == GPR::R9 || g == GPR::R10 || g
        == GPR::R11
}

/// The general-purpose registers kept for short-lived temporaries.
pub open spec fn is_temp_gpr(g: GPR) -> bool {
    g == GPR::RAX || g == GPR::RCX || g == GPR::RDX
}

/// The general-purpose registers that are never handed out: the frame and
/// stack pointers, the register of the instance context, and the four that
/// hold locals.
pub open spec fn is_reserved_gpr(g: GPR) -> bool {
    g == GPR::RBP || g == GPR::RSP || g == GPR::R15 || g == GPR::RBX || g == GPR::R12 || g
        == GPR::R13 || g == GPR::R14
}

/// The vector registers that may hold a value or an argument.
pub open spec fn is_value_xmm(x: XMM) -> bool {
    x == XMM::XMM3 || x == XMM::XMM4 || x == XMM::XMM5 || x == XMM::XMM6 || x == XMM::XMM7
}

/// The vector registers kept for short-lived temporaries.
pub open spec fn is_temp_xmm(x: XMM) -> bool {
    x == XMM::XMM0 || x == XMM::XMM1 || x == XMM::XMM2
}

/// The first value register, in the order of encodings, that is not in `used`.
pub open spec fn free_value_gpr(used: Set<GPR>) -> Option<GPR> {
    if !used.contains(GPR::RSI) {
        Some(GPR::RSI)
    } else if !used.contains(GPR::RDI) {
        Some(GPR::RDI)
    } else if !used.contains(GPR::R8) {
        Some(GPR::R8)
    } else if !used.contains(GPR::R9) {
        Some(GPR::R9)
    } else if !used.contains(GPR::R10) {
        Some(GPR::R10)
    } else if !used.contains(GPR::R11) {
        Some(GPR::R11)
    } else {
        None
    }
}

/// The first temporary register, in the order of encodings, that is not in
/// `used`.
pub open spec fn free_temp_gpr(used: Set<GPR>) -> Option<GPR> {
    if !used.contains(GPR::RAX) {
        Some(GPR::RAX)
    } else if !used.contains(GPR::RCX) {
        Some(GPR::RCX)
    } else if !used.contains(GPR::RDX) {
        Some(GPR::RDX)
    } else {
        None
    }
}

/// The first value register, in the order of encodings, that is not in `used`.
pub open spec fn free_value_xmm(used: Set<XMM>) -> Option<XMM> {
    if !used.contains(XMM::XMM3) {
        Some(XMM::XMM3)
    } else if !used.contains(XMM::XMM4) {
        Some(XMM::XMM4)
    } else if !used.contains(XMM::XMM5) {
        Some(XMM::XMM5)
    } else if !used.contains(XMM::XMM6) {
        Some(XMM::XMM6)
    } else if !used.contains(XMM::XMM7) {
        Some(XMM::XMM7)
    } else {
        None
    }
}

/// The first temporary register, in the order of encodings, that is not in
/// `used`.
pub open spec fn free_temp_xmm(used: Set<XMM>) -> Option<XMM> {
    if !used.contains(XMM::XMM0) {
        Some(XMM::XMM0)
    } else if !used.contains(XMM::XMM1) {
        Some(XMM::XMM1)
    } else if !used.contains(XMM::XMM2) {
        Some(XMM::XMM2)
    } else {
        None
    }
}

/// `s` with the general-purpose register `g` occupied.
pub open spec fn with_gpr(s: MachineState, g: GPR) -> MachineState {
    MachineState { used_gprs: s.used_gprs.insert(g), ..s }
}

/// `s` with the general-purpose register `g` free.
pub open spec fn without_gpr(s: MachineState, g: GPR) -> MachineState {
    MachineState { used_gprs: s.used_gprs.remove(g), ..s }
}

/// `s` with the vector register `x` occupied.
pub open spec fn with_xmm(s: MachineState, x: XMM) -> MachineState {
    MachineState { used_xmms: s.used_xmms.insert(x), ..s }
}

/// `s` with the vector register `x` free.
pub open spec fn without_xmm(s: MachineState, x: XMM) -> MachineState {
    MachineState { used_xmms: s.used_xmms.remove(x), ..s }
}

/// `s` with one more slot taken on the stack.
pub open spec fn with_slot(s: MachineState) -> MachineState {
    MachineState { stack_offset: s.stack_offset + 8, ..s }
}

/// The home found for one value of the given class, and the state after it
/// is taken: the first free value register of the class, or for want of one
/// the next slot on the stack.
pub open spec fn acquire_one(s: MachineState, class: RegisterClass) -> (MachineState, Location) {
    match class {
        RegisterClass::Float => match free_value_xmm(s.used_xmms) {
            Some(x) => (with_xmm(s, x), Location::XMM(x)),
            None => (with_slot(s), frame_slot(s.stack_offset + 8int)),
        },
        RegisterClass::Integer => match free_value_gpr(s.used_gprs) {
            Some(g) => (with_gpr(s, g), Location::GPR(g)),
            None => (with_slot(s), frame_slot(s.stack_offset + 8int)),
        },
    }
}

/// The homes found for values of the types `tys`, one after another from the
/// first, and the state after all are taken. It says nothing of a type
/// without a register class.
pub open spec fn acquire(s: MachineState, tys: Seq<WpType>) -> (MachineState, Seq<Location>)
    decreases tys.len(),
{
    if tys.len() == 0 {
        (s, Seq::empty())
    } else {
        let before = acquire(s, tys.drop_last());
        let one = acquire_one(before.0, tys.last().class()->0);
        (one.0, before.1.push(one.1))
    }
}

/// A 64-bit zero to each of `locs`, in order.
pub open spec fn zeroing(locs: Seq<Location>) -> Seq<Instruction> {
    Seq::new(locs.len(), |i: int| Instruction::Mov(Size::S64, Location::Imm32(0), locs[i]))
}

/// What acquiring homes for `tys` emits: one subtraction from the stack
/// pointer for all the slots taken, if any was, and then, if asked for, a
/// zero to every home, be it a register or a slot.
pub open spec fn acquire_emission(s: MachineState, tys: Seq<WpType>, zeroed: bool) -> Seq<
    Instruction,
> {
    let after = acquire(s, tys);
    let delta = after.0.stack_offset - s.stack_offset;
    (if delta != 0 {
        seq![
            Instruction::Sub(Size::S64, Location::Imm32(delta as u32), Location::GPR(GPR::RSP)),
        ]
    } else {
        Seq::empty()
    }) + (if zeroed {
        zeroing(after.1)
    } else {
        Seq::empty()
    })
}

/// How many of `locs` are slots of the current frame.
pub open spec fn frame_slot_count(locs: Seq<Location>) -> nat
    decreases locs.len(),
{
    if locs.len() == 0 {
        0
    } else {
        (if locs.first().is_frame_slot() {
            1nat
        } else {
            0nat
        }) + frame_slot_count(locs.drop_first())
    }
}

/// The general-purpose registers among `locs`.
pub open spec fn gprs_in(locs: Seq<Location>) -> Set<GPR> {
    Set::new(|g: GPR| locs.contains(Location::GPR(g)))
}

/// The vector registers among `locs`.
pub open spec fn xmms_in(locs: Seq<Location>) -> Set<XMM> {
    Set::new(|x: XMM| locs.contains(Location::XMM(x)))
}

/// Whether the registers among `locs` can be released: each is occupied, and
/// none is named twice.
pub open spec fn registers_releasable(s: MachineState, locs: Seq<Location>) -> bool {
    &&& forall|i: int|
        0 <= i < locs.len() ==> match #[trigger] locs[i] {
            Location::GPR(g) => s.used_gprs.contains(g),
            Location::XMM(x) => s.used_xmms.contains(x),
            _ => true,
        }
    &&& forall|i: int, j: int|
        0 <= i < j < locs.len() && (#[trigger] locs[i]).is_register() ==> locs[i]
            != #[trigger] locs[j]
}

/// Whether the frame slots among `locs` can be released, last first: each
/// must be the top of the stack once those behind it in `locs` are gone.
pub open spec fn stack_releasable(s: MachineState, locs: Seq<Location>) -> bool {
    forall|i: int|
        0 <= i < locs.len() && (#[trigger] locs[i]).is_frame_slot() ==> locs[i].depth()
            == s.stack_offset - 8 * frame_slot_count(locs.subrange(i + 1, locs.len() as int))
}

/// `s` with the registers among `locs` free.
pub open spec fn release_registers(s: MachineState, locs: Seq<Location>) -> MachineState {
    MachineState {
        used_gprs: s.used_gprs.difference(gprs_in(locs)),
        used_xmms: s.used_xmms.difference(xmms_in(locs)),
        ..s
    }
}

/// `s` with the frame slots among `locs` given back.
pub open spec fn release_stack(s: MachineState, locs: Seq<Location>) -> MachineState {
    MachineState { stack_offset: (s.stack_offset - 8 * frame_slot_count(locs)) as nat, ..s }
}

/// What releasing `locs` emits: one addition to the stack pointer for all
/// the frame slots among them, if there is any.
pub open spec fn release_emission(locs: Seq<Location>) -> Seq<Instruction> {
    let delta = 8 * frame_slot_count(locs);
    if delta != 0 {
        seq![
            Instruction::Add(Size::S64, Location::Imm32(delta as u32), Location::GPR(GPR::RSP)),
        ]
    } else {
        Seq::empty()
    }
}

/// Acquiring for one more type is acquiring for those before it and then for
/// the one.
pub proof fn lemma_acquire_next(s: MachineState, tys: Seq<WpType>, i: int)
    requires
        0 <= i < tys.len(),
    ensures
        acquire(s, tys.take(i + 1)) == ({
            let before = acquire(s, tys.take(i));
            let one = acquire_one(before.0, tys[i].class()->0);
            (one.0, before.1.push(one.1))
        }),
{
    assert(tys.take(i + 1).drop_last() =~= tys.take(i));
    assert(tys.take(i + 1).last() == tys[i]);
}

/// Acquiring yields one home for each type, touches neither the save area
/// nor the place of the locals, and only ever takes: registers stay occupied
/// and the stack grows by whole slots, at most one for each type.
pub proof fn lemma_acquire_grows(s: MachineState, tys: Seq<WpType>)
    ensures
        acquire(s, tys).1.len() == tys.len(),
        acquire(s, tys).0.save_area_offset == s.save_area_offset,
        acquire(s, tys).0.locals_offset == s.locals_offset,
        acquire(s, tys).0.stack_offset >= s.stack_offset,
        acquire(s, tys).0.stack_offset <= s.stack_offset + 8 * tys.len(),
        acquire(s, tys).0.stack_offset % 8 == s.stack_offset % 8,
        s.used_gprs.subset_of(acquire(s, tys).0.used_gprs),
        s.used_xmms.subset_of(acquire(s, tys).0.used_xmms),
    decreases tys.len(),
{
    if tys.len() > 0 {
        lemma_acquire_grows(s, tys.drop_last());
    }
}

/// The stack after acquiring for the first `i` types is no deeper than
/// after acquiring for all.
pub proof fn lemma_acquire_prefix_is_shallower(s: MachineState, tys: Seq<WpType>, i: int)
    requires
        0 <= i <= tys.len(),
    ensures
        acquire(s, tys.take(i)).0.stack_offset <= acquire(s, tys).0.stack_offset,
    decreases tys.len() - i,
{
    if i == tys.len() {
        assert(tys.take(i) =~= tys);
    } else {
        lemma_acquire_next(s, tys, i);
        lemma_acquire_prefix_is_shallower(s, tys, i + 1);
    }
}

/// What is among the locations from position `i` on, in terms of what is
/// among those after position `i`.
pub proof fn lemma_release_next(locs: Seq<Location>, i: int)
    requires
        0 <= i < locs.len(),
    ensures
        frame_slot_count(locs.subrange(i, locs.len() as int)) == (if locs[i].is_frame_slot() {
            1nat
        } else {
            0nat
        }) + frame_slot_count(locs.subrange(i + 1, locs.len() as int)),
        gprs_in(locs.subrange(i, locs.len() as int)) == (match locs[i] {
            Location::GPR(g) => gprs_in(locs.subrange(i + 1, locs.len() as int)).insert(g),
            _ => gprs_in(locs.subrange(i + 1, locs.len() as int)),
        }),
        xmms_in(locs.subrange(i, locs.len() as int)) == (match locs[i] {
            Location::XMM(x) => xmms_in(locs.subrange(i + 1, locs.len() as int)).insert(x),
            _ => xmms_in(locs.subrange(i + 1, locs.len() as int)),
        }),
{
    let n: int = locs.len() as int;
    let from: Seq<Location> = locs.subrange(i, n);
    let after: Seq<Location> = locs.subrange(i + 1, n);
    assert(from.drop_first() =~= after);
    assert(from.first() == locs[i]);
    assert forall|v: Location| from.contains(v) == (v == locs[i] || after.contains(v)) by {
        if from.contains(v) {
            let k: int = choose|k: int| 0 <= k < from.len() && from[k] == v;
            if k > 0 {
                assert(after[k - 1] == v);
            }
        }
        if after.contains(v) {
            let k: int = choose|k: int| 0 <= k < after.len() && after[k] == v;
            assert(from[k + 1] == v);
        }
        if v == locs[i] {
            assert(from[0] == v);
        }
    }
    assert(gprs_in(from) =~= (match locs[i] {
        Location::GPR(g) => gprs_in(after).insert(g),
        _ => gprs_in(after),
    }));
    assert(xmms_in(from) =~= (match locs[i] {
        Location::XMM(x) => xmms_in(after).insert(x),
        _ => xmms_in(after),
    }));
}

/// Among no locations there is no frame slot and no register.
pub proof fn lemma_release_none()
    ensures
        frame_slot_count(Seq::<Location>::empty()) == 0,
        gprs_in(Seq::<Location>::empty()) == Set::<GPR>::empty(),
        xmms_in(Seq::<Location>::empty()) == Set::<XMM>::empty(),
{
    assert(gprs_in(Seq::<Location>::empty()) =~= Set::<GPR>::empty());
    assert(xmms_in(Seq::<Location>::empty()) =~= Set::<XMM>::empty());
}

/// Whether every type of `tys` has a register class.
pub open spec fn all_supported(tys: Seq<WpType>) -> bool {
    forall|i: int| 0 <= i < tys.len() ==> (#[trigger] tys[i]).is_supported()
}

/// Whether homes for `tys` can be acquired in state `s`: every type has a
/// register class, and the stack stays within reach of a displacement.
pub open spec fn acquirable(s: MachineState, tys: Seq<WpType>) -> bool {
    all_supported(tys) && acquire(s, tys).0.stack_offset <= max_stack_offset()
}

/// Whether the location `loc` can be released before the locations `later`
/// are: a register must be occupied and not be among `later`, and a frame
/// slot must be the top of the stack once the slots among `later` are gone.
pub open spec fn releasable_before(s: MachineState, loc: Location, later: Seq<Location>) -> bool {
    match loc {
        Location::GPR(g) => s.used_gprs.contains(g) && !gprs_in(later).contains(g),
        Location::XMM(x) => s.used_xmms.contains(x) && !xmms_in(later).contains(x),
        _ => loc.is_frame_slot() ==> loc.depth() == s.stack_offset - 8 * frame_slot_count(later),
    }
}

/// A list can be released from position `i` on exactly if it can be from
/// the next position on and the location at `i` can be released before
/// those. What can be released as a whole can be released from any position
/// on.
pub proof fn lemma_releasable_from(s: MachineState, locs: Seq<Location>, i: int)
    requires
        0 <= i < locs.len(),
    ensures
        registers_releasable(s, locs.subrange(i, locs.len() as int)) <==> registers_releasable(
            s,
            locs.subrange(i + 1, locs.len() as int),
        ) && (locs[i].is_register() ==> releasable_before(
            s,
            locs[i],
            locs.subrange(i + 1, locs.len() as int),
        )),
        stack_releasable(s, locs.subrange(i, locs.len() as int)) <==> stack_releasable(
            s,
            locs.subrange(i + 1, locs.len() as int),
        ) && (locs[i].is_frame_slot() ==> releasable_before(
            s,
            locs[i],
            locs.subrange(i + 1, locs.len() as int),
        )),
        registers_releasable(s, locs) ==> registers_releasable(
            s,
            locs.subrange(i, locs.len() as int),
        ),
        stack_releasable(s, locs) ==> stack_releasable(s, locs.subrange(i, locs.len() as int)),
{
    let n: int = locs.len() as int;
    let from: Seq<Location> = locs.subrange(i, n);
    let after: Seq<Location> = locs.subrange(i + 1, n);
    assert(from[0] == locs[i]);
    assert forall|k: int| 0 <= k < after.len() implies #[trigger] after[k] == from[k + 1] by {}
    assert forall|k: int| 0 <= k < after.len() implies #[trigger] after.subrange(
        k + 1,
        after.len() as int,
    ) == from.subrange(k + 2, from.len() as int) by {
        assert(after.subrange(k + 1, after.len() as int) =~= from.subrange(
            k + 2,
            from.len() as int,
        ));
    }
    assert(from.subrange(1, from.len() as int) =~= after);
    assert forall|k: int| 0 <= k < from.len() implies #[trigger] from.subrange(
        k + 1,
        from.len() as int,
    ) == locs.subrange(i + k + 1, n) by {
        assert(from.subrange(k + 1, from.len() as int) =~= locs.subrange(i + k + 1, n));
    }

    // Registers.
    if registers_releasable(s, from) {
        assert forall|k: int| 0 <= k < after.len() implies match #[trigger] after[k] {
            Location::GPR(g) => s.used_gprs.contains(g),
            Location::XMM(x) => s.used_xmms.contains(x),
            _ => true,
        } by {
            assert(after[k] == from[k + 1]);
        }
        assert forall|k: int, l: int|
            0 <= k < l < after.len() && (#[trigger] after[k]).is_register() implies after[k]
            != #[trigger] after[l] by {
            assert(after[k] == from[k + 1] && after[l] == from[l + 1]);
        }
        if locs[i].is_register() {
            if after.contains(locs[i]) {
                let k: int = choose|k: int| 0 <= k < after.len() && after[k] == locs[i];
                assert(from[k + 1] == from[0]);
            }
        }
    }
    if registers_releasable(s, after) && (locs[i].is_register() ==> releasable_before(
        s,
        locs[i],
        after,
    )) {
        assert forall|k: int| 0 <= k < from.len() implies match #[trigger] from[k] {
            Location::GPR(g) => s.used_gprs.contains(g),
            Location::XMM(x) => s.used_xmms.contains(x),
            _ => true,
        } by {
            if k > 0 {
                assert(from[k] == after[k - 1]);
            }
        }
        assert forall|k: int, l: int|
            0 <= k < l < from.len() && (#[trigger] from[k]).is_register() implies from[k]
            != #[trigger] from[l] by {
            if k > 0 {
                assert(from[k] == after[k - 1] && from[l] == after[l - 1]);
            } else {
                assert(after[l - 1] == from[l]);
                assert(after.contains(from[l]));
            }
        }
    }
    // Frame slots.
    if stack_releasable(s, from) {
        assert forall|k: int|
            0 <= k < after.len() && (#[trigger] after[k]).is_frame_slot() implies after[k].depth()
            == s.stack_offset - 8 * frame_slot_count(after.subrange(k + 1, after.len() as int)) by {
            assert(after[k] == from[k + 1]);
        }
    }
    if stack_releasable(s, after) && (locs[i].is_frame_slot() ==> releasable_before(
        s,
        locs[i],
        after,
    )) {
        assert forall|k: int|
            0 <= k < from.len() && (#[trigger] from[k]).is_frame_slot() implies from[k].depth()
            == s.stack_offset - 8 * frame_slot_count(from.subrange(k + 1, from.len() as int)) by {
            if k > 0 {
                assert(from[k] == after[k - 1]);
                assert(from.subrange(k + 1, from.len() as int) == after.subrange(
                    k,
                    after.len() as int,
                ));
            }
        }
    }
    // From the whole list to the part from `i` on.
    if registers_releasable(s, locs) {
        assert forall|k: int| 0 <= k < from.len() implies match #[trigger] from[k] {
            Location::GPR(g) => s.used_gprs.contains(g),
            Location::XMM(x) => s.used_xmms.contains(x),
            _ => true,
        } by {
            assert(from[k] == locs[i + k]);
        }
        assert forall|k: int, l: int|
            0 <= k < l < from.len() && (#[trigger] from[k]).is_register() implies from[k]
            != #[trigger] from[l] by {
            assert(from[k] == locs[i + k] && from[l] == locs[i + l]);
        }
    }
    if stack_releasable(s, locs) {
        assert forall|k: int|
            0 <= k < from.len() && (#[trigger] from[k]).is_frame_slot() implies from[k].depth()
            == s.stack_offset - 8 * frame_slot_count(from.subrange(k + 1, from.len() as int)) by {
            assert(from[k] == locs[i + k]);
        }
    }
}

} // verus!
