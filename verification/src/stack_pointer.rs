//! What the emitted instructions do to the stack pointer.

use vstd::prelude::*;
use crate::emitter::Instruction;
use crate::frame::{
    after_prologue, epilogue, frame_locals_offset, frame_slot, locals_size, param_load,
    param_loads, param_location, probes, prologue, register_locals, register_zeroing, restores,
    saved_registers, spills, stack_zeroing, static_area_size,
};
use crate::history::{
    all_permitted, emission_of, emitted, lemma_occupied_is_live, lemma_paired_calls_restore,
    live, nothing_live, run, Call,
};
use crate::location::{CallingConvention, Location, Size, WpType};
use crate::model::{
    acquirable, acquire, acquire_emission, lemma_acquire_grows, max_stack_offset, release_emission,
    release_stack, stack_releasable, valid, zeroing, MachineState,
};
use crate::registers::GPR;

verus! {

/// The stack pointer after `instr`, when it was `rsp` before and the frame
/// pointer is `rbp`. Only the forms that the allocator writes to the stack
/// pointer with are told apart; every other instruction leaves it.
pub open spec fn rsp_after_one(instr: Instruction, rsp: int, rbp: int) -> int {
    match instr {
        Instruction::Sub(_, Location::Imm32(k), Location::GPR(GPR::RSP)) => rsp - k,
        Instruction::Add(_, Location::Imm32(k), Location::GPR(GPR::RSP)) => rsp + k,
        Instruction::Lea(_, Location::Memory(GPR::RBP, d), Location::GPR(GPR::RSP)) => rbp + d,
        Instruction::Pop(_, _) => rsp + 8,
        _ => rsp,
    }
}

/// The stack pointer after `instrs`, run in order.
pub open spec fn rsp_after(instrs: Seq<Instruction>, rsp: int, rbp: int) -> int
    decreases instrs.len(),
{
    if instrs.len() == 0 {
        rsp
    } else {
        rsp_after_one(instrs.last(), rsp_after(instrs.drop_last(), rsp, rbp), rbp)
    }
}

/// Running one sequence and then another is running the two put together.
pub proof fn lemma_rsp_after_add(a: Seq<Instruction>, b: Seq<Instruction>, rsp: int, rbp: int)
    ensures
        rsp_after(a + b, rsp, rbp) == rsp_after(b, rsp_after(a, rsp, rbp), rbp),
    decreases b.len(),
{
    if b.len() == 0 {
        assert(a + b =~= a);
    } else {
        assert((a + b).drop_last() =~= a + b.drop_last());
        lemma_rsp_after_add(a, b.drop_last(), rsp, rbp);
    }
}

/// Each pop moves the stack pointer up by eight bytes.
pub proof fn lemma_rsp_after_restores(regs: Seq<GPR>, k: int, rsp: int, rbp: int)
    requires
        0 <= k <= regs.len(),
    ensures
        rsp_after(restores(regs).take(k), rsp, rbp) == rsp + 8 * k,
    decreases k,
{
    if k > 0 {
        assert(restores(regs).take(k).drop_last() =~= restores(regs).take(k - 1));
        lemma_rsp_after_restores(regs, k - 1, rsp, rbp);
    }
}

/// Zeroing homes does not move the stack pointer.
pub proof fn lemma_rsp_after_zeroing(locs: Seq<Location>, k: int, rsp: int, rbp: int)
    requires
        0 <= k <= locs.len(),
    ensures
        rsp_after(zeroing(locs).take(k), rsp, rbp) == rsp,
    decreases k,
{
    if k > 0 {
        assert(zeroing(locs).take(k).drop_last() =~= zeroing(locs).take(k - 1));
        lemma_rsp_after_zeroing(locs, k - 1, rsp, rbp);
    }
}

/// What acquiring emits moves the stack pointer down by as much as the
/// machine's stack offset grows.
pub proof fn lemma_acquire_moves_rsp(
    s: MachineState,
    tys: Seq<WpType>,
    zeroed: bool,
    rsp: int,
    rbp: int,
)
    requires
        valid(s),
        acquirable(s, tys),
    ensures
        rsp - rsp_after(acquire_emission(s, tys, zeroed), rsp, rbp) == acquire(
            s,
            tys,
        ).0.stack_offset - s.stack_offset,
{
    let locs: Seq<Location> = acquire(s, tys).1;
    let delta: int = acquire(s, tys).0.stack_offset - s.stack_offset;
    lemma_acquire_grows(s, tys);
    let reserve: Seq<Instruction> = if delta != 0 {
        seq![
            Instruction::Sub(Size::S64, Location::Imm32(delta as u32), Location::GPR(GPR::RSP)),
        ]
    } else {
        Seq::empty()
    };
    let zeroes: Seq<Instruction> = if zeroed {
        zeroing(locs)
    } else {
        Seq::empty()
    };
    lemma_rsp_after_add(reserve, zeroes, rsp, rbp);
    if delta != 0 {
        assert(reserve.drop_last() =~= Seq::<Instruction>::empty());
        assert(rsp_after(reserve, rsp, rbp) == rsp - delta) by {
            reveal_with_fuel(rsp_after, 2);
        }
    }
    if zeroed {
        assert(zeroing(locs).take(locs.len() as int) =~= zeroing(locs));
        lemma_rsp_after_zeroing(locs, locs.len() as int, rsp_after(reserve, rsp, rbp), rbp);
    }
}

/// What releasing emits moves the stack pointer up by as much as the
/// machine's stack offset falls; and since releasing with the state kept
/// emits the same, it moves the stack pointer as the release it stands for
/// would.
pub proof fn lemma_release_moves_rsp(s: MachineState, locs: Seq<Location>, rsp: int, rbp: int)
    requires
        valid(s),
        stack_releasable(s, locs),
    ensures
        rsp_after(release_emission(locs), rsp, rbp) - rsp == s.stack_offset - release_stack(
            s,
            locs,
        ).stack_offset,
{
    let n: int = locs.len() as int;
    let delta: nat = 8 * crate::model::frame_slot_count(locs);
    crate::laws::lemma_slots_fit_the_stack(s, locs);
    if delta != 0 {
        let give: Seq<Instruction> = release_emission(locs);
        assert(give.drop_last() =~= Seq::<Instruction>::empty());
        assert(rsp_after(give, rsp, rbp) == rsp + delta) by {
            reveal_with_fuel(rsp_after, 2);
        }
    }
}

/// Prologue and epilogue are symmetric in the stack pointer: whatever runs
/// between them and leaves the frame pointer alone, the stack pointer after
/// the epilogue is where it was before the prologue: at the frame pointer
/// for a machine that started with an empty stack, and `base` bytes below it
/// in general.
pub proof fn lemma_frame_leaves_rsp(
    base: nat,
    n: nat,
    n_params: nat,
    cc: CallingConvention,
    middle: Seq<Instruction>,
    rbp: int,
)
    requires
        base + static_area_size(n, cc) <= max_stack_offset(),
    ensures
        rsp_after(
            prologue(base, n, n_params, cc) + middle + epilogue(
                base + static_area_size(n, cc),
                n,
                cc,
            ),
            rbp - base,
            rbp,
        ) == rbp - base,
{
    let save: nat = base + static_area_size(n, cc);
    let saved: Seq<GPR> = saved_registers(n, cc);
    let before: Seq<Instruction> = prologue(base, n, n_params, cc) + middle;
    let unwind: Seq<Instruction> = seq![
        Instruction::Lea(Size::S64, frame_slot(save as int), Location::GPR(GPR::RSP)),
    ];
    let here: int = rsp_after(before, rbp - base, rbp);
    lemma_rsp_after_add(before, epilogue(save, n, cc), rbp - base, rbp);
    lemma_rsp_after_add(unwind, restores(saved), here, rbp);
    assert(unwind.drop_last() =~= Seq::<Instruction>::empty());
    assert(rsp_after(unwind, here, rbp) == rbp - save) by {
        reveal_with_fuel(rsp_after, 2);
    }
    assert(restores(saved).take(saved.len() as int) =~= restores(saved));
    lemma_rsp_after_restores(saved, saved.len() as int, rbp - save, rbp);
    assert(8 * saved.len() == static_area_size(n, cc));
}

/// The epilogue restores exactly what the prologue saved, in reverse order:
/// the register that the prologue stored as its `k`-th is popped as the
/// `k`-th from the end, and the stack pointer then stands at the very slot
/// where it was stored.
pub proof fn lemma_epilogue_restores_what_was_saved(
    base: nat,
    n: nat,
    n_params: nat,
    cc: CallingConvention,
    k: int,
    rsp: int,
    rbp: int,
)
    requires
        base + static_area_size(n, cc) <= max_stack_offset(),
        0 <= k < saved_registers(n, cc).len(),
    ensures
        saved_registers(n, cc).len() == register_locals(n) + 1 + (match cc {
            CallingConvention::WindowsFastcall => 2int,
            CallingConvention::SystemV => 0int,
        }),
        prologue(base, n, n_params, cc)[1 + k] == Instruction::Mov(
            Size::S64,
            Location::GPR(saved_registers(n, cc)[k]),
            frame_slot(base + 8 * (k + 1)),
        ),
        epilogue(base + static_area_size(n, cc), n, cc)[saved_registers(n, cc).len() - k]
            == Instruction::Pop(Size::S64, Location::GPR(saved_registers(n, cc)[k])),
        rsp_after(
            epilogue(base + static_area_size(n, cc), n, cc).take(
                saved_registers(n, cc).len() - k,
            ),
            rsp,
            rbp,
        ) == rbp - (base + 8 * (k + 1)),
{
    let save: nat = base + static_area_size(n, cc);
    let saved: Seq<GPR> = saved_registers(n, cc);
    let m: int = saved.len() as int;
    let unwind: Seq<Instruction> = seq![
        Instruction::Lea(Size::S64, frame_slot(save as int), Location::GPR(GPR::RSP)),
    ];
    let e: Seq<Instruction> = epilogue(save, n, cc);
    assert(e.take(m - k) =~= unwind + restores(saved).take(m - k - 1));
    lemma_rsp_after_add(unwind, restores(saved).take(m - k - 1), rsp, rbp);
    assert(unwind.drop_last() =~= Seq::<Instruction>::empty());
    assert(rsp_after(unwind, rsp, rbp) == rbp - save) by {
        reveal_with_fuel(rsp_after, 2);
    }
    lemma_rsp_after_restores(saved, m - k - 1, rbp - save, rbp);
    assert(prologue(base, n, n_params, cc)[1 + k] == spills(base, saved)[k]);
}

/// Whether `instr` is one of the forms that move the stack pointer.
pub open spec fn moves_rsp(instr: Instruction) -> bool {
    match instr {
        Instruction::Sub(_, Location::Imm32(_), Location::GPR(GPR::RSP)) => true,
        Instruction::Add(_, Location::Imm32(_), Location::GPR(GPR::RSP)) => true,
        Instruction::Lea(_, Location::Memory(GPR::RBP, _), Location::GPR(GPR::RSP)) => true,
        Instruction::Pop(_, _) => true,
        _ => false,
    }
}

/// Instructions none of which moves the stack pointer leave it where it was.
pub proof fn lemma_rsp_stays(instrs: Seq<Instruction>, rsp: int, rbp: int)
    requires
        forall|i: int| 0 <= i < instrs.len() ==> !moves_rsp(#[trigger] instrs[i]),
    ensures
        rsp_after(instrs, rsp, rbp) == rsp,
    decreases instrs.len(),
{
    if instrs.len() > 0 {
        assert forall|i: int| 0 <= i < instrs.drop_last().len() implies !moves_rsp(
            #[trigger] instrs.drop_last()[i],
        ) by {
            assert(instrs.drop_last()[i] == instrs[i]);
        }
        lemma_rsp_stays(instrs.drop_last(), rsp, rbp);
        assert(!moves_rsp(instrs[instrs.len() - 1]));
    }
}

/// Bringing the parameters to their locals does not move the stack pointer.
pub proof fn lemma_param_loads_leave_rsp(count: nat, cc: CallingConvention, locals_offset: nat)
    ensures
        forall|i: int|
            0 <= i < param_loads(count, cc, locals_offset).len() ==> !moves_rsp(
                #[trigger] param_loads(count, cc, locals_offset)[i],
            ),
    decreases count,
{
    if count > 0 {
        lemma_param_loads_leave_rsp((count - 1) as nat, cc, locals_offset);
        let before: Seq<Instruction> = param_loads((count - 1) as nat, cc, locals_offset);
        let one: Seq<Instruction> = param_load((count - 1) as nat, cc, locals_offset);
        assert forall|i: int| 0 <= i < (before + one).len() implies !moves_rsp(
            #[trigger] (before + one)[i],
        ) by {
            if i < before.len() {
                assert((before + one)[i] == before[i]);
            } else {
                assert((before + one)[i] == one[i - before.len()]);
            }
        }
    }
}

/// The prologue moves the stack pointer down by the size of the frame, which
/// is by as much as the machine's stack offset grows.
pub proof fn lemma_prologue_moves_rsp(
    base: nat,
    n: nat,
    n_params: nat,
    cc: CallingConvention,
    rsp: int,
    rbp: int,
)
    requires
        base + static_area_size(n, cc) + locals_size(n) <= max_stack_offset(),
    ensures
        rsp_after(prologue(base, n, n_params, cc), rsp, rbp) == rsp - (static_area_size(n, cc)
            + locals_size(n)),
{
    let lo: nat = frame_locals_offset(n, cc);
    let reserve: Seq<Instruction> = seq![
        Instruction::Sub(
            Size::S64,
            Location::Imm32((static_area_size(n, cc) + locals_size(n)) as u32),
            Location::GPR(GPR::RSP),
        ),
    ];
    let rest: Seq<Instruction> = spills(base, saved_registers(n, cc)) + param_loads(
        n_params,
        cc,
        lo,
    ) + seq![Instruction::Mov(Size::S64, param_location(0, cc), Location::GPR(GPR::R15))]
        + probes(n, n_params, lo) + register_zeroing(n, n_params) + stack_zeroing(
        n,
        n_params,
        lo,
    );
    assert(prologue(base, n, n_params, cc) =~= reserve + rest);
    lemma_rsp_after_add(reserve, rest, rsp, rbp);
    assert(reserve.drop_last() =~= Seq::<Instruction>::empty());
    assert(rsp_after(reserve, rsp, rbp) == rsp - (static_area_size(n, cc) + locals_size(n))) by {
        reveal_with_fuel(rsp_after, 2);
    }
    lemma_param_loads_leave_rsp(n_params, cc, lo);
    lemma_rsp_stays(rest, rsp_after(reserve, rsp, rbp), rbp);
}

/// The stack offset follows the stack pointer: what permitted calls emit
/// moves the stack pointer down by exactly as much as the machine's stack
/// offset grows over them.
pub proof fn lemma_stack_offset_follows_rsp(
    s: MachineState,
    calls: Seq<Call>,
    rsp: int,
    rbp: int,
)
    requires
        valid(s),
        all_permitted(s, calls),
    ensures
        rsp - rsp_after(emitted(s, calls), rsp, rbp) == run(s, calls).stack_offset
            - s.stack_offset,
    decreases calls.len(),
{
    if calls.len() > 0 {
        let earlier: Seq<Call> = calls.drop_last();
        let before: MachineState = run(s, earlier);
        let here: int = rsp_after(emitted(s, earlier), rsp, rbp);
        lemma_stack_offset_follows_rsp(s, earlier, rsp, rbp);
        lemma_occupied_is_live(s, earlier);
        lemma_rsp_after_add(emitted(s, earlier), emission_of(before, calls.last()), rsp, rbp);
        match calls.last() {
            Call::AcquireLocations(tys, zeroed) => {
                lemma_acquire_moves_rsp(before, tys, zeroed, here, rbp);
            },
            Call::ReleaseLocations(locs) => {
                lemma_release_moves_rsp(before, locs, here, rbp);
            },
            Call::ReleaseLocationsOnlyStack(locs) => {
                lemma_release_moves_rsp(before, locs, here, rbp);
            },
            _ => {},
        }
    }
}

/// Prologue and epilogue are symmetric. Let the prologue be written in
/// state `s`, with the stack pointer as far below the frame pointer as the
/// stack offset says; then any calls be made that are permitted; then the
/// epilogue be written. Before the epilogue the stack pointer still lies as
/// far below the frame pointer as the stack offset says; the epilogue
/// unwinds to the save area that the prologue laid out; after it the stack
/// pointer is where it was before the prologue; and where the calls pair
/// up, the machine before the epilogue is as it was after the prologue.
pub proof fn lemma_prologue_epilogue_symmetry(
    s: MachineState,
    n: nat,
    n_params: nat,
    cc: CallingConvention,
    calls: Seq<Call>,
    rbp: int,
)
    requires
        valid(s),
        s.stack_offset + static_area_size(n, cc) + locals_size(n) <= max_stack_offset(),
        all_permitted(after_prologue(s, n, cc), calls),
    ensures
        rsp_after(
            prologue(s.stack_offset, n, n_params, cc) + emitted(after_prologue(s, n, cc), calls),
            rbp - s.stack_offset,
            rbp,
        ) == rbp - run(after_prologue(s, n, cc), calls).stack_offset,
        run(after_prologue(s, n, cc), calls).save_area_offset == Some(
            s.stack_offset + static_area_size(n, cc),
        ),
        rsp_after(
            prologue(s.stack_offset, n, n_params, cc) + emitted(after_prologue(s, n, cc), calls)
                + epilogue(run(after_prologue(s, n, cc), calls).save_area_offset->0, n, cc),
            rbp - s.stack_offset,
            rbp,
        ) == rbp - s.stack_offset,
        live(after_prologue(s, n, cc), calls) == nothing_live() ==> run(
            after_prologue(s, n, cc),
            calls,
        ) == after_prologue(s, n, cc),
{
    let framed: MachineState = after_prologue(s, n, cc);
    let entry: int = rbp - s.stack_offset;
    let body: Seq<Instruction> = emitted(framed, calls);
    lemma_occupied_is_live(framed, calls);
    lemma_prologue_moves_rsp(s.stack_offset, n, n_params, cc, entry, rbp);
    lemma_rsp_after_add(prologue(s.stack_offset, n, n_params, cc), body, entry, rbp);
    lemma_stack_offset_follows_rsp(
        framed,
        calls,
        rsp_after(prologue(s.stack_offset, n, n_params, cc), entry, rbp),
        rbp,
    );
    lemma_frame_leaves_rsp(s.stack_offset, n, n_params, cc, body, rbp);
    if live(framed, calls) == nothing_live() {
        lemma_paired_calls_restore(framed, calls);
    }
}

} // verus!
