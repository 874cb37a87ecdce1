//! The layout of a function's frame, and the instructions that build it and
//! take it down.
//!
//! Addresses fall from the frame pointer: first the registers that the
//! function must preserve, then the locals that found no register, then the
//! slots of the value stack.

use vstd::prelude::*;
use crate::emitter::Instruction;
use crate::location::{CallingConvention, Location, Size};
use crate::model::MachineState;
use crate::registers::GPR;

verus! {

/// The slot that lies `depth` bytes below the frame pointer.
pub open spec fn frame_slot(depth: int) -> Location {
    Location::Memory(GPR::RBP, (-depth) as i32)
}

/// The register that holds local `i`, for the four locals that have one.
pub open spec fn local_register(i: int) -> GPR
    recommends
        0 <= i < 4,
{
    if i == 0 {
        GPR::R12
    } else if i == 1 {
        GPR::R13
    } else if i == 2 {
        GPR::R14
    } else {
        GPR::RBX
    }
}

/// How many locals live in registers when there are `n` of them.
pub open spec fn register_locals(n: nat) -> nat {
    if n < 4 {
        n
    } else {
        4
    }
}

/// Where local `idx` lives: the first four in registers, the others in
/// consecutive slots from `locals_offset` downwards.
pub open spec fn local_location(idx: nat, locals_offset: nat) -> Location {
    if idx < 4 {
        Location::GPR(local_register(idx as int))
    } else {
        frame_slot(locals_offset + (idx - 4) * 8)
    }
}

/// How many arguments the convention passes in registers.
pub open spec fn register_params(cc: CallingConvention) -> nat {
    match cc {
        CallingConvention::WindowsFastcall => 4,
        CallingConvention::SystemV => 6,
    }
}

/// The displacement from the frame pointer of argument `idx`, where it is
/// passed on the stack: above the saved frame pointer and the return
/// address, and on Windows above the 32 bytes of shadow space.
pub open spec fn param_displacement(idx: nat, cc: CallingConvention) -> int {
    match cc {
        CallingConvention::WindowsFastcall => 16 + 32 + (idx - 4) * 8,
        CallingConvention::SystemV => 16 + (idx - 6) * 8,
    }
}

/// Where the caller has put argument `idx`.
pub open spec fn param_location(idx: nat, cc: CallingConvention) -> Location {
    match cc {
        CallingConvention::WindowsFastcall => if idx == 0 {
            Location::GPR(GPR::RCX)
        } else if idx == 1 {
            Location::GPR(GPR::RDX)
        } else if idx == 2 {
            Location::GPR(GPR::R8)
        } else if idx == 3 {
            Location::GPR(GPR::R9)
        } else {
            Location::Memory(GPR::RBP, param_displacement(idx, cc) as i32)
        },
        CallingConvention::SystemV => if idx == 0 {
            Location::GPR(GPR::RDI)
        } else if idx == 1 {
            Location::GPR(GPR::RSI)
        } else if idx == 2 {
            Location::GPR(GPR::RDX)
        } else if idx == 3 {
            Location::GPR(GPR::RCX)
        } else if idx == 4 {
            Location::GPR(GPR::R8)
        } else if idx == 5 {
            Location::GPR(GPR::R9)
        } else {
            Location::Memory(GPR::RBP, param_displacement(idx, cc) as i32)
        },
    }
}

/// The registers the prologue saves, in the order in which it saves them:
/// those that will hold locals, the register of the instance context, and on
/// Windows RDI and RSI.
pub open spec fn saved_registers(n: nat, cc: CallingConvention) -> Seq<GPR> {
    Seq::new(register_locals(n), |i: int| local_register(i)) + seq![GPR::R15] + (match cc {
        CallingConvention::WindowsFastcall => seq![GPR::RDI, GPR::RSI],
        CallingConvention::SystemV => Seq::empty(),
    })
}

/// The size in bytes of the register save area.
pub open spec fn static_area_size(n: nat, cc: CallingConvention) -> nat {
    8 * register_locals(n) + 8 + (match cc {
        CallingConvention::WindowsFastcall => 16nat,
        CallingConvention::SystemV => 0nat,
    })
}

/// The size in bytes of the locals that live on the stack.
pub open spec fn locals_size(n: nat) -> nat {
    if n > 4 {
        ((n - 4) * 8) as nat
    } else {
        0
    }
}

/// One store for each register of `regs`, to consecutive slots below `base`.
pub open spec fn spills(base: nat, regs: Seq<GPR>) -> Seq<Instruction> {
    Seq::new(
        regs.len(),
        |k: int|
            Instruction::Mov(
                Size::S64,
                Location::GPR(regs[k]),
                frame_slot(base + 8 * (k + 1)),
            ),
    )
}

/// The move that brings parameter `i` from where the caller passed it, as
/// argument `i + 1`, to the home of local `i`. From memory to memory it goes
/// through RAX.
pub open spec fn param_load(i: nat, cc: CallingConvention, locals_offset: nat) -> Seq<
    Instruction,
> {
    let src = param_location(i + 1, cc);
    let dst = local_location(i, locals_offset);
    if src is Memory && dst is Memory {
        seq![
            Instruction::Mov(Size::S64, src, Location::GPR(GPR::RAX)),
            Instruction::Mov(Size::S64, Location::GPR(GPR::RAX), dst),
        ]
    } else {
        seq![Instruction::Mov(Size::S64, src, dst)]
    }
}

/// The moves for the first `count` parameters, in order.
pub open spec fn param_loads(count: nat, cc: CallingConvention, locals_offset: nat) -> Seq<
    Instruction,
>
    decreases count,
{
    if count == 0 {
        Seq::empty()
    } else {
        param_loads((count - 1) as nat, cc, locals_offset) + param_load(
            (count - 1) as nat,
            cc,
            locals_offset,
        )
    }
}

/// How many locals a page of the stack holds.
pub open spec fn locals_per_page() -> nat {
    512
}

/// How many stores it takes to touch every page of the locals that are not
/// parameters, but for the first.
pub open spec fn probe_count(n: nat, n_params: nat) -> nat {
    if n > n_params {
        ((n - n_params - 1) / 512) as nat
    } else {
        0
    }
}

/// The stores that touch the stack once per page, so that a guard page is hit
/// here and not later: a zero to every 512th local after the parameters,
/// the first of them left out.
pub open spec fn probes(n: nat, n_params: nat, locals_offset: nat) -> Seq<Instruction> {
    Seq::new(
        probe_count(n, n_params),
        |j: int|
            Instruction::Mov(
                Size::S64,
                Location::Imm32(0),
                local_location((n_params + 512 * (j + 1)) as nat, locals_offset),
            ),
    )
}

/// How many locals in registers are not parameters.
pub open spec fn register_zero_count(n: nat, n_params: nat) -> nat {
    if register_locals(n) > n_params {
        (register_locals(n) - n_params) as nat
    } else {
        0
    }
}

/// A zero to each local that lives in a register and is not a parameter.
pub open spec fn register_zeroing(n: nat, n_params: nat) -> Seq<Instruction> {
    Seq::new(
        register_zero_count(n, n_params),
        |k: int|
            Instruction::Mov(
                Size::S64,
                Location::Imm32(0),
                Location::GPR(local_register(n_params + k)),
            ),
    )
}

/// The first local on the stack that is not a parameter.
pub open spec fn first_stack_local_to_zero(n_params: nat) -> nat {
    if n_params > 4 {
        n_params
    } else {
        4
    }
}

/// One block store that zeroes the locals on the stack that are not
/// parameters: their number to RCX, zero to RAX, the address of the last
/// local, which is the lowest, to RDI.
pub open spec fn stack_zeroing(n: nat, n_params: nat, locals_offset: nat) -> Seq<Instruction> {
    let first = first_stack_local_to_zero(n_params);
    if n > first {
        seq![
            Instruction::Mov(
                Size::S64,
                Location::Imm64((n - first) as u64),
                Location::GPR(GPR::RCX),
            ),
            Instruction::Xor(Size::S64, Location::GPR(GPR::RAX), Location::GPR(GPR::RAX)),
            Instruction::Lea(
                Size::S64,
                local_location((n - 1) as nat, locals_offset),
                Location::GPR(GPR::RDI),
            ),
            Instruction::RepStosq,
        ]
    } else {
        Seq::empty()
    }
}

/// The depth of the first local on the stack, for a frame of `n` locals.
pub open spec fn frame_locals_offset(n: nat, cc: CallingConvention) -> nat {
    static_area_size(n, cc) + 8
}

/// The prologue of a function with `n` locals of which the first `n_params`
/// are parameters, written when the stack stands `base` bytes deep.
pub open spec fn prologue(base: nat, n: nat, n_params: nat, cc: CallingConvention) -> Seq<
    Instruction,
> {
    let locals_offset = frame_locals_offset(n, cc);
    seq![
        Instruction::Sub(
            Size::S64,
            Location::Imm32((static_area_size(n, cc) + locals_size(n)) as u32),
            Location::GPR(GPR::RSP),
        ),
    ] + spills(base, saved_registers(n, cc)) + param_loads(n_params, cc, locals_offset) + seq![
        Instruction::Mov(Size::S64, param_location(0, cc), Location::GPR(GPR::R15)),
    ] + probes(n, n_params, locals_offset) + register_zeroing(n, n_params) + stack_zeroing(
        n,
        n_params,
        locals_offset,
    )
}

/// The state after the prologue: the save area and the locals on the stack
/// are taken, and the places of both are known.
pub open spec fn after_prologue(s: MachineState, n: nat, cc: CallingConvention) -> MachineState {
    MachineState {
        stack_offset: s.stack_offset + static_area_size(n, cc) + locals_size(n),
        save_area_offset: Some(s.stack_offset + static_area_size(n, cc)),
        locals_offset: frame_locals_offset(n, cc),
        ..s
    }
}

/// One pop for each register of `regs`, the last of them first.
pub open spec fn restores(regs: Seq<GPR>) -> Seq<Instruction> {
    Seq::new(
        regs.len(),
        |k: int| Instruction::Pop(Size::S64, Location::GPR(regs[regs.len() - 1 - k])),
    )
}

/// The epilogue of a function with `n` locals whose save area ends
/// `save_area_offset` bytes below the frame pointer: the stack pointer goes
/// to the bottom of the save area, and the saved registers come back in the
/// reverse of the order in which they were saved.
pub open spec fn epilogue(save_area_offset: nat, n: nat, cc: CallingConvention) -> Seq<
    Instruction,
> {
    seq![
        Instruction::Lea(Size::S64, frame_slot(save_area_offset as int), Location::GPR(GPR::RSP)),
    ] + restores(saved_registers(n, cc))
}

} // verus!
