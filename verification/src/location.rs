//! Operands of the emitted instructions, and the two small vocabularies the
//! allocator is driven by: value types and calling conventions.

use vstd::prelude::*;
use crate::registers::{GPR, XMM};

verus! {

/// Where a value lives, or an immediate operand.
#[derive(Copy, Clone, Debug, PartialEq, Eq, Hash, Structural)]
pub enum Location {
    /// A general-purpose register.
    GPR(GPR),
    /// A vector register.
    XMM(XMM),
    /// The memory at `base + displacement`.
    Memory(GPR, i32),
    /// A 32-bit immediate.
    Imm32(u32),
    /// A 64-bit immediate.
    Imm64(u64),
}

/// The width of an operand.
#[derive(Copy, Clone, Debug, PartialEq, Eq, Hash, Structural)]
pub enum Size {
    S8,
    S16,
    S32,
    S64,
}

/// The type of a WebAssembly value, as the decoder reports it.
#[derive(Copy, Clone, Debug, PartialEq, Eq, Hash, Structural)]
pub enum WpType {
    I32,
    I64,
    F32,
    F64,
    V128,
    FuncRef,
    ExternRef,
    ExnRef,
    Func,
    EmptyBlockType,
}

/// The register file a value of some type is kept in.
#[derive(Copy, Clone, Debug, PartialEq, Eq, Hash, Structural)]
pub enum RegisterClass {
    /// Integers and references: general-purpose registers.
    Integer,
    /// Floating-point numbers: vector registers.
    Float,
}

/// How the caller passes arguments and which registers it expects preserved.
#[derive(Copy, Clone, Debug, PartialEq, Eq, Hash, Structural)]
pub enum CallingConvention {
    /// The System V convention of the Unix-like platforms.
    SystemV,
    /// The convention of 64-bit Windows.
    WindowsFastcall,
}

impl Location {
    /// A slot of the current frame: memory below the frame pointer.
    pub open spec fn is_frame_slot(self) -> bool {
        self matches Location::Memory(GPR::RBP, d) && d < 0
    }

    /// How far below the frame pointer a frame slot lies, in bytes.
    pub open spec fn depth(self) -> int
        recommends
            self.is_frame_slot(),
    {
        match self {
            Location::Memory(_, d) => -(d as int),
            _ => 0,
        }
    }

    /// Whether the location is a register of either file.
    pub open spec fn is_register(self) -> bool {
        self is GPR || self is XMM
    }
}

impl WpType {
    /// The register file for values of this type; `None` for a type that has
    /// no home in registers or stack slots.
    pub open spec fn class(self) -> Option<RegisterClass> {
        match self {
            WpType::F32 | WpType::F64 => Some(RegisterClass::Float),
            WpType::I32 | WpType::I64 | WpType::FuncRef | WpType::ExternRef => Some(
                RegisterClass::Integer,
            ),
            _ => None,
        }
    }

    /// Whether locations can be acquired for values of this type.
    pub open spec fn is_supported(self) -> bool {
        self.class() is Some
    }

    /// The register file for values of this type; `None` for a type that has
    /// no home in registers or stack slots.
    pub fn register_class(self) -> (c: Option<RegisterClass>)
        ensures
            c == self.class(),
    {
        match self {
            WpType::F32 | WpType::F64 => Some(RegisterClass::Float),
            WpType::I32 | WpType::I64 | WpType::FuncRef | WpType::ExternRef => Some(
                RegisterClass::Integer,
            ),
            _ => None,
        }
    }
}

} // verus!
