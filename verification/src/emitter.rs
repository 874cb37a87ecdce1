//! The instructions the allocator asks for, and the sink that takes them.

use vstd::prelude::*;
use crate::location::{Location, Size};

verus! {

/// One instruction handed to an [`Emitter`], operands in source, destination
/// order.
#[derive(Copy, Clone, Debug, PartialEq, Eq, Hash, Structural)]
pub enum Instruction {
    /// `dst := dst - src`
    Sub(Size, Location, Location),
    /// `dst := dst + src`
    Add(Size, Location, Location),
    /// `dst := dst ^ src`
    Xor(Size, Location, Location),
    /// `dst := src`
    Mov(Size, Location, Location),
    /// `dst := address of src`
    Lea(Size, Location, Location),
    /// `dst := [rsp]; rsp := rsp + 8`
    Pop(Size, Location),
    /// Store `rax` to `[rdi]`, `rcx` times, upwards.
    RepStosq,
}

/// A sink of instructions. What has gone into it is an append-only sequence:
/// each method extends it by the one instruction it stands for.
pub trait Emitter {
    /// Everything emitted so far, oldest first.
    spec fn emitted(&self) -> Seq<Instruction>;

    fn emit_sub(&mut self, sz: Size, src: Location, dst: Location)
        ensures
            final(self).emitted() == old(self).emitted().push(Instruction::Sub(sz, src, dst)),
    ;

    fn emit_add(&mut self, sz: Size, src: Location, dst: Location)
        ensures
            final(self).emitted() == old(self).emitted().push(Instruction::Add(sz, src, dst)),
    ;

    fn emit_xor(&mut self, sz: Size, src: Location, dst: Location)
        ensures
            final(self).emitted() == old(self).emitted().push(Instruction::Xor(sz, src, dst)),
    ;

    fn emit_mov(&mut self, sz: Size, src: Location, dst: Location)
        ensures
            final(self).emitted() == old(self).emitted().push(Instruction::Mov(sz, src, dst)),
    ;

    fn emit_lea(&mut self, sz: Size, src: Location, dst: Location)
        ensures
            final(self).emitted() == old(self).emitted().push(Instruction::Lea(sz, src, dst)),
    ;

    fn emit_pop(&mut self, sz: Size, dst: Location)
        ensures
            final(self).emitted() == old(self).emitted().push(Instruction::Pop(sz, dst)),
    ;

    fn emit_rep_stosq(&mut self)
        ensures
            final(self).emitted() == old(self).emitted().push(Instruction::RepStosq),
    ;
}

/// An emitter that keeps the instructions instead of encoding them.
pub struct InstructionLog {
    instructions: Vec<Instruction>,
}

impl InstructionLog {
    /// An empty log.
    pub fn new() -> (log: InstructionLog)
        ensures
            log.emitted() == Seq::<Instruction>::empty(),
    {
        InstructionLog { instructions: Vec::new() }
    }

    /// The instructions in the log, oldest first.
    pub fn instructions(&self) -> (v: &Vec<Instruction>)
        ensures
            v@ == self.emitted(),
    {
        &self.instructions
    }
}

impl Emitter for InstructionLog {
    closed spec fn emitted(&self) -> Seq<Instruction> {
        self.instructions@
    }

    fn emit_sub(&mut self, sz: Size, src: Location, dst: Location) {
        self.instructions.push(Instruction::Sub(sz, src, dst));
    }

    fn emit_add(&mut self, sz: Size, src: Location, dst: Location) {
        self.instructions.push(Instruction::Add(sz, src, dst));
    }

    fn emit_xor(&mut self, sz: Size, src: Location, dst: Location) {
        self.instructions.push(Instruction::Xor(sz, src, dst));
    }

    fn emit_mov(&mut self, sz: Size, src: Location, dst: Location) {
        self.instructions.push(Instruction::Mov(sz, src, dst));
    }

    fn emit_lea(&mut self, sz: Size, src: Location, dst: Location) {
        self.instructions.push(Instruction::Lea(sz, src, dst));
    }

    fn emit_pop(&mut self, sz: Size, dst: Location) {
        self.instructions.push(Instruction::Pop(sz, dst));
    }

    fn emit_rep_stosq(&mut self) {
        self.instructions.push(Instruction::RepStosq);
    }
}

} // verus!
