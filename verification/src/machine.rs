//! The allocator itself.

use vstd::prelude::*;
use vstd::std_specs::bits::axiom_u32_trailing_zeros;
use crate::bits::{
    gpr_set, has_bit, lemma_bit_of_free_candidates, lemma_bit_of_shifted, lemma_bit_test,
    lemma_bit_within_file, lemma_bits_of_temporaries, lemma_bits_of_value_gprs,
    lemma_bits_of_value_xmms, lemma_empty_sets, lemma_gpr_set_insert, lemma_gpr_set_remove,
    lemma_no_bit_in_zero, lemma_set_bits, lemma_set_bits_over_clear_range, lemma_shift_twice,
    lemma_xmm_set_insert, lemma_xmm_set_remove, set_bits, set_bits_below, within_register_file,
    xmm_set,
};
use crate::emitter::{Emitter, Instruction};
use crate::frame::{
    after_prologue, epilogue, frame_locals_offset, frame_slot, local_location, local_register,
    locals_size, param_displacement, param_load, param_loads, param_location, probe_count,
    probes, prologue, register_locals, register_params, register_zero_count, register_zeroing,
    restores, saved_registers, spills, stack_zeroing, static_area_size,
};
use crate::location::{CallingConvention, Location, RegisterClass, Size, WpType};
use crate::locations::Locations;
use crate::model::{
    acquirable, acquire, acquire_emission, frame_slot_count, free_temp_gpr, free_temp_xmm,
    free_value_gpr, free_value_xmm, fresh_state, gprs_in, lemma_acquire_grows,
    lemma_acquire_next, lemma_acquire_prefix_is_shallower, lemma_releasable_from,
    lemma_release_next, lemma_release_none, registers_releasable, releasable_before,
    release_emission, release_registers, release_stack, stack_releasable, valid, with_gpr,
    with_xmm, without_gpr, without_xmm, xmms_in, zeroing, MachineState,
};
use crate::registers::{GPR, XMM};

verus! {

/// The value registers of the general-purpose file: RSI, RDI, R8 to R11.
pub const VALUE_GPRS: u32 = 0x0fc0;

/// The temporary registers of the general-purpose file: RAX, RCX, RDX.
pub const TEMP_GPRS: u32 = 0x0007;

/// The value registers of the vector file: XMM3 to XMM7.
pub const VALUE_XMMS: u32 = 0x00f8;

/// The temporary registers of the vector file: XMM0, XMM1, XMM2.
pub const TEMP_XMMS: u32 = 0x0007;

/// The largest depth a slot can have: displacements are 32-bit and signed.
pub const MAX_STACK_OFFSET: usize = 0x7fff_ffff;

/// The largest index a local can have.
pub const MAX_LOCAL_INDEX: u32 = 999_999;

/// The largest number of locals a function can have.
pub const MAX_LOCALS: u32 = 1_000_000;

/// The lowest bit that is set among the value registers and clear in `used` is
/// the bit of the first such register that is free.
proof fn lemma_picked_value_gpr(used: u32, picked: Option<u8>)
    requires
        picked is None <==> (!used & VALUE_GPRS) == 0,
        picked matches Some(i) ==> i < 32 && has_bit(!used & VALUE_GPRS, i as u32) && forall|j: u32|
            j < i ==> !has_bit(!used & VALUE_GPRS, j),
    ensures
        (match picked {
            Some(i) => GPR::of_index(i),
            None => None,
        }) == free_value_gpr(gpr_set(used)),
{
    let free: u32 = !used & VALUE_GPRS;
    lemma_bit_of_free_candidates(used, VALUE_GPRS, 6);
    lemma_bits_of_value_gprs(6);
    lemma_no_bit_in_zero(6);
    assert(gpr_set(used).contains(GPR::RSI) == !has_bit(free, 6));
    lemma_bit_of_free_candidates(used, VALUE_GPRS, 7);
    lemma_bits_of_value_gprs(7);
    lemma_no_bit_in_zero(7);
    assert(gpr_set(used).contains(GPR::RDI) == !has_bit(free, 7));
    lemma_bit_of_free_candidates(used, VALUE_GPRS, 8);
    lemma_bits_of_value_gprs(8);
    lemma_no_bit_in_zero(8);
    assert(gpr_set(used).contains(GPR::R8) == !has_bit(free, 8));
    lemma_bit_of_free_candidates(used, VALUE_GPRS, 9);
    lemma_bits_of_value_gprs(9);
    lemma_no_bit_in_zero(9);
    assert(gpr_set(used).contains(GPR::R9) == !has_bit(free, 9));
    lemma_bit_of_free_candidates(used, VALUE_GPRS, 10);
    lemma_bits_of_value_gprs(10);
    lemma_no_bit_in_zero(10);
    assert(gpr_set(used).contains(GPR::R10) == !has_bit(free, 10));
    lemma_bit_of_free_candidates(used, VALUE_GPRS, 11);
    lemma_bits_of_value_gprs(11);
    lemma_no_bit_in_zero(11);
    assert(gpr_set(used).contains(GPR::R11) == !has_bit(free, 11));
    if let Some(i) = picked {
        lemma_bit_of_free_candidates(used, VALUE_GPRS, i as u32);
        lemma_bits_of_value_gprs(i as u32);
    }
}

/// The lowest bit that is set among the temporary registers and clear in `used` is
/// the bit of the first such register that is free.
proof fn lemma_picked_temp_gpr(used: u32, picked: Option<u8>)
    requires
        picked is None <==> (!used & TEMP_GPRS) == 0,
        picked matches Some(i) ==> i < 32 && has_bit(!used & TEMP_GPRS, i as u32) && forall|j: u32|
            j < i ==> !has_bit(!used & TEMP_GPRS, j),
    ensures
        (match picked {
            Some(i) => GPR::of_index(i),
            None => None,
        }) == free_temp_gpr(gpr_set(used)),
{
    let free: u32 = !used & TEMP_GPRS;
    lemma_bit_of_free_candidates(used, TEMP_GPRS, 0);
    lemma_bits_of_temporaries(0);
    lemma_no_bit_in_zero(0);
    assert(gpr_set(used).contains(GPR::RAX) == !has_bit(free, 0));
    lemma_bit_of_free_candidates(used, TEMP_GPRS, 1);
    lemma_bits_of_temporaries(1);
    lemma_no_bit_in_zero(1);
    assert(gpr_set(used).contains(GPR::RCX) == !has_bit(free, 1));
    lemma_bit_of_free_candidates(used, TEMP_GPRS, 2);
    lemma_bits_of_temporaries(2);
    lemma_no_bit_in_zero(2);
    assert(gpr_set(used).contains(GPR::RDX) == !has_bit(free, 2));
    if let Some(i) = picked {
        lemma_bit_of_free_candidates(used, TEMP_GPRS, i as u32);
        lemma_bits_of_temporaries(i as u32);
    }
}

/// The lowest bit that is set among the value registers and clear in `used` is
/// the bit of the first such register that is free.
proof fn lemma_picked_value_xmm(used: u32, picked: Option<u8>)
    requires
        picked is None <==> (!used & VALUE_XMMS) == 0,
        picked matches Some(i) ==> i < 32 && has_bit(!used & VALUE_XMMS, i as u32) && forall|j: u32|
            j < i ==> !has_bit(!used & VALUE_XMMS, j),
    ensures
        (match picked {
            Some(i) => XMM::of_index(i),
            None => None,
        }) == free_value_xmm(xmm_set(used)),
{
    let free: u32 = !used & VALUE_XMMS;
    lemma_bit_of_free_candidates(used, VALUE_XMMS, 3);
    lemma_bits_of_value_xmms(3);
    lemma_no_bit_in_zero(3);
    assert(xmm_set(used).contains(XMM::XMM3) == !has_bit(free, 3));
    lemma_bit_of_free_candidates(used, VALUE_XMMS, 4);
    lemma_bits_of_value_xmms(4);
    lemma_no_bit_in_zero(4);
    assert(xmm_set(used).contains(XMM::XMM4) == !has_bit(free, 4));
    lemma_bit_of_free_candidates(used, VALUE_XMMS, 5);
    lemma_bits_of_value_xmms(5);
    lemma_no_bit_in_zero(5);
    assert(xmm_set(used).contains(XMM::XMM5) == !has_bit(free, 5));
    lemma_bit_of_free_candidates(used, VALUE_XMMS, 6);
    lemma_bits_of_value_xmms(6);
    lemma_no_bit_in_zero(6);
    assert(xmm_set(used).contains(XMM::XMM6) == !has_bit(free, 6));
    lemma_bit_of_free_candidates(used, VALUE_XMMS, 7);
    lemma_bits_of_value_xmms(7);
    lemma_no_bit_in_zero(7);
    assert(xmm_set(used).contains(XMM::XMM7) == !has_bit(free, 7));
    if let Some(i) = picked {
        lemma_bit_of_free_candidates(used, VALUE_XMMS, i as u32);
        lemma_bits_of_value_xmms(i as u32);
    }
}

/// The lowest bit that is set among the temporary registers and clear in `used` is
/// the bit of the first such register that is free.
proof fn lemma_picked_temp_xmm(used: u32, picked: Option<u8>)
    requires
        picked is None <==> (!used & TEMP_XMMS) == 0,
        picked matches Some(i) ==> i < 32 && has_bit(!used & TEMP_XMMS, i as u32) && forall|j: u32|
            j < i ==> !has_bit(!used & TEMP_XMMS, j),
    ensures
        (match picked {
            Some(i) => XMM::of_index(i),
            None => None,
        }) == free_temp_xmm(xmm_set(used)),
{
    let free: u32 = !used & TEMP_XMMS;
    lemma_bit_of_free_candidates(used, TEMP_XMMS, 0);
    lemma_bits_of_temporaries(0);
    lemma_no_bit_in_zero(0);
    assert(xmm_set(used).contains(XMM::XMM0) == !has_bit(free, 0));
    lemma_bit_of_free_candidates(used, TEMP_XMMS, 1);
    lemma_bits_of_temporaries(1);
    lemma_no_bit_in_zero(1);
    assert(xmm_set(used).contains(XMM::XMM1) == !has_bit(free, 1));
    lemma_bit_of_free_candidates(used, TEMP_XMMS, 2);
    lemma_bits_of_temporaries(2);
    lemma_no_bit_in_zero(2);
    assert(xmm_set(used).contains(XMM::XMM2) == !has_bit(free, 2));
    if let Some(i) = picked {
        lemma_bit_of_free_candidates(used, TEMP_XMMS, i as u32);
        lemma_bits_of_temporaries(i as u32);
    }
}

/// Appending the parts of a prologue one after another to what was emitted
/// appends the prologue.
proof fn lemma_prologue_in_parts(
    e0: Seq<Instruction>,
    reserve: Instruction,
    saves: Seq<Instruction>,
    loads: Seq<Instruction>,
    context: Instruction,
    touches: Seq<Instruction>,
    zeroes: Seq<Instruction>,
    block: Seq<Instruction>,
)
    ensures
        (e0.push(reserve) + saves + loads).push(context) + touches + zeroes + block == e0 + (
        seq![reserve] + saves + loads + seq![context] + touches + zeroes + block),
{
    let first: Seq<Instruction> = seq![reserve];
    let load: Seq<Instruction> = seq![context];
    assert(e0.push(reserve) =~= e0 + first);
    assert(e0 + first + saves =~= e0 + (first + saves));
    assert(e0 + (first + saves) + loads =~= e0 + (first + saves + loads));
    assert((e0 + (first + saves + loads)).push(context) =~= e0 + (first + saves + loads + load));
    assert(e0 + (first + saves + loads + load) + touches =~= e0 + (first + saves + loads + load
        + touches));
    assert(e0 + (first + saves + loads + load + touches) + zeroes =~= e0 + (first + saves + loads
        + load + touches + zeroes));
    assert(e0 + (first + saves + loads + load + touches + zeroes) + block =~= e0 + (first + saves
        + loads + load + touches + zeroes + block));
}

/// Which registers are occupied, how deep the stack of the current frame
/// stands, and where its locals lie.
pub struct Machine {
    used_gprs: u32,
    used_xmms: u32,
    stack_offset: usize,
    save_area_offset: Option<usize>,
    locals_offset: usize,
}

impl View for Machine {
    type V = MachineState;

    closed spec fn view(&self) -> MachineState {
        MachineState {
            used_gprs: gpr_set(self.used_gprs),
            used_xmms: xmm_set(self.used_xmms),
            stack_offset: self.stack_offset as nat,
            save_area_offset: match self.save_area_offset {
                Some(off) => Some(off as nat),
                None => None,
            },
            locals_offset: self.locals_offset as nat,
        }
    }
}

impl Machine {
    /// What holds of every machine between two calls: only bits that encode
    /// a register are set, and every depth fits a displacement.
    pub closed spec fn wf(&self) -> bool {
        &&& within_register_file(self.used_gprs)
        &&& within_register_file(self.used_xmms)
        &&& valid(self@)
    }

    /// The model of a well-formed machine is a valid state.
    pub proof fn lemma_wf_is_valid(&self)
        requires
            self.wf(),
        ensures
            valid(self@),
    {
    }

    /// A machine with no register occupied and nothing on the stack.
    pub fn new() -> (m: Machine)
        ensures
            m.wf(),
            m@ == fresh_state(),
    {
        proof {
            lemma_empty_sets();
            assert(within_register_file(0)) by (bit_vector);
        }
        Machine {
            used_gprs: 0,
            used_xmms: 0,
            stack_offset: 0,
            save_area_offset: None,
            locals_offset: 0,
        }
    }

    /// How many bytes below the frame pointer are taken.
    pub fn get_stack_offset(&self) -> (off: usize)
        ensures
            off == self@.stack_offset,
    {
        self.stack_offset
    }

    /// The depth of the first local that lives on the stack.
    pub fn get_locals_offset(&self) -> (off: usize)
        ensures
            off == self@.locals_offset,
    {
        self.locals_offset
    }

    /// The depth of the bottom of the register save area; `None` before the
    /// prologue has been written.
    pub fn get_save_area_offset(&self) -> (off: Option<usize>)
        ensures
            match off {
                Some(d) => self@.save_area_offset == Some(d as nat),
                None => self@.save_area_offset is None,
            },
    {
        self.save_area_offset
    }

    /// The image under `to_return_type` of the position of each bit set in
    /// `v`, from the lowest up.
    pub fn get_used_in<T>(v: u32, to_return_type: impl Fn(u8) -> T) -> (res: Vec<T>)
        requires
            forall|i: u8| i < 32 && has_bit(v, i as u32) ==> call_requires(to_return_type, (i,)),
        ensures
            res@.len() == set_bits(v).len(),
            forall|k: int|
                0 <= k < res@.len() ==> call_ensures(
                    to_return_type,
                    (set_bits(v)[k],),
                    #[trigger] res@[k],
                ),
    {
        let mut rest: u32 = v;
        let mut n: u8 = 0;
        let mut res: Vec<T> = Vec::new();
        proof {
            lemma_shift_twice(v, 0, 0);
        }
        while rest != 0
            invariant
                n <= 32,
                n < 32 ==> rest == v >> (n as u32),
                n == 32 ==> rest == 0,
                forall|i: u8|
                    i < 32 && has_bit(v, i as u32) ==> call_requires(to_return_type, (i,)),
                res@.len() == set_bits_below(v, n as nat).len(),
                forall|k: int|
                    0 <= k < res@.len() ==> call_ensures(
                        to_return_type,
                        (set_bits_below(v, n as nat)[k],),
                        #[trigger] res@[k],
                    ),
            decreases 32 - n,
        {
            proof {
                axiom_u32_trailing_zeros(rest);
            }
            let zeros: u32 = rest.trailing_zeros();
            proof {
                lemma_bit_of_shifted(v, n as u32, zeros);
                assert forall|j: u32| n <= j < n + zeros implies !#[trigger] has_bit(v, j) by {
                    lemma_bit_of_shifted(v, n as u32, (j - n) as u32);
                    assert(!has_bit(rest, (j - n) as u32));
                }
                lemma_set_bits_over_clear_range(v, n as nat, (n + zeros) as nat);
                if zeros + 1 < 32 {
                    lemma_shift_twice(v, n as u32, (zeros + 1) as u32);
                }
            }
            n += zeros as u8;
            res.push(to_return_type(n));
            // Shifting by the whole width is not a shift.
            rest = if zeros + 1 < 32 {
                rest >> (zeros + 1)
            } else {
                0
            };
            n += 1;
        }
        proof {
            if n < 32 {
                assert forall|j: u32| n <= j < 32 implies !#[trigger] has_bit(v, j) by {
                    lemma_bit_of_shifted(v, n as u32, (j - n) as u32);
                    lemma_no_bit_in_zero((j - n) as u32);
                }
                lemma_set_bits_over_clear_range(v, n as nat, 32);
            }
        }
        res
    }

    /// The general-purpose registers that are occupied, in the order of
    /// their encodings.
    pub fn get_used_gprs(&self) -> (res: Vec<GPR>)
        requires
            self.wf(),
        ensures
            forall|g: GPR| res@.contains(g) <==> self@.used_gprs.contains(g),
            forall|k: int, l: int|
                0 <= k < l < res@.len() ==> (#[trigger] res@[k]).index() < (
                #[trigger] res@[l]).index(),
    {
        let used: u32 = self.used_gprs;
        let of_repr = |r: u8| -> (g: GPR)
            requires
                r < 16,
            ensures
                g.index() == r,
            {
                GPR::from_repr(r).unwrap()
            };
        proof {
            assert forall|i: u8| i < 32 && has_bit(used, i as u32) implies call_requires(
                of_repr,
                (i,),
            ) by {
                lemma_bit_within_file(used, i as u32);
            }
        }
        let res: Vec<GPR> = Self::get_used_in(used, of_repr);
        proof {
            lemma_set_bits(used, 32);
            let bits: Seq<u8> = set_bits(used);
            assert forall|k: int| 0 <= k < res@.len() implies (#[trigger] res@[k]).index()
                == bits[k] by {}
            assert forall|g: GPR| res@.contains(g) <==> self@.used_gprs.contains(g) by {
                if res@.contains(g) {
                    let k: int = choose|k: int| 0 <= k < res@.len() && res@[k] == g;
                    assert(has_bit(used, bits[k] as u32));
                }
                if self@.used_gprs.contains(g) {
                    assert(bits.contains(g.index()));
                    let k: int = choose|k: int| 0 <= k < bits.len() && bits[k] == g.index();
                    assert(GPR::of_index(res@[k].index()) == Some(res@[k]));
                    assert(GPR::of_index(g.index()) == Some(g));
                    assert(res@[k] == g);
                }
            }
        }
        res
    }

    /// The vector registers that are occupied, in the order of their
    /// encodings.
    pub fn get_used_xmms(&self) -> (res: Vec<XMM>)
        requires
            self.wf(),
        ensures
            forall|x: XMM| res@.contains(x) <==> self@.used_xmms.contains(x),
            forall|k: int, l: int|
                0 <= k < l < res@.len() ==> (#[trigger] res@[k]).index() < (
                #[trigger] res@[l]).index(),
    {
        let used: u32 = self.used_xmms;
        let of_repr = |r: u8| -> (x: XMM)
            requires
                r < 16,
            ensures
                x.index() == r,
            {
                XMM::from_repr(r).unwrap()
            };
        proof {
            assert forall|i: u8| i < 32 && has_bit(used, i as u32) implies call_requires(
                of_repr,
                (i,),
            ) by {
                lemma_bit_within_file(used, i as u32);
            }
        }
        let res: Vec<XMM> = Self::get_used_in(used, of_repr);
        proof {
            lemma_set_bits(used, 32);
            let bits: Seq<u8> = set_bits(used);
            assert forall|k: int| 0 <= k < res@.len() implies (#[trigger] res@[k]).index()
                == bits[k] by {}
            assert forall|x: XMM| res@.contains(x) <==> self@.used_xmms.contains(x) by {
                if res@.contains(x) {
                    let k: int = choose|k: int| 0 <= k < res@.len() && res@[k] == x;
                    assert(has_bit(used, bits[k] as u32));
                }
                if self@.used_xmms.contains(x) {
                    assert(bits.contains(x.index()));
                    let k: int = choose|k: int| 0 <= k < bits.len() && bits[k] == x.index();
                    assert(XMM::of_index(res@[k].index()) == Some(res@[k]));
                    assert(XMM::of_index(x.index()) == Some(x));
                    assert(res@[k] == x);
                }
            }
        }
        res
    }

    /// The register that holds the instance context throughout a function.
    pub fn get_vmctx_reg() -> (g: GPR)
        ensures
            g == GPR::R15,
    {
        GPR::R15
    }

    /// The position of the lowest bit set in `v`; `None` when `v` is zero.
    pub fn pick_one_in(v: u32) -> (r: Option<u8>)
        ensures
            r is None <==> v == 0,
            r matches Some(i) ==> i < 32 && has_bit(v, i as u32) && forall|j: u32|
                j < i ==> !has_bit(v, j),
    {
        proof {
            axiom_u32_trailing_zeros(v);
        }
        let z: u32 = v.trailing_zeros();
        if z != 32 {
            Some(z as u8)
        } else {
            None
        }
    }

    /// An unoccupied general-purpose register for a value or an argument:
    /// the first of RSI, RDI, R8, R9, R10, R11 that is free. The register is
    /// not marked occupied.
    pub fn pick_gpr(&self) -> (r: Option<GPR>)
        requires
            self.wf(),
        ensures
            r == free_value_gpr(self@.used_gprs),
    {
        let picked: Option<u8> = Self::pick_one_in(!self.used_gprs & VALUE_GPRS);
        proof {
            lemma_picked_value_gpr(self.used_gprs, picked);
        }
        match picked {
            Some(i) => GPR::from_repr(i),
            None => None,
        }
    }

    /// An unoccupied general-purpose register for a temporary: the first of
    /// RAX, RCX, RDX that is free. The register is not marked occupied.
    pub fn pick_temp_gpr(&self) -> (r: Option<GPR>)
        requires
            self.wf(),
        ensures
            r == free_temp_gpr(self@.used_gprs),
    {
        let picked: Option<u8> = Self::pick_one_in(!self.used_gprs & TEMP_GPRS);
        proof {
            lemma_picked_temp_gpr(self.used_gprs, picked);
        }
        match picked {
            Some(i) => GPR::from_repr(i),
            None => None,
        }
    }

    /// An unoccupied vector register for a value or an argument: the first
    /// of XMM3 to XMM7 that is free. The register is not marked occupied.
    pub fn pick_xmm(&self) -> (r: Option<XMM>)
        requires
            self.wf(),
        ensures
            r == free_value_xmm(self@.used_xmms),
    {
        let picked: Option<u8> = Self::pick_one_in(!self.used_xmms & VALUE_XMMS);
        proof {
            lemma_picked_value_xmm(self.used_xmms, picked);
        }
        match picked {
            Some(i) => XMM::from_repr(i),
            None => None,
        }
    }

    /// An unoccupied vector register for a temporary: the first of XMM0,
    /// XMM1, XMM2 that is free. The register is not marked occupied.
    pub fn pick_temp_xmm(&self) -> (r: Option<XMM>)
        requires
            self.wf(),
        ensures
            r == free_temp_xmm(self@.used_xmms),
    {
        let picked: Option<u8> = Self::pick_one_in(!self.used_xmms & TEMP_XMMS);
        proof {
            lemma_picked_temp_xmm(self.used_xmms, picked);
        }
        match picked {
            Some(i) => XMM::from_repr(i),
            None => None,
        }
    }

    /// Whether the general-purpose register `r` is occupied.
    pub fn get_gpr_used(&self, r: GPR) -> (used: bool)
        ensures
            used == self@.used_gprs.contains(r),
    {
        let i: u32 = r.repr() as u32;
        proof {
            lemma_bit_test(self.used_gprs, i);
        }
        0 != (self.used_gprs & (1u32 << i))
    }

    fn set_gpr_used(&mut self, r: GPR)
        requires
            old(self).wf(),
        ensures
            final(self).wf(),
            final(self)@ == with_gpr(old(self)@, r),
    {
        let i: u32 = r.repr() as u32;
        proof {
            lemma_gpr_set_insert(self.used_gprs, r);
        }
        self.used_gprs = self.used_gprs | (1u32 << i);
    }

    fn set_gpr_unused(&mut self, r: GPR)
        requires
            old(self).wf(),
        ensures
            final(self).wf(),
            final(self)@ == without_gpr(old(self)@, r),
    {
        let i: u32 = r.repr() as u32;
        proof {
            lemma_gpr_set_remove(self.used_gprs, r);
        }
        self.used_gprs = self.used_gprs & !(1u32 << i);
    }

    /// Whether the vector register `r` is occupied.
    pub fn get_xmm_used(&self, r: XMM) -> (used: bool)
        ensures
            used == self@.used_xmms.contains(r),
    {
        let i: u32 = r.repr() as u32;
        proof {
            lemma_bit_test(self.used_xmms, i);
        }
        0 != (self.used_xmms & (1u32 << i))
    }

    fn set_xmm_used(&mut self, r: XMM)
        requires
            old(self).wf(),
        ensures
            final(self).wf(),
            final(self)@ == with_xmm(old(self)@, r),
    {
        let i: u32 = r.repr() as u32;
        proof {
            lemma_xmm_set_insert(self.used_xmms, r);
        }
        self.used_xmms = self.used_xmms | (1u32 << i);
    }

    fn set_xmm_unused(&mut self, r: XMM)
        requires
            old(self).wf(),
        ensures
            final(self).wf(),
            final(self)@ == without_xmm(old(self)@, r),
    {
        let i: u32 = r.repr() as u32;
        proof {
            lemma_xmm_set_remove(self.used_xmms, r);
        }
        self.used_xmms = self.used_xmms & !(1u32 << i);
    }

    /// Takes the first free temporary general-purpose register and marks it
    /// occupied; `None`, and nothing changes, when all three are occupied.
    pub fn acquire_temp_gpr(&mut self) -> (r: Option<GPR>)
        requires
            old(self).wf(),
        ensures
            final(self).wf(),
            r == free_temp_gpr(old(self)@.used_gprs),
            final(self)@ == match r {
                Some(g) => with_gpr(old(self)@, g),
                None => old(self)@,
            },
    {
        let gpr: Option<GPR> = self.pick_temp_gpr();
        if let Some(x) = gpr {
            self.set_gpr_used(x);
        }
        gpr
    }

    /// Gives back a temporary general-purpose register that is occupied.
    pub fn release_temp_gpr(&mut self, gpr: GPR)
        requires
            old(self).wf(),
            old(self)@.used_gprs.contains(gpr),
        ensures
            final(self).wf(),
            final(self)@ == without_gpr(old(self)@, gpr),
    {
        self.set_gpr_unused(gpr);
    }

    /// Marks a general-purpose register occupied that is free, and returns it.
    pub fn reserve_unused_temp_gpr(&mut self, gpr: GPR) -> (r: GPR)
        requires
            old(self).wf(),
            !old(self)@.used_gprs.contains(gpr),
        ensures
            final(self).wf(),
            r == gpr,
            final(self)@ == with_gpr(old(self)@, gpr),
    {
        self.set_gpr_used(gpr);
        gpr
    }

    /// Takes the first free temporary vector register and marks it occupied;
    /// `None`, and nothing changes, when all three are occupied.
    pub fn acquire_temp_xmm(&mut self) -> (r: Option<XMM>)
        requires
            old(self).wf(),
        ensures
            final(self).wf(),
            r == free_temp_xmm(old(self)@.used_xmms),
            final(self)@ == match r {
                Some(x) => with_xmm(old(self)@, x),
                None => old(self)@,
            },
    {
        let xmm: Option<XMM> = self.pick_temp_xmm();
        if let Some(x) = xmm {
            self.set_xmm_used(x);
        }
        xmm
    }

    /// Gives back a temporary vector register that is occupied.
    pub fn release_temp_xmm(&mut self, xmm: XMM)
        requires
            old(self).wf(),
            old(self)@.used_xmms.contains(xmm),
        ensures
            final(self).wf(),
            final(self)@ == without_xmm(old(self)@, xmm),
    {
        self.set_xmm_unused(xmm);
    }

    /// Takes the next slot on the stack.
    fn take_slot(&mut self) -> (loc: Location)
        requires
            old(self).wf(),
            old(self)@.stack_offset + 8 <= MAX_STACK_OFFSET,
        ensures
            final(self).wf(),
            final(self)@ == crate::model::with_slot(old(self)@),
            loc == frame_slot(old(self)@.stack_offset + 8int),
    {
        self.stack_offset += 8;
        Location::Memory(GPR::RBP, -(self.stack_offset as i32))
    }

    /// Finds a home for a value of each of the types `tys`, in order: the
    /// first free value register of the type's file, or for want of one the
    /// next slot on the stack. Emits one `sub` on the stack pointer for all
    /// the slots taken, and with `zeroed` a zero to each home.
    ///
    /// Every type must have a register class and the stack must stay within
    /// reach of a displacement: `can_acquire_locations` tells.
    pub fn acquire_locations<E: Emitter>(
        &mut self,
        assembler: &mut E,
        tys: &[WpType],
        zeroed: bool,
    ) -> (ret: Locations)
        requires
            old(self).wf(),
            forall|i: int| 0 <= i < tys@.len() ==> (#[trigger] tys@[i]).is_supported(),
            acquire(old(self)@, tys@).0.stack_offset <= MAX_STACK_OFFSET,
        ensures
            final(self).wf(),
            final(self)@ == acquire(old(self)@, tys@).0,
            ret@ == acquire(old(self)@, tys@).1,
            final(assembler).emitted() == old(assembler).emitted() + acquire_emission(
                old(self)@,
                tys@,
                zeroed,
            ),
    {
        let ghost s0: MachineState = self@;
        let ghost e0: Seq<Instruction> = assembler.emitted();
        let mut ret: Locations = Locations::new();
        let mut delta_stack_offset: usize = 0;
        let n: usize = tys.len();

        let mut i: usize = 0;
        while i < n
            invariant
                i <= n,
                n == tys@.len(),
                forall|k: int| 0 <= k < tys@.len() ==> (#[trigger] tys@[k]).is_supported(),
                acquire(s0, tys@).0.stack_offset <= MAX_STACK_OFFSET,
                self.wf(),
                self@ == acquire(s0, tys@.take(i as int)).0,
                ret@ == acquire(s0, tys@.take(i as int)).1,
                ret@.len() == i,
                delta_stack_offset == self@.stack_offset - s0.stack_offset,
            decreases n - i,
        {
            proof {
                lemma_acquire_next(s0, tys@, i as int);
                lemma_acquire_prefix_is_shallower(s0, tys@, i as int + 1);
                lemma_acquire_grows(s0, tys@.take(i as int));
                assert(tys@[i as int].is_supported());
            }
            let loc: Location = match tys[i].register_class() {
                Some(RegisterClass::Float) => match self.pick_xmm() {
                    Some(x) => {
                        self.set_xmm_used(x);
                        Location::XMM(x)
                    },
                    None => {
                        delta_stack_offset += 8;
                        self.take_slot()
                    },
                },
                Some(RegisterClass::Integer) => match self.pick_gpr() {
                    Some(x) => {
                        self.set_gpr_used(x);
                        Location::GPR(x)
                    },
                    None => {
                        delta_stack_offset += 8;
                        self.take_slot()
                    },
                },
                None => unreached(),
            };
            ret.push(loc);
            i += 1;
        }
        proof {
            assert(tys@.take(n as int) =~= tys@);
            lemma_acquire_grows(s0, tys@);
        }

        if delta_stack_offset != 0 {
            assembler.emit_sub(
                Size::S64,
                Location::Imm32(delta_stack_offset as u32),
                Location::GPR(GPR::RSP),
            );
        }
        let ghost e1: Seq<Instruction> = assembler.emitted();
        if zeroed {
            let ghost zeroes: Seq<Instruction> = zeroing(ret@);
            assert(assembler.emitted() =~= e1 + zeroes.take(0));
            let mut k: usize = 0;
            while k < n
                invariant
                    k <= n,
                    n == ret@.len(),
                    zeroes == zeroing(ret@),
                    assembler.emitted() == e1 + zeroes.take(k as int),
                decreases n - k,
            {
                assembler.emit_mov(Size::S64, Location::Imm32(0), ret.get(k));
                assert(zeroes.take(k as int).push(zeroes[k as int]) =~= zeroes.take(k + 1));
                assert(assembler.emitted() =~= e1 + zeroes.take(k + 1));
                k += 1;
            }
            assert(zeroes.take(n as int) =~= zeroes);
        }
        assert(assembler.emitted() =~= e0 + acquire_emission(s0, tys@, zeroed));
        ret
    }

    /// Gives back `locs`, last first: a register becomes free, and a slot of
    /// the frame, which must be the top of the stack by then, leaves the
    /// stack. Other memory is not the machine's and is passed over. Emits
    /// one `add` on the stack pointer for all the slots given back.
    ///
    /// Whether a list can be given back, `can_release_locations` tells.
    pub fn release_locations<E: Emitter>(&mut self, assembler: &mut E, locs: &[Location])
        requires
            old(self).wf(),
            registers_releasable(old(self)@, locs@),
            stack_releasable(old(self)@, locs@),
        ensures
            final(self).wf(),
            final(self)@ == release_stack(release_registers(old(self)@, locs@), locs@),
            final(assembler).emitted() == old(assembler).emitted() + release_emission(locs@),
    {
        let ghost s0: MachineState = self@;
        let n: usize = locs.len();
        let mut delta_stack_offset: usize = 0;
        proof {
            lemma_release_none();
            assert(locs@.subrange(n as int, n as int) =~= Seq::<Location>::empty());
        }

        let mut i: usize = n;
        while i > 0
            invariant
                i <= n,
                n == locs@.len(),
                stack_releasable(s0, locs@),
                valid(s0),
                self.wf(),
                self@ == release_stack(
                    release_registers(s0, locs@.subrange(i as int, n as int)),
                    locs@.subrange(i as int, n as int),
                ),
                delta_stack_offset == 8 * frame_slot_count(locs@.subrange(i as int, n as int)),
                delta_stack_offset <= s0.stack_offset,
            decreases i,
        {
            i -= 1;
            proof {
                lemma_release_next(locs@, i as int);
            }
            match locs[i] {
                Location::GPR(x) => {
                    self.set_gpr_unused(x);
                    assert(self@.used_gprs =~= s0.used_gprs.difference(
                        gprs_in(locs@.subrange(i as int, n as int)),
                    ));
                },
                Location::XMM(x) => {
                    self.set_xmm_unused(x);
                    assert(self@.used_xmms =~= s0.used_xmms.difference(
                        xmms_in(locs@.subrange(i as int, n as int)),
                    ));
                },
                Location::Memory(GPR::RBP, x) => {
                    if x < 0 {
                        assert(locs@[i as int].is_frame_slot());
                        self.stack_offset -= 8;
                        delta_stack_offset += 8;
                    }
                },
                _ => {},
            }
        }
        proof {
            assert(locs@.subrange(0, n as int) =~= locs@);
        }

        if delta_stack_offset != 0 {
            assembler.emit_add(
                Size::S64,
                Location::Imm32(delta_stack_offset as u32),
                Location::GPR(GPR::RSP),
            );
        }
    }

    /// Frees the registers among `locs`; the stack is left as it is, and
    /// nothing is emitted.
    pub fn release_locations_only_regs(&mut self, locs: &[Location])
        requires
            old(self).wf(),
            registers_releasable(old(self)@, locs@),
        ensures
            final(self).wf(),
            final(self)@ == release_registers(old(self)@, locs@),
    {
        let ghost s0: MachineState = self@;
        let n: usize = locs.len();
        proof {
            lemma_release_none();
            assert(locs@.subrange(n as int, n as int) =~= Seq::<Location>::empty());
            assert(self@ =~= release_registers(s0, locs@.subrange(n as int, n as int)));
        }

        let mut i: usize = n;
        while i > 0
            invariant
                i <= n,
                n == locs@.len(),
                self.wf(),
                self@ == release_registers(s0, locs@.subrange(i as int, n as int)),
            decreases i,
        {
            i -= 1;
            proof {
                lemma_release_next(locs@, i as int);
            }
            match locs[i] {
                Location::GPR(x) => {
                    self.set_gpr_unused(x);
                    assert(self@.used_gprs =~= s0.used_gprs.difference(
                        gprs_in(locs@.subrange(i as int, n as int)),
                    ));
                },
                Location::XMM(x) => {
                    self.set_xmm_unused(x);
                    assert(self@.used_xmms =~= s0.used_xmms.difference(
                        xmms_in(locs@.subrange(i as int, n as int)),
                    ));
                },
                _ => {},
            }
        }
        proof {
            assert(locs@.subrange(0, n as int) =~= locs@);
        }
    }

    /// Gives back the frame slots among `locs`, last first, each of which
    /// must be the top of the stack by then; the registers stay occupied.
    /// Emits one `add` on the stack pointer for all the slots given back.
    pub fn release_locations_only_stack<E: Emitter>(
        &mut self,
        assembler: &mut E,
        locs: &[Location],
    )
        requires
            old(self).wf(),
            stack_releasable(old(self)@, locs@),
        ensures
            final(self).wf(),
            final(self)@ == release_stack(old(self)@, locs@),
            final(assembler).emitted() == old(assembler).emitted() + release_emission(locs@),
    {
        let ghost s0: MachineState = self@;
        let n: usize = locs.len();
        let mut delta_stack_offset: usize = 0;
        proof {
            lemma_release_none();
            assert(locs@.subrange(n as int, n as int) =~= Seq::<Location>::empty());
        }

        let mut i: usize = n;
        while i > 0
            invariant
                i <= n,
                n == locs@.len(),
                stack_releasable(s0, locs@),
                valid(s0),
                self.wf(),
                self@ == release_stack(s0, locs@.subrange(i as int, n as int)),
                delta_stack_offset == 8 * frame_slot_count(locs@.subrange(i as int, n as int)),
                delta_stack_offset <= s0.stack_offset,
            decreases i,
        {
            i -= 1;
            proof {
                lemma_release_next(locs@, i as int);
            }
            if let Location::Memory(GPR::RBP, x) = locs[i] {
                if x < 0 {
                    assert(locs@[i as int].is_frame_slot());
                    self.stack_offset -= 8;
                    delta_stack_offset += 8;
                }
            }
        }
        proof {
            assert(locs@.subrange(0, n as int) =~= locs@);
        }

        if delta_stack_offset != 0 {
            assembler.emit_add(
                Size::S64,
                Location::Imm32(delta_stack_offset as u32),
                Location::GPR(GPR::RSP),
            );
        }
    }

    /// Emits what releasing `locs` emits, the one `add` on the stack pointer
    /// for the frame slots among them, and leaves the machine as it is: for
    /// a branch that unwinds the stack while the code after it goes on with
    /// the stack as it stood.
    pub fn release_locations_keep_state<E: Emitter>(&self, assembler: &mut E, locs: &[Location])
        requires
            self.wf(),
            stack_releasable(self@, locs@),
        ensures
            final(assembler).emitted() == old(assembler).emitted() + release_emission(locs@),
    {
        let n: usize = locs.len();
        let mut delta_stack_offset: usize = 0;
        let mut stack_offset: usize = self.stack_offset;
        proof {
            lemma_release_none();
            assert(locs@.subrange(n as int, n as int) =~= Seq::<Location>::empty());
        }

        let mut i: usize = n;
        while i > 0
            invariant
                i <= n,
                n == locs@.len(),
                stack_releasable(self@, locs@),
                self.wf(),
                stack_offset == self@.stack_offset - delta_stack_offset,
                delta_stack_offset == 8 * frame_slot_count(locs@.subrange(i as int, n as int)),
                delta_stack_offset <= self@.stack_offset,
            decreases i,
        {
            i -= 1;
            proof {
                lemma_release_next(locs@, i as int);
            }
            if let Location::Memory(GPR::RBP, x) = locs[i] {
                if x < 0 {
                    assert(locs@[i as int].is_frame_slot());
                    stack_offset -= 8;
                    delta_stack_offset += 8;
                }
            }
        }
        proof {
            assert(locs@.subrange(0, n as int) =~= locs@);
        }

        if delta_stack_offset != 0 {
            assembler.emit_add(
                Size::S64,
                Location::Imm32(delta_stack_offset as u32),
                Location::GPR(GPR::RSP),
            );
        }
    }

    /// Whether homes for `tys` can be acquired: every type has a register
    /// class, and the stack would stay within reach of a displacement.
    pub fn can_acquire_locations(&self, tys: &[WpType]) -> (ok: bool)
        requires
            self.wf(),
        ensures
            ok == acquirable(self@, tys@),
    {
        let ghost s0: MachineState = self@;
        let mut scratch: Machine = Machine {
            used_gprs: self.used_gprs,
            used_xmms: self.used_xmms,
            stack_offset: self.stack_offset,
            save_area_offset: self.save_area_offset,
            locals_offset: self.locals_offset,
        };
        let n: usize = tys.len();
        let mut i: usize = 0;
        while i < n
            invariant
                i <= n,
                n == tys@.len(),
                s0 == self@,
                scratch.wf(),
                scratch@ == acquire(s0, tys@.take(i as int)).0,
                forall|k: int| 0 <= k < i ==> (#[trigger] tys@[k]).is_supported(),
            decreases n - i,
        {
            proof {
                lemma_acquire_next(s0, tys@, i as int);
                lemma_acquire_prefix_is_shallower(s0, tys@, i as int + 1);
                scratch.lemma_wf_is_valid();
            }
            match tys[i].register_class() {
                Some(RegisterClass::Float) => match scratch.pick_xmm() {
                    Some(x) => {
                        scratch.set_xmm_used(x);
                    },
                    None => {
                        if scratch.stack_offset + 8 > MAX_STACK_OFFSET {
                            assert(acquire(s0, tys@.take(i as int + 1)).0.stack_offset
                                > MAX_STACK_OFFSET);
                            return false;
                        }
                        let _ = scratch.take_slot();
                    },
                },
                Some(RegisterClass::Integer) => match scratch.pick_gpr() {
                    Some(x) => {
                        scratch.set_gpr_used(x);
                    },
                    None => {
                        if scratch.stack_offset + 8 > MAX_STACK_OFFSET {
                            assert(acquire(s0, tys@.take(i as int + 1)).0.stack_offset
                                > MAX_STACK_OFFSET);
                            return false;
                        }
                        let _ = scratch.take_slot();
                    },
                },
                None => {
                    assert(!tys@[i as int].is_supported());
                    return false;
                },
            }
            i += 1;
        }
        proof {
            assert(tys@.take(n as int) =~= tys@);
            scratch.lemma_wf_is_valid();
        }
        true
    }

    /// Whether the registers among `locs` can be released: each is
    /// occupied, and none is named twice.
    pub fn can_release_registers(&self, locs: &[Location]) -> (ok: bool)
        requires
            self.wf(),
        ensures
            ok == registers_releasable(self@, locs@),
    {
        let n: usize = locs.len();
        let mut gprs: u32 = self.used_gprs;
        let mut xmms: u32 = self.used_xmms;
        proof {
            lemma_release_none();
            assert(locs@.subrange(n as int, n as int) =~= Seq::<Location>::empty());
            assert(gpr_set(gprs) =~= self@.used_gprs.difference(
                gprs_in(locs@.subrange(n as int, n as int)),
            ));
            assert(xmm_set(xmms) =~= self@.used_xmms.difference(
                xmms_in(locs@.subrange(n as int, n as int)),
            ));
        }
        let mut i: usize = n;
        while i > 0
            invariant
                i <= n,
                n == locs@.len(),
                registers_releasable(self@, locs@.subrange(i as int, n as int)),
                gpr_set(gprs) == self@.used_gprs.difference(
                    gprs_in(locs@.subrange(i as int, n as int)),
                ),
                xmm_set(xmms) == self@.used_xmms.difference(
                    xmms_in(locs@.subrange(i as int, n as int)),
                ),
            decreases i,
        {
            i -= 1;
            proof {
                lemma_release_next(locs@, i as int);
                lemma_releasable_from(self@, locs@, i as int);
            }
            match locs[i] {
                Location::GPR(x) => {
                    let bit: u32 = 1u32 << (x.repr() as u32);
                    proof {
                        lemma_bit_test(gprs, x.index() as u32);
                        lemma_gpr_set_remove(gprs, x);
                        assert(gpr_set(gprs).contains(x) == has_bit(gprs, x.index() as u32));
                        assert(locs@[i as int].is_register());
                        assert(gpr_set(gprs).contains(x) == releasable_before(
                            self@,
                            locs@[i as int],
                            locs@.subrange(i as int + 1, n as int),
                        ));
                    }
                    if gprs & bit == 0 {
                        assert(!registers_releasable(self@, locs@.subrange(i as int, n as int)));
                        return false;
                    }
                    gprs = gprs & !bit;
                    assert(gpr_set(gprs) =~= self@.used_gprs.difference(
                        gprs_in(locs@.subrange(i as int, n as int)),
                    ));
                },
                Location::XMM(x) => {
                    let bit: u32 = 1u32 << (x.repr() as u32);
                    proof {
                        lemma_bit_test(xmms, x.index() as u32);
                        lemma_xmm_set_remove(xmms, x);
                        assert(xmm_set(xmms).contains(x) == has_bit(xmms, x.index() as u32));
                        assert(locs@[i as int].is_register());
                        assert(xmm_set(xmms).contains(x) == releasable_before(
                            self@,
                            locs@[i as int],
                            locs@.subrange(i as int + 1, n as int),
                        ));
                    }
                    if xmms & bit == 0 {
                        assert(!registers_releasable(self@, locs@.subrange(i as int, n as int)));
                        return false;
                    }
                    xmms = xmms & !bit;
                    assert(xmm_set(xmms) =~= self@.used_xmms.difference(
                        xmms_in(locs@.subrange(i as int, n as int)),
                    ));
                },
                _ => {},
            }
        }
        proof {
            assert(locs@.subrange(0, n as int) =~= locs@);
        }
        true
    }

    /// Whether the frame slots among `locs` can be released, last first:
    /// each must be the top of the stack when its turn comes.
    pub fn can_release_stack(&self, locs: &[Location]) -> (ok: bool)
        requires
            self.wf(),
        ensures
            ok == stack_releasable(self@, locs@),
    {
        let n: usize = locs.len();
        let mut stack_offset: usize = self.stack_offset;
        proof {
            lemma_release_none();
            assert(locs@.subrange(n as int, n as int) =~= Seq::<Location>::empty());
        }
        let mut i: usize = n;
        while i > 0
            invariant
                i <= n,
                n == locs@.len(),
                self.wf(),
                stack_releasable(self@, locs@.subrange(i as int, n as int)),
                stack_offset == self@.stack_offset - 8 * frame_slot_count(
                    locs@.subrange(i as int, n as int),
                ),
                stack_offset % 8 == 0,
            decreases i,
        {
            i -= 1;
            proof {
                lemma_release_next(locs@, i as int);
                lemma_releasable_from(self@, locs@, i as int);
            }
            if let Location::Memory(GPR::RBP, x) = locs[i] {
                if x < 0 {
                    assert(locs@[i as int].is_frame_slot());
                    if -(x as i64) != stack_offset as i64 {
                        return false;
                    }
                    stack_offset -= 8;
                }
            }
        }
        proof {
            assert(locs@.subrange(0, n as int) =~= locs@);
        }
        true
    }

    /// Whether `locs` can be released: their registers and their frame slots
    /// can.
    pub fn can_release_locations(&self, locs: &[Location]) -> (ok: bool)
        requires
            self.wf(),
        ensures
            ok == (registers_releasable(self@, locs@) && stack_releasable(self@, locs@)),
    {
        self.can_release_registers(locs) && self.can_release_stack(locs)
    }

    /// The register that holds local `i`, for the four locals that have one.
    fn local_register_for(i: u32) -> (g: GPR)
        requires
            i < 4,
        ensures
            g == local_register(i as int),
    {
        if i == 0 {
            GPR::R12
        } else if i == 1 {
            GPR::R13
        } else if i == 2 {
            GPR::R14
        } else {
            GPR::RBX
        }
    }

    /// Where local `idx` lives: one of R12, R13, R14, RBX for the first four,
    /// and for the others the slot `locals_offset + (idx - 4) * 8` bytes
    /// below the frame pointer.
    pub fn get_local_location(&self, idx: u32) -> (loc: Location)
        requires
            self.wf(),
            idx <= MAX_LOCAL_INDEX,
        ensures
            loc == local_location(idx as nat, self@.locals_offset),
    {
        if idx < 4 {
            Location::GPR(Self::local_register_for(idx))
        } else {
            let local_offset: u32 = (idx - 4) * 8;
            let depth: u32 = local_offset + self.locals_offset as u32;
            Location::Memory(GPR::RBP, -(depth as i32))
        }
    }

    /// Where the caller has put argument `idx` on entry to the function.
    pub fn get_param_location(idx: usize, calling_convention: CallingConvention) -> (loc:
        Location)
        requires
            idx >= register_params(calling_convention) ==> param_displacement(
                idx as nat,
                calling_convention,
            ) <= i32::MAX,
        ensures
            loc == param_location(idx as nat, calling_convention),
    {
        match calling_convention {
            CallingConvention::WindowsFastcall => {
                if idx == 0 {
                    Location::GPR(GPR::RCX)
                } else if idx == 1 {
                    Location::GPR(GPR::RDX)
                } else if idx == 2 {
                    Location::GPR(GPR::R8)
                } else if idx == 3 {
                    Location::GPR(GPR::R9)
                } else {
                    Location::Memory(GPR::RBP, (16 + 32 + (idx - 4) * 8) as i32)
                }
            },
            CallingConvention::SystemV => {
                if idx == 0 {
                    Location::GPR(GPR::RDI)
                } else if idx == 1 {
                    Location::GPR(GPR::RSI)
                } else if idx == 2 {
                    Location::GPR(GPR::RDX)
                } else if idx == 3 {
                    Location::GPR(GPR::RCX)
                } else if idx == 4 {
                    Location::GPR(GPR::R8)
                } else if idx == 5 {
                    Location::GPR(GPR::R9)
                } else {
                    Location::Memory(GPR::RBP, (16 + (idx - 6) * 8) as i32)
                }
            },
        }
    }

    /// Whether argument `idx` has a location: whether, where it is passed on
    /// the stack, its displacement from the frame pointer fits 32 bits.
    pub fn has_param_location(idx: usize, calling_convention: CallingConvention) -> (ok: bool)
        ensures
            ok == (idx >= register_params(calling_convention) ==> param_displacement(
                idx as nat,
                calling_convention,
            ) <= i32::MAX),
    {
        match calling_convention {
            CallingConvention::WindowsFastcall => idx < 4 || (idx - 4) <= (0x7fff_ffff - 48) / 8,
            CallingConvention::SystemV => idx < 6 || (idx - 6) <= (0x7fff_ffff - 16) / 8,
        }
    }

    /// Whether the prologue of a function with `n` locals, `n_params` of
    /// them parameters, can be written: neither number is beyond the
    /// largest a function can have, and the frame stays within reach of a
    /// displacement.
    pub fn can_init_locals(
        &self,
        n: u32,
        n_params: u32,
        calling_convention: CallingConvention,
    ) -> (ok: bool)
        requires
            self.wf(),
        ensures
            ok == (n <= MAX_LOCALS && n_params <= MAX_LOCALS && self@.stack_offset
                + static_area_size(n as nat, calling_convention) + locals_size(n as nat)
                <= MAX_STACK_OFFSET),
    {
        if n > MAX_LOCALS || n_params > MAX_LOCALS {
            return false;
        }
        let in_registers: usize = if n < 4 {
            n as usize
        } else {
            4
        };
        let static_area_size: usize = 8 * in_registers + 8 + match calling_convention {
            CallingConvention::WindowsFastcall => 16,
            CallingConvention::SystemV => 0,
        };
        let locals_size: usize = if n > 4 {
            (n as usize - 4) * 8
        } else {
            0
        };
        self.stack_offset + static_area_size + locals_size <= MAX_STACK_OFFSET
    }

    /// Takes the next slot of the save area and stores `reg` there.
    fn spill<E: Emitter>(&mut self, a: &mut E, reg: GPR)
        requires
            old(self).wf(),
            old(self)@.stack_offset + 8 <= MAX_STACK_OFFSET,
        ensures
            final(self).wf(),
            final(self)@ == (MachineState {
                stack_offset: old(self)@.stack_offset + 8,
                ..old(self)@
            }),
            final(a).emitted() == old(a).emitted().push(
                Instruction::Mov(
                    Size::S64,
                    Location::GPR(reg),
                    frame_slot(old(self)@.stack_offset + 8int),
                ),
            ),
    {
        self.stack_offset += 8;
        a.emit_mov(
            Size::S64,
            Location::GPR(reg),
            Location::Memory(GPR::RBP, -(self.stack_offset as i32)),
        );
    }

    /// Stores the registers that the function will overwrite to the save
    /// area: those that will hold locals, R15, and on Windows RDI and RSI.
    fn save_registers<E: Emitter>(
        &mut self,
        a: &mut E,
        n: u32,
        calling_convention: CallingConvention,
    )
        requires
            old(self).wf(),
            old(self)@.stack_offset + static_area_size(n as nat, calling_convention)
                <= MAX_STACK_OFFSET,
        ensures
            final(self).wf(),
            final(self)@ == (MachineState {
                stack_offset: old(self)@.stack_offset + static_area_size(
                    n as nat,
                    calling_convention,
                ),
                ..old(self)@
            }),
            final(a).emitted() == old(a).emitted() + spills(
                old(self)@.stack_offset,
                saved_registers(n as nat, calling_convention),
            ),
    {
        let ghost s0: MachineState = self@;
        let ghost e0: Seq<Instruction> = a.emitted();
        let ghost saved: Seq<GPR> = saved_registers(n as nat, calling_convention);
        let ghost saves: Seq<Instruction> = spills(s0.stack_offset, saved);
        let in_registers: u32 = if n < 4 {
            n
        } else {
            4
        };
        assert(a.emitted() =~= e0 + saves.take(0));

        let mut k: u32 = 0;
        while k < in_registers
            invariant
                k <= in_registers,
                in_registers == register_locals(n as nat),
                saved == saved_registers(n as nat, calling_convention),
                saves == spills(s0.stack_offset, saved),
                self.wf(),
                self@ == (MachineState { stack_offset: (s0.stack_offset + 8 * k) as nat, ..s0 }),
                s0.stack_offset + 8 * in_registers + 8 <= MAX_STACK_OFFSET,
                a.emitted() == e0 + saves.take(k as int),
            decreases in_registers - k,
        {
            self.spill(a, Self::local_register_for(k));
            assert(saves.take(k as int).push(saves[k as int]) =~= saves.take(k + 1));
            assert(a.emitted() =~= e0 + saves.take(k + 1));
            k += 1;
        }

        self.spill(a, GPR::R15);
        assert(saves.take(k as int).push(saves[k as int]) =~= saves.take(k + 1));
        assert(a.emitted() =~= e0 + saves.take(k + 1));

        match calling_convention {
            CallingConvention::WindowsFastcall => {
                self.spill(a, GPR::RDI);
                assert(saves.take(k + 1).push(saves[k + 1]) =~= saves.take(k + 2));
                assert(a.emitted() =~= e0 + saves.take(k + 2));
                self.spill(a, GPR::RSI);
                assert(saves.take(k + 2).push(saves[k + 2]) =~= saves.take(k + 3));
                assert(a.emitted() =~= e0 + saves.take(k + 3));
            },
            CallingConvention::SystemV => {},
        }
        assert(saves.take(saves.len() as int) =~= saves);
    }

    /// Brings each parameter from where the caller passed it to its local.
    fn load_params<E: Emitter>(
        &self,
        a: &mut E,
        n_params: u32,
        calling_convention: CallingConvention,
    )
        requires
            self.wf(),
            n_params <= MAX_LOCALS,
        ensures
            final(a).emitted() == old(a).emitted() + param_loads(
                n_params as nat,
                calling_convention,
                self@.locals_offset,
            ),
    {
        let ghost e0: Seq<Instruction> = a.emitted();
        let ghost lo: nat = self@.locals_offset;
        assert(a.emitted() =~= e0 + param_loads(0, calling_convention, lo));
        let mut i: u32 = 0;
        while i < n_params
            invariant
                i <= n_params,
                n_params <= MAX_LOCALS,
                self.wf(),
                self@.locals_offset == lo,
                a.emitted() == e0 + param_loads(i as nat, calling_convention, lo),
            decreases n_params - i,
        {
            // Argument 0 is the instance context.
            let loc: Location = Self::get_param_location((i + 1) as usize, calling_convention);
            let local_loc: Location = self.get_local_location(i);
            match (loc, local_loc) {
                (Location::Memory(_, _), Location::Memory(_, _)) => {
                    a.emit_mov(Size::S64, loc, Location::GPR(GPR::RAX));
                    a.emit_mov(Size::S64, Location::GPR(GPR::RAX), local_loc);
                },
                _ => {
                    a.emit_mov(Size::S64, loc, local_loc);
                },
            }
            assert(a.emitted() =~= e0 + (param_loads(i as nat, calling_convention, lo)
                + param_load(i as nat, calling_convention, lo)));
            i += 1;
        }
    }

    /// Touches each page of the locals that are not parameters, but the
    /// first.
    fn probe_stack<E: Emitter>(&self, a: &mut E, n: u32, n_params: u32)
        requires
            self.wf(),
            n <= MAX_LOCALS,
            n_params <= MAX_LOCALS,
        ensures
            final(a).emitted() == old(a).emitted() + probes(
                n as nat,
                n_params as nat,
                self@.locals_offset,
            ),
    {
        let ghost e0: Seq<Instruction> = a.emitted();
        let ghost lo: nat = self@.locals_offset;
        let ghost touches: Seq<Instruction> = probes(n as nat, n_params as nat, lo);
        assert(a.emitted() =~= e0 + touches.take(0));
        let mut j: u32 = 0;
        let mut at: u32 = n_params;
        while n > at && n - at > 512
            invariant
                n <= MAX_LOCALS,
                at == n_params + 512 * j,
                j <= probe_count(n as nat, n_params as nat),
                j > 0 ==> at < n,
                touches == probes(n as nat, n_params as nat, lo),
                self.wf(),
                self@.locals_offset == lo,
                a.emitted() == e0 + touches.take(j as int),
            decreases n - at,
        {
            at += 512;
            a.emit_mov(Size::S64, Location::Imm32(0), self.get_local_location(at));
            assert(touches.take(j as int).push(touches[j as int]) =~= touches.take(j + 1));
            assert(a.emitted() =~= e0 + touches.take(j + 1));
            j += 1;
        }
        assert(j == probe_count(n as nat, n_params as nat));
        assert(touches.take(j as int) =~= touches);
    }

    /// Zeroes the locals that are not parameters: those in registers one by
    /// one, those on the stack with one block store.
    fn zero_locals<E: Emitter>(&self, a: &mut E, n: u32, n_params: u32)
        requires
            self.wf(),
            n <= MAX_LOCALS,
        ensures
            final(a).emitted() == old(a).emitted() + register_zeroing(n as nat, n_params as nat)
                + stack_zeroing(n as nat, n_params as nat, self@.locals_offset),
    {
        let ghost e0: Seq<Instruction> = a.emitted();
        let ghost lo: nat = self@.locals_offset;
        let ghost zeroes: Seq<Instruction> = register_zeroing(n as nat, n_params as nat);
        let in_registers: u32 = if n < 4 {
            n
        } else {
            4
        };
        assert(a.emitted() =~= e0 + zeroes.take(0));
        let mut r: u32 = n_params;
        while r < in_registers
            invariant
                n_params <= r,
                r > n_params ==> r <= in_registers,
                in_registers == register_locals(n as nat),
                zeroes == register_zeroing(n as nat, n_params as nat),
                a.emitted() == e0 + zeroes.take(r - n_params),
            decreases in_registers - r,
        {
            a.emit_mov(
                Size::S64,
                Location::Imm32(0),
                Location::GPR(Self::local_register_for(r)),
            );
            assert(zeroes.take(r - n_params).push(zeroes[r - n_params]) =~= zeroes.take(
                r - n_params + 1,
            ));
            assert(a.emitted() =~= e0 + zeroes.take(r - n_params + 1));
            r += 1;
        }
        assert(r - n_params == register_zero_count(n as nat, n_params as nat));
        assert(zeroes.take(r - n_params) =~= zeroes);
        let ghost e1: Seq<Instruction> = a.emitted();

        let first: u32 = if n_params > 4 {
            n_params
        } else {
            4
        };
        if n > first {
            a.emit_mov(Size::S64, Location::Imm64((n - first) as u64), Location::GPR(GPR::RCX));
            a.emit_xor(Size::S64, Location::GPR(GPR::RAX), Location::GPR(GPR::RAX));
            a.emit_lea(Size::S64, self.get_local_location(n - 1), Location::GPR(GPR::RDI));
            a.emit_rep_stosq();
        }
        assert(a.emitted() =~= e1 + stack_zeroing(n as nat, n_params as nat, lo));
    }

    /// Writes the prologue of a function with `n` locals, of which the first
    /// `n_params` are parameters: reserves the frame, saves the registers the
    /// function will overwrite, brings the parameters to their locals, loads
    /// the instance context, touches each page of the frame and zeroes the
    /// locals that are not parameters.
    pub fn init_locals<E: Emitter>(
        &mut self,
        a: &mut E,
        n: u32,
        n_params: u32,
        calling_convention: CallingConvention,
    )
        requires
            old(self).wf(),
            n <= MAX_LOCALS,
            n_params <= MAX_LOCALS,
            old(self)@.stack_offset + static_area_size(n as nat, calling_convention)
                + locals_size(n as nat) <= MAX_STACK_OFFSET,
        ensures
            final(self).wf(),
            final(self)@ == after_prologue(old(self)@, n as nat, calling_convention),
            final(a).emitted() == old(a).emitted() + prologue(
                old(self)@.stack_offset,
                n as nat,
                n_params as nat,
                calling_convention,
            ),
    {
        let ghost s0: MachineState = self@;
        let ghost e0: Seq<Instruction> = a.emitted();
        let in_registers: u32 = if n < 4 {
            n
        } else {
            4
        };

        // The registers that hold locals, and R15 for the instance context.
        let mut static_area_size: usize = 8 * (in_registers as usize) + 8;
        // Windows has RDI and RSI preserved too.
        match calling_convention {
            CallingConvention::WindowsFastcall => {
                static_area_size += 8 * 2;
            },
            CallingConvention::SystemV => {},
        }
        // The first local on the stack ends where the save area ends, so it
        // begins eight bytes further down.
        self.locals_offset = static_area_size + 8;
        let locals_size: usize = if n > 4 {
            (n as usize - 4) * 8
        } else {
            0
        };

        // Reserve the frame, without writing to it.
        a.emit_sub(
            Size::S64,
            Location::Imm32((static_area_size + locals_size) as u32),
            Location::GPR(GPR::RSP),
        );
        self.save_registers(a, n, calling_convention);
        // The save area ends here.
        self.save_area_offset = Some(self.stack_offset);

        // Locals go from higher to lower addresses, so these stores do not
        // skip the guard page.
        self.load_params(a, n_params, calling_convention);
        // Load the instance context into R15.
        a.emit_mov(
            Size::S64,
            Self::get_param_location(0, calling_convention),
            Location::GPR(GPR::R15),
        );
        // The block store that zeroes the locals writes from low to high
        // addresses and could step over the guard page.
        self.probe_stack(a, n, n_params);
        self.zero_locals(a, n, n_params);

        // The locals on the stack are taken too.
        self.stack_offset += locals_size;
        proof {
            let lo: nat = frame_locals_offset(n as nat, calling_convention);
            let reserve: Instruction = Instruction::Sub(
                Size::S64,
                Location::Imm32(
                    (crate::frame::static_area_size(n as nat, calling_convention)
                        + crate::frame::locals_size(n as nat)) as u32,
                ),
                Location::GPR(GPR::RSP),
            );
            let context: Instruction = Instruction::Mov(
                Size::S64,
                param_location(0, calling_convention),
                Location::GPR(GPR::R15),
            );
            lemma_prologue_in_parts(
                e0,
                reserve,
                spills(s0.stack_offset, saved_registers(n as nat, calling_convention)),
                param_loads(n_params as nat, calling_convention, lo),
                context,
                probes(n as nat, n_params as nat, lo),
                register_zeroing(n as nat, n_params as nat),
                stack_zeroing(n as nat, n_params as nat, lo),
            );
        }
    }

    /// Writes the epilogue of a function with `local_count` locals: moves
    /// the stack pointer to the bottom of the save area, whatever is still on
    /// the stack, and restores what the prologue saved, last saved first.
    pub fn finalize_locals<E: Emitter>(
        &mut self,
        a: &mut E,
        calling_convention: CallingConvention,
        local_count: u32,
    )
        requires
            old(self).wf(),
            old(self)@.save_area_offset is Some,
        ensures
            final(self).wf(),
            final(self)@ == old(self)@,
            final(a).emitted() == old(a).emitted() + epilogue(
                old(self)@.save_area_offset->0,
                local_count as nat,
                calling_convention,
            ),
    {
        let ghost e0: Seq<Instruction> = a.emitted();
        let ghost saved: Seq<GPR> = saved_registers(local_count as nat, calling_convention);
        let ghost pops: Seq<Instruction> = restores(saved);
        let save_area_offset: usize = match self.save_area_offset {
            Some(off) => off,
            None => 0,
        };

        // Unwind the stack to the save area.
        a.emit_lea(
            Size::S64,
            Location::Memory(GPR::RBP, -(save_area_offset as i32)),
            Location::GPR(GPR::RSP),
        );
        let ghost e1: Seq<Instruction> = a.emitted();
        let mut done: u32 = 0;
        assert(a.emitted() =~= e1 + pops.take(0));

        match calling_convention {
            CallingConvention::WindowsFastcall => {
                a.emit_pop(Size::S64, Location::GPR(GPR::RSI));
                assert(pops.take(0).push(pops[0]) =~= pops.take(1));
                a.emit_pop(Size::S64, Location::GPR(GPR::RDI));
                assert(pops.take(1).push(pops[1]) =~= pops.take(2));
                done = 2;
                assert(a.emitted() =~= e1 + pops.take(2));
            },
            CallingConvention::SystemV => {},
        }
        // Restore R15, which held the instance context.
        a.emit_pop(Size::S64, Location::GPR(GPR::R15));
        assert(pops.take(done as int).push(pops[done as int]) =~= pops.take(done + 1));
        assert(a.emitted() =~= e1 + pops.take(done + 1));
        done += 1;

        // Restore the registers that held locals.
        let mut k: u32 = if local_count < 4 {
            local_count
        } else {
            4
        };
        while k > 0
            invariant
                k <= register_locals(local_count as nat),
                saved == saved_registers(local_count as nat, calling_convention),
                pops == restores(saved),
                done + k == saved.len(),
                a.emitted() == e1 + pops.take(done as int),
            decreases k,
        {
            k -= 1;
            a.emit_pop(Size::S64, Location::GPR(Self::local_register_for(k)));
            assert(pops.take(done as int).push(pops[done as int]) =~= pops.take(done + 1));
            assert(a.emitted() =~= e1 + pops.take(done + 1));
            done += 1;
        }
        assert(pops.take(done as int) =~= pops);
        assert(a.emitted() =~= e0 + epilogue(
            save_area_offset as nat,
            local_count as nat,
            calling_convention,
        ));
    }
}

} // verus!
