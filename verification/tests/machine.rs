use singlepass_machine::emitter::{Emitter, Instruction, InstructionLog};
use singlepass_machine::location::{CallingConvention, Location, RegisterClass, Size, WpType};
use singlepass_machine::machine::Machine;
use singlepass_machine::registers::{GPR, XMM};

fn rbp(displacement: i32) -> Location {
    Location::Memory(GPR::RBP, displacement)
}

fn gpr(reg: GPR) -> Location {
    Location::GPR(reg)
}

fn mov(src: Location, dst: Location) -> Instruction {
    Instruction::Mov(Size::S64, src, dst)
}

fn pop(reg: GPR) -> Instruction {
    Instruction::Pop(Size::S64, Location::GPR(reg))
}

fn sub_rsp(bytes: u32) -> Instruction {
    Instruction::Sub(Size::S64, Location::Imm32(bytes), Location::GPR(GPR::RSP))
}

fn add_rsp(bytes: u32) -> Instruction {
    Instruction::Add(Size::S64, Location::Imm32(bytes), Location::GPR(GPR::RSP))
}

fn ten_integers() -> Vec<WpType> {
    (0..10).map(|_| WpType::I32).collect::<Vec<_>>()
}

#[test]
fn test_release_locations_keep_state_nopanic() {
    let mut machine = Machine::new();
    let mut assembler = InstructionLog::new();
    let locs = machine.acquire_locations(
        &mut assembler,
        &(0..10).map(|_| WpType::I32).collect::<Vec<_>>(),
        false,
    );

    machine.release_locations_keep_state(&mut assembler, &locs.to_vec());
}

#[test]
fn keep_state_leaves_the_machine_and_emits_the_release() {
    let mut machine = Machine::new();
    let mut assembler = InstructionLog::new();
    let locs = machine
        .acquire_locations(&mut assembler, &ten_integers(), false)
        .to_vec();
    machine.release_locations_keep_state(&mut assembler, &locs);
    assert_eq!(machine.get_stack_offset(), 32);
    assert_eq!(
        machine.get_used_gprs(),
        vec![GPR::RSI, GPR::RDI, GPR::R8, GPR::R9, GPR::R10, GPR::R11]
    );
    assert_eq!(assembler.instructions(), &vec![sub_rsp(32), add_rsp(32)]);

    // The release proper emits the same and gives everything back.
    let mut other = InstructionLog::new();
    machine.release_locations(&mut other, &locs);
    assert_eq!(other.instructions(), &vec![add_rsp(32)]);
    assert_eq!(machine.get_stack_offset(), 0);
    assert_eq!(machine.get_used_gprs(), vec![]);
}

#[test]
fn acquire_ten_integers_then_release() {
    let mut machine = Machine::new();
    let mut assembler = InstructionLog::new();
    let locs = machine.acquire_locations(&mut assembler, &ten_integers(), false);
    assert_eq!(locs.len(), 10);
    assert_eq!(
        locs.to_vec(),
        vec![
            gpr(GPR::RSI),
            gpr(GPR::RDI),
            gpr(GPR::R8),
            gpr(GPR::R9),
            gpr(GPR::R10),
            gpr(GPR::R11),
            rbp(-8),
            rbp(-16),
            rbp(-24),
            rbp(-32),
        ]
    );
    assert_eq!(locs.get(0), gpr(GPR::RSI));
    assert_eq!(locs.get(9), rbp(-32));
    assert_eq!(assembler.instructions(), &vec![sub_rsp(32)]);
    assert_eq!(machine.get_stack_offset(), 32);

    machine.release_locations(&mut assembler, &locs.to_vec());
    assert_eq!(assembler.instructions(), &vec![sub_rsp(32), add_rsp(32)]);
    assert_eq!(machine.get_used_gprs(), vec![]);
    assert_eq!(machine.get_used_xmms(), vec![]);
    assert_eq!(machine.get_stack_offset(), 0);
}

#[test]
fn zeroed_acquire_zeroes_registers_too() {
    let mut machine = Machine::new();
    let mut assembler = InstructionLog::new();
    let locs = machine.acquire_locations(&mut assembler, &[WpType::I64, WpType::F64], true);
    assert_eq!(
        locs.to_vec(),
        vec![Location::GPR(GPR::RSI), Location::XMM(XMM::XMM3)]
    );
    assert_eq!(
        assembler.instructions(),
        &vec![
            mov(Location::Imm32(0), Location::GPR(GPR::RSI)),
            mov(Location::Imm32(0), Location::XMM(XMM::XMM3)),
        ]
    );
    assert_eq!(machine.get_stack_offset(), 0);
}

#[test]
fn zeroed_acquire_reserves_before_it_zeroes() {
    let mut machine = Machine::new();
    let mut assembler = InstructionLog::new();
    let tys = vec![WpType::F32; 6];
    let locs = machine.acquire_locations(&mut assembler, &tys, true).to_vec();
    assert_eq!(
        locs,
        vec![
            Location::XMM(XMM::XMM3),
            Location::XMM(XMM::XMM4),
            Location::XMM(XMM::XMM5),
            Location::XMM(XMM::XMM6),
            Location::XMM(XMM::XMM7),
            rbp(-8),
        ]
    );
    let mut expected = vec![sub_rsp(8)];
    for loc in &locs {
        expected.push(mov(Location::Imm32(0), *loc));
    }
    assert_eq!(assembler.instructions(), &expected);
    assert_eq!(
        machine.get_used_xmms(),
        vec![XMM::XMM3, XMM::XMM4, XMM::XMM5, XMM::XMM6, XMM::XMM7]
    );
    assert_eq!(machine.get_used_gprs(), vec![]);
}

#[test]
fn acquire_of_nothing_emits_nothing() {
    let mut machine = Machine::new();
    let mut assembler = InstructionLog::new();
    let locs = machine.acquire_locations(&mut assembler, &[], true);
    assert_eq!(locs.len(), 0);
    assert_eq!(locs.to_vec(), vec![]);
    assert_eq!(assembler.instructions(), &vec![]);
    machine.release_locations(&mut assembler, &[]);
    assert_eq!(assembler.instructions(), &vec![]);
}

#[test]
fn references_go_to_general_purpose_registers() {
    let mut machine = Machine::new();
    let mut assembler = InstructionLog::new();
    let locs = machine.acquire_locations(
        &mut assembler,
        &[WpType::FuncRef, WpType::F32, WpType::ExternRef, WpType::I32],
        false,
    );
    assert_eq!(
        locs.to_vec(),
        vec![
            gpr(GPR::RSI),
            Location::XMM(XMM::XMM3),
            gpr(GPR::RDI),
            gpr(GPR::R8),
        ]
    );
}

#[test]
fn integer_and_float_slots_share_one_stack() {
    let mut machine = Machine::new();
    let mut assembler = InstructionLog::new();
    let mut tys = vec![WpType::I64; 6];
    tys.extend(vec![WpType::F64; 5]);
    tys.extend(vec![WpType::I32, WpType::F32, WpType::I64]);
    let locs = machine.acquire_locations(&mut assembler, &tys, false).to_vec();
    assert_eq!(&locs[11..], &[rbp(-8), rbp(-16), rbp(-24)]);
    assert_eq!(assembler.instructions(), &vec![sub_rsp(24)]);
    assert!(machine.can_release_locations(&locs));
    machine.release_locations(&mut assembler, &locs);
    assert_eq!(machine.get_stack_offset(), 0);
    assert_eq!(machine.get_used_gprs(), vec![]);
    assert_eq!(machine.get_used_xmms(), vec![]);
}

#[test]
fn nested_acquisitions_pair_up() {
    let mut machine = Machine::new();
    let mut assembler = InstructionLog::new();
    let held = machine.acquire_temp_gpr();
    assert_eq!(held, Some(GPR::RAX));
    let outer = machine
        .acquire_locations(&mut assembler, &vec![WpType::I32; 7], false)
        .to_vec();
    let inner = machine
        .acquire_locations(&mut assembler, &[WpType::I32, WpType::F64], false)
        .to_vec();
    assert_eq!(inner, vec![rbp(-16), Location::XMM(XMM::XMM3)]);
    assert_eq!(machine.get_stack_offset(), 16);
    // The outer list holds a slot below the top: it cannot go first.
    assert!(!machine.can_release_locations(&outer));
    machine.release_locations(&mut assembler, &inner);
    assert!(machine.can_release_locations(&outer));
    machine.release_locations(&mut assembler, &outer);
    assert_eq!(machine.get_stack_offset(), 0);
    assert_eq!(machine.get_used_gprs(), vec![GPR::RAX]);
    assert_eq!(machine.get_used_xmms(), vec![]);
    assert_eq!(
        assembler.instructions(),
        &vec![sub_rsp(8), sub_rsp(8), add_rsp(8), add_rsp(8)]
    );
}

#[test]
fn occupied_registers_are_the_live_locations() {
    let mut machine = Machine::new();
    let mut assembler = InstructionLog::new();
    let live = |locs: &[Location]| {
        let mut gprs: Vec<GPR> = Vec::new();
        let mut xmms: Vec<XMM> = Vec::new();
        for loc in locs {
            match *loc {
                Location::GPR(g) => gprs.push(g),
                Location::XMM(x) => xmms.push(x),
                _ => {}
            }
        }
        gprs.sort_by_key(|g| g.repr());
        xmms.sort_by_key(|x| x.repr());
        (gprs, xmms)
    };
    let first = machine
        .acquire_locations(&mut assembler, &[WpType::I32, WpType::F32, WpType::I64], false)
        .to_vec();
    assert_eq!(
        (machine.get_used_gprs(), machine.get_used_xmms()),
        live(&first)
    );
    let second = machine
        .acquire_locations(&mut assembler, &vec![WpType::F64; 6], false)
        .to_vec();
    let mut all = first.clone();
    all.extend(second.iter().copied());
    assert_eq!(
        (machine.get_used_gprs(), machine.get_used_xmms()),
        live(&all)
    );
    assert_eq!(machine.get_stack_offset(), 16);
    machine.release_locations(&mut assembler, &second);
    assert_eq!(
        (machine.get_used_gprs(), machine.get_used_xmms()),
        live(&first)
    );
    machine.release_locations(&mut assembler, &first);
    assert_eq!(
        (machine.get_used_gprs(), machine.get_used_xmms()),
        (vec![], vec![])
    );
    assert_eq!(machine.get_stack_offset(), 0);
}

#[test]
fn temp_gprs_run_out_after_three() {
    let mut machine = Machine::new();
    assert_eq!(machine.acquire_temp_gpr(), Some(GPR::RAX));
    assert_eq!(machine.acquire_temp_gpr(), Some(GPR::RCX));
    assert_eq!(machine.acquire_temp_gpr(), Some(GPR::RDX));
    assert_eq!(machine.acquire_temp_gpr(), None);
    assert_eq!(machine.get_used_gprs(), vec![GPR::RAX, GPR::RCX, GPR::RDX]);
    // Values still find their registers.
    assert_eq!(machine.pick_gpr(), Some(GPR::RSI));
    machine.release_temp_gpr(GPR::RCX);
    assert_eq!(machine.pick_temp_gpr(), Some(GPR::RCX));
    assert_eq!(machine.acquire_temp_gpr(), Some(GPR::RCX));
}

#[test]
fn temp_xmms_run_out_after_three() {
    let mut machine = Machine::new();
    assert_eq!(machine.pick_temp_xmm(), Some(XMM::XMM0));
    assert_eq!(machine.get_used_xmms(), vec![]);
    assert_eq!(machine.acquire_temp_xmm(), Some(XMM::XMM0));
    assert_eq!(machine.acquire_temp_xmm(), Some(XMM::XMM1));
    assert_eq!(machine.acquire_temp_xmm(), Some(XMM::XMM2));
    assert_eq!(machine.acquire_temp_xmm(), None);
    assert_eq!(machine.pick_xmm(), Some(XMM::XMM3));
    assert!(machine.get_xmm_used(XMM::XMM1));
    machine.release_temp_xmm(XMM::XMM0);
    assert!(!machine.get_xmm_used(XMM::XMM0));
    assert_eq!(machine.get_used_xmms(), vec![XMM::XMM1, XMM::XMM2]);
    assert_eq!(machine.acquire_temp_xmm(), Some(XMM::XMM0));
}

#[test]
fn picks_do_not_mark() {
    let machine = Machine::new();
    assert_eq!(machine.pick_gpr(), Some(GPR::RSI));
    assert_eq!(machine.pick_gpr(), Some(GPR::RSI));
    assert_eq!(machine.pick_temp_gpr(), Some(GPR::RAX));
    assert_eq!(machine.pick_xmm(), Some(XMM::XMM3));
    assert_eq!(machine.get_used_gprs(), vec![]);
    assert_eq!(machine.get_used_xmms(), vec![]);
}

#[test]
fn picks_take_the_lowest_free_candidate() {
    let mut machine = Machine::new();
    assert_eq!(machine.reserve_unused_temp_gpr(GPR::RSI), GPR::RSI);
    assert_eq!(machine.reserve_unused_temp_gpr(GPR::R8), GPR::R8);
    assert_eq!(machine.pick_gpr(), Some(GPR::RDI));
    machine.reserve_unused_temp_gpr(GPR::RDI);
    assert_eq!(machine.pick_gpr(), Some(GPR::R9));
    machine.reserve_unused_temp_gpr(GPR::R9);
    machine.reserve_unused_temp_gpr(GPR::R10);
    assert_eq!(machine.pick_gpr(), Some(GPR::R11));
    machine.reserve_unused_temp_gpr(GPR::R11);
    assert_eq!(machine.pick_gpr(), None);
    assert_eq!(machine.pick_temp_gpr(), Some(GPR::RAX));
    machine.release_temp_gpr(GPR::R10);
    assert_eq!(machine.pick_gpr(), Some(GPR::R10));
}

#[test]
fn reserved_registers_are_never_picked() {
    let mut machine = Machine::new();
    let mut assembler = InstructionLog::new();
    let locs = machine
        .acquire_locations(&mut assembler, &vec![WpType::I64; 20], false)
        .to_vec();
    while machine.acquire_temp_gpr().is_some() {}
    let used = machine.get_used_gprs();
    assert_eq!(
        used,
        vec![
            GPR::RAX,
            GPR::RCX,
            GPR::RDX,
            GPR::RSI,
            GPR::RDI,
            GPR::R8,
            GPR::R9,
            GPR::R10,
            GPR::R11,
        ]
    );
    for reserved in [
        GPR::RBX,
        GPR::RSP,
        GPR::RBP,
        GPR::R12,
        GPR::R13,
        GPR::R14,
        GPR::R15,
    ] {
        assert!(!machine.get_gpr_used(reserved));
        assert!(!locs.contains(&Location::GPR(reserved)));
    }
    for temp in [GPR::RAX, GPR::RCX, GPR::RDX] {
        assert!(!locs.contains(&Location::GPR(temp)));
    }
}

#[test]
fn a_reserved_register_can_be_commandeered() {
    let mut machine = Machine::new();
    assert!(!machine.get_gpr_used(GPR::RCX));
    assert_eq!(machine.reserve_unused_temp_gpr(GPR::RCX), GPR::RCX);
    assert!(machine.get_gpr_used(GPR::RCX));
    assert_eq!(machine.acquire_temp_gpr(), Some(GPR::RAX));
    assert_eq!(machine.acquire_temp_gpr(), Some(GPR::RDX));
    assert_eq!(machine.acquire_temp_gpr(), None);
}

#[test]
fn pick_one_in_finds_the_lowest_set_bit() {
    assert_eq!(Machine::pick_one_in(0), None);
    assert_eq!(Machine::pick_one_in(1), Some(0));
    assert_eq!(Machine::pick_one_in(0b1010_0000), Some(5));
    assert_eq!(Machine::pick_one_in(0x8000_0000), Some(31));
    assert_eq!(Machine::pick_one_in(u32::MAX), Some(0));
}

#[test]
fn get_used_in_lists_set_bits_in_ascending_order() {
    assert_eq!(Machine::get_used_in(0, |r| r), Vec::<u8>::new());
    assert_eq!(Machine::get_used_in(0b1010_0001, |r| r), vec![0, 5, 7]);
    assert_eq!(
        Machine::get_used_in(0b1010_0001, |r| u32::from(r) * 10),
        vec![0, 50, 70]
    );
}

#[test]
fn get_used_in_copes_with_the_highest_bit() {
    assert_eq!(Machine::get_used_in(0x8000_0000, |r| r), vec![31]);
    assert_eq!(Machine::get_used_in(0x8000_0001, |r| r), vec![0, 31]);
    assert_eq!(Machine::get_used_in(0xc000_0000, |r| r), vec![30, 31]);
    assert_eq!(
        Machine::get_used_in(u32::MAX, |r| r),
        (0u8..32).collect::<Vec<_>>()
    );
}

#[test]
fn register_encodings_are_dense_and_stable() {
    assert_eq!(GPR::num_gprs(), 16);
    assert_eq!(XMM::num_xmms(), 16);
    assert!(GPR::num_gprs() <= 32);
    assert!(XMM::num_xmms() <= 32);
    assert_eq!(GPR::RAX.repr(), 0);
    assert_eq!(GPR::RCX.repr(), 1);
    assert_eq!(GPR::RDX.repr(), 2);
    assert_eq!(GPR::RBX.repr(), 3);
    assert_eq!(GPR::RSP.repr(), 4);
    assert_eq!(GPR::RBP.repr(), 5);
    assert_eq!(GPR::RSI.repr(), 6);
    assert_eq!(GPR::RDI.repr(), 7);
    assert_eq!(GPR::R15.repr(), 15);
    assert_eq!(XMM::XMM0.repr(), 0);
    assert_eq!(XMM::XMM15.repr(), 15);
    for r in 0u8..16 {
        assert_eq!(GPR::from_repr(r).map(|g| g.repr()), Some(r));
        assert_eq!(XMM::from_repr(r).map(|x| x.repr()), Some(r));
    }
    assert_eq!(GPR::from_repr(16), None);
    assert_eq!(XMM::from_repr(16), None);
    assert_eq!(GPR::from_repr(255), None);
    assert_eq!(Machine::get_vmctx_reg(), GPR::R15);
}

#[test]
fn value_types_have_the_documented_classes() {
    for ty in [WpType::I32, WpType::I64, WpType::FuncRef, WpType::ExternRef] {
        assert_eq!(ty.register_class(), Some(RegisterClass::Integer));
    }
    for ty in [WpType::F32, WpType::F64] {
        assert_eq!(ty.register_class(), Some(RegisterClass::Float));
    }
    for ty in [
        WpType::V128,
        WpType::ExnRef,
        WpType::Func,
        WpType::EmptyBlockType,
    ] {
        assert_eq!(ty.register_class(), None);
    }
}

#[test]
fn unsupported_types_cannot_be_acquired() {
    let machine = Machine::new();
    assert!(machine.can_acquire_locations(&[WpType::I32, WpType::F64]));
    assert!(machine.can_acquire_locations(&[]));
    assert!(!machine.can_acquire_locations(&[WpType::I32, WpType::V128]));
    assert!(!machine.can_acquire_locations(&[WpType::EmptyBlockType]));
}

#[test]
fn release_passes_over_foreign_memory_and_immediates() {
    let mut machine = Machine::new();
    let mut assembler = InstructionLog::new();
    let mut locs = machine
        .acquire_locations(&mut assembler, &vec![WpType::I32; 7], false)
        .to_vec();
    locs.push(Location::Memory(GPR::RAX, -8));
    locs.push(Location::Memory(GPR::RBP, 16));
    locs.push(Location::Imm32(7));
    locs.push(Location::Imm64(7));
    assert!(machine.can_release_locations(&locs));
    machine.release_locations(&mut assembler, &locs);
    assert_eq!(assembler.instructions(), &vec![sub_rsp(8), add_rsp(8)]);
    assert_eq!(machine.get_stack_offset(), 0);
    assert_eq!(machine.get_used_gprs(), vec![]);
}

#[test]
fn release_only_regs_keeps_the_stack() {
    let mut machine = Machine::new();
    let mut assembler = InstructionLog::new();
    let locs = machine
        .acquire_locations(&mut assembler, &ten_integers(), false)
        .to_vec();
    assert!(machine.can_release_registers(&locs));
    machine.release_locations_only_regs(&locs);
    assert_eq!(machine.get_used_gprs(), vec![]);
    assert_eq!(machine.get_stack_offset(), 32);
    assert_eq!(assembler.instructions(), &vec![sub_rsp(32)]);
    // The registers are gone now; the slots can still go.
    assert!(!machine.can_release_registers(&locs));
    assert!(!machine.can_release_locations(&locs));
    assert!(machine.can_release_stack(&locs));
}

#[test]
fn release_only_stack_keeps_the_registers() {
    let mut machine = Machine::new();
    let mut assembler = InstructionLog::new();
    let locs = machine
        .acquire_locations(&mut assembler, &ten_integers(), false)
        .to_vec();
    machine.release_locations_only_stack(&mut assembler, &locs);
    assert_eq!(machine.get_stack_offset(), 0);
    assert_eq!(
        machine.get_used_gprs(),
        vec![GPR::RSI, GPR::RDI, GPR::R8, GPR::R9, GPR::R10, GPR::R11]
    );
    assert_eq!(assembler.instructions(), &vec![sub_rsp(32), add_rsp(32)]);
    assert!(!machine.can_release_stack(&locs));
    machine.release_locations_only_regs(&locs);
    assert_eq!(machine.get_used_gprs(), vec![]);
}

#[test]
fn releasing_slots_out_of_order_is_refused() {
    let mut machine = Machine::new();
    let mut assembler = InstructionLog::new();
    let locs = machine
        .acquire_locations(&mut assembler, &vec![WpType::I32; 8], false)
        .to_vec();
    assert_eq!(&locs[6..], &[rbp(-8), rbp(-16)]);
    assert!(machine.can_release_stack(&locs));

    let mut swapped = locs.clone();
    swapped.swap(6, 7);
    assert!(!machine.can_release_stack(&swapped));
    assert!(!machine.can_release_locations(&swapped));
    // Registers may go in any order.
    let mut shuffled = locs.clone();
    shuffled.swap(0, 5);
    shuffled.swap(1, 3);
    assert!(machine.can_release_locations(&shuffled));

    // A slot that is not the top of the stack, alone.
    assert!(!machine.can_release_stack(&[rbp(-8)]));
    assert!(machine.can_release_stack(&[rbp(-16)]));
    // A slot that was never handed out.
    assert!(!machine.can_release_stack(&[rbp(-24)]));
    assert!(!machine.can_release_stack(&[rbp(i32::MIN)]));
    // The same slot twice.
    assert!(!machine.can_release_stack(&[rbp(-16), rbp(-16)]));
}

#[test]
fn releasing_a_free_register_is_refused() {
    let mut machine = Machine::new();
    let mut assembler = InstructionLog::new();
    let locs = machine
        .acquire_locations(&mut assembler, &[WpType::I32, WpType::F32], false)
        .to_vec();
    assert!(machine.can_release_registers(&locs));
    assert!(!machine.can_release_registers(&[gpr(GPR::RDI)]));
    assert!(!machine.can_release_registers(&[Location::XMM(XMM::XMM4)]));
    assert!(!machine.can_release_registers(&[gpr(GPR::RSI), gpr(GPR::RSI)]));
    assert!(!machine.can_release_registers(&[
        Location::XMM(XMM::XMM3),
        gpr(GPR::RSI),
        Location::XMM(XMM::XMM3)
    ]));
    assert!(machine.can_release_registers(&[Location::XMM(XMM::XMM3), gpr(GPR::RSI)]));
}

#[test]
fn locals_map_to_registers_then_slots() {
    let machine = Machine::new();
    assert_eq!(machine.get_local_location(0), gpr(GPR::R12));
    assert_eq!(machine.get_local_location(1), gpr(GPR::R13));
    assert_eq!(machine.get_local_location(2), gpr(GPR::R14));
    assert_eq!(machine.get_local_location(3), gpr(GPR::RBX));
    // Before the prologue the locals area has no place yet.
    assert_eq!(machine.get_local_location(4), rbp(0));
    assert_eq!(machine.get_local_location(5), rbp(-8));

    let mut machine = Machine::new();
    let mut assembler = InstructionLog::new();
    machine.init_locals(&mut assembler, 10, 0, CallingConvention::SystemV);
    assert_eq!(machine.get_locals_offset(), 48);
    assert_eq!(machine.get_local_location(3), gpr(GPR::RBX));
    assert_eq!(machine.get_local_location(4), rbp(-48));
    assert_eq!(machine.get_local_location(5), rbp(-56));
    assert_eq!(machine.get_local_location(9), rbp(-88));
    assert_eq!(machine.get_local_location(999_999), rbp(-(48 + 999_995 * 8)));
    // Asking twice gives the same, whatever is occupied meanwhile.
    let before = machine.get_local_location(7);
    let _ = machine.acquire_locations(&mut assembler, &ten_integers(), false);
    let _ = machine.acquire_temp_gpr();
    assert_eq!(machine.get_local_location(7), before);
    assert_eq!(before, rbp(-72));
}

#[test]
fn parameters_follow_the_calling_convention() {
    let sysv = CallingConvention::SystemV;
    let win = CallingConvention::WindowsFastcall;
    let expected_sysv = [
        gpr(GPR::RDI),
        gpr(GPR::RSI),
        gpr(GPR::RDX),
        gpr(GPR::RCX),
        gpr(GPR::R8),
        gpr(GPR::R9),
        rbp(16),
        rbp(24),
        rbp(32),
    ];
    for (idx, loc) in expected_sysv.iter().enumerate() {
        assert_eq!(Machine::get_param_location(idx, sysv), *loc);
    }
    let expected_win = [
        gpr(GPR::RCX),
        gpr(GPR::RDX),
        gpr(GPR::R8),
        gpr(GPR::R9),
        rbp(48),
        rbp(56),
        rbp(64),
    ];
    for (idx, loc) in expected_win.iter().enumerate() {
        assert_eq!(Machine::get_param_location(idx, win), *loc);
    }
    assert_eq!(Machine::get_param_location(1006, sysv), rbp(16 + 8000));
    assert_eq!(Machine::get_param_location(1004, win), rbp(48 + 8000));
}

#[test]
fn parameter_indices_have_a_limit() {
    let sysv = CallingConvention::SystemV;
    let win = CallingConvention::WindowsFastcall;
    assert!(Machine::has_param_location(0, sysv));
    assert!(Machine::has_param_location(268_435_459, sysv));
    assert!(!Machine::has_param_location(268_435_460, sysv));
    assert_eq!(
        Machine::get_param_location(268_435_459, sysv),
        rbp(2_147_483_640)
    );
    assert!(Machine::has_param_location(268_435_453, win));
    assert!(!Machine::has_param_location(268_435_454, win));
    assert_eq!(
        Machine::get_param_location(268_435_453, win),
        rbp(2_147_483_640)
    );
}

#[test]
fn prologue_sysv_six_locals_two_params() {
    let mut machine = Machine::new();
    let mut assembler = InstructionLog::new();
    assert_eq!(machine.get_save_area_offset(), None);
    assert!(machine.can_init_locals(6, 2, CallingConvention::SystemV));
    machine.init_locals(&mut assembler, 6, 2, CallingConvention::SystemV);
    assert_eq!(
        assembler.instructions(),
        &vec![
            sub_rsp(56),
            mov(gpr(GPR::R12), rbp(-8)),
            mov(gpr(GPR::R13), rbp(-16)),
            mov(gpr(GPR::R14), rbp(-24)),
            mov(gpr(GPR::RBX), rbp(-32)),
            mov(gpr(GPR::R15), rbp(-40)),
            mov(gpr(GPR::RSI), gpr(GPR::R12)),
            mov(gpr(GPR::RDX), gpr(GPR::R13)),
            mov(gpr(GPR::RDI), gpr(GPR::R15)),
            mov(Location::Imm32(0), gpr(GPR::R14)),
            mov(Location::Imm32(0), gpr(GPR::RBX)),
            mov(Location::Imm64(2), gpr(GPR::RCX)),
            Instruction::Xor(Size::S64, gpr(GPR::RAX), gpr(GPR::RAX)),
            Instruction::Lea(Size::S64, rbp(-56), gpr(GPR::RDI)),
            Instruction::RepStosq,
        ]
    );
    assert_eq!(machine.get_locals_offset(), 48);
    assert_eq!(machine.get_save_area_offset(), Some(40));
    assert_eq!(machine.get_stack_offset(), 56);
    assert_eq!(machine.get_used_gprs(), vec![]);
}

#[test]
fn epilogue_mirrors_the_prologue() {
    let mut machine = Machine::new();
    let mut assembler = InstructionLog::new();
    machine.init_locals(&mut assembler, 6, 2, CallingConvention::SystemV);
    let mut epilogue = InstructionLog::new();
    machine.finalize_locals(&mut epilogue, CallingConvention::SystemV, 6);
    assert_eq!(
        epilogue.instructions(),
        &vec![
            Instruction::Lea(Size::S64, rbp(-40), gpr(GPR::RSP)),
            pop(GPR::R15),
            pop(GPR::RBX),
            pop(GPR::R14),
            pop(GPR::R13),
            pop(GPR::R12),
        ]
    );
    assert_eq!(machine.get_stack_offset(), 56);
    assert_eq!(machine.get_save_area_offset(), Some(40));
}

#[test]
fn epilogue_does_not_depend_on_what_is_outstanding() {
    let mut machine = Machine::new();
    let mut assembler = InstructionLog::new();
    machine.init_locals(&mut assembler, 6, 2, CallingConvention::SystemV);
    let locs = machine.acquire_locations(&mut assembler, &ten_integers(), false);
    assert_eq!(locs.get(6), rbp(-64));
    assert_eq!(machine.get_stack_offset(), 88);
    let mut epilogue = InstructionLog::new();
    machine.finalize_locals(&mut epilogue, CallingConvention::SystemV, 6);
    assert_eq!(
        epilogue.instructions()[0],
        Instruction::Lea(Size::S64, rbp(-40), gpr(GPR::RSP))
    );
    assert_eq!(epilogue.instructions().len(), 6);
}

#[test]
fn prologue_and_epilogue_on_windows() {
    let win = CallingConvention::WindowsFastcall;
    let mut machine = Machine::new();
    let mut assembler = InstructionLog::new();
    machine.init_locals(&mut assembler, 2, 1, win);
    assert_eq!(
        assembler.instructions(),
        &vec![
            sub_rsp(40),
            mov(gpr(GPR::R12), rbp(-8)),
            mov(gpr(GPR::R13), rbp(-16)),
            mov(gpr(GPR::R15), rbp(-24)),
            mov(gpr(GPR::RDI), rbp(-32)),
            mov(gpr(GPR::RSI), rbp(-40)),
            mov(gpr(GPR::RDX), gpr(GPR::R12)),
            mov(gpr(GPR::RCX), gpr(GPR::R15)),
            mov(Location::Imm32(0), gpr(GPR::R13)),
        ]
    );
    assert_eq!(machine.get_locals_offset(), 48);
    assert_eq!(machine.get_save_area_offset(), Some(40));
    assert_eq!(machine.get_stack_offset(), 40);

    let mut epilogue = InstructionLog::new();
    machine.finalize_locals(&mut epilogue, win, 2);
    assert_eq!(
        epilogue.instructions(),
        &vec![
            Instruction::Lea(Size::S64, rbp(-40), gpr(GPR::RSP)),
            pop(GPR::RSI),
            pop(GPR::RDI),
            pop(GPR::R15),
            pop(GPR::R13),
            pop(GPR::R12),
        ]
    );
}

#[test]
fn prologue_without_locals() {
    let mut machine = Machine::new();
    let mut assembler = InstructionLog::new();
    machine.init_locals(&mut assembler, 0, 0, CallingConvention::SystemV);
    assert_eq!(
        assembler.instructions(),
        &vec![
            sub_rsp(8),
            mov(gpr(GPR::R15), rbp(-8)),
            mov(gpr(GPR::RDI), gpr(GPR::R15)),
        ]
    );
    assert_eq!(machine.get_locals_offset(), 16);
    assert_eq!(machine.get_save_area_offset(), Some(8));
    assert_eq!(machine.get_stack_offset(), 8);
    let mut epilogue = InstructionLog::new();
    machine.finalize_locals(&mut epilogue, CallingConvention::SystemV, 0);
    assert_eq!(
        epilogue.instructions(),
        &vec![
            Instruction::Lea(Size::S64, rbp(-8), gpr(GPR::RSP)),
            pop(GPR::R15),
        ]
    );
}

#[test]
fn parameters_from_memory_to_memory_go_through_rax() {
    let mut machine = Machine::new();
    let mut assembler = InstructionLog::new();
    machine.init_locals(&mut assembler, 8, 7, CallingConvention::SystemV);
    assert_eq!(
        assembler.instructions(),
        &vec![
            sub_rsp(72),
            mov(gpr(GPR::R12), rbp(-8)),
            mov(gpr(GPR::R13), rbp(-16)),
            mov(gpr(GPR::R14), rbp(-24)),
            mov(gpr(GPR::RBX), rbp(-32)),
            mov(gpr(GPR::R15), rbp(-40)),
            mov(gpr(GPR::RSI), gpr(GPR::R12)),
            mov(gpr(GPR::RDX), gpr(GPR::R13)),
            mov(gpr(GPR::RCX), gpr(GPR::R14)),
            mov(gpr(GPR::R8), gpr(GPR::RBX)),
            mov(gpr(GPR::R9), rbp(-48)),
            mov(rbp(16), gpr(GPR::RAX)),
            mov(gpr(GPR::RAX), rbp(-56)),
            mov(rbp(24), gpr(GPR::RAX)),
            mov(gpr(GPR::RAX), rbp(-64)),
            mov(gpr(GPR::RDI), gpr(GPR::R15)),
            mov(Location::Imm64(1), gpr(GPR::RCX)),
            Instruction::Xor(Size::S64, gpr(GPR::RAX), gpr(GPR::RAX)),
            Instruction::Lea(Size::S64, rbp(-72), gpr(GPR::RDI)),
            Instruction::RepStosq,
        ]
    );
    assert_eq!(machine.get_stack_offset(), 72);
}

#[test]
fn windows_passes_the_fifth_argument_on_the_stack() {
    let win = CallingConvention::WindowsFastcall;
    let mut machine = Machine::new();
    let mut assembler = InstructionLog::new();
    machine.init_locals(&mut assembler, 5, 5, win);
    let log = assembler.instructions();
    // Four local registers, R15, RDI and RSI are saved: 56 bytes, and one
    // local lives on the stack.
    assert_eq!(log[0], sub_rsp(64));
    assert_eq!(machine.get_locals_offset(), 64);
    assert_eq!(machine.get_save_area_offset(), Some(56));
    assert_eq!(
        &log[8..],
        &[
            mov(gpr(GPR::RDX), gpr(GPR::R12)),
            mov(gpr(GPR::R8), gpr(GPR::R13)),
            mov(gpr(GPR::R9), gpr(GPR::R14)),
            mov(rbp(48), gpr(GPR::RBX)),
            mov(rbp(56), gpr(GPR::RAX)),
            mov(gpr(GPR::RAX), rbp(-64)),
            mov(gpr(GPR::RCX), gpr(GPR::R15)),
        ]
    );
}

#[test]
fn every_page_of_the_locals_but_the_first_is_probed() {
    let mut machine = Machine::new();
    let mut assembler = InstructionLog::new();
    machine.init_locals(&mut assembler, 1100, 0, CallingConvention::SystemV);
    assert_eq!(
        assembler.instructions(),
        &vec![
            sub_rsp(8808),
            mov(gpr(GPR::R12), rbp(-8)),
            mov(gpr(GPR::R13), rbp(-16)),
            mov(gpr(GPR::R14), rbp(-24)),
            mov(gpr(GPR::RBX), rbp(-32)),
            mov(gpr(GPR::R15), rbp(-40)),
            mov(gpr(GPR::RDI), gpr(GPR::R15)),
            mov(Location::Imm32(0), rbp(-4112)),
            mov(Location::Imm32(0), rbp(-8208)),
            mov(Location::Imm32(0), gpr(GPR::R12)),
            mov(Location::Imm32(0), gpr(GPR::R13)),
            mov(Location::Imm32(0), gpr(GPR::R14)),
            mov(Location::Imm32(0), gpr(GPR::RBX)),
            mov(Location::Imm64(1096), gpr(GPR::RCX)),
            Instruction::Xor(Size::S64, gpr(GPR::RAX), gpr(GPR::RAX)),
            Instruction::Lea(Size::S64, rbp(-8808), gpr(GPR::RDI)),
            Instruction::RepStosq,
        ]
    );
    assert_eq!(machine.get_stack_offset(), 8808);
}

#[test]
fn probes_start_one_page_after_the_parameters() {
    let count = |n: u32, n_params: u32| {
        let mut machine = Machine::new();
        let mut assembler = InstructionLog::new();
        machine.init_locals(&mut assembler, n, n_params, CallingConvention::SystemV);
        assembler
            .instructions()
            .iter()
            .filter(|i| matches!(i, Instruction::Mov(_, Location::Imm32(0), Location::Memory(_, _))))
            .count()
    };
    assert_eq!(count(512, 0), 0);
    assert_eq!(count(513, 0), 1);
    assert_eq!(count(1024, 0), 1);
    assert_eq!(count(1025, 0), 2);
    assert_eq!(count(520, 8), 0);
    assert_eq!(count(521, 8), 1);
    assert_eq!(count(10, 20), 0);
}

#[test]
fn more_parameters_than_locals_zeroes_nothing() {
    let mut machine = Machine::new();
    let mut assembler = InstructionLog::new();
    machine.init_locals(&mut assembler, 2, 3, CallingConvention::SystemV);
    assert_eq!(
        assembler.instructions(),
        &vec![
            sub_rsp(24),
            mov(gpr(GPR::R12), rbp(-8)),
            mov(gpr(GPR::R13), rbp(-16)),
            mov(gpr(GPR::R15), rbp(-24)),
            mov(gpr(GPR::RSI), gpr(GPR::R12)),
            mov(gpr(GPR::RDX), gpr(GPR::R13)),
            mov(gpr(GPR::RCX), gpr(GPR::R14)),
            mov(gpr(GPR::RDI), gpr(GPR::R15)),
        ]
    );
}

#[test]
fn the_prologue_has_limits() {
    let machine = Machine::new();
    let sysv = CallingConvention::SystemV;
    assert!(machine.can_init_locals(1_000_000, 1_000_000, sysv));
    assert!(!machine.can_init_locals(1_000_001, 0, sysv));
    assert!(!machine.can_init_locals(0, 1_000_001, sysv));
}

#[test]
fn frame_and_value_stack_unwind_to_where_they_began() {
    // Follow the stack pointer through everything that is emitted.
    let rsp_after = |log: &[Instruction], rbp_value: i64| {
        let mut rsp = rbp_value;
        for instr in log {
            match *instr {
                Instruction::Sub(_, Location::Imm32(k), Location::GPR(GPR::RSP)) => {
                    rsp -= i64::from(k)
                }
                Instruction::Add(_, Location::Imm32(k), Location::GPR(GPR::RSP)) => {
                    rsp += i64::from(k)
                }
                Instruction::Lea(_, Location::Memory(GPR::RBP, d), Location::GPR(GPR::RSP)) => {
                    rsp = rbp_value + i64::from(d)
                }
                Instruction::Pop(_, _) => rsp += 8,
                _ => {}
            }
        }
        rsp
    };
    for cc in [CallingConvention::SystemV, CallingConvention::WindowsFastcall] {
        for n in [0u32, 1, 3, 4, 5, 9] {
            let mut machine = Machine::new();
            let mut assembler = InstructionLog::new();
            machine.init_locals(&mut assembler, n, 0, cc);
            let after_prologue = machine.get_stack_offset();
            let locs = machine
                .acquire_locations(&mut assembler, &ten_integers(), true)
                .to_vec();
            assert_eq!(
                rsp_after(assembler.instructions(), 1 << 20),
                (1 << 20) - machine.get_stack_offset() as i64
            );
            machine.release_locations(&mut assembler, &locs);
            assert_eq!(machine.get_stack_offset(), after_prologue);
            machine.finalize_locals(&mut assembler, cc, n);
            assert_eq!(rsp_after(assembler.instructions(), 1 << 20), 1 << 20);
        }
    }
}

#[test]
fn the_log_keeps_the_order_of_emission() {
    let mut log = InstructionLog::new();
    assert_eq!(log.instructions(), &vec![]);
    log.emit_sub(Size::S64, Location::Imm32(8), gpr(GPR::RSP));
    log.emit_add(Size::S32, Location::Imm32(1), gpr(GPR::RAX));
    log.emit_xor(Size::S64, gpr(GPR::RAX), gpr(GPR::RAX));
    log.emit_mov(Size::S8, gpr(GPR::RCX), rbp(-8));
    log.emit_lea(Size::S64, rbp(-8), gpr(GPR::RDI));
    log.emit_pop(Size::S64, gpr(GPR::R15));
    log.emit_rep_stosq();
    assert_eq!(
        log.instructions(),
        &vec![
            Instruction::Sub(Size::S64, Location::Imm32(8), gpr(GPR::RSP)),
            Instruction::Add(Size::S32, Location::Imm32(1), gpr(GPR::RAX)),
            Instruction::Xor(Size::S64, gpr(GPR::RAX), gpr(GPR::RAX)),
            Instruction::Mov(Size::S8, gpr(GPR::RCX), rbp(-8)),
            Instruction::Lea(Size::S64, rbp(-8), gpr(GPR::RDI)),
            Instruction::Pop(Size::S64, gpr(GPR::R15)),
            Instruction::RepStosq,
        ]
    );
}
