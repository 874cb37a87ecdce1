//! Sequences of calls on one machine, and what stays true along them.

use vstd::prelude::*;
use crate::emitter::Instruction;
use crate::laws::lemma_acquire_takes_free;
use crate::location::{Location, WpType};
use crate::model::{
    acquirable, acquire, acquire_emission, frame_slot_count, free_temp_gpr, free_temp_xmm,
    fresh_state, gprs_in, lemma_acquire_grows, registers_releasable, release_emission,
    release_registers, release_stack, stack_releasable, valid, with_gpr, with_xmm,
    without_gpr, without_xmm, xmms_in, MachineState,
};
use crate::registers::{GPR, XMM};

verus! {

/// One call that takes or gives back registers or stack slots.
pub enum Call {
    /// Homes for values of the given types, zeroed or not.
    AcquireLocations(Seq<WpType>, bool),
    /// The given locations back, registers and stack slots.
    ReleaseLocations(Seq<Location>),
    /// The registers among the given locations back.
    ReleaseLocationsOnlyRegs(Seq<Location>),
    /// The stack slots among the given locations back.
    ReleaseLocationsOnlyStack(Seq<Location>),
    /// The first free temporary general-purpose register, if there is one.
    AcquireTempGpr,
    /// The given temporary general-purpose register back.
    ReleaseTempGpr(GPR),
    /// The given general-purpose register, which is free.
    ReserveUnusedTempGpr(GPR),
    /// The first free temporary vector register, if there is one.
    AcquireTempXmm,
    /// The given temporary vector register back.
    ReleaseTempXmm(XMM),
}

/// What has been handed out and not given back yet.
#[verifier::ext_equal]
pub struct Live {
    /// The general-purpose registers handed out.
    pub gprs: Set<GPR>,
    /// The vector registers handed out.
    pub xmms: Set<XMM>,
    /// The number of stack slots handed out.
    pub slots: nat,
}

/// Nothing handed out.
pub open spec fn nothing_live() -> Live {
    Live { gprs: Set::empty(), xmms: Set::empty(), slots: 0 }
}

/// Whether `call` may be made in state `s` when `live` is what has been
/// handed out: the call's own precondition holds, and it gives back only what
/// was handed out.
pub open spec fn permitted(s: MachineState, live: Live, call: Call) -> bool {
    match call {
        Call::AcquireLocations(tys, _) => acquirable(s, tys),
        Call::ReleaseLocations(locs) => {
            &&& registers_releasable(s, locs)
            &&& stack_releasable(s, locs)
            &&& gprs_in(locs).subset_of(live.gprs)
            &&& xmms_in(locs).subset_of(live.xmms)
            &&& frame_slot_count(locs) <= live.slots
        },
        Call::ReleaseLocationsOnlyRegs(locs) => {
            &&& registers_releasable(s, locs)
            &&& gprs_in(locs).subset_of(live.gprs)
            &&& xmms_in(locs).subset_of(live.xmms)
        },
        Call::ReleaseLocationsOnlyStack(locs) => {
            &&& stack_releasable(s, locs)
            &&& frame_slot_count(locs) <= live.slots
        },
        Call::AcquireTempGpr => true,
        Call::ReleaseTempGpr(g) => s.used_gprs.contains(g) && live.gprs.contains(g),
        Call::ReserveUnusedTempGpr(g) => !s.used_gprs.contains(g),
        Call::AcquireTempXmm => true,
        Call::ReleaseTempXmm(x) => s.used_xmms.contains(x) && live.xmms.contains(x),
    }
}

/// The state after `call` is made in state `s`.
pub open spec fn state_after(s: MachineState, call: Call) -> MachineState {
    match call {
        Call::AcquireLocations(tys, _) => acquire(s, tys).0,
        Call::ReleaseLocations(locs) => release_stack(release_registers(s, locs), locs),
        Call::ReleaseLocationsOnlyRegs(locs) => release_registers(s, locs),
        Call::ReleaseLocationsOnlyStack(locs) => release_stack(s, locs),
        Call::AcquireTempGpr => match free_temp_gpr(s.used_gprs) {
            Some(g) => with_gpr(s, g),
            None => s,
        },
        Call::ReleaseTempGpr(g) => without_gpr(s, g),
        Call::ReserveUnusedTempGpr(g) => with_gpr(s, g),
        Call::AcquireTempXmm => match free_temp_xmm(s.used_xmms) {
            Some(x) => with_xmm(s, x),
            None => s,
        },
        Call::ReleaseTempXmm(x) => without_xmm(s, x),
    }
}

/// What is handed out after `call` is made in state `s`.
pub open spec fn live_after(s: MachineState, live: Live, call: Call) -> Live {
    match call {
        Call::AcquireLocations(tys, _) => Live {
            gprs: live.gprs.union(gprs_in(acquire(s, tys).1)),
            xmms: live.xmms.union(xmms_in(acquire(s, tys).1)),
            slots: live.slots + frame_slot_count(acquire(s, tys).1),
        },
        Call::ReleaseLocations(locs) => Live {
            gprs: live.gprs.difference(gprs_in(locs)),
            xmms: live.xmms.difference(xmms_in(locs)),
            slots: (live.slots - frame_slot_count(locs)) as nat,
        },
        Call::ReleaseLocationsOnlyRegs(locs) => Live {
            gprs: live.gprs.difference(gprs_in(locs)),
            xmms: live.xmms.difference(xmms_in(locs)),
            ..live
        },
        Call::ReleaseLocationsOnlyStack(locs) => Live {
            slots: (live.slots - frame_slot_count(locs)) as nat,
            ..live
        },
        Call::AcquireTempGpr => match free_temp_gpr(s.used_gprs) {
            Some(g) => Live { gprs: live.gprs.insert(g), ..live },
            None => live,
        },
        Call::ReleaseTempGpr(g) => Live { gprs: live.gprs.remove(g), ..live },
        Call::ReserveUnusedTempGpr(g) => Live { gprs: live.gprs.insert(g), ..live },
        Call::AcquireTempXmm => match free_temp_xmm(s.used_xmms) {
            Some(x) => Live { xmms: live.xmms.insert(x), ..live },
            None => live,
        },
        Call::ReleaseTempXmm(x) => Live { xmms: live.xmms.remove(x), ..live },
    }
}

/// What `call` emits when it is made in state `s`.
pub open spec fn emission_of(s: MachineState, call: Call) -> Seq<Instruction> {
    match call {
        Call::AcquireLocations(tys, zeroed) => acquire_emission(s, tys, zeroed),
        Call::ReleaseLocations(locs) => release_emission(locs),
        Call::ReleaseLocationsOnlyStack(locs) => release_emission(locs),
        _ => Seq::empty(),
    }
}

/// The state after the calls `calls` are made one after another from `s`.
pub open spec fn run(s: MachineState, calls: Seq<Call>) -> MachineState
    decreases calls.len(),
{
    if calls.len() == 0 {
        s
    } else {
        state_after(run(s, calls.drop_last()), calls.last())
    }
}

/// What is handed out after the calls `calls`, made from `s` with nothing
/// handed out.
pub open spec fn live(s: MachineState, calls: Seq<Call>) -> Live
    decreases calls.len(),
{
    if calls.len() == 0 {
        nothing_live()
    } else {
        live_after(run(s, calls.drop_last()), live(s, calls.drop_last()), calls.last())
    }
}

/// What the calls `calls` emit, made one after another from `s`.
pub open spec fn emitted(s: MachineState, calls: Seq<Call>) -> Seq<Instruction>
    decreases calls.len(),
{
    if calls.len() == 0 {
        Seq::empty()
    } else {
        emitted(s, calls.drop_last()) + emission_of(run(s, calls.drop_last()), calls.last())
    }
}

/// Whether each of `calls` is permitted when its turn comes.
pub open spec fn all_permitted(s: MachineState, calls: Seq<Call>) -> bool
    decreases calls.len(),
{
    if calls.len() == 0 {
        true
    } else {
        all_permitted(s, calls.drop_last()) && permitted(
            run(s, calls.drop_last()),
            live(s, calls.drop_last()),
            calls.last(),
        )
    }
}

/// No aliasing: at every point the registers occupied are those that were
/// occupied at the start together with those handed out since and not given
/// back, no register being both; the stack stands deeper than at the start
/// by the slots handed out; and the save area and the locals stay where they
/// were.
pub proof fn lemma_occupied_is_live(s: MachineState, calls: Seq<Call>)
    requires
        valid(s),
        all_permitted(s, calls),
    ensures
        valid(run(s, calls)),
        run(s, calls).used_gprs == s.used_gprs.union(live(s, calls).gprs),
        run(s, calls).used_xmms == s.used_xmms.union(live(s, calls).xmms),
        s.used_gprs.disjoint(live(s, calls).gprs),
        s.used_xmms.disjoint(live(s, calls).xmms),
        run(s, calls).stack_offset == s.stack_offset + 8 * live(s, calls).slots,
        run(s, calls).save_area_offset == s.save_area_offset,
        run(s, calls).locals_offset == s.locals_offset,
    decreases calls.len(),
{
    if calls.len() == 0 {
        assert(run(s, calls).used_gprs =~= s.used_gprs.union(live(s, calls).gprs));
        assert(run(s, calls).used_xmms =~= s.used_xmms.union(live(s, calls).xmms));
    } else {
        let before: MachineState = run(s, calls.drop_last());
        let held: Live = live(s, calls.drop_last());
        lemma_occupied_is_live(s, calls.drop_last());
        match calls.last() {
            Call::AcquireLocations(tys, _) => {
                lemma_acquire_takes_free(before, tys);
                lemma_acquire_grows(before, tys);
            },
            Call::ReleaseLocations(locs) => {
                assert(8 * frame_slot_count(locs) <= 8 * held.slots);
            },
            Call::ReleaseLocationsOnlyStack(locs) => {
                assert(8 * frame_slot_count(locs) <= 8 * held.slots);
            },
            _ => {},
        }
        assert(run(s, calls).used_gprs =~= s.used_gprs.union(live(s, calls).gprs));
        assert(run(s, calls).used_xmms =~= s.used_xmms.union(live(s, calls).xmms));
    }
}

/// On a machine that started with nothing occupied, the registers occupied
/// are exactly those handed out and not given back.
pub proof fn lemma_occupied_is_live_from_fresh(calls: Seq<Call>)
    requires
        all_permitted(fresh_state(), calls),
    ensures
        run(fresh_state(), calls).used_gprs == live(
            fresh_state(),
            calls,
        ).gprs,
        run(fresh_state(), calls).used_xmms == live(
            fresh_state(),
            calls,
        ).xmms,
        run(fresh_state(), calls).stack_offset == 8 * live(
            fresh_state(),
            calls,
        ).slots,
{
    let s: MachineState = fresh_state();
    lemma_occupied_is_live(s, calls);
    assert(run(s, calls).used_gprs =~= live(s, calls).gprs);
    assert(run(s, calls).used_xmms =~= live(s, calls).xmms);
}

/// Register conservation: after calls that pair up, so that in the end all
/// that was handed out has been given back, the machine is as it was at the
/// start: the same registers occupied, the stack as deep.
pub proof fn lemma_paired_calls_restore(s: MachineState, calls: Seq<Call>)
    requires
        valid(s),
        all_permitted(s, calls),
        live(s, calls) == nothing_live(),
    ensures
        run(s, calls) == s,
{
    lemma_occupied_is_live(s, calls);
    assert(run(s, calls).used_gprs =~= s.used_gprs);
    assert(run(s, calls).used_xmms =~= s.used_xmms);
    assert(run(s, calls) =~= s);
}

} // verus!
