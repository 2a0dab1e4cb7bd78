//! Whole runs of the supervisor, and what holds of every one of them.

use crate::config::{verdict, Check};
use crate::map::{lookup_path, parse_map};
use crate::protocol::{
    ActionView, ChildExitView, FaultView, FrameRecord, InputView, Registers, WaitEvent,
};
use crate::region::RegionView;
use crate::supervisor::{
    begin_walk, first_action, initial, on_frame, on_wait, probe_of, step_spec, Outcome, Phase,
    Policy, ProbeView, State,
};
use crate::syscall::{low_word, syscall_in};
use vstd::prelude::*;

verus! {

/// The state that a run on `root` is in after the supervisor was told
/// `inputs`, one after the other, and the action it answered the last of them
/// with.
pub open spec fn run(root: i32, policy: Policy, inputs: Seq<InputView>) -> Outcome
    decreases inputs.len(),
{
    if inputs.len() == 0 {
        (initial(root), first_action(root))
    } else {
        step_spec(run(root, policy, inputs.drop_last()).0, policy, inputs.last())
    }
}

/// The registers that were read last, if any were.
pub open spec fn last_registers(inputs: Seq<InputView>) -> Option<Registers>
    decreases inputs.len(),
{
    if inputs.len() == 0 {
        None
    } else if let InputView::Registers(registers) = inputs.last() {
        Some(registers)
    } else {
        last_registers(inputs.drop_last())
    }
}

/// The return addresses of the frame records that were read since registers
/// were last read, in the order in which they were read.
pub open spec fn return_addresses(inputs: Seq<InputView>) -> Seq<u64>
    decreases inputs.len(),
{
    if inputs.len() == 0 {
        Seq::empty()
    } else {
        match inputs.last() {
            InputView::Registers(_) => Seq::empty(),
            InputView::Frame(frame) => return_addresses(inputs.drop_last()).push(frame.saved_lr),
            _ => return_addresses(inputs.drop_last()),
        }
    }
}

/// The addresses that the last walk has to probe, in their order: the address
/// of the instruction and the link register, from the registers that were
/// read last, then the return address of each frame record that was read
/// since.
pub open spec fn probes(inputs: Seq<InputView>) -> Seq<u64> {
    match last_registers(inputs) {
        Some(registers) => seq![registers.pc, registers.x30] + return_addresses(inputs),
        None => Seq::empty(),
    }
}

/// A run keeps its root process; and the exit code that the supervisor holds
/// for it was reported for it by the kernel.
pub proof fn lemma_child_exit(root: i32, policy: Policy, inputs: Seq<InputView>)
    ensures
        run(root, policy, inputs).0.root == root,
        run(root, policy, inputs).0.child_exit matches Some(code) ==> exists|i: int|
            0 <= i < inputs.len() && #[trigger] inputs[i] == InputView::Wait(
                WaitEvent::Exited { pid: root, code },
            ),
    decreases inputs.len(),
{
    if inputs.len() > 0 {
        let before = inputs.drop_last();
        lemma_child_exit(root, policy, before);
        let pre = run(root, policy, before).0;
        let post = run(root, policy, inputs).0;
        if let Some(code) = post.child_exit {
            if pre.child_exit == Some(code) {
                let i = choose|i: int|
                    0 <= i < before.len() && #[trigger] before[i] == InputView::Wait(
                        WaitEvent::Exited { pid: root, code },
                    );
                assert(inputs[i] == before[i]);
            } else {
                assert(inputs[inputs.len() - 1] == InputView::Wait(
                    WaitEvent::Exited { pid: root, code },
                ));
            }
        }
    }
}

/// Where a run ends with `Exited(code)`, the kernel has reported that the
/// root process exited with `code`.
pub proof fn lemma_exit_code_was_reported(
    root: i32,
    policy: Policy,
    inputs: Seq<InputView>,
    code: i32,
)
    requires
        run(root, policy, inputs).1 == ActionView::Return(ChildExitView::Exited(code)),
    ensures
        exists|i: int|
            0 <= i < inputs.len() && #[trigger] inputs[i] == InputView::Wait(
                WaitEvent::Exited { pid: root, code },
            ),
{
    let before = inputs.drop_last();
    lemma_child_exit(root, policy, before);
    let pre = run(root, policy, before).0;
    assert(pre.child_exit == Some(code));
    let i = choose|i: int|
        0 <= i < before.len() && #[trigger] before[i] == InputView::Wait(
            WaitEvent::Exited { pid: root, code },
        );
    assert(inputs[i] == before[i]);
}

/// What holds of the maps after every run: the process whose registers or
/// frame records the supervisor waits for has a map.
pub open spec fn has_map(state: State) -> bool {
    match state.phase {
        Phase::Examining { pid } => state.maps.contains_key(pid),
        Phase::Walking { pid, .. } => state.maps.contains_key(pid),
        _ => true,
    }
}

/// After every run, the process whose registers or frame records the
/// supervisor waits for has a map.
pub proof fn lemma_has_map(root: i32, policy: Policy, inputs: Seq<InputView>)
    ensures
        has_map(run(root, policy, inputs).0),
    decreases inputs.len(),
{
    if inputs.len() > 0 {
        lemma_has_map(root, policy, inputs.drop_last());
    }
}

/// `input` is the kind of input that `action` is answered with.
pub open spec fn answers(action: ActionView, input: InputView) -> bool {
    match action {
        ActionView::Attach { .. } => input is Maps,
        ActionView::Wait => input is Wait,
        ActionView::Resume { .. } => input is Wait,
        ActionView::ReadMaps { .. } => input is Maps,
        ActionView::ReadRegisters { .. } => input is Registers,
        ActionView::ReadFrame { .. } => input is Frame,
        ActionView::ReadEventMessage { .. } => input is EventMessage,
        ActionView::Kill { .. } => false,
        ActionView::Return(_) => false,
        ActionView::Abort(_) => false,
    }
}

/// The supervisor waits for the input that its action is answered with.
pub open spec fn agree(outcome: Outcome) -> bool {
    match outcome.0.phase {
        Phase::Attaching => outcome.1 is Attach,
        Phase::Waiting => outcome.1 is Wait || outcome.1 is Resume,
        Phase::Mapping { .. } => outcome.1 is ReadMaps,
        Phase::Examining { .. } => outcome.1 is ReadRegisters,
        Phase::Remapping { .. } => outcome.1 is ReadMaps,
        Phase::Walking { .. } => outcome.1 is ReadFrame,
        Phase::Adopting { .. } => outcome.1 is ReadEventMessage,
        Phase::Finished => outcome.1 is Kill || outcome.1 is Return || outcome.1 is Abort,
    }
}

/// A walk leaves the supervisor waiting for the answer to its action.
proof fn lemma_walk_agrees(
    pre: State,
    policy: Policy,
    pid: i32,
    syscall: u32,
    registers: Registers,
    frame: FrameRecord,
)
    ensures
        agree(begin_walk(pre, policy, pid, syscall, registers)),
        agree(on_frame(pre, policy, pid, syscall, frame)),
{
}

/// What waiting reports leaves the supervisor waiting for the answer to its
/// action.
proof fn lemma_wait_agrees(pre: State, event: WaitEvent)
    requires
        pre.phase == Phase::Waiting,
    ensures
        agree(on_wait(pre, event)),
{
}

/// Every step leaves the supervisor waiting for the answer to its action.
pub proof fn lemma_step_agrees(pre: State, policy: Policy, input: InputView)
    ensures
        agree(step_spec(pre, policy, input)),
{
    match (pre.phase, input) {
        (Phase::Attaching, InputView::Maps(text)) => {},
        (Phase::Waiting, InputView::Wait(event)) => {
            lemma_wait_agrees(pre, event);
        },
        (Phase::Mapping { pid }, InputView::Maps(text)) => {},
        (Phase::Examining { pid }, InputView::Registers(registers)) => {
            if let Some(syscall) = syscall_in(registers.x8) {
                lemma_walk_agrees(pre, policy, pid, syscall, registers, arbitrary());
            }
        },
        (Phase::Remapping { pid, syscall, registers }, InputView::Maps(text)) => {
            if let Ok(regions) = parse_map(text) {
                let mapped = State { maps: pre.maps.insert(pid, regions), ..pre };
                lemma_walk_agrees(mapped, policy, pid, syscall, registers, arbitrary());
            }
        },
        (Phase::Walking { pid, syscall }, InputView::Frame(frame)) => {
            lemma_walk_agrees(pre, policy, pid, syscall, arbitrary(), frame);
        },
        (Phase::Adopting { pid }, InputView::EventMessage(message)) => {},
        _ => {},
    }
}

/// After every run, the supervisor waits for the input that its last action
/// is answered with.
pub proof fn lemma_agree(root: i32, policy: Policy, inputs: Seq<InputView>)
    ensures
        agree(run(root, policy, inputs)),
{
    if inputs.len() > 0 {
        lemma_step_agrees(run(root, policy, inputs.drop_last()).0, policy, inputs.last());
    }
}

/// An input that answers the last action of a run is not out of turn.
pub proof fn lemma_answer_is_in_turn(
    root: i32,
    policy: Policy,
    inputs: Seq<InputView>,
    input: InputView,
)
    requires
        answers(run(root, policy, inputs).1, input),
    ensures
        step_spec(run(root, policy, inputs).0, policy, input).1 != ActionView::Abort(
            FaultView::OutOfTurn,
        ),
{
    lemma_agree(root, policy, inputs);
    lemma_has_map(root, policy, inputs);
}

/// None of the first `upto` of `addresses` decides: the policy says nothing
/// of `syscall` for the objects that hold them in `map`.
pub open spec fn all_pass(
    policy: Policy,
    map: Seq<RegionView>,
    syscall: u32,
    addresses: Seq<u64>,
    upto: int,
) -> bool {
    forall|j: int|
        0 <= j < upto ==> probe_of(policy, map, syscall, #[trigger] addresses[j])
            == ProbeView::Pass
}

/// One of `addresses` lies in the object at `path`, the policy blocks
/// `syscall` for that object, and no address in front of it decides.
pub open spec fn blocked_at(
    policy: Policy,
    map: Seq<RegionView>,
    syscall: u32,
    addresses: Seq<u64>,
    path: Seq<char>,
) -> bool {
    exists|k: int|
        0 <= k < addresses.len() && lookup_path(map, #[trigger] addresses[k]) == Some(path)
            && verdict(policy, path, syscall) == Check::Blocked && all_pass(
            policy,
            map,
            syscall,
            addresses,
            k,
        )
}

/// What holds after every run. While a walk goes on, no address probed so
/// far has decided; while the map is read anew, the registers are the ones
/// read last; and a kill is the verdict of the first probe that decided.
pub open spec fn walk_invariant(
    policy: Policy,
    inputs: Seq<InputView>,
    outcome: Outcome,
) -> bool {
    &&& outcome.0.phase matches Phase::Walking { pid, syscall } ==> {
        &&& last_registers(inputs) matches Some(registers)
        &&& syscall == low_word(registers.x8)
        &&& outcome.0.maps.contains_key(pid)
        &&& all_pass(
            policy,
            outcome.0.maps[pid],
            syscall,
            probes(inputs),
            probes(inputs).len() as int,
        )
    }
    &&& outcome.0.phase matches Phase::Remapping { pid, syscall, registers } ==> {
        &&& last_registers(inputs) == Some(registers)
        &&& syscall == low_word(registers.x8)
        &&& return_addresses(inputs) == Seq::<u64>::empty()
    }
    &&& outcome.1 matches ActionView::Kill { pid, exit } ==> {
        &&& exit matches ChildExitView::IllegalSyscall(syscall, path)
        &&& last_registers(inputs) matches Some(registers)
        &&& syscall == low_word(registers.x8)
        &&& outcome.0.maps.contains_key(pid)
        &&& blocked_at(policy, outcome.0.maps[pid], syscall, probes(inputs), path)
    }
}

/// The beginning of a walk keeps the invariant.
proof fn lemma_begin_walk(
    pre: State,
    policy: Policy,
    pid: i32,
    registers: Registers,
    inputs: Seq<InputView>,
)
    requires
        last_registers(inputs) == Some(registers),
        return_addresses(inputs) == Seq::<u64>::empty(),
    ensures
        walk_invariant(
            policy,
            inputs,
            begin_walk(pre, policy, pid, low_word(registers.x8), registers),
        ),
{
    let syscall = low_word(registers.x8);
    let outcome = begin_walk(pre, policy, pid, syscall, registers);
    let all = probes(inputs);
    assert(all == seq![registers.pc, registers.x30]);
    assert(all[0] == registers.pc);
    assert(all[1] == registers.x30);
    if pre.maps.contains_key(pid) {
        let map = pre.maps[pid];
        match probe_of(policy, map, syscall, registers.pc) {
            ProbeView::Permit => {},
            ProbeView::Block(path) => {
                assert(all_pass(policy, map, syscall, all, 0));
                assert(lookup_path(map, all[0]) == Some(path));
            },
            ProbeView::Pass => {
                match probe_of(policy, map, syscall, registers.x30) {
                    ProbeView::Permit => {},
                    ProbeView::Block(path) => {
                        assert(all_pass(policy, map, syscall, all, 1));
                        assert(lookup_path(map, all[1]) == Some(path));
                    },
                    ProbeView::Pass => {
                        assert(all_pass(policy, map, syscall, all, 2));
                    },
                }
            },
        }
    }
}

/// Every run keeps the invariant.
pub proof fn lemma_walk_invariant(root: i32, policy: Policy, inputs: Seq<InputView>)
    ensures
        walk_invariant(policy, inputs, run(root, policy, inputs)),
    decreases inputs.len(),
{
    if inputs.len() > 0 {
        let before = inputs.drop_last();
        lemma_walk_invariant(root, policy, before);
        let pre = run(root, policy, before).0;
        let outcome = run(root, policy, inputs);
        match (pre.phase, inputs.last()) {
            (Phase::Attaching, InputView::Maps(text)) => {},
            (Phase::Waiting, InputView::Wait(event)) => {},
            (Phase::Mapping { pid }, InputView::Maps(text)) => {},
            (Phase::Examining { pid }, InputView::Registers(registers)) => {
                if let Some(syscall) = syscall_in(registers.x8) {
                    lemma_begin_walk(pre, policy, pid, registers, inputs);
                }
            },
            (Phase::Remapping { pid, syscall, registers }, InputView::Maps(text)) => {
                if let Ok(regions) = parse_map(text) {
                    let mapped = State {
                        maps: pre.maps.insert(pid, regions),
                        ..pre
                    };
                    lemma_begin_walk(mapped, policy, pid, registers, inputs);
                }
            },
            (Phase::Walking { pid, syscall }, InputView::Frame(frame)) => {
                let earlier = probes(before);
                let all = probes(inputs);
                assert(all == earlier.push(frame.saved_lr));
                let map = pre.maps[pid];
                assert forall|j: int| 0 <= j < earlier.len() implies probe_of(
                    policy,
                    map,
                    syscall,
                    #[trigger] all[j],
                ) == ProbeView::Pass by {
                    assert(all[j] == earlier[j]);
                }
                assert(all[earlier.len() as int] == frame.saved_lr);
                match probe_of(policy, map, syscall, frame.saved_lr) {
                    ProbeView::Permit => {},
                    ProbeView::Block(path) => {
                        assert(all_pass(policy, map, syscall, all, earlier.len() as int));
                        assert(lookup_path(map, all[earlier.len() as int]) == Some(path));
                    },
                    ProbeView::Pass => {
                        assert(all_pass(policy, map, syscall, all, all.len() as int));
                    },
                }
            },
            (Phase::Adopting { pid }, InputView::EventMessage(message)) => {},
            _ => {},
        }
    }
}

/// Where a run ends with `IllegalSyscall(syscall, path)`: the process that is
/// killed made `syscall`, by the registers that were read of it last; one of
/// the addresses of its walk lies in the object at `path`, by its map; the
/// policy blocks `syscall` for that object; and no address in front of that
/// one in the walk met a verdict, neither `Allowed` nor `Blocked`.
pub proof fn lemma_illegal_syscall_was_blocked(
    root: i32,
    policy: Policy,
    inputs: Seq<InputView>,
    pid: i32,
    syscall: u32,
    path: Seq<char>,
)
    requires
        run(root, policy, inputs).1 == (ActionView::Kill {
            pid,
            exit: ChildExitView::IllegalSyscall(syscall, path),
        }),
    ensures
        last_registers(inputs) matches Some(registers) && syscall == low_word(registers.x8),
        run(root, policy, inputs).0.maps.contains_key(pid),
        blocked_at(policy, run(root, policy, inputs).0.maps[pid], syscall, probes(inputs), path),
{
    lemma_walk_invariant(root, policy, inputs);
}

} // verus!
