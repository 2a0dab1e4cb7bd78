//! The decisions of the supervisor. The supervisor itself does no tracing:
//! it is told what happened (an [`Input`]) and answers with what is to be
//! done next (an [`Action`]); the caller does it and comes back with the
//! outcome.

use crate::config::{verdict, Check, Config, EntryView};
use crate::event::{
    event_from_int, event_of, makes_process, names_event, TraceEvent, SIGSTOP, TRACE_OPTIONS,
};
use crate::map::{lookup_path, parse_map, MemoryMap};
use crate::protocol::{
    Action, ActionView, ChildExit, ChildExitView, Fault, FaultView, FrameRecord, Input, InputView,
    Registers, WaitEvent,
};
use crate::region::{MapErrorView, MemoryMapError, RegionView};
use crate::syscall::{changes_layout, invalidates_map, low_word, syscall_in, syscall_number};
use std::collections::{BTreeMap, BTreeSet};
use vstd::prelude::*;

verus! {

/// What the supervisor is waiting to be told.
#[derive(Debug, Clone, Copy, PartialEq, Eq, Structural)]
pub enum Phase {
    /// The text of the map of the root process, at the start.
    Attaching,
    /// What waiting reports.
    Waiting,
    /// The text of the map of `pid`, which stopped at a system call and has
    /// no map yet.
    Mapping { pid: i32 },
    /// The registers of `pid`, which stopped at a system call.
    Examining { pid: i32 },
    /// The text of the map of `pid`, which makes a system call that can
    /// change the layout of its address space.
    Remapping { pid: i32, syscall: u32, registers: Registers },
    /// A frame record of `pid`, which makes `syscall`.
    Walking { pid: i32, syscall: u32 },
    /// The identifier of the process that `pid` has made.
    Adopting { pid: i32 },
    /// Nothing: the run is over.
    Finished,
}

/// The policy, as contracts speak of it.
pub type Policy = Map<Seq<char>, EntryView>;

/// The state of the supervisor, as contracts speak of it.
pub struct State {
    /// The root process.
    pub root: i32,
    /// The map of each process that has one.
    pub maps: Map<i32, Seq<RegionView>>,
    /// The processes whose next stop at `SIGSTOP` is not passed on.
    pub ignored: Set<i32>,
    /// The exit code of the root process, once it has reported one.
    pub child_exit: Option<i32>,
    /// What the supervisor is waiting to be told.
    pub phase: Phase,
}

/// What one probe of an address says.
pub enum ProbeView {
    /// The policy allows the system call: the process may go on.
    Permit,
    /// The policy blocks the system call for the object at this path.
    Block(Seq<char>),
    /// Nothing: no object of the map holds the address, or the policy says
    /// nothing of the system call for the object that does.
    Pass,
}

/// What the probe of `addr` says of `syscall`: the verdict of the policy on
/// the object that holds `addr` in `map`.
pub open spec fn probe_of(
    policy: Policy,
    map: Seq<RegionView>,
    syscall: u32,
    addr: u64,
) -> ProbeView {
    match lookup_path(map, addr) {
        None => ProbeView::Pass,
        Some(path) => match verdict(policy, path, syscall) {
            Check::Allowed => ProbeView::Permit,
            Check::Blocked => ProbeView::Block(path),
            Check::Unknown => ProbeView::Pass,
        },
    }
}

/// A state and the action that the supervisor answers with on reaching it.
pub type Outcome = (State, ActionView);

/// The state in which a run starts.
pub open spec fn initial(root: i32) -> State {
    State {
        root,
        maps: Map::empty(),
        ignored: Set::empty(),
        child_exit: None,
        phase: Phase::Attaching,
    }
}

/// The action with which a run starts.
pub open spec fn first_action(root: i32) -> ActionView {
    ActionView::Attach { pid: root, options: TRACE_OPTIONS }
}

/// The run ends for the reason `fault`.
pub open spec fn abort(pre: State, fault: FaultView) -> Outcome {
    (State { phase: Phase::Finished, ..pre }, ActionView::Abort(fault))
}

/// The process `pid` may go on, with no signal delivered to it.
pub open spec fn resume(pre: State, pid: i32) -> Outcome {
    (State { phase: Phase::Waiting, ..pre }, ActionView::Resume { pid, signal: None })
}

/// The process `pid` is killed for `syscall`, made from the object at `path`.
pub open spec fn kill(pre: State, pid: i32, syscall: u32, path: Seq<char>) -> Outcome {
    (
        State { phase: Phase::Finished, ..pre },
        ActionView::Kill { pid, exit: ChildExitView::IllegalSyscall(syscall, path) },
    )
}

/// The walk goes on to the frame record at `fp`: a frame pointer of 0 ends
/// the walk, and the process may go on; else the record is to be read.
pub open spec fn follow(pre: State, pid: i32, syscall: u32, fp: u64) -> Outcome {
    if fp == 0 {
        resume(pre, pid)
    } else if fp > u64::MAX - 8 {
        abort(pre, FaultView::FrameOutOfRange(fp))
    } else {
        (State { phase: Phase::Walking { pid, syscall }, ..pre }, ActionView::ReadFrame { pid, fp })
    }
}

/// What a probe leads to: the process goes on, or is killed, or the walk
/// goes on to the frame record at `fp`.
pub open spec fn after_probe(
    pre: State,
    pid: i32,
    syscall: u32,
    probe: ProbeView,
    fp: u64,
) -> Outcome {
    match probe {
        ProbeView::Permit => resume(pre, pid),
        ProbeView::Block(path) => kill(pre, pid, syscall, path),
        ProbeView::Pass => follow(pre, pid, syscall, fp),
    }
}

/// The walk begins: the address of the instruction is probed, then the
/// return address in the link register, then the walk goes on to the frame
/// record that the frame pointer points to.
pub open spec fn begin_walk(
    pre: State,
    policy: Policy,
    pid: i32,
    syscall: u32,
    registers: Registers,
) -> Outcome {
    if !pre.maps.contains_key(pid) {
        abort(pre, FaultView::OutOfTurn)
    } else {
        match probe_of(policy, pre.maps[pid], syscall, registers.pc) {
            ProbeView::Permit => resume(pre, pid),
            ProbeView::Block(path) => kill(pre, pid, syscall, path),
            ProbeView::Pass => after_probe(
                pre,
                pid,
                syscall,
                probe_of(policy, pre.maps[pid], syscall, registers.x30),
                registers.x29,
            ),
        }
    }
}

/// A frame record was read: its return address is probed, then the walk
/// goes on to the record of the caller.
pub open spec fn on_frame(
    pre: State,
    policy: Policy,
    pid: i32,
    syscall: u32,
    frame: FrameRecord,
) -> Outcome {
    if !pre.maps.contains_key(pid) {
        abort(pre, FaultView::OutOfTurn)
    } else {
        after_probe(
            pre,
            pid,
            syscall,
            probe_of(policy, pre.maps[pid], syscall, frame.saved_lr),
            frame.next_fp,
        )
    }
}

/// The registers of `pid` were read, and `syscall` is the system call that
/// the table knows for them, if it knows one. An unknown call ends the run.
/// For a call that can change the layout of the address space the map is
/// read anew; for any other the walk begins.
pub open spec fn on_registers(
    pre: State,
    policy: Policy,
    pid: i32,
    registers: Registers,
    syscall: Option<u32>,
) -> Outcome {
    match syscall {
        None => abort(pre, FaultView::UnknownSyscall(low_word(registers.x8))),
        Some(number) => if changes_layout(number) {
            (
                State { phase: Phase::Remapping { pid, syscall: number, registers }, ..pre },
                ActionView::ReadMaps { pid },
            )
        } else {
            begin_walk(pre, policy, pid, number, registers)
        },
    }
}

/// The text of the map of the root process was read, at the start: the
/// root process is let go.
pub open spec fn on_attached(pre: State, text: Seq<char>) -> Outcome {
    match parse_map(text) {
        Err(error) => abort(pre, FaultView::BadMap(error)),
        Ok(regions) => resume(State { maps: pre.maps.insert(pre.root, regions), ..pre }, pre.root),
    }
}

/// The text of the first map of `pid` was read: its registers are next.
pub open spec fn on_mapped(pre: State, pid: i32, text: Seq<char>) -> Outcome {
    match parse_map(text) {
        Err(error) => abort(pre, FaultView::BadMap(error)),
        Ok(regions) => (
            State { maps: pre.maps.insert(pid, regions), phase: Phase::Examining { pid }, ..pre },
            ActionView::ReadRegisters { pid },
        ),
    }
}

/// The text of the map of `pid` was read anew: the walk begins on it.
pub open spec fn on_remapped(
    pre: State,
    policy: Policy,
    pid: i32,
    syscall: u32,
    registers: Registers,
    text: Seq<char>,
) -> Outcome {
    match parse_map(text) {
        Err(error) => abort(pre, FaultView::BadMap(error)),
        Ok(regions) => begin_walk(
            State { maps: pre.maps.insert(pid, regions), ..pre },
            policy,
            pid,
            syscall,
            registers,
        ),
    }
}

/// The process `pid` stopped at a signal. The first `SIGSTOP` of a process
/// that is marked is not passed on, and the mark is taken off; any other
/// signal is delivered when the process goes on.
pub open spec fn on_signal(pre: State, pid: i32, signal: i32) -> Outcome {
    if signal == SIGSTOP && pre.ignored.contains(pid) {
        resume(State { ignored: pre.ignored.remove(pid), ..pre }, pid)
    } else {
        (pre, ActionView::Resume { pid, signal: Some(signal) })
    }
}

/// The process `pid` stopped at the tracing event of the number `event`.
pub open spec fn on_trace_stop(pre: State, pid: i32, event: i32) -> Outcome {
    match event_of(event) {
        None => abort(pre, FaultView::UnknownEvent(event)),
        Some(named) => if named == TraceEvent::Exec {
            resume(pre, pid)
        } else if makes_process(named) {
            (State { phase: Phase::Adopting { pid }, ..pre }, ActionView::ReadEventMessage { pid })
        } else {
            abort(pre, FaultView::UnexpectedStatus)
        },
    }
}

/// Waiting reported `event`.
pub open spec fn on_wait(pre: State, event: WaitEvent) -> Outcome {
    match event {
        WaitEvent::NoChildren => match pre.child_exit {
            Some(code) => (
                State { phase: Phase::Finished, ..pre },
                ActionView::Return(ChildExitView::Exited(code)),
            ),
            None => abort(pre, FaultView::NoExitStatus),
        },
        WaitEvent::Exited { pid, code } => if pid == pre.root {
            (State { child_exit: Some(code), ..pre }, ActionView::Wait)
        } else {
            (pre, ActionView::Wait)
        },
        WaitEvent::SyscallStop { pid } => if pre.maps.contains_key(pid) {
            (State { phase: Phase::Examining { pid }, ..pre }, ActionView::ReadRegisters { pid })
        } else {
            (State { phase: Phase::Mapping { pid }, ..pre }, ActionView::ReadMaps { pid })
        },
        WaitEvent::SignalStop { pid, signal } => on_signal(pre, pid, signal),
        WaitEvent::TraceStop { pid, event } => on_trace_stop(pre, pid, event),
        WaitEvent::Other => abort(pre, FaultView::UnexpectedStatus),
    }
}

/// The identifier of the process that `pid` has made was read: the new
/// process is marked as one whose next stop at `SIGSTOP` is not passed on,
/// and `pid` is let go.
pub open spec fn on_event_message(pre: State, pid: i32, message: i64) -> Outcome {
    if message < i32::MIN || message > i32::MAX {
        abort(pre, FaultView::ChildOutOfRange(message))
    } else if pre.ignored.contains(message as i32) {
        abort(pre, FaultView::AlreadyIgnored(message as i32))
    } else {
        resume(State { ignored: pre.ignored.insert(message as i32), ..pre }, pid)
    }
}

/// What the supervisor does in the state `pre` when it is told `input`: the
/// state it goes to and the action it answers with. An input that the
/// supervisor is not waiting for ends the run.
pub open spec fn step_spec(pre: State, policy: Policy, input: InputView) -> Outcome {
    match (pre.phase, input) {
        (Phase::Attaching, InputView::Maps(text)) => on_attached(pre, text),
        (Phase::Waiting, InputView::Wait(event)) => on_wait(pre, event),
        (Phase::Mapping { pid }, InputView::Maps(text)) => on_mapped(pre, pid, text),
        (Phase::Examining { pid }, InputView::Registers(registers)) => on_registers(
            pre,
            policy,
            pid,
            registers,
            syscall_in(registers.x8),
        ),
        (Phase::Remapping { pid, syscall, registers }, InputView::Maps(text)) => on_remapped(
            pre,
            policy,
            pid,
            syscall,
            registers,
            text,
        ),
        (Phase::Walking { pid, syscall }, InputView::Frame(frame)) => on_frame(
            pre,
            policy,
            pid,
            syscall,
            frame,
        ),
        (Phase::Adopting { pid }, InputView::EventMessage(message)) => on_event_message(
            pre,
            pid,
            message,
        ),
        _ => abort(pre, FaultView::OutOfTurn),
    }
}

/// A frame pointer of 0 ends the walk: the process goes on, and nothing is
/// read.
pub proof fn lemma_null_frame_pointer(pre: State, pid: i32, syscall: u32)
    ensures
        follow(pre, pid, syscall, 0) == resume(pre, pid),
{
}

/// The supervisor asks for a frame record only at a frame pointer that is
/// not 0 and whose record ends within the address space.
pub proof fn lemma_frames_read(pre: State, policy: Policy, input: InputView)
    ensures
        step_spec(pre, policy, input).1 matches ActionView::ReadFrame { fp, .. } ==> 0 < fp
            <= u64::MAX - 8,
{
}

/// What one probe of an address found.
#[derive(Debug, Clone, PartialEq, Eq)]
pub enum Probe {
    /// The policy allows the system call: the process may go on.
    Permit,
    /// The policy blocks the system call for the object at this path.
    Block(String),
    /// Nothing: no object of the map holds the address, or the policy says
    /// nothing of the system call for the object that does.
    Pass,
}

impl View for Probe {
    type V = ProbeView;

    open spec fn view(&self) -> ProbeView {
        match self {
            Probe::Permit => ProbeView::Permit,
            Probe::Block(path) => ProbeView::Block(path@),
            Probe::Pass => ProbeView::Pass,
        }
    }
}

/// Probes `addr`: looks up the object that holds it in `map` and asks the
/// policy for its verdict on `syscall`.
pub fn probe(config: &Config, map: &MemoryMap, syscall: u32, addr: u64) -> (r: Probe)
    ensures
        r@ == probe_of(config@, map@, syscall, addr),
{
    match map.lookup(addr) {
        None => Probe::Pass,
        Some(path) => match config.check(path, syscall) {
            Check::Allowed => Probe::Permit,
            Check::Blocked => Probe::Block(path.to_owned()),
            Check::Unknown => Probe::Pass,
        },
    }
}

/// The maps of the processes, as contracts speak of them.
pub open spec fn maps_of(children: Map<i32, MemoryMap>) -> Map<i32, Seq<RegionView>> {
    children.map_values(|map: MemoryMap| map@)
}

/// The supervisor of one run.
#[derive(Debug)]
pub struct Supervisor {
    root: i32,
    children: BTreeMap<i32, MemoryMap>,
    ignore_next_stop: BTreeSet<i32>,
    child_exit: Option<i32>,
    phase: Phase,
}

impl View for Supervisor {
    type V = State;

    closed spec fn view(&self) -> State {
        State {
            root: self.root,
            maps: maps_of(self.children@),
            ignored: self.ignore_next_stop@,
            child_exit: self.child_exit,
            phase: self.phase,
        }
    }
}

impl Supervisor {
    /// Starts the run on the process `root`, with the action to begin with.
    pub fn start(root: i32) -> (r: (Supervisor, Action))
        ensures
            r.0@ == initial(root),
            r.1@ == first_action(root),
    {
        let supervisor = Supervisor {
            root,
            children: BTreeMap::new(),
            ignore_next_stop: BTreeSet::new(),
            child_exit: None,
            phase: Phase::Attaching,
        };
        assert(maps_of(supervisor.children@) == Map::<i32, Seq<RegionView>>::empty());
        (supervisor, Action::Attach { pid: root, options: TRACE_OPTIONS })
    }

    /// What the supervisor is waiting to be told.
    pub fn phase(&self) -> (r: Phase)
        ensures
            r == self@.phase,
    {
        self.phase
    }

    fn abort(&mut self, fault: Fault) -> (action: Action)
        ensures
            (final(self)@, action@) == abort(old(self)@, fault@),
    {
        self.phase = Phase::Finished;
        Action::Abort(fault)
    }

    fn resume(&mut self, pid: i32) -> (action: Action)
        ensures
            (final(self)@, action@) == resume(old(self)@, pid),
    {
        self.phase = Phase::Waiting;
        Action::Resume { pid, signal: None }
    }

    fn after_probe(&mut self, pid: i32, syscall: u32, found: Probe, fp: u64) -> (action: Action)
        ensures
            (final(self)@, action@) == after_probe(old(self)@, pid, syscall, found@, fp),
    {
        match found {
            Probe::Permit => self.resume(pid),
            Probe::Block(path) => {
                self.phase = Phase::Finished;
                Action::Kill { pid, exit: ChildExit::IllegalSyscall(syscall, path) }
            },
            Probe::Pass => {
                if fp == 0 {
                    self.resume(pid)
                } else if fp > u64::MAX - 8 {
                    self.abort(Fault::FrameOutOfRange(fp))
                } else {
                    self.phase = Phase::Walking { pid, syscall };
                    Action::ReadFrame { pid, fp }
                }
            },
        }
    }

    fn begin_walk(
        &mut self,
        config: &Config,
        pid: i32,
        syscall: u32,
        registers: Registers,
    ) -> (action: Action)
        ensures
            (final(self)@, action@) == begin_walk(old(self)@, config@, pid, syscall, registers),
    {
        let found = match self.children.get(&pid) {
            None => {
                return self.abort(Fault::OutOfTurn);
            },
            Some(map) => {
                match probe(config, map, syscall, registers.pc) {
                    Probe::Pass => probe(config, map, syscall, registers.x30),
                    decided => {
                        return self.after_probe(pid, syscall, decided, 0);
                    },
                }
            },
        };
        self.after_probe(pid, syscall, found, registers.x29)
    }

    fn on_frame(
        &mut self,
        config: &Config,
        pid: i32,
        syscall: u32,
        frame: FrameRecord,
    ) -> (action: Action)
        ensures
            (final(self)@, action@) == on_frame(old(self)@, config@, pid, syscall, frame),
    {
        let found = match self.children.get(&pid) {
            None => {
                return self.abort(Fault::OutOfTurn);
            },
            Some(map) => probe(config, map, syscall, frame.saved_lr),
        };
        self.after_probe(pid, syscall, found, frame.next_fp)
    }

    /// The registers of `pid` were read, and `syscall` is the system call
    /// that the table knows for them, if it knows one; [`Supervisor::step`]
    /// comes here with what [`syscall_number`] found. An unknown call ends
    /// the run. For a call that can change the layout of the address space
    /// the map is to be read anew; for any other the walk begins: the address
    /// of the instruction is probed, then the link register, then the frame
    /// record is asked for, unless a probe has decided or the frame pointer
    /// is 0.
    pub fn on_registers(
        &mut self,
        config: &Config,
        pid: i32,
        registers: Registers,
        syscall: Option<u32>,
    ) -> (action: Action)
        ensures
            (final(self)@, action@) == on_registers(old(self)@, config@, pid, registers, syscall),
    {
        match syscall {
            None => {
                let number: u32 = (registers.x8 % 0x1_0000_0000) as u32;
                self.abort(Fault::UnknownSyscall(number))
            },
            Some(number) => {
                if invalidates_map(number) {
                    self.phase = Phase::Remapping { pid, syscall: number, registers };
                    Action::ReadMaps { pid }
                } else {
                    self.begin_walk(config, pid, number, registers)
                }
            },
        }
    }

    /// Reads `text` as the map of `pid` and keeps it, in place of the map
    /// that `pid` had, if any.
    fn keep_map(&mut self, pid: i32, text: &str) -> (r: Result<(), MemoryMapError>)
        ensures
            match r {
                Ok(_) => parse_map(text@) is Ok && final(self)@ == (State {
                    maps: old(self)@.maps.insert(pid, parse_map(text@)->Ok_0),
                    ..old(self)@
                }),
                Err(error) => parse_map(text@) == Err::<Seq<RegionView>, MapErrorView>(error@)
                    && final(self)@ == old(self)@,
            },
    {
        match MemoryMap::from_str(text) {
            Err(error) => Err(error),
            Ok(map) => {
                let ghost before = self.children@;
                self.children.insert(pid, map);
                assert(maps_of(before.insert(pid, map)) == maps_of(before).insert(pid, map@));
                Ok(())
            },
        }
    }

    fn on_attached(&mut self, text: &str) -> (action: Action)
        ensures
            (final(self)@, action@) == on_attached(old(self)@, text@),
    {
        let root = self.root;
        match self.keep_map(root, text) {
            Err(error) => self.abort(Fault::BadMap(error)),
            Ok(_) => self.resume(root),
        }
    }

    fn on_mapped(&mut self, pid: i32, text: &str) -> (action: Action)
        ensures
            (final(self)@, action@) == on_mapped(old(self)@, pid, text@),
    {
        match self.keep_map(pid, text) {
            Err(error) => self.abort(Fault::BadMap(error)),
            Ok(_) => {
                self.phase = Phase::Examining { pid };
                Action::ReadRegisters { pid }
            },
        }
    }

    fn on_remapped(
        &mut self,
        config: &Config,
        pid: i32,
        syscall: u32,
        registers: Registers,
        text: &str,
    ) -> (action: Action)
        ensures
            (final(self)@, action@) == on_remapped(
                old(self)@,
                config@,
                pid,
                syscall,
                registers,
                text@,
            ),
    {
        match self.keep_map(pid, text) {
            Err(error) => self.abort(Fault::BadMap(error)),
            Ok(_) => self.begin_walk(config, pid, syscall, registers),
        }
    }

    fn on_signal(&mut self, pid: i32, signal: i32) -> (action: Action)
        ensures
            (final(self)@, action@) == on_signal(old(self)@, pid, signal),
    {
        if signal == SIGSTOP && self.ignore_next_stop.contains(&pid) {
            self.ignore_next_stop.remove(&pid);
            self.resume(pid)
        } else {
            Action::Resume { pid, signal: Some(signal) }
        }
    }

    fn on_trace_stop(&mut self, pid: i32, event: i32) -> (action: Action)
        ensures
            (final(self)@, action@) == on_trace_stop(old(self)@, pid, event),
    {
        if !names_event(event) {
            return self.abort(Fault::UnknownEvent(event));
        }
        match event_from_int(event) {
            TraceEvent::Exec => self.resume(pid),
            TraceEvent::Fork | TraceEvent::Vfork | TraceEvent::Clone => {
                self.phase = Phase::Adopting { pid };
                Action::ReadEventMessage { pid }
            },
            _ => self.abort(Fault::UnexpectedStatus),
        }
    }

    fn on_wait(&mut self, event: WaitEvent) -> (action: Action)
        ensures
            (final(self)@, action@) == on_wait(old(self)@, event),
    {
        match event {
            WaitEvent::NoChildren => match self.child_exit {
                Some(code) => {
                    self.phase = Phase::Finished;
                    Action::Return(ChildExit::Exited(code))
                },
                None => self.abort(Fault::NoExitStatus),
            },
            WaitEvent::Exited { pid, code } => {
                if pid == self.root {
                    self.child_exit = Some(code);
                }
                Action::Wait
            },
            WaitEvent::SyscallStop { pid } => {
                if self.children.contains_key(&pid) {
                    self.phase = Phase::Examining { pid };
                    Action::ReadRegisters { pid }
                } else {
                    self.phase = Phase::Mapping { pid };
                    Action::ReadMaps { pid }
                }
            },
            WaitEvent::SignalStop { pid, signal } => self.on_signal(pid, signal),
            WaitEvent::TraceStop { pid, event } => self.on_trace_stop(pid, event),
            WaitEvent::Other => self.abort(Fault::UnexpectedStatus),
        }
    }

    fn on_event_message(&mut self, pid: i32, message: i64) -> (action: Action)
        ensures
            (final(self)@, action@) == on_event_message(old(self)@, pid, message),
    {
        if message < -0x8000_0000 || message > 0x7fff_ffff {
            return self.abort(Fault::ChildOutOfRange(message));
        }
        let child: i32 = message as i32;
        if self.ignore_next_stop.contains(&child) {
            self.abort(Fault::AlreadyIgnored(child))
        } else {
            self.ignore_next_stop.insert(child);
            self.resume(pid)
        }
    }

    /// Tells the supervisor the outcome of the last action; it answers with
    /// the next one. What it does is what [`step_spec`] says, for every state
    /// and every input: an input that it is not waiting for ends the run. It
    /// never asks for the frame record at 0: a frame pointer of 0 ends the
    /// walk without a read.
    pub fn step(&mut self, config: &Config, input: Input) -> (action: Action)
        ensures
            (final(self)@, action@) == step_spec(old(self)@, config@, input@),
            action matches Action::ReadFrame { fp, .. } ==> 0 < fp <= u64::MAX - 8,
    {
        proof {
            lemma_frames_read(old(self)@, config@, input@);
        }
        match (self.phase, input) {
            (Phase::Attaching, Input::Maps(text)) => self.on_attached(text.as_str()),
            (Phase::Waiting, Input::Wait(event)) => self.on_wait(event),
            (Phase::Mapping { pid }, Input::Maps(text)) => self.on_mapped(pid, text.as_str()),
            (Phase::Examining { pid }, Input::Registers(registers)) => {
                let syscall = syscall_number(registers.x8);
                self.on_registers(config, pid, registers, syscall)
            },
            (Phase::Remapping { pid, syscall, registers }, Input::Maps(text)) => {
                self.on_remapped(config, pid, syscall, registers, text.as_str())
            },
            (Phase::Walking { pid, syscall }, Input::Frame(frame)) => {
                self.on_frame(config, pid, syscall, frame)
            },
            (Phase::Adopting { pid }, Input::EventMessage(message)) => {
                self.on_event_message(pid, message)
            },
            _ => self.abort(Fault::OutOfTurn),
        }
    }
}

} // verus!
