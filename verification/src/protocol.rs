//! What passes between the supervisor and its caller: the inputs that the
//! caller hands in, and the actions that the supervisor answers with.

use crate::region::{MapErrorView, MemoryMapError};
use vstd::prelude::*;

verus! {

/// The registers of a stopped process that the supervisor reads.
#[derive(Debug, Clone, Copy, PartialEq, Eq, Structural)]
pub struct Registers {
    /// The number of the system call.
    pub x8: u64,
    /// The frame pointer: the address of the current frame record.
    pub x29: u64,
    /// The link register: the return address of the current function.
    pub x30: u64,
    /// The address of the instruction that makes the system call.
    pub pc: u64,
}

/// A frame record: the two words that a frame pointer points to.
#[derive(Debug, Clone, Copy, PartialEq, Eq, Structural)]
pub struct FrameRecord {
    /// The word at the frame pointer: the frame pointer of the caller.
    pub next_fp: u64,
    /// The word eight bytes on: the return address into the caller.
    pub saved_lr: u64,
}

/// How a supervised run ended.
#[derive(Debug, Clone, PartialEq, Eq)]
pub enum ChildExit {
    /// The root process exited with this code.
    Exited(i32),
    /// A process made this system call from the object at this path, and the
    /// policy blocks it.
    IllegalSyscall(u32, String),
}

/// The mathematical content of a [`ChildExit`].
pub enum ChildExitView {
    Exited(i32),
    IllegalSyscall(u32, Seq<char>),
}

impl View for ChildExit {
    type V = ChildExitView;

    open spec fn view(&self) -> ChildExitView {
        match self {
            ChildExit::Exited(code) => ChildExitView::Exited(*code),
            ChildExit::IllegalSyscall(syscall, path) => ChildExitView::IllegalSyscall(
                *syscall,
                path@,
            ),
        }
    }
}

/// What the kernel reported of a traced process when the supervisor waited
/// for any of them.
#[derive(Debug, Clone, Copy, PartialEq, Eq, Structural)]
pub enum WaitEvent {
    /// No process is left to wait for.
    NoChildren,
    /// The process exited with this code.
    Exited { pid: i32, code: i32 },
    /// The process stopped at the entry to a system call or at its exit.
    SyscallStop { pid: i32 },
    /// The process stopped because this signal was sent to it.
    SignalStop { pid: i32, signal: i32 },
    /// The process stopped at the tracing event of this number.
    TraceStop { pid: i32, event: i32 },
    /// Anything else.
    Other,
}

/// What the caller tells the supervisor: the outcome of the last action.
#[derive(Debug, Clone, PartialEq, Eq)]
pub enum Input {
    /// What waiting reported.
    Wait(WaitEvent),
    /// The text of the map of the process.
    Maps(String),
    /// The registers of the process.
    Registers(Registers),
    /// The frame record that was read.
    Frame(FrameRecord),
    /// The message of the event: the identifier of the new process.
    EventMessage(i64),
}

/// The mathematical content of an [`Input`].
pub enum InputView {
    Wait(WaitEvent),
    Maps(Seq<char>),
    Registers(Registers),
    Frame(FrameRecord),
    EventMessage(i64),
}

impl View for Input {
    type V = InputView;

    open spec fn view(&self) -> InputView {
        match self {
            Input::Wait(event) => InputView::Wait(*event),
            Input::Maps(text) => InputView::Maps(text@),
            Input::Registers(registers) => InputView::Registers(*registers),
            Input::Frame(frame) => InputView::Frame(*frame),
            Input::EventMessage(message) => InputView::EventMessage(*message),
        }
    }
}

/// Why the supervisor gives up.
#[derive(Debug, PartialEq, Eq)]
pub enum Fault {
    /// The text of a map cannot be read.
    BadMap(MemoryMapError),
    /// The process makes a system call that the table does not know.
    UnknownSyscall(u32),
    /// The frame pointer is so high that its record would end beyond the
    /// address space.
    FrameOutOfRange(u64),
    /// No process is left, and the root process never reported its exit code.
    NoExitStatus,
    /// Waiting reported something that the supervisor has no answer to.
    UnexpectedStatus,
    /// The process stopped at an event whose number names no event.
    UnknownEvent(i32),
    /// The identifier of a new process is no process identifier.
    ChildOutOfRange(i64),
    /// The new process is already marked as one whose next stop is ignored.
    AlreadyIgnored(i32),
    /// The input does not answer the last action, or names a process that
    /// has no map, or the run is over.
    OutOfTurn,
}

/// The mathematical content of a [`Fault`].
pub enum FaultView {
    BadMap(MapErrorView),
    UnknownSyscall(u32),
    FrameOutOfRange(u64),
    NoExitStatus,
    UnexpectedStatus,
    UnknownEvent(i32),
    ChildOutOfRange(i64),
    AlreadyIgnored(i32),
    OutOfTurn,
}

impl View for Fault {
    type V = FaultView;

    open spec fn view(&self) -> FaultView {
        match self {
            Fault::BadMap(error) => FaultView::BadMap(error@),
            Fault::UnknownSyscall(number) => FaultView::UnknownSyscall(*number),
            Fault::FrameOutOfRange(fp) => FaultView::FrameOutOfRange(*fp),
            Fault::NoExitStatus => FaultView::NoExitStatus,
            Fault::UnexpectedStatus => FaultView::UnexpectedStatus,
            Fault::UnknownEvent(event) => FaultView::UnknownEvent(*event),
            Fault::ChildOutOfRange(message) => FaultView::ChildOutOfRange(*message),
            Fault::AlreadyIgnored(pid) => FaultView::AlreadyIgnored(*pid),
            Fault::OutOfTurn => FaultView::OutOfTurn,
        }
    }
}

/// What the caller is to do next. Each action but the last three is answered
/// with one input.
#[derive(Debug, PartialEq, Eq)]
pub enum Action {
    /// Wait until `pid` stops for the first time, set `options` on it and read
    /// the text of its map. Answer with `Input::Maps`.
    Attach { pid: i32, options: i32 },
    /// Wait for any traced process. Answer with `Input::Wait`.
    Wait,
    /// Let `pid` run on to its next system call, with `signal` delivered to
    /// it if there is one, then wait for any traced process. Answer with
    /// `Input::Wait`.
    Resume { pid: i32, signal: Option<i32> },
    /// Read the text of the map of `pid`. Answer with `Input::Maps`.
    ReadMaps { pid: i32 },
    /// Read the registers of `pid`. Answer with `Input::Registers`.
    ReadRegisters { pid: i32 },
    /// Read the frame record at `fp` in the memory of `pid`: the word at `fp`
    /// and the word at `fp + 8`, which does not overflow. Answer with
    /// `Input::Frame`.
    ReadFrame { pid: i32, fp: u64 },
    /// Ask for the message of the event that stopped `pid`. Answer with
    /// `Input::EventMessage`.
    ReadEventMessage { pid: i32 },
    /// Kill `pid`; the run is over and ends with `exit`.
    Kill { pid: i32, exit: ChildExit },
    /// The run is over and ends with this.
    Return(ChildExit),
    /// The run is over, for this reason, and has no result.
    Abort(Fault),
}

/// The mathematical content of an [`Action`].
pub enum ActionView {
    Attach { pid: i32, options: i32 },
    Wait,
    Resume { pid: i32, signal: Option<i32> },
    ReadMaps { pid: i32 },
    ReadRegisters { pid: i32 },
    ReadFrame { pid: i32, fp: u64 },
    ReadEventMessage { pid: i32 },
    Kill { pid: i32, exit: ChildExitView },
    Return(ChildExitView),
    Abort(FaultView),
}

impl View for Action {
    type V = ActionView;

    open spec fn view(&self) -> ActionView {
        match self {
            Action::Attach { pid, options } => ActionView::Attach { pid: *pid, options: *options },
            Action::Wait => ActionView::Wait,
            Action::Resume { pid, signal } => ActionView::Resume { pid: *pid, signal: *signal },
            Action::ReadMaps { pid } => ActionView::ReadMaps { pid: *pid },
            Action::ReadRegisters { pid } => ActionView::ReadRegisters { pid: *pid },
            Action::ReadFrame { pid, fp } => ActionView::ReadFrame { pid: *pid, fp: *fp },
            Action::ReadEventMessage { pid } => ActionView::ReadEventMessage { pid: *pid },
            Action::Kill { pid, exit } => ActionView::Kill { pid: *pid, exit: exit@ },
            Action::Return(exit) => ActionView::Return(exit@),
            Action::Abort(fault) => ActionView::Abort(fault@),
        }
    }
}

} // verus!
