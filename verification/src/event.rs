//! The numbers by which the kernel names tracing events, signals and tracing
//! options.

use vstd::pervasive::unreached;
use vstd::prelude::*;

verus! {

/// The number of the signal that stops a process.
pub const SIGSTOP: i32 = 19;

/// Kill the traced processes when the tracer dies.
pub const OPTION_EXITKILL: i32 = 0x10_0000;

/// Mark stops at system calls, to tell them from stops at signals.
pub const OPTION_TRACESYSGOOD: i32 = 0x1;

/// Trace the children that `fork` makes.
pub const OPTION_TRACEFORK: i32 = 0x2;

/// Trace the children that `vfork` makes.
pub const OPTION_TRACEVFORK: i32 = 0x4;

/// Trace the children that `clone` makes.
pub const OPTION_TRACECLONE: i32 = 0x8;

/// Stop the process when it calls `execve`.
pub const OPTION_TRACEEXEC: i32 = 0x10;

/// The options that the supervisor traces with: all of the above.
pub const TRACE_OPTIONS: i32 = OPTION_EXITKILL | OPTION_TRACESYSGOOD | OPTION_TRACEFORK
    | OPTION_TRACEVFORK | OPTION_TRACECLONE | OPTION_TRACEEXEC;

/// An event in a traced process that stops it.
#[derive(Debug, Clone, Copy, PartialEq, Eq, Structural)]
pub enum TraceEvent {
    Fork,
    Vfork,
    Clone,
    Exec,
    VforkDone,
    Exit,
    Seccomp,
    Stop,
}

/// The event that the kernel names by `event`, if it names one.
pub open spec fn event_of(event: i32) -> Option<TraceEvent> {
    if event == 1 {
        Some(TraceEvent::Fork)
    } else if event == 2 {
        Some(TraceEvent::Vfork)
    } else if event == 3 {
        Some(TraceEvent::Clone)
    } else if event == 4 {
        Some(TraceEvent::Exec)
    } else if event == 5 {
        Some(TraceEvent::VforkDone)
    } else if event == 6 {
        Some(TraceEvent::Exit)
    } else if event == 7 {
        Some(TraceEvent::Seccomp)
    } else if event == 128 {
        Some(TraceEvent::Stop)
    } else {
        None
    }
}

/// Whether `event` is one of the numbers by which the kernel names an event.
pub fn names_event(event: i32) -> (b: bool)
    ensures
        b == (event_of(event) is Some),
{
    (1 <= event && event <= 7) || event == 128
}

/// The event that the kernel names by `event`, which must name one:
/// [`names_event`] tells whether it does.
pub fn event_from_int(event: i32) -> (r: TraceEvent)
    requires
        event_of(event) is Some,
    ensures
        event_of(event) == Some(r),
{
    match event {
        1 => TraceEvent::Fork,
        2 => TraceEvent::Vfork,
        3 => TraceEvent::Clone,
        4 => TraceEvent::Exec,
        5 => TraceEvent::VforkDone,
        6 => TraceEvent::Exit,
        7 => TraceEvent::Seccomp,
        128 => TraceEvent::Stop,
        _ => unreached(),
    }
}

/// A new process is made by this event: it is `Fork`, `Vfork` or `Clone`.
pub open spec fn makes_process(event: TraceEvent) -> bool {
    event == TraceEvent::Fork || event == TraceEvent::Vfork || event == TraceEvent::Clone
}

} // verus!
