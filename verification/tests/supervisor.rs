use crabtrap::event::{SIGSTOP, TRACE_OPTIONS};
use crabtrap::protocol::{FrameRecord, Registers, WaitEvent};
use crabtrap::supervisor::{probe, Phase, Probe};
use crabtrap::{
    Action, ChildExit, Config, ConfigEntry, Fault, Input, MemoryMap, MemoryMapError, Supervisor,
};
use std::collections::BTreeSet;

const ROOT: i32 = 100;
const WRITE: u32 = 64;
const MMAP: u32 = 222;
const WRAPPER: &str = "/usr/local/lib/libprintf_wrapper.so";
const LIBC: &str = "/usr/lib/aarch64-linux-gnu/libc.so.6";

const IN_BINARY: u64 = 0xaaaac0000800;
const IN_LIBC: u64 = 0xffff90000400;
const IN_WRAPPER: u64 = 0xffff90200010;
const IN_STACK: u64 = 0xfffff0001000;

const MAPS: &str = "\
aaaac0000000-aaaac0001000 r-xp 00000000 fe:01 1                          /usr/local/bin/dynamic
ffff90000000-ffff90100000 r-xp 00000000 fe:01 2                          /usr/lib/aarch64-linux-gnu/libc.so.6
ffff90200000-ffff90201000 r-xp 00000000 fe:01 3                          /usr/local/lib/libprintf_wrapper.so
fffff0000000-fffff0021000 rw-p 00000000 00:00 0                          [stack]
";

const MAPS_WITHOUT_WRAPPER: &str = "\
aaaac0000000-aaaac0001000 r-xp 00000000 fe:01 1                          /usr/local/bin/dynamic
ffff90000000-ffff90100000 r-xp 00000000 fe:01 2                          /usr/lib/aarch64-linux-gnu/libc.so.6
";

fn set(calls: &[u32]) -> Option<BTreeSet<u32>> {
    Some(calls.iter().copied().collect())
}

fn policy(path: &str, allow: Option<BTreeSet<u32>>, block: Option<BTreeSet<u32>>) -> Config {
    let mut config = Config::new();
    config.insert(String::from(path), ConfigEntry { allow, block });
    config
}

fn blocking_write() -> Config {
    policy(WRAPPER, None, set(&[WRITE]))
}

fn registers(x8: u64, pc: u64, x30: u64, x29: u64) -> Registers {
    Registers { x8, x29, x30, pc }
}

fn frame(next_fp: u64, saved_lr: u64) -> Input {
    Input::Frame(FrameRecord { next_fp, saved_lr })
}

fn resume(pid: i32) -> Action {
    Action::Resume { pid, signal: None }
}

fn killed(pid: i32, syscall: u32, path: &str) -> Action {
    Action::Kill {
        pid,
        exit: ChildExit::IllegalSyscall(syscall, String::from(path)),
    }
}

/// A supervisor that has attached to the root process and waits.
fn attached(config: &Config) -> Supervisor {
    let (mut supervisor, first) = Supervisor::start(ROOT);
    assert_eq!(
        first,
        Action::Attach {
            pid: ROOT,
            options: TRACE_OPTIONS
        }
    );
    assert_eq!(
        supervisor.step(config, Input::Maps(String::from(MAPS))),
        resume(ROOT)
    );
    assert_eq!(supervisor.phase(), Phase::Waiting);
    supervisor
}

/// A supervisor whose root process has stopped at a system call.
fn stopped(config: &Config) -> Supervisor {
    let mut supervisor = attached(config);
    assert_eq!(
        supervisor.step(config, Input::Wait(WaitEvent::SyscallStop { pid: ROOT })),
        Action::ReadRegisters { pid: ROOT }
    );
    supervisor
}

#[test]
fn run_starts_by_attaching() {
    let (supervisor, first) = Supervisor::start(7);
    assert_eq!(
        first,
        Action::Attach {
            pid: 7,
            options: 0x10001f
        }
    );
    assert_eq!(supervisor.phase(), Phase::Attaching);
}

#[test]
fn empty_policy_lets_the_program_run_to_its_end() {
    let config = Config::new();
    let mut supervisor = attached(&config);
    for _ in 0..3 {
        assert_eq!(
            supervisor.step(&config, Input::Wait(WaitEvent::SyscallStop { pid: ROOT })),
            Action::ReadRegisters { pid: ROOT }
        );
        assert_eq!(
            supervisor.step(
                &config,
                Input::Registers(registers(WRITE as u64, IN_LIBC, IN_WRAPPER, IN_STACK))
            ),
            Action::ReadFrame {
                pid: ROOT,
                fp: IN_STACK
            }
        );
        assert_eq!(
            supervisor.step(&config, frame(IN_STACK + 0x40, IN_BINARY)),
            Action::ReadFrame {
                pid: ROOT,
                fp: IN_STACK + 0x40
            }
        );
        assert_eq!(supervisor.step(&config, frame(0, IN_LIBC)), resume(ROOT));
    }
    assert_eq!(
        supervisor.step(
            &config,
            Input::Wait(WaitEvent::Exited { pid: ROOT, code: 0 })
        ),
        Action::Wait
    );
    assert_eq!(
        supervisor.step(&config, Input::Wait(WaitEvent::NoChildren)),
        Action::Return(ChildExit::Exited(0))
    );
    assert_eq!(supervisor.phase(), Phase::Finished);
}

#[test]
fn blocked_write_is_found_in_the_link_register() {
    let config = blocking_write();
    let mut supervisor = stopped(&config);
    assert_eq!(
        supervisor.step(
            &config,
            Input::Registers(registers(WRITE as u64, IN_LIBC, IN_WRAPPER, IN_STACK))
        ),
        killed(ROOT, WRITE, WRAPPER)
    );
    assert_eq!(supervisor.phase(), Phase::Finished);
}

#[test]
fn blocked_write_is_found_up_the_stack() {
    let config = blocking_write();
    let mut supervisor = stopped(&config);
    assert_eq!(
        supervisor.step(
            &config,
            Input::Registers(registers(WRITE as u64, IN_LIBC, IN_LIBC + 8, IN_STACK))
        ),
        Action::ReadFrame {
            pid: ROOT,
            fp: IN_STACK
        }
    );
    assert_eq!(
        supervisor.phase(),
        Phase::Walking {
            pid: ROOT,
            syscall: WRITE
        }
    );
    assert_eq!(
        supervisor.step(&config, frame(IN_STACK + 0x20, IN_LIBC + 16)),
        Action::ReadFrame {
            pid: ROOT,
            fp: IN_STACK + 0x20
        }
    );
    assert_eq!(
        supervisor.step(&config, frame(IN_STACK + 0x60, IN_WRAPPER)),
        killed(ROOT, WRITE, WRAPPER)
    );
}

#[test]
fn blocked_write_is_found_at_the_instruction() {
    let config = blocking_write();
    let mut supervisor = stopped(&config);
    assert_eq!(
        supervisor.step(
            &config,
            Input::Registers(registers(WRITE as u64, IN_WRAPPER, IN_LIBC, IN_STACK))
        ),
        killed(ROOT, WRITE, WRAPPER)
    );
}

#[test]
fn other_call_from_the_blocked_object_goes_on() {
    let config = blocking_write();
    let mut supervisor = stopped(&config);
    assert_eq!(
        supervisor.step(
            &config,
            Input::Registers(registers(63, IN_WRAPPER, IN_WRAPPER, 0))
        ),
        resume(ROOT)
    );
}

#[test]
fn allow_overrides_block_in_a_run() {
    let config = policy(WRAPPER, set(&[WRITE]), set(&[WRITE]));
    let mut supervisor = stopped(&config);
    assert_eq!(
        supervisor.step(
            &config,
            Input::Registers(registers(WRITE as u64, IN_LIBC, IN_WRAPPER, IN_STACK))
        ),
        resume(ROOT)
    );
    assert_eq!(
        supervisor.step(
            &config,
            Input::Wait(WaitEvent::Exited { pid: ROOT, code: 0 })
        ),
        Action::Wait
    );
    assert_eq!(
        supervisor.step(&config, Input::Wait(WaitEvent::NoChildren)),
        Action::Return(ChildExit::Exited(0))
    );
}

#[test]
fn first_verdict_decides() {
    let mut config = blocking_write();
    config.insert(
        String::from(LIBC),
        ConfigEntry {
            allow: set(&[WRITE]),
            block: None,
        },
    );
    let mut supervisor = stopped(&config);
    assert_eq!(
        supervisor.step(
            &config,
            Input::Registers(registers(WRITE as u64, IN_LIBC, IN_WRAPPER, IN_STACK))
        ),
        resume(ROOT)
    );
    let mut supervisor = stopped(&config);
    assert_eq!(
        supervisor.step(
            &config,
            Input::Registers(registers(WRITE as u64, IN_WRAPPER, IN_LIBC, IN_STACK))
        ),
        killed(ROOT, WRITE, WRAPPER)
    );
    let mut supervisor = stopped(&config);
    assert_eq!(
        supervisor.step(
            &config,
            Input::Registers(registers(WRITE as u64, IN_BINARY, IN_BINARY, IN_STACK))
        ),
        Action::ReadFrame {
            pid: ROOT,
            fp: IN_STACK
        }
    );
    assert_eq!(
        supervisor.step(&config, frame(IN_STACK + 0x20, IN_LIBC)),
        resume(ROOT)
    );
}

#[test]
fn frame_pointer_of_zero_ends_the_walk_without_a_read() {
    let config = blocking_write();
    let mut supervisor = stopped(&config);
    assert_eq!(
        supervisor.step(
            &config,
            Input::Registers(registers(WRITE as u64, IN_LIBC, IN_LIBC, 0))
        ),
        resume(ROOT)
    );
    assert_eq!(supervisor.phase(), Phase::Waiting);

    let mut supervisor = stopped(&config);
    assert_eq!(
        supervisor.step(
            &config,
            Input::Registers(registers(WRITE as u64, IN_LIBC, IN_LIBC, IN_STACK))
        ),
        Action::ReadFrame {
            pid: ROOT,
            fp: IN_STACK
        }
    );
    assert_eq!(supervisor.step(&config, frame(0, IN_BINARY)), resume(ROOT));
}

#[test]
fn return_address_of_the_last_frame_is_still_probed() {
    let config = blocking_write();
    let mut supervisor = stopped(&config);
    assert_eq!(
        supervisor.step(
            &config,
            Input::Registers(registers(WRITE as u64, IN_LIBC, IN_LIBC, IN_STACK))
        ),
        Action::ReadFrame {
            pid: ROOT,
            fp: IN_STACK
        }
    );
    assert_eq!(
        supervisor.step(&config, frame(0, IN_WRAPPER)),
        killed(ROOT, WRITE, WRAPPER)
    );
}

#[test]
fn frame_record_beyond_the_address_space_ends_the_run() {
    let config = Config::new();
    for fp in [u64::MAX, u64::MAX - 7] {
        let mut supervisor = stopped(&config);
        assert_eq!(
            supervisor.step(
                &config,
                Input::Registers(registers(WRITE as u64, IN_LIBC, IN_LIBC, fp))
            ),
            Action::Abort(Fault::FrameOutOfRange(fp))
        );
        assert_eq!(supervisor.phase(), Phase::Finished);
    }
    let mut supervisor = stopped(&config);
    assert_eq!(
        supervisor.step(
            &config,
            Input::Registers(registers(WRITE as u64, IN_LIBC, IN_LIBC, u64::MAX - 8))
        ),
        Action::ReadFrame {
            pid: ROOT,
            fp: u64::MAX - 8
        }
    );
    assert_eq!(
        supervisor.step(&config, frame(u64::MAX - 3, IN_LIBC)),
        Action::Abort(Fault::FrameOutOfRange(u64::MAX - 3))
    );
}

#[test]
fn unknown_call_ends_the_run() {
    let config = Config::new();
    let mut supervisor = stopped(&config);
    assert_eq!(
        supervisor.step(
            &config,
            Input::Registers(registers(0x7_0000_ffff, IN_LIBC, IN_LIBC, 0))
        ),
        Action::Abort(Fault::UnknownSyscall(0xffff))
    );
    assert_eq!(supervisor.phase(), Phase::Finished);
}

#[test]
fn high_word_of_the_call_register_is_dropped() {
    let config = blocking_write();
    let mut supervisor = stopped(&config);
    assert_eq!(
        supervisor.step(
            &config,
            Input::Registers(registers(0xdead_0000_0040, IN_WRAPPER, 0, 0))
        ),
        killed(ROOT, WRITE, WRAPPER)
    );
}

#[test]
fn call_that_changes_the_layout_has_the_map_read_anew() {
    let config = policy(WRAPPER, None, set(&[MMAP]));
    let (mut supervisor, _) = Supervisor::start(ROOT);
    assert_eq!(
        supervisor.step(&config, Input::Maps(String::from(MAPS_WITHOUT_WRAPPER))),
        resume(ROOT)
    );
    assert_eq!(
        supervisor.step(&config, Input::Wait(WaitEvent::SyscallStop { pid: ROOT })),
        Action::ReadRegisters { pid: ROOT }
    );
    let read = registers(MMAP as u64, IN_WRAPPER, IN_LIBC, 0);
    assert_eq!(
        supervisor.step(&config, Input::Registers(read)),
        Action::ReadMaps { pid: ROOT }
    );
    assert_eq!(
        supervisor.phase(),
        Phase::Remapping {
            pid: ROOT,
            syscall: MMAP,
            registers: read
        }
    );
    assert_eq!(
        supervisor.step(&config, Input::Maps(String::from(MAPS))),
        killed(ROOT, MMAP, WRAPPER)
    );
}

#[test]
fn each_of_the_six_calls_has_the_map_read_anew() {
    let config = Config::new();
    for call in [215u64, 216, 220, 221, 222, 281] {
        let mut supervisor = stopped(&config);
        assert_eq!(
            supervisor.step(
                &config,
                Input::Registers(registers(call, IN_LIBC, IN_LIBC, 0))
            ),
            Action::ReadMaps { pid: ROOT }
        );
        assert_eq!(
            supervisor.step(&config, Input::Maps(String::from(MAPS))),
            resume(ROOT)
        );
    }
}

#[test]
fn other_calls_go_by_the_map_that_is_kept() {
    let config = blocking_write();
    let (mut supervisor, _) = Supervisor::start(ROOT);
    assert_eq!(
        supervisor.step(&config, Input::Maps(String::from(MAPS_WITHOUT_WRAPPER))),
        resume(ROOT)
    );
    assert_eq!(
        supervisor.step(&config, Input::Wait(WaitEvent::SyscallStop { pid: ROOT })),
        Action::ReadRegisters { pid: ROOT }
    );
    assert_eq!(
        supervisor.step(
            &config,
            Input::Registers(registers(WRITE as u64, IN_WRAPPER, IN_WRAPPER, 0))
        ),
        resume(ROOT)
    );
}

#[test]
fn process_seen_for_the_first_time_has_its_map_read() {
    let config = blocking_write();
    let mut supervisor = attached(&config);
    assert_eq!(
        supervisor.step(&config, Input::Wait(WaitEvent::SyscallStop { pid: 101 })),
        Action::ReadMaps { pid: 101 }
    );
    assert_eq!(supervisor.phase(), Phase::Mapping { pid: 101 });
    assert_eq!(
        supervisor.step(&config, Input::Maps(String::from(MAPS))),
        Action::ReadRegisters { pid: 101 }
    );
    assert_eq!(supervisor.phase(), Phase::Examining { pid: 101 });
    assert_eq!(
        supervisor.step(
            &config,
            Input::Registers(registers(WRITE as u64, IN_LIBC, IN_WRAPPER, 0))
        ),
        killed(101, WRITE, WRAPPER)
    );
}

#[test]
fn each_process_has_a_map_of_its_own() {
    let config = blocking_write();
    let mut supervisor = attached(&config);
    assert_eq!(
        supervisor.step(&config, Input::Wait(WaitEvent::SyscallStop { pid: 101 })),
        Action::ReadMaps { pid: 101 }
    );
    assert_eq!(
        supervisor.step(&config, Input::Maps(String::from(MAPS_WITHOUT_WRAPPER))),
        Action::ReadRegisters { pid: 101 }
    );
    assert_eq!(
        supervisor.step(
            &config,
            Input::Registers(registers(WRITE as u64, IN_WRAPPER, IN_WRAPPER, 0))
        ),
        resume(101)
    );
    assert_eq!(
        supervisor.step(&config, Input::Wait(WaitEvent::SyscallStop { pid: 101 })),
        Action::ReadRegisters { pid: 101 }
    );
    assert_eq!(
        supervisor.step(
            &config,
            Input::Registers(registers(WRITE as u64, IN_WRAPPER, IN_WRAPPER, 0))
        ),
        resume(101)
    );
    assert_eq!(
        supervisor.step(&config, Input::Wait(WaitEvent::SyscallStop { pid: ROOT })),
        Action::ReadRegisters { pid: ROOT }
    );
    assert_eq!(
        supervisor.step(
            &config,
            Input::Registers(registers(WRITE as u64, IN_WRAPPER, IN_WRAPPER, 0))
        ),
        killed(ROOT, WRITE, WRAPPER)
    );
}

#[test]
fn map_that_cannot_be_read_ends_the_run() {
    let config = Config::new();
    let (mut supervisor, _) = Supervisor::start(ROOT);
    assert_eq!(
        supervisor.step(&config, Input::Maps(String::from("not a map\n"))),
        Action::Abort(Fault::BadMap(MemoryMapError::RegexError(String::from(
            "not a map"
        ))))
    );
    assert_eq!(supervisor.phase(), Phase::Finished);

    let mut supervisor = attached(&config);
    assert_eq!(
        supervisor.step(&config, Input::Wait(WaitEvent::SyscallStop { pid: 101 })),
        Action::ReadMaps { pid: 101 }
    );
    assert_eq!(
        supervisor.step(&config, Input::Maps(String::from("x"))),
        Action::Abort(Fault::BadMap(MemoryMapError::RegexError(String::from("x"))))
    );

    let mut supervisor = stopped(&config);
    assert_eq!(
        supervisor.step(
            &config,
            Input::Registers(registers(MMAP as u64, IN_LIBC, IN_LIBC, 0))
        ),
        Action::ReadMaps { pid: ROOT }
    );
    assert_eq!(
        supervisor.step(&config, Input::Maps(String::from("\n-\n"))),
        Action::Abort(Fault::BadMap(MemoryMapError::RegexError(String::from(
            "-"
        ))))
    );
}

#[test]
fn map_of_blank_lines_is_an_empty_map() {
    let config = blocking_write();
    let (mut supervisor, _) = Supervisor::start(ROOT);
    assert_eq!(
        supervisor.step(&config, Input::Maps(String::from("\n \n"))),
        resume(ROOT)
    );
    assert_eq!(
        supervisor.step(&config, Input::Wait(WaitEvent::SyscallStop { pid: ROOT })),
        Action::ReadRegisters { pid: ROOT }
    );
    assert_eq!(
        supervisor.step(
            &config,
            Input::Registers(registers(WRITE as u64, IN_WRAPPER, IN_WRAPPER, 0))
        ),
        resume(ROOT)
    );
}

#[test]
fn signal_is_passed_on() {
    let config = Config::new();
    let mut supervisor = attached(&config);
    for signal in [2, 11, 15, SIGSTOP] {
        assert_eq!(
            supervisor.step(
                &config,
                Input::Wait(WaitEvent::SignalStop { pid: ROOT, signal })
            ),
            Action::Resume {
                pid: ROOT,
                signal: Some(signal)
            }
        );
        assert_eq!(supervisor.phase(), Phase::Waiting);
    }
}

fn adopt(supervisor: &mut Supervisor, config: &Config, event: i32, child: i64) -> Action {
    assert_eq!(
        supervisor.step(
            config,
            Input::Wait(WaitEvent::TraceStop { pid: ROOT, event })
        ),
        Action::ReadEventMessage { pid: ROOT }
    );
    assert_eq!(supervisor.phase(), Phase::Adopting { pid: ROOT });
    supervisor.step(config, Input::EventMessage(child))
}

#[test]
fn first_stop_of_a_new_process_is_not_passed_on() {
    let config = Config::new();
    for event in [1, 2, 3] {
        let mut supervisor = attached(&config);
        assert_eq!(adopt(&mut supervisor, &config, event, 101), resume(ROOT));
        assert_eq!(
            supervisor.step(
                &config,
                Input::Wait(WaitEvent::SignalStop {
                    pid: ROOT,
                    signal: SIGSTOP
                })
            ),
            Action::Resume {
                pid: ROOT,
                signal: Some(SIGSTOP)
            }
        );
        assert_eq!(
            supervisor.step(
                &config,
                Input::Wait(WaitEvent::SignalStop {
                    pid: 101,
                    signal: 15
                })
            ),
            Action::Resume {
                pid: 101,
                signal: Some(15)
            }
        );
        assert_eq!(
            supervisor.step(
                &config,
                Input::Wait(WaitEvent::SignalStop {
                    pid: 101,
                    signal: SIGSTOP
                })
            ),
            resume(101)
        );
        assert_eq!(
            supervisor.step(
                &config,
                Input::Wait(WaitEvent::SignalStop {
                    pid: 101,
                    signal: SIGSTOP
                })
            ),
            Action::Resume {
                pid: 101,
                signal: Some(SIGSTOP)
            }
        );
    }
}

#[test]
fn new_process_that_is_marked_already_ends_the_run() {
    let config = Config::new();
    let mut supervisor = attached(&config);
    assert_eq!(adopt(&mut supervisor, &config, 1, 101), resume(ROOT));
    assert_eq!(adopt(&mut supervisor, &config, 3, 102), resume(ROOT));
    assert_eq!(
        adopt(&mut supervisor, &config, 1, 101),
        Action::Abort(Fault::AlreadyIgnored(101))
    );
    assert_eq!(supervisor.phase(), Phase::Finished);
}

#[test]
fn new_process_may_come_again_once_its_stop_was_seen() {
    let config = Config::new();
    let mut supervisor = attached(&config);
    assert_eq!(adopt(&mut supervisor, &config, 1, 101), resume(ROOT));
    assert_eq!(
        supervisor.step(
            &config,
            Input::Wait(WaitEvent::SignalStop {
                pid: 101,
                signal: SIGSTOP
            })
        ),
        resume(101)
    );
    assert_eq!(adopt(&mut supervisor, &config, 1, 101), resume(ROOT));
}

#[test]
fn identifier_that_is_no_process_ends_the_run() {
    let config = Config::new();
    for message in [
        i32::MAX as i64 + 1,
        i32::MIN as i64 - 1,
        i64::MAX,
        i64::MIN,
        0x1_0000_0065,
    ] {
        let mut supervisor = attached(&config);
        assert_eq!(
            adopt(&mut supervisor, &config, 1, message),
            Action::Abort(Fault::ChildOutOfRange(message))
        );
    }
    for message in [i32::MAX as i64, i32::MIN as i64, 0, -1] {
        let mut supervisor = attached(&config);
        assert_eq!(adopt(&mut supervisor, &config, 1, message), resume(ROOT));
    }
}

#[test]
fn exec_lets_the_process_go_on() {
    let config = Config::new();
    let mut supervisor = attached(&config);
    assert_eq!(
        supervisor.step(
            &config,
            Input::Wait(WaitEvent::TraceStop {
                pid: ROOT,
                event: 4
            })
        ),
        resume(ROOT)
    );
    assert_eq!(supervisor.phase(), Phase::Waiting);
}

#[test]
fn other_events_end_the_run() {
    let config = Config::new();
    for event in [5, 6, 7, 128] {
        let mut supervisor = attached(&config);
        assert_eq!(
            supervisor.step(
                &config,
                Input::Wait(WaitEvent::TraceStop { pid: ROOT, event })
            ),
            Action::Abort(Fault::UnexpectedStatus)
        );
    }
    for event in [0, 8, 129, -1] {
        let mut supervisor = attached(&config);
        assert_eq!(
            supervisor.step(
                &config,
                Input::Wait(WaitEvent::TraceStop { pid: ROOT, event })
            ),
            Action::Abort(Fault::UnknownEvent(event))
        );
    }
}

#[test]
fn other_status_ends_the_run() {
    let config = Config::new();
    let mut supervisor = attached(&config);
    assert_eq!(
        supervisor.step(&config, Input::Wait(WaitEvent::Other)),
        Action::Abort(Fault::UnexpectedStatus)
    );
    assert_eq!(supervisor.phase(), Phase::Finished);
}

#[test]
fn run_without_an_exit_code_has_no_result() {
    let config = Config::new();
    let mut supervisor = attached(&config);
    assert_eq!(
        supervisor.step(
            &config,
            Input::Wait(WaitEvent::Exited { pid: 101, code: 3 })
        ),
        Action::Wait
    );
    assert_eq!(
        supervisor.step(&config, Input::Wait(WaitEvent::NoChildren)),
        Action::Abort(Fault::NoExitStatus)
    );
}

#[test]
fn exit_code_is_that_of_the_root_process() {
    let config = Config::new();
    let mut supervisor = attached(&config);
    for (pid, code) in [(101, 1), (ROOT, 42), (102, 2)] {
        assert_eq!(
            supervisor.step(&config, Input::Wait(WaitEvent::Exited { pid, code })),
            Action::Wait
        );
        assert_eq!(supervisor.phase(), Phase::Waiting);
    }
    assert_eq!(
        supervisor.step(&config, Input::Wait(WaitEvent::NoChildren)),
        Action::Return(ChildExit::Exited(42))
    );
}

#[test]
fn run_goes_on_after_the_root_process_has_exited() {
    let config = blocking_write();
    let mut supervisor = attached(&config);
    assert_eq!(
        supervisor.step(
            &config,
            Input::Wait(WaitEvent::Exited { pid: ROOT, code: 0 })
        ),
        Action::Wait
    );
    assert_eq!(
        supervisor.step(&config, Input::Wait(WaitEvent::SyscallStop { pid: 101 })),
        Action::ReadMaps { pid: 101 }
    );
    assert_eq!(
        supervisor.step(&config, Input::Maps(String::from(MAPS))),
        Action::ReadRegisters { pid: 101 }
    );
    assert_eq!(
        supervisor.step(
            &config,
            Input::Registers(registers(WRITE as u64, IN_LIBC, IN_WRAPPER, 0))
        ),
        killed(101, WRITE, WRAPPER)
    );
}

#[test]
fn input_out_of_turn_ends_the_run() {
    let config = Config::new();
    let (mut supervisor, _) = Supervisor::start(ROOT);
    assert_eq!(
        supervisor.step(&config, Input::Wait(WaitEvent::NoChildren)),
        Action::Abort(Fault::OutOfTurn)
    );
    assert_eq!(supervisor.phase(), Phase::Finished);

    let mut supervisor = attached(&config);
    assert_eq!(
        supervisor.step(&config, Input::Maps(String::from(MAPS))),
        Action::Abort(Fault::OutOfTurn)
    );

    let mut supervisor = attached(&config);
    assert_eq!(
        supervisor.step(&config, frame(0, 0)),
        Action::Abort(Fault::OutOfTurn)
    );

    let mut supervisor = stopped(&config);
    assert_eq!(
        supervisor.step(&config, Input::EventMessage(101)),
        Action::Abort(Fault::OutOfTurn)
    );

    let mut supervisor = stopped(&config);
    assert_eq!(
        supervisor.step(&config, Input::Wait(WaitEvent::SyscallStop { pid: ROOT })),
        Action::Abort(Fault::OutOfTurn)
    );
}

#[test]
fn nothing_follows_the_end_of_a_run() {
    let config = Config::new();
    let mut supervisor = attached(&config);
    assert_eq!(
        supervisor.step(
            &config,
            Input::Wait(WaitEvent::Exited { pid: ROOT, code: 0 })
        ),
        Action::Wait
    );
    assert_eq!(
        supervisor.step(&config, Input::Wait(WaitEvent::NoChildren)),
        Action::Return(ChildExit::Exited(0))
    );
    for input in [
        Input::Wait(WaitEvent::NoChildren),
        Input::Maps(String::from(MAPS)),
        Input::Registers(registers(0, 0, 0, 0)),
        frame(0, 0),
        Input::EventMessage(1),
    ] {
        assert_eq!(
            supervisor.step(&config, input),
            Action::Abort(Fault::OutOfTurn)
        );
        assert_eq!(supervisor.phase(), Phase::Finished);
    }
}

#[test]
fn registers_with_a_given_call() {
    let config = blocking_write();
    let read = registers(12345, IN_LIBC, IN_WRAPPER, IN_STACK);

    let mut supervisor = stopped(&config);
    assert_eq!(
        supervisor.on_registers(&config, ROOT, read, Some(WRITE)),
        killed(ROOT, WRITE, WRAPPER)
    );

    let mut supervisor = stopped(&config);
    assert_eq!(
        supervisor.on_registers(&config, ROOT, read, Some(63)),
        Action::ReadFrame {
            pid: ROOT,
            fp: IN_STACK
        }
    );

    let mut supervisor = stopped(&config);
    assert_eq!(
        supervisor.on_registers(&config, ROOT, read, None),
        Action::Abort(Fault::UnknownSyscall(12345))
    );

    let mut supervisor = stopped(&config);
    assert_eq!(
        supervisor.on_registers(&config, ROOT, read, Some(MMAP)),
        Action::ReadMaps { pid: ROOT }
    );

    let mut supervisor = stopped(&config);
    assert_eq!(
        supervisor.on_registers(&config, 555, read, Some(WRITE)),
        Action::Abort(Fault::OutOfTurn)
    );
}

#[test]
fn probe_asks_the_policy_about_the_object_that_holds_the_address() {
    let map = MemoryMap::from_str(MAPS).unwrap();
    let config = blocking_write();
    assert_eq!(
        probe(&config, &map, WRITE, IN_WRAPPER),
        Probe::Block(String::from(WRAPPER))
    );
    assert_eq!(probe(&config, &map, 63, IN_WRAPPER), Probe::Pass);
    assert_eq!(probe(&config, &map, WRITE, IN_LIBC), Probe::Pass);
    assert_eq!(probe(&config, &map, WRITE, IN_STACK), Probe::Pass);
    assert_eq!(probe(&config, &map, WRITE, 0), Probe::Pass);
    let allowing = policy(WRAPPER, set(&[WRITE]), set(&[WRITE]));
    assert_eq!(probe(&allowing, &map, WRITE, IN_WRAPPER), Probe::Permit);
    assert_eq!(
        probe(&allowing, &map, WRITE, 0xffff90200000),
        Probe::Permit
    );
    assert_eq!(
        probe(&allowing, &map, WRITE, 0xffff90201000),
        Probe::Permit
    );
    assert_eq!(probe(&allowing, &map, WRITE, 0xffff90201001), Probe::Pass);
}
