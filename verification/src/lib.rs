//! A syscall-filtering sandbox supervisor for Linux on AArch64: the policy,
//! the memory-map parser, the stack walk and the supervisor's decisions.
//!
//! The library decides; it does not trace. A caller that traces a process
//! tells the [`supervisor::Supervisor`] what happened and does what it
//! answers.

pub mod config;
pub mod event;
pub mod hex;
pub mod map;
pub mod order;
pub mod protocol;
pub mod region;
pub mod run;
pub mod supervisor;
pub mod syscall;
pub mod text;

pub use config::{Check, Config, ConfigEntry};
pub use map::MemoryMap;
pub use region::{MemoryMapError, Region};
pub use protocol::{Action, ChildExit, Fault, Input};
pub use supervisor::Supervisor;
