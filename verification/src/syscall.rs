//! System call numbers of Linux on AArch64.

use vstd::prelude::*;

verus! {

/// `munmap` on AArch64.
pub const SYS_MUNMAP: u32 = 215;

/// `mremap` on AArch64.
pub const SYS_MREMAP: u32 = 216;

/// `clone` on AArch64.
pub const SYS_CLONE: u32 = 220;

/// `execve` on AArch64.
pub const SYS_EXECVE: u32 = 221;

/// `mmap` on AArch64.
pub const SYS_MMAP: u32 = 222;

/// `execveat` on AArch64.
pub const SYS_EXECVEAT: u32 = 281;

/// The system call can change the layout of the caller's address space: it is
/// one of `execve`, `execveat`, `clone`, `mmap`, `munmap`, `mremap`.
pub open spec fn changes_layout(syscall: u32) -> bool {
    syscall == SYS_EXECVE || syscall == SYS_EXECVEAT || syscall == SYS_CLONE || syscall
        == SYS_MMAP || syscall == SYS_MUNMAP || syscall == SYS_MREMAP
}

/// Whether the map of a process must be read anew when it makes `syscall`.
pub fn invalidates_map(syscall: u32) -> (b: bool)
    ensures
        b == changes_layout(syscall),
{
    syscall == SYS_EXECVE || syscall == SYS_EXECVEAT || syscall == SYS_CLONE || syscall
        == SYS_MMAP || syscall == SYS_MUNMAP || syscall == SYS_MREMAP
}

/// What the AArch64 table of the `syscalls` crate holds under the number
/// `id`: the number of the system call found there, if there is one.
pub uninterp spec fn sysno_of(id: usize) -> Option<u32>;

/// `Sysno::new` of the `syscalls` crate, on its AArch64 table, followed by
/// `Sysno::id`: the system call that the table holds under `id`, as its
/// number, or `None` where the table has no such call. A call that is found
/// has the number it was looked up by.
#[verifier::external_body]
fn sysno_new(id: usize) -> (r: Option<u32>)
    ensures
        r == sysno_of(id),
        r is Some ==> r.unwrap() == id,
{
    match syscalls::aarch64::Sysno::new(id) {
        Some(sysno) => Some(sysno.id() as u32),
        None => None,
    }
}

/// The low 32 bits of a register.
pub open spec fn low_word(register: u64) -> u32 {
    (register % 0x1_0000_0000) as u32
}

/// The system call that a process makes with `x8` in its register of that
/// name: the low 32 bits of `x8`, if the table holds a system call under
/// that number.
pub open spec fn syscall_in(x8: u64) -> Option<u32> {
    if sysno_of(low_word(x8) as usize) is Some {
        Some(low_word(x8))
    } else {
        None
    }
}

/// The system call that a process makes with `x8` in its register of that
/// name: the low 32 bits of `x8`, if the table of the `syscalls` crate holds
/// a system call under that number.
pub fn syscall_number(x8: u64) -> (r: Option<u32>)
    ensures
        r == syscall_in(x8),
{
    let number: u32 = (x8 % 0x1_0000_0000) as u32;
    sysno_new(number as usize)
}

} // verus!
