//! The child process that an interrupt is meant for.

use vstd::prelude::*;

verus! {

/// Remembers the process in the foreground, which an interrupt goes to.
pub struct SignalHandler {
    current_child: Option<u32>,
}

impl SignalHandler {
    /// The process that is remembered.
    pub closed spec fn child(self) -> Option<u32> {
        self.current_child
    }

    /// A handler that remembers no process.
    pub fn new() -> (r: SignalHandler)
        ensures
            r.child() is None,
    {
        SignalHandler { current_child: None }
    }

    /// Remembers `pid`, or nothing.
    pub fn set_child(&mut self, pid: Option<u32>)
        ensures
            final(self).child() == pid,
    {
        self.current_child = pid;
    }

    /// The process that is remembered.
    pub fn get_child(&self) -> (pid: Option<u32>)
        ensures
            pid == self.child(),
    {
        self.current_child
    }
}

/// The process id `pid` as the signed number that the system call takes:
/// ids beyond the largest signed number wrap around into the negative
/// ones.
pub open spec fn raw_pid_of(pid: u32) -> int {
    if pid <= i32::MAX {
        pid as int
    } else {
        pid - 0x1_0000_0000
    }
}

/// Converts a process id as [`raw_pid_of`] says.
pub fn raw_pid(pid: u32) -> (raw: i32)
    ensures
        raw == raw_pid_of(pid),
{
    if pid <= 0x7fff_ffff {
        pid as i32
    } else {
        let below: u32 = 0xffff_ffff - pid;
        -1 - (below as i32)
    }
}

} // verus!
