//! The two calls that the job table makes to the operating system, through
//! `nix`: polling a child process and killing a process. Each call hands
//! back a record of the process it was made for; only these calls create
//! such records, so a contract over the records speaks of the calls.

use vstd::prelude::*;
use nix::sys::signal::{kill, Signal};
use nix::sys::wait::{waitpid, WaitPidFlag, WaitStatus};
use nix::unistd::Pid;

verus! {

/// A process id that names one process: `kill` and `waitpid` read 0 and
/// negative ids (after the conversion to `pid_t`) as process groups.
pub open spec fn single_process(pid: u32) -> bool {
    0 < pid && pid <= i32::MAX
}

/// What `waitpid` with `WNOHANG` reported of one process.
#[derive(Clone, Copy, Debug, PartialEq, Eq, Structural)]
pub enum ProcessPoll {
    /// The process has not changed state: it is still running.
    StillAlive,
    /// The process has ended (it exited or was killed by a signal).
    Changed,
    /// The call failed (for instance, the process is no child of the shell).
    Failed,
}

/// The outcome of polling one process, with the id of that process.
#[derive(Debug)]
pub struct PollReport {
    pid: u32,
    outcome: ProcessPoll,
}

impl View for PollReport {
    type V = (u32, ProcessPoll);

    closed spec fn view(&self) -> (u32, ProcessPoll) {
        (self.pid, self.outcome)
    }
}

impl PollReport {
    /// The process that was polled.
    pub fn pid(&self) -> (r: u32)
        ensures
            r == self@.0,
    {
        self.pid
    }

    /// What was reported of it.
    pub fn outcome(&self) -> (r: ProcessPoll)
        ensures
            r == self@.1,
    {
        self.outcome
    }
}

/// A record that `SIGKILL` was sent to one process.
#[derive(Debug)]
pub struct KillReceipt {
    pid: u32,
}

impl View for KillReceipt {
    type V = u32;

    closed spec fn view(&self) -> u32 {
        self.pid
    }
}

impl KillReceipt {
    /// The process that was signalled.
    pub fn pid(&self) -> (r: u32)
        ensures
            r == self@,
    {
        self.pid
    }
}

/// Calls `nix::sys::wait::waitpid` on the one process `pid` with
/// `WNOHANG` (so it does not block) and reports which of its outcomes came
/// back: `Ok(StillAlive)`, another `Ok`, or an error. The report names the
/// process polled; nothing is stated of the outcome, which depends on the
/// state of the operating system.
#[verifier::external_body]
pub(crate) fn poll_process(pid: u32) -> (r: PollReport)
    requires
        single_process(pid),
    ensures
        r@.0 == pid,
{
    let outcome = match waitpid(Pid::from_raw(pid as i32), Some(WaitPidFlag::WNOHANG)) {
        Ok(WaitStatus::StillAlive) => ProcessPoll::StillAlive,
        Ok(_) => ProcessPoll::Changed,
        Err(_) => ProcessPoll::Failed,
    };
    PollReport { pid, outcome }
}

/// Calls `nix::sys::signal::kill` to send `SIGKILL` to the one process
/// `pid`, ignoring whether it succeeded, and returns a receipt naming that
/// process. Whether the signal was delivered is not stated.
#[verifier::external_body]
pub(crate) fn send_sigkill(pid: u32) -> (r: KillReceipt)
    requires
        single_process(pid),
    ensures
        r@ == pid,
{
    let _ = kill(Pid::from_raw(pid as i32), Signal::SIGKILL);
    KillReceipt { pid }
}

} // verus!
