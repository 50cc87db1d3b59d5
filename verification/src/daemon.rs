//! Background-process bookkeeping: the pid lock that `start` writes, and
//! the decisions of `status`, `start` and `stop` from what the lock holds
//! and whether its process still runs.

use vstd::prelude::*;

verus! {

/// How many times `stop` looks whether the process is gone, 100 ms apart,
/// before it gives up.
pub const STOP_POLL_ATTEMPTS: u32 = 100;

/// The content of `pid.lock`.
pub struct PidLock {
    pub pid: u32,
    pub listen_addr: Option<String>,
}

/// The state of the background forwarder.
pub enum Status {
    Running { pid: u32, listen_addr: Option<String> },
    /// A lock whose process is gone.
    Stale { pid: u32, listen_addr: Option<String> },
    NotStarted,
}

/// What `stop` did.
pub enum StopResult {
    Stopped { pid: u32, force: bool },
    StaleRemoved { pid: u32 },
    NotStarted,
}

/// The state that `status` reports, from the pid lock (if any) and whether
/// its process runs.
pub fn status(lock: Option<PidLock>, running: bool) -> (s: Status)
    ensures
        match lock {
            None => s is NotStarted,
            Some(l) => if running {
                s == Status::Running { pid: l.pid, listen_addr: l.listen_addr }
            } else {
                s == Status::Stale { pid: l.pid, listen_addr: l.listen_addr }
            },
        },
{
    match lock {
        None => Status::NotStarted,
        Some(l) => {
            if running {
                Status::Running { pid: l.pid, listen_addr: l.listen_addr }
            } else {
                Status::Stale { pid: l.pid, listen_addr: l.listen_addr }
            }
        },
    }
}

/// The pid lock with a new listen address, after the running forwarder
/// rebound its listener; nothing when there is no lock.
pub fn update_listen_addr(lock: Option<PidLock>, listen_addr: String) -> (r: Option<PidLock>)
    ensures
        match lock {
            None => r is None,
            Some(l) => r == Some(PidLock { pid: l.pid, listen_addr: Some(listen_addr) }),
        },
{
    match lock {
        None => None,
        Some(l) => Some(PidLock { pid: l.pid, listen_addr: Some(listen_addr) }),
    }
}

/// What `start` does before it spawns the background process.
#[derive(Debug, Clone, Copy, PartialEq, Eq, Structural)]
pub enum StartPlan {
    /// No lock: spawn.
    Spawn,
    /// A stale lock: remove it, then spawn.
    RemoveStaleThenSpawn { pid: u32 },
    /// The forwarder runs already: refuse.
    AlreadyRunning { pid: u32 },
}

pub fn plan_start(lock: &Option<PidLock>, running: bool) -> (p: StartPlan)
    ensures
        match lock {
            None => p == StartPlan::Spawn,
            Some(l) => if running {
                p == StartPlan::AlreadyRunning { pid: l.pid }
            } else {
                p == StartPlan::RemoveStaleThenSpawn { pid: l.pid }
            },
        },
{
    match lock {
        None => StartPlan::Spawn,
        Some(l) => {
            if running {
                StartPlan::AlreadyRunning { pid: l.pid }
            } else {
                StartPlan::RemoveStaleThenSpawn { pid: l.pid }
            }
        },
    }
}

/// What `stop` does first.
#[derive(Debug, Clone, Copy, PartialEq, Eq, Structural)]
pub enum StopPlan {
    /// No lock: report that nothing runs.
    NotStarted,
    /// A stale lock: remove it and report that.
    RemoveStale { pid: u32 },
    /// Send the process a termination signal, then wait for it to end.
    Terminate { pid: u32 },
    /// Write the stop request that the forwarder polls for, then wait.
    RequestGraceful { pid: u32 },
}

pub fn plan_stop(lock: &Option<PidLock>, running: bool, force: bool) -> (p: StopPlan)
    ensures
        match lock {
            None => p == StopPlan::NotStarted,
            Some(l) => if !running {
                p == StopPlan::RemoveStale { pid: l.pid }
            } else if force {
                p == StopPlan::Terminate { pid: l.pid }
            } else {
                p == StopPlan::RequestGraceful { pid: l.pid }
            },
        },
{
    match lock {
        None => StopPlan::NotStarted,
        Some(l) => {
            if !running {
                StopPlan::RemoveStale { pid: l.pid }
            } else if force {
                StopPlan::Terminate { pid: l.pid }
            } else {
                StopPlan::RequestGraceful { pid: l.pid }
            }
        },
    }
}

/// The outcome of one look at a process that `stop` waits for.
pub enum StopPoll {
    /// The process is gone: remove the stop request and the lock, report this.
    Done(StopResult),
    /// Still running: wait 100 ms and look again.
    Wait,
    /// Still running after the last look: give up.
    GiveUp,
}

/// One look, the `attempt`-th from zero, at process `pid` while `stop` waits for it.
pub fn stop_poll(pid: u32, force: bool, running: bool, attempt: u32) -> (r: StopPoll)
    ensures
        !running ==> r == StopPoll::Done(StopResult::Stopped { pid, force }),
        running && attempt + 1 < STOP_POLL_ATTEMPTS ==> r is Wait,
        running && attempt + 1 >= STOP_POLL_ATTEMPTS ==> r is GiveUp,
{
    if !running {
        StopPoll::Done(StopResult::Stopped { pid, force })
    } else if attempt < STOP_POLL_ATTEMPTS - 1 {
        StopPoll::Wait
    } else {
        StopPoll::GiveUp
    }
}

} // verus!
