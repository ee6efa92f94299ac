//! The course of a shutdown.

use vstd::prelude::*;

verus! {

/// What the delivery of a terminating signal asks for.
#[derive(Debug, Clone, Copy, PartialEq, Eq, Structural)]
pub struct Delivery {
    /// The process to terminate, where a child is tracked.
    pub terminate: Option<i32>,
    /// Whether to leave at once, without waiting for requests in progress.
    pub exit_now: bool,
}

/// Whether a shutdown is under way, and which child process goes down with it.
#[derive(Debug, Clone, Copy, PartialEq, Eq, Structural)]
pub struct ShutdownState {
    pub shutdown_requested: bool,
    pub child_pid: i32,
}

/// The state after a terminating signal.
pub open spec fn after_signal(s: ShutdownState) -> ShutdownState {
    ShutdownState { shutdown_requested: true, ..s }
}

/// What a terminating signal asks for: the child that is tracked is terminated,
/// and a signal after the first one has the server leave at once.
pub open spec fn delivery(s: ShutdownState) -> Delivery {
    Delivery {
        terminate: if s.child_pid > 0 {
            Some(s.child_pid)
        } else {
            None
        },
        exit_now: s.shutdown_requested,
    }
}

impl ShutdownState {
    /// The state before any signal, without a child.
    pub fn new() -> (r: Self)
        ensures
            !r.shutdown_requested,
            r.child_pid == 0,
    {
        ShutdownState { shutdown_requested: false, child_pid: 0 }
    }

    /// The state before any signal, for use in tests.
    pub fn new_for_test() -> (r: Self)
        ensures
            !r.shutdown_requested,
            r.child_pid == 0,
    {
        ShutdownState::new()
    }

    /// Whether a signal has asked for a shutdown.
    pub fn is_shutdown_requested(&self) -> (r: bool)
        ensures
            r == self.shutdown_requested,
    {
        self.shutdown_requested
    }

    /// Has the process `pid` terminated with this one.
    pub fn track_child_process(&mut self, pid: u32)
        ensures
            final(self).child_pid == pid as i32,
            final(self).shutdown_requested == old(self).shutdown_requested,
    {
        self.child_pid = pid as i32;
    }

    /// Forgets the child process, once it is gone.
    pub fn clear_child_process(&mut self)
        ensures
            final(self).child_pid == 0,
            final(self).shutdown_requested == old(self).shutdown_requested,
    {
        self.child_pid = 0;
    }

    /// The effect of a terminating signal: the first asks for a shutdown, and a
    /// later one for leaving at once; each terminates the child that is tracked.
    pub fn deliver(&mut self) -> (r: Delivery)
        ensures
            *final(self) == after_signal(*old(self)),
            r == delivery(*old(self)),
    {
        let exit_now = self.shutdown_requested;
        let terminate = if self.child_pid > 0 {
            Some(self.child_pid)
        } else {
            None
        };
        self.shutdown_requested = true;
        Delivery { terminate, exit_now }
    }
}

/// The first signal lets requests in progress end; the second does not. Each
/// terminates a child that is tracked.
pub proof fn the_second_signal_ends_at_once(s: ShutdownState)
    requires
        !s.shutdown_requested,
    ensures
        !delivery(s).exit_now,
        delivery(after_signal(s)).exit_now,
        s.child_pid > 0 ==> delivery(s).terminate == Some(s.child_pid) && delivery(
            after_signal(s),
        ).terminate == Some(s.child_pid),
{
}

} // verus!
