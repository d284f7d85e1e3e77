//! The decisions of the daemon's listening loops: what a `poll(2)` result
//! leads to, and when idle processes are flushed from the table.
use vstd::prelude::*;

verus! {

/// Number of event batches handled between two flushes, minus one.
pub const FLUSH_PERIOD: u32 = 64;

/// `EINTR`: the call was interrupted by a signal.
pub const EINTR: i32 = 4;

/// `EPERM`: the operation is not permitted.
pub const EPERM: i32 = 1;

/// Counts handled event batches and says when the process table is due for
/// a flush: after every `FLUSH_PERIOD + 1` batches.
#[derive(Debug)]
pub struct FlushSchedule {
    counter: u32,
}

impl FlushSchedule {
    /// Batches counted since the last flush.
    pub closed spec fn count(&self) -> nat {
        self.counter as nat
    }

    /// The count never passes the period.
    pub open spec fn wf(&self) -> bool {
        self.count() <= FLUSH_PERIOD
    }

    /// A schedule that has counted nothing.
    pub fn new() -> (s: FlushSchedule)
        ensures
            s.count() == 0,
            s.wf(),
    {
        FlushSchedule { counter: 0 }
    }

    /// Counts one batch of events; true when the table is to be flushed
    /// after it, and the count starts over.
    pub fn tick(&mut self) -> (flush: bool)
        requires
            old(self).wf(),
        ensures
            final(self).wf(),
            flush == (old(self).count() + 1 > FLUSH_PERIOD),
            final(self).count() == (if flush {
                0
            } else {
                old(self).count() + 1
            }),
            final(self).count() == (old(self).count() + 1) % (FLUSH_PERIOD as nat + 1),
    {
        let ghost before = self.count();
        self.counter = self.counter + 1;
        if self.counter > FLUSH_PERIOD {
            self.counter = 0;
            assert((before + 1) % 65 == 0) by {
                assert(before + 1 == 65);
            }
            true
        } else {
            assert((before + 1) % 65 == before + 1) by {
                assert(before + 1 < 65);
            }
            false
        }
    }
}

/// What the daemon's loop does after one `poll(2)` on the fanotify
/// descriptor.
#[derive(Clone, Copy, PartialEq, Eq, Debug, Structural)]
pub enum ListenStep {
    /// Interrupted by a signal: poll again.
    Retry,
    /// Poll failed with this errno: stop with the error.
    Fail(i32),
    /// Nothing is ready: poll again.
    Idle,
    /// Events are ready: handle them.
    HandleEvents,
}

/// Decides on a `poll(2)` result, given as the number of ready descriptors or
/// an errno.
pub fn listen_step(poll_result: Result<i32, i32>) -> (s: ListenStep)
    ensures
        s == (match poll_result {
            Err(e) => if e == EINTR {
                ListenStep::Retry
            } else {
                ListenStep::Fail(e)
            },
            Ok(n) => if n > 0 {
                ListenStep::HandleEvents
            } else {
                ListenStep::Idle
            },
        }),
{
    match poll_result {
        Err(e) => if e == EINTR {
            ListenStep::Retry
        } else {
            ListenStep::Fail(e)
        },
        Ok(n) => if n > 0 {
            ListenStep::HandleEvents
        } else {
            ListenStep::Idle
        },
    }
}

/// What the interactive scanner's loop does after one `poll(2)` on standard
/// input and the fanotify descriptor.
#[derive(Clone, Copy, PartialEq, Eq, Debug, Structural)]
pub enum InputStep {
    /// Input arrived on standard input: stop listening.
    Stop,
    /// Fanotify events are ready: handle them.
    HandleEvents,
    /// Nothing to do: poll again.
    Wait,
}

/// Decides on a successful `poll(2)`: `ready` is the number of ready
/// descriptors, and the flags tell which of the two are readable.
pub fn input_step(ready: i32, stdin_readable: bool, fanotify_readable: bool) -> (s: InputStep)
    ensures
        s == (if ready > 0 && stdin_readable {
            InputStep::Stop
        } else if ready > 0 && fanotify_readable {
            InputStep::HandleEvents
        } else {
            InputStep::Wait
        }),
{
    if ready > 0 {
        if stdin_readable {
            return InputStep::Stop;
        }
        if fanotify_readable {
            return InputStep::HandleEvents;
        }
    }
    InputStep::Wait
}

/// Why the daemon gives up when it cannot set up fanotify, which decides its
/// exit status.
#[derive(Clone, Copy, PartialEq, Eq, Debug, Structural)]
pub enum SetupFailure {
    /// Not permitted: the daemon has to run as root (`EX_NOPERM`).
    NoPermission,
    /// Any other error of the operating system (`EX_OSERR`).
    OsError,
}

/// Classifies the errno with which setting up fanotify failed.
pub fn setup_failure(errno: i32) -> (f: SetupFailure)
    ensures
        f == (if errno == EPERM {
            SetupFailure::NoPermission
        } else {
            SetupFailure::OsError
        }),
{
    if errno == EPERM {
        SetupFailure::NoPermission
    } else {
        SetupFailure::OsError
    }
}

} // verus!
