//! Idle timeouts: a read that does not complete within the idle time after
//! the last completed one fails as timed out.
use vstd::prelude::*;
use crate::plumber::{Plumber, ProcessorKind};

verus! {

/// Registers the processor as `timeout`.
pub fn register(plumber: &mut Plumber)
    ensures
        final(plumber)@ == old(plumber)@.push(("timeout"@, ProcessorKind::Timeout)),
{
    plumber.register("timeout", ProcessorKind::Timeout);
}

/// The processor and its idle time in seconds (0: none).
#[derive(Debug, Clone, Copy)]
pub struct TimeoutProcessor {
    pub idle: u64,
}

/// What a read through the timeout comes to.
#[derive(Debug, Clone, Copy, PartialEq, Eq, Structural)]
pub enum TimeoutPoll {
    /// The read completed; where `rearm` holds a time, the timer is set to
    /// fire that many seconds from now.
    Ready { rearm: Option<u64> },
    /// The read is pending and the timer has fired.
    TimedOut,
    /// The read is pending.
    Pending,
}

/// The timeout state of one reader.
#[derive(Debug, Clone, Copy)]
pub struct TimeoutReader {
    /// The idle time, where there is one.
    pub timeout_idle: Option<u64>,
    /// Whether a timer is running.
    pub timer_armed: bool,
}

impl TimeoutReader {
    /// A reader with no timer yet; an idle time of 0 means none.
    pub fn new(timeout_idle: u64) -> (r: Self)
        ensures
            r.timeout_idle == (if timeout_idle > 0 { Some(timeout_idle) } else { None::<u64> }),
            !r.timer_armed,
    {
        TimeoutReader { timeout_idle: if timeout_idle > 0 { Some(timeout_idle) } else { None }, timer_armed: false }
    }

    /// Restarts the timer where there is an idle time: gives the seconds to
    /// set it to.
    pub fn reset(&mut self) -> (r: Option<u64>)
        ensures
            r == old(self).timeout_idle,
            final(self).timeout_idle == old(self).timeout_idle,
            final(self).timer_armed == (old(self).timer_armed || (old(self).timeout_idle is Some)),
    {
        match self.timeout_idle {
            None => None,
            Some(idle) => {
                self.timer_armed = true;
                Some(idle)
            },
        }
    }

    /// What a poll of the inner reader comes to: a completed read restarts
    /// the timer; a pending one times out where a timer runs and has fired.
    pub fn on_poll(&mut self, inner_ready: bool, timer_fired: bool) -> (r: TimeoutPoll)
        ensures
            final(self).timeout_idle == old(self).timeout_idle,
            inner_ready ==> (r == (TimeoutPoll::Ready { rearm: old(self).timeout_idle })
                && final(self).timer_armed == (old(self).timer_armed || (old(self).timeout_idle is Some))),
            !inner_ready ==> (final(self).timer_armed == old(self).timer_armed
                && r == (if old(self).timer_armed && timer_fired { TimeoutPoll::TimedOut } else { TimeoutPoll::Pending })),
    {
        if inner_ready {
            let rearm = self.reset();
            TimeoutPoll::Ready { rearm }
        } else if self.timer_armed && timer_fired {
            TimeoutPoll::TimedOut
        } else {
            TimeoutPoll::Pending
        }
    }
}

impl TimeoutProcessor {
    /// The reader state for a new stream.
    pub fn reader(&self) -> (r: TimeoutReader)
        ensures
            r.timeout_idle == (if self.idle > 0 { Some(self.idle) } else { None::<u64> }),
            !r.timer_armed,
    {
        TimeoutReader::new(self.idle)
    }
}

} // verus!
