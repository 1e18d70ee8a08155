use vstd::prelude::*;

verus! {

/// Timing of the start-up phases, in nanoseconds on a monotonic clock.
/// While disabled it records nothing.
#[derive(Clone, Copy, Debug, PartialEq, Eq, Structural)]
pub struct StartupTimer {
    pub enabled: bool,
    pub started: u64,
    pub last: u64,
}

/// How long a phase took, and how long start-up has taken so far.
#[derive(Clone, Copy, Debug, PartialEq, Eq, Structural)]
pub struct PhaseTime {
    pub delta: u64,
    pub total: u64,
}

/// Time elapsed from `from` to `to`, zero where the clock reads earlier.
pub open spec fn elapsed(from: u64, to: u64) -> u64 {
    if to >= from {
        (to - from) as u64
    } else {
        0
    }
}

/// Starts the timer at `now`, if timing is enabled.
pub fn init(enabled: bool, now: u64) -> (t: StartupTimer)
    ensures
        t == (StartupTimer { enabled, started: now, last: now }),
{
    StartupTimer { enabled, started: now, last: now }
}

/// Ends a phase at `now`: reports its length and the total so far, and starts
/// the next phase. A disabled timer reports nothing and stays as it is.
pub fn log(timer: &mut StartupTimer, now: u64) -> (r: Option<PhaseTime>)
    ensures
        !old(timer).enabled ==> r is None && *final(timer) == *old(timer),
        old(timer).enabled ==> r == Some(
            PhaseTime {
                delta: elapsed(old(timer).last, now),
                total: elapsed(old(timer).started, now),
            },
        ) && *final(timer) == (StartupTimer { last: now, ..*old(timer) }),
{
    if !timer.enabled {
        return None;
    }
    let delta = now.saturating_sub(timer.last);
    let total = now.saturating_sub(timer.started);
    timer.last = now;
    Some(PhaseTime { delta, total })
}

} // verus!
