//! Time keeping: which second and minute the clock shows, and when a hand
//! has to move.

use vstd::prelude::*;

verus! {

/// Milliseconds in the second that separates two moves of the second hand.
pub const SECOND_MS: u64 = 1000;

/// What the clock shows, and when it last moved its second hand.
#[derive(Clone, Copy, Debug, PartialEq, Eq)]
pub struct ClockState {
    /// The hour shown; it is set once and never advances.
    pub hour: u8,
    /// The minute shown, `0..60`.
    pub minutes: u8,
    /// The second of the minute shown, `0..60`.
    pub seconds: u8,
    /// Seconds counted since the minute hand last moved.
    pub passed_seconds: u8,
    /// Reading of the steady clock, in milliseconds, at the last move of
    /// the second hand.
    pub last_second_ms: u64,
}

/// Which hands a tick has to draw anew.
#[derive(Clone, Copy, Debug, PartialEq, Eq)]
pub struct TickPlan {
    pub redraw_second: bool,
    pub redraw_minute: bool,
}

/// Whether a full second lies between two readings of the steady clock.
pub open spec fn second_due(last_ms: u64, now_ms: u64) -> bool {
    now_ms - last_ms >= SECOND_MS
}

/// Whether the minute is full once the seconds counted are brought up to
/// date.
pub open spec fn minute_due(state: ClockState, now_ms: u64) -> bool {
    state.passed_seconds + (if second_due(state.last_second_ms, now_ms) {
        1int
    } else {
        0int
    }) >= 60
}

/// The state of the clock after a tick at the given readings of the steady
/// clock and of the wall clock.
pub open spec fn ticked(state: ClockState, now_ms: u64, wall_seconds: u64) -> ClockState {
    let second = second_due(state.last_second_ms, now_ms);
    let minute = minute_due(state, now_ms);
    ClockState {
        hour: state.hour,
        minutes: if minute {
            ((state.minutes + 1) % 60) as u8
        } else {
            state.minutes
        },
        seconds: if second {
            (wall_seconds % 60) as u8
        } else {
            state.seconds
        },
        passed_seconds: if minute {
            0
        } else if second {
            (state.passed_seconds + 1) as u8
        } else {
            state.passed_seconds
        },
        last_second_ms: if second {
            now_ms
        } else {
            state.last_second_ms
        },
    }
}

impl ClockState {
    /// Minute and second lie on the dial, and no more than a minute of
    /// seconds has been counted.
    pub open spec fn wf(&self) -> bool {
        self.minutes < 60 && self.seconds < 60 && self.passed_seconds <= 60
    }

    /// A clock that shows `hour` o'clock and is due to draw its minute hand
    /// at the first tick.
    pub fn new(hour: u8, now_ms: u64) -> (state: ClockState)
        ensures
            state.wf(),
            state == (ClockState {
                hour,
                minutes: 0,
                seconds: 0,
                passed_seconds: 60,
                last_second_ms: now_ms,
            }),
    {
        ClockState { hour, minutes: 0, seconds: 0, passed_seconds: 60, last_second_ms: now_ms }
    }

    /// Brings the clock up to date and says which hands have to move.
    ///
    /// If a second or more has gone by on the steady clock since the second
    /// hand last moved, one second is counted and the second of the minute
    /// is read off the wall clock. Once sixty seconds are counted the count
    /// starts again and the minute advances, from 59 back to 0.
    pub fn advance(&mut self, now_ms: u64, wall_seconds: u64) -> (plan: TickPlan)
        requires
            old(self).wf(),
        ensures
            final(self).wf(),
            *final(self) == ticked(*old(self), now_ms, wall_seconds),
            plan.redraw_second == second_due(old(self).last_second_ms, now_ms),
            plan.redraw_minute == minute_due(*old(self), now_ms),
            final(self).passed_seconds < 60,
    {
        let redraw_second = now_ms >= self.last_second_ms && now_ms - self.last_second_ms
            >= SECOND_MS;
        if redraw_second {
            self.passed_seconds += 1;
            self.last_second_ms = now_ms;
            self.seconds = (wall_seconds % 60) as u8;
        }
        let redraw_minute = self.passed_seconds >= 60;
        if redraw_minute {
            self.passed_seconds = 0;
            self.minutes += 1;
            if self.minutes == 60 {
                self.minutes = 0;
            }
        }
        TickPlan { redraw_second, redraw_minute }
    }
}

/// The sixtieth second counted moves the minute hand by exactly one minute
/// and starts the count again; the minute never reaches 60, and 59 is
/// followed by 0.
pub proof fn lemma_minute_rolls(state: ClockState, now_ms: u64, wall_seconds: u64)
    requires
        state.wf(),
    ensures
        ticked(state, now_ms, wall_seconds).minutes < 60,
        minute_due(state, now_ms) ==> ticked(state, now_ms, wall_seconds).passed_seconds == 0,
        minute_due(state, now_ms) && state.minutes < 59 ==> ticked(
            state,
            now_ms,
            wall_seconds,
        ).minutes == state.minutes + 1,
        minute_due(state, now_ms) && state.minutes == 59 ==> ticked(
            state,
            now_ms,
            wall_seconds,
        ).minutes == 0,
        !minute_due(state, now_ms) ==> ticked(state, now_ms, wall_seconds).minutes
            == state.minutes,
        state.passed_seconds == 59 && second_due(state.last_second_ms, now_ms) ==> minute_due(
            state,
            now_ms,
        ),
{
}

/// The second shown is the wall-clock second of the minute: sixty of them
/// make a full turn of the hand, so that second 0 points up and second 30
/// points down.
pub proof fn lemma_second_of_minute(state: ClockState, now_ms: u64, wall_seconds: u64)
    requires
        state.wf(),
        second_due(state.last_second_ms, now_ms),
    ensures
        ticked(state, now_ms, wall_seconds).seconds == wall_seconds % 60,
        wall_seconds % 60 == 0 ==> ticked(state, now_ms, wall_seconds).seconds == 0,
        wall_seconds % 60 == 30 ==> 2 * ticked(state, now_ms, wall_seconds).seconds == 60,
{
}

/// Whether the clock is running.
#[derive(Clone, Copy, Debug, PartialEq, Eq)]
pub enum RunState {
    /// Nothing is shown yet.
    Idle,
    /// The display is up and ticks are being drawn.
    Running,
    /// The display was closed or the user asked to leave.
    Stopped,
}

/// The run state after the display has been looked at once more: an idle
/// clock starts when the display is open, and any clock stops for good when
/// the display is closed or an exit is asked for.
pub open spec fn run_state_after(state: RunState, display_open: bool, exit_asked: bool) -> RunState {
    match state {
        RunState::Stopped => RunState::Stopped,
        _ => if display_open && !exit_asked {
            RunState::Running
        } else {
            RunState::Stopped
        },
    }
}

impl RunState {
    /// Looks at the display once more and moves on.
    pub fn after(self, display_open: bool, exit_asked: bool) -> (next: RunState)
        ensures
            next == run_state_after(self, display_open, exit_asked),
    {
        match self {
            RunState::Stopped => RunState::Stopped,
            _ => if display_open && !exit_asked {
                RunState::Running
            } else {
                RunState::Stopped
            },
        }
    }

    pub fn is_running(self) -> (running: bool)
        ensures
            running == (self == RunState::Running),
    {
        match self {
            RunState::Running => true,
            _ => false,
        }
    }
}

} // verus!
