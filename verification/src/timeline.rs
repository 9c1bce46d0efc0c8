//! Step-by-step reveal of a list of drawables: which of them are shown,
//! and when the reveal is over.

use vstd::prelude::*;

verus! {

/// Where a reveal stands.
#[derive(Clone, Copy, Debug, PartialEq, Eq, Structural)]
pub enum TimelineState {
    Paused,
    Running,
    Finished,
}

/// A reveal of `length` drawables, of which the first `cursor` are shown
/// while it runs.
#[derive(Clone, Copy, Debug, PartialEq, Eq, Structural)]
pub struct Timeline {
    pub state: TimelineState,
    pub cursor: usize,
    pub length: usize,
}

/// The smaller of two numbers.
pub open spec fn least(a: int, b: int) -> int {
    if a <= b {
        a
    } else {
        b
    }
}

/// The timeline after one update. Only a running timeline whose timer has
/// run out moves: its cursor steps on by one, up to the length, and the
/// reveal is finished once the cursor has reached the length.
pub open spec fn updated(before: Timeline, timer_finished: bool) -> Timeline {
    if before.state == TimelineState::Running && timer_finished {
        let cursor = least(before.cursor + 1, before.length as int) as usize;
        Timeline {
            state: if cursor == before.length {
                TimelineState::Finished
            } else {
                TimelineState::Running
            },
            cursor,
            length: before.length,
        }
    } else {
        before
    }
}

/// How many drawables a timeline shows: none while paused, the first
/// `cursor` while running, all once finished.
pub open spec fn shown(timeline: Timeline) -> int {
    match timeline.state {
        TimelineState::Paused => 0,
        TimelineState::Running => least(timeline.cursor as int, timeline.length as int),
        TimelineState::Finished => timeline.length as int,
    }
}

impl Timeline {
    /// A paused reveal of nothing.
    pub fn new() -> (timeline: Timeline)
        ensures
            timeline == (Timeline { state: TimelineState::Paused, cursor: 0, length: 0 }),
    {
        Timeline { state: TimelineState::Paused, cursor: 0, length: 0 }
    }

    /// A paused reveal of `length` drawables.
    pub fn from_drawables(length: usize) -> (timeline: Timeline)
        ensures
            timeline == (Timeline { state: TimelineState::Paused, cursor: 0, length }),
    {
        Timeline { state: TimelineState::Paused, cursor: 0, length }
    }

    /// Back to the start, paused.
    pub fn reset(&mut self)
        ensures
            *final(self) == (Timeline {
                state: TimelineState::Paused,
                cursor: 0,
                length: old(self).length,
            }),
    {
        self.cursor = 0;
        self.state = TimelineState::Paused;
    }

    /// Starts or resumes the reveal.
    pub fn start(&mut self)
        ensures
            *final(self) == (Timeline { state: TimelineState::Running, ..*old(self) }),
    {
        self.state = TimelineState::Running;
    }

    /// How many drawables are to be drawn, from the first on.
    pub fn visible(&self) -> (count: usize)
        ensures
            count == shown(*self),
    {
        match self.state {
            TimelineState::Paused => 0,
            TimelineState::Running => if self.cursor <= self.length {
                self.cursor
            } else {
                self.length
            },
            TimelineState::Finished => self.length,
        }
    }

    /// One update. `timer_finished` tells whether the timer of the current
    /// step has run out. Returns whether that timer is to roll over, which
    /// is the case exactly if the reveal moved on and is not finished.
    pub fn update(&mut self, timer_finished: bool) -> (roll_over: bool)
        ensures
            *final(self) == updated(*old(self), timer_finished),
            roll_over == (old(self).state == TimelineState::Running && timer_finished
                && final(self).state == TimelineState::Running),
    {
        match self.state {
            TimelineState::Running => {
                if timer_finished {
                    if self.cursor < self.length {
                        self.cursor = self.cursor + 1;
                    } else {
                        self.cursor = self.length;
                    }
                    if self.cursor == self.length {
                        self.state = TimelineState::Finished;
                        false
                    } else {
                        true
                    }
                } else {
                    false
                }
            },
            _ => false,
        }
    }
}

} // verus!
