//! The life of a call frame.

use vstd::prelude::*;

verus! {

/// Where a call frame stands.
#[derive(Clone, Copy, Debug, PartialEq, Eq, Structural)]
pub enum FrameState {
    Created,
    Running,
    Returned,
    Trapped,
}

/// What happens to a call frame.
#[derive(Clone, Copy, Debug, PartialEq, Eq, Structural)]
pub enum FrameEvent {
    /// The entry point starts to run.
    Start,
    /// The entry point returns.
    Return,
    /// The entry point raises an error.
    Trap,
}

impl FrameState {
    /// The state that follows on `event`, where the event can happen.
    pub open spec fn next(self, event: FrameEvent) -> Option<FrameState> {
        match (self, event) {
            (FrameState::Created, FrameEvent::Start) => Some(FrameState::Running),
            (FrameState::Running, FrameEvent::Return) => Some(FrameState::Returned),
            (FrameState::Running, FrameEvent::Trap) => Some(FrameState::Trapped),
            _ => None,
        }
    }

    /// The frame has ended.
    pub open spec fn terminal(self) -> bool {
        self == FrameState::Returned || self == FrameState::Trapped
    }

    /// The state that follows on `event`; `None` where the event cannot
    /// happen in this state.
    pub fn step(&self, event: FrameEvent) -> (res: Option<FrameState>)
        ensures
            res == self.next(event),
    {
        match (self, event) {
            (FrameState::Created, FrameEvent::Start) => Some(FrameState::Running),
            (FrameState::Running, FrameEvent::Return) => Some(FrameState::Returned),
            (FrameState::Running, FrameEvent::Trap) => Some(FrameState::Trapped),
            _ => None,
        }
    }

    pub fn is_terminal(&self) -> (b: bool)
        ensures
            b == self.terminal(),
    {
        match self {
            FrameState::Returned => true,
            FrameState::Trapped => true,
            _ => false,
        }
    }
}

/// No frame resumes after it returned or trapped, and a frame ends only
/// from running.
pub proof fn lemma_terminal_states_are_final(state: FrameState, event: FrameEvent)
    ensures
        state.terminal() ==> state.next(event).is_none(),
        state.next(event) matches Some(after) && after.terminal() ==> state == FrameState::Running,
{
}

} // verus!
