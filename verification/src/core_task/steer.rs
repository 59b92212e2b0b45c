//! Steering: a prompt that was queued while a turn streams cuts the turn at
//! the next action boundary.

use vstd::prelude::*;

verus! {

/// Where a cut stands: none is wanted, one is wanted, or the stream is
/// carrying one out.
#[derive(Debug, Clone, Copy, PartialEq, Eq, Structural)]
pub enum SteerState {
    Idle,
    Armed,
    Finalizing,
}

impl SteerState {
    /// The state once a cut is wanted.
    pub open spec fn armed(self) -> SteerState {
        if self == SteerState::Finalizing {
            self
        } else {
            SteerState::Armed
        }
    }

    /// The state once no cut is wanted any more.
    pub open spec fn disarmed(self) -> SteerState {
        if self == SteerState::Finalizing {
            self
        } else {
            SteerState::Idle
        }
    }

    /// The state once the stream has tried to claim the cut.
    pub open spec fn claimed(self) -> SteerState {
        if self == SteerState::Armed {
            SteerState::Finalizing
        } else {
            self
        }
    }
}

/// The steering state between the run loop and the stream. The run loop arms
/// it; the stream claims the cut. There is one of it, which both are lent: it
/// cannot be copied.
#[derive(Debug, PartialEq, Eq, Structural)]
pub struct SteerSignal {
    pub state: SteerState,
}

impl Default for SteerSignal {
    fn default() -> (s: Self)
        ensures
            s.state == SteerState::Idle,
    {
        SteerSignal { state: SteerState::Idle }
    }
}

impl SteerSignal {
    /// Wants a cut; a cut that is being carried out stays as it is.
    pub fn arm(&mut self)
        ensures
            final(self).state == old(self).state.armed(),
    {
        if self.state != SteerState::Finalizing {
            self.state = SteerState::Armed;
        }
    }

    /// Wants no cut any more; a cut that is being carried out stays as it is.
    pub fn disarm(&mut self)
        ensures
            final(self).state == old(self).state.disarmed(),
    {
        if self.state != SteerState::Finalizing {
            self.state = SteerState::Idle;
        }
    }

    /// Back to idle, once the stream has ended.
    pub fn reset(&mut self)
        ensures
            final(self).state == SteerState::Idle,
    {
        self.state = SteerState::Idle;
    }

    /// Whether a cut is wanted.
    pub fn is_armed(&self) -> (b: bool)
        ensures
            b == (self.state == SteerState::Armed),
    {
        self.state == SteerState::Armed
    }

    /// Claims the cut: succeeds only if one is wanted, and then not again.
    pub fn begin_preempt(&mut self) -> (claimed: bool)
        ensures
            claimed == (old(self).state == SteerState::Armed),
            final(self).state == old(self).state.claimed(),
    {
        if self.state == SteerState::Armed {
            self.state = SteerState::Finalizing;
            true
        } else {
            false
        }
    }

    /// Whether a cut is being carried out.
    pub fn is_finalizing(&self) -> (b: bool)
        ensures
            b == (self.state == SteerState::Finalizing),
    {
        self.state == SteerState::Finalizing
    }
}

/// What may be done to the signal while a turn streams.
pub enum SteerCall {
    Arm,
    Disarm,
    BeginPreempt,
}

/// The state after the calls.
pub open spec fn after_calls(s: SteerState, calls: Seq<SteerCall>) -> SteerState
    decreases calls.len(),
{
    if calls.len() == 0 {
        s
    } else {
        let before = after_calls(s, calls.drop_last());
        match calls.last() {
            SteerCall::Arm => before.armed(),
            SteerCall::Disarm => before.disarmed(),
            SteerCall::BeginPreempt => before.claimed(),
        }
    }
}

/// A cut is claimed once: after a claim that succeeded the cut is being carried
/// out whatever is called, so that no later claim succeeds, until the signal is
/// reset.
pub proof fn lemma_cut_is_claimed_once(s: SteerState, calls: Seq<SteerCall>)
    requires
        s == SteerState::Armed,
    ensures
        after_calls(s.claimed(), calls) == SteerState::Finalizing,
    decreases calls.len(),
{
    if calls.len() > 0 {
        lemma_cut_is_claimed_once(s, calls.drop_last());
    }
}

}
