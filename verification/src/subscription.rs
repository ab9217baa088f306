//! The bookkeeping of subscriptions to browser timers: the decisions that the
//! runtime takes when a frame arrives or a subscription ends. The runtime
//! performs the requests to the browser that these decisions call for.
use vstd::prelude::*;

verus! {

/// The state of a subscription to animation frames: whether it still runs,
/// and the frame request that is pending, if any.
pub struct FrameScheduler {
    running: bool,
    current_id: Option<i32>,
}

impl FrameScheduler {
    pub closed spec fn spec_running(&self) -> bool {
        self.running
    }

    pub closed spec fn spec_current_id(&self) -> Option<i32> {
        self.current_id
    }

    /// A running subscription with no request pending yet.
    pub fn new() -> (r: FrameScheduler)
        ensures
            r.spec_running(),
            r.spec_current_id() is None,
    {
        FrameScheduler { running: true, current_id: None }
    }

    /// Whether the subscription still runs.
    pub fn running(&self) -> (r: bool)
        ensures
            r == self.spec_running(),
    {
        self.running
    }

    /// The pending frame request, if any.
    pub fn current_id(&self) -> (r: Option<i32>)
        ensures
            r == self.spec_current_id(),
    {
        self.current_id
    }

    /// A frame was requested from the browser under `id`.
    pub fn scheduled(&mut self, id: i32)
        ensures
            final(self).spec_current_id() == Some(id),
            final(self).spec_running() == old(self).spec_running(),
    {
        self.current_id = Some(id);
    }

    /// A frame arrived: while the subscription runs, its timestamp is to be
    /// delivered and the next frame requested; otherwise nothing is done.
    pub fn on_frame(&self) -> (deliver: bool)
        ensures
            deliver == self.spec_running(),
    {
        self.running
    }

    /// The subscription ends: it stops running, and the pending request, if
    /// any, is returned to be cancelled.
    pub fn cancel(&mut self) -> (r: Option<i32>)
        ensures
            r == old(self).spec_current_id(),
            final(self).spec_current_id() is None,
            !final(self).spec_running(),
    {
        let r = self.current_id.take();
        self.running = false;
        r
    }
}

/// Once a subscription to animation frames is cancelled it never runs again:
/// `cancel` leaves a scheduler that does not run, `scheduled` keeps whether
/// it runs, so along any later run of requests no state runs, and
/// `on_frame` delivers nothing.
pub proof fn law_cancelled_stays_stopped(states: Seq<FrameScheduler>)
    requires
        states.len() > 0,
        !states[0].spec_running(),
        forall|i: int| 0 <= i < states.len() - 1 ==> #[trigger] states[i + 1].spec_running() == states[i].spec_running(),
    ensures
        forall|i: int| 0 <= i < states.len() ==> !#[trigger] states[i].spec_running(),
    decreases states.len(),
{
    if states.len() > 1 {
        let d = states.drop_last();
        assert forall|i: int| 0 <= i < d.len() - 1 implies #[trigger] d[i + 1].spec_running() == d[i].spec_running() by {
            assert(d[i + 1] == states[i + 1]);
            assert(d[i] == states[i]);
        }
        law_cancelled_stays_stopped(d);
        assert forall|i: int| 0 <= i < states.len() implies !#[trigger] states[i].spec_running() by {
            if i < states.len() - 1 {
                assert(d[i] == states[i]);
            } else {
                assert(states[i - 1 + 1].spec_running() == states[i - 1].spec_running());
                assert(d[i - 1] == states[i - 1]);
            }
        }
    }
}

/// The registration of an interval timer, until the subscription ends.
pub struct IntervalHandle {
    id: Option<i32>,
}

impl IntervalHandle {
    pub closed spec fn spec_id(&self) -> Option<i32> {
        self.id
    }

    /// The registration of the interval timer `id`.
    pub fn new(id: i32) -> (r: IntervalHandle)
        ensures
            r.spec_id() == Some(id),
    {
        IntervalHandle { id: Some(id) }
    }

    /// The subscription ends: the timer to be cleared, the first time only.
    pub fn unsubscribe(&mut self) -> (r: Option<i32>)
        ensures
            r == old(self).spec_id(),
            final(self).spec_id() is None,
    {
        self.id.take()
    }
}

} // verus!
