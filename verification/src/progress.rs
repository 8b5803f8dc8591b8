//! The progress channel's event model: a quilt job reports one `InProgress`
//! event before any compositing, one after each completed quilt, a
//! `Finished` event, and, when an animation is requested, `CreatingAnimation`
//! followed by `CreatedAnimation`. A `Failed` status is the terminal event
//! of a job aborted by a fatal error.

use vstd::prelude::*;

verus! {

/// Lifecycle states of a quilt job.
#[derive(Clone, Copy, Debug, PartialEq, Eq, Structural)]
pub enum QuiltStatusState {
    InProgress,
    Finished,
    CreatingAnimation,
    CreatedAnimation,
    Failed,
}

/// One progress event: `amount` quilts to produce, `index` completed so far.
#[derive(Clone, Copy, Debug, PartialEq, Eq, Structural)]
pub struct QuiltStatus {
    pub amount: usize,
    pub index: usize,
    pub status: QuiltStatusState,
}

/// The exact event sequence of a successful job producing `amount` quilts:
/// `InProgress` with index 0 through `amount`, then `Finished`, then, when
/// an animation is requested, `CreatingAnimation` and `CreatedAnimation`.
pub open spec fn job_events(amount: usize, animate: bool) -> Seq<QuiltStatus> {
    let base = Seq::new(
        (amount + 2) as nat,
        |k: int|
            if k <= amount {
                QuiltStatus { amount, index: k as usize, status: QuiltStatusState::InProgress }
            } else {
                QuiltStatus { amount, index: amount, status: QuiltStatusState::Finished }
            },
    );
    if animate {
        base + seq![
            QuiltStatus { amount, index: amount, status: QuiltStatusState::CreatingAnimation },
            QuiltStatus { amount, index: amount, status: QuiltStatusState::CreatedAnimation },
        ]
    } else {
        base
    }
}

/// Within one job the reported index never decreases, and every event
/// reports the same total `amount`.
pub proof fn lemma_progress_events_monotone(amount: usize, animate: bool)
    ensures
        forall|p: int, q: int|
            0 <= p <= q < job_events(amount, animate).len() ==> #[trigger] job_events(
                amount,
                animate,
            )[p].index <= #[trigger] job_events(amount, animate)[q].index,
        forall|p: int|
            0 <= p < job_events(amount, animate).len() ==> #[trigger] job_events(
                amount,
                animate,
            )[p].amount == amount,
{
}

/// The full progress sequence of a job of `amount` quilts, in order.
#[verifier::loop_isolation(false)]
pub fn progress_sequence(amount: usize, animate: bool) -> (r: Vec<QuiltStatus>)
    requires
        amount <= usize::MAX - 2,
    ensures
        r@ == job_events(amount, animate),
{
    let mut out: Vec<QuiltStatus> = Vec::new();
    let mut k: usize = 0;
    while k <= amount
        invariant
            k <= amount + 1,
            out@.len() == k,
            forall|p: int| 0 <= p < k ==> out@[p] == job_events(amount, animate)[p],
        decreases amount + 1 - k,
    {
        out.push(QuiltStatus { amount, index: k, status: QuiltStatusState::InProgress });
        k = k + 1;
    }
    out.push(QuiltStatus { amount, index: amount, status: QuiltStatusState::Finished });
    if animate {
        out.push(
            QuiltStatus { amount, index: amount, status: QuiltStatusState::CreatingAnimation },
        );
        out.push(
            QuiltStatus { amount, index: amount, status: QuiltStatusState::CreatedAnimation },
        );
    }
    proof {
        assert(out@ =~= job_events(amount, animate));
    }
    out
}

/// A running quilt job: `amount` quilts to produce, `completed` done so
/// far. The count grows one at a time and never passes `amount`.
pub struct QuiltJob {
    pub amount: usize,
    pub completed: usize,
}

impl QuiltJob {
    pub open spec fn wf(self) -> bool {
        self.completed <= self.amount
    }

    /// Start a job: returns it with the event to emit before any
    /// compositing begins, `InProgress` at index 0.
    pub fn start(amount: usize) -> (r: (QuiltJob, QuiltStatus))
        ensures
            r.0.wf(),
            r.0.amount == amount,
            r.0.completed == 0,
            r.1 == (QuiltStatus { amount, index: 0, status: QuiltStatusState::InProgress }),
            job_events(amount, true)[0] == r.1,
            job_events(amount, false)[0] == r.1,
    {
        (
            QuiltJob { amount, completed: 0 },
            QuiltStatus { amount, index: 0, status: QuiltStatusState::InProgress },
        )
    }

    /// Record one completed quilt: the event to emit carries the new count.
    pub fn complete_one(&mut self) -> (ev: QuiltStatus)
        requires
            old(self).wf(),
            old(self).completed < old(self).amount,
        ensures
            final(self).wf(),
            final(self).amount == old(self).amount,
            final(self).completed == old(self).completed + 1,
            ev == (QuiltStatus {
                amount: old(self).amount,
                index: (old(self).completed + 1) as usize,
                status: QuiltStatusState::InProgress,
            }),
    {
        self.completed = self.completed + 1;
        QuiltStatus {
            amount: self.amount,
            index: self.completed,
            status: QuiltStatusState::InProgress,
        }
    }

    /// The terminal event of the compositing stage, after every quilt.
    pub fn finish(&self) -> (ev: QuiltStatus)
        requires
            self.wf(),
            self.completed == self.amount,
        ensures
            ev == (QuiltStatus {
                amount: self.amount,
                index: self.amount,
                status: QuiltStatusState::Finished,
            }),
    {
        QuiltStatus {
            amount: self.amount,
            index: self.amount,
            status: QuiltStatusState::Finished,
        }
    }

    /// The event announcing the encoder invocation.
    pub fn creating_animation(&self) -> (ev: QuiltStatus)
        requires
            self.wf(),
            self.completed == self.amount,
        ensures
            ev == (QuiltStatus {
                amount: self.amount,
                index: self.amount,
                status: QuiltStatusState::CreatingAnimation,
            }),
    {
        QuiltStatus {
            amount: self.amount,
            index: self.amount,
            status: QuiltStatusState::CreatingAnimation,
        }
    }

    /// The event emitted once the encoder process has been started.
    pub fn created_animation(&self) -> (ev: QuiltStatus)
        requires
            self.wf(),
            self.completed == self.amount,
        ensures
            ev == (QuiltStatus {
                amount: self.amount,
                index: self.amount,
                status: QuiltStatusState::CreatedAnimation,
            }),
    {
        QuiltStatus {
            amount: self.amount,
            index: self.amount,
            status: QuiltStatusState::CreatedAnimation,
        }
    }

    /// The terminal event of a job aborted by a fatal error.
    pub fn failed(&self) -> (ev: QuiltStatus)
        ensures
            ev == (QuiltStatus {
                amount: self.amount,
                index: self.completed,
                status: QuiltStatusState::Failed,
            }),
    {
        QuiltStatus {
            amount: self.amount,
            index: self.completed,
            status: QuiltStatusState::Failed,
        }
    }
}

} // verus!
