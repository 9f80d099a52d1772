//! What holds of one request over all attempts that are made at it.
use crate::body::{
    releases, total, total_counts_every_byte, Body, BodyRef, BodyShared, Kind, PollFrame, RefView,
    SharedView, MAX_BUFFERED,
};
use crate::boundary::{
    guard_contents, incoming_body, incoming_parts, outgoing_body, outgoing_parts, parts_headers,
    parts_line,
};
use crate::replay::{
    attempts_are_given_the_body, buffer_stays_bounded, follows, frames_in, in_turn,
    kept_attempt_saw_no_error, lemma_owned_stays, Attempt, History,
};
use crate::retry::{
    attempt_of, calls, course, expects, next, only_rejections_are_retried, retries_are_bounded,
    Action, EventView, Phase, RetryLoop, MAX_RETRIES,
};
use http::Request;
use tokio::sync::OwnedMutexGuard;
use vstd::prelude::*;

verus! {

/// The shared state that a guard gives access to, if there is one.
pub open spec fn locked(guard: OwnedMutexGuard<Option<BodyShared>>) -> Option<SharedView> {
    match guard_contents(guard) {
        Some(shared) => Some(shared@),
        None => None,
    }
}

/// The shared state that an attempt in the state `v` leaves behind: what it has
/// shared, or nothing if it has committed.
pub open spec fn left_behind(v: RefView) -> Option<SharedView> {
    match v {
        RefView::Uncommitted { shared, .. } => Some(shared),
        RefView::Owned(_) => None,
    }
}

/// One request and the attempts that are made at it.
pub struct Call {
    /// The request as the caller handed it in.
    pub req: Request<Body>,
    /// The states that the request goes through.
    pub states: Seq<RetryLoop>,
    /// The event that leads from each state to the next.
    pub events: Seq<EventView>,
    /// The guard that each attempt is made with.
    pub guards: Seq<OwnedMutexGuard<Option<BodyShared>>>,
    /// What is sent at each attempt.
    pub sent: Seq<Request<BodyRef>>,
    /// How each attempt reads the body.
    pub attempts: Seq<Attempt>,
}

impl Call {
    /// The shared state that the first attempt begins with: nothing was read of
    /// the caller's body.
    pub open spec fn first(self) -> SharedView {
        SharedView {
            frames: Seq::empty(),
            trailers: None,
            body: match incoming_body(self.req).kind {
                Kind::Empty => None,
                Kind::Wrap(body) => Some(body),
            },
        }
    }

    /// The attempt `i` was made at the event `k`: after `i` requests were sent, the
    /// last of them was rejected unprocessed, the body was still kept, and the
    /// service became ready.
    pub open spec fn made_at(self, i: int, k: int) -> bool {
        &&& 2 <= k < self.events.len()
        &&& calls(self.states, self.events, k as nat) == i
        &&& self.events[k - 2] == (EventView::Called { rejected: true })
        &&& self.events[k - 1] == (EventView::Locked { uncommitted: true })
        &&& self.events[k] == (EventView::Readied { ready: true })
        &&& next(self.states[k], self.events[k]).1 == Action::Call
    }

    /// The attempt `i` was made at some event.
    pub open spec fn is_retry(self, i: int) -> bool {
        exists|k: int| #[trigger] self.made_at(i, k)
    }

    /// The answer to whether the body is still kept, at the event before the event
    /// `k`, is what the guard of the attempt `i` shows.
    pub open spec fn looked(self, i: int, k: int) -> bool {
        self.events[k - 1] == (EventView::Locked {
            uncommitted: guard_contents(self.guards[i]) is Some,
        })
    }

    /// What is sent at the attempt `i` is what [`attempt_of`] says, made with a
    /// guard that finds the shared state as the attempt before left it. The body
    /// yields no data after its trailers.
    pub open spec fn sends(self, i: int) -> bool {
        &&& attempt_of(incoming_parts(self.req), self.guards[i], self.sent[i])
        &&& self.attempts[i].valid()
        &&& self.attempts[i].orderly()
        &&& self.attempts[i].states.first() == outgoing_body(self.sent[i])@
        &&& locked(self.guards[i]) == if i == 0 {
            Some(self.first())
        } else {
            left_behind(self.attempts[i - 1].states.last())
        }
    }

    /// The request runs its course, and is sent as often as that says.
    pub open spec fn valid(self) -> bool {
        &&& course(self.states, self.events)
        &&& self.sent.len() == calls(self.states, self.events, self.events.len())
        &&& self.guards.len() == self.sent.len()
        &&& self.attempts.len() == self.sent.len()
        &&& forall|i: int| 0 <= i < self.sent.len() ==> #[trigger] self.sends(i)
        &&& forall|i: int, k: int|
            0 < i < self.sent.len() && #[trigger] self.made_at(i, k) ==> self.looked(i, k)
    }

    /// What is sent at the attempt `i` is the request: its head, with extensions
    /// cloned from the caller's, and its body from the first frame, of which a
    /// first part is read.
    pub open spec fn repeats_request(self, i: int, history: History) -> bool {
        let parts = outgoing_parts(self.sent[i]);
        &&& parts_line(parts) == parts_line(incoming_parts(self.req))
        &&& parts_headers(parts) == parts_headers(incoming_parts(self.req))
        &&& cloned(incoming_parts(self.req), parts)
        &&& outgoing_body(self.sent[i])@ == (RefView::Uncommitted {
            shared: locked(self.guards[i])->0,
            next: Some(0),
        })
        &&& frames_in(self.attempts[i].answers).is_prefix_of(frames_in(history.answers))
    }
}

proof fn lemma_calls_positive(states: Seq<RetryLoop>, events: Seq<EventView>, n: nat)
    ensures
        calls(states, events, n) > 0,
    decreases n,
{
    if n > 0 {
        lemma_calls_positive(states, events, (n - 1) as nat);
    }
}

proof fn lemma_calls_grow(
    states: Seq<RetryLoop>,
    events: Seq<EventView>,
    n: nat,
    i: nat,
) -> (k: int)
    requires
        0 < i < calls(states, events, n),
    ensures
        0 <= k < n,
        next(states[k], events[k]).1 == Action::Call,
        calls(states, events, k as nat) == i,
    decreases n,
{
    if i < calls(states, events, (n - 1) as nat) {
        lemma_calls_grow(states, events, (n - 1) as nat, i)
    } else {
        n - 1
    }
}

proof fn lemma_retry(call: Call, i: int)
    requires
        call.valid(),
        0 < i < call.sent.len(),
    ensures
        call.is_retry(i),
        guard_contents(call.guards[i]) is Some,
{
    let k = lemma_calls_grow(call.states, call.events, call.events.len(), i as nat);
    only_rejections_are_retried(call.states, call.events, k);
    assert(call.made_at(i, k));
    assert(call.looked(i, k));
}

proof fn lemma_in_turn(call: Call)
    requires
        call.valid(),
    ensures
        in_turn(call.attempts, call.first()),
{
    lemma_calls_positive(call.states, call.events, call.events.len());
    assert(call.sends(0));
    assert forall|i: int| 0 <= i < call.attempts.len() implies (
    #[trigger] call.attempts[i]).valid() && call.attempts[i].orderly() by {
        assert(call.sends(i));
    }
    assert forall|i: int| 0 < i < call.attempts.len() implies #[trigger] follows(
        call.attempts,
        i,
    ) by {
        lemma_retry(call, i);
        assert(call.sends(i));
    }
}

/// Every attempt at a request sends that request.
///
/// Each has the head that the caller handed in, and begins with the first frame
/// of the caller's body: what it reads is a first part of what that body yields.
/// Each but the first is made only after the one before was rejected
/// unprocessed, with the body still kept, and once the service was ready: none
/// follows an attempt that has committed. There are at most [`MAX_RETRIES`] of
/// them beyond the first. If the last is told of the end, it was given all of
/// the body.
///
/// This leaves out a body that yields data after its trailers.
pub proof fn every_attempt_sends_the_request(call: Call) -> (history: History)
    requires
        call.valid(),
    ensures
        0 < call.sent.len() <= MAX_RETRIES + 1,
        history.valid(),
        history.source == call.first().body,
        forall|i: int|
            0 <= i < call.sent.len() ==> #[trigger] call.repeats_request(i, history),
        forall|i: int| 0 < i < call.sent.len() ==> #[trigger] call.is_retry(i),
        forall|i: int| 0 < i < call.sent.len() ==> #[trigger] follows(call.attempts, i),
        call.attempts.last().answers.len() > 0 && call.attempts.last().answers.last()
            == PollFrame::Ready(None) ==> history.finished() && frames_in(
            call.attempts.last().answers,
        ) == frames_in(history.answers),
{
    retries_are_bounded(call.states, call.events);
    lemma_calls_positive(call.states, call.events, call.events.len());
    assert forall|i: int| 0 < i < call.sent.len() implies #[trigger] call.is_retry(i) by {
        lemma_retry(call, i);
    }
    lemma_in_turn(call);
    let history = attempts_are_given_the_body(call.attempts, call.first());
    assert forall|i: int| 0 <= i < call.sent.len() implies #[trigger] call.repeats_request(
        i,
        history,
    ) by {
        if i > 0 {
            lemma_retry(call, i);
        }
        assert(call.sends(i));
        assert(frames_in(call.attempts[i].answers).is_prefix_of(frames_in(history.answers)));
    }
    history
}

/// No attempt follows one that was answered with an error of the body, so that
/// the server is never sent the frames before the error as if they were all.
pub proof fn no_attempt_follows_an_error(call: Call, i: int, k: int)
    requires
        call.valid(),
        0 <= i < call.sent.len() - 1,
        0 <= k < call.attempts[i].answers.len(),
    ensures
        !(call.attempts[i].answers[k] matches PollFrame::Ready(Some(Err(_)))),
{
    lemma_in_turn(call);
    assert(call.sends(i));
    assert(follows(call.attempts, i + 1));
    kept_attempt_saw_no_error(call.attempts[i], k);
}

proof fn lemma_attempt_bounded(attempt: Attempt, k: int)
    requires
        attempt.valid(),
        attempt.states.first() matches RefView::Uncommitted { shared, .. } && total(shared.frames)
            < MAX_BUFFERED,
        0 <= k < attempt.states.len(),
        attempt.states.last() is Uncommitted,
    ensures
        attempt.states[k] matches RefView::Uncommitted { shared, .. } && total(shared.frames)
            < MAX_BUFFERED,
    decreases k,
{
    if k > 0 {
        lemma_attempt_bounded(attempt, k - 1);
        assert(attempt.answered(k - 1));
        if attempt.states[k] is Owned {
            lemma_owned_stays(attempt, k);
        }
        buffer_stays_bounded(
            attempt.states[k - 1]->Uncommitted_shared,
            attempt.states[k - 1]->Uncommitted_next,
            attempt.states[k]->Uncommitted_shared,
            attempt.states[k]->Uncommitted_next,
            Ok(attempt.answers[k - 1]),
        );
    }
}

/// No attempt follows one after which 256 KiB of data or more would have to be
/// kept.
pub proof fn no_attempt_follows_too_much_data(call: Call, i: int)
    requires
        call.valid(),
        0 <= i < call.sent.len() - 1,
    ensures
        call.attempts[i].states.last() matches RefView::Uncommitted { shared, .. }
            && shared.frames.flatten().len() < 262144,
    decreases i,
{
    lemma_in_turn(call);
    assert(call.sends(i));
    assert(follows(call.attempts, i + 1));
    if i > 0 {
        no_attempt_follows_too_much_data(call, i - 1);
        assert(follows(call.attempts, i));
        total_counts_every_byte(
            call.attempts[i - 1].states.last()->Uncommitted_shared.frames,
        );
    }
    let attempt = call.attempts[i];
    lemma_attempt_bounded(attempt, attempt.states.len() - 1);
    total_counts_every_byte(attempt.states.last()->Uncommitted_shared.frames);
}

/// A request whose body can no longer be replayed in full is never sent again.
///
/// An attempt that commits hands out the guard of the shared state with nothing
/// left in it. When access to the shared state is next granted, and it is as it
/// was left, the course of the request ends there: no attempt is made after it.
pub proof fn committed_request_is_not_sent_again(
    before: BodyRef,
    after: BodyRef,
    released: Option<OwnedMutexGuard<Option<BodyShared>>>,
    granted: OwnedMutexGuard<Option<BodyShared>>,
    states: Seq<RetryLoop>,
    events: Seq<EventView>,
    k: int,
)
    requires
        before is Uncommitted,
        after is Owned,
        releases(before, after, released),
        released matches Some(guard) ==> guard_contents(granted) == guard_contents(guard),
        course(states, events),
        0 <= k < events.len(),
        events[k] == (EventView::Locked { uncommitted: guard_contents(granted) is Some }),
    ensures
        next(states[k], events[k]).1 == Action::ReturnAnswer,
        k + 1 == events.len(),
        states.last().phase == Phase::Done,
        calls(states, events, events.len()) == calls(states, events, k as nat),
{
    assert(expects(states[k], events[k]) && states[k + 1] == next(states[k], events[k]).0);
    if k + 1 < events.len() {
        assert(expects(states[k + 1], events[k + 1]));
    }
}

} // verus!
