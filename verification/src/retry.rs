//! How often, and when, a rejected request is sent again.
use crate::body::{Body, BodyRef, BodyShared};
use crate::boundary::{guard_deref, parts_clone, request_from_parts, request_into_parts};
use crate::rejection::{is_retryable_stream_rejection, ErrorLayer};
use http::request::Parts;
use http::Request;
use tokio::sync::OwnedMutexGuard;
use vstd::prelude::*;

verus! {

/// A request is sent again at most this often.
pub const MAX_RETRIES: u32 = 16;

/// Service layer that transparently retries requests rejected before
/// processing.
///
/// When an HTTP/2 server sends GOAWAY with NO_ERROR or resets a stream with
/// REFUSED_STREAM, the request was never processed by the server. Per gRFC A6,
/// these are unconditionally safe to retry. This layer detects such failures
/// and retries on a fresh connection.
///
/// Request bodies are kept in a [`BodyShared`] so they can be replayed. They
/// are let go of as soon as an attempt succeeds, or as soon as too much data
/// would have to be kept.
pub struct GoawayRetry<S> {
    /// The service that requests are sent through.
    pub inner: S,
}

impl<S: Clone> Clone for GoawayRetry<S> {
    fn clone(&self) -> (r: Self)
        ensures
            cloned(self.inner, r.inner),
    {
        GoawayRetry { inner: self.inner.clone() }
    }
}

/// What is needed to send one request, as often as it takes.
pub struct PendingCall<S> {
    /// The service to send it through.
    pub service: S,
    /// The request without its body.
    pub parts: Parts,
    /// The body, none of which was read yet.
    pub shared: BodyShared,
}

impl<S> GoawayRetry<S> {
    /// A layer around `inner`.
    pub fn new(inner: S) -> (r: Self)
        ensures
            r.inner == inner,
    {
        GoawayRetry { inner }
    }

    /// Takes a request apart for sending. The request goes through the service
    /// that was made ready for it, and a clone of that service stays behind.
    pub fn prepare(&mut self, req: Request<Body>) -> (r: PendingCall<S>) where S: Clone
        ensures
            r.service == old(self).inner,
            cloned(old(self).inner, final(self).inner),
            r.parts == crate::boundary::incoming_parts(req),
            r.shared@.frames == Seq::<Seq<u8>>::empty(),
            r.shared@.trailers is None,
            r.shared@.body == match crate::boundary::incoming_body(req).kind {
                crate::body::Kind::Empty => None,
                crate::body::Kind::Wrap(body) => Some(body),
            },
    {
        let (parts, body) = request_into_parts(req);
        let mut service = self.inner.clone();
        core::mem::swap(&mut service, &mut self.inner);
        PendingCall { service, parts, shared: BodyShared::new(body) }
    }
}

/// Whether the frames of the body are still kept, so that the request can be
/// sent again.
pub fn is_uncommitted(shared: &OwnedMutexGuard<Option<BodyShared>>) -> (r: bool)
    ensures
        r == (crate::boundary::guard_contents(*shared) is Some),
{
    guard_deref(shared).is_some()
}

/// `req` sends the head `parts`, and the body from its first frame, out of what
/// is shared in `shared`.
pub open spec fn attempt_of(
    parts: Parts,
    shared: OwnedMutexGuard<Option<BodyShared>>,
    req: Request<BodyRef>,
) -> bool {
    let sent = crate::boundary::outgoing_parts(req);
    let body = crate::boundary::outgoing_body(req);
    &&& crate::boundary::parts_line(sent) == crate::boundary::parts_line(parts)
    &&& crate::boundary::parts_headers(sent) == crate::boundary::parts_headers(parts)
    &&& cloned(parts, sent)
    &&& body.wf()
    &&& body.lock() == Some(crate::boundary::guard_lock(shared))
    &&& body@ == (crate::body::RefView::Uncommitted {
        shared: crate::boundary::guard_contents(shared)->0@,
        next: Some(0),
    })
}

/// The request of one attempt: the head that the caller handed in, and the body
/// from its first frame.
pub fn attempt_request(parts: &Parts, shared: OwnedMutexGuard<Option<BodyShared>>) -> (r: Request<
    BodyRef,
>)
    requires
        crate::boundary::guard_contents(shared) is Some,
    ensures
        attempt_of(*parts, shared, r),
{
    request_from_parts(parts_clone(parts), BodyRef::new(shared))
}

/// The request of one attempt, if the frames of the body are still kept.
pub fn try_attempt_request(
    parts: &Parts,
    shared: OwnedMutexGuard<Option<BodyShared>>,
) -> (r: Option<Request<BodyRef>>)
    ensures
        r is Some <==> crate::boundary::guard_contents(shared) is Some,
        r matches Some(req) ==> attempt_of(*parts, shared, req),
{
    if is_uncommitted(&shared) {
        Some(attempt_request(parts, shared))
    } else {
        None
    }
}

/// Every attempt sends the head that the caller handed in: the same request
/// line, the same header fields, and extensions cloned from the caller's.
pub proof fn attempts_repeat_head<S>(
    req: Request<Body>,
    call: PendingCall<S>,
    shared: OwnedMutexGuard<Option<BodyShared>>,
    sent: Request<BodyRef>,
)
    requires
        call.parts == crate::boundary::incoming_parts(req),
        attempt_of(call.parts, shared, sent),
    ensures
        crate::boundary::parts_line(crate::boundary::outgoing_parts(sent))
            == crate::boundary::parts_line(crate::boundary::incoming_parts(req)),
        crate::boundary::parts_headers(crate::boundary::outgoing_parts(sent))
            == crate::boundary::parts_headers(crate::boundary::incoming_parts(req)),
        cloned(crate::boundary::incoming_parts(req), crate::boundary::outgoing_parts(sent)),
{
}

/// What a request is waiting for.
#[derive(Clone, Copy, PartialEq, Eq, Structural)]
pub enum Phase {
    /// The answer to an attempt.
    Calling,
    /// Access to the body, after an attempt was rejected.
    Locking,
    /// The service, before the request is sent again.
    Readying,
    /// Nothing: the request was answered.
    Done,
}

/// What happened to a request.
pub enum Event<'a> {
    /// An attempt was answered; with the error and its sources if it failed.
    Called(Option<Vec<ErrorLayer<'a>>>),
    /// Access to the body was granted; whether its frames are still kept.
    Locked(bool),
    /// The service was waited for; whether it is ready or has failed.
    Readied(bool),
}

/// What is to be done about a request.
#[derive(Clone, Copy, PartialEq, Eq, Structural)]
pub enum Action {
    /// Wait for access to the body.
    Lock,
    /// Wait for the service to be ready.
    AwaitReady,
    /// Send the request again.
    Call,
    /// Answer the caller with the outcome of the last attempt.
    ReturnAnswer,
    /// Answer the caller with the failure of the service.
    ReturnReadyError,
}

/// What happened to a request, as far as it decides anything.
pub enum EventView {
    /// An attempt was answered.
    Called {
        /// Whether the answer shows that the request was never processed.
        rejected: bool,
    },
    /// Access to the body was granted.
    Locked {
        /// Whether its frames are still kept.
        uncommitted: bool,
    },
    /// The service was waited for.
    Readied {
        /// Whether it is ready.
        ready: bool,
    },
}

impl<'a> View for Event<'a> {
    type V = EventView;

    open spec fn view(&self) -> EventView {
        match self {
            Event::Called(failure) => EventView::Called {
                rejected: match failure {
                    Some(chain) => crate::rejection::rejected(chain@),
                    None => false,
                },
            },
            Event::Locked(uncommitted) => EventView::Locked { uncommitted: *uncommitted },
            Event::Readied(ready) => EventView::Readied { ready: *ready },
        }
    }
}

/// The course of one request: what it waits for, and how often it was sent
/// again.
#[derive(Clone, Copy)]
pub struct RetryLoop {
    /// What the request is waiting for.
    pub phase: Phase,
    /// How often it was sent again, or is about to be.
    pub attempts: u32,
}

/// The request is waiting for an event of this kind.
pub open spec fn expects(s: RetryLoop, e: EventView) -> bool {
    match e {
        EventView::Called { .. } => s.phase == Phase::Calling,
        EventView::Locked { .. } => s.phase == Phase::Locking,
        EventView::Readied { .. } => s.phase == Phase::Readying,
    }
}

/// The state of a request at its first attempt.
pub open spec fn started() -> RetryLoop {
    RetryLoop { phase: Phase::Calling, attempts: 0 }
}

/// What is done about an event, and the state that follows.
///
/// A rejected request is sent again while fewer than [`MAX_RETRIES`] retries
/// were made, if its body is still kept and the service becomes ready. In every
/// other case the caller is answered.
pub open spec fn next(s: RetryLoop, e: EventView) -> (RetryLoop, Action) {
    let done = RetryLoop { phase: Phase::Done, ..s };
    match e {
        EventView::Called { rejected } => if rejected && s.attempts < MAX_RETRIES {
            (RetryLoop { phase: Phase::Locking, ..s }, Action::Lock)
        } else {
            (done, Action::ReturnAnswer)
        },
        EventView::Locked { uncommitted } => if uncommitted {
            (
                RetryLoop { phase: Phase::Readying, attempts: (s.attempts + 1) as u32 },
                Action::AwaitReady,
            )
        } else {
            (done, Action::ReturnAnswer)
        },
        EventView::Readied { ready } => if ready {
            (RetryLoop { phase: Phase::Calling, ..s }, Action::Call)
        } else {
            (done, Action::ReturnReadyError)
        },
    }
}

impl RetryLoop {
    /// Retries stay within their limit, and one is left while the body is
    /// waited for.
    pub open spec fn wf(&self) -> bool {
        &&& self.attempts <= MAX_RETRIES
        &&& self.phase == Phase::Locking ==> self.attempts < MAX_RETRIES
    }

    /// The first attempt is under way.
    pub fn new() -> (r: RetryLoop)
        ensures
            r == started(),
            r.wf(),
    {
        RetryLoop { phase: Phase::Calling, attempts: 0 }
    }

    /// Takes note of an event and says what is to be done about it.
    pub fn step(&mut self, event: Event<'_>) -> (r: Action)
        requires
            old(self).wf(),
            expects(*old(self), event@),
        ensures
            final(self).wf(),
            (*final(self), r) == next(*old(self), event@),
    {
        match event {
            Event::Called(failure) => {
                let rejected = match failure {
                    Some(chain) => is_retryable_stream_rejection(chain.as_slice()),
                    None => false,
                };
                if rejected && self.attempts < MAX_RETRIES {
                    self.phase = Phase::Locking;
                    return Action::Lock;
                }
            },
            Event::Locked(uncommitted) => if uncommitted {
                self.attempts = self.attempts + 1;
                self.phase = Phase::Readying;
                return Action::AwaitReady;
            },
            Event::Readied(ready) => {
                self.phase = if ready {
                    Phase::Calling
                } else {
                    Phase::Done
                };
                return if ready {
                    Action::Call
                } else {
                    Action::ReturnReadyError
                };
            },
        }
        self.phase = Phase::Done;
        Action::ReturnAnswer
    }
}

/// The course of a request from its first attempt on: the states that it goes
/// through, and the event that leads from each to the next.
pub open spec fn course(states: Seq<RetryLoop>, events: Seq<EventView>) -> bool {
    &&& states.len() == events.len() + 1
    &&& states.first() == started()
    &&& forall|k: int|
        0 <= k < events.len() ==> expects(#[trigger] states[k], events[k]) && states[k + 1] == next(
            states[k],
            events[k],
        ).0
}

/// How often the request was sent over the first `n` events: once to begin
/// with, and once more with every retry.
pub open spec fn calls(states: Seq<RetryLoop>, events: Seq<EventView>, n: nat) -> nat
    decreases n,
{
    if n == 0 {
        1
    } else {
        calls(states, events, (n - 1) as nat) + if next(states[n - 1], events[n - 1]).1
            == Action::Call {
            1nat
        } else {
            0
        }
    }
}

/// Where a request stands after `n` events.
spec fn on_course(s: RetryLoop, calls: nat, n: nat) -> bool {
    &&& s.wf()
    &&& calls <= s.attempts + 1
    &&& n <= 3 * MAX_RETRIES + 1
    &&& match s.phase {
        Phase::Calling => calls == s.attempts + 1 && n == 3 * s.attempts,
        Phase::Locking => calls == s.attempts + 1 && n == 3 * s.attempts + 1,
        Phase::Readying => calls == s.attempts && n == 3 * s.attempts - 1,
        Phase::Done => true,
    }
}

proof fn lemma_on_course(states: Seq<RetryLoop>, events: Seq<EventView>, n: nat)
    requires
        course(states, events),
        n <= events.len(),
    ensures
        on_course(states[n as int], calls(states, events, n), n),
    decreases n,
{
    if n > 0 {
        lemma_on_course(states, events, (n - 1) as nat);
        assert(expects(states[n - 1], events[n - 1]));
    }
}

/// A request is sent at most [`MAX_RETRIES`] times beyond its first attempt,
/// whatever happens to it.
pub proof fn retries_are_bounded(states: Seq<RetryLoop>, events: Seq<EventView>)
    requires
        course(states, events),
    ensures
        calls(states, events, events.len()) <= MAX_RETRIES + 1,
{
    lemma_on_course(states, events, events.len());
}

/// A request is answered after a bounded number of events: each retry takes
/// three, and one more ends the course.
pub proof fn course_ends(states: Seq<RetryLoop>, events: Seq<EventView>)
    requires
        course(states, events),
    ensures
        events.len() <= 3 * MAX_RETRIES + 1,
        events.len() == 3 * MAX_RETRIES + 1 ==> states.last().phase == Phase::Done,
{
    lemma_on_course(states, events, events.len());
}

/// A request is sent again only if the attempt before was rejected unprocessed,
/// its body is still kept, and the service is ready.
pub proof fn only_rejections_are_retried(
    states: Seq<RetryLoop>,
    events: Seq<EventView>,
    k: int,
)
    requires
        course(states, events),
        0 <= k < events.len(),
        next(states[k], events[k]).1 == Action::Call,
    ensures
        k >= 2,
        events[k - 2] == (EventView::Called { rejected: true }),
        events[k - 1] == (EventView::Locked { uncommitted: true }),
        events[k] == (EventView::Readied { ready: true }),
{
    assert(expects(states[k], events[k]));
    assert(k >= 1);
    assert(expects(states[k - 1], events[k - 1]) && states[k - 1 + 1] == next(
        states[k - 1],
        events[k - 1],
    ).0);
    assert(k >= 2);
    assert(expects(states[k - 2], events[k - 2]) && states[k - 2 + 1] == next(
        states[k - 2],
        events[k - 2],
    ).0);
}

/// An attempt that was not rejected unprocessed, be it a success or any other
/// failure, ends the course with its answer.
pub proof fn other_answers_are_returned(s: RetryLoop)
    ensures
        next(s, EventView::Called { rejected: false }) == (
            RetryLoop { phase: Phase::Done, ..s },
            Action::ReturnAnswer,
        ),
{
}

/// A request whose body is no longer kept is not sent again: its course ends
/// with the answer to the attempt.
pub proof fn committed_body_ends_course(s: RetryLoop)
    ensures
        next(s, EventView::Locked { uncommitted: false }) == (
            RetryLoop { phase: Phase::Done, ..s },
            Action::ReturnAnswer,
        ),
{
}

/// The first attempt is under way, and nothing was sent again yet.
pub proof fn course_starts_afresh(r: RetryLoop)
    requires
        call_ensures(RetryLoop::new, (), r),
    ensures
        r.phase == Phase::Calling,
        r.attempts == 0,
{
}

/// What is done about a failed attempt rests on its chain, whatever its length:
/// while fewer than sixteen retries were made, a failure that shows that the
/// request was never processed goes on to a retry, and any other is answered
/// with. The retries made so far are left as they are.
pub proof fn failed_attempt_is_judged_by_its_chain(
    s: &mut RetryLoop,
    chain: Vec<ErrorLayer<'_>>,
    r: Action,
)
    requires
        call_ensures(RetryLoop::step, (s, Event::Called(Some(chain))), r),
    ensures
        old(s).attempts < 16 && crate::rejection::rejected(chain@) ==> r == Action::Lock
            && final(s).phase == Phase::Locking,
        old(s).attempts >= 16 || !crate::rejection::rejected(chain@) ==> r == Action::ReturnAnswer
            && final(s).phase == Phase::Done,
        final(s).attempts == old(s).attempts,
{
}

/// One more layer around a failure that says nothing of its own, wherever it is
/// put, does not change what is done about the failure.
pub proof fn wrapping_keeps_action(
    s: &mut RetryLoop,
    t: &mut RetryLoop,
    chain: Vec<ErrorLayer<'_>>,
    wrapped: Vec<ErrorLayer<'_>>,
    at: int,
    r: Action,
    again: Action,
)
    requires
        *old(s) == *old(t),
        0 <= at <= chain@.len(),
        wrapped@ == chain@.take(at) + seq![ErrorLayer::Other] + chain@.skip(at),
        call_ensures(RetryLoop::step, (s, Event::Called(Some(chain))), r),
        call_ensures(RetryLoop::step, (t, Event::Called(Some(wrapped))), again),
    ensures
        again == r,
        final(t).phase == final(s).phase,
        final(t).attempts == final(s).attempts,
{
    assert(chain@.take(at) + chain@.skip(at) =~= chain@);
    crate::rejection::plain_layer_keeps_verdict(chain@.take(at), chain@.skip(at));
}

/// A client error whose nearest HTTP/2 error is a GOAWAY without an error code
/// goes on to a retry, however the two are wrapped.
pub proof fn graceful_shutdown_is_retried(
    s: &mut RetryLoop,
    chain: Vec<ErrorLayer<'_>>,
    i: int,
    j: int,
    r: Action,
)
    requires
        call_ensures(RetryLoop::step, (s, Event::Called(Some(chain))), r),
        old(s).attempts < 16,
        0 <= i < j < chain@.len(),
        chain@[i] is Hyper,
        chain@[j] matches ErrorLayer::H2(e) && crate::boundary::h2_go_away(*e)
            && crate::boundary::h2_code(*e) == Some(0u32),
        forall|k: int| i < k < j ==> !(#[trigger] chain@[k] is H2),
    ensures
        r == Action::Lock,
{
    crate::rejection::graceful_shutdown_is_retryable(chain@, i, j);
}

/// An attempt that succeeded is answered with.
pub proof fn success_is_answered_with(s: &mut RetryLoop, r: Action)
    requires
        call_ensures(RetryLoop::step, (s, Event::Called(None)), r),
    ensures
        r == Action::ReturnAnswer,
        final(s).phase == Phase::Done,
        final(s).attempts == old(s).attempts,
{
}

/// With access to the body, a retry is made and counted if the body is still
/// kept; otherwise the failure is answered with.
pub proof fn retry_needs_the_body(s: &mut RetryLoop, uncommitted: bool, r: Action)
    requires
        call_ensures(RetryLoop::step, (s, Event::Locked(uncommitted)), r),
        old(s).attempts < 16,
    ensures
        uncommitted ==> r == Action::AwaitReady && final(s).phase == Phase::Readying
            && final(s).attempts == old(s).attempts + 1,
        !uncommitted ==> r == Action::ReturnAnswer && final(s).phase == Phase::Done
            && final(s).attempts == old(s).attempts,
{
}

/// The request is sent again if the service is ready; otherwise the failure of
/// the service is answered with, not that of the attempt.
pub proof fn retry_needs_the_service(s: &mut RetryLoop, ready: bool, r: Action)
    requires
        call_ensures(RetryLoop::step, (s, Event::Readied(ready)), r),
    ensures
        ready ==> r == Action::Call && final(s).phase == Phase::Calling,
        !ready ==> r == Action::ReturnReadyError && final(s).phase == Phase::Done,
        final(s).attempts == old(s).attempts,
{
}

/// Every event that can come next is taken: the answer to an attempt, access to
/// the body, or the service, whichever the request is waiting for.
pub proof fn awaited_event_is_taken(s: RetryLoop, failure: Option<Vec<ErrorLayer<'_>>>, yes: bool)
    ensures
        expects(s, Event::Called(failure)@) <==> s.phase == Phase::Calling,
        expects(s, Event::Locked(yes)@) <==> s.phase == Phase::Locking,
        expects(s, Event::Readied(yes)@) <==> s.phase == Phase::Readying,
{
}

/// A request that is rejected at every attempt, with its body kept and the
/// service ready each time, is not given up before its limit: when it is
/// answered, it has been sent seventeen times.
pub proof fn rejected_request_is_sent_until_the_limit(
    states: Seq<RetryLoop>,
    events: Seq<EventView>,
)
    requires
        course(states, events),
        forall|k: int|
            0 <= k < events.len() ==> {
                ||| #[trigger] events[k] == (EventView::Called { rejected: true })
                ||| events[k] == (EventView::Locked { uncommitted: true })
                ||| events[k] == (EventView::Readied { ready: true })
            },
        states.last().phase == Phase::Done,
    ensures
        calls(states, events, events.len()) == 17,
        events.len() == 49,
{
    let k = events.len() - 1;
    assert(events.len() > 0);
    lemma_on_course(states, events, k as nat);
    assert(expects(states[k], events[k]) && states[k + 1] == next(states[k], events[k]).0);
    assert(events[k] == (EventView::Called { rejected: true }));
}

/// Preparing a request changes nothing of it: the head is the caller's, and the
/// body is the caller's with nothing read of it. It goes through the service that
/// was ready, and a clone of that takes its place.
pub proof fn prepared_request_is_the_callers<S: Clone>(
    layer: &mut GoawayRetry<S>,
    req: Request<Body>,
    r: PendingCall<S>,
)
    requires
        call_ensures(GoawayRetry::<S>::prepare, (layer, req), r),
    ensures
        r.service == old(layer).inner,
        cloned(old(layer).inner, final(layer).inner),
        r.parts == crate::boundary::incoming_parts(req),
        r.shared@.frames.len() == 0,
        r.shared@.trailers is None,
        crate::boundary::incoming_body(req).kind is Empty ==> r.shared@.body is None,
        crate::boundary::incoming_body(req).kind matches crate::body::Kind::Wrap(body)
            ==> r.shared@.body == Some(body),
{
}

/// A layer sends through the service that it was made around, and its clone
/// through a clone of that service.
pub proof fn layer_keeps_its_service<S: Clone>(inner: S, r: GoawayRetry<S>, other: GoawayRetry<S>)
    requires
        call_ensures(GoawayRetry::<S>::new, (inner,), r),
        call_ensures(<GoawayRetry<S> as Clone>::clone, (&r,), other),
    ensures
        r.inner == inner,
        cloned(inner, other.inner),
{
}

/// An attempt can be made exactly while something is kept in the shared state,
/// and the question whether it is answers the same. Either way of making it gives
/// the caller's head, and the body from the first kept frame on.
pub proof fn attempt_is_made_while_the_body_is_kept(
    parts: &Parts,
    shared: OwnedMutexGuard<Option<BodyShared>>,
    kept: bool,
    r: Option<Request<BodyRef>>,
    req: Request<BodyRef>,
)
    requires
        call_ensures(is_uncommitted, (&shared,), kept),
        call_ensures(try_attempt_request, (parts, shared), r),
        call_ensures(attempt_request, (parts, shared), req) || r == Some(req),
    ensures
        kept == (crate::boundary::guard_contents(shared) is Some),
        r is Some == kept,
        ({
            let sent = crate::boundary::outgoing_parts(req);
            let body = crate::boundary::outgoing_body(req);
            &&& crate::boundary::parts_line(sent) == crate::boundary::parts_line(*parts)
            &&& crate::boundary::parts_headers(sent) == crate::boundary::parts_headers(*parts)
            &&& cloned(*parts, sent)
            &&& body.lock() == Some(crate::boundary::guard_lock(shared))
            &&& body@ == (crate::body::RefView::Uncommitted {
                shared: crate::boundary::guard_contents(shared)->0@,
                next: Some(0),
            })
        }),
{
}

} // verus!
