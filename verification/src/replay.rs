//! What the attempts at one request see of its body, taken together.
use crate::body::{
    asked, asked_end, at_end, buffered, exact, frame_is_given_by_the_count, frame_view, hint_with,
    polled, polled_with, recorded, replay_next, rest_of, said_end, said_size, total,
    total_counts_every_byte, BodyRef, Fields, FrameView, PollFrame, Polled, RefView,
    RepeatedTrailers, SharedView, Status, MAX_BUFFERED,
};
use crate::boundary::{
    body_answered, body_hinted, body_said_end, frame_data, frame_trailers, guard_contents,
    guard_lock,
};
use bytes::Bytes;
use http_body::{Frame, SizeHint};
use http_body_util::combinators::UnsyncBoxBody;
use std::task::Context;
use vstd::prelude::*;

verus! {

/// The kept frames in the order in which they are given again: the data, then
/// the trailers.
pub open spec fn kept(shared: SharedView) -> Seq<FrameView> {
    shared.frames.map_values(|data: Seq<u8>| FrameView::Data(data)) + match shared.trailers {
        Some(fields) => seq![FrameView::Trailers(fields)],
        None => Seq::empty(),
    }
}

/// The position of an attempt lies within the kept frames.
pub open spec fn in_range(v: RefView) -> bool {
    v matches RefView::Uncommitted { shared, next: Some(i) } ==> i <= shared.frames.len()
}

/// The part of the kept frames that an uncommitted attempt has been given.
pub open spec fn given(shared: SharedView, next: Option<nat>) -> Seq<FrameView> {
    match next {
        Some(i) => kept(shared).take(i as int),
        None => kept(shared),
    }
}

/// The frame in an answer, if there is one.
pub open spec fn frame_in(answer: PollFrame) -> Seq<FrameView> {
    match answer {
        PollFrame::Ready(Some(Ok(frame))) => seq![frame_view(frame)],
        _ => Seq::empty(),
    }
}

/// The frames in a series of answers.
pub open spec fn frames_in(answers: Seq<PollFrame>) -> Seq<FrameView>
    decreases answers.len(),
{
    if answers.len() == 0 {
        Seq::empty()
    } else {
        frames_in(answers.drop_last()) + frame_in(answers.last())
    }
}

/// The step does not add data to a body whose trailers were already read.
pub open spec fn orderly(before: RefView, after: RefView) -> bool {
    match (before, after) {
        (
            RefView::Uncommitted { shared: s, .. },
            RefView::Uncommitted { shared: t, .. },
        ) => s.trailers is Some ==> t.frames.len() == s.frames.len(),
        _ => true,
    }
}

/// One attempt: the states it went through, and the answers it was given.
pub struct Attempt {
    /// The states, from the first on.
    pub states: Seq<RefView>,
    /// The answer that led from each state to the next.
    pub answers: Seq<PollFrame>,
}

impl Attempt {
    /// The state after the answer `k` follows from the one before it by a request
    /// for the next frame.
    pub open spec fn answered(self, k: int) -> bool {
        polled(
            self.states[k],
            self.states[k + 1],
            Ok::<PollFrame, RepeatedTrailers>(self.answers[k]),
        )
    }

    /// Each state follows from the one before by a request for the next frame.
    pub open spec fn valid(self) -> bool {
        &&& self.states.len() == self.answers.len() + 1
        &&& forall|k: int| 0 <= k < self.answers.len() ==> #[trigger] self.answered(k)
    }

    /// The attempt is given every frame that `shared` keeps.
    pub open spec fn starts_with(self, shared: SharedView) -> bool {
        self.states.first() == (RefView::Uncommitted { shared, next: Some(0) })
    }

    /// The answer `k` adds no data to a body whose trailers were already read.
    pub open spec fn orderly_at(self, k: int) -> bool {
        orderly(self.states[k], self.states[k + 1])
    }

    /// The body yields no data after its trailers.
    pub open spec fn orderly(self) -> bool {
        forall|k: int| 0 <= k < self.answers.len() ==> #[trigger] self.orderly_at(k)
    }

    /// The attempt without its last answer.
    pub open spec fn drop_last(self) -> Attempt {
        Attempt { states: self.states.drop_last(), answers: self.answers.drop_last() }
    }
}

/// Once an attempt has committed, it stays committed.
pub proof fn commit_is_final(
    before: RefView,
    after: RefView,
    r: Result<PollFrame, RepeatedTrailers>,
)
    requires
        before is Owned,
        polled(before, after, r),
    ensures
        after is Owned,
{
}

/// An attempt that holds the only pointer to the shared state, and has been
/// given every kept frame, commits as soon as it is asked for another.
pub proof fn sole_reader_commits(
    shared: SharedView,
    next: Option<nat>,
    after: RefView,
    r: Result<PollFrame, RepeatedTrailers>,
)
    requires
        replay_next(shared, next).0 is None,
        polled_with(RefView::Uncommitted { shared, next }, 1, after, r),
    ensures
        after is Owned,
{
}

/// An attempt commits only after it has been given every kept frame.
pub proof fn commit_skips_nothing(
    shared: SharedView,
    next: Option<nat>,
    after: RefView,
    r: Result<PollFrame, RepeatedTrailers>,
)
    requires
        in_range(RefView::Uncommitted { shared, next }),
        polled(RefView::Uncommitted { shared, next }, after, r),
        after is Owned,
    ensures
        given(shared, next) == kept(shared),
{
    assert(replay_next(shared, next).0 is None);
    if let Some(i) = next {
        assert(i == shared.frames.len());
        assert(kept(shared).take(i as int) =~= kept(shared));
    }
}

/// Where others still point to the shared state, an attempt commits only because
/// the body failed, because its data would no longer stay below
/// [`MAX_BUFFERED`], or because it yielded a frame that cannot be kept.
pub proof fn commit_has_cause(
    shared: SharedView,
    next: Option<nat>,
    references: usize,
    after: RefView,
    r: Result<PollFrame, RepeatedTrailers>,
)
    requires
        references != 1,
        polled_with(RefView::Uncommitted { shared, next }, references, after, r),
        after is Owned,
    ensures
        r matches Ok(PollFrame::Ready(Some(answer))) && match answer {
            Err(_) => true,
            Ok(frame) => match frame_view(frame) {
                FrameView::Data(data) => total(shared.frames) + data.len() >= MAX_BUFFERED,
                FrameView::Trailers(_) => false,
                FrameView::Unknown => true,
            },
        },
{
}

/// What the shared body became and answered, and whether it said that it had
/// ended, when an attempt that shares it asked it.
proof fn lemma_live_step(
    shared: SharedView,
    next: Option<nat>,
    after: RefView,
    r: Result<PollFrame, RepeatedTrailers>,
) -> (live: (Option<UnsyncBoxBody<Bytes, Status>>, PollFrame, bool))
    requires
        replay_next(shared, next).0 is None,
        exists|references: usize|
            references != 1 && #[trigger] polled_with(
                RefView::Uncommitted { shared, next },
                references,
                after,
                r,
            ),
    ensures
        asked(shared.body, live.0, live.1),
        asked_end(live.0, live.1, live.2),
        (after, r) == recorded(SharedView { body: live.0, ..shared }, live.1, live.2),
{
    choose|rest: Option<UnsyncBoxBody<Bytes, Status>>, answer: PollFrame, ended: bool|
        asked(shared.body, rest, answer) && asked_end(rest, answer, ended) && (after, r)
            == #[trigger] recorded(SharedView { body: rest, ..shared }, answer, ended)
}

/// What is kept is never changed or dropped while it is kept: the data frames
/// only grow at their end, and trailers that were read stay.
pub proof fn kept_frames_stay(
    shared: SharedView,
    next: Option<nat>,
    later: SharedView,
    position: Option<nat>,
    r: Result<PollFrame, RepeatedTrailers>,
)
    requires
        polled(
            RefView::Uncommitted { shared, next },
            RefView::Uncommitted { shared: later, next: position },
            r,
        ),
    ensures
        shared.frames.is_prefix_of(later.frames),
        shared.trailers is Some ==> later.trailers == shared.trailers,
{
    if replay_next(shared, next).0 is None {
        lemma_live_step(
            shared,
            next,
            RefView::Uncommitted { shared: later, next: position },
            r,
        );
    }
    assert(shared.frames.is_prefix_of(later.frames));
}

/// The data that is kept stays below its limit.
pub proof fn buffer_stays_bounded(
    shared: SharedView,
    next: Option<nat>,
    later: SharedView,
    position: Option<nat>,
    r: Result<PollFrame, RepeatedTrailers>,
)
    requires
        total(shared.frames) < MAX_BUFFERED,
        polled(
            RefView::Uncommitted { shared, next },
            RefView::Uncommitted { shared: later, next: position },
            r,
        ),
    ensures
        total(later.frames) < MAX_BUFFERED,
{
    if replay_next(shared, next).0 is None {
        lemma_live_step(
            shared,
            next,
            RefView::Uncommitted { shared: later, next: position },
            r,
        );
        if later.frames != shared.frames {
            assert(later.frames.drop_last() =~= shared.frames);
        }
    }
}

/// An uncommitted attempt has been given exactly the kept frames up to its
/// position: each answer adds the frame that is in it.
///
/// This leaves out a body that yields data after its trailers: the data is kept
/// before the trailers.
pub proof fn answer_extends_given(
    shared: SharedView,
    next: Option<nat>,
    later: SharedView,
    position: Option<nat>,
    answer: PollFrame,
)
    requires
        in_range(RefView::Uncommitted { shared, next }),
        polled(
            RefView::Uncommitted { shared, next },
            RefView::Uncommitted { shared: later, next: position },
            Ok(answer),
        ),
        orderly(
            RefView::Uncommitted { shared, next },
            RefView::Uncommitted { shared: later, next: position },
        ),
    ensures
        in_range(RefView::Uncommitted { shared: later, next: position }),
        given(later, position) == given(shared, next) + frame_in(answer),
{
    let as_data = |data: Seq<u8>| FrameView::Data(data);
    match replay_next(shared, next) {
        (Some(_), _) => {
            let i = next->0;
            if i < shared.frames.len() {
                assert(given(later, position) =~= given(shared, next) + frame_in(answer));
            } else {
                assert(kept(shared) =~= kept(shared).take(i as int) + frame_in(answer));
            }
        },
        (None, _) => {
            assert(given(shared, next) =~= kept(shared));
            lemma_live_step(
                shared,
                next,
                RefView::Uncommitted { shared: later, next: position },
                Ok(answer),
            );
            if later.frames.len() > shared.frames.len() {
                assert(later.frames.map_values(as_data) =~= shared.frames.map_values(as_data)
                    + frame_in(answer));
            }
            assert(kept(later) =~= kept(shared) + frame_in(answer));
        },
    }
}

proof fn lemma_drop_last(attempt: Attempt)
    requires
        attempt.valid(),
        attempt.answers.len() > 0,
    ensures
        attempt.drop_last().valid(),
        attempt.orderly() ==> attempt.drop_last().orderly(),
        attempt.drop_last().states.first() == attempt.states.first(),
        attempt.drop_last().states.last() == attempt.states[attempt.answers.len() - 1],
        polled(
            attempt.drop_last().states.last(),
            attempt.states.last(),
            Ok::<PollFrame, RepeatedTrailers>(attempt.answers.last()),
        ),
        attempt.orderly() ==> orderly(attempt.drop_last().states.last(), attempt.states.last()),
{
    let n = attempt.answers.len() as int;
    let shorter = attempt.drop_last();
    assert(attempt.answered(n - 1));
    assert forall|k: int| 0 <= k < shorter.answers.len() implies #[trigger] shorter.answered(k) by {
        assert(attempt.answered(k));
    }
    if attempt.orderly() {
        assert(attempt.orderly_at(n - 1));
        assert forall|k: int| 0 <= k < shorter.answers.len() implies #[trigger] shorter.orderly_at(
            k,
        ) by {
            assert(attempt.orderly_at(k));
        }
    }
}

/// What an attempt that has not committed was given, over all its answers, is
/// exactly the part of the kept frames before its position.
///
/// This leaves out a body that yields data after its trailers.
pub proof fn attempt_reads_kept_frames(
    attempt: Attempt,
    first: SharedView,
    shared: SharedView,
    next: Option<nat>,
)
    requires
        attempt.valid(),
        attempt.orderly(),
        attempt.starts_with(first),
        attempt.states.last() == (RefView::Uncommitted { shared, next }),
    ensures
        in_range(attempt.states.last()),
        frames_in(attempt.answers) == given(shared, next),
    decreases attempt.answers.len(),
{
    let n = attempt.answers.len() as int;
    if n == 0 {
        assert(attempt.states.first() == attempt.states.last());
        assert(given(shared, next) =~= Seq::<FrameView>::empty());
    } else {
        let shorter = attempt.drop_last();
        let before = attempt.states[n - 1];
        assert(attempt.answered(n - 1));
        assert(before is Uncommitted);
        lemma_drop_last(attempt);
        let s = before->Uncommitted_shared;
        let i = before->Uncommitted_next;
        attempt_reads_kept_frames(shorter, first, s, i);
        assert(attempt.orderly_at(n - 1));
        answer_extends_given(s, i, shared, next, attempt.answers.last());
    }
}

/// An attempt is first given every frame that was kept when it began, one with
/// each answer, in order, and nothing else in between.
pub proof fn attempt_starts_with_kept_frames(attempt: Attempt, shared: SharedView, k: int)
    requires
        attempt.valid(),
        attempt.starts_with(shared),
        0 <= k < attempt.answers.len(),
        k < kept(shared).len(),
    ensures
        frame_in(attempt.answers[k]) == seq![kept(shared)[k]],
        attempt.states[k + 1] == (RefView::Uncommitted {
            shared,
            next: if k < shared.frames.len() {
                Some((k + 1) as nat)
            } else {
                None
            },
        }),
    decreases k,
{
    if k > 0 {
        attempt_starts_with_kept_frames(attempt, shared, k - 1);
    }
    assert(attempt.states[k] == (RefView::Uncommitted { shared, next: Some(k as nat) }));
    assert(attempt.answered(k));
    assert(kept(shared)[k] == replay_next(shared, Some(k as nat)).0->0);
}

/// A retry repeats the attempt before it: it is given the frames that the other
/// was given, in the same order and from the first on, one with each answer.
///
/// This leaves out a body that yields data after its trailers.
pub proof fn retry_repeats_attempt(
    attempt: Attempt,
    first: SharedView,
    shared: SharedView,
    next: Option<nat>,
    retry: Attempt,
    k: int,
)
    requires
        attempt.valid(),
        attempt.orderly(),
        attempt.starts_with(first),
        attempt.states.last() == (RefView::Uncommitted { shared, next }),
        retry.valid(),
        retry.starts_with(shared),
        0 <= k < frames_in(attempt.answers).len(),
        k < retry.answers.len(),
    ensures
        frame_in(retry.answers[k]) == seq![frames_in(attempt.answers)[k]],
{
    attempt_reads_kept_frames(attempt, first, shared, next);
    attempt_starts_with_kept_frames(retry, shared, k);
}

/// A data frame that is given again is no longer counted among the bytes that
/// are still to be given.
pub proof fn replay_shrinks_buffer(shared: SharedView, i: nat)
    requires
        i < shared.frames.len(),
    ensures
        replay_next(shared, Some(i)) == (
            Some(FrameView::Data(shared.frames[i as int])),
            Some(i + 1),
        ),
        buffered(RefView::Uncommitted { shared, next: Some(i) }) == buffered(
            RefView::Uncommitted { shared, next: Some(i + 1) },
        ) + shared.frames[i as int].len(),
{
    assert(shared.frames.take(i as int + 1).drop_last() =~= shared.frames.take(i as int));
}

/// A new attempt is to be given all the data that is kept.
pub proof fn new_attempt_buffers_everything(shared: SharedView)
    ensures
        buffered(RefView::Uncommitted { shared, next: Some(0) }) == total(shared.frames),
{
    assert(shared.frames.take(0) =~= Seq::<Seq<u8>>::empty());
}

/// The bounds that an attempt reports are in order if those of the body are.
pub proof fn size_hint_in_order(r: SizeHint, body: SizeHint, ahead: int)
    requires
        ahead >= 0,
        hint_with(r, body, ahead),
        crate::boundary::hint_upper(body) matches Some(upper) ==> crate::boundary::hint_lower(body)
            <= upper,
    ensures
        crate::boundary::hint_upper(r) matches Some(upper) ==> crate::boundary::hint_lower(r)
            <= upper,
{
}

/// An attempt that says it is at its end, and whose body has ended, is given no
/// further frame.
pub proof fn end_of_stream_holds(
    before: RefView,
    ended: bool,
    after: RefView,
    r: Result<PollFrame, RepeatedTrailers>,
)
    requires
        at_end(before, ended),
        rest_of(before) is None,
        polled(before, after, r),
    ensures
        r == Ok::<PollFrame, RepeatedTrailers>(PollFrame::Ready(None)),
        at_end(after, ended),
        rest_of(after) is None,
{
}

/// A live answer, one that is not a frame given again, is what the body answered
/// when it was asked once. What the body became then is what the attempt, or the
/// attempts together, go on with, unless it has ended.
pub proof fn live_answer_is_the_bodys(
    shared: SharedView,
    next: Option<nat>,
    references: usize,
    after: RefView,
    answer: PollFrame,
)
    requires
        replay_next(shared, next).0 is None,
        shared.body is Some,
        polled_with(RefView::Uncommitted { shared, next }, references, after, Ok(answer)),
    ensures
        exists|rest: UnsyncBoxBody<Bytes, Status>| #[trigger]
            body_answered(shared.body->0, rest, answer) && (rest_of(after) == Some(rest) || rest_of(
                after,
            ) is None),
{
}

/// An attempt that shares the body with others is pending only if the body,
/// asked once, is; nothing that is kept changes then.
pub proof fn pending_is_the_bodys(
    shared: SharedView,
    next: Option<nat>,
    references: usize,
    after: RefView,
)
    requires
        references != 1,
        polled_with(
            RefView::Uncommitted { shared, next },
            references,
            after,
            Ok(PollFrame::Pending),
        ),
    ensures
        replay_next(shared, next).0 is None,
        shared.body is Some,
        after matches RefView::Uncommitted { shared: later, next: None } && {
            &&& later.body is Some
            &&& body_answered(shared.body->0, later.body->0, PollFrame::Pending)
            &&& later == (SharedView { body: later.body, ..shared })
        },
{
}

/// What became of a body that was asked for one frame after another.
pub struct History {
    /// The body to begin with, if it has not ended.
    pub source: Option<UnsyncBoxBody<Bytes, Status>>,
    /// The body after each request.
    pub bodies: Seq<UnsyncBoxBody<Bytes, Status>>,
    /// The answer to each request.
    pub answers: Seq<PollFrame>,
}

impl History {
    /// The body before the request `k`.
    pub open spec fn before(self, k: int) -> Option<UnsyncBoxBody<Bytes, Status>> {
        if k == 0 {
            self.source
        } else {
            Some(self.bodies[k - 1])
        }
    }

    /// The body as it is now.
    pub open spec fn current(self) -> Option<UnsyncBoxBody<Bytes, Status>> {
        self.before(self.bodies.len() as int)
    }

    /// Each request was made once, of the body that the one before it left.
    pub open spec fn valid(self) -> bool {
        &&& self.bodies.len() == self.answers.len()
        &&& forall|k: int|
            0 <= k < self.answers.len() ==> {
                &&& #[trigger] self.before(k) is Some
                &&& body_answered(self.before(k)->0, self.bodies[k], self.answers[k])
            }
    }

    /// No frame is left: there was no body, or its last answer was its end, or
    /// it says of itself that it has ended.
    pub open spec fn finished(self) -> bool {
        ||| self.current() is None
        ||| self.answers.len() > 0 && self.answers.last() == PollFrame::Ready(None)
        ||| body_said_end(self.current()->0, true)
    }

    /// One more request.
    pub open spec fn push(
        self,
        body: UnsyncBoxBody<Bytes, Status>,
        answer: PollFrame,
    ) -> History {
        History { bodies: self.bodies.push(body), answers: self.answers.push(answer), ..self }
    }

    /// The other history goes on from this one.
    pub open spec fn extends_to(self, later: History) -> bool {
        &&& self.source == later.source
        &&& self.bodies.is_prefix_of(later.bodies)
        &&& self.answers.is_prefix_of(later.answers)
    }
}

/// An attempt in the state `v`, which has been given `frames`, fits what became
/// of the body.
///
/// What is kept are all the frames that the body has yielded. The attempt has
/// been given those up to its position, or all of them if it has committed. The
/// rest comes from the body as it is now, or the body is finished.
pub open spec fn fits(v: RefView, frames: Seq<FrameView>, history: History) -> bool {
    &&& history.valid()
    &&& in_range(v)
    &&& match rest_of(v) {
        Some(body) => history.current() == Some(body),
        None => history.finished(),
    }
    &&& match v {
        RefView::Uncommitted { shared, next } => {
            &&& kept(shared) == frames_in(history.answers)
            &&& frames == given(shared, next)
        },
        RefView::Owned(_) => frames == frames_in(history.answers),
    }
}

proof fn lemma_push(history: History, body: UnsyncBoxBody<Bytes, Status>, answer: PollFrame)
    requires
        history.valid(),
        history.current() is Some,
        body_answered(history.current()->0, body, answer),
    ensures
        history.push(body, answer).valid(),
        history.push(body, answer).current() == Some(body),
        frames_in(history.push(body, answer).answers) == frames_in(history.answers) + frame_in(
            answer,
        ),
        history.extends_to(history.push(body, answer)),
{
    let later = history.push(body, answer);
    assert(later.answers.drop_last() =~= history.answers);
    assert forall|k: int| 0 <= k < later.answers.len() implies #[trigger] later.before(k) is Some
        && body_answered(later.before(k)->0, later.bodies[k], later.answers[k]) by {
        assert(later.before(k) == history.before(k));
        if k < history.answers.len() {
            assert(later.answers[k] == history.answers[k]);
        }
    }
}

/// Each answer that an attempt gives is either a frame that the body yielded
/// before, given again, or what the body answered when it was asked once more;
/// or the body is finished and the attempt says so. Whether the attempt commits
/// makes no difference.
///
/// This leaves out a body that yields data after its trailers.
pub proof fn answer_extends_history(
    before: RefView,
    after: RefView,
    answer: PollFrame,
    frames: Seq<FrameView>,
    history: History,
) -> (later: History)
    requires
        fits(before, frames, history),
        polled(before, after, Ok(answer)),
        orderly(before, after),
    ensures
        fits(after, frames + frame_in(answer), later),
        history.extends_to(later),
        later.answers == history.answers || later.answers == history.answers.push(answer),
        answer == PollFrame::Ready(None) ==> later.finished() && frames + frame_in(answer)
            == frames_in(later.answers),
{
    let references = choose|references: usize| #[trigger]
        polled_with(before, references, after, Ok::<PollFrame, RepeatedTrailers>(answer));
    match before {
        RefView::Owned(None) => {
            assert(frames + frame_in(answer) =~= frames);
            history
        },
        RefView::Owned(Some(_)) => {
            let rest = rest_of(after)->0;
            lemma_push(history, rest, answer);
            history.push(rest, answer)
        },
        RefView::Uncommitted { shared, next } => {
            if replay_next(shared, next).0 is Some {
                answer_extends_given(
                    shared,
                    next,
                    after->Uncommitted_shared,
                    after->Uncommitted_next,
                    answer,
                );
                history
            } else {
                assert(given(shared, next) =~= kept(shared));
                if references == 1 {
                    if shared.body is None {
                        assert(frames + frame_in(answer) =~= frames);
                        history
                    } else {
                        let rest = rest_of(after)->0;
                        lemma_push(history, rest, answer);
                        history.push(rest, answer)
                    }
                } else {
                    let (rest, _, _) = lemma_live_step(shared, next, after, Ok(answer));
                    if after is Uncommitted {
                        answer_extends_given(
                            shared,
                            next,
                            after->Uncommitted_shared,
                            after->Uncommitted_next,
                            answer,
                        );
                    }
                    if shared.body is None {
                        assert(frames + frame_in(answer) =~= frames);
                        history
                    } else {
                        lemma_push(history, rest->0, answer);
                        history.push(rest->0, answer)
                    }
                }
            }
        },
    }
}

/// As [`answer_extends_history`], over all answers of an attempt.
///
/// This leaves out a body that yields data after its trailers.
pub proof fn attempt_extends_history(attempt: Attempt, history: History) -> (later: History)
    requires
        attempt.valid(),
        attempt.orderly(),
        fits(attempt.states.first(), Seq::empty(), history),
    ensures
        fits(attempt.states.last(), frames_in(attempt.answers), later),
        history.extends_to(later),
        attempt.answers.len() > 0 && attempt.answers.last() == PollFrame::Ready(None)
            ==> later.finished() && frames_in(attempt.answers) == frames_in(later.answers),
    decreases attempt.answers.len(),
{
    if attempt.answers.len() == 0 {
        assert(attempt.states.first() == attempt.states.last());
        history
    } else {
        let shorter = attempt.drop_last();
        lemma_drop_last(attempt);
        let between = attempt_extends_history(shorter, history);
        answer_extends_history(
            shorter.states.last(),
            attempt.states.last(),
            attempt.answers.last(),
            frames_in(shorter.answers),
            between,
        )
    }
}

proof fn lemma_frames_prefix(earlier: Seq<PollFrame>, later: Seq<PollFrame>)
    requires
        earlier.is_prefix_of(later),
    ensures
        frames_in(earlier).is_prefix_of(frames_in(later)),
    decreases later.len(),
{
    if earlier.len() == later.len() {
        assert(earlier =~= later);
    } else {
        assert(earlier.is_prefix_of(later.drop_last()));
        lemma_frames_prefix(earlier, later.drop_last());
    }
}

/// The attempt `i` begins with what the one before it left, which has not
/// committed.
pub open spec fn follows(attempts: Seq<Attempt>, i: int) -> bool {
    &&& attempts[i - 1].states.last() matches RefView::Uncommitted { shared, .. }
    &&& attempts[i].starts_with(shared)
}

/// Attempts at one request, one after another: the first begins with `first`,
/// and each of the others with what the one before it left, which has not
/// committed. The body yields no data after its trailers.
pub open spec fn in_turn(attempts: Seq<Attempt>, first: SharedView) -> bool {
    &&& attempts.len() > 0
    &&& attempts.first().starts_with(first)
    &&& forall|i: int|
        0 <= i < attempts.len() ==> (#[trigger] attempts[i]).valid() && attempts[i].orderly()
    &&& forall|i: int| 0 < i < attempts.len() ==> #[trigger] follows(attempts, i)
}

/// What the attempts at a request are given is the caller's body.
///
/// Over all attempts the body is asked for one frame after another, each time
/// the body that the request before left, so no frame is taken from it twice.
/// Every attempt is given a first part of the frames that it yields, in order,
/// none lost and none repeated, whether or not the attempt commits. An attempt
/// that is told of the end has been given all of them, and the body is finished.
///
/// This leaves out a body that yields data after its trailers: a retry would be
/// given the data first.
pub proof fn attempts_are_given_the_body(attempts: Seq<Attempt>, first: SharedView) -> (history:
    History)
    requires
        in_turn(attempts, first),
        first.frames.len() == 0,
        first.trailers is None,
    ensures
        history.valid(),
        history.source == first.body,
        forall|i: int|
            0 <= i < attempts.len() ==> #[trigger] frames_in(attempts[i].answers).is_prefix_of(
                frames_in(history.answers),
            ),
        fits(attempts.last().states.last(), frames_in(attempts.last().answers), history),
        attempts.last().answers.len() > 0 && attempts.last().answers.last() == PollFrame::Ready(
            None,
        ) ==> history.finished() && frames_in(attempts.last().answers) == frames_in(
            history.answers,
        ),
    decreases attempts.len(),
{
    let last = attempts.last();
    assert(attempts[attempts.len() - 1] == last);
    if attempts.len() == 1 {
        let start = History { source: first.body, bodies: Seq::empty(), answers: Seq::empty() };
        assert(kept(first) =~= Seq::<FrameView>::empty());
        assert(given(first, Some(0)) =~= Seq::<FrameView>::empty());
        let history = attempt_extends_history(last, start);
        lemma_given_prefix(last.states.last(), frames_in(last.answers), history);
        history
    } else {
        let others = attempts.drop_last();
        let before = others.last();
        assert(others.first() == attempts.first());
        assert forall|i: int| 0 <= i < others.len() implies (#[trigger] others[i]).valid()
            && others[i].orderly() by {
            assert(others[i] == attempts[i]);
        }
        assert forall|i: int| 0 < i < others.len() implies #[trigger] follows(others, i) by {
            assert(follows(attempts, i));
        }
        let between = attempts_are_given_the_body(others, first);
        assert(follows(attempts, attempts.len() - 1));
        let shared = before.states.last()->Uncommitted_shared;
        assert(given(shared, Some(0)) =~= Seq::<FrameView>::empty());
        let history = attempt_extends_history(last, between);
        lemma_given_prefix(last.states.last(), frames_in(last.answers), history);
        lemma_frames_prefix(between.answers, history.answers);
        assert forall|i: int| 0 <= i < attempts.len() implies #[trigger] frames_in(
            attempts[i].answers,
        ).is_prefix_of(frames_in(history.answers)) by {
            if i < others.len() {
                assert(others[i] == attempts[i]);
                assert(frames_in(others[i].answers).is_prefix_of(frames_in(between.answers)));
            }
        }
        history
    }
}

proof fn lemma_given_prefix(v: RefView, frames: Seq<FrameView>, history: History)
    requires
        fits(v, frames, history),
    ensures
        frames.is_prefix_of(frames_in(history.answers)),
{
}

/// If the body says that it has ended, it yields no further frame.
pub open spec fn keeps_word(body: UnsyncBoxBody<Bytes, Status>) -> bool {
    body_said_end(body, true) ==> forall|
        rest: UnsyncBoxBody<Bytes, Status>,
        answer: PollFrame,
    | #[trigger]
        body_answered(body, rest, answer) ==> answer == PollFrame::Ready(None)
}

/// An attempt that says it is at its end cuts off no frame: if a body that says
/// it has ended keeps its word, the next answer is the end.
pub proof fn end_cuts_off_nothing(
    before: RefView,
    after: RefView,
    r: Result<PollFrame, RepeatedTrailers>,
)
    requires
        said_end(before, true),
        rest_of(before) matches Some(body) ==> keeps_word(body),
        polled(before, after, r),
    ensures
        r == Ok::<PollFrame, RepeatedTrailers>(PollFrame::Ready(None)),
{
}

/// An attempt that has not committed and has just answered that there is no
/// further frame says that it is at its end.
pub proof fn answered_end_is_said(before: RefView, after: RefView, r: bool)
    requires
        polled(before, after, Ok(PollFrame::Ready(None))),
        after is Uncommitted,
        said_end(after, r),
    ensures
        r,
{
}

/// How much data is in an answer.
pub open spec fn data_in(answer: PollFrame) -> nat {
    match answer {
        PollFrame::Ready(Some(Ok(frame))) => match frame_view(frame) {
            FrameView::Data(data) => data.len(),
            _ => 0,
        },
        _ => 0,
    }
}

/// Bodies that know how much data they have left: whatever bounds one of them
/// gives are exactly that, each answer lowers it by the data in it, and at the
/// end nothing is left.
pub open spec fn exact_source(
    member: spec_fn(UnsyncBoxBody<Bytes, Status>) -> bool,
    left: spec_fn(UnsyncBoxBody<Bytes, Status>) -> nat,
) -> bool {
    &&& forall|body: UnsyncBoxBody<Bytes, Status>, hint: SizeHint|
        member(body) && #[trigger] body_hinted(body, hint) ==> exact(hint, left(body) as int)
    &&& forall|
        body: UnsyncBoxBody<Bytes, Status>,
        rest: UnsyncBoxBody<Bytes, Status>,
        answer: PollFrame,
    |
        member(body) && #[trigger] body_answered(body, rest, answer) ==> {
            &&& member(rest)
            &&& left(body) == left(rest) + data_in(answer)
            &&& answer == PollFrame::Ready(None) ==> left(rest) == 0
        }
    &&& forall|body: UnsyncBoxBody<Bytes, Status>|
        member(body) && #[trigger] body_said_end(body, true) ==> left(body) == 0
}

/// How much data the body of a request has in all: what is kept of it, and what
/// it has left.
pub open spec fn length(
    shared: SharedView,
    left: spec_fn(UnsyncBoxBody<Bytes, Status>) -> nat,
) -> nat {
    total(shared.frames) + match shared.body {
        Some(body) => left(body),
        None => 0,
    }
}

proof fn lemma_length_stays(
    attempt: Attempt,
    first: SharedView,
    shared: SharedView,
    next: Option<nat>,
    member: spec_fn(UnsyncBoxBody<Bytes, Status>) -> bool,
    left: spec_fn(UnsyncBoxBody<Bytes, Status>) -> nat,
)
    requires
        exact_source(member, left),
        first.body matches Some(body) ==> member(body),
        attempt.valid(),
        attempt.starts_with(first),
        attempt.states.last() == (RefView::Uncommitted { shared, next }),
    ensures
        shared.body matches Some(body) ==> member(body),
        length(shared, left) == length(first, left),
    decreases attempt.answers.len(),
{
    if attempt.answers.len() == 0 {
        assert(attempt.states.first() == attempt.states.last());
    } else {
        lemma_drop_last(attempt);
        let before = attempt.drop_last().states.last();
        assert(before is Uncommitted);
        let s = before->Uncommitted_shared;
        let i = before->Uncommitted_next;
        lemma_length_stays(attempt.drop_last(), first, s, i, member, left);
        let r = Ok::<PollFrame, RepeatedTrailers>(attempt.answers.last());
        if replay_next(s, i).0 is None {
            lemma_live_step(s, i, RefView::Uncommitted { shared, next }, r);
            if shared.frames != s.frames {
                assert(shared.frames.drop_last() =~= s.frames);
            }
        }
    }
}

/// A retry announces the length that the attempt before it announced at its
/// start, if the body knows how much data it has left.
pub proof fn retry_announces_same_length(
    attempt: Attempt,
    first: SharedView,
    shared: SharedView,
    next: Option<nat>,
    member: spec_fn(UnsyncBoxBody<Bytes, Status>) -> bool,
    left: spec_fn(UnsyncBoxBody<Bytes, Status>) -> nat,
    n: int,
    announced: SizeHint,
    again: SizeHint,
)
    requires
        exact_source(member, left),
        first.body matches Some(body) ==> member(body),
        attempt.valid(),
        attempt.starts_with(first),
        attempt.states.last() == (RefView::Uncommitted { shared, next }),
        said_size(RefView::Uncommitted { shared: first, next: Some(0) }, announced),
        exact(announced, n),
        said_size(RefView::Uncommitted { shared, next: Some(0) }, again),
    ensures
        exact(again, n),
{
    lemma_length_stays(attempt, first, shared, next, member, left);
    new_attempt_buffers_everything(first);
    new_attempt_buffers_everything(shared);
}

/// While a kept data frame is left, the answer is that frame, and nothing else
/// happens: the attempt moves on by one frame, and keeps what it shares.
pub proof fn kept_data_is_given_again(
    shared: SharedView,
    i: nat,
    after: RefView,
    r: Result<PollFrame, RepeatedTrailers>,
)
    requires
        i < shared.frames.len(),
        polled(RefView::Uncommitted { shared, next: Some(i) }, after, r),
    ensures
        r matches Ok(PollFrame::Ready(Some(Ok(frame)))) && frame_data(frame) == Some(
            shared.frames[i as int],
        ),
        after == (RefView::Uncommitted { shared, next: Some(i + 1) }),
{
}

/// Once the kept data was given again, the answer are the kept trailers, once.
pub proof fn kept_trailers_are_given_again(
    shared: SharedView,
    i: nat,
    fields: Fields,
    after: RefView,
    r: Result<PollFrame, RepeatedTrailers>,
)
    requires
        i >= shared.frames.len(),
        shared.trailers == Some(fields),
        polled(RefView::Uncommitted { shared, next: Some(i) }, after, r),
    ensures
        r matches Ok(PollFrame::Ready(Some(Ok(frame)))) && frame_data(frame) is None
            && frame_trailers(frame) == Some(fields),
        after == (RefView::Uncommitted { shared, next: None }),
{
}

/// A new attempt that is asked often enough is given all that is kept, one frame
/// with each answer, whatever it is answered later: the data in order, then the
/// trailers. None of these answers is an error, and none is left out.
pub proof fn new_attempt_is_given_all_that_is_kept(
    shared: SharedView,
    states: Seq<RefView>,
    answers: Seq<Result<PollFrame, RepeatedTrailers>>,
    k: int,
)
    requires
        states.len() == answers.len() + 1,
        states[0] == (RefView::Uncommitted { shared, next: Some(0) }),
        forall|j: int|
            0 <= j < answers.len() ==> polled(states[j], states[j + 1], #[trigger] answers[j]),
        0 <= k < answers.len(),
    ensures
        k < shared.frames.len() ==> (answers[k] matches Ok(PollFrame::Ready(Some(Ok(frame))))
            && frame_data(frame) == Some(shared.frames[k])),
        k == shared.frames.len() && shared.trailers is Some ==> (answers[k] matches Ok(
            PollFrame::Ready(Some(Ok(frame))),
        ) && frame_data(frame) is None && frame_trailers(frame) == shared.trailers),
        k < shared.frames.len() ==> states[k + 1] == (RefView::Uncommitted {
            shared,
            next: Some((k + 1) as nat),
        }),
    decreases k,
{
    if k > 0 {
        new_attempt_is_given_all_that_is_kept(shared, states, answers, k - 1);
    }
    assert(polled(states[k], states[k + 1], answers[k]));
    if k < shared.frames.len() {
        kept_data_is_given_again(shared, k as nat, states[k + 1], answers[k]);
    } else if k == shared.frames.len() && shared.trailers is Some {
        kept_trailers_are_given_again(
            shared,
            k as nat,
            shared.trailers->0,
            states[k + 1],
            answers[k],
        );
    }
}

/// Repeated trailers are reported only if trailers were already kept, every kept
/// frame was given again, and the body, asked once, answered with trailers.
/// What is kept stays as it is.
pub proof fn repeated_trailers_have_cause(
    before: RefView,
    after: RefView,
    r: Result<PollFrame, RepeatedTrailers>,
) -> (live: (UnsyncBoxBody<Bytes, Status>, Frame<Bytes>))
    requires
        polled(before, after, r),
        r is Err,
    ensures
        before matches RefView::Uncommitted { shared, next } && {
            &&& next is None
            &&& shared.trailers is Some
            &&& shared.body matches Some(body)
            &&& body_answered(body, live.0, PollFrame::Ready(Some(Ok(live.1))))
            &&& frame_data(live.1) is None
            &&& frame_trailers(live.1) is Some
            &&& after matches RefView::Uncommitted { shared: later, next: None }
            &&& later.frames == shared.frames
            &&& later.trailers == shared.trailers
            &&& later.body == Some(live.0) && body_said_end(live.0, false) || later.body is None
                && body_said_end(live.0, true)
        },
{
    let shared = before->Uncommitted_shared;
    let (rest, answer, _) = lemma_live_step(shared, before->Uncommitted_next, after, r);
    (rest->0, answer->0->0->Ok_0)
}

/// An attempt that shares the body, and has been given trailers, hands no further
/// trailers on.
pub proof fn trailers_are_handed_on_once(
    shared: SharedView,
    references: usize,
    after: RefView,
    frame: Frame<Bytes>,
)
    requires
        references != 1,
        shared.trailers is Some,
        polled_with(
            RefView::Uncommitted { shared, next: None },
            references,
            after,
            Ok(PollFrame::Ready(Some(Ok(frame)))),
        ),
    ensures
        frame_data(frame) is Some || frame_trailers(frame) is None,
{
    lemma_live_step(shared, None, after, Ok(PollFrame::Ready(Some(Ok(frame)))));
}

/// An attempt that is answered with an error of the body has committed: nobody
/// is given the frames before the error without it.
pub proof fn body_error_commits(before: RefView, after: RefView, error: Status)
    requires
        polled(before, after, Ok(PollFrame::Ready(Some(Err(error))))),
    ensures
        after matches RefView::Owned(Some(rest)) && match before {
            RefView::Uncommitted { shared, .. } => shared.body matches Some(body) && body_answered(
                body,
                rest,
                PollFrame::Ready(Some(Err(error))),
            ),
            RefView::Owned(body) => body is Some && body_answered(
                body->0,
                rest,
                PollFrame::Ready(Some(Err(error))),
            ),
        },
{
}

pub(crate) proof fn lemma_owned_stays(attempt: Attempt, k: int)
    requires
        attempt.valid(),
        0 <= k < attempt.states.len(),
        attempt.states[k] is Owned,
    ensures
        attempt.states.last() is Owned,
    decreases attempt.states.len() - k,
{
    if k + 1 < attempt.states.len() {
        assert(attempt.answered(k));
        lemma_owned_stays(attempt, k + 1);
    }
}

/// An attempt that leaves its frames to a later one was never answered with an
/// error, nor with a frame that is neither data nor trailers.
pub proof fn kept_attempt_saw_no_error(attempt: Attempt, k: int)
    requires
        attempt.valid(),
        attempt.states.last() is Uncommitted,
        0 <= k < attempt.answers.len(),
    ensures
        !(attempt.answers[k] matches PollFrame::Ready(Some(Err(_)))),
        attempt.answers[k] matches PollFrame::Ready(Some(Ok(frame))) ==> frame_data(frame) is Some
            || frame_trailers(frame) is Some,
{
    assert(attempt.answered(k));
    if attempt.states[k + 1] is Owned {
        lemma_owned_stays(attempt, k + 1);
    }
}

/// An attempt that shares the body, and has been given every kept frame, keeps
/// the data that the body then yields, behind the other data, as long as all of
/// it stays below 256 KiB; with more it commits. The body goes on, unless it
/// says that it has ended.
pub proof fn live_data_is_kept_below_the_limit(
    shared: SharedView,
    next: Option<nat>,
    references: usize,
    after: RefView,
    frame: Frame<Bytes>,
    data: Seq<u8>,
)
    requires
        references != 1,
        next matches Some(i) ==> i >= shared.frames.len() && shared.trailers is None,
        frame_data(frame) == Some(data),
        polled_with(
            RefView::Uncommitted { shared, next },
            references,
            after,
            Ok(PollFrame::Ready(Some(Ok(frame)))),
        ),
    ensures
        shared.body is Some,
        shared.frames.flatten().len() + data.len() < 262144 ==> {
            &&& after matches RefView::Uncommitted { shared: later, next: None }
            &&& later.frames == shared.frames.push(data)
            &&& later.trailers == shared.trailers
        },
        shared.frames.flatten().len() + data.len() >= 262144 ==> after is Owned,
        exists|rest: UnsyncBoxBody<Bytes, Status>| #[trigger]
            body_answered(shared.body->0, rest, PollFrame::Ready(Some(Ok(frame)))) && match after {
                RefView::Uncommitted { shared: later, .. } => later.body == Some(rest)
                    && body_said_end(rest, false) || later.body is None && body_said_end(
                    rest,
                    true,
                ),
                RefView::Owned(left) => left == Some(rest) && body_said_end(rest, false) || left
                    is None && body_said_end(rest, true),
            },
{
    total_counts_every_byte(shared.frames);
    let (rest, _, _) = lemma_live_step(
        shared,
        next,
        after,
        Ok(PollFrame::Ready(Some(Ok(frame)))),
    );
    assert(body_answered(shared.body->0, rest->0, PollFrame::Ready(Some(Ok(frame)))));
}

/// An attempt that shares the body keeps the trailers that it is given, and the
/// data before them.
pub proof fn live_trailers_are_kept(
    shared: SharedView,
    next: Option<nat>,
    references: usize,
    after: RefView,
    frame: Frame<Bytes>,
    fields: Fields,
)
    requires
        references != 1,
        next matches Some(i) ==> i >= shared.frames.len() && shared.trailers is None,
        frame_data(frame) is None,
        frame_trailers(frame) == Some(fields),
        polled_with(
            RefView::Uncommitted { shared, next },
            references,
            after,
            Ok(PollFrame::Ready(Some(Ok(frame)))),
        ),
    ensures
        shared.trailers is None,
        after matches RefView::Uncommitted { shared: later, next: None } && {
            &&& later.frames == shared.frames
            &&& later.trailers == Some(fields)
            &&& shared.body is Some
            &&& exists|rest: UnsyncBoxBody<Bytes, Status>| #[trigger]
                body_answered(shared.body->0, rest, PollFrame::Ready(Some(Ok(frame)))) && (
                later.body == Some(rest) && body_said_end(rest, false) || later.body is None
                    && body_said_end(rest, true))
        },
{
    let (rest, _, _) = lemma_live_step(
        shared,
        next,
        after,
        Ok(PollFrame::Ready(Some(Ok(frame)))),
    );
    assert(body_answered(shared.body->0, rest->0, PollFrame::Ready(Some(Ok(frame)))));
}

/// An attempt that is given a frame which is neither data nor trailers has
/// committed.
pub proof fn unknown_frame_commits(before: RefView, after: RefView, frame: Frame<Bytes>)
    requires
        polled(before, after, Ok(PollFrame::Ready(Some(Ok(frame))))),
        frame_data(frame) is None,
        frame_trailers(frame) is None,
    ensures
        after is Owned,
{
    if let RefView::Uncommitted { shared, next } = before {
        if after is Uncommitted && replay_next(shared, next).0 is None {
            lemma_live_step(shared, next, after, Ok(PollFrame::Ready(Some(Ok(frame)))));
        }
    }
}

/// An attempt that shares the body, and commits because of the frame that the
/// body yields, goes on with what the body became then, unless that says that it
/// has ended.
pub proof fn commit_goes_on_with_the_body(
    shared: SharedView,
    next: Option<nat>,
    references: usize,
    left: Option<UnsyncBoxBody<Bytes, Status>>,
    frame: Frame<Bytes>,
)
    requires
        references != 1,
        polled_with(
            RefView::Uncommitted { shared, next },
            references,
            RefView::Owned(left),
            Ok(PollFrame::Ready(Some(Ok(frame)))),
        ),
    ensures
        next matches Some(i) ==> i >= shared.frames.len() && shared.trailers is None,
        shared.body is Some,
        exists|rest: UnsyncBoxBody<Bytes, Status>| #[trigger]
            body_answered(shared.body->0, rest, PollFrame::Ready(Some(Ok(frame)))) && (left == Some(
                rest,
            ) && body_said_end(rest, false) || left is None && body_said_end(rest, true)),
{
    let (rest, _, _) = lemma_live_step(
        shared,
        next,
        RefView::Owned(left),
        Ok(PollFrame::Ready(Some(Ok(frame)))),
    );
    assert(body_answered(shared.body->0, rest->0, PollFrame::Ready(Some(Ok(frame)))));
}

/// An attempt that shares the body is told of its end only when every kept frame
/// was given again, and the body has ended or, asked once, says so. The frames
/// stay for a later attempt, and the body is not asked again.
pub proof fn live_end_keeps_the_frames(
    shared: SharedView,
    next: Option<nat>,
    references: usize,
    after: RefView,
)
    requires
        references != 1,
        polled_with(
            RefView::Uncommitted { shared, next },
            references,
            after,
            Ok(PollFrame::Ready(None)),
        ),
    ensures
        next matches Some(i) ==> i >= shared.frames.len() && shared.trailers is None,
        shared.body matches Some(body) ==> exists|rest: UnsyncBoxBody<Bytes, Status>| #[trigger]
            body_answered(body, rest, PollFrame::Ready(None)),
        after == (RefView::Uncommitted {
            shared: SharedView { frames: shared.frames, trailers: shared.trailers, body: None },
            next: None,
        }),
{
    let (rest, _, _) = lemma_live_step(shared, next, after, Ok(PollFrame::Ready(None)));
    if shared.body is Some {
        assert(body_answered(shared.body->0, rest->0, PollFrame::Ready(None)));
    }
}

/// An attempt is pending only when every kept frame was given again and the
/// body, asked once, is pending. What is kept stays, and the body goes on.
pub proof fn live_pause_keeps_the_frames(
    shared: SharedView,
    next: Option<nat>,
    references: usize,
    after: RefView,
)
    requires
        references != 1,
        polled_with(
            RefView::Uncommitted { shared, next },
            references,
            after,
            Ok(PollFrame::Pending),
        ),
    ensures
        next matches Some(i) ==> i >= shared.frames.len() && shared.trailers is None,
        after matches RefView::Uncommitted { shared: later, next: None } && {
            &&& later.frames == shared.frames
            &&& later.trailers == shared.trailers
            &&& shared.body is Some && later.body is Some
            &&& body_answered(shared.body->0, later.body->0, PollFrame::Pending)
        },
{
}

/// The last holder of the shared state, once it has been given every kept frame,
/// takes the body for itself and hands its answer on, whatever that is. It does
/// so only then: while a kept frame is left, being the last changes nothing.
pub proof fn last_holder_takes_the_body(
    shared: SharedView,
    next: Option<nat>,
    after: RefView,
    r: Result<PollFrame, RepeatedTrailers>,
)
    requires
        polled_with(RefView::Uncommitted { shared, next }, 1, after, r),
    ensures
        after is Owned <==> (next matches Some(i) ==> i >= shared.frames.len() && shared.trailers
            is None),
        after is Owned ==> match shared.body {
            None => after == RefView::Owned(None) && r == Ok::<PollFrame, RepeatedTrailers>(
                PollFrame::Ready(None),
            ),
            Some(body) => after matches RefView::Owned(Some(rest)) && r matches Ok(answer)
                && body_answered(body, rest, answer),
        },
{
}

/// A committed attempt hands the answers of the body on, each time asking what
/// the body became before; where the body has ended, it stays at its end.
pub proof fn committed_attempt_asks_the_body(
    body: Option<UnsyncBoxBody<Bytes, Status>>,
    after: RefView,
    r: Result<PollFrame, RepeatedTrailers>,
)
    requires
        polled(RefView::Owned(body), after, r),
    ensures
        match body {
            None => after == RefView::Owned(None) && r == Ok::<PollFrame, RepeatedTrailers>(
                PollFrame::Ready(None),
            ),
            Some(body) => after matches RefView::Owned(Some(rest)) && r matches Ok(answer)
                && body_answered(body, rest, answer),
        },
{
}

/// The data in a series of answers.
pub open spec fn data_given(answers: Seq<Result<PollFrame, RepeatedTrailers>>) -> Seq<Seq<u8>>
    decreases answers.len(),
{
    if answers.len() == 0 {
        Seq::empty()
    } else {
        data_given(answers.drop_last()) + match answers.last() {
            Ok(PollFrame::Ready(Some(Ok(frame)))) => match frame_data(frame) {
                Some(data) => seq![data],
                None => Seq::empty(),
            },
            _ => Seq::empty(),
        }
    }
}

/// The trailers in a series of answers.
pub open spec fn trailers_given(answers: Seq<Result<PollFrame, RepeatedTrailers>>) -> Seq<Fields>
    decreases answers.len(),
{
    if answers.len() == 0 {
        Seq::empty()
    } else {
        trailers_given(answers.drop_last()) + match answers.last() {
            Ok(PollFrame::Ready(Some(Ok(frame)))) => match (
                frame_data(frame),
                frame_trailers(frame),
            ) {
                (None, Some(fields)) => seq![fields],
                _ => Seq::empty(),
            },
            _ => Seq::empty(),
        }
    }
}

/// What an attempt leaves to a later one is exactly what it was given itself, in
/// whatever order the body yielded it and whether or not it was answered with an
/// error in between: all the data up to its position, in order, and the trailers.
pub proof fn attempt_keeps_what_it_was_given(
    first: SharedView,
    states: Seq<RefView>,
    answers: Seq<Result<PollFrame, RepeatedTrailers>>,
    shared: SharedView,
    next: Option<nat>,
)
    requires
        states.len() == answers.len() + 1,
        states[0] == (RefView::Uncommitted { shared: first, next: Some(0) }),
        forall|j: int|
            0 <= j < answers.len() ==> polled(states[j], states[j + 1], #[trigger] answers[j]),
        states.last() == (RefView::Uncommitted { shared, next }),
    ensures
        next matches Some(i) ==> {
            &&& shared == first
            &&& i <= shared.frames.len()
            &&& data_given(answers) == shared.frames.take(i as int)
            &&& trailers_given(answers).len() == 0
        },
        next is None ==> data_given(answers) == shared.frames,
        next is None ==> match shared.trailers {
            Some(fields) => trailers_given(answers) == seq![fields],
            None => trailers_given(answers).len() == 0,
        },
    decreases answers.len(),
{
    let n = answers.len() as int;
    if n == 0 {
        assert(shared.frames.take(0) =~= Seq::<Seq<u8>>::empty());
    } else {
        let r = answers[n - 1];
        assert(answers.last() == r);
        let before = states[n - 1];
        assert(polled(before, states[n - 1 + 1], r));
        assert(before is Uncommitted) by {
            if let RefView::Owned(body) = before {
                committed_attempt_asks_the_body(body, states[n], r);
            }
        }
        let s = before->Uncommitted_shared;
        let i = before->Uncommitted_next;
        let earlier = answers.drop_last();
        assert forall|j: int| 0 <= j < earlier.len() implies polled(
            states.drop_last()[j],
            states.drop_last()[j + 1],
            #[trigger] earlier[j],
        ) by {
            assert(polled(states[j], states[j + 1], answers[j]));
        }
        attempt_keeps_what_it_was_given(first, states.drop_last(), earlier, s, i);
        if i is Some && i->0 < s.frames.len() {
            kept_data_is_given_again(s, i->0, states[n], r);
            assert(s.frames.take(i->0 as int + 1) =~= s.frames.take(i->0 as int).push(
                s.frames[i->0 as int],
            ));
        } else {
            assert(i is Some ==> s.frames.take(i->0 as int) =~= s.frames);
            if i is Some && s.trailers is Some {
                kept_trailers_are_given_again(s, i->0, s.trailers->0, states[n], r);
            } else {
                lemma_live_step(s, i, states[n], r);
            }
        }
        assert(next is None ==> data_given(answers) =~= shared.frames);
        assert(trailers_given(answers) =~= trailers_given(earlier) || trailers_given(
            answers,
        ).len() == trailers_given(earlier).len() + 1);
        if let Some(fields) = shared.trailers {
            assert(next is None ==> trailers_given(answers) =~= seq![fields]);
        }
    }
}

/// What an attempt says of a request for a frame holds of the function itself:
/// while a kept data frame is left, it is given again.
pub proof fn poll_gives_kept_data_again(
    b: &mut BodyRef,
    cx: &mut Context<'_>,
    r: Polled,
    shared: SharedView,
    i: nat,
)
    requires
        call_ensures(BodyRef::poll_frame, (b, cx), r),
        old(b)@ == (RefView::Uncommitted { shared, next: Some(i) }),
        i < shared.frames.len(),
    ensures
        r.answer matches Ok(PollFrame::Ready(Some(Ok(frame)))) && frame_data(frame) == Some(
            shared.frames[i as int],
        ),
        final(b)@ == (RefView::Uncommitted { shared, next: Some(i + 1) }),
        r.released is None,
{
    frame_is_given_by_the_count(b, cx, r);
    kept_data_is_given_again(shared, i, final(b)@, r.answer);
}

/// A request for a frame that answers with an error of the body leaves nothing in
/// the shared state, so that the request cannot be sent again.
pub proof fn poll_empties_the_state_on_error(
    b: &mut BodyRef,
    cx: &mut Context<'_>,
    r: Polled,
    error: Status,
)
    requires
        call_ensures(BodyRef::poll_frame, (b, cx), r),
        old(b)@ is Uncommitted,
        r.answer == Ok::<PollFrame, RepeatedTrailers>(PollFrame::Ready(Some(Err(error)))),
    ensures
        final(b)@ is Owned,
        r.released matches Some(guard) && guard_contents(guard) is None && old(b).lock() == Some(
            guard_lock(guard),
        ),
{
    frame_is_given_by_the_count(b, cx, r);
    body_error_commits(old(b)@, final(b)@, error);
}

/// A request for a frame made with a given count of pointers is one of those that
/// the laws on the states speak of.
pub proof fn poll_with_a_count_is_a_poll(
    b: &mut BodyRef,
    references: usize,
    cx: &mut Context<'_>,
    r: Polled,
)
    requires
        call_ensures(BodyRef::poll_frame_with, (b, references, cx), r),
    ensures
        polled_with(old(b)@, references, final(b)@, r.answer),
        polled(old(b)@, final(b)@, r.answer),
{
}

} // verus!
