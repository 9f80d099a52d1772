use bytes::Bytes;
use goaway_retry::body::{
    owned_answer, record_frame, size_hint_after, Body, BodyRef, BodyShared, Disposition, FrameLog,
    Kind, PollFrame, Status, MAX_BUFFERED,
};
use http::{HeaderMap, HeaderValue};
use http_body::{Frame, SizeHint};
use http_body_util::combinators::UnsyncBoxBody;
use std::collections::VecDeque;
use std::pin::Pin;
use std::sync::Arc;
use std::task::{Context, Poll, Waker};
use tokio::sync::{Mutex, OwnedMutexGuard};

type Shared = Arc<Mutex<Option<BodyShared>>>;

/// A body that answers from a list.
struct Script {
    answers: VecDeque<PollFrame>,
    announces_end: bool,
    hint: SizeHint,
}

impl http_body::Body for Script {
    type Data = Bytes;
    type Error = Status;

    fn poll_frame(
        mut self: Pin<&mut Self>,
        _: &mut Context<'_>,
    ) -> Poll<Option<Result<Frame<Bytes>, Status>>> {
        match self.answers.pop_front() {
            Some(PollFrame::Pending) => Poll::Pending,
            Some(PollFrame::Ready(answer)) => Poll::Ready(answer),
            None => Poll::Ready(None),
        }
    }

    fn is_end_stream(&self) -> bool {
        self.announces_end && self.answers.is_empty()
    }

    fn size_hint(&self) -> SizeHint {
        self.hint.clone()
    }
}

fn boxed(answers: Vec<PollFrame>, announces_end: bool) -> UnsyncBoxBody<Bytes, Status> {
    UnsyncBoxBody::new(Script {
        answers: answers.into(),
        announces_end,
        hint: SizeHint::with_exact(30),
    })
}

fn body(answers: Vec<PollFrame>) -> Body {
    Body {
        kind: Kind::Wrap(boxed(answers, false)),
    }
}

fn shared(body: Body) -> Shared {
    Arc::new(Mutex::new(Some(BodyShared::new(body))))
}

fn data(bytes: &[u8]) -> PollFrame {
    PollFrame::Ready(Some(Ok(Frame::data(Bytes::copy_from_slice(bytes)))))
}

fn trailers(name: &'static str, value: &'static str) -> PollFrame {
    let mut map = HeaderMap::new();
    map.insert(name, HeaderValue::from_static(value));
    PollFrame::Ready(Some(Ok(Frame::trailers(map))))
}

fn failure(code: i32) -> PollFrame {
    PollFrame::Ready(Some(Err(Status {
        code,
        message: "broken".to_string(),
    })))
}

fn attempt(shared: &Shared) -> BodyRef {
    BodyRef::new(shared.clone().try_lock_owned().unwrap())
}

/// What the attempt answers, as text.
fn poll(attempt: &mut BodyRef) -> String {
    let mut cx = Context::from_waker(Waker::noop());
    let polled = attempt.poll_frame(&mut cx);
    drop(polled.released);
    match polled.answer {
        Err(_) => "repeated".to_string(),
        Ok(answer) => text(&answer),
    }
}

fn text(answer: &PollFrame) -> String {
    match answer {
        PollFrame::Pending => "pending".to_string(),
        PollFrame::Ready(None) => "end".to_string(),
        PollFrame::Ready(Some(Err(status))) => format!("{}: {}", status.code, status.message),
        PollFrame::Ready(Some(Ok(frame))) => match (frame.data_ref(), frame.trailers_ref()) {
            (Some(data), _) => String::from_utf8(data.to_vec()).unwrap(),
            (_, Some(map)) => map
                .iter()
                .map(|(name, value)| format!("{}={}", name, value.to_str().unwrap()))
                .collect(),
            _ => "unknown".to_string(),
        },
    }
}

fn committed(shared: &Shared) -> bool {
    shared.try_lock().unwrap().is_none()
}

#[test]
fn empty_body_ends_at_once() {
    let shared = shared(Body { kind: Kind::Empty });
    let mut first = attempt(&shared);
    assert!(!first.is_end_stream());
    assert_eq!(poll(&mut first), "end");
    assert!(first.is_end_stream());
    assert_eq!(poll(&mut first), "end");
}

#[test]
fn retry_is_given_the_same_frames() {
    let shared = shared(body(vec![
        data(b"one"),
        PollFrame::Pending,
        data(b"two"),
        trailers("status", "0"),
        PollFrame::Ready(None),
    ]));
    let mut first = attempt(&shared);
    for expected in ["one", "pending", "two", "status=0", "end", "end"] {
        assert_eq!(poll(&mut first), expected);
    }
    drop(first);
    let mut second = attempt(&shared);
    for expected in ["one", "two", "status=0", "end"] {
        assert_eq!(poll(&mut second), expected);
    }
}

#[test]
fn retry_goes_on_where_the_body_was_left() {
    let shared = shared(body(vec![data(b"one"), data(b"two"), data(b"three")]));
    let mut first = attempt(&shared);
    assert_eq!(poll(&mut first), "one");
    drop(first);
    let mut second = attempt(&shared);
    assert_eq!(poll(&mut second), "one");
    assert_eq!(poll(&mut second), "two");
    drop(second);
    let mut third = attempt(&shared);
    for expected in ["one", "two", "three", "end"] {
        assert_eq!(poll(&mut third), expected);
    }
}

#[test]
fn whole_streamed_body_is_replayed() {
    let shared = shared(body((0..10).map(|_| data(&[0, 0, 0, 0, 0])).collect()));
    let mut first = attempt(&shared);
    for _ in 0..4 {
        poll(&mut first);
    }
    drop(first);
    let mut second = attempt(&shared);
    let mut received = 0;
    loop {
        match poll(&mut second).as_str() {
            "end" => break,
            frame => received += frame.len(),
        }
    }
    assert_eq!(received, 10 * 5);
}

#[test]
fn data_after_trailers_is_replayed_before_them() {
    let shared = shared(body(vec![trailers("status", "0"), data(b"late")]));
    let mut first = attempt(&shared);
    assert_eq!(poll(&mut first), "status=0");
    assert_eq!(poll(&mut first), "late");
    drop(first);
    let mut second = attempt(&shared);
    assert_eq!(poll(&mut second), "late");
    assert_eq!(poll(&mut second), "status=0");
}

#[test]
fn repeated_trailers_are_reported() {
    let shared = shared(body(vec![trailers("status", "0"), trailers("status", "1")]));
    let mut first = attempt(&shared);
    assert_eq!(poll(&mut first), "status=0");
    assert_eq!(poll(&mut first), "repeated");
}

#[test]
fn last_reference_commits() {
    let shared = shared(body(vec![data(b"one"), data(b"two"), data(b"three")]));
    let mut first = attempt(&shared);
    assert_eq!(poll(&mut first), "one");
    drop(first);
    let mut second = attempt(&shared);
    drop(shared);
    assert_eq!(poll(&mut second), "one");
    assert!(matches!(second, BodyRef::Uncommitted(_)));
    assert_eq!(poll(&mut second), "two");
    assert!(matches!(second, BodyRef::Owned(Some(_))));
    assert_eq!(poll(&mut second), "three");
    assert_eq!(poll(&mut second), "end");
    assert!(matches!(second, BodyRef::Owned(Some(_))));
}

#[test]
fn last_reference_to_an_ended_body_commits_to_nothing() {
    let shared = shared(Body { kind: Kind::Empty });
    let mut first = attempt(&shared);
    drop(shared);
    assert_eq!(poll(&mut first), "end");
    assert!(matches!(first, BodyRef::Owned(None)));
    assert!(first.is_end_stream());
    assert_eq!(first.size_hint().exact(), Some(0));
}

#[test]
fn references_decide_whether_to_commit() {
    let mut cx = Context::from_waker(Waker::noop());
    let shared = shared(body(vec![data(b"one"), data(b"two")]));
    let mut first = attempt(&shared);
    let kept = first.poll_frame_with(2, &mut cx);
    assert_eq!(text(&kept.answer.unwrap()), "one");
    assert!(kept.released.is_none());
    assert!(matches!(first, BodyRef::Uncommitted(_)));
    let taken = first.poll_frame_with(1, &mut cx);
    assert_eq!(text(&taken.answer.unwrap()), "two");
    assert!(taken.released.unwrap().is_none());
    assert!(matches!(first, BodyRef::Owned(_)));
    assert!(committed(&shared));
}

#[test]
fn body_error_commits() {
    let shared = shared(body(vec![data(b"one"), failure(13), data(b"two")]));
    let mut first = attempt(&shared);
    assert_eq!(poll(&mut first), "one");
    assert_eq!(poll(&mut first), "13: broken");
    assert!(committed(&shared));
    assert_eq!(poll(&mut first), "two");
}

#[test]
fn data_up_to_the_limit_is_kept() {
    let shared = shared(body(vec![data(&vec![b'x'; MAX_BUFFERED - 1]), data(b"")]));
    let mut first = attempt(&shared);
    poll(&mut first);
    assert_eq!(poll(&mut first), "");
    drop(first);
    assert!(!committed(&shared));
    let mut second = attempt(&shared);
    assert_eq!(second.buffered_bytes(), 262143);
    assert_eq!(poll(&mut second).len(), 262143);
    assert_eq!(poll(&mut second), "");
}

#[test]
fn data_beyond_the_limit_commits() {
    let shared = shared(body(vec![
        data(&vec![b'x'; MAX_BUFFERED - 1]),
        data(b"y"),
        data(b"z"),
    ]));
    let mut first = attempt(&shared);
    poll(&mut first);
    assert_eq!(poll(&mut first), "y");
    assert!(committed(&shared));
    assert_eq!(poll(&mut first), "z");
}

/// Asks once, and says whether the guard came back and what it gives access to.
fn release(attempt: &mut BodyRef) -> Option<bool> {
    let mut cx = Context::from_waker(Waker::noop());
    let polled = attempt.poll_frame(&mut cx);
    assert!(polled.answer.is_ok());
    polled.released.map(|guard| guard.is_some())
}

#[test]
fn guard_is_kept_until_the_attempt_commits() {
    let shared = shared(body(vec![
        data(b"one"),
        PollFrame::Pending,
        trailers("status", "0"),
        PollFrame::Ready(None),
    ]));
    let mut first = attempt(&shared);
    for _ in 0..5 {
        assert_eq!(release(&mut first), None);
        assert!(shared.try_lock().is_err());
    }
    drop(first);
    assert!(!committed(&shared));
}

#[test]
fn commit_hands_out_the_emptied_state() {
    let too_long = shared(body(vec![data(&vec![b'x'; MAX_BUFFERED]), data(b"y")]));
    let mut first = attempt(&too_long);
    assert_eq!(release(&mut first), Some(false));
    assert!(committed(&too_long));
    assert_eq!(release(&mut first), None);
    assert_eq!(poll(&mut first), "end");

    let broken = shared(body(vec![failure(13), failure(14)]));
    let mut first = attempt(&broken);
    assert_eq!(release(&mut first), Some(false));
    assert!(committed(&broken));
    assert_eq!(release(&mut first), None);

    let alone = shared(body(vec![data(b"one"), data(b"two")]));
    let mut first = attempt(&alone);
    drop(alone);
    assert_eq!(release(&mut first), Some(false));
    assert_eq!(release(&mut first), None);

    let short = shared(body(vec![data(&vec![b'x'; MAX_BUFFERED - 1])]));
    let mut first = attempt(&short);
    assert_eq!(release(&mut first), None);
    assert!(matches!(first, BodyRef::Uncommitted(_)));
}

#[test]
fn emptied_state_is_that_of_the_attempt() {
    let mut cx = Context::from_waker(Waker::noop());
    let shared = shared(body(vec![failure(13)]));
    let mut first = attempt(&shared);
    let released = first.poll_frame(&mut cx).released.unwrap();
    assert!(Arc::ptr_eq(OwnedMutexGuard::mutex(&released), &shared));
}

/// A body that must not be asked whether it has ended before it is read.
struct Shy {
    reads: usize,
}

impl http_body::Body for Shy {
    type Data = Bytes;
    type Error = Status;

    fn poll_frame(
        mut self: Pin<&mut Self>,
        _: &mut Context<'_>,
    ) -> Poll<Option<Result<Frame<Bytes>, Status>>> {
        self.reads += 1;
        Poll::Ready(Some(Ok(Frame::data(Bytes::from_static(b"x")))))
    }

    fn is_end_stream(&self) -> bool {
        assert!(self.reads > 0, "asked before it was read");
        self.reads > 1
    }
}

#[test]
fn body_is_not_asked_for_its_end_before_the_replay_is_through() {
    let shared = shared(Body {
        kind: Kind::Wrap(UnsyncBoxBody::new(Shy { reads: 0 })),
    });
    let mut first = attempt(&shared);
    assert!(!first.is_end_stream());
    assert_eq!(poll(&mut first), "x");
    assert!(!first.is_end_stream());
    assert_eq!(poll(&mut first), "x");
    assert!(first.is_end_stream());
}

#[test]
fn announced_end_drops_the_body() {
    let shared = shared(Body {
        kind: Kind::Wrap(boxed(vec![data(b"one")], true)),
    });
    let mut first = attempt(&shared);
    assert_eq!(first.size_hint().exact(), Some(30));
    assert_eq!(poll(&mut first), "one");
    assert!(first.is_end_stream());
    assert_eq!(first.size_hint().exact(), Some(0));
    assert_eq!(poll(&mut first), "end");
}

#[test]
fn end_of_stream_waits_for_the_replay() {
    let shared = shared(Body {
        kind: Kind::Wrap(boxed(vec![data(b"one")], true)),
    });
    let mut first = attempt(&shared);
    assert!(!first.is_end_stream_with(true));
    poll(&mut first);
    drop(first);
    let mut second = attempt(&shared);
    assert!(!second.is_end_stream());
    poll(&mut second);
    assert!(!second.is_end_stream());
    assert_eq!(poll(&mut second), "end");
    assert!(second.is_end_stream());
    assert!(second.is_end_stream_with(false));
}

#[test]
fn end_of_stream_of_an_unfinished_body_is_its_own_word() {
    let shared = shared(body(vec![data(b"one")]));
    let mut first = attempt(&shared);
    poll(&mut first);
    assert!(!first.is_end_stream());
    assert!(first.is_end_stream_with(true));
    assert!(!first.is_end_stream_with(false));
}

#[test]
fn size_hint_counts_what_is_given_again() {
    let shared = shared(body(vec![data(b"three"), data(b"four"), data(b"x")]));
    let mut first = attempt(&shared);
    poll(&mut first);
    poll(&mut first);
    assert_eq!(first.size_hint().exact(), Some(30));
    drop(first);
    let mut second = attempt(&shared);
    assert_eq!(second.size_hint().exact(), Some(39));
    poll(&mut second);
    assert_eq!(second.size_hint().exact(), Some(34));
    poll(&mut second);
    assert_eq!(second.size_hint().exact(), Some(30));
}

#[test]
fn retry_announces_the_same_length() {
    let full = http_body_util::Full::new(Bytes::from_static(b"whole message"));
    let shared = shared(Body {
        kind: Kind::Wrap(UnsyncBoxBody::new(http_body_util::BodyExt::map_err(
            full,
            |never| match never {},
        ))),
    });
    let mut first = attempt(&shared);
    assert_eq!(first.size_hint().exact(), Some(13));
    assert_eq!(poll(&mut first), "whole message");
    assert_eq!(first.size_hint().exact(), Some(0));
    drop(first);
    assert_eq!(attempt(&shared).size_hint().exact(), Some(13));
}

#[test]
fn body_is_asked_once_for_each_frame() {
    let shared = shared(body(vec![data(b"1"), data(b"2"), data(b"3"), data(b"4")]));
    for frames in [&["1"][..], &["1", "2"], &["1", "2", "3"]] {
        let mut reader = attempt(&shared);
        for frame in frames {
            assert_eq!(poll(&mut reader), *frame);
        }
    }
    let mut last = attempt(&shared);
    drop(shared);
    for frame in ["1", "2", "3", "4", "end"] {
        assert_eq!(poll(&mut last), frame);
    }
    assert!(matches!(last, BodyRef::Owned(Some(_))));
}

#[test]
fn pending_body_leaves_the_attempt_as_it_is() {
    let shared = shared(body(vec![data(b"one"), PollFrame::Pending, data(b"two")]));
    let mut first = attempt(&shared);
    assert_eq!(poll(&mut first), "one");
    assert_eq!(poll(&mut first), "pending");
    assert!(matches!(first, BodyRef::Uncommitted(_)));
    assert_eq!(poll(&mut first), "two");
}

#[test]
fn committed_attempt_passes_pending_and_errors_on() {
    let shared = shared(body(vec![PollFrame::Pending, failure(5), data(b"x")]));
    let mut first = attempt(&shared);
    drop(shared);
    for answer in ["pending", "5: broken", "x", "end"] {
        assert_eq!(poll(&mut first), answer);
    }
    assert!(!first.is_end_stream());
    assert_eq!(first.size_hint().exact(), Some(30));
}

#[test]
fn size_hint_adds_up() {
    let mut hint = SizeHint::new();
    hint.set_lower(3);
    hint.set_upper(10);
    let sum = size_hint_after(4, &hint);
    assert_eq!((sum.lower(), sum.upper()), (7, Some(14)));
}

#[test]
fn size_hint_without_upper_bound_stays_without() {
    let mut hint = SizeHint::new();
    hint.set_lower(3);
    let sum = size_hint_after(4, &hint);
    assert_eq!((sum.lower(), sum.upper()), (7, None));
}

#[test]
fn size_hint_saturates() {
    let mut hint = SizeHint::new();
    hint.set_lower(u64::MAX - 1);
    hint.set_upper(u64::MAX - 1);
    let sum = size_hint_after(4, &hint);
    assert_eq!((sum.lower(), sum.upper()), (u64::MAX, None));
    let exact = size_hint_after(1, &hint);
    assert_eq!(exact.exact(), Some(u64::MAX));
}

#[test]
fn committed_attempt_hands_answers_on() {
    assert_eq!(text(&owned_answer(None)), "end");
    assert_eq!(text(&owned_answer(Some(PollFrame::Pending))), "pending");
    assert_eq!(text(&owned_answer(Some(data(b"one")))), "one");
    assert_eq!(text(&owned_answer(Some(trailers("a", "b")))), "a=b");
    assert_eq!(text(&owned_answer(Some(failure(2)))), "2: broken");
    assert_eq!(text(&owned_answer(Some(PollFrame::Ready(None)))), "end");
}

#[test]
fn answers_are_recorded() {
    let mut cell = Some(BodyShared::new(body(vec![])));
    let (kept, answer) = record_frame(&mut cell, PollFrame::Pending, false);
    assert!(matches!(kept, Disposition::Keep));
    assert_eq!(text(&answer.unwrap()), "pending");
    let (kept, answer) = record_frame(&mut cell, data(b"one"), false);
    assert!(matches!(kept, Disposition::Keep));
    assert_eq!(text(&answer.unwrap()), "one");
    let (kept, answer) = record_frame(&mut cell, trailers("a", "b"), false);
    assert!(matches!(kept, Disposition::Keep));
    assert_eq!(text(&answer.unwrap()), "a=b");
    let (kept, answer) = record_frame(&mut cell, trailers("a", "b"), false);
    assert!(matches!(kept, Disposition::Keep));
    assert!(answer.is_err());
    assert!(cell.is_some());
    let (kept, answer) = record_frame(&mut cell, failure(2), false);
    assert!(matches!(kept, Disposition::Commit(Some(_))));
    assert_eq!(text(&answer.unwrap()), "2: broken");
    assert!(cell.is_none());
}

#[test]
fn recorded_end_drops_the_body() {
    let mut cell = Some(BodyShared::new(body(vec![])));
    let (kept, _) = record_frame(&mut cell, PollFrame::Ready(None), false);
    assert!(matches!(kept, Disposition::Keep));
    let (kept, _) = record_frame(&mut cell, failure(2), false);
    assert!(matches!(kept, Disposition::Commit(None)));
}

#[test]
fn too_much_data_commits_to_what_is_left() {
    let mut cell = Some(BodyShared::new(body(vec![])));
    let (kept, _) = record_frame(&mut cell, data(&vec![0; MAX_BUFFERED]), true);
    assert!(matches!(kept, Disposition::Commit(None)));
    assert!(cell.is_none());
    let mut cell = Some(BodyShared::new(body(vec![])));
    let (kept, _) = record_frame(&mut cell, data(&vec![0; MAX_BUFFERED]), false);
    assert!(matches!(kept, Disposition::Commit(Some(_))));
}

#[test]
fn frame_log_counts_its_bytes() {
    let mut log = FrameLog::new();
    assert_eq!((log.len(), log.byte_count()), (0, 0));
    assert!(log.push(&Bytes::from_static(b"abc")));
    assert!(log.push(&Bytes::from_static(b"de")));
    assert_eq!((log.len(), log.byte_count()), (2, 5));
    assert_eq!(log.get(0), "abc");
    assert_eq!(log.get(1), "de");
    assert!(!log.push(&Bytes::from(vec![0; MAX_BUFFERED - 5])));
    assert_eq!((log.len(), log.byte_count()), (2, 5));
    assert!(log.push(&Bytes::from(vec![0; MAX_BUFFERED - 6])));
    assert_eq!(log.byte_count(), MAX_BUFFERED - 1);
}
