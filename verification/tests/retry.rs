use bytes::Bytes;
use goaway_retry::body::{Body, BodyRef, BodyShared, Kind, PollFrame, MAX_BUFFERED};
use goaway_retry::rejection::ErrorLayer;
use goaway_retry::retry::{
    attempt_request, is_uncommitted, try_attempt_request, Action, Event, GoawayRetry, Phase,
    RetryLoop, MAX_RETRIES,
};
use http::Request;
use http_body_util::combinators::UnsyncBoxBody;
use http_body_util::{BodyExt, Full};
use std::sync::Arc;
use std::task::{Context, Waker};
use tokio::sync::Mutex;

/// A service that counts how often it was cloned.
struct Numbered(u32);

impl Clone for Numbered {
    fn clone(&self) -> Self {
        Numbered(self.0 + 1)
    }
}

/// A failure that shows that the request was never processed.
fn canceled() -> hyper::Error {
    struct Silent;
    impl hyper::rt::Read for Silent {
        fn poll_read(
            self: std::pin::Pin<&mut Self>,
            _: &mut Context<'_>,
            _: hyper::rt::ReadBufCursor<'_>,
        ) -> std::task::Poll<Result<(), std::io::Error>> {
            std::task::Poll::Pending
        }
    }
    impl hyper::rt::Write for Silent {
        fn poll_write(
            self: std::pin::Pin<&mut Self>,
            _: &mut Context<'_>,
            buf: &[u8],
        ) -> std::task::Poll<Result<usize, std::io::Error>> {
            std::task::Poll::Ready(Ok(buf.len()))
        }
        fn poll_flush(
            self: std::pin::Pin<&mut Self>,
            _: &mut Context<'_>,
        ) -> std::task::Poll<Result<(), std::io::Error>> {
            std::task::Poll::Ready(Ok(()))
        }
        fn poll_shutdown(
            self: std::pin::Pin<&mut Self>,
            _: &mut Context<'_>,
        ) -> std::task::Poll<Result<(), std::io::Error>> {
            std::task::Poll::Ready(Ok(()))
        }
    }
    tokio::runtime::Builder::new_current_thread()
        .build()
        .unwrap()
        .block_on(async {
            let (mut client, connection) = hyper::client::conn::http1::handshake(Silent)
                .await
                .unwrap();
            drop(connection);
            let req = Request::new(http_body_util::Empty::<Bytes>::new());
            client.send_request(req).await.unwrap_err()
        })
}

fn wrapped(data: &'static [u8]) -> Body {
    Body {
        kind: Kind::Wrap(UnsyncBoxBody::new(
            Full::new(Bytes::from_static(data)).map_err(|never| match never {}),
        )),
    }
}

fn next_data(body: &mut BodyRef) -> Option<Bytes> {
    let mut cx = Context::from_waker(Waker::noop());
    match body.poll_frame(&mut cx).answer {
        Ok(PollFrame::Ready(Some(Ok(frame)))) => frame.into_data().ok(),
        _ => None,
    }
}

#[test]
fn new_wraps_the_service() {
    let layer = GoawayRetry::new(Numbered(3));
    assert_eq!(layer.inner.0, 3);
}

#[test]
fn clone_clones_the_service() {
    let layer = GoawayRetry::new(Numbered(3));
    assert_eq!(layer.clone().inner.0, 4);
    assert_eq!(layer.inner.0, 3);
}

#[test]
fn prepare_sends_through_the_ready_service() {
    let mut layer = GoawayRetry::new(Numbered(3));
    let req = Request::builder()
        .method("POST")
        .uri("/service/Method")
        .header("te", "trailers")
        .body(wrapped(b"payload"))
        .unwrap();
    let pending = layer.prepare(req);
    assert_eq!(pending.service.0, 3);
    assert_eq!(layer.inner.0, 4);
    assert_eq!(pending.parts.method, "POST");
    assert_eq!(pending.parts.uri, "/service/Method");
    assert_eq!(pending.parts.headers["te"], "trailers");
}

#[test]
fn every_attempt_repeats_the_request() {
    let mut layer = GoawayRetry::new(());
    let req = Request::builder()
        .method("POST")
        .uri("/service/Method")
        .header("te", "trailers")
        .extension(7u32)
        .body(wrapped(b"payload"))
        .unwrap();
    let pending = layer.prepare(req);
    let shared = Arc::new(Mutex::new(Some(pending.shared)));
    for _ in 0..3 {
        let guard = shared.clone().try_lock_owned().unwrap();
        assert!(is_uncommitted(&guard));
        let (parts, mut body) = attempt_request(&pending.parts, guard).into_parts();
        assert_eq!(parts.method, "POST");
        assert_eq!(parts.uri, "/service/Method");
        assert_eq!(parts.version, http::Version::HTTP_11);
        assert_eq!(parts.headers["te"], "trailers");
        assert_eq!(parts.extensions.get::<u32>(), Some(&7));
        assert_eq!(next_data(&mut body).unwrap(), "payload");
        assert!(next_data(&mut body).is_none());
    }
}

#[test]
fn empty_body_is_prepared_as_such() {
    let mut layer = GoawayRetry::new(());
    let pending = layer.prepare(Request::new(Body { kind: Kind::Empty }));
    let shared = Arc::new(Mutex::new(Some(pending.shared)));
    let guard = shared.clone().try_lock_owned().unwrap();
    let (_, body) = attempt_request(&pending.parts, guard).into_parts();
    assert_eq!(body.size_hint().exact(), Some(0));
    assert!(!body.is_end_stream_with(false));
}

#[test]
fn committed_body_is_noticed() {
    let shared: Arc<Mutex<Option<BodyShared>>> = Arc::new(Mutex::new(None));
    assert!(!is_uncommitted(&shared.clone().try_lock_owned().unwrap()));
    let (parts, _) = Request::new(()).into_parts();
    assert!(try_attempt_request(&parts, shared.clone().try_lock_owned().unwrap()).is_none());
    *shared.try_lock().unwrap() = Some(BodyShared::new(wrapped(b"x")));
    assert!(is_uncommitted(&shared.clone().try_lock_owned().unwrap()));
}

#[test]
fn success_is_returned() {
    let mut course = RetryLoop::new();
    assert!(course.step(Event::Called(None)) == Action::ReturnAnswer);
    assert!(course.phase == Phase::Done);
    assert_eq!(course.attempts, 0);
}

#[test]
fn other_failure_is_returned() {
    let mut course = RetryLoop::new();
    let failure = Some(vec![ErrorLayer::Other]);
    assert!(course.step(Event::Called(failure)) == Action::ReturnAnswer);
    assert!(course.phase == Phase::Done);
}

#[test]
fn rejection_is_retried() {
    let err = canceled();
    let mut course = RetryLoop::new();
    let failure = Some(vec![ErrorLayer::Other, ErrorLayer::Hyper(&err)]);
    assert!(course.step(Event::Called(failure)) == Action::Lock);
    assert!(course.step(Event::Locked(true)) == Action::AwaitReady);
    assert_eq!(course.attempts, 1);
    assert!(course.step(Event::Readied(true)) == Action::Call);
    assert!(course.step(Event::Called(None)) == Action::ReturnAnswer);
    assert_eq!(course.attempts, 1);
}

#[test]
fn rejection_of_a_committed_body_is_returned() {
    let err = canceled();
    let mut course = RetryLoop::new();
    let failure = Some(vec![ErrorLayer::Hyper(&err)]);
    assert!(course.step(Event::Called(failure)) == Action::Lock);
    assert!(course.step(Event::Locked(false)) == Action::ReturnAnswer);
    assert!(course.phase == Phase::Done);
    assert_eq!(course.attempts, 0);
}

#[test]
fn failure_of_the_service_is_returned() {
    let err = canceled();
    let mut course = RetryLoop::new();
    let failure = Some(vec![ErrorLayer::Hyper(&err)]);
    assert!(course.step(Event::Called(failure)) == Action::Lock);
    assert!(course.step(Event::Locked(true)) == Action::AwaitReady);
    assert!(course.step(Event::Readied(false)) == Action::ReturnReadyError);
    assert!(course.phase == Phase::Done);
}

#[test]
fn retries_end_at_their_limit() {
    let err = canceled();
    let mut course = RetryLoop::new();
    let mut calls = 1;
    let mut events = 0;
    loop {
        events += 1;
        if course.step(Event::Called(Some(vec![ErrorLayer::Hyper(&err)]))) == Action::ReturnAnswer {
            break;
        }
        assert!(course.step(Event::Locked(true)) == Action::AwaitReady);
        assert!(course.step(Event::Readied(true)) == Action::Call);
        events += 2;
        calls += 1;
    }
    assert_eq!(calls, 17);
    assert_eq!(events, 49);
    assert_eq!(course.attempts, MAX_RETRIES);
}

#[test]
fn rejected_request_is_sent_again_in_full() {
    let err = canceled();
    let mut layer = GoawayRetry::new(());
    let req = Request::builder()
        .uri("/service/Stream")
        .body(wrapped(&[0; 50]))
        .unwrap();
    let pending = layer.prepare(req);
    let shared = Arc::new(Mutex::new(Some(pending.shared)));
    let mut course = RetryLoop::new();
    let mut guard = shared.clone().try_lock_owned().unwrap();
    let mut received = Vec::new();
    loop {
        let (parts, mut body) = try_attempt_request(&pending.parts, guard)
            .unwrap()
            .into_parts();
        assert_eq!(parts.uri, "/service/Stream");
        received.push(next_data(&mut body).unwrap().len());
        drop(body);
        let failure = if received.len() < 4 {
            Some(vec![ErrorLayer::Other, ErrorLayer::Hyper(&err)])
        } else {
            None
        };
        if course.step(Event::Called(failure)) == Action::ReturnAnswer {
            break;
        }
        guard = shared.clone().try_lock_owned().unwrap();
        let uncommitted = is_uncommitted(&guard);
        assert!(course.step(Event::Locked(uncommitted)) == Action::AwaitReady);
        assert!(course.step(Event::Readied(true)) == Action::Call);
    }
    assert_eq!(received, vec![50, 50, 50, 50]);
    assert_eq!(course.attempts, 3);
}

#[test]
fn committed_request_is_not_sent_again() {
    let err = canceled();
    let mut layer = GoawayRetry::new(());
    let pending = layer.prepare(Request::new(Body {
        kind: Kind::Wrap(UnsyncBoxBody::new(
            Full::new(Bytes::from(vec![0; MAX_BUFFERED])).map_err(|never| match never {}),
        )),
    }));
    let shared = Arc::new(Mutex::new(Some(pending.shared)));
    let mut course = RetryLoop::new();
    let guard = shared.clone().try_lock_owned().unwrap();
    let (_, mut body) = try_attempt_request(&pending.parts, guard)
        .unwrap()
        .into_parts();
    let mut cx = Context::from_waker(Waker::noop());
    let polled = body.poll_frame(&mut cx);
    assert!(matches!(polled.answer, Ok(PollFrame::Ready(Some(Ok(_))))));
    assert!(shared.try_lock().is_err());
    drop(polled.released);
    let failure = Some(vec![ErrorLayer::Hyper(&err)]);
    assert!(course.step(Event::Called(failure)) == Action::Lock);
    let guard = shared.clone().try_lock_owned().unwrap();
    let uncommitted = is_uncommitted(&guard);
    assert!(!uncommitted);
    assert!(course.step(Event::Locked(uncommitted)) == Action::ReturnAnswer);
    assert!(course.phase == Phase::Done);
    assert!(try_attempt_request(&pending.parts, guard).is_none());
}
