use goaway_retry::rejection::{
    h2_go_away_reason, is_dispatch_gone, is_retryable_stream_rejection, ErrorLayer,
};
use std::error::Error;
use std::future::Future;
use std::io;
use std::pin::Pin;
use std::task::{Context, Poll};
use tokio::io::{AsyncRead, AsyncReadExt, AsyncWrite, AsyncWriteExt, DuplexStream, ReadBuf};

const SETTINGS: [u8; 9] = [0, 0, 0, 4, 0, 0, 0, 0, 0];

fn rst_stream(stream: u8, code: u8) -> Vec<u8> {
    vec![0, 0, 4, 3, 0, 0, 0, 0, stream, 0, 0, 0, code]
}

fn go_away(last_stream: u8, code: u8) -> Vec<u8> {
    vec![
        0, 0, 8, 7, 0, 0, 0, 0, 0, 0, 0, 0, last_stream, 0, 0, 0, code,
    ]
}

/// A peer that answers the first HEADERS frame with `answer`, and then reads on.
async fn peer(mut io: DuplexStream, answer: Vec<u8>) {
    io.write_all(&SETTINGS).await.unwrap();
    let mut preface = [0u8; 24];
    io.read_exact(&mut preface).await.unwrap();
    let mut answered = false;
    loop {
        let mut head = [0u8; 9];
        if io.read_exact(&mut head).await.is_err() {
            return;
        }
        let len = usize::from(head[1]) * 256 + usize::from(head[2]);
        let mut payload = vec![0u8; len];
        if io.read_exact(&mut payload).await.is_err() {
            return;
        }
        if head[3] == 1 && !answered {
            answered = true;
            io.write_all(&answer).await.unwrap();
        }
    }
}

struct Io(DuplexStream);

impl hyper::rt::Read for Io {
    fn poll_read(
        mut self: Pin<&mut Self>,
        cx: &mut Context<'_>,
        mut buf: hyper::rt::ReadBufCursor<'_>,
    ) -> Poll<Result<(), io::Error>> {
        let mut space = vec![0u8; buf.remaining().min(1024)];
        let mut read = ReadBuf::new(&mut space);
        match Pin::new(&mut self.0).poll_read(cx, &mut read) {
            Poll::Ready(Ok(())) => {
                buf.put_slice(read.filled());
                Poll::Ready(Ok(()))
            }
            other => other,
        }
    }
}

impl hyper::rt::Write for Io {
    fn poll_write(
        mut self: Pin<&mut Self>,
        cx: &mut Context<'_>,
        buf: &[u8],
    ) -> Poll<Result<usize, io::Error>> {
        Pin::new(&mut self.0).poll_write(cx, buf)
    }

    fn poll_flush(mut self: Pin<&mut Self>, cx: &mut Context<'_>) -> Poll<Result<(), io::Error>> {
        Pin::new(&mut self.0).poll_flush(cx)
    }

    fn poll_shutdown(
        mut self: Pin<&mut Self>,
        cx: &mut Context<'_>,
    ) -> Poll<Result<(), io::Error>> {
        Pin::new(&mut self.0).poll_shutdown(cx)
    }
}

#[derive(Clone)]
struct Spawn;

impl<F> hyper::rt::Executor<F> for Spawn
where
    F: Future + Send + 'static,
    F::Output: Send + 'static,
{
    fn execute(&self, fut: F) {
        tokio::spawn(fut);
    }
}

fn run<F: Future>(fut: F) -> F::Output {
    tokio::runtime::Builder::new_current_thread()
        .enable_all()
        .build()
        .unwrap()
        .block_on(fut)
}

fn request() -> http::Request<http_body_util::Empty<bytes::Bytes>> {
    http::Request::builder()
        .uri("http://localhost/")
        .body(http_body_util::Empty::new())
        .unwrap()
}

/// The error of an h2 client whose request is answered with `answer`.
fn h2_error(answer: Vec<u8>) -> h2::Error {
    run(async move {
        let (ours, theirs) = tokio::io::duplex(4096);
        tokio::spawn(peer(theirs, answer));
        let (client, connection) = h2::client::handshake(ours).await.unwrap();
        tokio::spawn(async move {
            let _ = connection.await;
        });
        let mut client = client.ready().await.unwrap();
        let req = http::Request::builder()
            .uri("http://localhost/")
            .body(())
            .unwrap();
        let (response, _) = client.send_request(req, true).unwrap();
        response.await.unwrap_err()
    })
}

/// The error of a hyper client whose request is answered with `answer`.
fn hyper_h2_error(answer: Vec<u8>) -> hyper::Error {
    run(async move {
        let (ours, theirs) = tokio::io::duplex(4096);
        tokio::spawn(peer(theirs, answer));
        let (mut client, connection) = hyper::client::conn::http2::handshake(Spawn, Io(ours))
            .await
            .unwrap();
        tokio::spawn(async move {
            let _ = connection.await;
        });
        client.send_request(request()).await.unwrap_err()
    })
}

/// The error of a request whose connection is dropped after it was driven this
/// many times.
fn hyper_dropped_connection(drives: usize) -> hyper::Error {
    run(async move {
        let (ours, _theirs) = tokio::io::duplex(4096);
        let (mut client, mut connection) = hyper::client::conn::http1::handshake(Io(ours))
            .await
            .unwrap();
        client.ready_after(&mut connection).await;
        let mut answer = Box::pin(client.send_request(request()));
        for _ in 0..drives {
            std::future::poll_fn(|cx| {
                assert!(answer.as_mut().poll(cx).is_pending());
                assert!(Pin::new(&mut connection).poll(cx).is_pending());
                Poll::Ready(())
            })
            .await;
        }
        drop(connection);
        answer.await.unwrap_err()
    })
}

trait ReadyAfter {
    fn ready_after<'a, C: Future + Unpin>(
        &'a mut self,
        connection: &'a mut C,
    ) -> Pin<Box<dyn Future<Output = ()> + 'a>>;
}

impl<B: 'static> ReadyAfter for hyper::client::conn::http1::SendRequest<B> {
    fn ready_after<'a, C: Future + Unpin>(
        &'a mut self,
        connection: &'a mut C,
    ) -> Pin<Box<dyn Future<Output = ()> + 'a>> {
        Box::pin(std::future::poll_fn(move |cx| {
            let _ = Pin::new(&mut *connection).poll(cx);
            self.poll_ready(cx).map(|ready| ready.unwrap())
        }))
    }
}

/// The error and its sources, told apart.
fn layers<'a>(err: &'a (dyn Error + 'static)) -> Vec<ErrorLayer<'a>> {
    let mut chain = Vec::new();
    let mut current = Some(err);
    while let Some(e) = current {
        chain.push(if let Some(e) = e.downcast_ref::<hyper::Error>() {
            ErrorLayer::Hyper(e)
        } else if let Some(e) = e.downcast_ref::<h2::Error>() {
            ErrorLayer::H2(e)
        } else {
            ErrorLayer::Other
        });
        current = e.source();
    }
    chain
}

#[test]
fn nothing_known_is_not_retryable() {
    assert!(!is_retryable_stream_rejection(&[]));
    assert!(!is_retryable_stream_rejection(&[ErrorLayer::Other]));
    assert!(!is_retryable_stream_rejection(&[
        ErrorLayer::Other,
        ErrorLayer::Other
    ]));
}

#[test]
fn refused_stream_from_the_peer_is_retryable() {
    let err = h2_error(rst_stream(1, 7));
    assert!(err.is_remote());
    assert!(is_retryable_stream_rejection(&[ErrorLayer::H2(&err)]));
}

#[test]
fn other_resets_are_not_retryable() {
    let err = h2_error(rst_stream(1, 8));
    assert!(err.is_remote());
    assert!(!is_retryable_stream_rejection(&[ErrorLayer::H2(&err)]));
}

#[test]
fn refused_stream_made_here_is_not_retryable() {
    let err = h2::Error::from(h2::Reason::REFUSED_STREAM);
    assert!(!err.is_remote());
    assert!(!is_retryable_stream_rejection(&[ErrorLayer::H2(&err)]));
}

#[test]
fn graceful_go_away_is_retryable() {
    let err = hyper_h2_error(go_away(0, 0));
    let chain = layers(&err);
    assert_eq!(chain.len(), 2);
    assert_eq!(h2_go_away_reason(&chain, 0), Some(0));
    assert!(is_retryable_stream_rejection(&chain));
}

#[test]
fn go_away_with_an_error_is_not_retryable() {
    let err = hyper_h2_error(go_away(0, 11));
    let chain = layers(&err);
    assert_eq!(h2_go_away_reason(&chain, 0), Some(11));
    assert!(!is_retryable_stream_rejection(&chain));
}

#[test]
fn go_away_counts_only_below_a_client_error() {
    let err = h2_error(go_away(0, 0));
    assert!(err.is_go_away());
    assert!(!is_retryable_stream_rejection(&[ErrorLayer::H2(&err)]));
}

#[test]
fn the_nearest_h2_error_gives_the_go_away_code() {
    let client = hyper_h2_error(go_away(0, 11));
    let graceful = h2_error(go_away(0, 0));
    let reset = h2_error(rst_stream(1, 8));
    let near = [
        ErrorLayer::Hyper(&client),
        ErrorLayer::Other,
        ErrorLayer::H2(&graceful),
        ErrorLayer::H2(&reset),
    ];
    assert_eq!(h2_go_away_reason(&near, 0), Some(0));
    assert!(is_retryable_stream_rejection(&near));
    let far = [
        ErrorLayer::Hyper(&client),
        ErrorLayer::H2(&reset),
        ErrorLayer::H2(&graceful),
    ];
    assert_eq!(h2_go_away_reason(&far, 0), None);
    assert!(!is_retryable_stream_rejection(&far));
    assert_eq!(h2_go_away_reason(&[ErrorLayer::Hyper(&client)], 0), None);
}

#[test]
fn refused_stream_below_a_client_error_is_retryable() {
    let err = hyper_h2_error(rst_stream(1, 7));
    assert!(!is_dispatch_gone(&err));
    assert!(is_retryable_stream_rejection(&layers(&err)));
}

#[test]
fn canceled_request_is_retryable() {
    let err = hyper_dropped_connection(0);
    assert!(err.is_canceled());
    assert!(!is_dispatch_gone(&err));
    assert!(is_retryable_stream_rejection(&layers(&err)));
}

#[test]
fn dispatch_gone_is_retryable() {
    let err = hyper_dropped_connection(3);
    assert!(!err.is_canceled());
    assert!(is_dispatch_gone(&err));
    assert!(is_retryable_stream_rejection(&layers(&err)));
}

#[test]
fn malformed_answer_is_not_retryable() {
    let err = run(async {
        let (ours, mut theirs) = tokio::io::duplex(4096);
        let (mut client, connection) = hyper::client::conn::http1::handshake(Io(ours))
            .await
            .unwrap();
        tokio::spawn(async move {
            let _ = connection.await;
        });
        tokio::spawn(async move {
            let mut byte = [0u8; 1];
            theirs.read_exact(&mut byte).await.unwrap();
            theirs.write_all(b"nonsense\r\n\r\n").await.unwrap();
        });
        client.send_request(request()).await.unwrap_err()
    });
    assert!(err.is_parse());
    assert!(!is_retryable_stream_rejection(&layers(&err)));
}

#[test]
fn wrapping_does_not_change_the_verdict() {
    let refused = h2_error(rst_stream(1, 7));
    assert!(is_retryable_stream_rejection(&[
        ErrorLayer::Other,
        ErrorLayer::H2(&refused)
    ]));
    let reset = h2_error(rst_stream(1, 8));
    assert!(!is_retryable_stream_rejection(&[
        ErrorLayer::Other,
        ErrorLayer::H2(&reset)
    ]));
}
