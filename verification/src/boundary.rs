//! The outside types and calls that the crate rests on.
//!
//! Every item here is taken on trust: its contract says what the named outside
//! function does, and nothing in this crate proves it.
use crate::body::{Body, BodyRef, BodyShared, PollFrame, Status};
use bytes::{Buf, Bytes};
use http::request::Parts;
use http::{HeaderMap, HeaderValue, Request};
use http_body::{Frame, SizeHint};
use http_body_util::combinators::UnsyncBoxBody;
use std::pin::Pin;
use std::sync::Arc;
use std::task::{Context, Poll};
use tokio::sync::{Mutex, OwnedMutexGuard};
use vstd::prelude::*;

verus! {

/// `bytes::Bytes`, a cheaply cloned run of bytes.
#[verifier::external_type_specification]
#[verifier::external_body]
pub struct ExBytes(bytes::Bytes);

/// `http::HeaderMap`, here the trailers of a body.
#[verifier::external_type_specification]
#[verifier::external_body]
#[verifier::reject_recursive_types(T)]
pub struct ExHeaderMap<T>(http::HeaderMap<T>);

/// `http::HeaderValue`, the value type of the header maps in use.
#[verifier::external_type_specification]
#[verifier::external_body]
pub struct ExHeaderValue(http::HeaderValue);

/// `http::Request`.
#[verifier::external_type_specification]
#[verifier::external_body]
#[verifier::reject_recursive_types(T)]
pub struct ExRequest<T>(http::Request<T>);

/// `http::request::Parts`, a request without its body.
#[verifier::external_type_specification]
#[verifier::external_body]
pub struct ExParts(http::request::Parts);

/// `http_body::Frame`, one frame of a body.
#[verifier::external_type_specification]
#[verifier::external_body]
#[verifier::reject_recursive_types(T)]
pub struct ExFrame<T>(http_body::Frame<T>);

/// `http_body::SizeHint`, bounds on what a body still yields.
#[verifier::external_type_specification]
#[verifier::external_body]
pub struct ExSizeHint(http_body::SizeHint);

/// `http_body_util::combinators::UnsyncBoxBody`, a body behind a pointer.
#[verifier::external_type_specification]
#[verifier::external_body]
#[verifier::reject_recursive_types(D)]
#[verifier::reject_recursive_types(E)]
pub struct ExUnsyncBoxBody<D, E>(http_body_util::combinators::UnsyncBoxBody<D, E>);

/// `std::task::Context`, handed on to the body that is polled.
#[verifier::external_type_specification]
#[verifier::external_body]
pub struct ExContext<'a>(std::task::Context<'a>);

/// `tokio::sync::OwnedMutexGuard`, exclusive access to a locked value.
#[verifier::external_type_specification]
#[verifier::external_body]
#[verifier::reject_recursive_types(T)]
pub struct ExOwnedMutexGuard<T: ?Sized>(tokio::sync::OwnedMutexGuard<T>);

/// `tokio::sync::Mutex`, seen only behind the pointer that a guard keeps.
#[verifier::external_type_specification]
#[verifier::external_body]
#[verifier::reject_recursive_types(T)]
pub struct ExMutex<T: ?Sized>(tokio::sync::Mutex<T>);

/// `hyper::Error`.
#[verifier::external_type_specification]
#[verifier::external_body]
pub struct ExHyperError(hyper::Error);

/// `h2::Error`.
#[verifier::external_type_specification]
#[verifier::external_body]
pub struct ExH2Error(h2::Error);

/// The bytes that a `Bytes` holds.
pub uninterp spec fn bytes_contents(b: Bytes) -> Seq<u8>;

/// `Bytes::clone`: the clone holds the same bytes.
#[verifier::external_body]
pub(crate) fn bytes_clone(b: &Bytes) -> (r: Bytes)
    ensures
        bytes_contents(r) == bytes_contents(*b),
{
    b.clone()
}

/// `Bytes::len`: how many bytes it holds.
#[verifier::external_body]
pub(crate) fn bytes_len(b: &Bytes) -> (r: usize)
    ensures
        r == bytes_contents(*b).len(),
{
    b.len()
}

/// `Buf::remaining` of a `Bytes`: how many bytes it holds.
#[verifier::external_body]
pub(crate) fn bytes_remaining(b: &Bytes) -> (r: usize)
    ensures
        r == bytes_contents(*b).len(),
{
    b.remaining()
}

/// The fields that a header map holds: each name with its values, in the order
/// in which they were added.
pub uninterp spec fn header_fields(h: HeaderMap<HeaderValue>) -> Map<Seq<u8>, Seq<Seq<u8>>>;

/// `HeaderMap::clone`: the clone holds the same fields.
#[verifier::external_body]
pub(crate) fn header_map_clone(h: &HeaderMap<HeaderValue>) -> (r: HeaderMap<HeaderValue>)
    ensures
        header_fields(r) == header_fields(*h),
{
    h.clone()
}

/// The method, the target and the version of a request, as text.
pub uninterp spec fn parts_line(p: Parts) -> Seq<Seq<char>>;

/// The header fields of a request: each name with its values, in the order in
/// which they were added.
pub uninterp spec fn parts_headers(p: Parts) -> Map<Seq<u8>, Seq<Seq<u8>>>;

/// `Parts::clone`: the clone has the same request line and header fields.
///
/// Of the extensions only this is said, that they come from that clone: each is
/// cloned by its own type.
#[verifier::external_body]
pub(crate) fn parts_clone(p: &Parts) -> (r: Parts)
    ensures
        parts_line(r) == parts_line(*p),
        parts_headers(r) == parts_headers(*p),
        cloned(*p, r),
{
    p.clone()
}

/// The head of a request as the caller handed it in.
pub uninterp spec fn incoming_parts(req: Request<Body>) -> Parts;

/// The body of a request as the caller handed it in.
pub uninterp spec fn incoming_body(req: Request<Body>) -> Body;

/// `Request::into_parts`: takes the request apart into its head and its body.
#[verifier::external_body]
pub(crate) fn request_into_parts(req: Request<Body>) -> (r: (Parts, Body))
    ensures
        r.0 == incoming_parts(req),
        r.1 == incoming_body(req),
{
    req.into_parts()
}

/// The head of a request that is sent on.
pub uninterp spec fn outgoing_parts(req: Request<BodyRef>) -> Parts;

/// The body of a request that is sent on.
pub uninterp spec fn outgoing_body(req: Request<BodyRef>) -> BodyRef;

/// `Request::from_parts`: puts a request together from its head and its body.
#[verifier::external_body]
pub(crate) fn request_from_parts(parts: Parts, body: BodyRef) -> (r: Request<BodyRef>)
    ensures
        outgoing_parts(r) == parts,
        outgoing_body(r) == body,
{
    Request::from_parts(parts, body)
}

/// The bytes of a data frame; nothing for a frame of another kind.
pub uninterp spec fn frame_data(f: Frame<Bytes>) -> Option<Seq<u8>>;

/// The fields of a trailers frame; nothing for a frame of another kind.
pub uninterp spec fn frame_trailers(f: Frame<Bytes>) -> Option<Map<Seq<u8>, Seq<Seq<u8>>>>;

/// `Frame::data`: a data frame with these bytes.
#[verifier::external_body]
pub(crate) fn data_frame(buf: Bytes) -> (r: Frame<Bytes>)
    ensures
        frame_data(r) == Some(bytes_contents(buf)),
        frame_trailers(r) is None,
{
    Frame::data(buf)
}

/// `Frame::trailers`: a trailers frame with these fields.
#[verifier::external_body]
pub(crate) fn trailers_frame(map: HeaderMap<HeaderValue>) -> (r: Frame<Bytes>)
    ensures
        frame_data(r) is None,
        frame_trailers(r) == Some(header_fields(map)),
{
    Frame::trailers(map)
}

/// `Frame::data_ref`: the bytes of a data frame, `None` for any other.
#[verifier::external_body]
pub(crate) fn frame_data_ref(f: &Frame<Bytes>) -> (r: Option<&Bytes>)
    ensures
        r is None ==> frame_data(*f) is None,
        r matches Some(b) ==> frame_data(*f) == Some(bytes_contents(*b)),
{
    f.data_ref()
}

/// `Frame::trailers_ref`: the fields of a trailers frame, `None` for any other.
#[verifier::external_body]
pub(crate) fn frame_trailers_ref(f: &Frame<Bytes>) -> (r: Option<&HeaderMap<HeaderValue>>)
    ensures
        r is None ==> frame_trailers(*f) is None,
        r matches Some(h) ==> frame_trailers(*f) == Some(header_fields(*h)),
{
    f.trailers_ref()
}

/// The lower bound of a size hint.
pub uninterp spec fn hint_lower(h: SizeHint) -> u64;

/// The upper bound of a size hint, where it has one.
pub uninterp spec fn hint_upper(h: SizeHint) -> Option<u64>;

/// `SizeHint::new`: no lower bound but zero, and no upper bound.
#[verifier::external_body]
pub(crate) fn size_hint_new() -> (r: SizeHint)
    ensures
        hint_lower(r) == 0,
        hint_upper(r) is None,
{
    SizeHint::new()
}

/// `SizeHint::with_exact`: both bounds are `value`.
#[verifier::external_body]
pub(crate) fn size_hint_with_exact(value: u64) -> (r: SizeHint)
    ensures
        hint_lower(r) == value,
        hint_upper(r) == Some(value),
{
    SizeHint::with_exact(value)
}

/// `SizeHint::lower`: the lower bound.
#[verifier::external_body]
pub(crate) fn size_hint_lower(h: &SizeHint) -> (r: u64)
    ensures
        r == hint_lower(*h),
{
    h.lower()
}

/// `SizeHint::upper`: the upper bound, which is never below the lower one: the
/// fields are private, and every constructor and setter keeps them in order.
#[verifier::external_body]
pub(crate) fn size_hint_upper(h: &SizeHint) -> (r: Option<u64>)
    ensures
        r == hint_upper(*h),
        r matches Some(upper) ==> hint_lower(*h) <= upper,
{
    h.upper()
}

/// `SizeHint::set_lower`: replaces the lower bound. It panics on a value above
/// the upper bound.
#[verifier::external_body]
pub(crate) fn size_hint_set_lower(h: &mut SizeHint, value: u64)
    requires
        hint_upper(*old(h)) matches Some(upper) ==> value <= upper,
    ensures
        hint_lower(*final(h)) == value,
        hint_upper(*final(h)) == hint_upper(*old(h)),
{
    h.set_lower(value)
}

/// `SizeHint::set_upper`: replaces the upper bound. It panics on a value below
/// the lower bound.
#[verifier::external_body]
pub(crate) fn size_hint_set_upper(h: &mut SizeHint, value: u64)
    requires
        hint_lower(*old(h)) <= value,
    ensures
        hint_lower(*final(h)) == hint_lower(*old(h)),
        hint_upper(*final(h)) == Some(value),
{
    h.set_upper(value)
}

/// One request for the next frame took a boxed body from `before` to `after` and
/// was answered with `answer`.
///
/// What a body answers is up to the body in the box, so this is a relation: it
/// says that the request was made and answered so, and not which answer comes.
pub uninterp spec fn body_answered(
    before: UnsyncBoxBody<Bytes, Status>,
    after: UnsyncBoxBody<Bytes, Status>,
    answer: PollFrame,
) -> bool;

/// `Body::poll_frame` of a boxed body: the result is the answer to one request.
/// Which answer that is, and what becomes of the body, is up to the body in the
/// box.
#[verifier::external_body]
pub(crate) fn box_body_poll_frame(
    body: &mut UnsyncBoxBody<Bytes, Status>,
    cx: &mut Context<'_>,
) -> (r: PollFrame)
    ensures
        body_answered(*old(body), *final(body), r),
{
    match http_body::Body::poll_frame(Pin::new(body), cx) {
        Poll::Pending => PollFrame::Pending,
        Poll::Ready(frame) => PollFrame::Ready(frame),
    }
}

/// A boxed body, asked whether it has ended, said `ended`. As the body in the
/// box may say one thing now and another later, this is a relation.
pub uninterp spec fn body_said_end(body: UnsyncBoxBody<Bytes, Status>, ended: bool) -> bool;

/// `Body::is_end_stream` of a boxed body: the result is what it said. Which of
/// the two that is, is up to the body in the box.
#[verifier::external_body]
pub(crate) fn box_body_is_end_stream(body: &UnsyncBoxBody<Bytes, Status>) -> (r: bool)
    ensures
        body_said_end(*body, r),
{
    http_body::Body::is_end_stream(body)
}

/// A boxed body, asked for its size, gave the bounds `hint`. As the body in the
/// box may give some bounds now and others later, this is a relation.
pub uninterp spec fn body_hinted(body: UnsyncBoxBody<Bytes, Status>, hint: SizeHint) -> bool;

/// `Body::size_hint` of a boxed body: the result is what it gave. Which bounds
/// those are is up to the body in the box.
#[verifier::external_body]
pub(crate) fn box_body_size_hint(body: &UnsyncBoxBody<Bytes, Status>) -> (r: SizeHint)
    ensures
        body_hinted(*body, r),
{
    http_body::Body::size_hint(body)
}

/// The value that a guard gives access to.
pub uninterp spec fn guard_contents(g: OwnedMutexGuard<Option<BodyShared>>) -> Option<BodyShared>;

/// The pointer to the mutex that a guard keeps locked.
pub uninterp spec fn guard_lock(g: OwnedMutexGuard<Option<BodyShared>>) -> Arc<
    Mutex<Option<BodyShared>>,
>;

/// `OwnedMutexGuard::deref`: the locked value, to be read.
#[verifier::external_body]
pub(crate) fn guard_deref(g: &OwnedMutexGuard<Option<BodyShared>>) -> (r: &Option<BodyShared>)
    ensures
        *r == guard_contents(*g),
{
    &**g
}

/// `OwnedMutexGuard::deref_mut`: the locked value, to be changed in place. The
/// guard goes on keeping the same mutex locked.
#[verifier::external_body]
pub(crate) fn guard_deref_mut(g: &mut OwnedMutexGuard<Option<BodyShared>>) -> (r: &mut Option<
    BodyShared,
>)
    ensures
        *r == guard_contents(*old(g)),
        guard_contents(*final(g)) == *final(r),
        guard_lock(*final(g)) == guard_lock(*old(g)),
{
    &mut **g
}

/// `OwnedMutexGuard::mutex`: the pointer to the mutex that the guard keeps
/// locked. What a mutex holds is not a function of the mutex, so nothing is
/// said of that.
#[verifier::external_body]
pub(crate) fn guard_mutex(g: &OwnedMutexGuard<Option<BodyShared>>) -> (r: &Arc<
    Mutex<Option<BodyShared>>,
>)
    ensures
        *r == guard_lock(*g),
{
    OwnedMutexGuard::mutex(g)
}

/// The pointers to a mutex were counted, and there were `references`. As others
/// may let go of theirs at any time, this is a relation.
pub uninterp spec fn lock_counted(
    mutex: Arc<Mutex<Option<BodyShared>>>,
    references: usize,
) -> bool;

/// `Arc::strong_count`: how many pointers to the mutex there are at the moment.
#[verifier::external_body]
pub(crate) fn arc_strong_count(mutex: &Arc<Mutex<Option<BodyShared>>>) -> (r: usize)
    ensures
        lock_counted(*mutex, r),
{
    Arc::strong_count(mutex)
}

/// Whether a hyper error is about a request that was dropped before it was
/// dispatched.
pub uninterp spec fn hyper_canceled(e: hyper::Error) -> bool;

/// `hyper::Error::is_canceled`.
#[verifier::external_body]
pub(crate) fn hyper_is_canceled(e: &hyper::Error) -> (r: bool)
    ensures
        r == hyper_canceled(*e),
{
    e.is_canceled()
}

/// The message of a hyper error, which stands for its kind and leaves out what
/// caused it.
pub uninterp spec fn hyper_message(e: hyper::Error) -> Seq<char>;

/// `hyper::Error`'s `Display`, as a string.
#[verifier::external_body]
pub(crate) fn hyper_to_string(e: &hyper::Error) -> (r: String)
    ensures
        r@ == hyper_message(*e),
{
    e.to_string()
}

/// Whether an h2 error arrived in a frame from the peer.
pub uninterp spec fn h2_remote(e: h2::Error) -> bool;

/// `h2::Error::is_remote`.
#[verifier::external_body]
pub(crate) fn h2_is_remote(e: &h2::Error) -> (r: bool)
    ensures
        r == h2_remote(*e),
{
    e.is_remote()
}

/// Whether an h2 error is about a GOAWAY frame.
pub uninterp spec fn h2_go_away(e: h2::Error) -> bool;

/// `h2::Error::is_go_away`.
#[verifier::external_body]
pub(crate) fn h2_is_go_away(e: &h2::Error) -> (r: bool)
    ensures
        r == h2_go_away(*e),
{
    e.is_go_away()
}

/// The HTTP/2 error code of an h2 error, where it has one.
pub uninterp spec fn h2_code(e: h2::Error) -> Option<u32>;

/// `h2::Error::reason`, as the number that goes over the wire.
#[verifier::external_body]
pub(crate) fn h2_reason(e: &h2::Error) -> (r: Option<u32>)
    ensures
        r == h2_code(*e),
{
    e.reason().map(u32::from)
}

} // verus!
