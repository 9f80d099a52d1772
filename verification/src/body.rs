//! A request body that can be read again from its first frame.
//!
//! The frames that one attempt reads are kept in a [`BodyShared`], together
//! with what is left of the body. A later attempt is first given those frames
//! again, and then goes on where the body was left. As soon as the frames can
//! no longer be kept, or nobody is left to ask for them, the attempt takes the
//! rest of the body for itself: it commits.
use crate::boundary::{
    arc_strong_count, box_body_is_end_stream, box_body_poll_frame, box_body_size_hint, bytes_clone,
    bytes_len, bytes_remaining, data_frame, frame_data_ref, frame_trailers_ref, guard_deref,
    guard_deref_mut, guard_mutex, header_map_clone, size_hint_lower, size_hint_new,
    size_hint_set_lower, size_hint_set_upper, size_hint_upper, size_hint_with_exact, trailers_frame,
};
use bytes::Bytes;
use http::{HeaderMap, HeaderValue};
use http_body::{Frame, SizeHint};
use http_body_util::combinators::UnsyncBoxBody;
use std::sync::Arc;
use std::task::Context;
use tokio::sync::{Mutex, OwnedMutexGuard};
use vstd::prelude::*;

verus! {

/// Data is kept for replay as long as it stays below this many bytes in all.
pub const MAX_BUFFERED: usize = 262144;

/// The error of a request body. It is handed on as it came.
pub struct Status {
    /// The gRPC status code.
    pub code: i32,
    /// What went wrong, in words.
    pub message: String,
}

/// A request body.
pub struct Body {
    /// What the body consists of.
    pub kind: Kind,
}

/// What a request body consists of.
pub enum Kind {
    /// No frames at all.
    Empty,
    /// The frames that another body yields.
    Wrap(UnsyncBoxBody<Bytes, Status>),
}

/// The answer of a body that was asked for its next frame.
pub enum PollFrame {
    /// Nothing yet: the task is woken when it is worth asking again.
    Pending,
    /// The next frame, an error, or the end of the body.
    Ready(Option<Result<Frame<Bytes>, Status>>),
}

/// A body yielded trailers for the second time, which no body may do.
#[derive(Debug)]
pub struct RepeatedTrailers;

/// Header fields: each name with its values.
pub type Fields = Map<Seq<u8>, Seq<Seq<u8>>>;

/// What a frame carries.
pub enum FrameView {
    /// Bytes of the message.
    Data(Seq<u8>),
    /// Fields that follow the message.
    Trailers(Fields),
    /// Neither of the two.
    Unknown,
}

/// What the frame carries.
pub open spec fn frame_view(f: Frame<Bytes>) -> FrameView {
    match crate::boundary::frame_data(f) {
        Some(data) => FrameView::Data(data),
        None => match crate::boundary::frame_trailers(f) {
            Some(fields) => FrameView::Trailers(fields),
            None => FrameView::Unknown,
        },
    }
}

/// How many bytes the data frames carry together.
pub open spec fn total(frames: Seq<Seq<u8>>) -> nat
    decreases frames.len(),
{
    if frames.len() == 0 {
        0
    } else {
        total(frames.drop_last()) + frames.last().len()
    }
}

proof fn lemma_total_take(frames: Seq<Seq<u8>>, i: int)
    requires
        0 <= i <= frames.len(),
    ensures
        total(frames.take(i)) <= total(frames),
        i < frames.len() ==> total(frames.take(i + 1)) == total(frames.take(i)) + frames[i].len(),
        i < frames.len() ==> total(frames.take(i + 1)) <= total(frames),
    decreases frames.len() - i,
{
    if i == frames.len() {
        assert(frames.take(i) =~= frames);
    } else {
        assert(frames.take(i + 1).drop_last() =~= frames.take(i));
        assert(frames.take(i + 1).last() == frames[i]);
        lemma_total_take(frames, i + 1);
    }
}

proof fn lemma_total_push(frames: Seq<Seq<u8>>, data: Seq<u8>)
    ensures
        total(frames.push(data)) == total(frames) + data.len(),
{
    assert(frames.push(data).drop_last() =~= frames);
}

/// The data frames read so far, with a count of their bytes.
pub struct FrameLog {
    frames: Vec<Bytes>,
    byte_count: usize,
}

impl View for FrameLog {
    type V = Seq<Seq<u8>>;

    closed spec fn view(&self) -> Seq<Seq<u8>> {
        self.frames@.map_values(|b: Bytes| crate::boundary::bytes_contents(b))
    }
}

impl FrameLog {
    #[verifier::type_invariant]
    spec fn counted(&self) -> bool {
        self.byte_count == total(self@) && self.byte_count < MAX_BUFFERED
    }

    /// No frames.
    pub fn new() -> (r: FrameLog)
        ensures
            r@ == Seq::<Seq<u8>>::empty(),
    {
        let frames: Vec<Bytes> = Vec::new();
        assert(frames@.map_values(|b: Bytes| crate::boundary::bytes_contents(b)) =~= Seq::<
            Seq<u8>,
        >::empty());
        FrameLog { frames, byte_count: 0 }
    }

    /// How many frames there are.
    pub fn len(&self) -> (r: usize)
        ensures
            r == self@.len(),
    {
        self.frames.len()
    }

    /// How many bytes the frames carry together: always below [`MAX_BUFFERED`].
    pub fn byte_count(&self) -> (r: usize)
        ensures
            r == total(self@),
            r < MAX_BUFFERED,
    {
        proof {
            use_type_invariant(self);
        }
        self.byte_count
    }

    /// The bytes of one frame.
    pub fn get(&self, index: usize) -> (r: Bytes)
        requires
            index < self@.len(),
        ensures
            crate::boundary::bytes_contents(r) == self@[index as int],
    {
        bytes_clone(&self.frames[index])
    }

    /// Adds a frame, unless the bytes would then no longer stay below
    /// [`MAX_BUFFERED`].
    pub fn push(&mut self, data: &Bytes) -> (kept: bool)
        ensures
            kept == (total(old(self)@) + crate::boundary::bytes_contents(*data).len()
                < MAX_BUFFERED),
            kept ==> final(self)@ == old(self)@.push(crate::boundary::bytes_contents(*data)),
            !kept ==> final(self)@ == old(self)@,
            total(final(self)@) < MAX_BUFFERED,
    {
        proof {
            use_type_invariant(&*self);
        }
        let byte_count: usize = match bytes_remaining(data).checked_add(self.byte_count()) {
            Some(byte_count) => byte_count,
            None => return false,
        };
        if byte_count >= MAX_BUFFERED {
            return false;
        }
        let mut log = FrameLog::new();
        core::mem::swap(&mut log, self);
        let FrameLog { mut frames, byte_count: _ } = log;
        let ghost before = frames@;
        frames.push(bytes_clone(data));
        proof {
            let contents = |b: Bytes| crate::boundary::bytes_contents(b);
            assert(frames@.map_values(contents) =~= before.map_values(contents).push(
                crate::boundary::bytes_contents(*data),
            ));
            lemma_total_push(
                before.map_values(contents),
                crate::boundary::bytes_contents(*data),
            );
        }
        *self = FrameLog { frames, byte_count };
        true
    }
}

/// What the attempts at one request share.
pub struct SharedView {
    /// The bytes of the data frames read so far, in order.
    pub frames: Seq<Seq<u8>>,
    /// The trailers, if they were read.
    pub trailers: Option<Fields>,
    /// The body that the rest comes from, until it ends.
    pub body: Option<UnsyncBoxBody<Bytes, Status>>,
}

/// The state of one attempt's hold on the body.
pub enum RefView {
    /// The frames are still kept for a later attempt.
    Uncommitted {
        /// What the attempts share.
        shared: SharedView,
        /// The frame to be given again next, until all have been.
        next: Option<nat>,
    },
    /// The rest of the body is this attempt's alone.
    Owned(Option<UnsyncBoxBody<Bytes, Status>>),
}

/// The frame to be given again next, if one is left, and the position after it.
pub open spec fn replay_next(shared: SharedView, next: Option<nat>) -> (
    Option<FrameView>,
    Option<nat>,
) {
    match next {
        None => (None, None),
        Some(i) => if i < shared.frames.len() {
            (Some(FrameView::Data(shared.frames[i as int])), Some(i + 1))
        } else {
            match shared.trailers {
                Some(fields) => (Some(FrameView::Trailers(fields)), None),
                None => (None, None),
            }
        },
    }
}

/// What becomes of the shared state, and what the reader is told, when all
/// frames have been given again and the body answers `polled`. `ended` is
/// whether the body says, after a frame, that no other will follow.
pub open spec fn recorded(shared: SharedView, polled: PollFrame, ended: bool) -> (
    RefView,
    Result<PollFrame, RepeatedTrailers>,
) {
    match polled {
        PollFrame::Pending => (RefView::Uncommitted { shared, next: None }, Ok(polled)),
        PollFrame::Ready(None) => (
            RefView::Uncommitted { shared: SharedView { body: None, ..shared }, next: None },
            Ok(polled),
        ),
        PollFrame::Ready(Some(Err(_))) => (RefView::Owned(shared.body), Ok(polled)),
        PollFrame::Ready(Some(Ok(frame))) => {
            let body = if ended {
                None
            } else {
                shared.body
            };
            match frame_view(frame) {
                FrameView::Data(data) => if total(shared.frames) + data.len() < MAX_BUFFERED {
                    (
                        RefView::Uncommitted {
                            shared: SharedView { frames: shared.frames.push(data), body, ..shared },
                            next: None,
                        },
                        Ok(polled),
                    )
                } else {
                    (RefView::Owned(body), Ok(polled))
                },
                FrameView::Trailers(fields) => if shared.trailers is None {
                    (
                        RefView::Uncommitted {
                            shared: SharedView { trailers: Some(fields), body, ..shared },
                            next: None,
                        },
                        Ok(polled),
                    )
                } else {
                    (
                        RefView::Uncommitted { shared: SharedView { body, ..shared }, next: None },
                        Err(RepeatedTrailers),
                    )
                },
                FrameView::Unknown => (RefView::Owned(body), Ok(polled)),
            }
        },
    }
}

/// A body was asked for its next frame, once, and answered `answer`; `after` is
/// what it became. What has ended is not asked: it stays at its end.
pub open spec fn asked(
    before: Option<UnsyncBoxBody<Bytes, Status>>,
    after: Option<UnsyncBoxBody<Bytes, Status>>,
    answer: PollFrame,
) -> bool {
    match before {
        None => after is None && answer == PollFrame::Ready(None),
        Some(body) => {
            &&& after matches Some(rest)
            &&& crate::boundary::body_answered(body, rest, answer)
        },
    }
}

/// After a frame, `ended` is what the body says of itself.
pub open spec fn asked_end(
    rest: Option<UnsyncBoxBody<Bytes, Status>>,
    answer: PollFrame,
    ended: bool,
) -> bool {
    answer matches PollFrame::Ready(Some(Ok(_))) ==> {
        &&& rest matches Some(body)
        &&& crate::boundary::body_said_end(body, ended)
    }
}

/// One request for the next frame takes an attempt from `before` to `after` and
/// answers `r`, when there are `references` pointers to the shared state.
///
/// A frame that was read before is given again. When none is left, an attempt
/// that holds the only pointer commits; any other asks the shared body and
/// records the answer.
pub open spec fn polled_with(
    before: RefView,
    references: usize,
    after: RefView,
    r: Result<PollFrame, RepeatedTrailers>,
) -> bool {
    match before {
        RefView::Owned(body) => {
            &&& after matches RefView::Owned(rest)
            &&& r matches Ok(answer)
            &&& asked(body, rest, answer)
        },
        RefView::Uncommitted { shared, next } => match replay_next(shared, next) {
            (Some(replayed), rest) => {
                &&& after == (RefView::Uncommitted { shared, next: rest })
                &&& r matches Ok(PollFrame::Ready(Some(Ok(frame))))
                &&& frame_view(frame) == replayed
            },
            (None, _) => if references == 1 {
                &&& after matches RefView::Owned(rest)
                &&& r matches Ok(answer)
                &&& asked(shared.body, rest, answer)
            } else {
                exists|rest: Option<UnsyncBoxBody<Bytes, Status>>, polled: PollFrame, ended: bool|
                    asked(shared.body, rest, polled) && asked_end(rest, polled, ended) && (after, r)
                        == #[trigger] recorded(
                        SharedView { body: rest, ..shared },
                        polled,
                        ended,
                    )
            },
        },
    }
}

/// One request for the next frame takes an attempt from `before` to `after` and
/// answers `r`, however many pointers to the shared state there are.
pub open spec fn polled(
    before: RefView,
    after: RefView,
    r: Result<PollFrame, RepeatedTrailers>,
) -> bool {
    exists|references: usize| #[trigger] polled_with(before, references, after, r)
}

/// How many bytes an attempt is still to be given again.
pub open spec fn buffered(v: RefView) -> int {
    match v {
        RefView::Uncommitted { shared, next: Some(i) } => total(shared.frames) - total(
            shared.frames.take(i as int),
        ),
        _ => 0,
    }
}

/// The body that the frames after the kept ones come from.
pub open spec fn rest_of(v: RefView) -> Option<UnsyncBoxBody<Bytes, Status>> {
    match v {
        RefView::Uncommitted { shared, .. } => shared.body,
        RefView::Owned(body) => body,
    }
}

/// Whether no frame is left, when `ended` is what the rest of the body says of
/// itself. A body that has ended has nothing left whatever is said.
pub open spec fn at_end(v: RefView, ended: bool) -> bool {
    (v matches RefView::Uncommitted { next, .. } ==> next is None) && (rest_of(v) is None || ended)
}

/// Whether no frame is left, as the rest of the body has it: `r` follows from
/// what that says of itself.
///
/// While frames are still to be given again there is one left, and the body is
/// not asked.
pub open spec fn said_end(v: RefView, r: bool) -> bool {
    if v matches RefView::Uncommitted { next: Some(_), .. } {
        !r
    } else {
        exists|ended: bool|
            r == #[trigger] at_end(v, ended) && (rest_of(v) matches Some(body)
                ==> crate::boundary::body_said_end(body, ended))
    }
}

/// The bounds on what is left, when the rest of the body has these bounds and
/// `buffered` bytes come before it.
pub open spec fn hint_with(r: SizeHint, body: SizeHint, buffered: int) -> bool {
    let lower = crate::boundary::hint_lower(body) + buffered;
    &&& crate::boundary::hint_lower(r) == if lower <= u64::MAX {
        lower
    } else {
        u64::MAX as int
    }
    &&& crate::boundary::hint_upper(r) == match crate::boundary::hint_upper(body) {
        Some(upper) if upper + buffered <= u64::MAX => Some((upper + buffered) as u64),
        _ => None,
    }
}

/// Both bounds are `n`.
pub open spec fn exact(hint: SizeHint, n: int) -> bool {
    crate::boundary::hint_lower(hint) == n && crate::boundary::hint_upper(hint) == Some(n as u64)
}

/// The bounds on what is left, as the rest of the body has it: `r` follows from
/// the bounds that it gives, which are zero once it has ended.
pub open spec fn said_size(v: RefView, r: SizeHint) -> bool {
    exists|body: SizeHint| #[trigger]
        hint_with(r, body, buffered(v)) && match rest_of(v) {
            Some(rest) => crate::boundary::body_hinted(rest, body),
            None => exact(body, 0),
        }
}

/// What the attempts at one request share.
pub struct BodyShared {
    log: FrameLog,
    trailers: Option<HeaderMap<HeaderValue>>,
    body: Option<UnsyncBoxBody<Bytes, Status>>,
}

impl View for BodyShared {
    type V = SharedView;

    closed spec fn view(&self) -> SharedView {
        SharedView {
            frames: self.log@,
            trailers: match self.trailers {
                Some(map) => Some(crate::boundary::header_fields(map)),
                None => None,
            },
            body: self.body,
        }
    }
}

impl BodyShared {
    /// Nothing was read of the body yet.
    pub fn new(body: Body) -> (r: BodyShared)
        ensures
            r@.frames == Seq::<Seq<u8>>::empty(),
            r@.trailers is None,
            r@.body == match body.kind {
                Kind::Empty => None,
                Kind::Wrap(body) => Some(body),
            },
    {
        let body = match body.kind {
            Kind::Empty => None,
            Kind::Wrap(body) => Some(body),
        };
        BodyShared { log: FrameLog::new(), trailers: None, body }
    }

    /// Asks the body for its next frame and, after a frame, whether it was the
    /// last.
    fn poll_body(&mut self, cx: &mut Context<'_>) -> (r: (PollFrame, bool))
        ensures
            final(self)@ == (SharedView { body: final(self)@.body, ..old(self)@ }),
            asked(old(self)@.body, final(self)@.body, r.0),
            asked_end(final(self)@.body, r.0, r.1),
    {
        match &mut self.body {
            None => (PollFrame::Ready(None), false),
            Some(body) => {
                let polled = box_body_poll_frame(body, cx);
                let ended = match &polled {
                    PollFrame::Ready(Some(Ok(_))) => box_body_is_end_stream(body),
                    _ => false,
                };
                (polled, ended)
            },
        }
    }
}

/// Takes the body out of the shared state and leaves nothing there: no later
/// attempt can be made.
fn take_body(cell: &mut Option<BodyShared>) -> (r: Option<UnsyncBoxBody<Bytes, Status>>)
    requires
        *old(cell) is Some,
    ensures
        *final(cell) is None,
        r == old(cell)->0@.body,
{
    match cell.take() {
        Some(shared) => shared.body,
        None => None,
    }
}

/// Whether the frames are still kept after an answer of the body.
pub enum Disposition {
    /// They are.
    Keep,
    /// They are not, and this is the rest of the body.
    Commit(Option<UnsyncBoxBody<Bytes, Status>>),
}

/// Records the answer of the shared body once all frames have been given again.
/// `ended` is whether the body says, after a frame, that no other will follow.
///
/// Where the attempt commits, nothing is left of the shared state.
pub fn record_frame(cell: &mut Option<BodyShared>, polled: PollFrame, ended: bool) -> (r: (
    Disposition,
    Result<PollFrame, RepeatedTrailers>,
))
    requires
        *old(cell) is Some,
    ensures
        r.1 == recorded(old(cell)->0@, polled, ended).1,
        match recorded(old(cell)->0@, polled, ended).0 {
            RefView::Uncommitted { shared, .. } => {
                &&& r.0 is Keep
                &&& *final(cell) matches Some(kept)
                &&& kept@ == shared
            },
            RefView::Owned(body) => r.0 == Disposition::Commit(body) && *final(cell) is None,
        },
        *final(cell) matches Some(kept) ==> total(kept@.frames) < MAX_BUFFERED,
{
    if let Some(shared) = &*cell {
        proof {
            use_type_invariant(&shared.log);
        }
    }
    let frame = match polled {
        PollFrame::Pending => return (Disposition::Keep, Ok(PollFrame::Pending)),
        PollFrame::Ready(None) => {
            if let Some(shared) = cell {
                shared.body = None;
            }
            return (Disposition::Keep, Ok(PollFrame::Ready(None)));
        },
        PollFrame::Ready(Some(Err(status))) => {
            return (
                Disposition::Commit(take_body(cell)),
                Ok(PollFrame::Ready(Some(Err(status)))),
            );
        },
        PollFrame::Ready(Some(Ok(frame))) => frame,
    };
    let mut keep = false;
    if let Some(shared) = cell {
        if ended {
            shared.body = None;
        }
        if let Some(data) = frame_data_ref(&frame) {
            keep = shared.log.push(data);
        } else if let Some(map) = frame_trailers_ref(&frame) {
            if shared.trailers.is_some() {
                return (Disposition::Keep, Err(RepeatedTrailers));
            }
            shared.trailers = Some(header_map_clone(map));
            keep = true;
        }
    }
    let disposition = if keep {
        Disposition::Keep
    } else {
        Disposition::Commit(take_body(cell))
    };
    (disposition, Ok(PollFrame::Ready(Some(Ok(frame)))))
}

/// Where an attempt stands in the frames that it is given again.
pub struct ReadOffset {
    index: usize,
    bytes: usize,
}

/// The hold on the body of an attempt that has not committed.
pub struct Uncommitted {
    shared: OwnedMutexGuard<Option<BodyShared>>,
    read_offset: Option<ReadOffset>,
}

/// What an attempt does when it is asked for the next frame.
pub enum Step {
    /// It gives this frame again.
    Replay(Frame<Bytes>),
    /// It takes the rest of the body for itself.
    Commit,
    /// It asks the shared body.
    Poll,
}

impl Uncommitted {
    /// The shared state is there, and the offset counts the frames before it.
    pub closed spec fn wf(&self) -> bool {
        &&& crate::boundary::guard_contents(self.shared) is Some
        &&& self.read_offset matches Some(offset) ==> {
            &&& offset.index <= self.shared_view().frames.len()
            &&& offset.bytes == total(self.shared_view().frames.take(offset.index as int))
        }
    }

    /// The shared state.
    pub closed spec fn shared_view(&self) -> SharedView {
        crate::boundary::guard_contents(self.shared)->0@
    }

    /// The frame to be given again next.
    pub closed spec fn next(&self) -> Option<nat> {
        match self.read_offset {
            Some(offset) => Some(offset.index as nat),
            None => None,
        }
    }

    /// The pointer to the shared state.
    pub closed spec fn lock(&self) -> Arc<Mutex<Option<BodyShared>>> {
        crate::boundary::guard_lock(self.shared)
    }

    /// The pointers to the shared state were counted, and there were `references`.
    pub closed spec fn counted(&self, references: usize) -> bool {
        crate::boundary::lock_counted(self.lock(), references)
    }

    /// The frame to be given again next, if one is left.
    fn replay(&mut self) -> (r: Option<Frame<Bytes>>)
        requires
            old(self).wf(),
        ensures
            final(self).wf(),
            final(self).shared == old(self).shared,
            final(self).next() == replay_next(old(self).shared_view(), old(self).next()).1,
            match replay_next(old(self).shared_view(), old(self).next()).0 {
                Some(replayed) => r matches Some(frame) && frame_view(frame) == replayed,
                None => r is None,
            },
    {
        let shared = match guard_deref(&self.shared) {
            Some(shared) => shared,
            None => return None,
        };
        let offset = match &mut self.read_offset {
            Some(offset) => offset,
            None => return None,
        };
        if offset.index == shared.log.len() {
            self.read_offset = None;
            return match &shared.trailers {
                Some(map) => Some(trailers_frame(header_map_clone(map))),
                None => None,
            };
        }
        let buf = shared.log.get(offset.index);
        proof {
            use_type_invariant(&shared.log);
            lemma_total_take(shared.log@, offset.index as int);
        }
        offset.index = offset.index + 1;
        offset.bytes = offset.bytes + bytes_len(&buf);
        Some(data_frame(buf))
    }

    /// What to do about a request for the next frame, when there are
    /// `references` pointers to the shared state.
    pub fn next_step(&mut self, references: usize) -> (r: Step)
        requires
            old(self).wf(),
        ensures
            final(self).wf(),
            final(self).shared_view() == old(self).shared_view(),
            final(self).lock() == old(self).lock(),
            final(self).next() == replay_next(old(self).shared_view(), old(self).next()).1,
            match replay_next(old(self).shared_view(), old(self).next()).0 {
                Some(replayed) => r matches Step::Replay(frame) && frame_view(frame) == replayed,
                None => r == if references == 1 {
                    Step::Commit
                } else {
                    Step::Poll
                },
            },
    {
        match self.replay() {
            Some(frame) => Step::Replay(frame),
            None => if references == 1 {
                Step::Commit
            } else {
                Step::Poll
            },
        }
    }
}

/// One attempt's hold on the body of the request.
pub enum BodyRef {
    /// The frames are still kept for a later attempt.
    Uncommitted(Uncommitted),
    /// The rest of the body is this attempt's alone.
    Owned(Option<UnsyncBoxBody<Bytes, Status>>),
}

/// What comes of a request for the next frame.
pub struct Polled {
    /// The answer.
    pub answer: Result<PollFrame, RepeatedTrailers>,
    /// The guard of the shared state, if the attempt has just committed and has
    /// no more use for it. It is to be dropped, which unlocks the shared state
    /// for the others.
    pub released: Option<OwnedMutexGuard<Option<BodyShared>>>,
}

/// What a request for the next frame does to the shared state when the attempt
/// commits: it hands out the guard of that very state, and has left nothing in
/// it. While the attempt does not commit, it keeps its guard.
pub open spec fn releases(
    before: BodyRef,
    after: BodyRef,
    released: Option<OwnedMutexGuard<Option<BodyShared>>>,
) -> bool {
    &&& released is Some <==> before is Uncommitted && after is Owned
    &&& released matches Some(guard) ==> {
        &&& crate::boundary::guard_contents(guard) is None
        &&& before.lock() == Some(crate::boundary::guard_lock(guard))
    }
}

impl View for BodyRef {
    type V = RefView;

    open spec fn view(&self) -> RefView {
        match self {
            BodyRef::Uncommitted(uncommitted) => RefView::Uncommitted {
                shared: uncommitted.shared_view(),
                next: uncommitted.next(),
            },
            BodyRef::Owned(body) => RefView::Owned(*body),
        }
    }
}

/// What an attempt that has committed answers, when `polled` is what the rest of
/// the body answers, or `None` if it has ended: the answer is handed on as it
/// came, whatever it is.
pub fn owned_answer(polled: Option<PollFrame>) -> (r: PollFrame)
    ensures
        r == match polled {
            Some(answer) => answer,
            None => PollFrame::Ready(None),
        },
{
    match polled {
        Some(answer) => answer,
        None => PollFrame::Ready(None),
    }
}

/// Asks a body that is this attempt's alone for its next frame.
fn poll_owned(body: &mut Option<UnsyncBoxBody<Bytes, Status>>, cx: &mut Context<'_>) -> (r:
    PollFrame)
    ensures
        asked(*old(body), *final(body), r),
{
    let polled = match body {
        Some(body) => Some(box_body_poll_frame(body, cx)),
        None => None,
    };
    owned_answer(polled)
}

impl BodyRef {
    /// An attempt that has not committed is in order.
    pub open spec fn wf(&self) -> bool {
        self matches BodyRef::Uncommitted(uncommitted) ==> uncommitted.wf()
    }

    /// The pointer to the shared state, until the attempt commits.
    pub open spec fn lock(&self) -> Option<Arc<Mutex<Option<BodyShared>>>> {
        match self {
            BodyRef::Uncommitted(uncommitted) => Some(uncommitted.lock()),
            BodyRef::Owned(_) => None,
        }
    }

    /// A new attempt, which is given every kept frame again.
    pub fn new(shared: OwnedMutexGuard<Option<BodyShared>>) -> (r: BodyRef)
        requires
            crate::boundary::guard_contents(shared) is Some,
        ensures
            r.wf(),
            r@ == (RefView::Uncommitted {
                shared: crate::boundary::guard_contents(shared)->0@,
                next: Some(0),
            }),
            r.lock() == Some(crate::boundary::guard_lock(shared)),
    {
        BodyRef::Uncommitted(
            Uncommitted { shared, read_offset: Some(ReadOffset { index: 0, bytes: 0 }) },
        )
    }

    /// The next frame of the body: first those that were read before, then what
    /// the body yields.
    pub fn poll_frame(&mut self, cx: &mut Context<'_>) -> (r: Polled)
        requires
            old(self).wf(),
        ensures
            final(self).wf(),
            final(self).lock() is Some ==> final(self).lock() == old(self).lock(),
            exists|references: usize| #[trigger]
                polled_with(old(self)@, references, final(self)@, r.answer) && (
                *old(self) matches BodyRef::Uncommitted(uncommitted)
                    ==> uncommitted.counted(references)),
            releases(*old(self), *final(self), r.released),
    {
        let references: usize = match self {
            BodyRef::Uncommitted(uncommitted) => arc_strong_count(guard_mutex(&uncommitted.shared)),
            BodyRef::Owned(_) => 0,
        };
        let r = self.poll_frame_with(references, cx);
        assert(polled_with(old(self)@, references, self@, r.answer));
        r
    }

    /// The next frame of the body, when there are `references` pointers to the
    /// shared state.
    pub fn poll_frame_with(&mut self, references: usize, cx: &mut Context<'_>) -> (r: Polled)
        requires
            old(self).wf(),
        ensures
            final(self).wf(),
            final(self).lock() is Some ==> final(self).lock() == old(self).lock(),
            polled_with(old(self)@, references, final(self)@, r.answer),
            releases(*old(self), *final(self), r.released),
        decreases (if *old(self) is Uncommitted { 1int } else { 0int }),
    {
        match self {
            BodyRef::Owned(body) => Polled { answer: Ok(poll_owned(body, cx)), released: None },
            BodyRef::Uncommitted(uncommitted) => match uncommitted.next_step(references) {
                Step::Replay(frame) => Polled {
                    answer: Ok(PollFrame::Ready(Some(Ok(frame)))),
                    released: None,
                },
                Step::Commit => {
                    let body = take_body(guard_deref_mut(&mut uncommitted.shared));
                    let released = self.commit(body);
                    Polled { answer: self.poll_frame_with(references, cx).answer, released }
                },
                Step::Poll => {
                    let cell = guard_deref_mut(&mut uncommitted.shared);
                    let (polled, ended) = match cell {
                        Some(shared) => shared.poll_body(cx),
                        None => (PollFrame::Ready(None), false),
                    };
                    let (disposition, answer) = record_frame(cell, polled, ended);
                    let released = match disposition {
                        Disposition::Keep => None,
                        Disposition::Commit(body) => self.commit(body),
                    };
                    Polled { answer, released }
                },
            },
        }
    }

    /// Takes the rest of the body for this attempt alone, and hands out the guard
    /// of the shared state.
    fn commit(&mut self, body: Option<UnsyncBoxBody<Bytes, Status>>) -> (r: Option<
        OwnedMutexGuard<Option<BodyShared>>,
    >)
        ensures
            *final(self) == BodyRef::Owned(body),
            r == match *old(self) {
                BodyRef::Uncommitted(uncommitted) => Some(uncommitted.shared),
                BodyRef::Owned(_) => None,
            },
    {
        let mut before = BodyRef::Owned(body);
        core::mem::swap(&mut before, self);
        match before {
            BodyRef::Uncommitted(uncommitted) => Some(uncommitted.shared),
            BodyRef::Owned(_) => None,
        }
    }

    /// Whether no frame is left. The body is asked only once there is no frame to
    /// be given again.
    pub fn is_end_stream(&self) -> (r: bool)
        requires
            self.wf(),
        ensures
            said_end(self@, r),
    {
        if let BodyRef::Uncommitted(uncommitted) = self {
            if uncommitted.read_offset.is_some() {
                return false;
            }
        }
        let ended = match self.rest() {
            Some(body) => box_body_is_end_stream(body),
            None => true,
        };
        self.is_end_stream_with(ended)
    }

    /// Whether no frame is left, when `ended` is what the rest of the body says
    /// of itself.
    pub fn is_end_stream_with(&self, ended: bool) -> (r: bool)
        requires
            self.wf(),
        ensures
            r == at_end(self@, ended),
    {
        let replayed = match self {
            BodyRef::Uncommitted(uncommitted) => uncommitted.read_offset.is_none(),
            BodyRef::Owned(_) => true,
        };
        replayed && (self.rest().is_none() || ended)
    }

    /// Bounds on how many bytes of data are left: what is still to be given
    /// again is known, and the rest is what the body says of itself.
    pub fn size_hint(&self) -> (r: SizeHint)
        requires
            self.wf(),
        ensures
            said_size(self@, r),
    {
        let body = match self.rest() {
            Some(body) => box_body_size_hint(body),
            None => size_hint_with_exact(0),
        };
        size_hint_after(self.buffered_bytes(), &body)
    }

    /// How many bytes of data are still to be given again.
    pub fn buffered_bytes(&self) -> (r: u64)
        requires
            self.wf(),
        ensures
            r == buffered(self@),
            r < MAX_BUFFERED,
    {
        match self {
            BodyRef::Uncommitted(uncommitted) => match (
                guard_deref(&uncommitted.shared),
                &uncommitted.read_offset,
            ) {
                (Some(shared), Some(offset)) => {
                    proof {
                        lemma_total_take(shared.log@, offset.index as int);
                    }
                    (shared.log.byte_count() - offset.bytes) as u64
                },
                _ => 0,
            },
            BodyRef::Owned(_) => 0,
        }
    }

    /// The body that the frames after the kept ones come from.
    fn rest(&self) -> (r: Option<&UnsyncBoxBody<Bytes, Status>>)
        requires
            self.wf(),
        ensures
            match r {
                Some(body) => rest_of(self@) == Some(*body),
                None => rest_of(self@) is None,
            },
    {
        match self {
            BodyRef::Uncommitted(uncommitted) => match guard_deref(&uncommitted.shared) {
                Some(shared) => shared.body.as_ref(),
                None => None,
            },
            BodyRef::Owned(body) => body.as_ref(),
        }
    }
}

/// The bounds on what is left when `buffered` bytes come before a body with the
/// bounds `body`.
pub fn size_hint_after(buffered: u64, body: &SizeHint) -> (r: SizeHint)
    ensures
        hint_with(r, *body, buffered as int),
{
    let mut hint = size_hint_new();
    let lower: u64 = size_hint_lower(body).saturating_add(buffered);
    size_hint_set_lower(&mut hint, lower);
    if let Some(body_upper) = size_hint_upper(body) {
        if let Some(upper) = body_upper.checked_add(buffered) {
            size_hint_set_upper(&mut hint, upper);
        }
    }
    hint
}

/// The bytes that are counted are those of all frames put together.
pub proof fn total_counts_every_byte(frames: Seq<Seq<u8>>)
    ensures
        total(frames) == frames.flatten().len(),
    decreases frames.len(),
{
    if frames.len() > 0 {
        total_counts_every_byte(frames.drop_last());
        frames.drop_last().lemma_flatten_push(frames.last());
        assert(frames.drop_last().push(frames.last()) =~= frames);
    }
}

proof fn lemma_total_skip(frames: Seq<Seq<u8>>, i: int)
    requires
        0 <= i <= frames.len(),
    ensures
        total(frames) - total(frames.take(i)) == frames.skip(i).flatten().len(),
{
    assert(frames.take(i) + frames.skip(i) =~= frames);
    vstd::seq_lib::lemma_flatten_concat(frames.take(i), frames.skip(i));
    total_counts_every_byte(frames);
    total_counts_every_byte(frames.take(i));
}

/// A log begins empty.
pub proof fn new_log_is_empty(r: FrameLog)
    requires
        call_ensures(FrameLog::new, (), r),
    ensures
        r@.len() == 0,
{
}

/// What was put into a log comes out of it: the last frame of a log that has just
/// taken one is that one, and those before it are what they were.
pub proof fn logged_frames_come_back(
    log: &mut FrameLog,
    data: &Bytes,
    kept: bool,
    later: &FrameLog,
    len: usize,
    index: usize,
    r: Bytes,
)
    requires
        call_ensures(FrameLog::push, (log, data), kept),
        *later == *final(log),
        call_ensures(FrameLog::len, (later,), len),
        call_ensures(FrameLog::get, (later, index), r),
        index < len,
    ensures
        kept <==> old(log)@.flatten().len() + crate::boundary::bytes_contents(*data).len() < 262144,
        len == old(log)@.len() + if kept {
            1int
        } else {
            0
        },
        crate::boundary::bytes_contents(r) == if index < old(log)@.len() {
            old(log)@[index as int]
        } else {
            crate::boundary::bytes_contents(*data)
        },
{
    total_counts_every_byte(old(log)@);
}

/// A log counts the bytes of all its frames.
pub proof fn log_counts_every_byte(log: &FrameLog, r: usize)
    requires
        call_ensures(FrameLog::byte_count, (log,), r),
    ensures
        r == log@.flatten().len(),
        r < 262144,
{
    total_counts_every_byte(log@);
}

/// What is shared at first is the caller's body, with nothing read of it.
pub proof fn nothing_is_kept_at_first(body: Body, r: BodyShared)
    requires
        call_ensures(BodyShared::new, (body,), r),
    ensures
        r@.frames.len() == 0,
        r@.trailers is None,
        body.kind is Empty ==> r@.body is None,
        body.kind matches Kind::Wrap(inner) ==> r@.body == Some(inner),
{
}

/// An attempt begins before the first kept frame.
pub proof fn attempt_begins_at_the_first_frame(
    shared: OwnedMutexGuard<Option<BodyShared>>,
    r: BodyRef,
)
    requires
        call_ensures(BodyRef::new, (shared,), r),
    ensures
        r@ matches RefView::Uncommitted { shared: kept, next } && next == Some(0nat) && kept
            == crate::boundary::guard_contents(shared)->0@,
        r.lock() == Some(crate::boundary::guard_lock(shared)),
{
}

/// The guard is handed out with a commit, and only then: emptied, and for the
/// shared state that the attempt held.
pub proof fn guard_goes_with_the_commit(
    b: &mut BodyRef,
    references: usize,
    cx: &mut Context<'_>,
    r: Polled,
)
    requires
        call_ensures(BodyRef::poll_frame_with, (b, references, cx), r),
    ensures
        r.released is Some <==> old(b)@ is Uncommitted && final(b)@ is Owned,
        r.released matches Some(guard) ==> crate::boundary::guard_contents(guard) is None
            && old(b).lock() == Some(crate::boundary::guard_lock(guard)),
        final(b)@ is Uncommitted ==> final(b).lock() == old(b).lock(),
{
}

/// A request for the next frame goes by the pointers to the shared state as they
/// are counted: what it does is what it does for some count that was made of
/// them, and the guard goes as with that.
pub proof fn frame_is_given_by_the_count(b: &mut BodyRef, cx: &mut Context<'_>, r: Polled)
    requires
        call_ensures(BodyRef::poll_frame, (b, cx), r),
    ensures
        exists|references: usize|
            #![trigger polled_with(old(b)@, references, final(b)@, r.answer)]
            polled_with(old(b)@, references, final(b)@, r.answer) && (old(b).lock() matches Some(
                lock,
            ) ==> crate::boundary::lock_counted(lock, references)),
        r.released is Some <==> old(b)@ is Uncommitted && final(b)@ is Owned,
        r.released matches Some(guard) ==> crate::boundary::guard_contents(guard) is None
            && old(b).lock() == Some(crate::boundary::guard_lock(guard)),
        final(b)@ is Uncommitted ==> final(b).lock() == old(b).lock(),
{
}

/// What is still to be given again are the bytes of the kept frames from the
/// attempt's position on.
pub proof fn buffered_bytes_are_those_ahead(
    b: &BodyRef,
    r: u64,
    shared: SharedView,
    next: Option<nat>,
)
    requires
        call_ensures(BodyRef::buffered_bytes, (b,), r),
        b@ == (RefView::Uncommitted { shared, next }),
        next matches Some(i) ==> i <= shared.frames.len(),
    ensures
        next matches Some(i) ==> r == shared.frames.skip(i as int).flatten().len(),
        next is None ==> r == 0,
        r < 262144,
{
    if let Some(i) = next {
        lemma_total_skip(shared.frames, i as int);
    }
}

/// The reported bounds are sound: whatever amount of data the rest of the body
/// yields within its own bounds, that amount and the buffered bytes together lie
/// within the reported bounds.
pub proof fn size_hint_is_sound(buffered: u64, body: &SizeHint, r: SizeHint, amount: nat)
    requires
        call_ensures(size_hint_after, (buffered, body), r),
        crate::boundary::hint_lower(*body) <= amount,
        crate::boundary::hint_upper(*body) matches Some(upper) ==> amount <= upper,
    ensures
        crate::boundary::hint_lower(r) <= buffered + amount,
        crate::boundary::hint_upper(r) matches Some(upper) ==> buffered + amount <= upper,
{
}

/// An upper bound is reported only where the body gives one.
pub proof fn unknown_size_stays_unknown(buffered: u64, body: &SizeHint, r: SizeHint)
    requires
        call_ensures(size_hint_after, (buffered, body), r),
        crate::boundary::hint_upper(*body) is None,
    ensures
        crate::boundary::hint_upper(r) is None,
{
}

/// The reported bounds are as tight as they can be: every number that is a bound
/// on the buffered bytes together with what the body yields, and that can be
/// reported at all, is no tighter than the bound that is reported.
pub proof fn size_hint_is_tight(buffered: u64, body: &SizeHint, r: SizeHint, bound: u64)
    requires
        call_ensures(size_hint_after, (buffered, body), r),
    ensures
        bound <= buffered + crate::boundary::hint_lower(*body) ==> bound
            <= crate::boundary::hint_lower(r),
        crate::boundary::hint_upper(*body) matches Some(upper) && buffered + upper <= bound ==> {
            &&& crate::boundary::hint_upper(r) matches Some(reported)
            &&& reported <= bound
        },
{
}

/// The bounds that an attempt reports count the kept bytes from its position on,
/// and beyond them what the rest of the body says of itself.
pub proof fn attempt_reports_what_is_left(
    b: &BodyRef,
    r: SizeHint,
    shared: SharedView,
    next: Option<nat>,
)
    requires
        call_ensures(BodyRef::size_hint, (b,), r),
        b@ == (RefView::Uncommitted { shared, next }),
        next matches Some(i) ==> i <= shared.frames.len(),
        shared.frames.flatten().len() < 262144,
    ensures
        ({
            let ahead = match next {
                Some(i) => shared.frames.skip(i as int).flatten().len(),
                None => 0,
            };
            match shared.body {
                None => crate::boundary::hint_lower(r) == ahead && crate::boundary::hint_upper(r)
                    == Some(ahead as u64),
                Some(rest) => exists|hint: SizeHint| #[trigger]
                    crate::boundary::body_hinted(rest, hint) && {
                        &&& crate::boundary::hint_lower(r) <= ahead + crate::boundary::hint_lower(
                            hint,
                        )
                        &&& crate::boundary::hint_lower(r) < u64::MAX
                            ==> crate::boundary::hint_lower(r) == ahead
                            + crate::boundary::hint_lower(hint)
                        &&& match crate::boundary::hint_upper(r) {
                            Some(reported) => crate::boundary::hint_upper(hint) matches Some(upper)
                                && reported == ahead + upper,
                            None => crate::boundary::hint_upper(hint) matches Some(upper) ==> ahead
                                + upper > u64::MAX,
                        }
                    },
            }
        }),
{
    total_counts_every_byte(shared.frames);
    if let Some(i) = next {
        lemma_total_skip(shared.frames, i as int);
    }
}

/// The bounds that a committed attempt reports are those of the rest of the body.
pub proof fn committed_attempt_reports_the_bodys_size(
    b: &BodyRef,
    r: SizeHint,
    body: Option<UnsyncBoxBody<Bytes, Status>>,
)
    requires
        call_ensures(BodyRef::size_hint, (b,), r),
        b@ == RefView::Owned(body),
    ensures
        match body {
            None => crate::boundary::hint_lower(r) == 0 && crate::boundary::hint_upper(r) == Some(
                0u64,
            ),
            Some(rest) => exists|hint: SizeHint| #[trigger]
                crate::boundary::body_hinted(rest, hint) && crate::boundary::hint_lower(r)
                    == crate::boundary::hint_lower(hint) && crate::boundary::hint_upper(r)
                    == crate::boundary::hint_upper(hint),
        },
{
}

/// While an attempt has not been given every kept frame, it does not say that it
/// is at its end. After that it says so if the body has ended, and otherwise
/// says what the body, asked for it, says of itself.
pub proof fn end_is_said_after_the_kept_frames(b: &BodyRef, r: bool)
    requires
        call_ensures(BodyRef::is_end_stream, (b,), r),
    ensures
        match b@ {
            RefView::Uncommitted { shared, next } => {
                &&& next is Some ==> !r
                &&& next is None && shared.body is None ==> r
                &&& next is None ==> (shared.body matches Some(body)
                    ==> crate::boundary::body_said_end(body, r))
            },
            RefView::Owned(Some(body)) => crate::boundary::body_said_end(body, r),
            RefView::Owned(None) => r,
        },
{
}

/// As [`end_is_said_after_the_kept_frames`], where the word of the body is given.
pub proof fn end_follows_the_bodys_word(b: &BodyRef, ended: bool, r: bool)
    requires
        call_ensures(BodyRef::is_end_stream_with, (b, ended), r),
    ensures
        match b@ {
            RefView::Uncommitted { shared, next } => {
                &&& next is Some ==> !r
                &&& next is None && shared.body is None ==> r
                &&& next is None && shared.body is Some ==> r == ended
            },
            RefView::Owned(Some(_)) => r == ended,
            RefView::Owned(None) => r,
        },
{
}

/// A committed attempt hands the answers of the body on, and is at its end where
/// the body is.
pub proof fn committed_answer_is_handed_on(polled: Option<PollFrame>, r: PollFrame)
    requires
        call_ensures(owned_answer, (polled,), r),
    ensures
        polled is Some ==> Some(r) == polled,
        polled is None ==> r == PollFrame::Ready(None),
{
}

/// An error of the body commits: it is handed on, nothing is left of the shared
/// state, and the attempt has the rest of the body.
pub proof fn recorded_error_commits(
    cell: &mut Option<BodyShared>,
    error: Status,
    ended: bool,
    r: (Disposition, Result<PollFrame, RepeatedTrailers>),
)
    requires
        call_ensures(record_frame, (cell, PollFrame::Ready(Some(Err(error))), ended), r),
    ensures
        *final(cell) is None,
        r.0 == Disposition::Commit(old(cell)->0@.body),
        r.1 == Ok::<PollFrame, RepeatedTrailers>(PollFrame::Ready(Some(Err(error)))),
{
}

/// A body that is pending leaves everything as it is, and one that has ended
/// leaves everything but itself: no frame is dropped, and none is made up.
pub proof fn recorded_pause_changes_nothing(
    cell: &mut Option<BodyShared>,
    polled: PollFrame,
    ended: bool,
    r: (Disposition, Result<PollFrame, RepeatedTrailers>),
)
    requires
        call_ensures(record_frame, (cell, polled, ended), r),
        polled is Pending || polled == PollFrame::Ready(None),
    ensures
        r.0 is Keep,
        r.1 == Ok::<PollFrame, RepeatedTrailers>(polled),
        *final(cell) matches Some(later) && {
            &&& later@.frames == old(cell)->0@.frames
            &&& later@.trailers == old(cell)->0@.trailers
            &&& polled is Pending ==> later@.body == old(cell)->0@.body
            &&& !(polled is Pending) ==> later@.body is None
        },
{
}

/// A data frame is added behind the others while all bytes together stay below
/// 256 KiB, whatever was read before; otherwise it commits. Either way it is
/// handed on, and the body goes on unless it has said that it has ended.
pub proof fn recorded_data_is_kept_below_the_limit(
    cell: &mut Option<BodyShared>,
    frame: Frame<Bytes>,
    ended: bool,
    r: (Disposition, Result<PollFrame, RepeatedTrailers>),
    data: Seq<u8>,
)
    requires
        call_ensures(record_frame, (cell, PollFrame::Ready(Some(Ok(frame))), ended), r),
        crate::boundary::frame_data(frame) == Some(data),
    ensures
        r.1 == Ok::<PollFrame, RepeatedTrailers>(PollFrame::Ready(Some(Ok(frame)))),
        old(cell)->0@.frames.flatten().len() + data.len() < 262144 ==> {
            &&& r.0 is Keep
            &&& *final(cell) matches Some(later)
            &&& later@.frames == old(cell)->0@.frames.push(data)
            &&& later@.trailers == old(cell)->0@.trailers
            &&& ended ==> later@.body is None
            &&& !ended ==> later@.body == old(cell)->0@.body
        },
        old(cell)->0@.frames.flatten().len() + data.len() >= 262144 ==> {
            &&& *final(cell) is None
            &&& r.0 matches Disposition::Commit(rest)
            &&& ended ==> rest is None
            &&& !ended ==> rest == old(cell)->0@.body
        },
{
    total_counts_every_byte(old(cell)->0@.frames);
}

/// The first trailers are kept beside the data, and handed on. Trailers after
/// trailers are reported, and change nothing that is kept.
pub proof fn recorded_trailers_are_kept(
    cell: &mut Option<BodyShared>,
    frame: Frame<Bytes>,
    ended: bool,
    r: (Disposition, Result<PollFrame, RepeatedTrailers>),
    fields: Fields,
)
    requires
        call_ensures(record_frame, (cell, PollFrame::Ready(Some(Ok(frame))), ended), r),
        crate::boundary::frame_data(frame) is None,
        crate::boundary::frame_trailers(frame) == Some(fields),
    ensures
        r.0 is Keep,
        *final(cell) matches Some(later) && {
            &&& later@.frames == old(cell)->0@.frames
            &&& ended ==> later@.body is None
            &&& !ended ==> later@.body == old(cell)->0@.body
            &&& old(cell)->0@.trailers is None ==> later@.trailers == Some(fields) && r.1 == Ok::<
                PollFrame,
                RepeatedTrailers,
            >(PollFrame::Ready(Some(Ok(frame))))
            &&& old(cell)->0@.trailers is Some ==> later@.trailers == old(cell)->0@.trailers
                && r.1 is Err
        },
{
}

/// A frame that is neither data nor trailers cannot be kept: it commits, and is
/// handed on.
pub proof fn recorded_unknown_frame_commits(
    cell: &mut Option<BodyShared>,
    frame: Frame<Bytes>,
    ended: bool,
    r: (Disposition, Result<PollFrame, RepeatedTrailers>),
)
    requires
        call_ensures(record_frame, (cell, PollFrame::Ready(Some(Ok(frame))), ended), r),
        crate::boundary::frame_data(frame) is None,
        crate::boundary::frame_trailers(frame) is None,
    ensures
        *final(cell) is None,
        r.0 matches Disposition::Commit(rest) && (ended ==> rest is None) && (!ended ==> rest
            == old(cell)->0@.body),
        r.1 == Ok::<PollFrame, RepeatedTrailers>(PollFrame::Ready(Some(Ok(frame)))),
{
}

/// What an attempt does about a request for a frame: while a kept frame is left
/// it gives that one, the data in order and the trailers after it, whoever else
/// holds the shared state. Then the last holder commits, and any other asks.
pub proof fn step_gives_kept_frames_first(u: &mut Uncommitted, references: usize, r: Step)
    requires
        call_ensures(Uncommitted::next_step, (u, references), r),
    ensures
        final(u).shared_view() == old(u).shared_view(),
        final(u).lock() == old(u).lock(),
        ({
            let shared = old(u).shared_view();
            match old(u).next() {
                Some(i) if i < shared.frames.len() => {
                    &&& r matches Step::Replay(frame)
                    &&& crate::boundary::frame_data(frame) == Some(shared.frames[i as int])
                    &&& final(u).next() == Some(i + 1)
                },
                Some(_) if shared.trailers is Some => {
                    &&& r matches Step::Replay(frame)
                    &&& crate::boundary::frame_data(frame) is None
                    &&& crate::boundary::frame_trailers(frame) == shared.trailers
                    &&& final(u).next() is None
                },
                _ => {
                    &&& references == 1 ==> r is Commit
                    &&& references != 1 ==> r is Poll
                    &&& final(u).next() is None
                },
            }
        }),
{
}

} // verus!
