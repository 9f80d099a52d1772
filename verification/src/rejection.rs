//! Which failures mean that the server never processed the request.
use crate::boundary::{
    h2_is_go_away, h2_is_remote, h2_reason, hyper_is_canceled, hyper_to_string,
};
use vstd::prelude::*;

verus! {

/// The HTTP/2 error code for a graceful shutdown.
pub const NO_ERROR: u32 = 0;

/// The HTTP/2 error code for a stream that was refused before any processing.
pub const REFUSED_STREAM: u32 = 7;

/// One error of a source chain, told apart as far as retrying depends on it.
#[derive(Clone, Copy)]
pub enum ErrorLayer<'a> {
    /// An error of the HTTP client.
    Hyper(&'a hyper::Error),
    /// An error of the HTTP/2 connection or of one of its streams.
    H2(&'a h2::Error),
    /// Any other error, such as a layer that only wraps its source.
    Other,
}

/// The request waited in the client's dispatch channel when the connection task
/// went away. hyper tells this failure from others by its message alone, and
/// leaves the wording of its messages open: this is the wording of hyper 1.12.0,
/// the version that the crate is held to.
pub open spec fn dispatch_gone(e: hyper::Error) -> bool {
    crate::boundary::hyper_message(e) == "dispatch task is gone"@
}

/// The stream was reset by the peer before it was processed.
pub open spec fn refused_stream(e: h2::Error) -> bool {
    crate::boundary::h2_remote(e) && crate::boundary::h2_code(e) == Some(REFUSED_STREAM)
}

/// `j` is the first HTTP/2 error below position `i` of the chain.
pub open spec fn nearest_h2(chain: Seq<ErrorLayer<'_>>, i: int, j: int) -> bool {
    &&& i < j < chain.len()
    &&& chain[j] is H2
    &&& forall|k: int| i < k < j ==> !(#[trigger] chain[k] is H2)
}

/// The error at position `i` was caused by a GOAWAY frame with this code: the
/// nearest HTTP/2 error below it is about a GOAWAY and carries the code.
pub open spec fn go_away_with(chain: Seq<ErrorLayer<'_>>, i: int, code: u32) -> bool {
    exists|j: int| #[trigger]
        nearest_h2(chain, i, j) && crate::boundary::h2_go_away(*chain[j]->H2_0)
            && crate::boundary::h2_code(*chain[j]->H2_0) == Some(code)
}

/// The error at position `i` was not caused by a GOAWAY frame with a code.
pub open spec fn no_go_away(chain: Seq<ErrorLayer<'_>>, i: int) -> bool {
    forall|code: u32| !#[trigger] go_away_with(chain, i, code)
}

/// The error at position `i` of the chain shows that the request was never
/// processed.
pub open spec fn layer_rejects(chain: Seq<ErrorLayer<'_>>, i: int) -> bool {
    match chain[i] {
        ErrorLayer::Hyper(e) => {
            ||| go_away_with(chain, i, NO_ERROR)
            ||| crate::boundary::hyper_canceled(*e)
            ||| dispatch_gone(*e)
        },
        ErrorLayer::H2(e) => refused_stream(*e),
        ErrorLayer::Other => false,
    }
}

/// Some error of the chain shows that the request was never processed.
pub open spec fn rejected(chain: Seq<ErrorLayer<'_>>) -> bool {
    exists|i: int| 0 <= i < chain.len() && #[trigger] layer_rejects(chain, i)
}

/// The code of the GOAWAY frame that caused the error at position `i`: that of
/// the nearest HTTP/2 error below it, if that one is about a GOAWAY.
pub fn h2_go_away_reason(chain: &[ErrorLayer<'_>], i: usize) -> (r: Option<u32>)
    requires
        i < chain@.len(),
    ensures
        forall|code: u32| r == Some(code) <==> #[trigger] go_away_with(chain@, i as int, code),
        r matches Some(code) ==> go_away_with(chain@, i as int, code),
        r is None ==> no_go_away(chain@, i as int),
{
    let len: usize = chain.len();
    let mut j: usize = i + 1;
    while j < len
        invariant
            len == chain@.len(),
            i < j <= chain@.len(),
            forall|k: int| i < k < j ==> !(#[trigger] chain@[k] is H2),
        decreases chain@.len() - j,
    {
        if let ErrorLayer::H2(e) = chain[j] {
            let r = if h2_is_go_away(e) {
                h2_reason(e)
            } else {
                None
            };
            proof {
                assert(nearest_h2(chain@, i as int, j as int));
                assert forall|code: u32| #[trigger]
                    go_away_with(chain@, i as int, code) implies r == Some(code) by {
                    let other = choose|other: int| #[trigger]
                        nearest_h2(chain@, i as int, other) && crate::boundary::h2_go_away(
                            *chain@[other]->H2_0,
                        ) && crate::boundary::h2_code(*chain@[other]->H2_0) == Some(code);
                    assert(other == j) by {
                        if other < j {
                            assert(chain@[other] is H2);
                        } else if j < other {
                            assert(chain@[j as int] is H2);
                        }
                    }
                }
            }
            return r;
        }
        j = j + 1;
    }
    None
}

/// Whether a hyper error says that the dispatch task is gone.
pub fn is_dispatch_gone(e: &hyper::Error) -> (r: bool)
    ensures
        r == dispatch_gone(*e),
{
    hyper_to_string(e) == "dispatch task is gone".to_owned()
}

/// Returns true if the error indicates a request that was never processed by
/// the server and is unconditionally safe to retry (RFC 9113, section 6.8, and
/// gRFC A6). `chain` is the error followed by its sources, outermost first.
///
/// This covers four cases:
/// - GOAWAY with NO_ERROR: the server is shutting down gracefully, and the
///   stream was opened too late
/// - REFUSED_STREAM: the peer reset a stream whose headers were on the wire
///   but whose identifier was above the last one it was going to process
/// - canceled: the request was still queued in the client's dispatch channel
///   when the channel was dropped
/// - dispatch gone: the connection task exited while requests were queued in
///   the client's dispatch channel
pub fn is_retryable_stream_rejection(chain: &[ErrorLayer<'_>]) -> (r: bool)
    ensures
        r == rejected(chain@),
{
    let mut i: usize = 0;
    while i < chain.len()
        invariant
            i <= chain@.len(),
            forall|k: int| 0 <= k < i ==> !#[trigger] layer_rejects(chain@, k),
        decreases chain@.len() - i,
    {
        let rejects = match chain[i] {
            ErrorLayer::Hyper(e) => {
                let code = h2_go_away_reason(chain, i);
                (match code {
                    Some(code) => code == NO_ERROR,
                    None => false,
                }) || hyper_is_canceled(e) || is_dispatch_gone(e)
            },
            ErrorLayer::H2(e) => h2_is_remote(e) && (match h2_reason(e) {
                Some(code) => code == REFUSED_STREAM,
                None => false,
            }),
            ErrorLayer::Other => false,
        };
        assert(rejects == layer_rejects(chain@, i as int));
        if rejects {
            return true;
        }
        i = i + 1;
    }
    false
}

/// A layer that only wraps its source changes nothing: the wrapped error is
/// retryable if and only if its source is.
pub proof fn wrapping_keeps_verdict(chain: Seq<ErrorLayer<'_>>)
    ensures
        rejected(seq![ErrorLayer::Other] + chain) == rejected(chain),
{
    let wrapped = seq![ErrorLayer::Other] + chain;
    assert forall|i: int| 0 <= i < chain.len() implies #[trigger] layer_rejects(chain, i)
        == layer_rejects(wrapped, i + 1) by {
        assert forall|j: int| nearest_h2(chain, i, j) implies #[trigger] nearest_h2(
            wrapped,
            i + 1,
            j + 1,
        ) by {
            assert(wrapped[j + 1] == chain[j]);
            assert forall|k: int| i + 1 < k < j + 1 implies !(#[trigger] wrapped[k] is H2) by {
                assert(wrapped[k] == chain[k - 1]);
            }
        }
        assert forall|j: int| #[trigger] nearest_h2(wrapped, i + 1, j) implies nearest_h2(
            chain,
            i,
            j - 1,
        ) by {
            assert(wrapped[j] == chain[j - 1]);
            assert forall|k: int| i < k < j - 1 implies !(#[trigger] chain[k] is H2) by {
                assert(wrapped[k + 1] == chain[k]);
            }
        }
        assert(wrapped[i + 1] == chain[i]);
        if go_away_with(chain, i, NO_ERROR) {
            let j = choose|j: int| #[trigger]
                nearest_h2(chain, i, j) && crate::boundary::h2_go_away(*chain[j]->H2_0)
                    && crate::boundary::h2_code(*chain[j]->H2_0) == Some(NO_ERROR);
            assert(nearest_h2(wrapped, i + 1, j + 1));
            assert(wrapped[j + 1] == chain[j]);
        }
        if go_away_with(wrapped, i + 1, NO_ERROR) {
            let j = choose|j: int| #[trigger]
                nearest_h2(wrapped, i + 1, j) && crate::boundary::h2_go_away(*wrapped[j]->H2_0)
                    && crate::boundary::h2_code(*wrapped[j]->H2_0) == Some(NO_ERROR);
            assert(nearest_h2(chain, i, j - 1));
            assert(wrapped[j] == chain[j - 1]);
        }
    }
    if rejected(chain) {
        let i = choose|i: int| 0 <= i < chain.len() && #[trigger] layer_rejects(chain, i);
        assert(layer_rejects(wrapped, i + 1));
    }
    if rejected(wrapped) {
        let i = choose|i: int| 0 <= i < wrapped.len() && #[trigger] layer_rejects(wrapped, i);
        assert(wrapped[0] == ErrorLayer::Other);
        assert(layer_rejects(chain, i - 1));
    }
}

/// What is said of a failure is said of its whole chain.
pub proof fn verdict_is_of_the_chain(chain: &[ErrorLayer<'_>], r: bool)
    requires
        call_ensures(is_retryable_stream_rejection, (chain,), r),
    ensures
        r == rejected(chain@),
{
}

/// A stream that the peer reset with REFUSED_STREAM, wherever in the chain that
/// stands, makes the failure retryable.
pub proof fn refused_stream_is_retryable(chain: Seq<ErrorLayer<'_>>, i: int)
    requires
        0 <= i < chain.len(),
        chain[i] matches ErrorLayer::H2(e) && crate::boundary::h2_remote(*e)
            && crate::boundary::h2_code(*e) == Some(7u32),
    ensures
        rejected(chain),
{
    assert(layer_rejects(chain, i));
}

/// A request that the client canceled in its dispatch channel, or whose dispatch
/// task went away, is retryable, wherever in the chain that stands.
pub proof fn undispatched_request_is_retryable(chain: Seq<ErrorLayer<'_>>, i: int)
    requires
        0 <= i < chain.len(),
        chain[i] matches ErrorLayer::Hyper(e) && (crate::boundary::hyper_canceled(*e)
            || crate::boundary::hyper_message(*e) == "dispatch task is gone"@),
    ensures
        rejected(chain),
{
    assert(layer_rejects(chain, i));
}

/// A client error whose nearest HTTP/2 error is a GOAWAY without an error code is
/// retryable, however the two are wrapped.
pub proof fn graceful_shutdown_is_retryable(chain: Seq<ErrorLayer<'_>>, i: int, j: int)
    requires
        0 <= i < j < chain.len(),
        chain[i] is Hyper,
        chain[j] matches ErrorLayer::H2(e) && crate::boundary::h2_go_away(*e)
            && crate::boundary::h2_code(*e) == Some(0u32),
        forall|k: int| i < k < j ==> !(#[trigger] chain[k] is H2),
    ensures
        rejected(chain),
{
    assert(nearest_h2(chain, i, j));
    assert(go_away_with(chain, i, NO_ERROR));
    assert(layer_rejects(chain, i));
}

/// Nothing else is retryable: a retryable failure has, at the position `cause.0`
/// of its chain, a stream that the peer refused, or a client error that was
/// never dispatched, or one whose nearest HTTP/2 error, at `cause.1`, is a GOAWAY
/// without an error code.
pub proof fn retryable_failure_has_cause(chain: Seq<ErrorLayer<'_>>) -> (cause: (int, int))
    requires
        rejected(chain),
    ensures
        0 <= cause.0 < chain.len(),
        match chain[cause.0] {
            ErrorLayer::H2(e) => crate::boundary::h2_remote(*e) && crate::boundary::h2_code(*e)
                == Some(7u32),
            ErrorLayer::Hyper(e) => {
                ||| crate::boundary::hyper_canceled(*e)
                ||| crate::boundary::hyper_message(*e) == "dispatch task is gone"@
                ||| {
                    &&& cause.0 < cause.1 < chain.len()
                    &&& chain[cause.1] matches ErrorLayer::H2(below)
                    &&& crate::boundary::h2_go_away(*below)
                    &&& crate::boundary::h2_code(*below) == Some(0u32)
                    &&& forall|k: int| cause.0 < k < cause.1 ==> !(#[trigger] chain[k] is H2)
                }
            },
            ErrorLayer::Other => false,
        },
{
    let i = choose|i: int| 0 <= i < chain.len() && #[trigger] layer_rejects(chain, i);
    let j = choose|j: int| #[trigger]
        nearest_h2(chain, i, j) && crate::boundary::h2_go_away(*chain[j]->H2_0)
            && crate::boundary::h2_code(*chain[j]->H2_0) == Some(NO_ERROR);
    (i, j)
}

/// Without a client error in the chain only a stream that the peer refused is
/// retryable: some HTTP/2 error came from the peer, and its code is that of
/// REFUSED_STREAM and no other.
pub proof fn only_refused_streams_are_retryable_alone(chain: Seq<ErrorLayer<'_>>)
    requires
        forall|i: int| 0 <= i < chain.len() ==> !(#[trigger] chain[i] is Hyper),
    ensures
        rejected(chain) <==> exists|i: int|
            0 <= i < chain.len() && (#[trigger] chain[i] matches ErrorLayer::H2(e)
                && crate::boundary::h2_remote(*e) && crate::boundary::h2_code(*e) == Some(7u32)),
{
    if rejected(chain) {
        let cause = retryable_failure_has_cause(chain);
        assert(chain[cause.0] is H2);
    }
    if exists|i: int|
        0 <= i < chain.len() && (#[trigger] chain[i] matches ErrorLayer::H2(e)
            && crate::boundary::h2_remote(*e) && crate::boundary::h2_code(*e) == Some(7u32)) {
        let i = choose|i: int|
            0 <= i < chain.len() && (#[trigger] chain[i] matches ErrorLayer::H2(e)
                && crate::boundary::h2_remote(*e) && crate::boundary::h2_code(*e) == Some(7u32));
        refused_stream_is_retryable(chain, i);
    }
}

/// A reset stream is retryable for one code alone: two errors of the peer that
/// are both retryable carry the same code, and an error that was made here is
/// never retryable.
pub proof fn resets_differ_by_their_code(a: &h2::Error, b: &h2::Error)
    requires
        rejected(seq![ErrorLayer::H2(a)]),
    ensures
        crate::boundary::h2_remote(*a),
        rejected(seq![ErrorLayer::H2(b)]) <==> crate::boundary::h2_remote(*b)
            && crate::boundary::h2_code(*b) == crate::boundary::h2_code(*a),
{
    let one = seq![ErrorLayer::H2(a)];
    let other = seq![ErrorLayer::H2(b)];
    let cause = retryable_failure_has_cause(one);
    assert(one[cause.0] == ErrorLayer::H2(a));
    if rejected(other) {
        let cause = retryable_failure_has_cause(other);
        assert(other[cause.0] == ErrorLayer::H2(b));
    }
    if crate::boundary::h2_remote(*b) && crate::boundary::h2_code(*b)
        == crate::boundary::h2_code(*a) {
        assert(other[0] == ErrorLayer::H2(b));
        refused_stream_is_retryable(other, 0);
    }
}

/// An error is retryable if its source is, whatever wraps it.
pub proof fn retryable_source_makes_error_retryable(
    outer: Seq<ErrorLayer<'_>>,
    chain: Seq<ErrorLayer<'_>>,
)
    requires
        rejected(chain),
    ensures
        rejected(outer + chain),
{
    let whole = outer + chain;
    let n = outer.len() as int;
    let (i, j) = retryable_failure_has_cause(chain);
    assert(whole[n + i] == chain[i]);
    match chain[i] {
        ErrorLayer::H2(_) => refused_stream_is_retryable(whole, n + i),
        ErrorLayer::Hyper(e) => if crate::boundary::hyper_canceled(*e)
            || crate::boundary::hyper_message(*e) == "dispatch task is gone"@ {
            undispatched_request_is_retryable(whole, n + i);
        } else {
            assert(whole[n + j] == chain[j]);
            assert forall|k: int| n + i < k < n + j implies !(#[trigger] whole[k] is H2) by {
                assert(whole[k] == chain[k - n]);
            }
            graceful_shutdown_is_retryable(whole, n + i, n + j);
        },
        ErrorLayer::Other => {},
    }
}

/// A layer that says nothing changes nothing, wherever in the chain it stands.
pub proof fn plain_layer_keeps_verdict(outer: Seq<ErrorLayer<'_>>, inner: Seq<ErrorLayer<'_>>)
    ensures
        rejected(outer + seq![ErrorLayer::Other] + inner) == rejected(outer + inner),
{
    let bare = outer + inner;
    let padded = outer + seq![ErrorLayer::Other] + inner;
    let n = outer.len() as int;
    assert(padded[n] == ErrorLayer::Other);
    assert forall|k: int| 0 <= k < bare.len() implies #[trigger] bare[k] == padded[if k < n {
        k
    } else {
        k + 1
    }] by {}
    if rejected(bare) {
        let (i, j) = retryable_failure_has_cause(bare);
        let at = if i < n {
            i
        } else {
            i + 1
        };
        let below = if j < n {
            j
        } else {
            j + 1
        };
        assert(padded[at] == bare[i]);
        match bare[i] {
            ErrorLayer::H2(_) => refused_stream_is_retryable(padded, at),
            ErrorLayer::Hyper(e) => if crate::boundary::hyper_canceled(*e)
                || crate::boundary::hyper_message(*e) == "dispatch task is gone"@ {
                undispatched_request_is_retryable(padded, at);
            } else {
                assert(padded[below] == bare[j]);
                assert forall|k: int| at < k < below implies !(#[trigger] padded[k] is H2) by {
                    if k < n {
                        assert(padded[k] == bare[k]);
                    } else if k > n {
                        assert(padded[k] == bare[k - 1]);
                    }
                }
                graceful_shutdown_is_retryable(padded, at, below);
            },
            ErrorLayer::Other => {},
        }
    }
    if rejected(padded) {
        let (i, j) = retryable_failure_has_cause(padded);
        assert(i != n);
        let at = if i < n {
            i
        } else {
            i - 1
        };
        let below = if j < n {
            j
        } else {
            j - 1
        };
        assert(bare[at] == padded[i]);
        match padded[i] {
            ErrorLayer::H2(_) => refused_stream_is_retryable(bare, at),
            ErrorLayer::Hyper(e) => if crate::boundary::hyper_canceled(*e)
                || crate::boundary::hyper_message(*e) == "dispatch task is gone"@ {
                undispatched_request_is_retryable(bare, at);
            } else {
                assert(j != n);
                assert(bare[below] == padded[j]);
                assert forall|k: int| at < k < below implies !(#[trigger] bare[k] is H2) by {
                    if k < n {
                        assert(padded[k] == bare[k]);
                    } else {
                        assert(padded[k + 1] == bare[k]);
                    }
                }
                graceful_shutdown_is_retryable(bare, at, below);
            },
            ErrorLayer::Other => {},
        }
    }
}

/// The GOAWAY code below the position `i` is that of the nearest HTTP/2 error,
/// at `j`, if that is about a GOAWAY; errors further down do not count.
pub proof fn go_away_code_is_the_nearest(
    chain: &[ErrorLayer<'_>],
    i: usize,
    j: int,
    r: Option<u32>,
)
    requires
        call_ensures(h2_go_away_reason, (chain, i), r),
        i < j < chain@.len(),
        chain@[j] is H2,
        forall|k: int| i < k < j ==> !(#[trigger] chain@[k] is H2),
    ensures
        chain@[j] matches ErrorLayer::H2(e) && r == if crate::boundary::h2_go_away(*e) {
            crate::boundary::h2_code(*e)
        } else {
            None
        },
{
    assert(nearest_h2(chain@, i as int, j));
    let e = chain@[j]->H2_0;
    if crate::boundary::h2_go_away(*e) && crate::boundary::h2_code(*e) is Some {
        assert(go_away_with(chain@, i as int, crate::boundary::h2_code(*e)->0));
    } else if r is Some {
        assert(go_away_with(chain@, i as int, r->0));
        let other = choose|other: int| #[trigger]
            nearest_h2(chain@, i as int, other) && crate::boundary::h2_go_away(
                *chain@[other]->H2_0,
            ) && crate::boundary::h2_code(*chain@[other]->H2_0) == r;
        assert(other == j) by {
            if other < j {
                assert(chain@[other] is H2);
            } else if j < other {
                assert(chain@[j] is H2);
            }
        }
    }
}

/// Where no HTTP/2 error stands below the position `i`, there is no GOAWAY code.
pub proof fn go_away_code_needs_an_h2_error(chain: &[ErrorLayer<'_>], i: usize, r: Option<u32>)
    requires
        call_ensures(h2_go_away_reason, (chain, i), r),
        forall|k: int| i < k < chain@.len() ==> !(#[trigger] chain@[k] is H2),
    ensures
        r is None,
{
    if r is Some {
        assert(go_away_with(chain@, i as int, r->0));
    }
}

/// The message of a client error alone decides whether its dispatch task is
/// gone, and one message alone says so.
pub proof fn dispatch_gone_is_one_message(a: &hyper::Error, b: &hyper::Error, r: bool, s: bool)
    requires
        call_ensures(is_dispatch_gone, (a,), r),
        call_ensures(is_dispatch_gone, (b,), s),
    ensures
        r == (crate::boundary::hyper_message(*a) == "dispatch task is gone"@),
        r && s ==> crate::boundary::hyper_message(*a) == crate::boundary::hyper_message(*b),
{
}

} // verus!
