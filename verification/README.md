# goaway_retry

Transparent retry of HTTP/2 requests that the server rejected before it
processed them, with the deciding parts verified by Verus.

- `src/rejection.rs`: which failures show that a request was never processed
- `src/retry.rs`: the retry layer, and when a request is sent again
- `src/body.rs`: a request body that can be read again from its first frame
- `src/replay.rs`: what the attempts at one request see of its body, proved
- `src/call.rs`: what one request's attempts send, proved from the pieces
- `src/boundary.rs`: the outside types and calls, taken on trust
- `app/lib.rs`: the layer as a `tower_service::Service`
- `tests/`: tests on concrete values, with the outside crates linked

hyper has no predicate for a GOAWAY code or for a dispatch task that is gone.
The first is read off the HTTP/2 error below the client's error in the source
chain, the second off the client error's message.
