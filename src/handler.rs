//! What a connection is answered: the request is classified, the outcomes of
//! the wake sends are aggregated, and the response is written out.

use vstd::prelude::*;

verus! {

/// What an inbound request asks for.
#[derive(Debug, Clone, Copy, PartialEq, Eq, Structural)]
pub enum RequestKind {
    /// The request line is `GET / HTTP/1.1`: wake the registered machines.
    WakeTrigger,
    /// Anything else.
    Unrecognized,
}

/// Status of a response.
#[derive(Debug, Clone, Copy, PartialEq, Eq, Structural)]
pub enum Status {
    /// `200 OK`.
    Success,
    /// `503 Service Unavailable`.
    ServiceUnavailable,
    /// `404 Not Found`.
    NotFound,
}

/// Which of the two static resources a response carries as its body.
#[derive(Debug, Clone, Copy, PartialEq, Eq, Structural)]
pub enum Body {
    Success,
    Error,
}

/// The request line of a wake-trigger request: `GET / HTTP/1.1` and CR LF.
pub open spec fn wake_request_line() -> Seq<u8> {
    seq![71u8, 69u8, 84u8, 32u8, 47u8, 32u8, 72u8, 84u8, 84u8, 80u8, 47u8, 49u8, 46u8, 49u8, 13u8, 10u8]
}

/// `request` starts with the wake-trigger request line; what follows it does not matter.
pub open spec fn is_wake_trigger(request: Seq<u8>) -> bool {
    request.len() >= wake_request_line().len() && request.subrange(
        0,
        wake_request_line().len() as int,
    ) == wake_request_line()
}

/// The kind of `request`.
pub open spec fn kind_of(request: Seq<u8>) -> RequestKind {
    if is_wake_trigger(request) {
        RequestKind::WakeTrigger
    } else {
        RequestKind::Unrecognized
    }
}

/// Every send succeeded; true of no sends at all.
pub open spec fn all_true(results: Seq<bool>) -> bool {
    forall|i: int| 0 <= i < results.len() ==> #[trigger] results[i]
}

/// The status and body that answer a request of `kind` after sends whose
/// aggregate outcome is `all_ok`.
pub open spec fn choice_of(kind: RequestKind, all_ok: bool) -> (Status, Body) {
    match kind {
        RequestKind::WakeTrigger => if all_ok {
            (Status::Success, Body::Success)
        } else {
            (Status::ServiceUnavailable, Body::Error)
        },
        RequestKind::Unrecognized => (Status::NotFound, Body::Error),
    }
}

/// The status line of a response, without its line end.
pub open spec fn status_line_of(status: Status) -> Seq<u8> {
    match status {
        Status::Success => seq![72u8, 84u8, 84u8, 80u8, 47u8, 49u8, 46u8, 49u8, 32u8, 50u8, 48u8, 48u8, 32u8, 79u8, 75u8],
        Status::ServiceUnavailable => seq![72u8, 84u8, 84u8, 80u8, 47u8, 49u8, 46u8, 49u8, 32u8, 53u8, 48u8, 51u8, 32u8, 83u8, 101u8, 114u8, 118u8, 105u8, 99u8, 101u8, 32u8, 85u8, 110u8, 97u8, 118u8, 97u8, 105u8, 108u8, 97u8, 98u8, 108u8, 101u8],
        Status::NotFound => seq![72u8, 84u8, 84u8, 80u8, 47u8, 49u8, 46u8, 49u8, 32u8, 52u8, 48u8, 52u8, 32u8, 78u8, 111u8, 116u8, 32u8, 70u8, 111u8, 117u8, 110u8, 100u8],
    }
}

/// CR LF and the name of the length header.
pub open spec fn length_header() -> Seq<u8> {
    seq![13u8, 10u8, 67u8, 111u8, 110u8, 116u8, 101u8, 110u8, 116u8, 45u8, 76u8, 101u8, 110u8, 103u8, 116u8, 104u8, 58u8, 32u8]
}

/// The end of the header line and the blank line before the body.
pub open spec fn header_end() -> Seq<u8> {
    seq![13u8, 10u8, 13u8, 10u8]
}

/// The decimal digits of `n`, most significant first, without leading zeros.
pub open spec fn decimal_of(n: nat) -> Seq<u8>
    decreases n,
{
    if n < 10 {
        seq![(48 + n) as u8]
    } else {
        decimal_of(n / 10).push((48 + n % 10) as u8)
    }
}

/// A response: status line, a `Content-Length` header giving the body's length
/// in bytes, a blank line, then the body.
pub open spec fn response_bytes(status: Status, body: Seq<u8>) -> Seq<u8> {
    status_line_of(status) + length_header() + decimal_of(body.len()) + header_end() + body
}

/// The response to `request` after sends with outcomes `results`.
pub open spec fn response_for(
    request: Seq<u8>,
    results: Seq<bool>,
    success_body: Seq<u8>,
    error_body: Seq<u8>,
) -> Seq<u8> {
    let (status, body) = choice_of(kind_of(request), all_true(results));
    response_bytes(
        status,
        match body {
            Body::Success => success_body,
            Body::Error => error_body,
        },
    )
}

/// Tells a wake-trigger request from any other.
pub fn classify(request: &[u8]) -> (r: RequestKind)
    ensures
        r == kind_of(request@),
{
    let line: [u8; 16] = [71, 69, 84, 32, 47, 32, 72, 84, 84, 80, 47, 49, 46, 49, 13, 10];
    assert(line@ =~= wake_request_line());
    if request.len() < 16 {
        return RequestKind::Unrecognized;
    }
    let mut i: usize = 0;
    while i < 16
        invariant
            i <= 16,
            request@.len() >= 16,
            line@ == wake_request_line(),
            forall|j: int| 0 <= j < i ==> request@[j] == line@[j],
        decreases 16 - i,
    {
        if request[i] != line[i] {
            assert(request@.subrange(0, 16)[i as int] != wake_request_line()[i as int]);
            return RequestKind::Unrecognized;
        }
        i = i + 1;
    }
    assert(request@.subrange(0, 16) =~= wake_request_line());
    RequestKind::WakeTrigger
}

/// Whether every send succeeded.
pub fn all_succeeded(results: &[bool]) -> (r: bool)
    ensures
        r == all_true(results@),
{
    let mut i: usize = 0;
    while i < results.len()
        invariant
            i <= results@.len(),
            forall|j: int| 0 <= j < i ==> #[trigger] results@[j],
        decreases results.len() - i,
    {
        if !results[i] {
            return false;
        }
        i = i + 1;
    }
    true
}

/// Picks the status and the body resource of the response.
pub fn select_response(kind: RequestKind, all_ok: bool) -> (r: (Status, Body))
    ensures
        r == choice_of(kind, all_ok),
{
    match kind {
        RequestKind::WakeTrigger => if all_ok {
            (Status::Success, Body::Success)
        } else {
            (Status::ServiceUnavailable, Body::Error)
        },
        RequestKind::Unrecognized => (Status::NotFound, Body::Error),
    }
}

/// Appends `b` to `out`.
fn push_bytes(out: &mut Vec<u8>, b: &[u8])
    ensures
        final(out)@ == old(out)@ + b@,
{
    let mut i: usize = 0;
    while i < b.len()
        invariant
            i <= b@.len(),
            out@ == old(out)@ + b@.subrange(0, i as int),
        decreases b.len() - i,
    {
        out.push(b[i]);
        i = i + 1;
        assert(out@ =~= old(out)@ + b@.subrange(0, i as int));
    }
    assert(b@.subrange(0, b@.len() as int) =~= b@);
}

/// Appends the decimal digits of `n` to `out`.
fn push_decimal(out: &mut Vec<u8>, n: usize)
    ensures
        final(out)@ == old(out)@ + decimal_of(n as nat),
    decreases n,
{
    if n >= 10 {
        push_decimal(out, n / 10);
    }
    out.push((48 + n % 10) as u8);
    assert(out@ =~= old(out)@ + decimal_of(n as nat));
}

/// Appends the status line of `status` to `out`.
fn push_status_line(out: &mut Vec<u8>, status: Status)
    ensures
        final(out)@ == old(out)@ + status_line_of(status),
{
    match status {
        Status::Success => {
            let line: [u8; 15] = [72, 84, 84, 80, 47, 49, 46, 49, 32, 50, 48, 48, 32, 79, 75];
            assert(line@ =~= status_line_of(status));
            push_bytes(out, line.as_slice());
        },
        Status::ServiceUnavailable => {
            let line: [u8; 32] = [72, 84, 84, 80, 47, 49, 46, 49, 32, 53, 48, 51, 32, 83, 101, 114, 118, 105, 99, 101, 32, 85, 110, 97, 118, 97, 105, 108, 97, 98, 108, 101];
            assert(line@ =~= status_line_of(status));
            push_bytes(out, line.as_slice());
        },
        Status::NotFound => {
            let line: [u8; 22] = [72, 84, 84, 80, 47, 49, 46, 49, 32, 52, 48, 52, 32, 78, 111, 116, 32, 70, 111, 117, 110, 100];
            assert(line@ =~= status_line_of(status));
            push_bytes(out, line.as_slice());
        },
    }
}

/// Writes a response with `status` and `body`.
pub fn render_response(status: Status, body: &[u8]) -> (r: Vec<u8>)
    ensures
        r@ == response_bytes(status, body@),
{
    let mut out: Vec<u8> = Vec::new();
    push_status_line(&mut out, status);
    let header: [u8; 18] = [13, 10, 67, 111, 110, 116, 101, 110, 116, 45, 76, 101, 110, 103, 116, 104, 58, 32];
    assert(header@ =~= length_header());
    push_bytes(&mut out, header.as_slice());
    push_decimal(&mut out, body.len());
    let end: [u8; 4] = [13, 10, 13, 10];
    assert(end@ =~= header_end());
    push_bytes(&mut out, end.as_slice());
    push_bytes(&mut out, body);
    assert(out@ =~= response_bytes(status, body@));
    out
}

/// The response to `request`, after one send per registered machine with
/// outcomes `results`: `200 OK` with `success_body` when the request is a wake
/// trigger and every send succeeded, `503` with `error_body` when it is one and
/// a send failed, `404` with `error_body` otherwise.
pub fn respond(request: &[u8], results: &[bool], success_body: &[u8], error_body: &[u8]) -> (r:
    Vec<u8>)
    ensures
        r@ == response_for(request@, results@, success_body@, error_body@),
{
    let kind = classify(request);
    let all_ok = all_succeeded(results);
    let (status, body) = select_response(kind, all_ok);
    match body {
        Body::Success => render_response(status, success_body),
        Body::Error => render_response(status, error_body),
    }
}

/// The aggregate outcome is the logical AND of the individual outcomes: it
/// holds of no outcomes at all, and one more outcome joins by conjunction.
pub proof fn lemma_outcome_is_conjunction(results: Seq<bool>, next: bool)
    ensures
        all_true(Seq::<bool>::empty()),
        all_true(results.push(next)) == (all_true(results) && next),
{
    if all_true(results) && next {
        assert forall|i: int| 0 <= i < results.push(next).len() implies #[trigger] results.push(
            next,
        )[i] by {
            if i < results.len() {
                assert(results.push(next)[i] == results[i]);
            }
        }
    }
    if all_true(results.push(next)) {
        assert(results.push(next)[results.len() as int] == next);
        assert forall|i: int| 0 <= i < results.len() implies #[trigger] results[i] by {
            assert(results.push(next)[i] == results[i]);
        }
    }
}

/// With no machine registered, a wake-trigger request is answered `200 OK`
/// with the success body.
pub proof fn lemma_no_targets_success(request: Seq<u8>, success_body: Seq<u8>, error_body: Seq<u8>)
    requires
        is_wake_trigger(request),
    ensures
        response_for(request, Seq::<bool>::empty(), success_body, error_body) == response_bytes(
            Status::Success,
            success_body,
        ),
{
}

/// A request that starts with the wake-trigger line is a wake trigger whatever
/// bytes follow it.
pub proof fn lemma_trigger_ignores_rest(request: Seq<u8>, rest: Seq<u8>)
    requires
        is_wake_trigger(request),
    ensures
        is_wake_trigger(request + rest),
{
    assert((request + rest).subrange(0, 16) =~= request.subrange(0, 16));
}

/// Any other request, an empty or truncated read included, is answered `404`
/// with the error body, whatever the sends gave.
pub proof fn lemma_unrecognized_not_found(
    request: Seq<u8>,
    results: Seq<bool>,
    success_body: Seq<u8>,
    error_body: Seq<u8>,
)
    requires
        !is_wake_trigger(request),
    ensures
        response_for(request, results, success_body, error_body) == response_bytes(
            Status::NotFound,
            error_body,
        ),
        request.len() < 16 ==> !is_wake_trigger(request),
{
}

} // verus!
