//! The decisions of one connection: after each read, whether to answer and
//! with which bytes, and whether to read again. The caller does the reading
//! and writing.
use vstd::prelude::*;
use crate::request::{parse_request, Request, RequestView};
use crate::response::{default_view, wire, HttpResponseCode, Response, ResponseView};
use crate::router::{first_match, Handler, Router};
use crate::text::{decode_utf8_text, lower_of};
use vstd::string::StringExecFns;
use vstd::utf8::{decode_utf8, valid_utf8};

verus! {

/// What one read from the connection gave.
pub enum ReadOutcome {
    /// The bytes read; none when the peer has closed its side.
    Received(Vec<u8>),
    /// The idle time ran out before anything came.
    TimedOut,
    /// Reading failed otherwise.
    Failed,
}

/// What to do after a read.
pub enum Step {
    /// Release the connection without answering.
    Close,
    /// Send `bytes`; then read the next request if `keep_alive`, else close.
    Respond { bytes: Vec<u8>, keep_alive: bool },
}

/// Where a connection stands after a response was written.
#[derive(Debug, Clone, Copy, PartialEq, Eq, Structural)]
pub enum ConnState {
    /// Read the next request on the same connection.
    Reading,
    /// Release the connection.
    Closed,
}

/// The state after writing a response: the connection is read again only
/// when the write went through and the step asked to keep it.
pub fn after_write(keep_alive: bool, written: bool) -> (r: ConnState)
    ensures
        r == (if keep_alive && written {
            ConnState::Reading
        } else {
            ConnState::Closed
        }),
{
    if keep_alive && written {
        ConnState::Reading
    } else {
        ConnState::Closed
    }
}

/// The request asks for the connection to be closed after it.
pub open spec fn close_requested(v: RequestView) -> bool {
    v.headers.contains_key(lower_of("Connection"@)) && v.headers[lower_of("Connection"@)] == "close"@
}

/// The request that the bytes `data` hold: UTF-8 text that parses.
pub fn read_request(data: &[u8]) -> (r: Result<Request, String>)
    ensures
        !valid_utf8(data@) ==> (r matches Err(e) && e@ == "Failure to convert bytes to string"@),
        valid_utf8(data@) ==> (match parse_request(decode_utf8(data@)) {
            Ok(v) => r matches Ok(req) && req@ == v,
            Err(e) => r matches Err(msg) && msg@ == e,
        }),
{
    match decode_utf8_text(data) {
        Some(text) => Request::new(text.as_str()),
        None => Err(String::from_str("Failure to convert bytes to string")),
    }
}

/// The step after a read: close on a timeout, a failure or a closed peer;
/// answer `400 Bad Request` and close on bytes that are no request; else
/// answer through the router and keep the connection unless the request
/// asked to close it.
pub fn next_step<Ctx, H: Handler<Ctx>>(router: &Router<H>, ctx: &Ctx, outcome: ReadOutcome) -> (r: Step)
    ensures
        match outcome {
            ReadOutcome::Received(data) => if data@.len() == 0 {
                r is Close
            } else if !valid_utf8(data@) || parse_request(decode_utf8(data@)) is Err {
                r matches Step::Respond { bytes, keep_alive } && bytes@ == wire(
                    default_view(HttpResponseCode::R400),
                ) && !keep_alive
            } else {
                let v = parse_request(decode_utf8(data@))->Ok_0;
                r matches Step::Respond { bytes, keep_alive } && keep_alive == !close_requested(v)
                    && (exists|w: ResponseView| bytes@ == wire(w)) && (first_match(router.table(), v.method, v.path) is None ==> bytes@ == wire(
                    default_view(HttpResponseCode::R404),
                ))
            },
            _ => r is Close,
        },
{
    match outcome {
        ReadOutcome::Received(data) => {
            if data.len() == 0 {
                return Step::Close;
            }
            match read_request(data.as_slice()) {
                Ok(req) => {
                    let keep_alive = !req.has_connection_close_header();
                    let response = router.handle_request(req, ctx);
                    let bytes = response.to_bytes();
                    assert(bytes@ == wire(response@));
                    Step::Respond { bytes, keep_alive }
                },
                Err(_) => Step::Respond { bytes: Response::bad_request().to_bytes(), keep_alive: false },
            }
        },
        _ => Step::Close,
    }
}

} // verus!
