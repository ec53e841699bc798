//! The per-request step of one connection: parse the bytes of one read,
//! derive the request facts, frame the body by `Content-Length`, and say
//! how many more body bytes the caller must read.
//!
//! The caller owns the stream: it reads, performs the file-store operation
//! of [`crate::router::route_file_op`], writes what
//! [`crate::router::route_request`] returns, and closes when the facts say
//! so.

use vstd::prelude::*;
use vstd::slice::{slice_subrange, slice_to_vec};

use crate::headers::{facts_match, hdrs, HttpHeader, RequestInfo};

verus! {

/// Model of one parse attempt on the bytes read so far: a complete request
/// line and header block (with the body starting at `header_end`), a
/// partial one, or a malformed one.
pub ghost enum ParseModel {
    Complete {
        method: Seq<char>,
        path: Seq<char>,
        headers: Seq<(Seq<u8>, Seq<u8>)>,
        header_end: int,
    },
    Partial,
    Error,
}

/// What httparse's request parser, with a 64-header table, decides on a
/// buffer.
pub uninterp spec fn http_parse_of(buf: Seq<u8>) -> ParseModel;

/// A complete parsed request head.
struct ParsedRequest {
    method: String,
    path: String,
    headers: Vec<HttpHeader>,
    header_end: usize,
}

enum ParseStatus {
    Complete(ParsedRequest),
    Partial,
    Error,
}

/// Relies on `httparse::Request::parse` with a table of 64 headers: the
/// outcome is a function of the buffer alone; on a complete parse the
/// method and path are filled in and the returned offset, where the body
/// begins, is at most the buffer length.
#[verifier::external_body]
fn parse_request(buf: &[u8]) -> (r: ParseStatus)
    ensures
        match r {
            ParseStatus::Complete(pr) => http_parse_of(buf@) == (ParseModel::Complete {
                method: pr.method@,
                path: pr.path@,
                headers: hdrs(pr.headers@),
                header_end: pr.header_end as int,
            }) && pr.header_end <= buf@.len(),
            ParseStatus::Partial => http_parse_of(buf@) is Partial,
            ParseStatus::Error => http_parse_of(buf@) is Error,
        },
{
    let mut headers = [httparse::EMPTY_HEADER; 64];
    let mut req = httparse::Request::new(&mut headers);
    match req.parse(buf) {
        Ok(httparse::Status::Complete(header_end)) => ParseStatus::Complete(ParsedRequest {
            method: req.method.unwrap().to_string(),
            path: req.path.unwrap().to_string(),
            headers: req.headers.iter().map(
                |h| HttpHeader { name: h.name.as_bytes().to_vec(), value: h.value.to_vec() },
            ).collect(),
            header_end,
        }),
        Ok(httparse::Status::Partial) => ParseStatus::Partial,
        Err(_) => ParseStatus::Error,
    }
}

/// What one parse attempt leads to: terminate the connection (partial or
/// malformed head), or proceed with the parsed pieces, the facts, the body
/// bytes already in the buffer, and the count of body bytes still owed.
pub enum RequestStart {
    Terminate,
    Proceed {
        method: String,
        path: String,
        info: RequestInfo,
        initial_body: Vec<u8>,
        remaining: usize,
    },
}

/// How many body bytes remain to be read once `have` are at hand.
pub open spec fn spec_remaining(content_length: Option<usize>, have: nat) -> nat {
    match content_length {
        Some(n) => if n > have {
            (n - have) as nat
        } else {
            0
        },
        None => 0,
    }
}

/// Begins one request cycle on the bytes of one read: a complete parse
/// proceeds with the method, path, facts, the body bytes that followed the
/// header block, and the count still owed by `Content-Length`; a partial or
/// malformed head terminates the connection.
pub fn begin_request(buf: &[u8]) -> (r: RequestStart)
    ensures
        match http_parse_of(buf@) {
            ParseModel::Complete { method, path, headers, header_end } => r
                matches RequestStart::Proceed { method: m, path: p, info, initial_body, remaining }
                && m@ == method && p@ == path && facts_match(info, headers) && initial_body@
                == buf@.skip(header_end) && remaining as nat == spec_remaining(
                info.content_length,
                initial_body@.len(),
            ),
            ParseModel::Partial => r is Terminate,
            ParseModel::Error => r is Terminate,
        },
{
    match parse_request(buf) {
        ParseStatus::Complete(pr) => {
            let info = RequestInfo::from_headers(pr.headers.as_slice());
            let initial_body = slice_to_vec(slice_subrange(buf, pr.header_end, buf.len()));
            let remaining: usize = match info.content_length {
                Some(n) => if n > initial_body.len() {
                    n - initial_body.len()
                } else {
                    0
                },
                None => 0,
            };
            RequestStart::Proceed {
                method: pr.method,
                path: pr.path,
                info,
                initial_body,
                remaining,
            }
        },
        ParseStatus::Partial => RequestStart::Terminate,
        ParseStatus::Error => RequestStart::Terminate,
    }
}

/// Concatenates the body bytes already at hand with the bytes of the one
/// further read that `Content-Length` called for.
pub fn assemble_body(initial_body: Vec<u8>, extra: &[u8]) -> (r: Vec<u8>)
    ensures
        r@ == initial_body@ + extra@,
{
    let ghost init = initial_body@;
    let mut body = initial_body;
    let mut i: usize = 0;
    while i < extra.len()
        invariant
            0 <= i <= extra@.len(),
            body@ == init + extra@.take(i as int),
        decreases extra@.len() - i,
    {
        body.push(*vstd::slice::slice_index_get(extra, i));
        proof {
            assert(init + extra@.take(i as int) + seq![extra@[i as int]] =~= init + extra@.take(
                i as int + 1,
            ));
            assert(body@ =~= init + extra@.take(i as int + 1));
        }
        i += 1;
    }
    proof {
        assert(init + extra@.take(extra@.len() as int) =~= init + extra@);
        assert(body@ =~= init + extra@);
    }
    body
}

} // verus!
