//! The decisions of a download: what a status code means, how much of a
//! body is kept, and how the body is encoded. Sending the request and
//! reading and decoding the body are the caller's.
use vstd::prelude::*;
use vstd::string::StringExecFns;

use crate::outside::{lossy_text, utf8_lossy};

verus! {

/// What a response's status code means for the crawl.
#[derive(Debug, Clone, Copy, PartialEq, Eq, Structural)]
pub enum StatusKind {
    /// A redirection (3xx): the `Location` header is followed.
    Redirect,
    /// A success (2xx): the body is read.
    Success,
    /// Anything else.
    Bad,
}

/// The meaning of a status code.
pub fn status_kind(status_code: u16) -> (r: StatusKind)
    ensures
        r == (if 300 <= status_code <= 399 {
            StatusKind::Redirect
        } else if 200 <= status_code <= 299 {
            StatusKind::Success
        } else {
            StatusKind::Bad
        }),
{
    if 300 <= status_code && status_code <= 399 {
        StatusKind::Redirect
    } else if 200 <= status_code && status_code <= 299 {
        StatusKind::Success
    } else {
        StatusKind::Bad
    }
}

/// Adds a chunk of the body to what was read, keeping at most `max_body_size`
/// bytes: a chunk that goes past the limit is cut at it, and reading stops
/// (`true`).
pub fn append_chunk(content: &mut Vec<u8>, chunk: &[u8], max_body_size: usize) -> (stop: bool)
    requires
        old(content)@.len() <= max_body_size,
    ensures
        stop == (old(content)@.len() + chunk@.len() > max_body_size),
        stop ==> final(content)@ == old(content)@ + chunk@.take(max_body_size - old(content)@.len()),
        !stop ==> final(content)@ == old(content)@ + chunk@,
        final(content)@.len() <= max_body_size,
{
    let room = max_body_size - content.len();
    let stop = chunk.len() > room;
    let keep = if stop {
        room
    } else {
        chunk.len()
    };
    let ghost before = content@;
    let mut k: usize = 0;
    while k < keep
        invariant
            k <= keep,
            keep <= chunk@.len(),
            content@ == before + chunk@.take(k as int),
        decreases keep - k,
    {
        content.push(chunk[k]);
        assert(chunk@.take(k + 1) =~= chunk@.take(k as int).push(chunk@[k as int]));
        k = k + 1;
    }
    if !stop {
        assert(chunk@.take(k as int) =~= chunk@);
    }
    stop
}

/// How a body is encoded.
#[derive(Debug, Clone, Copy, PartialEq, Eq, Structural)]
pub enum BodyEncoding {
    Identity,
    Gzip,
    Deflate,
}

/// The encoding that a `Content-Encoding` header names (`identity` when
/// there is none), or the error for one that is not known.
pub fn body_encoding(header: Option<&str>) -> (r: Result<BodyEncoding, String>)
    ensures
        match header {
            None => r == Ok::<BodyEncoding, String>(BodyEncoding::Identity),
            Some(h) => if h@ == "identity"@ {
                r == Ok::<BodyEncoding, String>(BodyEncoding::Identity)
            } else if h@ == "gzip"@ {
                r == Ok::<BodyEncoding, String>(BodyEncoding::Gzip)
            } else if h@ == "deflate"@ {
                r == Ok::<BodyEncoding, String>(BodyEncoding::Deflate)
            } else {
                r matches Err(m) && m@ == "unknown content encoding "@ + h@
            },
        },
{
    match header {
        None => Ok(BodyEncoding::Identity),
        Some(h) => {
            let t = String::from_str(h);
            if t == String::from_str("identity") {
                Ok(BodyEncoding::Identity)
            } else if t == String::from_str("gzip") {
                Ok(BodyEncoding::Gzip)
            } else if t == String::from_str("deflate") {
                Ok(BodyEncoding::Deflate)
            } else {
                let mut m = String::from_str("unknown content encoding ");
                m.append(h);
                Err(m)
            }
        },
    }
}

/// What a download came to.
#[derive(Debug)]
pub enum Downloaded {
    /// A page, with its body (cut at the limit and decoded).
    Page { content: Vec<u8>, status_code: u16 },
    /// A status code that is neither a success nor a redirection.
    BadStatus { status_code: u16 },
    /// A redirection to `location`.
    Redirect { location: String, status_code: u16 },
}

/// What a response comes to, from its status code, its `Location` header
/// (if any) and, for a success, its body: a redirection goes to the header
/// read as UTF-8 (invalid sequences replaced), and is an error without the
/// header; a success is the page with its body; anything else is a bad
/// status.
pub fn download_outcome(status_code: u16, location: Option<&[u8]>, content: Vec<u8>) -> (r: Result<Downloaded, String>)
    ensures
        300 <= status_code <= 399 ==> match location {
            None => r matches Err(m) && m@ == "no Location header on redirect"@,
            Some(l) => r matches Ok(Downloaded::Redirect { location: t, status_code: s }) && t@ == utf8_lossy(l@)
                && s == status_code,
        },
        200 <= status_code <= 299 ==> (r matches Ok(Downloaded::Page { content: c, status_code: s }) && c@
            == content@ && s == status_code),
        !(200 <= status_code <= 399) ==> (r matches Ok(Downloaded::BadStatus { status_code: s }) && s
            == status_code),
{
    match status_kind(status_code) {
        StatusKind::Redirect => match location {
            None => Err(String::from_str("no Location header on redirect")),
            Some(l) => Ok(Downloaded::Redirect { location: lossy_text(l), status_code }),
        },
        StatusKind::Success => Ok(Downloaded::Page { content, status_code }),
        StatusKind::Bad => Ok(Downloaded::BadStatus { status_code }),
    }
}

} // verus!
