//! Serialised HTTP/1.1 responses of the local servers.
use vstd::prelude::*;
use vstd::string::*;
use vstd::utf8::encode_utf8;
use crate::digits::{decimal, decimal_bytes};
use crate::proto::append_bytes;

verus! {

pub open spec fn utf8(s: &str) -> Seq<u8> {
    encode_utf8(s@)
}

/// Appends the UTF-8 bytes of `s`.
pub fn push_text(out: &mut Vec<u8>, s: &str)
    ensures
        final(out)@ == old(out)@ + encode_utf8(s@),
{
    append_bytes(out, s.as_bytes());
}

/// Status line: `HTTP/1.1 <code> <reason>` and CRLF.
pub open spec fn status_line(code: u16, reason: Seq<char>) -> Seq<u8> {
    encode_utf8("HTTP/1.1 "@) + decimal(code as nat) + encode_utf8(" "@) + encode_utf8(reason)
        + encode_utf8("\r\n"@)
}

/// Header lines that every JSON and text answer of the gateway carries after
/// its length: connection close and permissive CORS for POST.
pub open spec fn cors_tail() -> Seq<u8> {
    encode_utf8(
        "Connection: close\r\nAccess-Control-Allow-Origin: *\r\nAccess-Control-Allow-Methods: POST, OPTIONS\r\nAccess-Control-Allow-Headers: Content-Type\r\n\r\n"@,
    )
}

/// A text answer: status line, content type, length, the CORS lines, body.
pub open spec fn text_response_bytes(code: u16, reason: Seq<char>, body: Seq<u8>, content_type: Seq<char>) -> Seq<u8> {
    status_line(code, reason) + encode_utf8("Content-Type: "@) + encode_utf8(content_type)
        + encode_utf8("\r\nContent-Length: "@) + decimal(body.len()) + encode_utf8("\r\n"@)
        + cors_tail() + body
}

fn push_status_line(out: &mut Vec<u8>, code: u16, reason: &str)
    ensures
        final(out)@ == old(out)@ + status_line(code, reason@),
{
    push_text(out, "HTTP/1.1 ");
    let digits = decimal_bytes(code as u64);
    append_bytes(out, digits.as_slice());
    push_text(out, " ");
    push_text(out, reason);
    push_text(out, "\r\n");
    proof {
        assert(final(out)@ =~= old(out)@ + status_line(code, reason@));
    }
}

/// A response with a body and permissive CORS headers.
pub fn text_response(code: u16, reason: &str, body: &[u8], content_type: &str) -> (r: Vec<u8>)
    ensures
        r@ == text_response_bytes(code, reason@, body@, content_type@),
{
    let mut out: Vec<u8> = Vec::new();
    push_status_line(&mut out, code, reason);
    push_text(&mut out, "Content-Type: ");
    push_text(&mut out, content_type);
    push_text(&mut out, "\r\nContent-Length: ");
    let len = decimal_bytes(body.len() as u64);
    append_bytes(&mut out, len.as_slice());
    push_text(&mut out, "\r\n");
    push_text(
        &mut out,
        "Connection: close\r\nAccess-Control-Allow-Origin: *\r\nAccess-Control-Allow-Methods: POST, OPTIONS\r\nAccess-Control-Allow-Headers: Content-Type\r\n\r\n",
    );
    append_bytes(&mut out, body);
    proof {
        assert(out@ =~= text_response_bytes(code, reason@, body@, content_type@));
    }
    out
}

/// A JSON answer of the gateway.
pub fn json_response(code: u16, reason: &str, body: &[u8]) -> (r: Vec<u8>)
    ensures
        r@ == text_response_bytes(code, reason@, body@, "application/json; charset=utf-8"@),
{
    text_response(code, reason, body, "application/json; charset=utf-8")
}

/// The empty 200 answer to a CORS preflight.
pub fn options_response() -> (r: Vec<u8>)
    ensures
        r@ == text_response_bytes(200, "OK"@, Seq::empty(), "text/plain; charset=utf-8"@),
{
    let empty: Vec<u8> = Vec::new();
    text_response(200, "OK", empty.as_slice(), "text/plain; charset=utf-8")
}

/// A binary answer of the companion server: no CORS lines.
pub open spec fn binary_response_bytes(code: u16, reason: Seq<char>, content_type: Seq<char>, body: Seq<u8>) -> Seq<u8> {
    status_line(code, reason) + encode_utf8("Content-Type: "@) + encode_utf8(content_type)
        + encode_utf8("\r\nContent-Length: "@) + decimal(body.len()) + encode_utf8(
        "\r\nConnection: close\r\n\r\n"@,
    ) + body
}

pub fn binary_http_response(code: u16, reason: &str, content_type: &str, body: &[u8]) -> (r: Vec<u8>)
    ensures
        r@ == binary_response_bytes(code, reason@, content_type@, body@),
{
    let mut out: Vec<u8> = Vec::new();
    push_status_line(&mut out, code, reason);
    push_text(&mut out, "Content-Type: ");
    push_text(&mut out, content_type);
    push_text(&mut out, "\r\nContent-Length: ");
    let len = decimal_bytes(body.len() as u64);
    append_bytes(&mut out, len.as_slice());
    push_text(&mut out, "\r\nConnection: close\r\n\r\n");
    append_bytes(&mut out, body);
    proof {
        assert(out@ =~= binary_response_bytes(code, reason@, content_type@, body@));
    }
    out
}

/// Headers that open a held, chunked response stream.
pub open spec fn stream_headers_bytes(code: u16, reason: Seq<char>, content_type: Seq<char>) -> Seq<u8> {
    status_line(code, reason) + encode_utf8("Content-Type: "@) + encode_utf8(content_type)
        + encode_utf8("\r\nTransfer-Encoding: chunked\r\nConnection: keep-alive\r\n\r\n"@)
}

pub fn chunked_http_stream_headers(code: u16, reason: &str, content_type: &str) -> (r: Vec<u8>)
    ensures
        r@ == stream_headers_bytes(code, reason@, content_type@),
{
    let mut out: Vec<u8> = Vec::new();
    push_status_line(&mut out, code, reason);
    push_text(&mut out, "Content-Type: ");
    push_text(&mut out, content_type);
    push_text(&mut out, "\r\nTransfer-Encoding: chunked\r\nConnection: keep-alive\r\n\r\n");
    proof {
        assert(out@ =~= stream_headers_bytes(code, reason@, content_type@));
    }
    out
}

/// Reason phrase that the gateway sends with an error status.
pub open spec fn error_reason(code: u16) -> Seq<char> {
    if code == 400 {
        "Bad Request"@
    } else if code == 404 {
        "Not Found"@
    } else if code == 405 {
        "Method Not Allowed"@
    } else {
        "Internal Server Error"@
    }
}

pub fn error_reason_text(code: u16) -> (r: &'static str)
    ensures
        r@ == error_reason(code),
{
    if code == 400 {
        "Bad Request"
    } else if code == 404 {
        "Not Found"
    } else if code == 405 {
        "Method Not Allowed"
    } else {
        "Internal Server Error"
    }
}

} // verus!
