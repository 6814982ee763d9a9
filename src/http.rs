//! HTTP/1.1 request framing for the local servers: finding the end of the
//! header block, reading `Content-Length`, splitting the request line and
//! header fields, and deciding when a request read from a socket is complete.
use vstd::prelude::*;
use vstd::string::*;
use vstd::utf8::encode_utf8;
use crate::text::{bytes_equal, str_eq, str_starts_with, starts_with};

verus! {

/// Largest request, header block included, that a local server reads.
pub const MAX_HTTP_REQUEST_BYTES: usize = 524288;

pub open spec fn crlf_crlf_at(s: Seq<u8>, i: int) -> bool {
    0 <= i && i + 4 <= s.len() && s[i] == 13 && s[i + 1] == 10 && s[i + 2] == 13 && s[i + 3]
        == 10
}

/// Position just after the first blank line (`\r\n\r\n`) at or after `i`.
pub open spec fn header_end_from(s: Seq<u8>, i: int) -> Option<int>
    decreases s.len() - i,
{
    if i < 0 || i + 4 > s.len() {
        None
    } else if crlf_crlf_at(s, i) {
        Some(i + 4)
    } else {
        header_end_from(s, i + 1)
    }
}

/// Position just after the first blank line, if any.
pub open spec fn header_end_of(s: Seq<u8>) -> Option<int> {
    header_end_from(s, 0)
}

proof fn lemma_header_end_bounds(s: Seq<u8>, i: int)
    requires
        header_end_from(s, i) is Some,
    ensures
        i + 4 <= header_end_from(s, i).unwrap() <= s.len(),
    decreases s.len() - i,
{
    if !crlf_crlf_at(s, i) {
        lemma_header_end_bounds(s, i + 1);
    }
}

/// Finds the end of the header block.
pub fn find_header_end(buf: &[u8]) -> (r: Option<usize>)
    ensures
        match r {
            Some(e) => header_end_of(buf@) == Some(e as int) && 4 <= e <= buf@.len(),
            None => header_end_of(buf@) is None,
        },
{
    if buf.len() < 4 {
        return None;
    }
    let mut i: usize = 0;
    while i < buf.len() - 3
        invariant
            buf@.len() >= 4,
            i <= buf@.len() - 3,
            header_end_from(buf@, i as int) == header_end_of(buf@),
        decreases buf@.len() - i,
    {
        if buf[i] == 13 && buf[i + 1] == 10 && buf[i + 2] == 13 && buf[i + 3] == 10 {
            return Some(i + 4);
        }
        i += 1;
    }
    None
}

pub open spec fn is_ws(b: u8) -> bool {
    b == 32 || (9 <= b && b <= 13)
}

/// Lower-cases ASCII letters, leaving other bytes alone.
pub open spec fn lower_byte(b: u8) -> u8 {
    if 65 <= b && b <= 90 { (b + 32) as u8 } else { b }
}

pub open spec fn ascii_lower(s: Seq<u8>) -> Seq<u8> {
    Seq::new(s.len(), |i: int| lower_byte(s[i]))
}

/// First position at or after `pos` that is not white space, before `end`.
pub open spec fn skip_ws(s: Seq<u8>, pos: int, end: int) -> int
    decreases end - pos,
{
    if pos >= end || !is_ws(s[pos]) { pos } else { skip_ws(s, pos + 1, end) }
}

/// Last position, going back from `end`, after which only white space lies.
pub open spec fn trim_end_pos(s: Seq<u8>, start: int, end: int) -> int
    decreases end - start,
{
    if end <= start || !is_ws(s[end - 1]) { end } else { trim_end_pos(s, start, end - 1) }
}

/// First white-space position at or after `pos`, before `end`.
pub open spec fn token_end(s: Seq<u8>, pos: int, end: int) -> int
    decreases end - pos,
{
    if pos >= end || is_ws(s[pos]) { pos } else { token_end(s, pos + 1, end) }
}

/// First position at or after `pos`, before `end`, holding byte `b` (or `end`).
pub open spec fn find_byte(s: Seq<u8>, b: u8, pos: int, end: int) -> int
    decreases end - pos,
{
    if pos >= end || s[pos] == b { pos } else { find_byte(s, b, pos + 1, end) }
}

/// `s[start..end]` with white space removed from both ends.
pub open spec fn trimmed(s: Seq<u8>, start: int, end: int) -> Seq<u8> {
    let a = skip_ws(s, start, end);
    s.subrange(a, trim_end_pos(s, a, end))
}

fn exec_skip_ws(s: &[u8], pos: usize, end: usize) -> (r: usize)
    requires
        pos <= end <= s@.len(),
    ensures
        r == skip_ws(s@, pos as int, end as int),
        pos <= r <= end,
{
    let mut i = pos;
    while i < end && (s[i] == 32 || (9 <= s[i] && s[i] <= 13))
        invariant
            pos <= i <= end <= s@.len(),
            skip_ws(s@, i as int, end as int) == skip_ws(s@, pos as int, end as int),
        decreases end - i,
    {
        i += 1;
    }
    i
}

fn exec_trim_end(s: &[u8], start: usize, end: usize) -> (r: usize)
    requires
        start <= end <= s@.len(),
    ensures
        r == trim_end_pos(s@, start as int, end as int),
        start <= r <= end,
{
    let mut e = end;
    while e > start && (s[e - 1] == 32 || (9 <= s[e - 1] && s[e - 1] <= 13))
        invariant
            start <= e <= end <= s@.len(),
            trim_end_pos(s@, start as int, e as int) == trim_end_pos(s@, start as int, end as int),
        decreases e - start,
    {
        e -= 1;
    }
    e
}

fn exec_token_end(s: &[u8], pos: usize, end: usize) -> (r: usize)
    requires
        pos <= end <= s@.len(),
    ensures
        r == token_end(s@, pos as int, end as int),
        pos <= r <= end,
{
    let mut i = pos;
    while i < end && !(s[i] == 32 || (9 <= s[i] && s[i] <= 13))
        invariant
            pos <= i <= end <= s@.len(),
            token_end(s@, i as int, end as int) == token_end(s@, pos as int, end as int),
        decreases end - i,
    {
        i += 1;
    }
    i
}

pub(crate) fn exec_find_byte(s: &[u8], b: u8, pos: usize, end: usize) -> (r: usize)
    requires
        pos <= end <= s@.len(),
    ensures
        r == find_byte(s@, b, pos as int, end as int),
        pos <= r <= end,
    decreases end - pos,
{
    let mut i = pos;
    while i < end && s[i] != b
        invariant
            pos <= i <= end <= s@.len(),
            find_byte(s@, b, i as int, end as int) == find_byte(s@, b, pos as int, end as int),
        decreases end - i,
    {
        i += 1;
    }
    i
}

/// Header fields of `s[pos..end]`, one per line (lines end at `\n`): each
/// line with a colon gives its lower-cased, trimmed name and its trimmed value;
/// lines without one are skipped.
pub open spec fn header_fields(s: Seq<u8>, pos: int, end: int) -> Seq<(Seq<u8>, Seq<u8>)>
    decreases end - pos,
{
    if pos < 0 || pos >= end || end > s.len() {
        Seq::empty()
    } else {
        let le = find_byte(s, 10, pos, end);
        let c = find_byte(s, 58, pos, le);
        let rest = if le < pos || le >= end { Seq::empty() } else { header_fields(s, le + 1, end) };
        if c >= le {
            rest
        } else {
            seq![(ascii_lower(trimmed(s, pos, c)), trimmed(s, c + 1, le))] + rest
        }
    }
}

/// The value of the first field of `fields` named `name`.
pub open spec fn first_field(fields: Seq<(Seq<u8>, Seq<u8>)>, name: Seq<u8>) -> Option<Seq<u8>>
    decreases fields.len(),
{
    if fields.len() == 0 {
        None
    } else if fields[0].0 == name {
        Some(fields[0].1)
    } else {
        first_field(fields.drop_first(), name)
    }
}

pub open spec fn is_digit(b: u8) -> bool {
    48 <= b && b <= 57
}

/// Value of a run of decimal digits.
pub open spec fn digits_value(d: Seq<u8>) -> nat
    decreases d.len(),
{
    if d.len() == 0 {
        0
    } else {
        digits_value(d.drop_last()) * 10 + (d.last() - 48) as nat
    }
}

/// The text after an optional leading `+`.
pub open spec fn unsigned_digits(v: Seq<u8>) -> Seq<u8> {
    if v.len() > 0 && v[0] == 43 { v.drop_first() } else { v }
}

pub open spec fn all_digits(d: Seq<u8>) -> bool {
    forall|i: int| 0 <= i < d.len() ==> is_digit(#[trigger] d[i])
}

/// An unsigned decimal as Rust's integer parsing reads it: an optional `+`,
/// then one or more digits and nothing else, with a value that fits `usize`.
pub open spec fn parse_usize_spec(v: Seq<u8>) -> Option<nat> {
    let d = unsigned_digits(v);
    if d.len() > 0 && all_digits(d) && digits_value(d) <= usize::MAX {
        Some(digits_value(d))
    } else {
        None
    }
}

/// Parses an unsigned decimal.
pub fn parse_usize(v: &[u8]) -> (r: Option<usize>)
    ensures
        match r {
            Some(n) => parse_usize_spec(v@) == Some(n as nat),
            None => parse_usize_spec(v@) is None,
        },
{
    let start: usize = if v.len() > 0 && v[0] == 43 { 1 } else { 0 };
    let ghost d = unsigned_digits(v@);
    assert(d =~= v@.subrange(start as int, v@.len() as int));
    if start >= v.len() {
        return None;
    }
    let mut acc: usize = 0;
    let mut i: usize = start;
    while i < v.len()
        invariant
            start <= i <= v@.len(),
            d == v@.subrange(start as int, v@.len() as int),
            d == unsigned_digits(v@),
            forall|k: int| start <= k < i ==> is_digit(v@[k]),
            acc as nat == digits_value(v@.subrange(start as int, i as int)),
        decreases v@.len() - i,
    {
        let b = v[i];
        proof {
            assert(v@.subrange(start as int, i + 1).drop_last() =~= v@.subrange(start as int, i as int));
        }
        if !(48 <= b && b <= 57) {
            proof {
                assert(d[i - start] == v@[i as int]);
                assert(!is_digit(d[i - start]));
                assert(i - start < d.len());
                assert(!all_digits(d));
                assert(unsigned_digits(v@) == d);
                assert(parse_usize_spec(v@) is None);
            }
            return None;
        }
        let digit: usize = (b - 48) as usize;
        if acc > (usize::MAX - digit) / 10 {
            proof {
                assert(acc * 10 + digit > usize::MAX) by (nonlinear_arith)
                    requires acc > (usize::MAX - digit) / 10, digit < 10;
                assert(d.subrange(0, (i + 1 - start) as int) =~= v@.subrange(start as int, i + 1));
                assert(v@.subrange(start as int, i + 1).drop_last() =~= v@.subrange(start as int, i as int));
                if all_digits(d) {
                    lemma_digits_value_prefix_bound(d, (i + 1 - start) as int);
                }
                assert(parse_usize_spec(v@) is None);
            }
            return None;
        }
        proof {
            assert(acc * 10 + digit <= usize::MAX) by (nonlinear_arith)
                requires acc <= (usize::MAX - digit) / 10, digit < 10;
        }
        acc = acc * 10 + digit;
        i += 1;
    }
    proof {
        assert(v@.subrange(start as int, v@.len() as int) == d);
    }
    Some(acc)
}

proof fn lemma_digits_value_prefix_bound(d: Seq<u8>, k: int)
    requires
        0 <= k <= d.len(),
        forall|i: int| 0 <= i < d.len() ==> is_digit(d[i]),
    ensures
        digits_value(d.subrange(0, k)) <= digits_value(d),
    decreases d.len() - k,
{
    if k == d.len() {
        assert(d.subrange(0, k) =~= d);
    } else {
        lemma_digits_value_prefix_bound(d, k + 1);
        assert(d.subrange(0, k + 1).drop_last() =~= d.subrange(0, k));
        let a = digits_value(d.subrange(0, k));
        assert(is_digit(d[k]));
        assert(d.subrange(0, k + 1).last() == d[k]);
        assert(a <= a * 10 + (d[k] - 48) as nat) by (nonlinear_arith);
    }
}

/// Positions of the header fields of `s[pos..end]`: name start and end, value
/// start and end, in the order of `header_fields`.
fn scan_header_fields(s: &[u8], pos: usize, end: usize) -> (r: Vec<(usize, usize, usize, usize)>)
    requires
        pos <= end <= s@.len(),
    ensures
        r@.len() == header_fields(s@, pos as int, end as int).len(),
        forall|i: int|
            0 <= i < r@.len() ==> {
                let (ns, ne, vs, ve) = #[trigger] r@[i];
                &&& ns <= ne <= s@.len()
                &&& vs <= ve <= s@.len()
                &&& ascii_lower(s@.subrange(ns as int, ne as int)) == header_fields(
                    s@,
                    pos as int,
                    end as int,
                )[i].0
                &&& s@.subrange(vs as int, ve as int) == header_fields(s@, pos as int, end as int)[i].1
            },
{
    let mut out: Vec<(usize, usize, usize, usize)> = Vec::new();
    let mut p: usize = pos;
    let ghost mut acc: Seq<(Seq<u8>, Seq<u8>)> = Seq::empty();
    while p < end
        invariant
            pos <= p <= end <= s@.len(),
            acc + header_fields(s@, p as int, end as int) == header_fields(s@, pos as int, end as int),
            out@.len() == acc.len(),
            forall|i: int|
                0 <= i < out@.len() ==> {
                    let (ns, ne, vs, ve) = #[trigger] out@[i];
                    &&& ns <= ne <= s@.len()
                    &&& vs <= ve <= s@.len()
                    &&& ascii_lower(s@.subrange(ns as int, ne as int)) == acc[i].0
                    &&& s@.subrange(vs as int, ve as int) == acc[i].1
                },
        decreases end - p,
    {
        let le = exec_find_byte(s, 10u8, p, end);
        let c = exec_find_byte(s, 58u8, p, le);
        let ghost rest = if le >= end { Seq::empty() } else { header_fields(s@, le + 1, end as int) };
        if c < le {
            let ns = exec_skip_ws(s, p, c);
            let ne = exec_trim_end(s, ns, c);
            let vs = exec_skip_ws(s, c + 1, le);
            let ve = exec_trim_end(s, vs, le);
            let ghost field = (ascii_lower(trimmed(s@, p as int, c as int)), trimmed(s@, c + 1, le as int));
            proof {
                assert(header_fields(s@, p as int, end as int) == seq![field] + rest);
                assert(acc.push(field) + rest =~= acc + header_fields(s@, p as int, end as int));
                acc = acc.push(field);
            }
            out.push((ns, ne, vs, ve));
        } else {
            proof {
                assert(header_fields(s@, p as int, end as int) == rest);
            }
        }
        if le >= end {
            proof {
                assert(acc + Seq::<(Seq<u8>, Seq<u8>)>::empty() =~= acc);
            }
            p = end;
        } else {
            p = le + 1;
        }
    }
    proof {
        assert(acc + header_fields(s@, p as int, end as int) =~= acc);
    }
    out
}

/// Declared body length of a header block: 0 without a `Content-Length`
/// field, `None` when the first such field does not hold an unsigned decimal.
pub open spec fn content_length_spec(header: Seq<u8>) -> Option<nat> {
    match first_field(header_fields(header, 0, header.len() as int), encode_utf8("content-length"@)) {
        None => Some(0),
        Some(v) => parse_usize_spec(v),
    }
}

fn lower_copy(s: &[u8], start: usize, end: usize) -> (r: Vec<u8>)
    requires
        start <= end <= s@.len(),
    ensures
        r@ == ascii_lower(s@.subrange(start as int, end as int)),
{
    let mut out: Vec<u8> = Vec::new();
    let mut i: usize = start;
    while i < end
        invariant
            start <= i <= end <= s@.len(),
            out@ =~= ascii_lower(s@.subrange(start as int, i as int)),
        decreases end - i,
    {
        let b = s[i];
        let l: u8 = if 65 <= b && b <= 90 { b + 32 } else { b };
        out.push(l);
        i += 1;
        proof {
            assert(out@ =~= ascii_lower(s@.subrange(start as int, i as int)));
        }
    }
    out
}

pub(crate) fn copy_slice(s: &[u8], start: usize, end: usize) -> (r: Vec<u8>)
    requires
        start <= end <= s@.len(),
    ensures
        r@ == s@.subrange(start as int, end as int),
{
    let mut out: Vec<u8> = Vec::new();
    let mut i: usize = start;
    while i < end
        invariant
            start <= i <= end <= s@.len(),
            out@ =~= s@.subrange(start as int, i as int),
        decreases end - i,
    {
        out.push(s[i]);
        i += 1;
        proof {
            assert(out@ =~= s@.subrange(start as int, i as int));
        }
    }
    out
}

/// Reads `Content-Length` from a header block.
pub fn parse_content_length(header: &[u8]) -> (r: Result<usize, String>)
    ensures
        match r {
            Ok(n) => content_length_spec(header@) == Some(n as nat),
            Err(_) => content_length_spec(header@) is None,
        },
{
    let fields = scan_header_fields(header, 0, header.len());
    let ghost hf = header_fields(header@, 0, header@.len() as int);
    let name = "content-length".as_bytes();
    let mut i: usize = 0;
    proof {
        assert(hf.subrange(0, hf.len() as int) =~= hf);
    }
    while i < fields.len()
        invariant
            0 <= i <= fields@.len(),
            hf == header_fields(header@, 0, header@.len() as int),
            fields@.len() == hf.len(),
            name@ == encode_utf8("content-length"@),
            first_field(hf.subrange(i as int, hf.len() as int), name@) == first_field(hf, name@),
            forall|k: int|
                0 <= k < fields@.len() ==> {
                    let (ns, ne, vs, ve) = #[trigger] fields@[k];
                    &&& ns <= ne <= header@.len()
                    &&& vs <= ve <= header@.len()
                    &&& ascii_lower(header@.subrange(ns as int, ne as int)) == hf[k].0
                    &&& header@.subrange(vs as int, ve as int) == hf[k].1
                },
        decreases fields@.len() - i,
    {
        let (ns, ne, vs, ve) = fields[i];
        let lowered = lower_copy(header, ns, ne);
        proof {
            assert(hf.subrange(i as int, hf.len() as int).drop_first() =~= hf.subrange(
                i + 1,
                hf.len() as int,
            ));
        }
        if bytes_equal(lowered.as_slice(), name) {
            let value = copy_slice(header, vs, ve);
            return match parse_usize(value.as_slice()) {
                Some(n) => Ok(n),
                None => Err("invalid Content-Length".to_string()),
            };
        }
        i += 1;
    }
    proof {
        assert(hf.subrange(i as int, hf.len() as int) =~= Seq::<(Seq<u8>, Seq<u8>)>::empty());
    }
    Ok(0)
}

/// Where the reading of one request stands, given the bytes read so far.
#[derive(Clone, Copy, Debug, PartialEq, Eq)]
pub enum RequestRead {
    /// More bytes are needed.
    Incomplete,
    /// The request is, or declares itself, larger than the limit: answer 400.
    TooLarge,
    /// The request is the first `n` bytes.
    Complete(usize),
    /// The `Content-Length` field is not a number: answer 400.
    BadContentLength,
}

pub open spec fn request_read_spec(buf: Seq<u8>) -> RequestRead {
    if buf.len() > MAX_HTTP_REQUEST_BYTES {
        RequestRead::TooLarge
    } else {
        match header_end_of(buf) {
            None => RequestRead::Incomplete,
            Some(e) => match content_length_spec(buf.subrange(0, e)) {
                None => RequestRead::BadContentLength,
                Some(n) => if e + n > MAX_HTTP_REQUEST_BYTES {
                    RequestRead::TooLarge
                } else if buf.len() >= e + n {
                    RequestRead::Complete((e + n) as usize)
                } else {
                    RequestRead::Incomplete
                },
            },
        }
    }
}

/// Decides, from the bytes read so far, whether a request is complete, needs
/// more bytes, or is refused; the body is never looked at.
pub fn request_read_state(buf: &[u8]) -> (r: RequestRead)
    ensures
        r == request_read_spec(buf@),
{
    if buf.len() > MAX_HTTP_REQUEST_BYTES {
        return RequestRead::TooLarge;
    }
    match find_header_end(buf) {
        None => RequestRead::Incomplete,
        Some(e) => {
            let head = copy_slice(buf, 0, e);
            match parse_content_length(head.as_slice()) {
                Err(_) => RequestRead::BadContentLength,
                Ok(n) => {
                    if n > MAX_HTTP_REQUEST_BYTES - e {
                        RequestRead::TooLarge
                    } else if buf.len() >= e + n {
                        RequestRead::Complete(e + n)
                    } else {
                        RequestRead::Incomplete
                    }
                },
            }
        },
    }
}

/// A request whose header block is complete and declares a body longer than
/// the limit is refused as too large, whatever has been read of its body;
/// so is any buffer already over the limit.
pub proof fn lemma_oversized_request_refused(buf: Seq<u8>)
    requires
        buf.len() > MAX_HTTP_REQUEST_BYTES || (header_end_of(buf) is Some && content_length_spec(
            buf.subrange(0, header_end_of(buf).unwrap()),
        ) is Some && content_length_spec(buf.subrange(0, header_end_of(buf).unwrap())).unwrap()
            > MAX_HTTP_REQUEST_BYTES),
    ensures
        request_read_spec(buf) == RequestRead::TooLarge,
{
    if header_end_of(buf) is Some {
        lemma_header_end_bounds(buf, 0);
    }
}

/// Text that `String::from_utf8_lossy` makes of some bytes.
pub uninterp spec fn lossy_utf8(b: Seq<u8>) -> Seq<char>;

/// Relies on `String::from_utf8_lossy`: bytes that are valid UTF-8 come back
/// as their decoding; invalid sequences become replacement characters.
#[verifier::external_body]
pub(crate) fn lossy_text(b: &[u8]) -> (r: String)
    ensures
        r@ == lossy_utf8(b@),
        vstd::utf8::valid_utf8(b@) ==> r@ == vstd::utf8::decode_utf8(b@),
{
    String::from_utf8_lossy(b).into_owned()
}

/// A request read from a socket.
#[derive(Clone, Debug)]
pub struct ParsedRequest {
    pub method: String,
    pub target: String,
    /// Header fields in the order received, names lower-cased.
    pub headers: Vec<(String, String)>,
    pub body: Vec<u8>,
}

/// The request line's first two white-space separated words, read from the
/// first line of the header block.
pub open spec fn request_line_words(raw: Seq<u8>, e: int) -> Option<(Seq<u8>, Seq<u8>)> {
    let le = find_byte(raw, 10, 0, e);
    let a1 = skip_ws(raw, 0, le);
    let b1 = token_end(raw, a1, le);
    let a2 = skip_ws(raw, b1, le);
    let b2 = token_end(raw, a2, le);
    if a1 == b1 || a2 == b2 {
        None
    } else {
        Some((raw.subrange(a1, b1), raw.subrange(a2, b2)))
    }
}

/// Header fields of a request: those of the lines after the request line.
pub open spec fn request_header_fields(raw: Seq<u8>, e: int) -> Seq<(Seq<u8>, Seq<u8>)> {
    let le = find_byte(raw, 10, 0, e);
    if le >= e { Seq::empty() } else { header_fields(raw, le + 1, e) }
}

/// The view of a parsed request's header list.
pub open spec fn headers_view(h: Seq<(String, String)>) -> Seq<(Seq<char>, Seq<char>)> {
    h.map_values(|p: (String, String)| (p.0@, p.1@))
}

/// Splits a complete request into method, target, header fields and body.
/// Fails when there is no blank line or the request line lacks a word.
pub fn parse_http_request(raw: &[u8]) -> (r: Result<ParsedRequest, String>)
    ensures
        match r {
            Ok(p) => header_end_of(raw@) is Some && request_line_words(
                raw@,
                header_end_of(raw@).unwrap(),
            ) is Some && {
                let e = header_end_of(raw@).unwrap();
                let (m, t) = request_line_words(raw@, e).unwrap();
                let hf = request_header_fields(raw@, e);
                &&& p.method@ == lossy_utf8(m)
                &&& p.target@ == lossy_utf8(t)
                &&& headers_view(p.headers@) == hf.map_values(
                    |f: (Seq<u8>, Seq<u8>)| (lossy_utf8(f.0), lossy_utf8(f.1)),
                )
                &&& p.body@ == raw@.subrange(e, raw@.len() as int)
            },
            Err(_) => header_end_of(raw@) is None || request_line_words(
                raw@,
                header_end_of(raw@).unwrap(),
            ) is None,
        },
{
    let e = match find_header_end(raw) {
        Some(e) => e,
        None => {
            return Err("missing end of HTTP headers".to_string());
        },
    };
    let le = exec_find_byte(raw, 10u8, 0, e);
    let a1 = exec_skip_ws(raw, 0, le);
    let b1 = exec_token_end(raw, a1, le);
    let a2 = exec_skip_ws(raw, b1, le);
    let b2 = exec_token_end(raw, a2, le);
    if a1 == b1 {
        return Err("request line lacks a method".to_string());
    }
    if a2 == b2 {
        return Err("request line lacks a target".to_string());
    }
    let method_bytes = copy_slice(raw, a1, b1);
    let target_bytes = copy_slice(raw, a2, b2);
    let method = lossy_text(method_bytes.as_slice());
    let target = lossy_text(target_bytes.as_slice());
    let positions = if le >= e {
        Vec::new()
    } else {
        scan_header_fields(raw, le + 1, e)
    };
    let ghost hf = request_header_fields(raw@, e as int);
    let mut headers: Vec<(String, String)> = Vec::new();
    let mut i: usize = 0;
    while i < positions.len()
        invariant
            i <= positions@.len(),
            positions@.len() == hf.len(),
            hf == request_header_fields(raw@, e as int),
            forall|k: int|
                0 <= k < positions@.len() ==> {
                    let (ns, ne, vs, ve) = #[trigger] positions@[k];
                    &&& ns <= ne <= raw@.len()
                    &&& vs <= ve <= raw@.len()
                    &&& ascii_lower(raw@.subrange(ns as int, ne as int)) == hf[k].0
                    &&& raw@.subrange(vs as int, ve as int) == hf[k].1
                },
            headers_view(headers@) == hf.subrange(0, i as int).map_values(
                |f: (Seq<u8>, Seq<u8>)| (lossy_utf8(f.0), lossy_utf8(f.1)),
            ),
        decreases positions@.len() - i,
    {
        let (ns, ne, vs, ve) = positions[i];
        let name_bytes = lower_copy(raw, ns, ne);
        let value_bytes = copy_slice(raw, vs, ve);
        let name = lossy_text(name_bytes.as_slice());
        let value = lossy_text(value_bytes.as_slice());
        let ghost before = headers@;
        headers.push((name, value));
        i += 1;
        proof {
            assert(hf.subrange(0, i as int) =~= hf.subrange(0, i - 1).push(hf[i - 1]));
            assert(headers@ == before.push((name, value)));
            assert(headers_view(headers@) =~= headers_view(before).push((name@, value@)));
            assert(headers_view(headers@) =~= hf.subrange(0, i as int).map_values(
                |f: (Seq<u8>, Seq<u8>)| (lossy_utf8(f.0), lossy_utf8(f.1)),
            ));
        }
    }
    proof {
        assert(hf.subrange(0, i as int) =~= hf);
    }
    let body = copy_slice(raw, e, raw.len());
    Ok(ParsedRequest { method, target, headers, body })
}

/// The value of the last header field named `name`, as a map filled in
/// order keeps it.
pub open spec fn last_header(h: Seq<(Seq<char>, Seq<char>)>, name: Seq<char>) -> Option<Seq<char>>
    decreases h.len(),
{
    if h.len() == 0 {
        None
    } else if h.last().0 == name {
        Some(h.last().1)
    } else {
        last_header(h.drop_last(), name)
    }
}

impl ParsedRequest {
    /// The value of header `name` (given in lower case); the last field wins.
    pub fn header(&self, name: &str) -> (r: Option<String>)
        ensures
            match r {
                Some(v) => last_header(headers_view(self.headers@), name@) == Some(v@),
                None => last_header(headers_view(self.headers@), name@) is None,
            },
    {
        let mut i: usize = self.headers.len();
        proof {
            assert(self.headers@.subrange(0, i as int) =~= self.headers@);
        }
        while i > 0
            invariant
                i <= self.headers@.len(),
                last_header(headers_view(self.headers@.subrange(0, i as int)), name@) == last_header(
                    headers_view(self.headers@),
                    name@,
                ),
            decreases i,
        {
            let pair = &self.headers[i - 1];
            proof {
                let hv = headers_view(self.headers@.subrange(0, i as int));
                assert(hv.drop_last() =~= headers_view(self.headers@.subrange(0, i - 1)));
                assert(hv.last() == (pair.0@, pair.1@));
            }
            if str_eq(pair.0.as_str(), name) {
                return Some(pair.1.clone());
            }
            i -= 1;
        }
        None
    }
}

/// Path component of a URL, as the `url` crate parses it (`None` when it
/// does not parse).
pub uninterp spec fn parsed_url_path(s: Seq<char>) -> Option<Seq<char>>;

/// Relies on `url::Url::parse` and `Url::path`: the path of the parsed URL,
/// or nothing when the text is not a URL.
#[verifier::external_body]
fn url_path(s: &str) -> (r: Option<String>)
    ensures
        match r {
            Some(p) => parsed_url_path(s@) == Some(p@),
            None => parsed_url_path(s@) is None,
        },
{
    match url::Url::parse(s) {
        Ok(u) => Some(u.path().to_string()),
        Err(_) => None,
    }
}

/// Path of a request target: that of an absolute URL, else that of the target
/// read relative to a local origin, else the target as it is.
pub open spec fn normalize_path_spec(t: Seq<char>) -> Seq<char> {
    let absolute = starts_with(t, "http://"@) || starts_with(t, "https://"@);
    if absolute && parsed_url_path(t) is Some {
        parsed_url_path(t).unwrap()
    } else {
        match parsed_url_path("http://localhost"@ + t) {
            Some(p) => p,
            None => t,
        }
    }
}

/// Normalises a request target to its path.
pub fn normalize_path(target: &str) -> (r: String)
    ensures
        r@ == normalize_path_spec(target@),
{
    if str_starts_with(target, "http://") || str_starts_with(target, "https://") {
        if let Some(p) = url_path(target) {
            return p;
        }
    }
    let mut relative = "http://localhost".to_string();
    relative.append(target);
    match url_path(relative.as_str()) {
        Some(p) => p,
        None => target.to_string(),
    }
}

} // verus!
