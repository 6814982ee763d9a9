//! Connect framing: a flag byte, a four-byte big-endian length and the
//! payload; plus the chunked transfer coding used for held streams.
use vstd::prelude::*;
use vstd::utf8::{decode_utf8, valid_utf8};
use crate::digits::{hex_upper, hex_upper_bytes};
use crate::proto::{append_bytes, read_varint, skip_field, skip_field_spec, varint_at, lemma_varint_at_end};

verus! {

/// Flag bit of a compressed frame (not supported).
pub const FLAG_COMPRESSED: u8 = 1;
/// Flag of the end-of-stream frame.
pub const FLAG_END_STREAM: u8 = 2;

/// Big-endian bytes of a 32-bit length.
pub open spec fn be32(n: u32) -> Seq<u8> {
    seq![(n >> 24u32) as u8, (n >> 16u32) as u8, (n >> 8u32) as u8, n as u8]
}

/// The 32-bit value of four big-endian bytes.
pub open spec fn be32_value(a: u8, b: u8, c: u8, d: u8) -> u32 {
    ((a as u32) << 24u32) | ((b as u32) << 16u32) | ((c as u32) << 8u32) | (d as u32)
}

/// A frame: flags, payload length, payload.
pub open spec fn envelope(flags: u8, payload: Seq<u8>) -> Seq<u8>
    recommends
        payload.len() <= u32::MAX,
{
    seq![flags] + be32(payload.len() as u32) + payload
}

/// The frame at the start of `body`: `None` when the body is shorter than a
/// header, the frame is compressed, or its length runs past the body.
pub open spec fn envelope_decode(body: Seq<u8>) -> Option<(u8, Seq<u8>)> {
    if body.len() < 5 {
        None
    } else if body[0] % 2 == 1 {
        None
    } else {
        let n = be32_value(body[1], body[2], body[3], body[4]) as int;
        if 5 + n > body.len() {
            None
        } else {
            Some((body[0], body.subrange(5, 5 + n)))
        }
    }
}

/// Encodes one frame.
pub fn encode_connect_envelope(flags: u8, payload: &[u8]) -> (r: Vec<u8>)
    requires
        payload@.len() <= u32::MAX,
    ensures
        r@ == envelope(flags, payload@),
{
    let n: u32 = payload.len() as u32;
    let mut out: Vec<u8> = Vec::new();
    out.push(flags);
    out.push((n >> 24u32) as u8);
    out.push((n >> 16u32) as u8);
    out.push((n >> 8u32) as u8);
    out.push(n as u8);
    proof {
        assert(out@ =~= seq![flags] + be32(n));
    }
    append_bytes(&mut out, payload);
    out
}

/// Encodes a data frame (flags 0).
pub fn encode_connect_message_envelope(payload: &[u8]) -> (r: Vec<u8>)
    requires
        payload@.len() <= u32::MAX,
    ensures
        r@ == envelope(0, payload@),
{
    encode_connect_envelope(0, payload)
}

/// The end-of-stream frame of a successful stream: flag 2 and the JSON `{}`.
pub fn encode_connect_end_ok_envelope() -> (r: Vec<u8>)
    ensures
        r@ == envelope(FLAG_END_STREAM, seq![0x7bu8, 0x7du8]),
{
    let body: Vec<u8> = vec![0x7bu8, 0x7du8];
    proof {
        assert(body@ =~= seq![0x7bu8, 0x7du8]);
    }
    encode_connect_envelope(FLAG_END_STREAM, body.as_slice())
}

/// Decodes the frame at the start of `body` into its flags and payload.
pub fn decode_connect_envelope(body: &[u8]) -> (r: Result<(u8, Vec<u8>), String>)
    ensures
        match r {
            Ok((flags, payload)) => envelope_decode(body@) == Some((flags, payload@)),
            Err(_) => envelope_decode(body@) is None,
        },
{
    if body.len() < 5 {
        return Err("Connect body is shorter than a frame header".to_string());
    }
    let flags = body[0];
    if flags % 2 == 1 {
        return Err("compressed Connect frames are not supported".to_string());
    }
    let n: u32 = ((body[1] as u32) << 24u32) | ((body[2] as u32) << 16u32) | ((body[3] as u32)
        << 8u32) | (body[4] as u32);
    if n as usize > body.len() - 5 {
        return Err("Connect frame length runs past the body".to_string());
    }
    let end: usize = 5 + n as usize;
    let mut payload: Vec<u8> = Vec::new();
    let mut i: usize = 5;
    while i < end
        invariant
            5 <= i <= end <= body@.len(),
            payload@ == body@.subrange(5, i as int),
        decreases end - i,
    {
        payload.push(body[i]);
        i += 1;
        proof {
            assert(body@.subrange(5, i as int) =~= body@.subrange(5, i - 1).push(body@[i - 1]));
        }
    }
    Ok((flags, payload))
}

/// The payload of the first frame of a request body.
pub fn decode_connect_request_first_message(body: &[u8]) -> (r: Result<Vec<u8>, String>)
    ensures
        match r {
            Ok(payload) => envelope_decode(body@) is Some && envelope_decode(body@).unwrap().1
                == payload@,
            Err(_) => envelope_decode(body@) is None,
        },
{
    let (_, payload) = decode_connect_envelope(body)?;
    Ok(payload)
}

proof fn lemma_be32_round_trip(n: u32)
    ensures
        be32_value(be32(n)[0], be32(n)[1], be32(n)[2], be32(n)[3]) == n,
{
    let a = (n >> 24u32) as u8;
    let b = (n >> 16u32) as u8;
    let c = (n >> 8u32) as u8;
    let d = n as u8;
    assert(((a as u32) << 24u32) | ((b as u32) << 16u32) | ((c as u32) << 8u32) | (d as u32) == n)
        by (bit_vector)
        requires
            a == (n >> 24u32) as u8,
            b == (n >> 16u32) as u8,
            c == (n >> 8u32) as u8,
            d == n as u8,
    ;
}

/// Decoding an encoded frame gives back its flags and payload, for every
/// uncompressed flag byte and every payload whose length fits the header.
pub proof fn lemma_envelope_round_trip(flags: u8, payload: Seq<u8>)
    requires
        flags % 2 == 0,
        payload.len() <= u32::MAX,
    ensures
        envelope_decode(envelope(flags, payload)) == Some((flags, payload)),
{
    let e = envelope(flags, payload);
    let n = payload.len() as u32;
    lemma_be32_round_trip(n);
    assert(e[1] == be32(n)[0] && e[2] == be32(n)[1] && e[3] == be32(n)[2] && e[4] == be32(n)[3]);
    assert(e.subrange(5, 5 + payload.len() as int) =~= payload);
}

/// The bytes of the first field 1 of wire type 2 in a message, scanning from
/// `pos` and skipping other fields by wire type.
pub open spec fn topic_scan(buf: Seq<u8>, pos: int) -> Option<Seq<u8>>
    decreases buf.len() - pos,
{
    if pos < 0 || pos >= buf.len() {
        None
    } else {
        match varint_at(buf, pos) {
            None => None,
            Some((tag, after_key)) => if tag / 8 == 1 && tag % 8 == 2 {
                match varint_at(buf, after_key) {
                    None => None,
                    Some((n, start)) => if start + n > buf.len() {
                        None
                    } else {
                        Some(buf.subrange(start, start + n))
                    },
                }
            } else {
                match skip_field_spec(buf, after_key, tag % 8) {
                    None => None,
                    Some(next_pos) => if next_pos <= pos || next_pos > buf.len() {
                        None
                    } else {
                        topic_scan(buf, next_pos)
                    },
                }
            },
        }
    }
}

/// The topic named by a subscribe request: the first frame's payload, its
/// field 1, decoded as UTF-8.
pub open spec fn subscribe_topic_of(body: Seq<u8>) -> Option<Seq<char>> {
    match envelope_decode(body) {
        None => None,
        Some((_, payload)) => match topic_scan(payload, 0) {
            None => None,
            Some(bytes) => if valid_utf8(bytes) {
                Some(decode_utf8(bytes))
            } else {
                None
            },
        },
    }
}

/// Relies on `std::str::from_utf8`: it accepts exactly the valid UTF-8 byte
/// sequences, and the text it returns is their decoding.
#[verifier::external_body]
fn utf8_text(b: &[u8]) -> (r: Option<String>)
    ensures
        r is Some <==> valid_utf8(b@),
        r is Some ==> r.unwrap()@ == decode_utf8(b@),
{
    match std::str::from_utf8(b) {
        Ok(t) => Some(t.to_string()),
        Err(_) => None,
    }
}

fn copy_range(buf: &[u8], start: usize, end: usize) -> (r: Vec<u8>)
    requires
        start <= end <= buf@.len(),
    ensures
        r@ == buf@.subrange(start as int, end as int),
{
    let mut out: Vec<u8> = Vec::new();
    let mut i: usize = start;
    while i < end
        invariant
            start <= i <= end <= buf@.len(),
            out@ == buf@.subrange(start as int, i as int),
        decreases end - i,
    {
        out.push(buf[i]);
        i += 1;
        proof {
            assert(buf@.subrange(start as int, i as int) =~= buf@.subrange(start as int, i - 1).push(
                buf@[i - 1],
            ));
        }
    }
    out
}

/// Reads the topic name from the body of a `SubscribeToUnifiedStateSyncTopic`
/// request.
pub fn parse_subscribe_topic(body: &[u8]) -> (r: Result<String, String>)
    ensures
        match r {
            Ok(t) => subscribe_topic_of(body@) == Some(t@),
            Err(_) => subscribe_topic_of(body@) is None,
        },
{
    let payload = decode_connect_request_first_message(body)?;
    let buf = payload.as_slice();
    let mut offset: usize = 0;
    while offset < buf.len()
        invariant
            offset <= buf@.len(),
            topic_scan(buf@, offset as int) == topic_scan(buf@, 0),
            envelope_decode(body@) is Some && envelope_decode(body@).unwrap().1 == buf@,
        decreases buf@.len() - offset,
    {
        let (tag, after_key) = read_varint(buf, offset)?;
        proof {
            lemma_varint_at_end(buf@, offset as int);
        }
        if tag / 8 == 1 && tag % 8 == 2 {
            let (n, start) = read_varint(buf, after_key)?;
            proof {
                lemma_varint_at_end(buf@, after_key as int);
            }
            if n > (buf.len() - start) as u64 {
                return Err("topic length runs past the message".to_string());
            }
            let end: usize = start + n as usize;
            let bytes = copy_range(buf, start, end);
            return match utf8_text(bytes.as_slice()) {
                Some(t) => Ok(t),
                None => Err("topic is not valid UTF-8".to_string()),
            };
        }
        let next_pos = skip_field(buf, after_key, tag % 8)?;
        proof {
            if tag % 8 == 0 || tag % 8 == 2 {
                lemma_varint_at_end(buf@, after_key as int);
            }
        }
        offset = next_pos;
    }
    Err("subscribe request names no topic".to_string())
}

/// One chunk of the chunked transfer coding: hexadecimal size, CRLF, data, CRLF.
pub open spec fn chunk(payload: Seq<u8>) -> Seq<u8> {
    hex_upper(payload.len()) + seq![13u8, 10u8] + payload + seq![13u8, 10u8]
}

/// Encodes `payload` as one chunk.
pub fn encode_chunked_bytes(payload: &[u8]) -> (r: Vec<u8>)
    ensures
        r@ == chunk(payload@),
{
    let mut out = hex_upper_bytes(payload.len() as u64);
    out.push(13u8);
    out.push(10u8);
    append_bytes(&mut out, payload);
    out.push(13u8);
    out.push(10u8);
    proof {
        assert(out@ =~= chunk(payload@));
    }
    out
}

/// The last chunk of a chunked body: `0`, CRLF, CRLF.
pub fn encode_chunked_final() -> (r: Vec<u8>)
    ensures
        r@ == seq![48u8, 13u8, 10u8, 13u8, 10u8],
{
    let r: Vec<u8> = vec![48u8, 13u8, 10u8, 13u8, 10u8];
    proof {
        assert(r@ =~= seq![48u8, 13u8, 10u8, 13u8, 10u8]);
    }
    r
}

} // verus!
