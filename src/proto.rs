//! Minimal protobuf primitives: base-128 varints, field tags and
//! length-delimited fields.
use vstd::prelude::*;
use vstd::string::*;

verus! {

/// Wire type of a varint field.
pub const WIRE_VARINT: u64 = 0;
/// Wire type of a 64-bit fixed field.
pub const WIRE_FIXED64: u64 = 1;
/// Wire type of a length-delimited field.
pub const WIRE_LEN: u64 = 2;
/// Wire type of a 32-bit fixed field.
pub const WIRE_FIXED32: u64 = 5;

/// Longest varint accepted when decoding (ten groups of seven bits cover 64 bits).
pub const MAX_VARINT_BYTES: usize = 10;

/// Little-endian base-128 encoding: seven bits per byte, high bit set on every
/// byte but the last.
pub open spec fn varint_bytes(v: nat) -> Seq<u8>
    decreases v,
{
    if v < 128 {
        seq![v as u8]
    } else {
        seq![((v % 128) + 128) as u8] + varint_bytes(v / 128)
    }
}

/// Field key: field number shifted left by three, or-ed with the wire type.
pub open spec fn tag_value(field: nat, wire: nat) -> nat {
    field * 8 + wire
}

/// Bytes of a length-delimited field: key, payload length, payload.
pub open spec fn len_delim_field(field: nat, data: Seq<u8>) -> Seq<u8> {
    varint_bytes(tag_value(field, 2)) + varint_bytes(data.len()) + data
}

/// Bytes of a varint field.
pub open spec fn varint_field(field: nat, v: nat) -> Seq<u8> {
    varint_bytes(tag_value(field, 0)) + varint_bytes(v)
}

/// Reads a varint at `pos` using at most `budget` bytes: the value and the
/// position just after it.
pub open spec fn read_varint_spec(buf: Seq<u8>, pos: int, budget: nat) -> Option<(nat, int)>
    decreases budget,
{
    if budget == 0 || pos < 0 || pos >= buf.len() {
        None
    } else if buf[pos] < 128 {
        Some((buf[pos] as nat, pos + 1))
    } else {
        match read_varint_spec(buf, pos + 1, (budget - 1) as nat) {
            Some((rest, end)) => Some(((buf[pos] - 128) as nat + 128 * rest, end)),
            None => None,
        }
    }
}

/// A varint at `pos` that fits in 64 bits.
pub open spec fn varint_at(buf: Seq<u8>, pos: int) -> Option<(nat, int)> {
    match read_varint_spec(buf, pos, MAX_VARINT_BYTES as nat) {
        Some((v, end)) => if v <= u64::MAX { Some((v, end)) } else { None },
        None => None,
    }
}

/// Position after a field body of the given wire type that starts at `pos`.
pub open spec fn skip_field_spec(buf: Seq<u8>, pos: int, wire: nat) -> Option<int> {
    if wire == 0 {
        match varint_at(buf, pos) {
            Some((_, end)) => Some(end),
            None => None,
        }
    } else if wire == 1 {
        if pos + 8 <= buf.len() { Some(pos + 8) } else { None }
    } else if wire == 2 {
        match varint_at(buf, pos) {
            Some((n, start)) => if start + n <= buf.len() { Some(start + n) } else { None },
            None => None,
        }
    } else if wire == 5 {
        if pos + 4 <= buf.len() { Some(pos + 4) } else { None }
    } else {
        None
    }
}

proof fn lemma_read_varint_end(buf: Seq<u8>, pos: int, budget: nat)
    requires
        read_varint_spec(buf, pos, budget) is Some,
    ensures
        pos < read_varint_spec(buf, pos, budget).unwrap().1 <= buf.len(),
    decreases budget,
{
    if buf[pos] >= 128 {
        lemma_read_varint_end(buf, pos + 1, (budget - 1) as nat);
    }
}

/// A decoded varint ends after its start and within the buffer.
pub proof fn lemma_varint_at_end(buf: Seq<u8>, pos: int)
    requires
        varint_at(buf, pos) is Some,
    ensures
        pos < varint_at(buf, pos).unwrap().1 <= buf.len(),
{
    lemma_read_varint_end(buf, pos, MAX_VARINT_BYTES as nat);
}

/// Encodes `v` as a varint.
pub fn encode_varint(v: u64) -> (r: Vec<u8>)
    ensures
        r@ == varint_bytes(v as nat),
{
    let mut out: Vec<u8> = Vec::new();
    let mut cur: u64 = v;
    while cur >= 128
        invariant
            out@ + varint_bytes(cur as nat) == varint_bytes(v as nat),
        decreases cur,
    {
        let byte: u8 = ((cur % 128) + 128) as u8;
        proof {
            assert(varint_bytes(cur as nat) == seq![byte] + varint_bytes((cur / 128) as nat));
            assert(out@.push(byte) + varint_bytes((cur / 128) as nat) == out@ + varint_bytes(
                cur as nat,
            ));
        }
        out.push(byte);
        cur = cur / 128;
    }
    out.push(cur as u8);
    proof {
        assert(varint_bytes(cur as nat) == seq![cur as u8]);
    }
    out
}

fn read_varint_bounded(buf: &[u8], pos: usize, budget: usize) -> (r: Option<(u64, usize)>)
    ensures
        match r {
            Some((v, e)) => read_varint_spec(buf@, pos as int, budget as nat) == Some(
                (v as nat, e as int),
            ),
            None => read_varint_spec(buf@, pos as int, budget as nat) is None
                || read_varint_spec(buf@, pos as int, budget as nat).unwrap().0 > u64::MAX,
        },
    decreases budget,
{
    if budget == 0 || pos >= buf.len() {
        return None;
    }
    let b = buf[pos];
    if b < 128 {
        return Some((b as u64, pos + 1));
    }
    match read_varint_bounded(buf, pos + 1, budget - 1) {
        Some((rest, end)) => {
            let low: u64 = (b - 128) as u64;
            if rest > (u64::MAX - low) / 128 {
                proof {
                    assert(low + 128 * (rest as nat) > u64::MAX) by (nonlinear_arith)
                        requires rest > (u64::MAX - low) / 128, low < 128;
                }
                None
            } else {
                proof {
                    assert(low + 128 * (rest as nat) <= u64::MAX) by (nonlinear_arith)
                        requires rest <= (u64::MAX - low) / 128, low < 128;
                }
                Some((low + 128 * rest, end))
            }
        },
        None => {
            proof {
                let sub = read_varint_spec(buf@, pos + 1, (budget - 1) as nat);
                if sub is Some {
                    assert((b - 128) as nat + 128 * sub.unwrap().0 > u64::MAX) by (nonlinear_arith)
                        requires sub.unwrap().0 > u64::MAX;
                }
            }
            None
        },
    }
}

/// Reads the varint that starts at `pos`: its value and the position after it.
/// Fails on a truncated varint, on one longer than ten bytes and on one whose
/// value does not fit in 64 bits.
pub fn read_varint(buf: &[u8], pos: usize) -> (r: Result<(u64, usize), String>)
    ensures
        match r {
            Ok((v, e)) => varint_at(buf@, pos as int) == Some((v as nat, e as int)),
            Err(_) => varint_at(buf@, pos as int) is None,
        },
{
    match read_varint_bounded(buf, pos, MAX_VARINT_BYTES) {
        Some(found) => Ok(found),
        None => Err("malformed varint".to_string()),
    }
}

/// Skips the body of a field of wire type `wire` that starts at `pos`, and
/// returns the position after it. Unknown wire types fail.
pub fn skip_field(buf: &[u8], pos: usize, wire: u64) -> (r: Result<usize, String>)
    ensures
        match r {
            Ok(e) => skip_field_spec(buf@, pos as int, wire as nat) == Some(e as int),
            Err(_) => skip_field_spec(buf@, pos as int, wire as nat) is None,
        },
{
    if wire == WIRE_VARINT {
        let (_, end) = read_varint(buf, pos)?;
        Ok(end)
    } else if wire == WIRE_FIXED64 {
        if pos <= buf.len() && buf.len() - pos >= 8 {
            Ok(pos + 8)
        } else {
            Err("truncated 64-bit field".to_string())
        }
    } else if wire == WIRE_LEN {
        let (n, start) = read_varint(buf, pos)?;
        proof {
            lemma_varint_at_end(buf@, pos as int);
        }
        if n <= (buf.len() - start) as u64 {
            Ok(start + n as usize)
        } else {
            Err("truncated length-delimited field".to_string())
        }
    } else if wire == WIRE_FIXED32 {
        if pos <= buf.len() && buf.len() - pos >= 4 {
            Ok(pos + 4)
        } else {
            Err("truncated 32-bit field".to_string())
        }
    } else {
        Err("unsupported wire type".to_string())
    }
}

/// Appends `src` to `dst`.
pub fn append_bytes(dst: &mut Vec<u8>, src: &[u8])
    ensures
        final(dst)@ == old(dst)@ + src@,
{
    let mut i: usize = 0;
    while i < src.len()
        invariant
            i <= src@.len(),
            dst@ == old(dst)@ + src@.subrange(0, i as int),
        decreases src@.len() - i,
    {
        dst.push(src[i]);
        i += 1;
        proof {
            assert(src@.subrange(0, i as int) == src@.subrange(0, i - 1) + seq![src@[i - 1]]);
        }
    }
    proof {
        assert(src@.subrange(0, src@.len() as int) == src@);
    }
}

/// Encodes a field key.
pub fn encode_tag(field: u32, wire: u64) -> (r: Vec<u8>)
    requires
        wire < 8,
    ensures
        r@ == varint_bytes(tag_value(field as nat, wire as nat)),
{
    encode_varint(field as u64 * 8 + wire)
}

/// Encodes a length-delimited field: key, varint length, then the bytes.
pub fn encode_len_delim_field(field: u32, data: &[u8]) -> (r: Vec<u8>)
    ensures
        r@ == len_delim_field(field as nat, data@),
{
    let mut out = encode_tag(field, WIRE_LEN);
    let len_bytes = encode_varint(data.len() as u64);
    append_bytes(&mut out, len_bytes.as_slice());
    append_bytes(&mut out, data);
    out
}

/// Encodes a string field (length-delimited, UTF-8 bytes).
pub fn encode_string_field(field: u32, value: &str) -> (r: Vec<u8>)
    ensures
        r@ == len_delim_field(field as nat, value.spec_bytes()),
{
    encode_len_delim_field(field, value.as_bytes())
}

/// Encodes a varint field.
pub fn encode_varint_field(field: u32, v: u64) -> (r: Vec<u8>)
    ensures
        r@ == varint_field(field as nat, v as nat),
{
    let mut out = encode_tag(field, WIRE_VARINT);
    let value = encode_varint(v);
    append_bytes(&mut out, value.as_slice());
    out
}

pub open spec fn pow128(k: nat) -> nat
    decreases k,
{
    if k == 0 { 1 } else { 128 * pow128((k - 1) as nat) }
}

proof fn lemma_varint_len(v: nat, k: nat)
    requires
        k >= 1,
        v < pow128(k),
    ensures
        varint_bytes(v).len() <= k,
    decreases k,
{
    if v >= 128 {
        assert(k >= 2) by {
            if k == 1 {
                assert(pow128(1) == 128 * pow128(0));
            }
        }
        assert(pow128(k) == 128 * pow128((k - 1) as nat));
        assert(v / 128 < pow128((k - 1) as nat)) by (nonlinear_arith)
            requires v < 128 * pow128((k - 1) as nat);
        lemma_varint_len(v / 128, (k - 1) as nat);
    }
}

proof fn lemma_read_shift(b: u8, t: Seq<u8>, pos: int, budget: nat)
    requires
        pos >= 0,
    ensures
        read_varint_spec(seq![b] + t, pos + 1, budget) == match read_varint_spec(t, pos, budget) {
            Some((v, e)) => Some((v, e + 1)),
            None => None,
        },
    decreases budget,
{
    let s = seq![b] + t;
    if budget > 0 && pos < t.len() {
        assert(s[pos + 1] == t[pos]);
        if t[pos] >= 128 {
            lemma_read_shift(b, t, pos + 1, (budget - 1) as nat);
        }
    }
}

proof fn lemma_read_encoded(v: nat, rest: Seq<u8>, budget: nat)
    requires
        varint_bytes(v).len() <= budget,
    ensures
        read_varint_spec(varint_bytes(v) + rest, 0, budget) == Some((v, varint_bytes(v).len() as int)),
    decreases v,
{
    let s = varint_bytes(v) + rest;
    if v < 128 {
        assert(s[0] == v as u8);
    } else {
        let b = ((v % 128) + 128) as u8;
        let t = varint_bytes(v / 128) + rest;
        assert(s =~= seq![b] + t);
        lemma_read_encoded(v / 128, rest, (budget - 1) as nat);
        lemma_read_shift(b, t, 0, (budget - 1) as nat);
        assert((b - 128) as nat + 128 * (v / 128) == v);
    }
}

/// Reading an encoded varint gives back its value and ends right after it,
/// whatever follows.
pub proof fn lemma_varint_round_trip(v: u64, rest: Seq<u8>)
    ensures
        varint_at(varint_bytes(v as nat) + rest, 0) == Some((v as nat, varint_bytes(v as nat).len() as int)),
{
    reveal_with_fuel(pow128, 11);
    assert(pow128(10) == 1180591620717411303424nat);
    lemma_varint_len(v as nat, 10);
    lemma_read_encoded(v as nat, rest, MAX_VARINT_BYTES as nat);
}

} // verus!
