//! Messages exchanged with the language-server subprocess while it starts:
//! the client metadata written to its input, the OAuth topic pushed over the
//! state-sync stream, and the `LanguageServerStarted` port announcement.
use vstd::prelude::*;
use vstd::string::*;
use vstd::utf8::encode_utf8;
use crate::proto::{append_bytes, encode_len_delim_field, encode_string_field, encode_varint_field, len_delim_field, read_varint, skip_field, skip_field_spec, varint_at, varint_field, lemma_varint_at_end, WIRE_VARINT};

verus! {

/// Ports that the subprocess announces once it is listening.
#[derive(Clone, Copy, Debug, PartialEq, Eq, Structural)]
pub struct StartedPorts {
    pub https_port: u16,
    pub http_port: u16,
    pub lsp_port: u16,
}

/// A port number, when the value fits in 16 bits.
pub open spec fn port_of(v: nat) -> Option<nat> {
    if v <= u16::MAX { Some(v) } else { None }
}

/// Walks the fields of a `LanguageServerStarted` message from `pos`, keeping
/// the last value seen of field 1 (TLS port), 2 (LSP port) and 5 (plain HTTP
/// port); other fields are skipped by wire type.
pub open spec fn started_scan(
    buf: Seq<u8>,
    pos: int,
    https: Option<nat>,
    lsp: Option<nat>,
    http: Option<nat>,
) -> Option<(Option<nat>, Option<nat>, Option<nat>)>
    decreases buf.len() - pos,
{
    if pos >= buf.len() {
        Some((https, lsp, http))
    } else {
        match varint_at(buf, pos) {
            None => None,
            Some((tag, after_key)) => {
                let field = tag / 8;
                let wire = tag % 8;
                if wire == 0 && (field == 1 || field == 2 || field == 5) {
                    match varint_at(buf, after_key) {
                        None => None,
                        Some((v, next_pos)) => if next_pos <= pos || next_pos > buf.len() {
                            None
                        } else if field == 1 {
                            started_scan(buf, next_pos, port_of(v), lsp, http)
                        } else if field == 2 {
                            started_scan(buf, next_pos, https, port_of(v), http)
                        } else {
                            started_scan(buf, next_pos, https, lsp, port_of(v))
                        },
                    }
                } else {
                    match skip_field_spec(buf, after_key, wire) {
                        None => None,
                        Some(next_pos) => if next_pos <= pos || next_pos > buf.len() {
                            None
                        } else {
                            started_scan(buf, next_pos, https, lsp, http)
                        },
                    }
                }
            },
        }
    }
}

/// What a `LanguageServerStarted` body announces: `None` when it is malformed
/// or lacks the TLS port.
pub open spec fn started_ports_of(body: Seq<u8>) -> Option<(nat, nat, nat)> {
    match started_scan(body, 0, None, None, None) {
        Some((Some(https), lsp, http)) => Some(
            (
                https,
                match http {
                    Some(p) => p,
                    None => 0,
                },
                match lsp {
                    Some(p) => p,
                    None => 0,
                },
            ),
        ),
        _ => None,
    }
}

fn port_from(v: u64) -> (r: Option<u16>)
    ensures
        match r {
            Some(p) => port_of(v as nat) == Some(p as nat),
            None => port_of(v as nat) is None,
        },
{
    if v <= u16::MAX as u64 {
        Some(v as u16)
    } else {
        None
    }
}

pub open spec fn opt_nat(o: Option<u16>) -> Option<nat> {
    match o {
        Some(p) => Some(p as nat),
        None => None,
    }
}

/// Decodes the ports of a `LanguageServerStarted` notification; the TLS port
/// is required, the other two default to 0.
pub fn parse_started_request(body: &[u8]) -> (r: Result<StartedPorts, String>)
    ensures
        match r {
            Ok(p) => started_ports_of(body@) == Some(
                (p.https_port as nat, p.http_port as nat, p.lsp_port as nat),
            ),
            Err(_) => started_ports_of(body@) is None,
        },
{
    let mut offset: usize = 0;
    let mut https: Option<u16> = None;
    let mut lsp: Option<u16> = None;
    let mut http: Option<u16> = None;
    while offset < body.len()
        invariant
            offset <= body@.len(),
            started_scan(body@, offset as int, opt_nat(https), opt_nat(lsp), opt_nat(http))
                == started_scan(body@, 0, None, None, None),
        decreases body@.len() - offset,
    {
        let (tag, after_key) = read_varint(body, offset)?;
        proof {
            lemma_varint_at_end(body@, offset as int);
        }
        let field = tag / 8;
        let wire = tag % 8;
        if wire == WIRE_VARINT && (field == 1 || field == 2 || field == 5) {
            let (v, next_pos) = read_varint(body, after_key)?;
            proof {
                lemma_varint_at_end(body@, after_key as int);
            }
            let port = port_from(v);
            if field == 1 {
                https = port;
            } else if field == 2 {
                lsp = port;
            } else {
                http = port;
            }
            offset = next_pos;
        } else {
            let next_pos = skip_field(body, after_key, wire)?;
            proof {
                if wire == 0 || wire == 2 {
                    lemma_varint_at_end(body@, after_key as int);
                }
                assert(after_key <= next_pos <= body@.len());
            }
            offset = next_pos;
        }
    }
    match https {
        Some(h) => {
            let http_port: u16 = match http {
                Some(p) => p,
                None => 0,
            };
            let lsp_port: u16 = match lsp {
                Some(p) => p,
                None => 0,
            };
            Ok(StartedPorts { https_port: h, http_port, lsp_port })
        },
        None => Err("LanguageServerStarted lacks the TLS port".to_string()),
    }
}

/// Client metadata written to the subprocess's input before it starts.
#[derive(Clone, Debug)]
pub struct ClientMetadata {
    pub ide_name: String,
    pub ide_version: String,
    pub extension_name: String,
    pub extension_path: String,
    pub locale: String,
    pub device_fingerprint: String,
}

/// A string field that is left out when the string is empty.
pub open spec fn optional_string_field(field: nat, s: Seq<char>) -> Seq<u8> {
    if s.len() == 0 {
        Seq::empty()
    } else {
        len_delim_field(field, encode_utf8(s))
    }
}

/// The metadata message: 1 = ide name, 7 = ide version, 12 = extension name,
/// 17 = extension path, 4 = locale, 24 = device fingerprint, in that order.
pub open spec fn metadata_message(m: ClientMetadata) -> Seq<u8> {
    optional_string_field(1, m.ide_name@) + optional_string_field(7, m.ide_version@)
        + optional_string_field(12, m.extension_name@) + optional_string_field(
        17,
        m.extension_path@,
    ) + optional_string_field(4, m.locale@) + optional_string_field(24, m.device_fingerprint@)
}

/// The message actually sent: an empty metadata message is replaced by a
/// single zero byte so that the subprocess does not read an empty input.
pub open spec fn metadata_bytes(m: ClientMetadata) -> Seq<u8> {
    if metadata_message(m).len() == 0 {
        seq![0u8]
    } else {
        metadata_message(m)
    }
}

fn push_optional_string_field(out: &mut Vec<u8>, field: u32, value: &String)
    ensures
        final(out)@ == old(out)@ + optional_string_field(field as nat, value@),
{
    proof {
        lemma_utf8_empty(value@);
    }
    let bytes = value.as_str().as_bytes();
    if bytes.len() != 0 {
        let encoded = encode_len_delim_field(field, bytes);
        append_bytes(out, encoded.as_slice());
    } else {
        proof {
            assert(old(out)@ + Seq::<u8>::empty() == old(out)@);
        }
    }
}

/// Encodes the client metadata message.
pub fn build_metadata_bytes(meta: &ClientMetadata) -> (r: Vec<u8>)
    ensures
        r@ == metadata_bytes(*meta),
{
    let mut out: Vec<u8> = Vec::new();
    push_optional_string_field(&mut out, 1, &meta.ide_name);
    push_optional_string_field(&mut out, 7, &meta.ide_version);
    push_optional_string_field(&mut out, 12, &meta.extension_name);
    push_optional_string_field(&mut out, 17, &meta.extension_path);
    push_optional_string_field(&mut out, 4, &meta.locale);
    push_optional_string_field(&mut out, 24, &meta.device_fingerprint);
    proof {
        assert(out@ =~= metadata_message(*meta));
    }
    if out.len() == 0 {
        out.push(0u8);
        proof {
            assert(out@ =~= seq![0u8]);
        }
    }
    out
}

/// A character sequence encodes to no bytes exactly when it is empty.
pub proof fn lemma_utf8_empty(s: Seq<char>)
    ensures
        (encode_utf8(s).len() == 0) <==> (s.len() == 0),
{
    if s.len() > 0 {
        let c = s[0] as u32;
        assert(vstd::utf8::encode_scalar(c).len() >= 1);
        assert(encode_utf8(s) == vstd::utf8::encode_scalar(c) + encode_utf8(s.drop_first()));
    }
}

/// What the standard base64 alphabet, with padding, makes of some bytes.
pub uninterp spec fn base64_standard(b: Seq<u8>) -> Seq<char>;

/// Relies on base64's `STANDARD` engine `encode`: the padded standard-alphabet
/// text of the bytes, which is ASCII.
#[verifier::external_body]
fn base64_encode(b: &[u8]) -> (r: String)
    ensures
        r@ == base64_standard(b@),
        r.is_ascii(),
{
    base64::Engine::encode(&base64::engine::general_purpose::STANDARD, b)
}

/// The OAuth-info message: 1 = access token, 2 = token type, 3 = refresh
/// token, 4 = expiry as a timestamp message whose field 1 holds the seconds.
pub open spec fn oauth_info_message(access: Seq<char>, refresh: Seq<char>, expiry: nat) -> Seq<u8> {
    len_delim_field(1, encode_utf8(access)) + len_delim_field(2, encode_utf8("Bearer"@))
        + len_delim_field(3, encode_utf8(refresh)) + len_delim_field(4, varint_field(1, expiry))
}

/// Clamps a signed expiry to zero from below.
pub open spec fn clamp_expiry(expiry: i64) -> nat {
    if expiry < 0 { 0 } else { expiry as nat }
}

/// Encodes the OAuth-info message; a negative expiry counts as zero.
pub fn build_oauth_info(access_token: &str, refresh_token: &str, expiry: i64) -> (r: Vec<u8>)
    ensures
        r@ == oauth_info_message(access_token@, refresh_token@, clamp_expiry(expiry)),
{
    let seconds: u64 = if expiry < 0 { 0 } else { expiry as u64 };
    let mut out = encode_string_field(1, access_token);
    let token_type = encode_string_field(2, "Bearer");
    append_bytes(&mut out, token_type.as_slice());
    let refresh = encode_string_field(3, refresh_token);
    append_bytes(&mut out, refresh.as_slice());
    let timestamp = encode_varint_field(1, seconds);
    let expiry_field = encode_len_delim_field(4, timestamp.as_slice());
    append_bytes(&mut out, expiry_field.as_slice());
    out
}

/// The ASCII bytes of a character sequence.
pub open spec fn ascii_bytes(s: Seq<char>) -> Seq<u8> {
    Seq::new(s.len(), |i: int| s[i] as u8)
}

/// The `uss-oauth` topic: one map entry whose key is the sentinel key and
/// whose row value is the base64 text of the OAuth-info message.
pub open spec fn oauth_topic_message(info: Seq<u8>) -> Seq<u8> {
    len_delim_field(
        1,
        len_delim_field(1, encode_utf8("oauthTokenInfoSentinelKey"@)) + len_delim_field(
            2,
            len_delim_field(1, ascii_bytes(base64_standard(info))),
        ),
    )
}

/// Builds the `uss-oauth` topic for a credential.
pub fn build_oauth_topic_bytes(access_token: &str, refresh_token: &str, expiry: i64) -> (r: Vec<
    u8,
>)
    ensures
        r@ == oauth_topic_message(
            oauth_info_message(access_token@, refresh_token@, clamp_expiry(expiry)),
        ),
{
    let info = build_oauth_info(access_token, refresh_token, expiry);
    let encoded = base64_encode(info.as_slice());
    let text: &str = encoded.as_str();
    proof {
        vstd::string::is_ascii_spec_bytes(text);
        assert(text.spec_bytes() =~= ascii_bytes(base64_standard(info@)));
    }
    let row = encode_string_field(1, text);
    let mut entry = encode_string_field(1, "oauthTokenInfoSentinelKey");
    let row_field = encode_len_delim_field(2, row.as_slice());
    append_bytes(&mut entry, row_field.as_slice());
    encode_len_delim_field(1, entry.as_slice())
}

/// Wraps a topic as the `initial_state` (field 1) of a state-sync update.
pub fn build_initial_state_update(topic: &[u8]) -> (r: Vec<u8>)
    ensures
        r@ == len_delim_field(1, topic@),
{
    encode_len_delim_field(1, topic)
}

} // verus!
