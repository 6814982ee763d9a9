//! The companion callback server that the language-server subprocess calls
//! while it starts and runs: which answer each request gets.
use vstd::prelude::*;
use vstd::string::*;
use vstd::utf8::encode_utf8;
use crate::connect::{encode_connect_message_envelope, envelope, subscribe_topic_of, parse_subscribe_topic};
use crate::handshake::{lemma_utf8_empty, build_initial_state_update, parse_started_request, started_ports_of, StartedPorts};
use crate::http::{normalize_path, normalize_path_spec, last_header, headers_view, ParsedRequest};
use crate::proto::{encode_string_field, encode_varint_field, len_delim_field, varint_field};
use crate::response::{binary_http_response, binary_response_bytes, text_response, text_response_bytes};
use crate::text::{
    ends_with, eq_ignore_ascii_case, lower_char, path_matches_rpc_method, rpc_method_of,
    str_ends_with, str_eq, str_eq_ignore_ascii_case,
};

verus! {

/// Whether `s` starts with the lower-case text `p`, ignoring ASCII case.
pub open spec fn starts_with_ignore_case(s: Seq<char>, p: Seq<char>) -> bool {
    p.len() <= s.len() && forall|i: int| 0 <= i < p.len() ==> lower_char(#[trigger] s[i]) == p[i]
}

fn str_starts_with_ignore_case(s: &str, p: &str) -> (r: bool)
    ensures
        r == starts_with_ignore_case(s@, p@),
{
    let n = p.unicode_len();
    if n > s.unicode_len() {
        return false;
    }
    let mut i: usize = 0;
    while i < n
        invariant
            n == p@.len() <= s@.len(),
            i <= n,
            forall|k: int| 0 <= k < i ==> lower_char(#[trigger] s@[k]) == p@[k],
        decreases n - i,
    {
        let c = s.get_char(i);
        let l = if 'A' <= c && c <= 'Z' { ((c as u8) + 32) as char } else { c };
        if l != p.get_char(i) {
            return false;
        }
        i += 1;
    }
    true
}

/// Answer to a unary call: a Connect-framed body when the caller speaks
/// `application/connect+proto`, else the bare message under the caller's
/// content type (`application/proto` when it gave none).
pub open spec fn unary_response_bytes(content_type: Seq<char>, body: Seq<u8>) -> Seq<u8> {
    if starts_with_ignore_case(content_type, "application/connect+proto"@) {
        binary_response_bytes(200, "OK"@, "application/connect+proto"@, envelope(0, body))
    } else {
        binary_response_bytes(
            200,
            "OK"@,
            if content_type.len() == 0 { "application/proto"@ } else { content_type },
            body,
        )
    }
}

pub fn extension_unary_response(content_type: &str, body: &[u8]) -> (r: Vec<u8>)
    requires
        body@.len() <= u32::MAX,
    ensures
        r@ == unary_response_bytes(content_type@, body@),
{
    if str_starts_with_ignore_case(content_type, "application/connect+proto") {
        let framed = encode_connect_message_envelope(body);
        return binary_http_response(200, "OK", "application/connect+proto", framed.as_slice());
    }
    if content_type.unicode_len() == 0 {
        binary_http_response(200, "OK", "application/proto", body)
    } else {
        binary_http_response(200, "OK", content_type, body)
    }
}

/// What the companion server does with one request.
pub enum CompanionAction {
    /// Write these bytes and close.
    Respond(Vec<u8>),
    /// Open a chunked stream of this content type, send one frame holding
    /// `first_message`, and keep the stream until the session ends.
    HoldStream { content_type: String, first_message: Vec<u8> },
}

/// The action, and the ports to hand to whoever waits for the subprocess
/// when the request announced them.
pub struct CompanionReply {
    pub action: CompanionAction,
    pub started: Option<StartedPorts>,
}

/// A reply seen as: whether it holds a stream, the stream's content type, the
/// bytes written (or the first message of the stream), the announced ports.
pub open spec fn reply_view(r: CompanionReply) -> (bool, Seq<char>, Seq<u8>, Option<StartedPorts>) {
    match r.action {
        CompanionAction::Respond(b) => (false, Seq::empty(), b@, r.started),
        CompanionAction::HoldStream { content_type, first_message } => (
            true,
            content_type@,
            first_message@,
            r.started,
        ),
    }
}

/// Calls that only need an empty success for the subprocess to carry on.
pub open spec fn is_fire_and_forget(path: Seq<char>) -> bool {
    names_call(path, "PushUnifiedStateSyncUpdate"@) || names_call(path, "GetSecretValue"@)
        || names_call(path, "StoreSecretValue"@) || names_call(path, "LogEvent"@) || names_call(
        path,
        "RecordError"@,
    ) || names_call(path, "RestartUserStatusUpdater"@) || names_call(path, "OpenSetting"@)
        || names_call(path, "PlaySound"@) || names_call(path, "BroadcastConversationDeletion"@)
}

/// The path ends with `/name` or names the method `name`.
pub open spec fn names_call(path: Seq<char>, name: Seq<char>) -> bool {
    ends_with(path, "/"@ + name) || rpc_method_of(path) == name
}

fn exec_names_call(path: &str, name: &str) -> (r: bool)
    ensures
        r == names_call(path@, name@),
{
    let mut suffix = "/".to_string();
    suffix.append(name);
    str_ends_with(path, suffix.as_str()) || path_matches_rpc_method(path, name)
}

fn exec_is_fire_and_forget(path: &str) -> (r: bool)
    ensures
        r == is_fire_and_forget(path@),
{
    exec_names_call(path, "PushUnifiedStateSyncUpdate") || exec_names_call(path, "GetSecretValue")
        || exec_names_call(path, "StoreSecretValue") || exec_names_call(path, "LogEvent")
        || exec_names_call(path, "RecordError") || exec_names_call(path, "RestartUserStatusUpdater")
        || exec_names_call(path, "OpenSetting") || exec_names_call(path, "PlaySound")
        || exec_names_call(path, "BroadcastConversationDeletion")
}

pub open spec fn text_plain() -> Seq<char> {
    "text/plain; charset=utf-8"@
}

/// The reply the companion server owes a request, given its method, its
/// normalised path, its content-type and CSRF headers and its body, the
/// server's CSRF token, and the topic payloads it serves.
pub open spec fn companion_reply_spec(
    method: Seq<char>,
    path: Seq<char>,
    content_type_header: Option<Seq<char>>,
    csrf_header: Option<Seq<char>>,
    body: Seq<u8>,
    csrf: Seq<char>,
    oauth_topic: Seq<u8>,
    empty_topic: Seq<u8>,
) -> (bool, Seq<char>, Seq<u8>, Option<StartedPorts>) {
    let ct = match content_type_header {
        Some(c) => c,
        None => "application/proto"@,
    };
    let given = match csrf_header {
        Some(c) => c,
        None => Seq::empty(),
    };
    let rpc = rpc_method_of(path);
    if eq_ignore_ascii_case(method, "OPTIONS"@) {
        (false, Seq::empty(), text_response_bytes(200, "OK"@, Seq::empty(), text_plain()), None)
    } else if !eq_ignore_ascii_case(method, "POST"@) {
        (
            false,
            Seq::empty(),
            text_response_bytes(
                405,
                "Method Not Allowed"@,
                encode_utf8("Only POST is supported"@),
                text_plain(),
            ),
            None,
        )
    } else if given != csrf {
        (
            false,
            Seq::empty(),
            text_response_bytes(403, "Forbidden"@, encode_utf8("Invalid CSRF token"@), text_plain()),
            None,
        )
    } else {
        post_call_reply_spec(path, ct, body, oauth_topic, empty_topic)
    }
}

/// The reply to an authorised POST, by the RPC method that its path names.
pub open spec fn post_call_reply_spec(
    path: Seq<char>,
    ct: Seq<char>,
    body: Seq<u8>,
    oauth_topic: Seq<u8>,
    empty_topic: Seq<u8>,
) -> (bool, Seq<char>, Seq<u8>, Option<StartedPorts>) {
    let rpc = rpc_method_of(path);
    if rpc == "LanguageServerStarted"@ {
        match started_ports_of(body) {
            Some((https, http, lsp)) => (
                false,
                Seq::empty(),
                unary_response_bytes(ct, Seq::empty()),
                Some(
                    StartedPorts {
                        https_port: https as u16,
                        http_port: http as u16,
                        lsp_port: lsp as u16,
                    },
                ),
            ),
            None => (
                false,
                Seq::empty(),
                text_response_bytes(
                    400,
                    "Bad Request"@,
                    encode_utf8("malformed LanguageServerStarted body"@),
                    text_plain(),
                ),
                None,
            ),
        }
    } else if rpc == "SubscribeToUnifiedStateSyncTopic"@ {
        match subscribe_topic_of(body) {
            Some(topic) => (
                true,
                "application/connect+proto"@,
                len_delim_field(1, if topic == "uss-oauth"@ { oauth_topic } else { empty_topic }),
                None,
            ),
            None => (
                false,
                Seq::empty(),
                text_response_bytes(
                    400,
                    "Bad Request"@,
                    encode_utf8("malformed subscribe request"@),
                    text_plain(),
                ),
                None,
            ),
        }
    } else if rpc == "IsAgentManagerEnabled"@ {
        (false, Seq::empty(), unary_response_bytes(ct, varint_field(1, 1)), None)
    } else if rpc == "GetChromeDevtoolsMcpUrl"@ {
        (false, Seq::empty(), unary_response_bytes(ct, len_delim_field(1, Seq::empty())), None)
    } else if rpc == "CheckTerminalShellSupport"@ || rpc == "GetBrowserOnboardingPort"@
        || is_fire_and_forget(path) {
        (false, Seq::empty(), unary_response_bytes(ct, Seq::empty()), None)
    } else {
        (
            false,
            Seq::empty(),
            binary_response_bytes(
                200,
                "OK"@,
                if ct.len() == 0 { "application/proto"@ } else { ct },
                Seq::empty(),
            ),
            None,
        )
    }
}

fn respond(bytes: Vec<u8>) -> (r: CompanionReply)
    ensures
        reply_view(r) == (false, Seq::<char>::empty(), bytes@, None::<StartedPorts>),
{
    CompanionReply { action: CompanionAction::Respond(bytes), started: None }
}

fn plain_text(code: u16, reason: &str, message: &str) -> (r: CompanionReply)
    ensures
        reply_view(r) == (
            false,
            Seq::<char>::empty(),
            text_response_bytes(code, reason@, encode_utf8(message@), text_plain()),
            None::<StartedPorts>,
        ),
{
    respond(text_response(code, reason, message.as_bytes(), "text/plain; charset=utf-8"))
}

#[verifier::rlimit(80)]
fn route_post_call(p: &str, ct: &str, body: &[u8], oauth_topic: &[u8], empty_topic: &[u8]) -> (r:
    CompanionReply)
    ensures
        reply_view(r) == post_call_reply_spec(p@, ct@, body@, oauth_topic@, empty_topic@),
{
    let empty: Vec<u8> = Vec::new();
    if path_matches_rpc_method(p, "LanguageServerStarted") {
        return match parse_started_request(body) {
            Ok(ports) => CompanionReply {
                action: CompanionAction::Respond(extension_unary_response(ct, empty.as_slice())),
                started: Some(ports),
            },
            Err(_) => plain_text(400, "Bad Request", "malformed LanguageServerStarted body"),
        };
    }
    if path_matches_rpc_method(p, "SubscribeToUnifiedStateSyncTopic") {
        return match parse_subscribe_topic(body) {
            Ok(topic) => {
                let chosen = if str_eq(topic.as_str(), "uss-oauth") {
                    oauth_topic
                } else {
                    empty_topic
                };
                CompanionReply {
                    action: CompanionAction::HoldStream {
                        content_type: "application/connect+proto".to_string(),
                        first_message: build_initial_state_update(chosen),
                    },
                    started: None,
                }
            },
            Err(_) => plain_text(400, "Bad Request", "malformed subscribe request"),
        };
    }
    if path_matches_rpc_method(p, "IsAgentManagerEnabled") {
        let body = encode_varint_field(1, 1);
        proof {
            assert(crate::proto::varint_bytes(8) == seq![8u8]);
            assert(crate::proto::varint_bytes(1) == seq![1u8]);
            assert(body@ =~= seq![8u8, 1u8]);
        }
        return respond(extension_unary_response(ct, body.as_slice()));
    }
    if path_matches_rpc_method(p, "GetChromeDevtoolsMcpUrl") {
        let body = encode_string_field(1, "");
        proof {
            reveal_strlit("");
            lemma_utf8_empty(""@);
            assert(encode_utf8(""@) =~= Seq::<u8>::empty());
            assert(crate::proto::varint_bytes(10) == seq![10u8]);
            assert(crate::proto::varint_bytes(0) == seq![0u8]);
            assert(body@ =~= seq![10u8, 0u8]);
        }
        return respond(extension_unary_response(ct, body.as_slice()));
    }
    if path_matches_rpc_method(p, "CheckTerminalShellSupport") || path_matches_rpc_method(
        p,
        "GetBrowserOnboardingPort",
    ) || exec_is_fire_and_forget(p) {
        return respond(extension_unary_response(ct, empty.as_slice()));
    }
    if ct.unicode_len() == 0 {
        respond(binary_http_response(200, "OK", "application/proto", empty.as_slice()))
    } else {
        respond(binary_http_response(200, "OK", ct, empty.as_slice()))
    }
}

/// Decides the reply to one request of the subprocess.
pub fn route_companion_request(
    req: &ParsedRequest,
    csrf: &str,
    oauth_topic: &[u8],
    empty_topic: &[u8],
) -> (r: CompanionReply)
    ensures
        reply_view(r) == companion_reply_spec(
            req.method@,
            normalize_path_spec(req.target@),
            last_header(headers_view(req.headers@), "content-type"@),
            last_header(headers_view(req.headers@), "x-codeium-csrf-token"@),
            req.body@,
            csrf@,
            oauth_topic@,
            empty_topic@,
        ),
{
    let path = normalize_path(req.target.as_str());
    let content_type = match req.header("content-type") {
        Some(c) => c,
        None => "application/proto".to_string(),
    };
    let given = match req.header("x-codeium-csrf-token") {
        Some(c) => c,
        None => String::new(),
    };
    let p = path.as_str();
    let ct = content_type.as_str();
    if str_eq_ignore_ascii_case(req.method.as_str(), "OPTIONS") {
        let empty: Vec<u8> = Vec::new();
        return respond(text_response(200, "OK", empty.as_slice(), "text/plain; charset=utf-8"));
    }
    if !str_eq_ignore_ascii_case(req.method.as_str(), "POST") {
        return plain_text(405, "Method Not Allowed", "Only POST is supported");
    }
    if !str_eq(given.as_str(), csrf) {
        return plain_text(403, "Forbidden", "Invalid CSRF token");
    }
    route_post_call(p, ct, req.body.as_slice(), oauth_topic, empty_topic)
}

} // verus!
