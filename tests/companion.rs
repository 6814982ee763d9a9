use wakeup_gateway::companion::{extension_unary_response, route_companion_request, CompanionAction};
use wakeup_gateway::connect::encode_connect_envelope;
use wakeup_gateway::http::ParsedRequest;
use wakeup_gateway::proto::{encode_len_delim_field, encode_string_field, encode_varint_field};

fn request(method: &str, target: &str, headers: &[(&str, &str)], body: Vec<u8>) -> ParsedRequest {
    ParsedRequest {
        method: method.to_string(),
        target: target.to_string(),
        headers: headers.iter().map(|(k, v)| (k.to_string(), v.to_string())).collect(),
        body,
    }
}

fn respond_text(action: CompanionAction) -> String {
    match action {
        CompanionAction::Respond(bytes) => String::from_utf8_lossy(&bytes).into_owned(),
        CompanionAction::HoldStream { .. } => panic!("expected a plain answer"),
    }
}

#[test]
fn preflight_method_and_csrf_checks() {
    let options = route_companion_request(&request("options", "/x/Any", &[], vec![]), "t", b"o", b"e");
    assert!(respond_text(options.action).starts_with("HTTP/1.1 200 OK"));
    let get = route_companion_request(&request("GET", "/x/Any", &[("x-codeium-csrf-token", "t")], vec![]), "t", b"o", b"e");
    assert!(respond_text(get.action).starts_with("HTTP/1.1 405 Method Not Allowed"));
    let forbidden = route_companion_request(&request("POST", "/x/Any", &[("x-codeium-csrf-token", "bad")], vec![]), "t", b"o", b"e");
    assert!(respond_text(forbidden.action).starts_with("HTTP/1.1 403 Forbidden"));
}

#[test]
fn started_announcement_is_forwarded() {
    let mut body = encode_varint_field(1, 50001);
    body.extend(encode_varint_field(5, 50002));
    let reply = route_companion_request(
        &request("POST", "/exa.extension_server_pb.ExtensionServerService/LanguageServerStarted", &[("x-codeium-csrf-token", "t")], body),
        "t",
        b"o",
        b"e",
    );
    let ports = reply.started.unwrap();
    assert_eq!((ports.https_port, ports.http_port, ports.lsp_port), (50001, 50002, 0));
    assert!(respond_text(reply.action).contains("Content-Type: application/proto\r\nContent-Length: 0"));
    let bad = route_companion_request(
        &request("POST", "/s/LanguageServerStarted", &[("x-codeium-csrf-token", "t")], vec![0x10u8, 1]),
        "t",
        b"o",
        b"e",
    );
    assert!(bad.started.is_none());
    assert!(respond_text(bad.action).starts_with("HTTP/1.1 400 Bad Request"));
}

#[test]
fn oauth_topic_subscription_holds_stream() {
    let body = encode_connect_envelope(0, &encode_string_field(1, "uss-oauth"));
    let reply = route_companion_request(
        &request("POST", "/s/SubscribeToUnifiedStateSyncTopic", &[("x-codeium-csrf-token", "t")], body),
        "t",
        b"OAUTH",
        b"",
    );
    match reply.action {
        CompanionAction::HoldStream { content_type, first_message } => {
            assert_eq!(content_type, "application/connect+proto");
            assert_eq!(first_message, encode_len_delim_field(1, b"OAUTH"));
        }
        CompanionAction::Respond(_) => panic!("expected a held stream"),
    }
    let other = encode_connect_envelope(0, &encode_string_field(1, "uss-agentPreferences"));
    let reply = route_companion_request(
        &request("POST", "/s/SubscribeToUnifiedStateSyncTopic", &[("x-codeium-csrf-token", "t")], other),
        "t",
        b"OAUTH",
        b"",
    );
    match reply.action {
        CompanionAction::HoldStream { first_message, .. } => assert_eq!(first_message, vec![0x0au8, 0]),
        CompanionAction::Respond(_) => panic!("expected a held stream"),
    }
}

#[test]
fn probes_and_unknown_calls_get_empty_success() {
    let framed = route_companion_request(
        &request("POST", "/s/IsAgentManagerEnabled", &[("x-codeium-csrf-token", "t"), ("content-type", "application/connect+proto")], vec![]),
        "t",
        b"o",
        b"e",
    );
    let text = respond_text(framed.action);
    assert!(text.ends_with("\u{0}\u{0}\u{0}\u{0}\u{2}\u{8}\u{1}"));
    let log = route_companion_request(&request("POST", "/s/LogEvent", &[("x-codeium-csrf-token", "t")], vec![]), "t", b"o", b"e");
    assert!(respond_text(log.action).ends_with("Content-Length: 0\r\nConnection: close\r\n\r\n"));
    let unknown = route_companion_request(&request("POST", "/s/SomethingNew", &[("x-codeium-csrf-token", "t"), ("content-type", "application/grpc")], vec![]), "t", b"o", b"e");
    assert!(respond_text(unknown.action).contains("Content-Type: application/grpc\r\n"));
}

#[test]
fn unary_answers_follow_content_type() {
    let framed = extension_unary_response("Application/Connect+Proto; x", &[7u8]);
    assert!(framed.ends_with(&[0u8, 0, 0, 0, 1, 7]));
    let bare = extension_unary_response("", &[7u8]);
    assert!(String::from_utf8_lossy(&bare).contains("application/proto"));
    assert!(bare.ends_with(&[7u8]));
}
