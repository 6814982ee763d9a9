use wakeup_gateway::catalog::{available_models_from_response, catalog_from_response, extract_ordered_model_ids, hardcoded_wakeup_models};
use wakeup_gateway::json::Json;
use wakeup_gateway::legacy::{finish_stream, line_payload_exec, stream_payloads, StreamAccumulator};
use wakeup_gateway::session::{client_metadata, locale_from_lang, new_session_secrets, app_data_dir_for, cloud_code_endpoint, session_step, SessionAction, SessionEvent, SessionPhase};
use wakeup_gateway::handshake::StartedPorts;

fn s(v: &str) -> Json {
    Json::Str(v.to_string())
}

fn obj(members: Vec<(&str, Json)>) -> Json {
    Json::Object(members.into_iter().map(|(k, v)| (k.to_string(), v)).collect())
}

#[test]
fn stream_lines_give_payloads() {
    let text = "data: {\"a\":1}\r\n\n: comment\ndata:data: [1]\ndata: [DONE]\n{\"b\":2}\nevent: x";
    assert_eq!(stream_payloads(text), vec!["{\"a\":1}".to_string(), "[1]".to_string(), "{\"b\":2}".to_string()]);
    assert_eq!(line_payload_exec("data:   "), None);
    assert_eq!(stream_payloads(""), Vec::<String>::new());
}

#[test]
fn stream_events_accumulate() {
    let mut acc = StreamAccumulator::new();
    let first = obj(vec![
        ("traceId", s("t1")),
        ("response", obj(vec![
            ("responseId", s("r1")),
            ("candidates", Json::Array(vec![obj(vec![("content", obj(vec![("parts", Json::Array(vec![
                obj(vec![("text", s("thinking")), ("thought", Json::Bool(true))]),
                obj(vec![("text", s("Hel"))]),
            ]))]))])])),
            ("usageMetadata", obj(vec![("promptTokenCount", Json::Int(3)), ("totalTokenCount", Json::Int(9))])),
        ])),
    ]);
    acc.process(&first);
    let second = obj(vec![("candidates", Json::Array(vec![obj(vec![("content", obj(vec![("parts", Json::Array(vec![obj(vec![("text", s("lo"))])]))]))])])), ("traceId", s("t2"))]);
    acc.process(&second);
    let w = finish_stream(acc, true, 12).unwrap();
    assert_eq!(w.reply, "Hello");
    assert_eq!(w.prompt_tokens, Some(3));
    assert_eq!(w.completion_tokens, Some(0));
    assert_eq!(w.total_tokens, Some(9));
    assert_eq!(w.trace_id, Some("t1".to_string()));
    assert_eq!(w.response_id, Some("r1".to_string()));
    assert_eq!(w.duration_ms, 12);
    assert!(finish_stream(StreamAccumulator::new(), false, 1).is_err());
    assert_eq!(finish_stream(StreamAccumulator::new(), true, 1).unwrap().reply, "(无回复)");
}

#[test]
fn model_list_is_read() {
    let meta = |name: &str, constant: &str| obj(vec![("displayName", s(name)), ("model", s(constant)), ("recommended", Json::Bool(true))]);
    let resp = obj(vec![
        ("payload", obj(vec![
            ("agentModelSorts", Json::Array(vec![obj(vec![("groups", Json::Array(vec![
                obj(vec![("modelIds", Json::Array(vec![s(" m2 "), s("m1"), s("ghost")]))]),
                obj(vec![("modelIds", Json::Array(vec![s("m2"), s("")]))]),
            ]))])])),
            ("models", obj(vec![("m1", meta("One", "MODEL_PLACEHOLDER_M1")), ("m2", obj(vec![("model", s("7"))]))])),
        ])),
    ]);
    assert_eq!(extract_ordered_model_ids(&resp), vec!["m2".to_string(), "m1".to_string(), "ghost".to_string()]);
    let models = available_models_from_response(&resp);
    assert_eq!(models.len(), 2);
    assert_eq!((models[0].id.as_str(), models[0].display_name.as_str()), ("m2", "m2"));
    assert_eq!(models[1].display_name, "One");
    assert_eq!(models[1].recommended, Some(true));
    let catalog = catalog_from_response(&resp).unwrap();
    assert_eq!(catalog.len(), 2);
    assert_eq!(catalog[1].model_constant, Some("7".to_string()));
    let empty = obj(vec![]);
    assert!(catalog_from_response(&empty).is_none());
    assert_eq!(available_models_from_response(&empty).len(), hardcoded_wakeup_models().len());
}

#[test]
fn session_launch_and_handshake() {
    assert_eq!(cloud_code_endpoint(Some(true)), "https://cloudcode-pa.googleapis.com");
    assert_eq!(cloud_code_endpoint(None), "https://daily-cloudcode-pa.googleapis.com");
    assert_eq!(app_data_dir_for("abcdefghijkl"), "antigravity-cockpit-tools-wakeup-ls-abcdefgh");
    assert_eq!(app_data_dir_for("ab"), "antigravity-cockpit-tools-wakeup-ls-ab");
    let ports = StartedPorts { https_port: 1, http_port: 2, lsp_port: 3 };
    let (p, a) = session_step(SessionPhase::Spawning, SessionEvent::Spawned { now_ms: 100 });
    assert_eq!(p, SessionPhase::AwaitingCallback { deadline_ms: 15_100 });
    assert_eq!(a, SessionAction::Wait);
    assert_eq!(session_step(p, SessionEvent::Tick { now_ms: 15_101 }).1, SessionAction::KillAndFail);
    assert_eq!(session_step(p, SessionEvent::ChannelClosed).1, SessionAction::KillAndFail);
    assert_eq!(session_step(p, SessionEvent::Announced { ports, now_ms: 200 }), (SessionPhase::Ready { ports }, SessionAction::Serve));
    assert_eq!(session_step(SessionPhase::Ready { ports }, SessionEvent::Shutdown), (SessionPhase::ShuttingDown, SessionAction::TearDown));
}

#[test]
fn session_secrets_and_metadata() {
    let a = new_session_secrets();
    assert_eq!(a.companion_csrf.chars().count(), 36);
    assert_eq!(a.subprocess_csrf.chars().count(), 36);
    assert_ne!(a.companion_csrf, a.subprocess_csrf);
    let m = client_metadata("1.19.5", "/opt/ext", "en-US");
    assert_eq!(m.ide_name, "Antigravity");
    assert_eq!(m.extension_name, "antigravity");
    assert_eq!(m.device_fingerprint.chars().count(), 36);
    assert_eq!(locale_from_lang(Some("en_US.UTF-8")), "en-US");
    assert_eq!(locale_from_lang(Some("de_DE")), "de-DE");
    assert_eq!(locale_from_lang(Some(".UTF-8")), "");
    assert_eq!(locale_from_lang(None), "zh-CN");
}
