use wakeup_gateway::bridge::{build_cascade_config, build_send_body, decide_poll, PollDecision};
use wakeup_gateway::json::Json;
use wakeup_gateway::trajectory::{
    classify_gateway_error_kind, extract_trajectory_error, extract_trajectory_reply,
    step_case_name, validation_url_from_details, ErrorKind,
};

fn s(v: &str) -> Json {
    Json::Str(v.to_string())
}

fn obj(members: Vec<(&str, Json)>) -> Json {
    Json::Object(members.into_iter().map(|(k, v)| (k.to_string(), v)).collect())
}

fn trajectory(steps: Vec<Json>) -> Json {
    obj(vec![("status", s("RUNNING")), ("trajectory", obj(vec![("trajectoryId", s(" t-1 ")), ("steps", Json::Array(steps))]))])
}

#[test]
fn done_planner_step_gives_reply() {
    let resp = trajectory(vec![
        obj(vec![("userInput", obj(vec![]))]),
        obj(vec![("status", s("DONE")), ("plannerResponse", obj(vec![("modifiedResponse", s("X"))]))]),
    ]);
    assert_eq!(extract_trajectory_reply(&resp), Some("X".to_string()));
    match decide_poll(&resp, 0) {
        PollDecision::Reply(t) => assert_eq!(t, "X"),
        _ => panic!("expected a reply"),
    }
}

#[test]
fn running_planner_step_keeps_polling() {
    let resp = trajectory(vec![obj(vec![("status", s("RUNNING")), ("plannerResponse", obj(vec![("modifiedResponse", s("partial"))]))])]);
    assert_eq!(extract_trajectory_reply(&resp), None);
    assert!(matches!(decide_poll(&resp, 1000), PollDecision::Wait));
    assert!(matches!(decide_poll(&resp, 59_751), PollDecision::GiveUp));
    assert!(matches!(decide_poll(&resp, 59_750), PollDecision::Wait));
}

#[test]
fn wrapped_steps_and_reply_fallbacks() {
    let wrapped = obj(vec![
        ("status", s("CORTEX_STEP_STATUS_DONE")),
        ("step", obj(vec![("case", s("plannerResponse")), ("value", obj(vec![("response", obj(vec![("text", s("  hi  "))]))]))])),
    ]);
    assert_eq!(step_case_name(&wrapped), Some("plannerResponse".to_string()));
    assert_eq!(extract_trajectory_reply(&trajectory(vec![wrapped])), Some("hi".to_string()));
    let parts = obj(vec![
        ("status", s("DONE")),
        ("plannerResponse", obj(vec![("response", obj(vec![("candidates", Json::Array(vec![obj(vec![("content", obj(vec![("parts", Json::Array(vec![obj(vec![]), obj(vec![("text", s("P"))])]))]))])]))]))])),
    ]);
    assert_eq!(extract_trajectory_reply(&trajectory(vec![parts])), Some("P".to_string()));
    let blank = obj(vec![("status", s("DONE")), ("plannerResponse", obj(vec![("modifiedResponse", s("   "))]))]);
    assert_eq!(extract_trajectory_reply(&trajectory(vec![blank])), None);
}

#[test]
fn error_step_with_403_needs_verification() {
    let details = obj(vec![("error", obj(vec![("details", Json::Array(vec![obj(vec![
        ("@type", s("type.googleapis.com/google.rpc.ErrorInfo")),
        ("reason", s("VALIDATION_REQUIRED")),
        ("metadata", obj(vec![("validation_url", s(" https://v.example/x "))])),
    ])]))]))]);
    let step = obj(vec![("errorMessage", obj(vec![("error", obj(vec![("userErrorMessage", s(" verify please ")), ("code", Json::Int(403)), ("details", details)]))]))]);
    let resp = trajectory(vec![step]);
    let detail = extract_trajectory_error(&resp).unwrap();
    assert_eq!(detail.message, "verify please");
    assert_eq!(detail.error_code, Some(403));
    assert_eq!(detail.validation_url, Some("https://v.example/x".to_string()));
    assert_eq!(detail.trajectory_id, Some("t-1".to_string()));
    assert_eq!(detail.step_index, 0);
    assert_eq!(classify_gateway_error_kind(detail.error_code), ErrorKind::VerificationRequired);
    assert!(matches!(decide_poll(&resp, 0), PollDecision::Failed(_)));
}

#[test]
fn error_details_as_text_and_codes_as_strings() {
    let step = obj(vec![("errorMessage", obj(vec![("errorCode", s("429")), ("details", s("{\"error\":{}}"))]))]);
    let detail = extract_trajectory_error(&trajectory(vec![step])).unwrap();
    assert_eq!(detail.error_code, Some(429));
    assert_eq!(detail.details_text, Some("{\"error\":{}}".to_string()));
    assert_eq!(detail.message, "the language server reported an error");
    assert_eq!(validation_url_from_details(&obj(vec![])), None);
}

#[test]
fn error_kinds() {
    assert_eq!(classify_gateway_error_kind(Some(429)), ErrorKind::Quota);
    for c in [4i64, 8, 13, 14] {
        assert_eq!(classify_gateway_error_kind(Some(c)), ErrorKind::Temporary);
    }
    assert_eq!(classify_gateway_error_kind(Some(500)), ErrorKind::Generic);
    assert_eq!(classify_gateway_error_kind(None), ErrorKind::Generic);
    assert_eq!(ErrorKind::Quota.as_tag(), "quota");
}

#[test]
fn request_bodies() {
    let config = build_cascade_config(1018, 0);
    let body = build_send_body("c1", "ping", config);
    let Json::Object(members) = body else { panic!("object expected") };
    assert_eq!(members[0].0, "cascadeId");
    let Json::Object(cfg) = &members[2].1 else { panic!("object expected") };
    let Json::Object(planner) = &cfg[0].1 else { panic!("object expected") };
    assert!(matches!(planner[1].1, Json::Int(8192)));
    let Json::Object(checkpoint) = &cfg[1].1 else { panic!("object expected") };
    assert!(matches!(checkpoint[0].1, Json::Int(8192)));
    let Json::Object(cfg2) = build_cascade_config(5, 77) else { panic!("object expected") };
    let Json::Object(planner2) = &cfg2[0].1 else { panic!("object expected") };
    assert!(matches!(planner2[1].1, Json::Int(77)));
}
