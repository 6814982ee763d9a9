use wakeup_gateway::gateway::{
    extract_required_cascade_id, parse_prepare_request, route_gateway_request, GatewayRoute, GatewayState,
    PendingStartContexts, PreparedStartContext, SessionRegistry,
};
use wakeup_gateway::json::Json;

fn ctx(account: &str, at: i64) -> PreparedStartContext {
    PreparedStartContext { account_id: account.to_string(), model: None, max_output_tokens: None, prepared_at_ms: at }
}

fn obj(members: Vec<(&str, Json)>) -> Json {
    Json::Object(members.into_iter().map(|(k, v)| (k.to_string(), v)).collect())
}

#[test]
fn expired_context_is_never_consumed() {
    let mut q = PendingStartContexts::new();
    q.push(ctx("old", 0));
    assert_eq!(q.len(), 1);
    assert!(q.pop_unexpired(60_001).is_none());
    assert_eq!(q.len(), 0);
}

#[test]
fn contexts_are_taken_in_order_within_ttl() {
    let mut q = PendingStartContexts::new();
    q.push(ctx("a", 1_000));
    q.push(ctx("b", 2_000));
    let first = q.pop_unexpired(61_000).unwrap();
    assert_eq!(first.account_id, "a");
    let second = q.pop_unexpired(61_500).unwrap();
    assert_eq!(second.account_id, "b");
    assert!(q.pop_unexpired(61_500).is_none());
}

#[test]
fn expired_front_is_dropped_on_push_and_pop() {
    let mut q = PendingStartContexts::new();
    q.push(ctx("stale", 0));
    q.push(ctx("fresh", 70_000));
    assert_eq!(q.len(), 1);
    q.push(ctx("later", 80_000));
    let got = q.pop_unexpired(135_000).unwrap();
    assert_eq!(got.account_id, "later");
    assert_eq!(q.len(), 0);
}

#[test]
fn prepare_request_fields() {
    let body = obj(vec![("accountId", Json::Str(" acc ".to_string())), ("model", Json::Str("  ".to_string())), ("maxOutputTokens", Json::Int(64))]);
    let c = parse_prepare_request(&body, 5).unwrap();
    assert_eq!(c.account_id, "acc");
    assert_eq!(c.model, None);
    assert_eq!(c.max_output_tokens, Some(64));
    assert_eq!(c.prepared_at_ms, 5);
    let missing = obj(vec![("model", Json::Str("m".to_string()))]);
    assert_eq!(parse_prepare_request(&missing, 5).unwrap_err().status, 400);
    let negative = obj(vec![("accountId", Json::Str("a".to_string())), ("maxOutputTokens", Json::Int(-1))]);
    assert_eq!(parse_prepare_request(&negative, 5).unwrap_err().status, 400);
    assert_eq!(parse_prepare_request(&Json::Array(vec![]), 5).unwrap_err().status, 400);
}

#[test]
fn cascade_id_is_required() {
    assert_eq!(extract_required_cascade_id(&obj(vec![("cascadeId", Json::Str(" c9 ".to_string()))])).unwrap(), "c9");
    assert_eq!(extract_required_cascade_id(&obj(vec![])).unwrap_err().status, 400);
    assert_eq!(extract_required_cascade_id(&obj(vec![("cascadeId", Json::Int(3))])).unwrap_err().status, 400);
}

#[test]
fn gateway_routes() {
    assert_eq!(route_gateway_request("OPTIONS", "/anything"), GatewayRoute::Preflight);
    assert_eq!(route_gateway_request("GET", "/anything"), GatewayRoute::MethodNotAllowed);
    assert_eq!(route_gateway_request("post", "/__ag_internal__/wakeup/prepareStartContext"), GatewayRoute::PrepareStartContext);
    assert_eq!(route_gateway_request("POST", "/exa.language_server_pb.LanguageServerService/StartCascade"), GatewayRoute::StartCascade);
    assert_eq!(route_gateway_request("POST", "/exa.language_server_pb.LanguageServerService/GetCascadeTrajectory"), GatewayRoute::GetCascadeTrajectory);
    assert_eq!(route_gateway_request("POST", "/nope"), GatewayRoute::NotFound);
}

#[test]
fn session_registry_operations() {
    let mut r: SessionRegistry<u32> = SessionRegistry::new();
    assert_eq!(r.insert("a".to_string(), 1), None);
    assert_eq!(r.insert("b".to_string(), 2), None);
    assert_eq!(r.get("a"), Some(&1));
    assert_eq!(r.insert("a".to_string(), 3), Some(1));
    assert_eq!(r.get("a"), Some(&3));
    assert_eq!(r.remove("a"), Some(3));
    assert_eq!(r.get("a"), None);
    assert_eq!(r.get("b"), Some(&2));
    assert_eq!(r.remove("zz"), None);
}

#[test]
fn gateway_state_handlers() {
    let mut g: GatewayState<u8> = GatewayState::new();
    let prepare = obj(vec![("accountId", Json::Str("acc".to_string()))]);
    assert!(g.handle_prepare(&prepare, 1_000).is_ok());
    assert_eq!(g.handle_prepare(&obj(vec![]), 1_000).unwrap_err().status, 400);
    assert_eq!(g.take_start_context(2_000).unwrap().account_id, "acc");
    assert_eq!(g.take_start_context(2_000).unwrap_err().status, 400);
    g.sessions.insert("c1".to_string(), 7);
    let body = obj(vec![("cascadeId", Json::Str("c1".to_string()))]);
    assert_eq!(g.session_for(&body).ok(), Some(&7));
    assert_eq!(g.session_for(&obj(vec![])).unwrap_err().status, 400);
    assert_eq!(g.session_for(&obj(vec![("cascadeId", Json::Str("zz".to_string()))])).unwrap_err().status, 404);
    assert_eq!(g.remove_session_for(&body).unwrap(), ("c1".to_string(), 7));
    assert_eq!(g.remove_session_for(&body).unwrap_err().status, 404);
    assert_eq!(g.session_for(&body).unwrap_err().status, 404);
}
