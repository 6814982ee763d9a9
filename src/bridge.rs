//! One wakeup exchange through the gateway: the request bodies it sends and
//! the decision taken after each trajectory poll.
use vstd::prelude::*;
use vstd::string::*;
use crate::json::Json;
use crate::trajectory::{
    detail_view, extract_trajectory_error, extract_trajectory_reply, trajectory_error,
    trajectory_reply, GatewayErrorDetail,
};

verus! {

/// Interval between two trajectory polls, in milliseconds.
pub const POLL_INTERVAL_MS: u64 = 250;
/// Wall-clock budget of the polling loop, in milliseconds.
pub const POLL_BUDGET_MS: u64 = 60000;
/// Output-token limit used when the caller gives none.
pub const DEFAULT_MAX_OUTPUT_TOKENS: u32 = 8192;

/// What to do after one poll.
pub enum PollDecision {
    /// The planner replied: the exchange succeeded with this text.
    Reply(String),
    /// An error step ended the exchange.
    Failed(GatewayErrorDetail),
    /// Sleep one interval and poll again.
    Wait,
    /// The budget is spent without a result.
    GiveUp,
}

/// The decision after a poll answered `resp`, `elapsed_ms` after polling began.
pub open spec fn poll_decision_view(d: PollDecision) -> (int, Seq<char>, Option<
    (Seq<char>, Option<i64>, Option<Seq<char>>, Option<Seq<char>>, Option<Seq<char>>, int),
>) {
    match d {
        PollDecision::Reply(t) => (0, t@, None),
        PollDecision::Failed(e) => (1, Seq::empty(), Some(detail_view(e))),
        PollDecision::Wait => (2, Seq::empty(), None),
        PollDecision::GiveUp => (3, Seq::empty(), None),
    }
}

pub open spec fn poll_decision_spec(resp: Json, elapsed_ms: nat) -> (int, Seq<char>, Option<
    (Seq<char>, Option<i64>, Option<Seq<char>>, Option<Seq<char>>, Option<Seq<char>>, int),
>) {
    match trajectory_reply(resp) {
        Some(t) => (0, t, None),
        None => match trajectory_error(resp) {
            Some(e) => (1, Seq::empty(), Some(e)),
            None => if elapsed_ms + POLL_INTERVAL_MS > POLL_BUDGET_MS {
                (3, Seq::empty(), None)
            } else {
                (2, Seq::empty(), None)
            },
        },
    }
}

/// Decides, from one `GetCascadeTrajectory` answer, whether the exchange has
/// a reply, has failed, or goes on polling within its budget.
pub fn decide_poll(resp: &Json, elapsed_ms: u64) -> (r: PollDecision)
    ensures
        poll_decision_view(r) == poll_decision_spec(*resp, elapsed_ms as nat),
{
    if let Some(t) = extract_trajectory_reply(resp) {
        return PollDecision::Reply(t);
    }
    if let Some(e) = extract_trajectory_error(resp) {
        return PollDecision::Failed(e);
    }
    if elapsed_ms > POLL_BUDGET_MS - POLL_INTERVAL_MS {
        PollDecision::GiveUp
    } else {
        PollDecision::Wait
    }
}

/// The output-token limit sent: the caller's, or the default when zero.
pub open spec fn effective_max_tokens(m: u32) -> u32 {
    if m > 0 { m } else { DEFAULT_MAX_OUTPUT_TOKENS }
}

fn obj1(k: &str, v: Json) -> (r: Json)
    ensures
        r matches Json::Object(e) && e@.len() == 1 && e@[0].0@ == k@ && e@[0].1 == v,
{
    let mut e: Vec<(String, Json)> = Vec::new();
    e.push((k.to_string(), v));
    Json::Object(e)
}

/// The `cascadeConfig` of a send: planner config with the requested model and
/// the token limit, and a checkpoint config with the same limit.
pub fn build_cascade_config(model: i64, max_output_tokens: u32) -> (r: Json)
    ensures
        r matches Json::Object(e) && e@.len() == 2 && e@[0].0@ == "plannerConfig"@
            && e@[1].0@ == "checkpointConfig"@ && (e@[0].1 matches Json::Object(p)
            && p@.len() == 2 && p@[0].0@ == "requestedModel"@ && (p@[0].1 matches Json::Object(
            m,
        ) && m@.len() == 1 && m@[0].0@ == "model"@ && m@[0].1 == Json::Int(model))
            && p@[1].0@ == "maxOutputTokens"@ && p@[1].1 == Json::Int(
            effective_max_tokens(max_output_tokens) as i64,
        )) && (e@[1].1 matches Json::Object(c) && c@.len() == 1 && c@[0].0@ == "maxOutputTokens"@
            && c@[0].1 == Json::Int(effective_max_tokens(max_output_tokens) as i64)),
{
    let limit: u32 = if max_output_tokens > 0 {
        max_output_tokens
    } else {
        DEFAULT_MAX_OUTPUT_TOKENS
    };
    let mut planner: Vec<(String, Json)> = Vec::new();
    planner.push(("requestedModel".to_string(), obj1("model", Json::Int(model))));
    planner.push(("maxOutputTokens".to_string(), Json::Int(limit as i64)));
    let mut config: Vec<(String, Json)> = Vec::new();
    config.push(("plannerConfig".to_string(), Json::Object(planner)));
    config.push(("checkpointConfig".to_string(), obj1("maxOutputTokens", Json::Int(limit as i64))));
    Json::Object(config)
}

/// A string value holding `s`.
pub open spec fn is_text(j: Json, s: Seq<char>) -> bool {
    match j {
        Json::Str(x) => x@ == s,
        _ => false,
    }
}

/// An array of one object whose only member `text` holds `s`.
pub open spec fn is_text_items(j: Json, s: Seq<char>) -> bool {
    match j {
        Json::Array(items) => items@.len() == 1 && match items@[0] {
            Json::Object(t) => t@.len() == 1 && t@[0].0@ == "text"@ && is_text(t@[0].1, s),
            _ => false,
        },
        _ => false,
    }
}

/// The body of `SendUserCascadeMessage`: the cascade id, one text item
/// holding the prompt, and the cascade configuration.
pub fn build_send_body(cascade_id: &str, prompt: &str, config: Json) -> (r: Json)
    ensures
        r matches Json::Object(e) && e@.len() == 3 && e@[0].0@ == "cascadeId"@ && is_text(
            e@[0].1,
            cascade_id@,
        ) && e@[1].0@ == "items"@ && is_text_items(e@[1].1, prompt@) && e@[2].0@ == "cascadeConfig"@
            && e@[2].1 == config,
{
    let mut items: Vec<Json> = Vec::new();
    items.push(obj1("text", Json::Str(prompt.to_string())));
    let mut body: Vec<(String, Json)> = Vec::new();
    body.push(("cascadeId".to_string(), Json::Str(cascade_id.to_string())));
    body.push(("items".to_string(), Json::Array(items)));
    body.push(("cascadeConfig".to_string(), config));
    Json::Object(body)
}

/// The body of the calls that name only a cascade.
pub fn build_cascade_id_body(cascade_id: &str) -> (r: Json)
    ensures
        r matches Json::Object(e) && e@.len() == 1 && e@[0].0@ == "cascadeId"@ && is_text(
            e@[0].1,
            cascade_id@,
        ),
{
    obj1("cascadeId", Json::Str(cascade_id.to_string()))
}

} // verus!
