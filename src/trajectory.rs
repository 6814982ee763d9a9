//! Reading a cascade trajectory: which case each step is, the planner's
//! reply once it is done, and the classified error of an error step.
use vstd::prelude::*;
use vstd::string::*;
use crate::json::{as_array, as_str, get, get_opt, get_in, is_object, Json};
use crate::model::{parse_i64, parse_i64_spec};
use crate::text::{ends_with, str_ends_with, str_eq, trim, trim_spec};

verus! {

/// The top-level keys that name a step's case when it is not wrapped.
pub open spec fn case_key(i: int) -> Seq<char> {
    if i == 0 {
        "plannerResponse"@
    } else if i == 1 {
        "errorMessage"@
    } else if i == 2 {
        "userInput"@
    } else if i == 3 {
        "toolCall"@
    } else if i == 4 {
        "checkpoint"@
    } else if i == 5 {
        "commandStatus"@
    } else if i == 6 {
        "notifyUser"@
    } else {
        "ephemeralMessage"@
    }
}

pub const CASE_KEYS: usize = 8;

/// First case key, from `i` on, that the step has as a member.
pub open spec fn first_present_case(step: Json, i: int) -> Option<Seq<char>>
    decreases CASE_KEYS - i,
{
    if i < 0 || i >= CASE_KEYS {
        None
    } else if get(step, case_key(i)) is Some {
        Some(case_key(i))
    } else {
        first_present_case(step, i + 1)
    }
}

/// A step's case: `step.case` when the step is wrapped, else the first case
/// key present at its top level.
pub open spec fn case_name(step: Json) -> Option<Seq<char>> {
    match as_str(get_opt(get(step, "step"@), "case"@)) {
        Some(c) => Some(c),
        None => first_present_case(step, 0),
    }
}

fn case_key_exec(i: usize) -> (r: &'static str)
    requires
        i < CASE_KEYS,
    ensures
        r@ == case_key(i as int),
{
    if i == 0 {
        "plannerResponse"
    } else if i == 1 {
        "errorMessage"
    } else if i == 2 {
        "userInput"
    } else if i == 3 {
        "toolCall"
    } else if i == 4 {
        "checkpoint"
    } else if i == 5 {
        "commandStatus"
    } else if i == 6 {
        "notifyUser"
    } else {
        "ephemeralMessage"
    }
}

/// The case of a trajectory step.
pub fn step_case_name(step: &Json) -> (r: Option<String>)
    ensures
        match r {
            Some(c) => case_name(*step) == Some(c@),
            None => case_name(*step) is None,
        },
{
    let wrapped = get_in(step.get("step"), "case");
    let wrapped_text = match wrapped {
        Some(v) => v.as_str(),
        None => None,
    };
    if let Some(c) = wrapped_text {
        return Some(c.clone());
    }
    let mut i: usize = 0;
    while i < CASE_KEYS
        invariant
            i <= CASE_KEYS,
            as_str(get_opt(get(*step, "step"@), "case"@)) is None,
            first_present_case(*step, i as int) == first_present_case(*step, 0),
        decreases CASE_KEYS - i,
    {
        let key = case_key_exec(i);
        if step.get(key).is_some() {
            return Some(key.to_string());
        }
        i += 1;
    }
    None
}

/// The payload of a step of case `c`: `step.value` when wrapped, else the
/// top-level member named after the case.
pub open spec fn case_value(step: Json, c: Seq<char>) -> Option<Json> {
    if case_name(step) == Some(c) {
        match get_opt(get(step, "step"@), "value"@) {
            Some(v) => Some(v),
            None => get(step, c),
        }
    } else {
        None
    }
}

pub fn step_case_value<'a>(step: &'a Json, c: &str) -> (r: Option<&'a Json>)
    ensures
        match r {
            Some(v) => case_value(*step, c@) == Some(*v),
            None => case_value(*step, c@) is None,
        },
{
    match step_case_name(step) {
        Some(name) => {
            if !str_eq(name.as_str(), c) {
                return None;
            }
            match get_in(step.get("step"), "value") {
                Some(v) => Some(v),
                None => step.get(c),
            }
        },
        None => None,
    }
}

/// The text of the first element of `parts`, from `i` on, whose `text`
/// member is a string.
pub open spec fn first_part_text(parts: Seq<Json>, i: int) -> Option<Seq<char>>
    decreases parts.len() - i,
{
    if i < 0 || i >= parts.len() {
        None
    } else {
        match as_str(get(parts[i], "text"@)) {
            Some(t) => Some(t),
            None => first_part_text(parts, i + 1),
        }
    }
}

/// The planner's reply in a `plannerResponse` payload: `modifiedResponse`,
/// else `response` as text, else `response.text`, else the first text part
/// of the first candidate.
pub open spec fn planner_reply(v: Json) -> Option<Seq<char>> {
    let response = get(v, "response"@);
    if as_str(get(v, "modifiedResponse"@)) is Some {
        as_str(get(v, "modifiedResponse"@))
    } else if as_str(response) is Some {
        as_str(response)
    } else if as_str(get_opt(response, "text"@)) is Some {
        as_str(get_opt(response, "text"@))
    } else {
        match as_array(get_opt(response, "candidates"@)) {
            Some(c) => if c.len() > 0 {
                match as_array(get_opt(get(c[0], "content"@), "parts"@)) {
                    Some(parts) => first_part_text(parts, 0),
                    None => None,
                }
            } else {
                None
            },
            None => None,
        }
    }
}

fn first_part_text_exec(parts: &Vec<Json>) -> (r: Option<String>)
    ensures
        match r {
            Some(t) => first_part_text(parts@, 0) == Some(t@),
            None => first_part_text(parts@, 0) is None,
        },
{
    let mut i: usize = 0;
    while i < parts.len()
        invariant
            i <= parts@.len(),
            first_part_text(parts@, i as int) == first_part_text(parts@, 0),
        decreases parts@.len() - i,
    {
        if let Some(t) = get_in(Some(&parts[i]), "text") {
            if let Some(s) = t.as_str() {
                return Some(s.clone());
            }
        }
        i += 1;
    }
    None
}

/// Reads the planner's reply from a `plannerResponse` payload.
pub fn extract_planner_reply(v: &Json) -> (r: Option<String>)
    ensures
        match r {
            Some(t) => planner_reply(*v) == Some(t@),
            None => planner_reply(*v) is None,
        },
{
    if let Some(m) = v.get("modifiedResponse") {
        if let Some(s) = m.as_str() {
            return Some(s.clone());
        }
    }
    let response = v.get("response");
    if let Some(resp) = response {
        if let Some(s) = resp.as_str() {
            return Some(s.clone());
        }
    }
    if let Some(t) = get_in(response, "text") {
        if let Some(s) = t.as_str() {
            return Some(s.clone());
        }
    }
    if let Some(cands) = get_in(response, "candidates") {
        if let Some(c) = cands.as_array() {
            if c.len() > 0 {
                if let Some(parts) = get_in(c[0].get("content"), "parts") {
                    if let Some(p) = parts.as_array() {
                        return first_part_text_exec(p);
                    }
                }
            }
        }
    }
    None
}

/// The steps of a `GetCascadeTrajectory` answer.
pub open spec fn steps_of(resp: Json) -> Option<Seq<Json>> {
    as_array(get_opt(get(resp, "trajectory"@), "steps"@))
}

/// Index of the last step before `i` whose case is `c`, or -1.
pub open spec fn last_case_index(steps: Seq<Json>, c: Seq<char>, i: int) -> int
    decreases i,
{
    if i <= 0 || i > steps.len() {
        -1
    } else if case_name(steps[i - 1]) == Some(c) {
        i - 1
    } else {
        last_case_index(steps, c, i - 1)
    }
}

/// A finished step's status: `DONE`, or a vendor status name ending in `_DONE`.
pub open spec fn is_done_status(s: Seq<char>) -> bool {
    s == "DONE"@ || ends_with(s, "_DONE"@)
}

/// The reply that ends polling: from the last `plannerResponse` step, when
/// that step is done and its reply, trimmed, is not empty.
pub open spec fn trajectory_reply(resp: Json) -> Option<Seq<char>> {
    match steps_of(resp) {
        None => None,
        Some(steps) => {
            let k = last_case_index(steps, "plannerResponse"@, steps.len() as int);
            if k < 0 {
                None
            } else {
                let step = steps[k];
                match as_str(get(step, "status"@)) {
                    Some(st) => if !is_done_status(st) {
                        None
                    } else {
                        match case_value(step, "plannerResponse"@) {
                            None => None,
                            Some(v) => match planner_reply(v) {
                                None => None,
                                Some(t) => if trim_spec(t).len() == 0 {
                                    None
                                } else {
                                    Some(trim_spec(t))
                                },
                            },
                        }
                    },
                    None => None,
                }
            }
        },
    }
}

fn steps_exec(resp: &Json) -> (r: Option<&Vec<Json>>)
    ensures
        match r {
            Some(s) => steps_of(*resp) == Some(s@),
            None => steps_of(*resp) is None,
        },
{
    match get_in(resp.get("trajectory"), "steps") {
        Some(v) => v.as_array(),
        None => None,
    }
}

fn last_case_index_exec(steps: &Vec<Json>, c: &str) -> (r: Option<usize>)
    ensures
        match r {
            Some(k) => last_case_index(steps@, c@, steps@.len() as int) == k as int && k
                < steps@.len(),
            None => last_case_index(steps@, c@, steps@.len() as int) == -1,
        },
{
    let mut i: usize = steps.len();
    while i > 0
        invariant
            i <= steps@.len(),
            last_case_index(steps@, c@, i as int) == last_case_index(steps@, c@, steps@.len() as int),
        decreases i,
    {
        if let Some(name) = step_case_name(&steps[i - 1]) {
            if str_eq(name.as_str(), c) {
                return Some(i - 1);
            }
        }
        i -= 1;
    }
    None
}

/// Reads the reply that ends polling, if the trajectory holds one.
pub fn extract_trajectory_reply(resp: &Json) -> (r: Option<String>)
    ensures
        match r {
            Some(t) => trajectory_reply(*resp) == Some(t@),
            None => trajectory_reply(*resp) is None,
        },
{
    let steps = match steps_exec(resp) {
        Some(s) => s,
        None => {
            return None;
        },
    };
    let k = match last_case_index_exec(steps, "plannerResponse") {
        Some(k) => k,
        None => {
            return None;
        },
    };
    let step = &steps[k];
    let status = match step.get("status") {
        Some(v) => v.as_str(),
        None => None,
    };
    let st = match status {
        Some(st) => st,
        None => {
            return None;
        },
    };
    if !(str_eq(st.as_str(), "DONE") || str_ends_with(st.as_str(), "_DONE")) {
        return None;
    }
    let value = match step_case_value(step, "plannerResponse") {
        Some(v) => v,
        None => {
            return None;
        },
    };
    match extract_planner_reply(value) {
        Some(t) => {
            let tt = trim(t.as_str());
            if tt.unicode_len() == 0 {
                None
            } else {
                Some(tt)
            }
        },
        None => None,
    }
}

/// Kind of a classified terminal failure.
#[derive(Clone, Copy, Debug, PartialEq, Eq, Structural)]
pub enum ErrorKind {
    VerificationRequired,
    Quota,
    Temporary,
    Generic,
}

/// Kind by vendor error code: 403 needs verification, 429 is quota, the
/// deadline, exhaustion, internal and unavailable codes are temporary.
pub open spec fn error_kind_of(code: Option<i64>) -> ErrorKind {
    match code {
        Some(c) => if c == 403 {
            ErrorKind::VerificationRequired
        } else if c == 429 {
            ErrorKind::Quota
        } else if c == 4 || c == 8 || c == 13 || c == 14 {
            ErrorKind::Temporary
        } else {
            ErrorKind::Generic
        },
        None => ErrorKind::Generic,
    }
}

pub fn classify_gateway_error_kind(code: Option<i64>) -> (r: ErrorKind)
    ensures
        r == error_kind_of(code),
{
    match code {
        Some(403) => ErrorKind::VerificationRequired,
        Some(429) => ErrorKind::Quota,
        Some(4) | Some(8) | Some(13) | Some(14) => ErrorKind::Temporary,
        _ => ErrorKind::Generic,
    }
}

impl ErrorKind {
    /// The tag carried in structured error payloads.
    pub fn as_tag(&self) -> (r: &'static str)
        ensures
            r@ == kind_tag(*self),
    {
        match self {
            ErrorKind::VerificationRequired => "verification_required",
            ErrorKind::Quota => "quota",
            ErrorKind::Temporary => "temporary",
            ErrorKind::Generic => "generic",
        }
    }
}

pub open spec fn kind_tag(k: ErrorKind) -> Seq<char> {
    match k {
        ErrorKind::VerificationRequired => "verification_required"@,
        ErrorKind::Quota => "quota"@,
        ErrorKind::Temporary => "temporary"@,
        ErrorKind::Generic => "generic"@,
    }
}

/// First of up to four optional members that is present.
pub open spec fn first_present4(a: Option<Json>, b: Option<Json>, c: Option<Json>, d: Option<Json>) -> Option<Json> {
    if a is Some { a } else if b is Some { b } else if c is Some { c } else { d }
}

/// An error code: an integer, or a string that reads as one.
pub open spec fn code_of(j: Option<Json>) -> Option<i64> {
    match j {
        Some(Json::Int(i)) => Some(i),
        Some(Json::Str(s)) => match parse_i64_spec(s@) {
            Some(v) => Some(v as i64),
            None => None,
        },
        _ => None,
    }
}

/// Message used when an error step carries none.
pub open spec fn default_error_message() -> Seq<char> {
    "the language server reported an error"@
}

/// The object that describes an error step: its `error` member when that is
/// an object, else the payload itself.
pub open spec fn error_object(ev: Json) -> Json {
    match get(ev, "error"@) {
        Some(e) => if is_object(e) { e } else { ev },
        None => ev,
    }
}

/// The human message of an error payload: the first present of the user
/// message, message, short and full error of the error object, then the user
/// message and message of the payload; trimmed; the default when it is not
/// a non-empty string.
pub open spec fn error_message_of(ev: Json) -> Seq<char> {
    let eo = error_object(ev);
    let src = if get(eo, "userErrorMessage"@) is Some {
        get(eo, "userErrorMessage"@)
    } else if get(eo, "message"@) is Some {
        get(eo, "message"@)
    } else {
        first_present4(
            get(eo, "shortError"@),
            get(eo, "fullError"@),
            get(ev, "userErrorMessage"@),
            get(ev, "message"@),
        )
    };
    match as_str(src) {
        Some(t) => if trim_spec(t).len() > 0 { trim_spec(t) } else { default_error_message() },
        None => default_error_message(),
    }
}

/// The error code of an error payload.
pub open spec fn error_code_of(ev: Json) -> Option<i64> {
    let eo = error_object(ev);
    code_of(
        first_present4(get(eo, "errorCode"@), get(eo, "code"@), get(ev, "errorCode"@), get(ev, "code"@)),
    )
}

/// The `details` member of an error payload.
pub open spec fn error_details_of(ev: Json) -> Option<Json> {
    let eo = error_object(ev);
    if get(eo, "details"@) is Some { get(eo, "details"@) } else { get(ev, "details"@) }
}

fn error_object_exec(ev: &Json) -> (r: &Json)
    ensures
        *r == error_object(*ev),
{
    match ev.get("error") {
        Some(e) => if e.is_object() {
            e
        } else {
            ev
        },
        None => ev,
    }
}

fn first_present4_exec<'a>(
    a: Option<&'a Json>,
    b: Option<&'a Json>,
    c: Option<&'a Json>,
    d: Option<&'a Json>,
) -> (r: Option<&'a Json>)
    ensures
        opt(r) == first_present4(opt(a), opt(b), opt(c), opt(d)),
{
    if a.is_some() {
        a
    } else if b.is_some() {
        b
    } else if c.is_some() {
        c
    } else {
        d
    }
}

pub open spec fn opt(j: Option<&Json>) -> Option<Json> {
    match j {
        Some(v) => Some(*v),
        None => None,
    }
}

fn error_message_exec(ev: &Json) -> (r: String)
    ensures
        r@ == error_message_of(*ev),
{
    let eo = error_object_exec(ev);
    let src = if eo.get("userErrorMessage").is_some() {
        eo.get("userErrorMessage")
    } else if eo.get("message").is_some() {
        eo.get("message")
    } else {
        first_present4_exec(
            eo.get("shortError"),
            eo.get("fullError"),
            ev.get("userErrorMessage"),
            ev.get("message"),
        )
    };
    let text = match src {
        Some(v) => v.as_str(),
        None => None,
    };
    match text {
        Some(t) => {
            let tt = trim(t.as_str());
            if tt.unicode_len() > 0 {
                tt
            } else {
                "the language server reported an error".to_string()
            }
        },
        None => "the language server reported an error".to_string(),
    }
}

fn error_code_exec(ev: &Json) -> (r: Option<i64>)
    ensures
        r == error_code_of(*ev),
{
    let eo = error_object_exec(ev);
    let src = first_present4_exec(eo.get("errorCode"), eo.get("code"), ev.get("errorCode"), ev.get("code"));
    match src {
        Some(Json::Int(i)) => Some(*i),
        Some(Json::Str(s)) => parse_i64(s.as_str()),
        _ => None,
    }
}

/// Text of an optional string member, empty when absent or not a string.
pub open spec fn str_or_empty(j: Option<Json>) -> Seq<char> {
    match as_str(j) {
        Some(t) => t,
        None => Seq::empty(),
    }
}

/// The validation URL of an `ErrorInfo` detail with reason
/// `VALIDATION_REQUIRED`, trimmed, when it is not empty.
pub open spec fn detail_validation_url(item: Json) -> Option<Seq<char>> {
    if str_or_empty(get(item, "@type"@)) == "type.googleapis.com/google.rpc.ErrorInfo"@
        && str_or_empty(get(item, "reason"@)) == "VALIDATION_REQUIRED"@ {
        match as_str(get_opt(get(item, "metadata"@), "validation_url"@)) {
            Some(u) => if trim_spec(u).len() > 0 { Some(trim_spec(u)) } else { None },
            None => None,
        }
    } else {
        None
    }
}

/// First validation URL among `items`, from `i` on.
pub open spec fn first_validation_url(items: Seq<Json>, i: int) -> Option<Seq<char>>
    decreases items.len() - i,
{
    if i < 0 || i >= items.len() {
        None
    } else {
        match detail_validation_url(items[i]) {
            Some(u) => Some(u),
            None => first_validation_url(items, i + 1),
        }
    }
}

/// The validation URL in a parsed error-details document
/// (`error.details[*]`).
pub open spec fn validation_url_of(details: Json) -> Option<Seq<char>> {
    match as_array(get_opt(get(details, "error"@), "details"@)) {
        Some(items) => first_validation_url(items, 0),
        None => None,
    }
}

fn detail_validation_url_exec(item: &Json) -> (r: Option<String>)
    ensures
        match r {
            Some(u) => detail_validation_url(*item) == Some(u@),
            None => detail_validation_url(*item) is None,
        },
{
    let ty = match item.get("@type") {
        Some(v) => v.as_str(),
        None => None,
    };
    let ty_ok = match ty {
        Some(t) => str_eq(t.as_str(), "type.googleapis.com/google.rpc.ErrorInfo"),
        None => str_eq("", "type.googleapis.com/google.rpc.ErrorInfo"),
    };
    let reason = match item.get("reason") {
        Some(v) => v.as_str(),
        None => None,
    };
    let reason_ok = match reason {
        Some(t) => str_eq(t.as_str(), "VALIDATION_REQUIRED"),
        None => str_eq("", "VALIDATION_REQUIRED"),
    };
    proof {
        reveal_strlit("");
        assert(""@ =~= Seq::<char>::empty());
    }
    if !(ty_ok && reason_ok) {
        return None;
    }
    match get_in(item.get("metadata"), "validation_url") {
        Some(v) => match v.as_str() {
            Some(u) => {
                let t = trim(u.as_str());
                if t.unicode_len() > 0 {
                    Some(t)
                } else {
                    None
                }
            },
            None => None,
        },
        None => None,
    }
}

/// Reads the validation URL from a parsed error-details document.
pub fn validation_url_from_details(details: &Json) -> (r: Option<String>)
    ensures
        match r {
            Some(u) => validation_url_of(*details) == Some(u@),
            None => validation_url_of(*details) is None,
        },
{
    let items = match get_in(details.get("error"), "details") {
        Some(v) => match v.as_array() {
            Some(a) => a,
            None => {
                return None;
            },
        },
        None => {
            return None;
        },
    };
    let mut i: usize = 0;
    while i < items.len()
        invariant
            i <= items@.len(),
            as_array(get_opt(get(*details, "error"@), "details"@)) == Some(items@),
            first_validation_url(items@, i as int) == first_validation_url(items@, 0),
        decreases items@.len() - i,
    {
        if let Some(u) = detail_validation_url_exec(&items[i]) {
            return Some(u);
        }
        i += 1;
    }
    None
}

/// A classified failure read from an error step.
#[derive(Clone, Debug)]
pub struct GatewayErrorDetail {
    pub message: String,
    pub error_code: Option<i64>,
    /// The validation URL, when the details were a JSON document.
    pub validation_url: Option<String>,
    /// The details when they came as JSON text: parse it and read the URL
    /// with `validation_url_from_details`.
    pub details_text: Option<String>,
    pub trajectory_id: Option<String>,
    /// Index of the error step in the trajectory.
    pub step_index: usize,
}

/// The trajectory id, trimmed, when it is a non-empty string.
pub open spec fn trajectory_id_of(resp: Json) -> Option<Seq<char>> {
    match as_str(get_opt(get(resp, "trajectory"@), "trajectoryId"@)) {
        Some(t) => if trim_spec(t).len() > 0 { Some(trim_spec(t)) } else { None },
        None => None,
    }
}

/// The failure of the last `errorMessage` step, as (message, code,
/// validation URL, details text, trajectory id, step index).
pub open spec fn trajectory_error(resp: Json) -> Option<
    (Seq<char>, Option<i64>, Option<Seq<char>>, Option<Seq<char>>, Option<Seq<char>>, int),
> {
    match steps_of(resp) {
        None => None,
        Some(steps) => {
            let k = last_case_index(steps, "errorMessage"@, steps.len() as int);
            if k < 0 {
                None
            } else {
                match case_value(steps[k], "errorMessage"@) {
                    None => None,
                    Some(ev) => {
                        let details = error_details_of(ev);
                        let (url, text) = match details {
                            Some(Json::Str(t)) => (None, Some(t@)),
                            Some(d) => (validation_url_of(d), None),
                            None => (None, None),
                        };
                        Some(
                            (
                                error_message_of(ev),
                                error_code_of(ev),
                                url,
                                text,
                                trajectory_id_of(resp),
                                k,
                            ),
                        )
                    },
                }
            }
        },
    }
}

pub open spec fn opt_view(o: Option<String>) -> Option<Seq<char>> {
    match o {
        Some(s) => Some(s@),
        None => None,
    }
}

pub open spec fn detail_view(d: GatewayErrorDetail) -> (
    Seq<char>,
    Option<i64>,
    Option<Seq<char>>,
    Option<Seq<char>>,
    Option<Seq<char>>,
    int,
) {
    (
        d.message@,
        d.error_code,
        opt_view(d.validation_url),
        opt_view(d.details_text),
        opt_view(d.trajectory_id),
        d.step_index as int,
    )
}

fn trajectory_id_exec(resp: &Json) -> (r: Option<String>)
    ensures
        opt_view(r) == trajectory_id_of(*resp),
{
    match get_in(resp.get("trajectory"), "trajectoryId") {
        Some(v) => match v.as_str() {
            Some(t) => {
                let tt = trim(t.as_str());
                if tt.unicode_len() > 0 {
                    Some(tt)
                } else {
                    None
                }
            },
            None => None,
        },
        None => None,
    }
}

/// Reads the failure of the last error step, if the trajectory holds one.
pub fn extract_trajectory_error(resp: &Json) -> (r: Option<GatewayErrorDetail>)
    ensures
        match r {
            Some(d) => trajectory_error(*resp) == Some(detail_view(d)),
            None => trajectory_error(*resp) is None,
        },
{
    let steps = match steps_exec(resp) {
        Some(s) => s,
        None => {
            return None;
        },
    };
    let k = match last_case_index_exec(steps, "errorMessage") {
        Some(k) => k,
        None => {
            return None;
        },
    };
    let ev = match step_case_value(&steps[k], "errorMessage") {
        Some(v) => v,
        None => {
            return None;
        },
    };
    let eo = error_object_exec(ev);
    let details = if eo.get("details").is_some() {
        eo.get("details")
    } else {
        ev.get("details")
    };
    let (validation_url, details_text) = match details {
        Some(Json::Str(t)) => (None, Some(t.clone())),
        Some(d) => (validation_url_from_details(d), None),
        None => (None, None),
    };
    Some(
        GatewayErrorDetail {
            message: error_message_exec(ev),
            error_code: error_code_exec(ev),
            validation_url,
            details_text,
            trajectory_id: trajectory_id_exec(resp),
            step_index: k,
        },
    )
}

} // verus!
