//! State and routing of the local gateway: the queue of prepared start
//! contexts, the registry of live sessions, and which handler a request goes to.
use vstd::prelude::*;
use vstd::string::*;
use crate::json::{as_str, get, Json};
use crate::text::{str_eq, str_eq_ignore_ascii_case, eq_ignore_ascii_case, trim, trim_spec};

verus! {

/// How long a prepared start context stays usable, in milliseconds.
pub const PREPARED_CONTEXT_TTL_MS: i64 = 60000;

/// Account binding for the next `StartCascade`.
#[derive(Clone, Debug)]
pub struct PreparedStartContext {
    pub account_id: String,
    pub model: Option<String>,
    pub max_output_tokens: Option<u32>,
    /// Creation time, in milliseconds since the epoch.
    pub prepared_at_ms: i64,
}

/// Whether a context created at `at` has outlived its TTL at `now`.
pub open spec fn is_expired(at: i64, now: i64) -> bool {
    now - at > PREPARED_CONTEXT_TTL_MS
}

/// Number of expired contexts at the front of the queue, from `i` on.
pub open spec fn expired_prefix(q: Seq<PreparedStartContext>, now: i64, i: int) -> int
    decreases q.len() - i,
{
    if i < 0 || i >= q.len() || !is_expired(q[i].prepared_at_ms, now) {
        i
    } else {
        expired_prefix(q, now, i + 1)
    }
}

proof fn lemma_expired_prefix_bounds(q: Seq<PreparedStartContext>, now: i64, i: int)
    requires
        0 <= i <= q.len(),
    ensures
        i <= expired_prefix(q, now, i) <= q.len(),
        expired_prefix(q, now, i) < q.len() ==> !is_expired(q[expired_prefix(q, now, i)].prepared_at_ms, now),
        forall|k: int| i <= k < expired_prefix(q, now, i) ==> is_expired(#[trigger] q[k].prepared_at_ms, now),
    decreases q.len() - i,
{
    if i < q.len() && is_expired(q[i].prepared_at_ms, now) {
        lemma_expired_prefix_bounds(q, now, i + 1);
    }
}

/// First-in, first-out queue of prepared contexts.
pub struct PendingStartContexts {
    queue: Vec<PreparedStartContext>,
}

impl PendingStartContexts {
    pub closed spec fn view(&self) -> Seq<PreparedStartContext> {
        self.queue@
    }

    pub fn new() -> (r: Self)
        ensures
            r.view() == Seq::<PreparedStartContext>::empty(),
    {
        PendingStartContexts { queue: Vec::new() }
    }

    pub fn len(&self) -> (r: usize)
        ensures
            r == self.view().len(),
    {
        self.queue.len()
    }

    fn drop_expired_front(&mut self, now_ms: i64)
        ensures
            final(self).view() == old(self).view().subrange(
                expired_prefix(old(self).view(), now_ms, 0),
                old(self).view().len() as int,
            ),
    {
        proof {
            lemma_expired_prefix_bounds(self.queue@, now_ms, 0);
        }
        let ghost q = self.queue@;
        let mut k: usize = 0;
        while k < self.queue.len() && now_ms as i128 - self.queue[k].prepared_at_ms as i128
            > PREPARED_CONTEXT_TTL_MS as i128
            invariant
                self.queue@ == q,
                k <= q.len(),
                expired_prefix(q, now_ms, k as int) == expired_prefix(q, now_ms, 0),
            decreases q.len() - k,
        {
            k += 1;
        }
        let kept = self.queue.split_off(k);
        self.queue = kept;
    }

    /// Queues a context after dropping the expired ones at the front.
    pub fn push(&mut self, ctx: PreparedStartContext)
        ensures
            final(self).view() == old(self).view().subrange(
                expired_prefix(old(self).view(), ctx.prepared_at_ms, 0),
                old(self).view().len() as int,
            ).push(ctx),
    {
        self.drop_expired_front(ctx.prepared_at_ms);
        self.queue.push(ctx);
    }

    /// Takes the oldest context that has not expired at `now_ms`; the expired
    /// ones before it are dropped without being returned.
    pub fn pop_unexpired(&mut self, now_ms: i64) -> (r: Option<PreparedStartContext>)
        ensures
            ({
                let q = old(self).view();
                let k = expired_prefix(q, now_ms, 0);
                &&& r == (if k < q.len() { Some(q[k]) } else { None::<PreparedStartContext> })
                &&& final(self).view() == (if k < q.len() {
                    q.subrange(k + 1, q.len() as int)
                } else {
                    Seq::<PreparedStartContext>::empty()
                })
            }),
    {
        proof {
            lemma_expired_prefix_bounds(self.queue@, now_ms, 0);
        }
        self.drop_expired_front(now_ms);
        if self.queue.len() == 0 {
            return None;
        }
        let first = self.queue.remove(0);
        Some(first)
    }
}

/// Whatever the queue holds, a context popped at `now` has not outlived its
/// TTL, and every context dropped before it had.
pub proof fn lemma_expired_never_consumed(q: Seq<PreparedStartContext>, now: i64)
    ensures
        ({
            let k = expired_prefix(q, now, 0);
            &&& k < q.len() ==> !is_expired(q[k].prepared_at_ms, now)
            &&& forall|i: int| 0 <= i < k ==> is_expired(#[trigger] q[i].prepared_at_ms, now)
        }),
{
    lemma_expired_prefix_bounds(q, now, 0);
}

/// A failure answered with an HTTP status and a message.
#[derive(Clone, Debug)]
pub struct HttpFailure {
    pub status: u16,
    pub message: String,
}

/// A trimmed string, when it is not empty.
pub open spec fn trim_non_empty(s: Seq<char>) -> Option<Seq<char>> {
    if trim_spec(s).len() > 0 { Some(trim_spec(s)) } else { None }
}

pub fn trim_non_empty_exec(s: &str) -> (r: Option<String>)
    ensures
        match r {
            Some(t) => trim_non_empty(s@) == Some(t@),
            None => trim_non_empty(s@) is None,
        },
{
    let t = trim(s);
    if t.unicode_len() > 0 {
        Some(t)
    } else {
        None
    }
}

/// Fields of a `prepareStartContext` body: the account id (required, a
/// non-empty string once trimmed), an optional model hint (a string, trimmed,
/// dropped when empty) and an optional token limit (an integer that fits 32
/// bits). `None` means the body is refused with 400.
pub open spec fn prepare_request_spec(body: Json) -> Option<(Seq<char>, Option<Seq<char>>, Option<u32>)> {
    let account = as_str(get(body, "accountId"@));
    let model_ok = match get(body, "model"@) {
        None => true,
        Some(Json::Null) => true,
        Some(Json::Str(_)) => true,
        _ => false,
    };
    let model = match get(body, "model"@) {
        Some(Json::Str(m)) => trim_non_empty(m@),
        _ => None,
    };
    let max_ok = match get(body, "maxOutputTokens"@) {
        None => true,
        Some(Json::Null) => true,
        Some(Json::Int(i)) => 0 <= i && i <= u32::MAX,
        _ => false,
    };
    let max = match get(body, "maxOutputTokens"@) {
        Some(Json::Int(i)) => if 0 <= i && i <= u32::MAX { Some(i as u32) } else { None },
        _ => None,
    };
    if !(body is Object) || !model_ok || !max_ok {
        None
    } else {
        match account {
            None => None,
            Some(a) => if trim_spec(a).len() == 0 { None } else { Some((trim_spec(a), model, max)) },
        }
    }
}

/// Reads a `prepareStartContext` body into a context stamped `now_ms`.
pub fn parse_prepare_request(body: &Json, now_ms: i64) -> (r: Result<PreparedStartContext, HttpFailure>)
    ensures
        match r {
            Ok(c) => prepare_request_spec(*body) == Some(
                (c.account_id@, opt_chars(c.model), c.max_output_tokens),
            ) && c.prepared_at_ms == now_ms,
            Err(f) => prepare_request_spec(*body) is None && f.status == 400,
        },
{
    if !body.is_object() {
        return Err(HttpFailure { status: 400, message: "prepareStartContext body must be a JSON object".to_string() });
    }
    let model: Option<String> = match body.get("model") {
        None => None,
        Some(Json::Null) => None,
        Some(Json::Str(m)) => trim_non_empty_exec(m.as_str()),
        Some(_) => {
            return Err(HttpFailure { status: 400, message: "model must be a string".to_string() });
        },
    };
    let max: Option<u32> = match body.get("maxOutputTokens") {
        None => None,
        Some(Json::Null) => None,
        Some(Json::Int(i)) => {
            if 0 <= *i && *i <= u32::MAX as i64 {
                Some(*i as u32)
            } else {
                return Err(HttpFailure { status: 400, message: "maxOutputTokens is out of range".to_string() });
            }
        },
        Some(_) => {
            return Err(HttpFailure { status: 400, message: "maxOutputTokens must be an integer".to_string() });
        },
    };
    let account = match body.get("accountId") {
        Some(Json::Str(a)) => trim(a.as_str()),
        _ => {
            return Err(HttpFailure { status: 400, message: "accountId is missing".to_string() });
        },
    };
    if account.unicode_len() == 0 {
        return Err(HttpFailure { status: 400, message: "accountId is missing".to_string() });
    }
    Ok(PreparedStartContext { account_id: account, model, max_output_tokens: max, prepared_at_ms: now_ms })
}

pub open spec fn opt_chars(o: Option<String>) -> Option<Seq<char>> {
    match o {
        Some(s) => Some(s@),
        None => None,
    }
}

/// The `cascadeId` of a request body, trimmed; `None` when it is missing,
/// not a string, or blank.
pub open spec fn cascade_id_of(body: Json) -> Option<Seq<char>> {
    match as_str(get(body, "cascadeId"@)) {
        Some(t) => trim_non_empty(t),
        None => None,
    }
}

/// Reads the required `cascadeId` of a request body (400 when absent).
pub fn extract_required_cascade_id(body: &Json) -> (r: Result<String, HttpFailure>)
    ensures
        match r {
            Ok(id) => cascade_id_of(*body) == Some(id@),
            Err(f) => cascade_id_of(*body) is None && f.status == 400,
        },
{
    let text = match body.get("cascadeId") {
        Some(v) => v.as_str(),
        None => None,
    };
    match text {
        Some(t) => match trim_non_empty_exec(t.as_str()) {
            Some(id) => Ok(id),
            None => Err(HttpFailure { status: 400, message: "cascadeId is missing".to_string() }),
        },
        None => Err(HttpFailure { status: 400, message: "cascadeId is missing".to_string() }),
    }
}

/// Position of the entry keyed `k`, searching from `i` (the length when none).
pub open spec fn key_index<S>(e: Seq<(String, S)>, k: Seq<char>, i: int) -> int
    decreases e.len() - i,
{
    if i < 0 || i >= e.len() {
        e.len() as int
    } else if e[i].0@ == k {
        i
    } else {
        key_index(e, k, i + 1)
    }
}

proof fn lemma_key_index<S>(e: Seq<(String, S)>, k: Seq<char>, i: int)
    requires
        0 <= i <= e.len(),
    ensures
        i <= key_index(e, k, i) <= e.len(),
        key_index(e, k, i) < e.len() ==> e[key_index(e, k, i)].0@ == k,
        forall|j: int| i <= j < key_index(e, k, i) ==> (#[trigger] e[j]).0@ != k,
    decreases e.len() - i,
{
    if i < e.len() && e[i].0@ != k {
        lemma_key_index(e, k, i + 1);
    }
}

proof fn lemma_key_index_exact<S>(e: Seq<(String, S)>, k: Seq<char>, j: int)
    requires
        0 <= j < e.len(),
        e[j].0@ == k,
        forall|a: int| 0 <= a < j ==> (#[trigger] e[a]).0@ != k,
    ensures
        key_index(e, k, 0) == j,
{
    lemma_key_index(e, k, 0);
    let f = key_index(e, k, 0);
    if f < j {
        assert(e[f].0@ != k);
    } else if f > j {
        assert(e[j].0@ != k);
    }
}

/// Live sessions keyed by cascade id.
pub struct SessionRegistry<S> {
    entries: Vec<(String, S)>,
}

impl<S> SessionRegistry<S> {
    /// The session registered under `k`.
    pub closed spec fn lookup(&self, k: Seq<char>) -> Option<S> {
        let i = key_index(self.entries@, k, 0);
        if i < self.entries@.len() { Some(self.entries@[i].1) } else { None }
    }

    pub closed spec fn count(&self) -> nat {
        self.entries@.len()
    }

    /// Keys are unique.
    pub closed spec fn wf(&self) -> bool {
        forall|a: int, b: int|
            0 <= a < b < self.entries@.len() ==> (#[trigger] self.entries@[a]).0@ != (
            #[trigger] self.entries@[b]).0@
    }

    pub fn new() -> (r: Self)
        ensures
            r.wf(),
            forall|k: Seq<char>| r.lookup(k) is None,
    {
        SessionRegistry { entries: Vec::new() }
    }

    fn find(&self, id: &str) -> (r: Option<usize>)
        ensures
            match r {
                Some(i) => key_index(self.entries@, id@, 0) == i as int && i < self.entries@.len(),
                None => key_index(self.entries@, id@, 0) == self.entries@.len(),
            },
    {
        proof {
            lemma_key_index(self.entries@, id@, 0);
        }
        let mut i: usize = 0;
        while i < self.entries.len()
            invariant
                i <= self.entries@.len(),
                key_index(self.entries@, id@, i as int) == key_index(self.entries@, id@, 0),
            decreases self.entries@.len() - i,
        {
            if str_eq(self.entries[i].0.as_str(), id) {
                return Some(i);
            }
            i += 1;
        }
        None
    }

    /// The session registered under `id`.
    pub fn get(&self, id: &str) -> (r: Option<&S>)
        ensures
            match r {
                Some(s) => self.lookup(id@) == Some(*s),
                None => self.lookup(id@) is None,
            },
    {
        match self.find(id) {
            Some(i) => Some(&self.entries[i].1),
            None => None,
        }
    }

    /// Registers `session` under `id`, handing back the session it replaces.
    pub fn insert(&mut self, id: String, session: S) -> (r: Option<S>)
        requires
            old(self).wf(),
        ensures
            final(self).wf(),
            r == old(self).lookup(id@),
            final(self).lookup(id@) == Some(session),
            forall|k: Seq<char>| k != id@ ==> final(self).lookup(k) == old(self).lookup(k),
    {
        let ghost e = self.entries@;
        proof {
            lemma_key_index(e, id@, 0);
        }
        match self.find(id.as_str()) {
            Some(i) => {
                let ghost key = id@;
                let old_entry = self.entries.remove(i);
                self.entries.insert(i, (id, session));
                proof {
                    assert(self.entries@ =~= e.update(i as int, (self.entries@[i as int].0, session)));
                    assert forall|k: Seq<char>| k != key implies self.lookup(k) == old(self).lookup(k) by {
                        lemma_key_index(e, k, 0);
                        let f = key_index(e, k, 0);
                        if f < e.len() {
                            assert(f != i);
                            lemma_key_index_exact(self.entries@, k, f);
                        } else {
                            assert forall|a: int| 0 <= a < self.entries@.len() implies (#[trigger] self.entries@[a]).0@ != k by {
                                if a != i {
                                    assert(self.entries@[a] == e[a]);
                                }
                            }
                            lemma_key_index(self.entries@, k, 0);
                            if key_index(self.entries@, k, 0) < self.entries@.len() {
                                let g = key_index(self.entries@, k, 0);
                                assert(self.entries@[g].0@ != k);
                            }
                        }
                    }
                    lemma_key_index_exact(self.entries@, key, i as int);
                }
                Some(old_entry.1)
            },
            None => {
                let ghost key = id@;
                self.entries.push((id, session));
                proof {
                    assert(self.entries@ =~= e.push(self.entries@[e.len() as int]));
                    assert forall|a: int| 0 <= a < e.len() implies (#[trigger] e[a]).0@ != key by {}
                    lemma_key_index_exact(self.entries@, key, e.len() as int);
                    assert forall|k: Seq<char>| k != key implies self.lookup(k) == old(self).lookup(k) by {
                        lemma_key_index(e, k, 0);
                        let f = key_index(e, k, 0);
                        if f < e.len() {
                            lemma_key_index_exact(self.entries@, k, f);
                        } else {
                            lemma_key_index(self.entries@, k, 0);
                            if key_index(self.entries@, k, 0) < self.entries@.len() {
                                let g = key_index(self.entries@, k, 0);
                                if g < e.len() {
                                    assert(e[g].0@ != k);
                                }
                            }
                        }
                    }
                }
                None
            },
        }
    }

    /// Removes and returns the session registered under `id`.
    pub fn remove(&mut self, id: &str) -> (r: Option<S>)
        requires
            old(self).wf(),
        ensures
            final(self).wf(),
            r == old(self).lookup(id@),
            r is None ==> *final(self) == *old(self),
            final(self).lookup(id@) is None,
            forall|k: Seq<char>| k != id@ ==> final(self).lookup(k) == old(self).lookup(k),
    {
        let ghost e = self.entries@;
        proof {
            lemma_key_index(e, id@, 0);
        }
        match self.find(id) {
            Some(i) => {
                let removed = self.entries.remove(i);
                proof {
                    assert(self.entries@ =~= e.remove(i as int));
                    assert forall|k: Seq<char>| #![auto] k != id@ implies self.lookup(k) == old(self).lookup(k) by {
                        lemma_key_index(e, k, 0);
                        let f = key_index(e, k, 0);
                        if f < e.len() {
                            assert(f != i);
                            let nf = if f < i { f } else { f - 1 };
                            assert(self.entries@[nf] == e[f]);
                            assert forall|a: int| 0 <= a < nf implies (#[trigger] self.entries@[a]).0@ != k by {
                                let oa = if a < i { a } else { a + 1 };
                                assert(self.entries@[a] == e[oa]);
                                if oa > f {
                                    assert(e[f].0@ != e[oa].0@);
                                }
                            }
                            lemma_key_index_exact(self.entries@, k, nf);
                        } else {
                            lemma_key_index(self.entries@, k, 0);
                            if key_index(self.entries@, k, 0) < self.entries@.len() {
                                let g = key_index(self.entries@, k, 0);
                                let og = if g < i { g } else { g + 1 };
                                assert(self.entries@[g] == e[og]);
                            }
                        }
                    }
                    lemma_key_index(self.entries@, id@, 0);
                    if key_index(self.entries@, id@, 0) < self.entries@.len() {
                        let g = key_index(self.entries@, id@, 0);
                        let og = if g < i { g } else { g + 1 };
                        assert(self.entries@[g] == e[og]);
                        assert(e[i as int].0@ == id@);
                        if og < i {
                            assert(e[og].0@ != e[i as int].0@);
                        } else {
                            assert(e[i as int].0@ != e[og].0@);
                        }
                    }
                }
                Some(removed.1)
            },
            None => None,
        }
    }
}

/// Path of the internal call that binds the next `StartCascade` to an account.
pub const PREPARE_START_CONTEXT_PATH: &'static str = "/__ag_internal__/wakeup/prepareStartContext";
/// Path of `StartCascade`.
pub const START_CASCADE_PATH: &'static str = "/exa.language_server_pb.LanguageServerService/StartCascade";
/// Path of `SendUserCascadeMessage`.
pub const SEND_USER_CASCADE_MESSAGE_PATH: &'static str =
    "/exa.language_server_pb.LanguageServerService/SendUserCascadeMessage";
/// Path of `GetCascadeTrajectory`.
pub const GET_CASCADE_TRAJECTORY_PATH: &'static str =
    "/exa.language_server_pb.LanguageServerService/GetCascadeTrajectory";
/// Path of `DeleteCascadeTrajectory`.
pub const DELETE_CASCADE_TRAJECTORY_PATH: &'static str =
    "/exa.language_server_pb.LanguageServerService/DeleteCascadeTrajectory";

/// Where the gateway sends a request.
#[derive(Clone, Copy, Debug, PartialEq, Eq, Structural)]
pub enum GatewayRoute {
    /// CORS preflight: 200 with an empty body.
    Preflight,
    /// Not a POST: 405.
    MethodNotAllowed,
    PrepareStartContext,
    StartCascade,
    SendUserCascadeMessage,
    GetCascadeTrajectory,
    DeleteCascadeTrajectory,
    /// No such path: 404.
    NotFound,
}

pub open spec fn gateway_route_spec(method: Seq<char>, path: Seq<char>) -> GatewayRoute {
    if eq_ignore_ascii_case(method, "OPTIONS"@) {
        GatewayRoute::Preflight
    } else if !eq_ignore_ascii_case(method, "POST"@) {
        GatewayRoute::MethodNotAllowed
    } else if path == PREPARE_START_CONTEXT_PATH@ {
        GatewayRoute::PrepareStartContext
    } else if path == START_CASCADE_PATH@ {
        GatewayRoute::StartCascade
    } else if path == SEND_USER_CASCADE_MESSAGE_PATH@ {
        GatewayRoute::SendUserCascadeMessage
    } else if path == GET_CASCADE_TRAJECTORY_PATH@ {
        GatewayRoute::GetCascadeTrajectory
    } else if path == DELETE_CASCADE_TRAJECTORY_PATH@ {
        GatewayRoute::DeleteCascadeTrajectory
    } else {
        GatewayRoute::NotFound
    }
}

/// Routes a request by method and normalised path.
pub fn route_gateway_request(method: &str, path: &str) -> (r: GatewayRoute)
    ensures
        r == gateway_route_spec(method@, path@),
{
    if str_eq_ignore_ascii_case(method, "OPTIONS") {
        GatewayRoute::Preflight
    } else if !str_eq_ignore_ascii_case(method, "POST") {
        GatewayRoute::MethodNotAllowed
    } else if str_eq(path, PREPARE_START_CONTEXT_PATH) {
        GatewayRoute::PrepareStartContext
    } else if str_eq(path, START_CASCADE_PATH) {
        GatewayRoute::StartCascade
    } else if str_eq(path, SEND_USER_CASCADE_MESSAGE_PATH) {
        GatewayRoute::SendUserCascadeMessage
    } else if str_eq(path, GET_CASCADE_TRAJECTORY_PATH) {
        GatewayRoute::GetCascadeTrajectory
    } else if str_eq(path, DELETE_CASCADE_TRAJECTORY_PATH) {
        GatewayRoute::DeleteCascadeTrajectory
    } else {
        GatewayRoute::NotFound
    }
}

/// The gateway's shared state: prepared contexts waiting for a
/// `StartCascade`, and the live sessions by cascade id.
pub struct GatewayState<S> {
    pub pending: PendingStartContexts,
    pub sessions: SessionRegistry<S>,
}

impl<S> GatewayState<S> {
    pub open spec fn wf(&self) -> bool {
        self.sessions.wf()
    }

    pub fn new() -> (r: Self)
        ensures
            r.wf(),
            r.pending.view() == Seq::<PreparedStartContext>::empty(),
            forall|k: Seq<char>| r.sessions.lookup(k) is None,
    {
        GatewayState { pending: PendingStartContexts::new(), sessions: SessionRegistry::new() }
    }

    /// `prepareStartContext`: queues the context that the body describes
    /// (400 when it describes none).
    pub fn handle_prepare(&mut self, body: &Json, now_ms: i64) -> (r: Result<(), HttpFailure>)
        ensures
            final(self).sessions == old(self).sessions,
            match r {
                Ok(()) => prepare_request_spec(*body) is Some && final(self).pending.view().len() >= 1
                    && ({
                        let c = final(self).pending.view().last();
                        &&& prepare_request_spec(*body) == Some((c.account_id@, opt_chars(c.model), c.max_output_tokens))
                        &&& c.prepared_at_ms == now_ms
                    })
                    && final(self).pending.view().drop_last() == old(self).pending.view().subrange(
                        expired_prefix(old(self).pending.view(), now_ms, 0),
                        old(self).pending.view().len() as int,
                    ),
                Err(f) => f.status == 400 && prepare_request_spec(*body) is None
                    && final(self).pending.view() == old(self).pending.view(),
            },
    {
        let ctx = parse_prepare_request(body, now_ms)?;
        proof {
            lemma_expired_prefix_bounds(self.pending.view(), now_ms, 0);
        }
        self.pending.push(ctx);
        Ok(())
    }

    /// `StartCascade`: takes the next unexpired context (400 when none is
    /// left); the caller then starts its session.
    pub fn take_start_context(&mut self, now_ms: i64) -> (r: Result<PreparedStartContext, HttpFailure>)
        ensures
            final(self).sessions == old(self).sessions,
            ({
                let q = old(self).pending.view();
                let k = expired_prefix(q, now_ms, 0);
                &&& match r {
                    Ok(c) => k < q.len() && c == q[k] && !is_expired(c.prepared_at_ms, now_ms),
                    Err(f) => k >= q.len() && f.status == 400,
                }
                &&& final(self).pending.view() == (if k < q.len() {
                    q.subrange(k + 1, q.len() as int)
                } else {
                    Seq::<PreparedStartContext>::empty()
                })
            }),
    {
        proof {
            lemma_expired_prefix_bounds(self.pending.view(), now_ms, 0);
        }
        match self.pending.pop_unexpired(now_ms) {
            Some(c) => Ok(c),
            None => Err(HttpFailure {
                status: 400,
                message: "no prepared account context; call prepareStartContext first".to_string(),
            }),
        }
    }

    /// `SendUserCascadeMessage` and `GetCascadeTrajectory`: the session that
    /// the body names (400 without a cascade id, 404 for an unknown one).
    pub fn session_for(&self, body: &Json) -> (r: Result<&S, HttpFailure>)
        ensures
            match r {
                Ok(s) => cascade_id_of(*body) is Some && self.sessions.lookup(cascade_id_of(*body).unwrap())
                    == Some(*s),
                Err(f) => (f.status == 400 && cascade_id_of(*body) is None) || (f.status == 404
                    && cascade_id_of(*body) is Some && self.sessions.lookup(cascade_id_of(*body).unwrap()) is None),
            },
    {
        let id = extract_required_cascade_id(body)?;
        match self.sessions.get(id.as_str()) {
            Some(s) => Ok(s),
            None => Err(HttpFailure { status: 404, message: "no such session".to_string() }),
        }
    }

    /// `DeleteCascadeTrajectory`: unregisters the session that the body names
    /// first, so that later lookups fail at once; the caller then proxies the
    /// delete and tears the session down.
    pub fn remove_session_for(&mut self, body: &Json) -> (r: Result<(String, S), HttpFailure>)
        requires
            old(self).wf(),
        ensures
            final(self).wf(),
            final(self).pending == old(self).pending,
            match r {
                Ok((id, s)) => cascade_id_of(*body) == Some(id@) && old(self).sessions.lookup(id@) == Some(s)
                    && final(self).sessions.lookup(id@) is None && forall|k: Seq<char>|
                    k != id@ ==> final(self).sessions.lookup(k) == old(self).sessions.lookup(k),
                Err(f) => final(self).sessions == old(self).sessions && ((f.status == 400
                    && cascade_id_of(*body) is None) || (f.status == 404 && cascade_id_of(*body) is Some
                    && old(self).sessions.lookup(cascade_id_of(*body).unwrap()) is None)),
            },
    {
        let id = match extract_required_cascade_id(body) {
            Ok(id) => id,
            Err(f) => {
                return Err(f);
            },
        };
        match self.sessions.remove(id.as_str()) {
            Some(s) => Ok((id, s)),
            None => Err(HttpFailure { status: 404, message: "no such session".to_string() }),
        }
    }
}

} // verus!
