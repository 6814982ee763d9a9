//! Transport selection and the legacy direct client's retry policy: backoff,
//! base-URL stickiness, and the decision taken after each attempt.
use vstd::prelude::*;
use vstd::string::*;
use crate::text::{eq_ignore_ascii_case, starts_with, str_eq, str_eq_ignore_ascii_case, str_starts_with, trim, trim_spec};

verus! {

/// First backoff step, in milliseconds.
pub const BACKOFF_BASE_MS: u64 = 500;
/// Longest backoff, in milliseconds.
pub const BACKOFF_MAX_MS: u64 = 4000;
/// Upper bound (exclusive) of the random jitter added to a backoff.
pub const JITTER_BOUND_MS: u64 = 100;
/// Attempts made against one base URL.
pub const ATTEMPTS_PER_BASE: usize = 2;

pub open spec fn pow2(e: nat) -> nat
    decreases e,
{
    if e == 0 { 1 } else { 2 * pow2((e - 1) as nat) }
}

/// Delay before attempt `attempt` (counted from 1): none before the second;
/// then `base * 2^(attempt-2) + jitter`, capped.
pub open spec fn backoff_delay(attempt: nat, jitter: nat) -> nat {
    if attempt < 2 {
        0
    } else {
        let raw: nat = (BACKOFF_BASE_MS as nat) * pow2((attempt - 2) as nat) + jitter;
        if raw > BACKOFF_MAX_MS { BACKOFF_MAX_MS as nat } else { raw }
    }
}

proof fn lemma_pow2_grows(a: nat, b: nat)
    requires
        a <= b,
    ensures
        pow2(a) <= pow2(b),
        pow2(b) >= 1,
    decreases b,
{
    if b > 0 {
        if a < b {
            lemma_pow2_grows(a, (b - 1) as nat);
        }
        lemma_pow2_grows(0, (b - 1) as nat);
    }
}

/// The backoff delay for a given jitter.
pub fn backoff_delay_ms(attempt: u64, jitter: u64) -> (r: u64)
    requires
        jitter < JITTER_BOUND_MS,
    ensures
        r as nat == backoff_delay(attempt as nat, jitter as nat),
{
    if attempt < 2 {
        return 0;
    }
    let mut raw: u64 = BACKOFF_BASE_MS;
    let mut k: u64 = 2;
    while k < attempt && raw < BACKOFF_MAX_MS
        invariant
            2 <= k <= attempt,
            raw as nat == BACKOFF_BASE_MS * pow2((k - 2) as nat),
            raw < 2 * BACKOFF_MAX_MS,
        decreases attempt - k,
    {
        raw = raw * 2;
        k += 1;
    }
    if raw >= BACKOFF_MAX_MS {
        proof {
            lemma_pow2_grows((k - 2) as nat, (attempt - 2) as nat);
            assert(BACKOFF_BASE_MS * pow2((k - 2) as nat) <= BACKOFF_BASE_MS * pow2(
                (attempt - 2) as nat,
            )) by (nonlinear_arith)
                requires pow2((k - 2) as nat) <= pow2((attempt - 2) as nat);
        }
        return BACKOFF_MAX_MS;
    }
    if raw + jitter > BACKOFF_MAX_MS {
        BACKOFF_MAX_MS
    } else {
        raw + jitter
    }
}

/// Relies on rand's `Rng::gen_range` over `0..100` on the thread-local
/// generator: a value in that range.
#[verifier::external_body]
fn random_jitter_ms() -> (r: u64)
    ensures
        r < JITTER_BOUND_MS,
{
    rand::Rng::gen_range(&mut rand::thread_rng(), 0..JITTER_BOUND_MS)
}

/// Backoff before attempt `attempt`, with a fresh random jitter.
pub fn get_backoff_delay_ms(attempt: u64) -> (r: u64)
    ensures
        exists|j: nat| j < JITTER_BOUND_MS && r as nat == backoff_delay(attempt as nat, j),
        attempt < 2 ==> r == 0,
        r <= BACKOFF_MAX_MS,
{
    let jitter = random_jitter_ms();
    backoff_delay_ms(attempt, jitter)
}

/// The backoff schedule: no wait before the first attempt, half a second
/// (plus under 100 ms of jitter) before the second, a second before the
/// third, and never more than the cap.
pub proof fn lemma_backoff_schedule(attempt: nat, jitter: nat)
    requires
        jitter < JITTER_BOUND_MS,
    ensures
        attempt <= 1 ==> backoff_delay(attempt, jitter) == 0,
        attempt == 2 ==> 500 <= backoff_delay(attempt, jitter) < 600,
        attempt == 3 ==> 1000 <= backoff_delay(attempt, jitter) < 1100,
        backoff_delay(attempt, jitter) <= BACKOFF_MAX_MS,
{
    assert(pow2(0) == 1);
    assert(pow2(1) == 2);
}

/// How the wakeup call reaches the backend.
#[derive(Clone, Copy, Debug, PartialEq, Eq)]
pub enum TransportMode {
    /// Direct calls to the upstream streaming endpoint.
    LegacyDirect,
    /// Calls through the local gateway and the language-server subprocess.
    Gateway,
}

/// Mode named by the configuration switch: the gateway when it is unset or,
/// trimmed, names the gateway in any ASCII case; the legacy client otherwise.
pub open spec fn transport_mode_of(setting: Option<Seq<char>>) -> TransportMode {
    match setting {
        None => TransportMode::Gateway,
        Some(v) => {
            let t = trim_spec(v);
            if eq_ignore_ascii_case(t, "client_gateway"@) || eq_ignore_ascii_case(t, "client-gateway"@)
                || eq_ignore_ascii_case(t, "gateway"@) {
                TransportMode::Gateway
            } else {
                TransportMode::LegacyDirect
            }
        },
    }
}

/// Reads the transport switch.
pub fn resolve_transport_mode(setting: Option<&str>) -> (r: TransportMode)
    ensures
        r == transport_mode_of(
            match setting {
                Some(v) => Some(v@),
                None => None,
            },
        ),
{
    match setting {
        None => TransportMode::Gateway,
        Some(v) => {
            let t = trim(v);
            let ts = t.as_str();
            if str_eq_ignore_ascii_case(ts, "client_gateway") || str_eq_ignore_ascii_case(
                ts,
                "client-gateway",
            ) || str_eq_ignore_ascii_case(ts, "gateway") {
                TransportMode::Gateway
            } else {
                TransportMode::LegacyDirect
            }
        },
    }
}

/// Whether the configured transport needs the language-server binary.
pub fn wakeup_requires_official_ls(setting: Option<&str>) -> (r: bool)
    ensures
        r == (transport_mode_of(
            match setting {
                Some(v) => Some(v@),
                None => None,
            },
        ) == TransportMode::Gateway),
{
    match resolve_transport_mode(setting) {
        TransportMode::Gateway => true,
        TransportMode::LegacyDirect => false,
    }
}

/// Outcome of one attempt against one base URL.
#[derive(Clone, Copy, Debug, PartialEq, Eq, Structural)]
pub enum AttemptOutcome {
    /// A 2xx answer whose body parsed.
    Success,
    /// HTTP 401.
    Unauthorized,
    /// HTTP 403.
    Forbidden,
    /// HTTP 429, HTTP 5xx, a network error, or a body that did not parse.
    Retryable,
    /// Any other client error.
    Rejected,
}

/// Outcome of an answer with the given status (its body aside).
pub open spec fn status_outcome(status: u16) -> AttemptOutcome {
    if 200 <= status && status < 300 {
        AttemptOutcome::Success
    } else if status == 401 {
        AttemptOutcome::Unauthorized
    } else if status == 403 {
        AttemptOutcome::Forbidden
    } else if status == 429 || status >= 500 {
        AttemptOutcome::Retryable
    } else {
        AttemptOutcome::Rejected
    }
}

pub fn classify_status(status: u16) -> (r: AttemptOutcome)
    ensures
        r == status_outcome(status),
{
    if 200 <= status && status < 300 {
        AttemptOutcome::Success
    } else if status == 401 {
        AttemptOutcome::Unauthorized
    } else if status == 403 {
        AttemptOutcome::Forbidden
    } else if status == 429 || status >= 500 {
        AttemptOutcome::Retryable
    } else {
        AttemptOutcome::Rejected
    }
}

/// What the legacy client does after an attempt.
#[derive(Clone, Copy, Debug, PartialEq, Eq, Structural)]
pub enum RetryStep {
    /// Wait `delay_ms`, then make attempt `attempt` against base `base_index`.
    Retry { base_index: usize, attempt: usize, delay_ms: u64 },
    /// Done: move base `base_index` to the front of the order.
    Succeeded { base_index: usize },
    /// Stop: the credential has expired.
    AuthExpired,
    /// Stop: access is forbidden.
    Forbidden,
    /// Stop: every base URL has been tried; surface the last error.
    Exhausted,
}

/// The step after attempt `attempt` against base `base_index` of `n_bases`.
pub open spec fn retry_step_spec(
    base_index: nat,
    attempt: nat,
    n_bases: nat,
    outcome: AttemptOutcome,
    jitter: nat,
) -> RetryStep {
    match outcome {
        AttemptOutcome::Success => RetryStep::Succeeded { base_index: base_index as usize },
        AttemptOutcome::Unauthorized => RetryStep::AuthExpired,
        AttemptOutcome::Forbidden => RetryStep::Forbidden,
        AttemptOutcome::Retryable => if attempt < ATTEMPTS_PER_BASE {
            RetryStep::Retry {
                base_index: base_index as usize,
                attempt: (attempt + 1) as usize,
                delay_ms: backoff_delay(attempt + 1, jitter) as u64,
            }
        } else if base_index + 1 < n_bases {
            RetryStep::Retry { base_index: (base_index + 1) as usize, attempt: 1, delay_ms: 0 }
        } else {
            RetryStep::Exhausted
        },
        AttemptOutcome::Rejected => if base_index + 1 < n_bases {
            RetryStep::Retry { base_index: (base_index + 1) as usize, attempt: 1, delay_ms: 0 }
        } else {
            RetryStep::Exhausted
        },
    }
}

/// Decides the step after an attempt, given the jitter for a backoff.
pub fn next_retry_step(
    base_index: usize,
    attempt: usize,
    n_bases: usize,
    outcome: AttemptOutcome,
    jitter: u64,
) -> (r: RetryStep)
    requires
        base_index < n_bases,
        1 <= attempt <= ATTEMPTS_PER_BASE,
        jitter < JITTER_BOUND_MS,
    ensures
        r == retry_step_spec(base_index as nat, attempt as nat, n_bases as nat, outcome, jitter as nat),
{
    match outcome {
        AttemptOutcome::Success => RetryStep::Succeeded { base_index },
        AttemptOutcome::Unauthorized => RetryStep::AuthExpired,
        AttemptOutcome::Forbidden => RetryStep::Forbidden,
        AttemptOutcome::Retryable => {
            if attempt < ATTEMPTS_PER_BASE {
                let delay_ms = backoff_delay_ms((attempt + 1) as u64, jitter);
                RetryStep::Retry { base_index, attempt: attempt + 1, delay_ms }
            } else if base_index + 1 < n_bases {
                RetryStep::Retry { base_index: base_index + 1, attempt: 1, delay_ms: 0 }
            } else {
                RetryStep::Exhausted
            }
        },
        AttemptOutcome::Rejected => {
            if base_index + 1 < n_bases {
                RetryStep::Retry { base_index: base_index + 1, attempt: 1, delay_ms: 0 }
            } else {
                RetryStep::Exhausted
            }
        },
    }
}

/// Index of the first element of `s` equal to `b`, searching from `i`.
pub open spec fn first_index(s: Seq<Seq<char>>, b: Seq<char>, i: int) -> int
    decreases s.len() - i,
{
    if i < 0 || i >= s.len() {
        s.len() as int
    } else if s[i] == b {
        i
    } else {
        first_index(s, b, i + 1)
    }
}

/// The order after a success on `b`: `b` moved to the front when present,
/// the rest keeping their order; unchanged otherwise.
pub open spec fn promote_spec(s: Seq<Seq<char>>, b: Seq<char>) -> Seq<Seq<char>> {
    let i = first_index(s, b, 0);
    if i < s.len() {
        seq![b] + s.remove(i)
    } else {
        s
    }
}

pub open spec fn no_duplicates(s: Seq<Seq<char>>) -> bool {
    forall|i: int, j: int| 0 <= i < j < s.len() ==> s[i] != s[j]
}

/// Ordered alternate upstream base URLs; the one that last succeeded leads.
pub struct BaseUrlOrder {
    urls: Vec<String>,
}

pub open spec fn strings_view(v: Seq<String>) -> Seq<Seq<char>> {
    v.map_values(|s: String| s@)
}

impl BaseUrlOrder {
    pub closed spec fn view(&self) -> Seq<Seq<char>> {
        strings_view(self.urls@)
    }

    pub open spec fn wf(&self) -> bool {
        no_duplicates(self.view())
    }

    /// An order holding the given URLs, first occurrences kept.
    pub fn new(urls: &Vec<String>) -> (r: Self)
        ensures
            r.wf(),
            forall|k: int| 0 <= k < urls@.len() ==> r.view().contains(#[trigger] urls@[k]@),
            forall|k: int| 0 <= k < r.view().len() ==> strings_view(urls@).contains(#[trigger] r.view()[k]),
    {
        let mut out: Vec<String> = Vec::new();
        let mut i: usize = 0;
        while i < urls.len()
            invariant
                i <= urls@.len(),
                no_duplicates(strings_view(out@)),
                forall|k: int| 0 <= k < i ==> strings_view(out@).contains(#[trigger] urls@[k]@),
                forall|k: int| 0 <= k < out@.len() ==> strings_view(urls@).contains(#[trigger] strings_view(out@)[k]),
            decreases urls@.len() - i,
        {
            let candidate = &urls[i];
            let mut j: usize = 0;
            let mut seen = false;
            while j < out.len()
                invariant
                    j <= out@.len(),
                    seen ==> strings_view(out@).contains(candidate@),
                    !seen ==> forall|k: int| 0 <= k < j ==> out@[k]@ != candidate@,
                decreases out@.len() - j,
            {
                if str_eq(out[j].as_str(), candidate.as_str()) {
                    seen = true;
                    proof {
                        assert(strings_view(out@)[j as int] == candidate@);
                    }
                }
                j += 1;
            }
            if !seen {
                let ghost before = out@;
                out.push(candidate.clone());
                proof {
                    assert(strings_view(out@) =~= strings_view(before).push(candidate@));
                    assert(strings_view(out@)[before.len() as int] == candidate@);
                    assert forall|k: int| 0 <= k < i + 1 implies strings_view(out@).contains(#[trigger] urls@[k]@) by {
                        if k < i {
                            let w = choose|w: int| 0 <= w < strings_view(before).len() && strings_view(before)[w] == urls@[k]@;
                            assert(strings_view(out@)[w] == urls@[k]@);
                        } else {
                            assert(strings_view(out@)[before.len() as int] == urls@[k]@);
                        }
                    }
                    assert forall|k: int| 0 <= k < out@.len() implies strings_view(urls@).contains(#[trigger] strings_view(out@)[k]) by {
                        if k < before.len() {
                            assert(strings_view(out@)[k] == strings_view(before)[k]);
                        } else {
                            assert(strings_view(urls@)[i as int] == candidate@);
                        }
                    }
                }
            } else {
                proof {
                    assert(strings_view(urls@)[i as int] == candidate@);
                }
            }
            i += 1;
        }
        BaseUrlOrder { urls: out }
    }

    /// The current order.
    pub fn order(&self) -> (r: Vec<String>)
        ensures
            strings_view(r@) == self.view(),
    {
        let mut out: Vec<String> = Vec::new();
        let mut i: usize = 0;
        while i < self.urls.len()
            invariant
                i <= self.urls@.len(),
                out@.len() == i,
                forall|k: int| 0 <= k < i ==> (#[trigger] out@[k])@ == self.urls@[k]@,
            decreases self.urls@.len() - i,
        {
            let ghost before = out@;
            let item = self.urls[i].clone();
            out.push(item);
            i += 1;
            proof {
                assert(out@ == before.push(item));
            }
        }
        proof {
            assert(strings_view(out@) =~= strings_view(self.urls@));
        }
        out
    }

    /// Moves `base` to the front after a success with it; an unknown URL
    /// leaves the order as it is.
    pub fn promote(&mut self, base: &str)
        requires
            old(self).wf(),
        ensures
            final(self).wf(),
            final(self).view() == promote_spec(old(self).view(), base@),
    {
        let ghost v = self.view();
        assert(v == old(self).view());
        let mut i: usize = 0;
        while i < self.urls.len()
            invariant
                i <= self.urls@.len(),
                v == self.view(),
                v == old(self).view(),
                no_duplicates(v),
                first_index(v, base@, i as int) == first_index(v, base@, 0),
            decreases self.urls@.len() - i,
        {
            if str_eq(self.urls[i].as_str(), base) {
                let ghost old_urls = self.urls@;
                proof {
                    assert(v[i as int] == base@);
                    assert(first_index(v, base@, i as int) == i);
                }
                let moved = self.urls.remove(i);
                self.urls.insert(0, moved);
                proof {
                    assert(self.urls@ == old_urls.remove(i as int).insert(0, moved));
                    assert(moved@ == base@);
                    assert(self.view() =~= seq![base@] + v.remove(i as int));
                    assert forall|a: int, b: int| 0 <= a < b < self.view().len() implies self.view()[a]
                        != self.view()[b] by {
                        let ob = if b - 1 < i { b - 1 } else { b };
                        assert(self.view()[b] == v[ob]);
                        assert(ob != i);
                        if a == 0 {
                            assert(v[i as int] == base@);
                            if ob < i {
                                assert(v[ob] != v[i as int]);
                            } else {
                                assert(v[i as int] != v[ob]);
                            }
                        } else {
                            let oa = if a - 1 < i { a - 1 } else { a };
                            assert(self.view()[a] == v[oa]);
                            assert(oa < ob);
                            assert(v[oa] != v[ob]);
                        }
                    }
                    assert(first_index(v, base@, 0) == i);
                    assert(self.view() == promote_spec(v, base@));
                    assert(old(self).view() == v);
                }
                return;
            }
            i += 1;
        }
    }
}

/// A local gateway URL written with the loopback address, rewritten to name
/// `localhost`, which the gateway's certificate covers.
pub open spec fn local_gateway_url(u: Seq<char>) -> Seq<char> {
    if starts_with(u, "https://127.0.0.1:"@) {
        "https://localhost:"@ + u.subrange(18, u.len() as int)
    } else if starts_with(u, "http://127.0.0.1:"@) {
        "http://localhost:"@ + u.subrange(17, u.len() as int)
    } else {
        u
    }
}

pub fn normalize_local_gateway_base_url(base_url: &str) -> (r: String)
    ensures
        r@ == local_gateway_url(base_url@),
{
    proof {
        reveal_strlit("https://127.0.0.1:");
        reveal_strlit("http://127.0.0.1:");
    }
    let n = base_url.unicode_len();
    if str_starts_with(base_url, "https://127.0.0.1:") {
        let mut out = "https://localhost:".to_string();
        out.append(base_url.substring_char(18, n));
        return out;
    }
    if str_starts_with(base_url, "http://127.0.0.1:") {
        let mut out = "http://localhost:".to_string();
        out.append(base_url.substring_char(17, n));
        return out;
    }
    base_url.to_string()
}

} // verus!
