//! Batch verification bookkeeping: classifying each account's outcome,
//! running totals, the latest-status table and the capped batch history.
use vstd::prelude::*;
use vstd::string::*;
use crate::text::{lower_char, str_eq, str_starts_with, starts_with, trim, trim_spec};

verus! {

/// Prefix of an error message that carries a structured failure payload.
pub const ERROR_PAYLOAD_PREFIX: &'static str = "AG_WAKEUP_ERROR_JSON:";
/// Most batches kept in the history.
pub const MAX_HISTORY_BATCHES: usize = 100;

/// Latest known status of an account.
#[derive(Clone, Copy, Debug, PartialEq, Eq, Structural)]
pub enum VerificationStatus {
    Idle,
    Success,
    VerificationRequired,
    AuthExpired,
    Failed,
}

impl VerificationStatus {
    /// The tag stored and shown for the status.
    pub fn as_tag(&self) -> (r: &'static str)
        ensures
            r@ == status_tag(*self),
    {
        match self {
            VerificationStatus::Idle => "idle",
            VerificationStatus::Success => "success",
            VerificationStatus::VerificationRequired => "verification_required",
            VerificationStatus::AuthExpired => "auth_expired",
            VerificationStatus::Failed => "failed",
        }
    }
}

pub open spec fn status_tag(s: VerificationStatus) -> Seq<char> {
    match s {
        VerificationStatus::Idle => "idle"@,
        VerificationStatus::Success => "success"@,
        VerificationStatus::VerificationRequired => "verification_required"@,
        VerificationStatus::AuthExpired => "auth_expired"@,
        VerificationStatus::Failed => "failed"@,
    }
}

/// Structured failure carried after the payload prefix of an error message.
#[derive(Clone, Debug)]
pub struct UiErrorPayload {
    pub kind: Option<String>,
    pub message: Option<String>,
    pub error_code: Option<i64>,
    pub validation_url: Option<String>,
    pub trajectory_id: Option<String>,
}

/// The JSON text after the payload prefix, trimmed, when there is any.
pub open spec fn payload_text_of(raw: Seq<char>) -> Option<Seq<char>> {
    let p = ERROR_PAYLOAD_PREFIX@;
    if starts_with(raw, p) && trim_spec(raw.subrange(p.len() as int, raw.len() as int)).len() > 0 {
        Some(trim_spec(raw.subrange(p.len() as int, raw.len() as int)))
    } else {
        None
    }
}

/// Reads the structured payload text of an error message; the caller parses
/// it into a `UiErrorPayload`.
pub fn error_payload_text(raw: &str) -> (r: Option<String>)
    ensures
        match r {
            Some(t) => payload_text_of(raw@) == Some(t@),
            None => payload_text_of(raw@) is None,
        },
{
    if !str_starts_with(raw, ERROR_PAYLOAD_PREFIX) {
        return None;
    }
    let p = ERROR_PAYLOAD_PREFIX.unicode_len();
    let rest = raw.substring_char(p, raw.unicode_len());
    let t = trim(rest);
    if t.unicode_len() > 0 {
        Some(t)
    } else {
        None
    }
}

/// Whether `needle` (lower case) occurs in `s` at `i`, ignoring ASCII case.
pub open spec fn occurs_ignore_case_at(s: Seq<char>, needle: Seq<char>, i: int) -> bool {
    0 <= i && i + needle.len() <= s.len() && forall|t: int|
        0 <= t < needle.len() ==> lower_char(#[trigger] s[i + t]) == needle[t]
}

/// Whether `needle` (lower case) occurs anywhere in `s`, ignoring ASCII case.
pub open spec fn contains_ignore_case(s: Seq<char>, needle: Seq<char>) -> bool {
    exists|i: int| occurs_ignore_case_at(s, needle, i)
}

fn contains_ignore_case_exec(s: &str, needle: &str) -> (r: bool)
    ensures
        r == contains_ignore_case(s@, needle@),
{
    let n = s.unicode_len();
    let k = needle.unicode_len();
    if k > n {
        return false;
    }
    let mut i: usize = 0;
    while i <= n - k
        invariant
            n == s@.len(),
            k == needle@.len(),
            k <= n,
            i <= n - k + 1,
            forall|j: int| 0 <= j < i ==> !occurs_ignore_case_at(s@, needle@, j),
        decreases n - k + 1 - i,
    {
        let mut t: usize = 0;
        let mut same = true;
        while t < k
            invariant
                n == s@.len(),
                k == needle@.len(),
                i + k <= n,
                t <= k,
                same ==> forall|u: int| 0 <= u < t ==> lower_char(#[trigger] s@[i + u]) == needle@[u],
                !same ==> !occurs_ignore_case_at(s@, needle@, i as int),
            decreases k - t,
        {
            let c = s.get_char(i + t);
            let l = if 'A' <= c && c <= 'Z' { ((c as u8) + 32) as char } else { c };
            if l != needle.get_char(t) {
                same = false;
            }
            t += 1;
        }
        if same {
            proof {
                assert(occurs_ignore_case_at(s@, needle@, i as int));
            }
            return true;
        }
        i += 1;
    }
    proof {
        assert forall|j: int| !occurs_ignore_case_at(s@, needle@, j) by {
            if 0 <= j < i {
            }
        }
    }
    false
}

/// How a failed wakeup is recorded.
#[derive(Clone, Debug)]
pub struct FailureClass {
    pub status: VerificationStatus,
    pub error_code: Option<i64>,
    pub validation_url: Option<String>,
    pub trajectory_id: Option<String>,
    pub message: String,
}

pub open spec fn opt_chars(o: Option<String>) -> Option<Seq<char>> {
    match o {
        Some(s) => Some(s@),
        None => None,
    }
}

/// The classification of a failure message, given its parsed payload if it
/// carried one: a payload of kind `verification_required` or code 403 needs
/// verification, any other payload failed; without one, words of an expired
/// credential mean the credential expired (401), `403` means verification is
/// required, anything else failed.
pub open spec fn classify_failure_spec(raw: Seq<char>, payload: Option<UiErrorPayload>) -> (
    VerificationStatus,
    Option<i64>,
    Option<Seq<char>>,
    Option<Seq<char>>,
    Seq<char>,
) {
    match payload {
        Some(p) => (
            if opt_chars(p.kind) == Some("verification_required"@) || p.error_code == Some(403i64) {
                VerificationStatus::VerificationRequired
            } else {
                VerificationStatus::Failed
            },
            p.error_code,
            opt_chars(p.validation_url),
            opt_chars(p.trajectory_id),
            match p.message {
                Some(m) => m@,
                None => raw,
            },
        ),
        None => if contains_ignore_case(raw, "authorization expired"@) || contains_ignore_case(
            raw,
            "unauthorized"@,
        ) || contains_ignore_case(raw, "unauthenticated"@) {
            (VerificationStatus::AuthExpired, Some(401i64), None, None, raw)
        } else if contains_ignore_case(raw, "403"@) {
            (VerificationStatus::VerificationRequired, Some(403i64), None, None, raw)
        } else {
            (VerificationStatus::Failed, None, None, None, raw)
        },
    }
}

pub open spec fn class_view(c: FailureClass) -> (
    VerificationStatus,
    Option<i64>,
    Option<Seq<char>>,
    Option<Seq<char>>,
    Seq<char>,
) {
    (c.status, c.error_code, opt_chars(c.validation_url), opt_chars(c.trajectory_id), c.message@)
}

/// Classifies a failed wakeup from its message and parsed payload.
pub fn classify_failure(raw: &str, payload: Option<&UiErrorPayload>) -> (r: FailureClass)
    ensures
        class_view(r) == classify_failure_spec(
            raw@,
            match payload {
                Some(p) => Some(*p),
                None => None,
            },
        ),
{
    match payload {
        Some(p) => {
            let kind_match = match &p.kind {
                Some(k) => str_eq(k.as_str(), "verification_required"),
                None => false,
            };
            let status = if kind_match || p.error_code == Some(403i64) {
                VerificationStatus::VerificationRequired
            } else {
                VerificationStatus::Failed
            };
            let message = match &p.message {
                Some(m) => m.clone(),
                None => raw.to_string(),
            };
            FailureClass {
                status,
                error_code: p.error_code,
                validation_url: p.validation_url.clone(),
                trajectory_id: p.trajectory_id.clone(),
                message,
            }
        },
        None => {
            if contains_ignore_case_exec(raw, "authorization expired") || contains_ignore_case_exec(
                raw,
                "unauthorized",
            ) || contains_ignore_case_exec(raw, "unauthenticated") {
                FailureClass {
                    status: VerificationStatus::AuthExpired,
                    error_code: Some(401),
                    validation_url: None,
                    trajectory_id: None,
                    message: raw.to_string(),
                }
            } else if contains_ignore_case_exec(raw, "403") {
                FailureClass {
                    status: VerificationStatus::VerificationRequired,
                    error_code: Some(403),
                    validation_url: None,
                    trajectory_id: None,
                    message: raw.to_string(),
                }
            } else {
                FailureClass {
                    status: VerificationStatus::Failed,
                    error_code: None,
                    validation_url: None,
                    trajectory_id: None,
                    message: raw.to_string(),
                }
            }
        },
    }
}

/// Latest known status of one account.
#[derive(Clone, Debug)]
pub struct WakeupVerificationStateItem {
    pub account_id: String,
    pub account_email: String,
    pub status: VerificationStatus,
    pub last_verify_at: Option<i64>,
    pub last_model: Option<String>,
    pub last_error_code: Option<i64>,
    pub last_message: Option<String>,
    pub validation_url: Option<String>,
    pub trajectory_id: Option<String>,
    pub duration_ms: Option<u64>,
}

/// Running totals of a batch.
#[derive(Clone, Copy, Debug, PartialEq, Eq, Structural)]
pub struct BatchTally {
    pub total: usize,
    pub completed: usize,
    pub success_count: usize,
    pub verification_required_count: usize,
    pub auth_expired_count: usize,
    pub failed_count: usize,
}

/// Totals of a batch of `total` accounts after the given outcomes.
pub open spec fn tally_of(total: usize, outcomes: Seq<VerificationStatus>) -> BatchTally
    decreases outcomes.len(),
{
    if outcomes.len() == 0 {
        BatchTally {
            total,
            completed: 0,
            success_count: 0,
            verification_required_count: 0,
            auth_expired_count: 0,
            failed_count: 0,
        }
    } else {
        let t = tally_of(total, outcomes.drop_last());
        let s = outcomes.last();
        BatchTally {
            total,
            completed: (t.completed + 1) as usize,
            success_count: if s == VerificationStatus::Success {
                (t.success_count + 1) as usize
            } else {
                t.success_count
            },
            verification_required_count: if s == VerificationStatus::VerificationRequired {
                (t.verification_required_count + 1) as usize
            } else {
                t.verification_required_count
            },
            auth_expired_count: if s == VerificationStatus::AuthExpired {
                (t.auth_expired_count + 1) as usize
            } else {
                t.auth_expired_count
            },
            failed_count: if s == VerificationStatus::Failed || s == VerificationStatus::Idle {
                (t.failed_count + 1) as usize
            } else {
                t.failed_count
            },
        }
    }
}

impl BatchTally {
    /// Totals of a batch of `total` accounts before any has completed.
    pub fn new(total: usize) -> (r: Self)
        ensures
            r == tally_of(total, Seq::empty()),
            tally_bounded(r),
    {
        BatchTally {
            total,
            completed: 0,
            success_count: 0,
            verification_required_count: 0,
            auth_expired_count: 0,
            failed_count: 0,
        }
    }

    /// Counts one completed account.
    pub fn record(&mut self, status: VerificationStatus)
        requires
            old(self).completed < usize::MAX,
            tally_bounded(*old(self)),
        ensures
            tally_bounded(*final(self)),
            *final(self) == (BatchTally {
                total: old(self).total,
                completed: (old(self).completed + 1) as usize,
                success_count: if status == VerificationStatus::Success {
                    (old(self).success_count + 1) as usize
                } else {
                    old(self).success_count
                },
                verification_required_count: if status == VerificationStatus::VerificationRequired {
                    (old(self).verification_required_count + 1) as usize
                } else {
                    old(self).verification_required_count
                },
                auth_expired_count: if status == VerificationStatus::AuthExpired {
                    (old(self).auth_expired_count + 1) as usize
                } else {
                    old(self).auth_expired_count
                },
                failed_count: if status == VerificationStatus::Failed || status
                    == VerificationStatus::Idle {
                    (old(self).failed_count + 1) as usize
                } else {
                    old(self).failed_count
                },
            }),
    {
        self.completed = self.completed + 1;
        match status {
            VerificationStatus::Success => {
                self.success_count = self.success_count + 1;
            },
            VerificationStatus::VerificationRequired => {
                self.verification_required_count = self.verification_required_count + 1;
            },
            VerificationStatus::AuthExpired => {
                self.auth_expired_count = self.auth_expired_count + 1;
            },
            _ => {
                self.failed_count = self.failed_count + 1;
            },
        }
    }

    /// Whether accounts are still running.
    pub fn running(&self) -> (r: bool)
        ensures
            r == (self.completed < self.total),
    {
        self.completed < self.total
    }
}

/// Each count is bounded by the number of completed accounts.
pub open spec fn tally_bounded(t: BatchTally) -> bool {
    t.success_count + t.verification_required_count + t.auth_expired_count + t.failed_count
        == t.completed
}

/// Counting a batch outcome by outcome gives the totals of `tally_of`, whose
/// four counts always add up to the number completed.
pub proof fn lemma_tally_sums(total: usize, outcomes: Seq<VerificationStatus>)
    requires
        outcomes.len() <= usize::MAX,
    ensures
        tally_bounded(tally_of(total, outcomes)),
        tally_of(total, outcomes).completed == outcomes.len(),
    decreases outcomes.len(),
{
    if outcomes.len() > 0 {
        lemma_tally_sums(total, outcomes.drop_last());
    }
}

/// Immutable record of one batch run.
#[derive(Clone, Debug)]
pub struct WakeupVerificationBatchHistoryItem {
    pub batch_id: String,
    /// Completion time, in milliseconds since the epoch.
    pub verified_at: i64,
    pub model: String,
    pub prompt: String,
    pub totals: BatchTally,
    /// Outcomes, ordered by account email.
    pub records: Vec<WakeupVerificationStateItem>,
}

/// Newest first.
pub open spec fn history_sorted(s: Seq<WakeupVerificationBatchHistoryItem>) -> bool {
    forall|i: int, j: int| 0 <= i < j < s.len() ==> (#[trigger] s[i]).verified_at >= (
    #[trigger] s[j]).verified_at
}

/// Where a record completed at `t` goes in a newest-first history: after every
/// record completed at `t` or later.
pub open spec fn history_insert_pos(s: Seq<WakeupVerificationBatchHistoryItem>, t: i64, i: int) -> int
    decreases s.len() - i,
{
    if i < 0 || i >= s.len() {
        s.len() as int
    } else if s[i].verified_at < t {
        i
    } else {
        history_insert_pos(s, t, i + 1)
    }
}

/// The records of `s` whose batch id is not `id`, in order.
pub open spec fn without_batch(s: Seq<WakeupVerificationBatchHistoryItem>, id: Seq<char>) -> Seq<WakeupVerificationBatchHistoryItem>
    decreases s.len(),
{
    if s.len() == 0 {
        s
    } else {
        let w = without_batch(s.drop_last(), id);
        if s.last().batch_id@ == id { w } else { w.push(s.last()) }
    }
}

/// The history after appending `b`: any record with its id replaced, `b`
/// placed by completion time, and only the newest hundred kept.
pub open spec fn append_history_spec(s: Seq<WakeupVerificationBatchHistoryItem>, b: WakeupVerificationBatchHistoryItem) -> Seq<WakeupVerificationBatchHistoryItem> {
    let w = without_batch(s, b.batch_id@);
    let m = w.insert(history_insert_pos(w, b.verified_at, 0), b);
    if m.len() > MAX_HISTORY_BATCHES { m.subrange(0, MAX_HISTORY_BATCHES as int) } else { m }
}

/// A history sorted newest first, stably.
pub open spec fn sort_history_spec(s: Seq<WakeupVerificationBatchHistoryItem>) -> Seq<WakeupVerificationBatchHistoryItem>
    decreases s.len(),
{
    if s.len() == 0 {
        s
    } else {
        let w = sort_history_spec(s.drop_last());
        w.insert(history_insert_pos(w, s.last().verified_at, 0), s.last())
    }
}

proof fn lemma_history_insert_pos(s: Seq<WakeupVerificationBatchHistoryItem>, t: i64, i: int)
    requires
        0 <= i <= s.len(),
    ensures
        i <= history_insert_pos(s, t, i) <= s.len(),
        forall|k: int| i <= k < history_insert_pos(s, t, i) ==> (#[trigger] s[k]).verified_at >= t,
        history_insert_pos(s, t, i) < s.len() ==> s[history_insert_pos(s, t, i)].verified_at < t,
    decreases s.len() - i,
{
    if i < s.len() && s[i].verified_at >= t {
        lemma_history_insert_pos(s, t, i + 1);
    }
}

proof fn lemma_insert_keeps_sorted(s: Seq<WakeupVerificationBatchHistoryItem>, b: WakeupVerificationBatchHistoryItem)
    requires
        history_sorted(s),
    ensures
        history_sorted(s.insert(history_insert_pos(s, b.verified_at, 0), b)),
        s.insert(history_insert_pos(s, b.verified_at, 0), b).len() == s.len() + 1,
{
    lemma_history_insert_pos(s, b.verified_at, 0);
    let p = history_insert_pos(s, b.verified_at, 0);
    let m = s.insert(p, b);
    assert forall|i: int, j: int| 0 <= i < j < m.len() implies (#[trigger] m[i]).verified_at >= (
    #[trigger] m[j]).verified_at by {
        if j < p {
            assert(m[i] == s[i] && m[j] == s[j]);
        } else if j == p {
            assert(m[i] == s[i]);
        } else if i == p {
            assert(m[j] == s[j - 1]);
            if p < s.len() {
                assert(s[p].verified_at < b.verified_at);
                if j - 1 > p {
                    assert(s[p].verified_at >= s[j - 1].verified_at);
                }
            }
        } else if i < p {
            assert(m[i] == s[i] && m[j] == s[j - 1]);
        } else {
            assert(m[i] == s[i - 1] && m[j] == s[j - 1]);
        }
    }
}

proof fn lemma_without_keeps_sorted(s: Seq<WakeupVerificationBatchHistoryItem>, id: Seq<char>)
    requires
        history_sorted(s),
    ensures
        history_sorted(without_batch(s, id)),
        without_batch(s, id).len() <= s.len(),
        forall|k: int| 0 <= k < without_batch(s, id).len() ==> exists|j: int| 0 <= j < s.len() && #[trigger] without_batch(s, id)[k] == s[j],
        s.len() > 0 ==> forall|k: int| 0 <= k < without_batch(s, id).len() ==> (#[trigger] without_batch(s, id)[k]).verified_at >= s.last().verified_at,
    decreases s.len(),
{
    if s.len() > 0 {
        let d = s.drop_last();
        assert(history_sorted(d));
        lemma_without_keeps_sorted(d, id);
        let w = without_batch(d, id);
        assert forall|k: int| 0 <= k < w.len() implies (#[trigger] w[k]).verified_at >= s.last().verified_at by {
            let j = choose|j: int| 0 <= j < d.len() && w[k] == d[j];
            assert(s[j] == d[j]);
        }
        if s.last().batch_id@ != id {
            let m = w.push(s.last());
            assert forall|k: int| 0 <= k < m.len() implies exists|j: int| 0 <= j < s.len() && #[trigger] m[k] == s[j] by {
                if k < w.len() {
                    let j = choose|j: int| 0 <= j < d.len() && w[k] == d[j];
                    assert(m[k] == s[j]);
                } else {
                    assert(m[k] == s[s.len() - 1]);
                }
            }
        } else {
            assert forall|k: int| 0 <= k < w.len() implies exists|j: int| 0 <= j < s.len() && #[trigger] w[k] == s[j] by {
                let j = choose|j: int| 0 <= j < d.len() && w[k] == d[j];
                assert(w[k] == s[j]);
            }
        }
    }
}

/// Appending a batch keeps the history newest first and at most a hundred
/// long; when a hundred are exceeded it is the oldest that go.
pub proof fn lemma_history_capped_and_sorted(s: Seq<WakeupVerificationBatchHistoryItem>, b: WakeupVerificationBatchHistoryItem)
    requires
        history_sorted(s),
    ensures
        history_sorted(append_history_spec(s, b)),
        append_history_spec(s, b).len() <= MAX_HISTORY_BATCHES,
        ({
            let w = without_batch(s, b.batch_id@);
            let m = w.insert(history_insert_pos(w, b.verified_at, 0), b);
            &&& append_history_spec(s, b) == m.subrange(0, append_history_spec(s, b).len() as int)
            &&& forall|i: int, j: int|
                0 <= i < append_history_spec(s, b).len() <= j < m.len() ==> (#[trigger] m[i]).verified_at
                    >= (#[trigger] m[j]).verified_at
        }),
{
    lemma_without_keeps_sorted(s, b.batch_id@);
    let w = without_batch(s, b.batch_id@);
    lemma_insert_keeps_sorted(w, b);
    let m = w.insert(history_insert_pos(w, b.verified_at, 0), b);
    let r = append_history_spec(s, b);
    assert(r =~= m.subrange(0, r.len() as int));
}

/// Sorting yields a newest-first history.
pub proof fn lemma_sort_history_sorted(s: Seq<WakeupVerificationBatchHistoryItem>)
    ensures
        history_sorted(sort_history_spec(s)),
        sort_history_spec(s).len() == s.len(),
    decreases s.len(),
{
    if s.len() > 0 {
        lemma_sort_history_sorted(s.drop_last());
        lemma_insert_keeps_sorted(sort_history_spec(s.drop_last()), s.last());
    }
}

fn find_history_pos(h: &Vec<WakeupVerificationBatchHistoryItem>, t: i64) -> (r: usize)
    ensures
        r as int == history_insert_pos(h@, t, 0),
        r <= h@.len(),
{
    proof {
        lemma_history_insert_pos(h@, t, 0);
    }
    let mut i: usize = 0;
    while i < h.len()
        invariant
            i <= h@.len(),
            history_insert_pos(h@, t, i as int) == history_insert_pos(h@, t, 0),
        decreases h@.len() - i,
    {
        if h[i].verified_at < t {
            return i;
        }
        i += 1;
    }
    i
}

/// Appends a finished batch to a history: a record with the same batch id is
/// replaced, the history stays ordered by completion time, newest first, and
/// only the newest hundred are kept.
pub fn append_history_batch(history: &mut Vec<WakeupVerificationBatchHistoryItem>, batch: WakeupVerificationBatchHistoryItem)
    ensures
        final(history)@ == append_history_spec(old(history)@, batch),
{
    let ghost s = history@;
    let mut i: usize = 0;
    let ghost mut j: int = 0;
    while i < history.len()
        invariant
            0 <= j <= s.len(),
            i as int == without_batch(s.subrange(0, j), batch.batch_id@).len(),
            history@ == without_batch(s.subrange(0, j), batch.batch_id@) + s.subrange(j, s.len() as int),
        decreases s.len() - j,
    {
        proof {
            assert(s.subrange(0, j + 1).drop_last() =~= s.subrange(0, j));
            assert(history@[i as int] == s[j]);
        }
        if str_eq(history[i].batch_id.as_str(), batch.batch_id.as_str()) {
            let ghost before = history@;
            history.remove(i);
            proof {
                assert(history@ =~= without_batch(s.subrange(0, j + 1), batch.batch_id@) + s.subrange(
                    j + 1,
                    s.len() as int,
                ));
                j = j + 1;
            }
        } else {
            proof {
                assert(history@ =~= without_batch(s.subrange(0, j + 1), batch.batch_id@) + s.subrange(
                    j + 1,
                    s.len() as int,
                ));
                j = j + 1;
            }
            i += 1;
        }
    }
    proof {
        assert(s.subrange(0, j) =~= s);
        assert(history@ =~= without_batch(s, batch.batch_id@));
    }
    let pos = find_history_pos(history, batch.verified_at);
    history.insert(pos, batch);
    if history.len() > MAX_HISTORY_BATCHES {
        history.truncate(MAX_HISTORY_BATCHES);
    }
}

/// Sorts a history newest first, keeping the order of records completed at
/// the same time.
pub fn sort_history(history: Vec<WakeupVerificationBatchHistoryItem>) -> (r: Vec<WakeupVerificationBatchHistoryItem>)
    ensures
        r@ == sort_history_spec(history@),
{
    let ghost s = history@;
    let mut rest = history;
    let mut taken: Vec<WakeupVerificationBatchHistoryItem> = Vec::new();
    while rest.len() > 0
        invariant
            rest@ + taken@.reverse() == s,
        decreases rest@.len(),
    {
        let x = rest.pop().unwrap();
        taken.push(x);
        proof {
            assert(rest@ + taken@.reverse() =~= s);
        }
    }
    let mut out: Vec<WakeupVerificationBatchHistoryItem> = Vec::new();
    let ghost mut done: int = 0;
    while taken.len() > 0
        invariant
            taken@.len() + done == s.len(),
            taken@.reverse() == s.subrange(done, s.len() as int),
            out@ == sort_history_spec(s.subrange(0, done)),
            0 <= done <= s.len(),
        decreases taken@.len(),
    {
        let ghost before = taken@;
        let x = taken.pop().unwrap();
        proof {
            assert(taken@ == before.drop_last());
            assert(before.reverse()[0] == x);
            assert(taken@.reverse() =~= before.reverse().drop_first());
            assert(s.subrange(done, s.len() as int)[0] == x);
            assert(s.subrange(0, done + 1).drop_last() =~= s.subrange(0, done));
            assert(s.subrange(0, done + 1).last() == x);
            assert(taken@.reverse() =~= s.subrange(done + 1, s.len() as int));
        }
        let pos = find_history_pos(&out, x.verified_at);
        out.insert(pos, x);
        proof {
            done = done + 1;
        }
    }
    proof {
        assert(s.subrange(0, done) =~= s);
    }
    out
}

/// Lexicographic order on text, from position `i`.
pub open spec fn text_lt_from(a: Seq<char>, b: Seq<char>, i: int) -> bool
    decreases b.len() - i,
{
    if i < 0 || i >= b.len() {
        false
    } else if i >= a.len() {
        true
    } else if a[i] != b[i] {
        a[i] < b[i]
    } else {
        text_lt_from(a, b, i + 1)
    }
}

/// `a` sorts strictly before `b`, as `str` ordering has it.
pub open spec fn text_lt(a: Seq<char>, b: Seq<char>) -> bool {
    text_lt_from(a, b, 0)
}

proof fn lemma_text_lt_order(a: Seq<char>, b: Seq<char>, c: Seq<char>, i: int)
    requires
        0 <= i,
    ensures
        text_lt_from(a, b, i) ==> !text_lt_from(b, a, i),
        text_lt_from(a, b, i) && text_lt_from(b, c, i) ==> text_lt_from(a, c, i),
    decreases b.len() - i,
{
    if i < b.len() && i < a.len() && a[i] == b[i] {
        lemma_text_lt_order(a, b, c, i + 1);
    }
    if i < b.len() && i < a.len() && i < c.len() && a[i] == b[i] && b[i] == c[i] {
        lemma_text_lt_order(a, b, c, i + 1);
    }
}

fn text_lt_exec(a: &str, b: &str) -> (r: bool)
    ensures
        r == text_lt(a@, b@),
{
    let n = a.unicode_len();
    let m = b.unicode_len();
    let mut i: usize = 0;
    while i < m
        invariant
            n == a@.len(),
            m == b@.len(),
            i <= m,
            i <= n,
            text_lt_from(a@, b@, i as int) == text_lt_from(a@, b@, 0),
        decreases m - i,
    {
        if i >= n {
            return true;
        }
        let x = a.get_char(i);
        let y = b.get_char(i);
        if x != y {
            return x < y;
        }
        i += 1;
    }
    false
}

/// Time of an item, absent times counting as zero.
pub open spec fn item_time(x: WakeupVerificationStateItem) -> i64 {
    match x.last_verify_at {
        Some(t) => t,
        None => 0,
    }
}

/// `x` is listed before `y`: verified later, or at the same time with a
/// smaller email.
pub open spec fn item_before(x: WakeupVerificationStateItem, y: WakeupVerificationStateItem) -> bool {
    item_time(x) > item_time(y) || (item_time(x) == item_time(y) && text_lt(
        x.account_email@,
        y.account_email@,
    ))
}

proof fn lemma_item_before_order(x: WakeupVerificationStateItem, y: WakeupVerificationStateItem, z: WakeupVerificationStateItem)
    ensures
        item_before(x, y) ==> !item_before(y, x),
        item_before(x, y) && item_before(y, z) ==> item_before(x, z),
{
    lemma_text_lt_order(x.account_email@, y.account_email@, z.account_email@, 0);
}

pub open spec fn items_sorted(s: Seq<WakeupVerificationStateItem>) -> bool {
    forall|i: int, j: int| 0 <= i < j < s.len() ==> !item_before(#[trigger] s[j], #[trigger] s[i])
}

/// Where `x` goes: before the first item that it sorts strictly before.
pub open spec fn item_insert_pos(s: Seq<WakeupVerificationStateItem>, x: WakeupVerificationStateItem, i: int) -> int
    decreases s.len() - i,
{
    if i < 0 || i >= s.len() {
        s.len() as int
    } else if item_before(x, s[i]) {
        i
    } else {
        item_insert_pos(s, x, i + 1)
    }
}

proof fn lemma_item_insert_pos(s: Seq<WakeupVerificationStateItem>, x: WakeupVerificationStateItem, i: int)
    requires
        0 <= i <= s.len(),
    ensures
        i <= item_insert_pos(s, x, i) <= s.len(),
        forall|k: int| i <= k < item_insert_pos(s, x, i) ==> !item_before(x, #[trigger] s[k]),
        item_insert_pos(s, x, i) < s.len() ==> item_before(x, s[item_insert_pos(s, x, i)]),
    decreases s.len() - i,
{
    if i < s.len() && !item_before(x, s[i]) {
        lemma_item_insert_pos(s, x, i + 1);
    }
}

proof fn lemma_item_insert_sorted(s: Seq<WakeupVerificationStateItem>, x: WakeupVerificationStateItem)
    requires
        items_sorted(s),
    ensures
        items_sorted(s.insert(item_insert_pos(s, x, 0), x)),
{
    lemma_item_insert_pos(s, x, 0);
    let p = item_insert_pos(s, x, 0);
    let m = s.insert(p, x);
    assert forall|i: int, j: int| 0 <= i < j < m.len() implies !item_before(#[trigger] m[j], #[trigger] m[i]) by {
        if j < p {
            assert(m[i] == s[i] && m[j] == s[j]);
        } else if j == p {
            assert(m[i] == s[i]);
        } else if i == p {
            assert(m[j] == s[j - 1]);
            assert(item_before(x, s[p]));
            lemma_item_before_order(s[j - 1], x, s[p]);
            if j - 1 > p {
                assert(!item_before(s[j - 1], s[p]));
            } else {
                lemma_item_before_order(x, s[p], x);
            }
        } else if i < p {
            assert(m[i] == s[i] && m[j] == s[j - 1]);
        } else {
            assert(m[i] == s[i - 1] && m[j] == s[j - 1]);
        }
    }
}

/// Items of `s` for other accounts than `id`, in order.
pub open spec fn without_account(s: Seq<WakeupVerificationStateItem>, id: Seq<char>) -> Seq<WakeupVerificationStateItem>
    decreases s.len(),
{
    if s.len() == 0 {
        s
    } else {
        let w = without_account(s.drop_last(), id);
        if s.last().account_id@ == id { w } else { w.push(s.last()) }
    }
}

/// The latest-status table after recording `x`: the account's previous item
/// replaced by `x`, placed in display order.
pub open spec fn upsert_spec(s: Seq<WakeupVerificationStateItem>, x: WakeupVerificationStateItem) -> Seq<WakeupVerificationStateItem> {
    let w = without_account(s, x.account_id@);
    w.insert(item_insert_pos(w, x, 0), x)
}

fn find_item_pos(s: &Vec<WakeupVerificationStateItem>, x: &WakeupVerificationStateItem) -> (r: usize)
    ensures
        r as int == item_insert_pos(s@, *x, 0),
        r <= s@.len(),
{
    proof {
        lemma_item_insert_pos(s@, *x, 0);
    }
    let tx: i64 = match x.last_verify_at {
        Some(t) => t,
        None => 0,
    };
    let mut i: usize = 0;
    while i < s.len()
        invariant
            i <= s@.len(),
            tx == item_time(*x),
            item_insert_pos(s@, *x, i as int) == item_insert_pos(s@, *x, 0),
        decreases s@.len() - i,
    {
        let ti: i64 = match s[i].last_verify_at {
            Some(t) => t,
            None => 0,
        };
        if tx > ti || (tx == ti && text_lt_exec(x.account_email.as_str(), s[i].account_email.as_str())) {
            return i;
        }
        i += 1;
    }
    i
}

/// Records an account's latest status in the table, replacing its earlier
/// item and keeping display order (latest first, then by email).
pub fn upsert_state_item(items: &mut Vec<WakeupVerificationStateItem>, item: WakeupVerificationStateItem)
    ensures
        final(items)@ == upsert_spec(old(items)@, item),
{
    let ghost s = items@;
    let mut i: usize = 0;
    let ghost mut j: int = 0;
    while i < items.len()
        invariant
            0 <= j <= s.len(),
            i as int == without_account(s.subrange(0, j), item.account_id@).len(),
            items@ == without_account(s.subrange(0, j), item.account_id@) + s.subrange(j, s.len() as int),
        decreases s.len() - j,
    {
        proof {
            assert(s.subrange(0, j + 1).drop_last() =~= s.subrange(0, j));
            assert(items@[i as int] == s[j]);
        }
        if str_eq(items[i].account_id.as_str(), item.account_id.as_str()) {
            items.remove(i);
            proof {
                assert(items@ =~= without_account(s.subrange(0, j + 1), item.account_id@) + s.subrange(
                    j + 1,
                    s.len() as int,
                ));
                j = j + 1;
            }
        } else {
            proof {
                assert(items@ =~= without_account(s.subrange(0, j + 1), item.account_id@) + s.subrange(
                    j + 1,
                    s.len() as int,
                ));
                j = j + 1;
            }
            i += 1;
        }
    }
    proof {
        assert(s.subrange(0, j) =~= s);
        assert(items@ =~= without_account(s, item.account_id@));
    }
    let pos = find_item_pos(items, &item);
    items.insert(pos, item);
}

/// Display order of a whole table, built by inserting items one by one.
pub open spec fn sort_items_spec(s: Seq<WakeupVerificationStateItem>) -> Seq<WakeupVerificationStateItem>
    decreases s.len(),
{
    if s.len() == 0 {
        s
    } else {
        let w = sort_items_spec(s.drop_last());
        w.insert(item_insert_pos(w, s.last(), 0), s.last())
    }
}

/// Sorting a table yields display order.
pub proof fn lemma_sort_items_sorted(s: Seq<WakeupVerificationStateItem>)
    ensures
        items_sorted(sort_items_spec(s)),
    decreases s.len(),
{
    if s.len() > 0 {
        lemma_sort_items_sorted(s.drop_last());
        lemma_item_insert_sorted(sort_items_spec(s.drop_last()), s.last());
    }
}

/// Puts a table in display order: latest verification first, then by email.
pub fn sort_state_items(items: Vec<WakeupVerificationStateItem>) -> (r: Vec<WakeupVerificationStateItem>)
    ensures
        r@ == sort_items_spec(items@),
{
    let ghost s = items@;
    let mut rest = items;
    let mut taken: Vec<WakeupVerificationStateItem> = Vec::new();
    while rest.len() > 0
        invariant
            rest@ + taken@.reverse() == s,
        decreases rest@.len(),
    {
        let x = rest.pop().unwrap();
        taken.push(x);
        proof {
            assert(rest@ + taken@.reverse() =~= s);
        }
    }
    let mut out: Vec<WakeupVerificationStateItem> = Vec::new();
    let ghost mut done: int = 0;
    while taken.len() > 0
        invariant
            taken@.len() + done == s.len(),
            taken@.reverse() == s.subrange(done, s.len() as int),
            out@ == sort_items_spec(s.subrange(0, done)),
            0 <= done <= s.len(),
        decreases taken@.len(),
    {
        let ghost before = taken@;
        let x = taken.pop().unwrap();
        proof {
            assert(taken@ == before.drop_last());
            assert(before.reverse()[0] == x);
            assert(taken@.reverse() =~= before.reverse().drop_first());
            assert(s.subrange(done, s.len() as int)[0] == x);
            assert(s.subrange(0, done + 1).drop_last() =~= s.subrange(0, done));
            assert(s.subrange(0, done + 1).last() == x);
        }
        let pos = find_item_pos(&out, &x);
        out.insert(pos, x);
        proof {
            done = done + 1;
        }
    }
    proof {
        assert(s.subrange(0, done) =~= s);
    }
    out
}

/// Account ids of a batch request: trimmed, blanks dropped, each kept once
/// in the order of its first occurrence.
pub open spec fn dedupe_spec(s: Seq<Seq<char>>) -> Seq<Seq<char>>
    decreases s.len(),
{
    if s.len() == 0 {
        Seq::empty()
    } else {
        let d = dedupe_spec(s.drop_last());
        let t = trim_spec(s.last());
        if t.len() == 0 || d.contains(t) { d } else { d.push(t) }
    }
}

pub open spec fn strings_view(v: Seq<String>) -> Seq<Seq<char>> {
    v.map_values(|s: String| s@)
}

fn contains_text(v: &Vec<String>, t: &str) -> (r: bool)
    ensures
        r == strings_view(v@).contains(t@),
{
    let mut i: usize = 0;
    while i < v.len()
        invariant
            i <= v@.len(),
            forall|k: int| 0 <= k < i ==> v@[k]@ != t@,
        decreases v@.len() - i,
    {
        if str_eq(v[i].as_str(), t) {
            proof {
                assert(strings_view(v@)[i as int] == t@);
            }
            return true;
        }
        i += 1;
    }
    proof {
        if strings_view(v@).contains(t@) {
            let k = choose|k: int| 0 <= k < strings_view(v@).len() && strings_view(v@)[k] == t@;
            assert(v@[k]@ == t@);
        }
    }
    false
}

/// Normalises the account ids of a batch request.
pub fn dedupe_account_ids(ids: &Vec<String>) -> (r: Vec<String>)
    ensures
        strings_view(r@) == dedupe_spec(strings_view(ids@)),
{
    let mut out: Vec<String> = Vec::new();
    let mut i: usize = 0;
    while i < ids.len()
        invariant
            i <= ids@.len(),
            strings_view(out@) == dedupe_spec(strings_view(ids@.subrange(0, i as int))),
        decreases ids@.len() - i,
    {
        let t = trim(ids[i].as_str());
        proof {
            assert(strings_view(ids@.subrange(0, i + 1)).drop_last() =~= strings_view(
                ids@.subrange(0, i as int),
            ));
            assert(strings_view(ids@.subrange(0, i + 1)).last() == ids@[i as int]@);
        }
        if t.unicode_len() > 0 && !contains_text(&out, t.as_str()) {
            let ghost before = out@;
            out.push(t);
            proof {
                assert(strings_view(out@) =~= strings_view(before).push(t@));
            }
        }
        i += 1;
    }
    proof {
        assert(ids@.subrange(0, i as int) =~= ids@);
    }
    out
}

/// A known account: id and email.
#[derive(Clone, Debug)]
pub struct AccountRef {
    pub id: String,
    pub email: String,
}

/// The email of the first account with id `id`.
pub open spec fn email_of(accounts: Seq<AccountRef>, id: Seq<char>) -> Option<Seq<char>>
    decreases accounts.len(),
{
    if accounts.len() == 0 {
        None
    } else if accounts[0].id@ == id {
        Some(accounts[0].email@)
    } else {
        email_of(accounts.drop_first(), id)
    }
}

/// The requested accounts that exist, in request order, with their emails.
pub open spec fn select_spec(ids: Seq<Seq<char>>, accounts: Seq<AccountRef>) -> Seq<(Seq<char>, Seq<char>)>
    decreases ids.len(),
{
    if ids.len() == 0 {
        Seq::empty()
    } else {
        let d = select_spec(ids.drop_last(), accounts);
        match email_of(accounts, ids.last()) {
            Some(e) => d.push((ids.last(), e)),
            None => d,
        }
    }
}

pub open spec fn refs_view(v: Seq<AccountRef>) -> Seq<(Seq<char>, Seq<char>)> {
    v.map_values(|a: AccountRef| (a.id@, a.email@))
}

fn email_lookup(accounts: &Vec<AccountRef>, id: &str) -> (r: Option<String>)
    ensures
        match r {
            Some(e) => email_of(accounts@, id@) == Some(e@),
            None => email_of(accounts@, id@) is None,
        },
{
    let mut i: usize = 0;
    proof {
        assert(accounts@.subrange(0, accounts@.len() as int) =~= accounts@);
    }
    while i < accounts.len()
        invariant
            i <= accounts@.len(),
            email_of(accounts@.subrange(i as int, accounts@.len() as int), id@) == email_of(accounts@, id@),
        decreases accounts@.len() - i,
    {
        proof {
            assert(accounts@.subrange(i as int, accounts@.len() as int).drop_first() =~= accounts@.subrange(
                i + 1,
                accounts@.len() as int,
            ));
        }
        if str_eq(accounts[i].id.as_str(), id) {
            return Some(accounts[i].email.clone());
        }
        i += 1;
    }
    proof {
        assert(accounts@.subrange(i as int, accounts@.len() as int) =~= Seq::<AccountRef>::empty());
    }
    None
}

/// Picks the requested accounts that exist, with their emails.
pub fn select_accounts(ids: &Vec<String>, accounts: &Vec<AccountRef>) -> (r: Vec<AccountRef>)
    ensures
        refs_view(r@) == select_spec(strings_view(ids@), accounts@),
{
    let mut out: Vec<AccountRef> = Vec::new();
    let mut i: usize = 0;
    while i < ids.len()
        invariant
            i <= ids@.len(),
            refs_view(out@) == select_spec(strings_view(ids@.subrange(0, i as int)), accounts@),
        decreases ids@.len() - i,
    {
        proof {
            assert(strings_view(ids@.subrange(0, i + 1)).drop_last() =~= strings_view(
                ids@.subrange(0, i as int),
            ));
            assert(strings_view(ids@.subrange(0, i + 1)).last() == ids@[i as int]@);
        }
        if let Some(email) = email_lookup(accounts, ids[i].as_str()) {
            let ghost before = out@;
            out.push(AccountRef { id: ids[i].clone(), email });
            proof {
                assert(refs_view(out@) =~= refs_view(before).push((ids@[i as int]@, email@)));
            }
        }
        i += 1;
    }
    proof {
        assert(ids@.subrange(0, i as int) =~= ids@);
    }
    out
}

/// Where `x` goes among records ordered by email: after every record whose
/// email does not sort after it.
pub open spec fn email_insert_pos(s: Seq<WakeupVerificationStateItem>, x: WakeupVerificationStateItem, i: int) -> int
    decreases s.len() - i,
{
    if i < 0 || i >= s.len() {
        s.len() as int
    } else if text_lt(x.account_email@, s[i].account_email@) {
        i
    } else {
        email_insert_pos(s, x, i + 1)
    }
}

/// Records ordered by email, stably.
pub open spec fn sort_by_email_spec(s: Seq<WakeupVerificationStateItem>) -> Seq<WakeupVerificationStateItem>
    decreases s.len(),
{
    if s.len() == 0 {
        s
    } else {
        let w = sort_by_email_spec(s.drop_last());
        w.insert(email_insert_pos(w, s.last(), 0), s.last())
    }
}

fn find_email_pos(s: &Vec<WakeupVerificationStateItem>, x: &WakeupVerificationStateItem) -> (r: usize)
    ensures
        r as int == email_insert_pos(s@, *x, 0),
        r <= s@.len(),
{
    let mut i: usize = 0;
    while i < s.len()
        invariant
            i <= s@.len(),
            email_insert_pos(s@, *x, i as int) == email_insert_pos(s@, *x, 0),
        decreases s@.len() - i,
    {
        if text_lt_exec(x.account_email.as_str(), s[i].account_email.as_str()) {
            return i;
        }
        i += 1;
    }
    i
}

/// Orders a batch's records by account email.
pub fn sort_records_by_email(records: Vec<WakeupVerificationStateItem>) -> (r: Vec<WakeupVerificationStateItem>)
    ensures
        r@ == sort_by_email_spec(records@),
{
    let ghost s = records@;
    let mut rest = records;
    let mut taken: Vec<WakeupVerificationStateItem> = Vec::new();
    while rest.len() > 0
        invariant
            rest@ + taken@.reverse() == s,
        decreases rest@.len(),
    {
        let x = rest.pop().unwrap();
        taken.push(x);
        proof {
            assert(rest@ + taken@.reverse() =~= s);
        }
    }
    let mut out: Vec<WakeupVerificationStateItem> = Vec::new();
    let ghost mut done: int = 0;
    while taken.len() > 0
        invariant
            taken@.len() + done == s.len(),
            taken@.reverse() == s.subrange(done, s.len() as int),
            out@ == sort_by_email_spec(s.subrange(0, done)),
            0 <= done <= s.len(),
        decreases taken@.len(),
    {
        let ghost before = taken@;
        let x = taken.pop().unwrap();
        proof {
            assert(taken@ == before.drop_last());
            assert(before.reverse()[0] == x);
            assert(taken@.reverse() =~= before.reverse().drop_first());
            assert(s.subrange(done, s.len() as int)[0] == x);
            assert(s.subrange(0, done + 1).drop_last() =~= s.subrange(0, done));
            assert(s.subrange(0, done + 1).last() == x);
        }
        let pos = find_email_pos(&out, &x);
        out.insert(pos, x);
        proof {
            done = done + 1;
        }
    }
    proof {
        assert(s.subrange(0, done) =~= s);
    }
    out
}

/// The item recorded for a successful wakeup.
pub fn success_item(
    account: &AccountRef,
    model: &str,
    now_ms: i64,
    reply: String,
    duration_ms: u64,
) -> (r: WakeupVerificationStateItem)
    ensures
        r.account_id@ == account.id@,
        r.account_email@ == account.email@,
        r.status == VerificationStatus::Success,
        r.last_verify_at == Some(now_ms),
        opt_chars(r.last_model) == Some(model@),
        r.last_error_code is None,
        opt_chars(r.last_message) == Some(reply@),
        r.validation_url is None,
        r.trajectory_id is None,
        r.duration_ms == Some(duration_ms),
{
    WakeupVerificationStateItem {
        account_id: account.id.clone(),
        account_email: account.email.clone(),
        status: VerificationStatus::Success,
        last_verify_at: Some(now_ms),
        last_model: Some(model.to_string()),
        last_error_code: None,
        last_message: Some(reply),
        validation_url: None,
        trajectory_id: None,
        duration_ms: Some(duration_ms),
    }
}

/// The item recorded for a failed wakeup.
pub fn failure_item(
    account: &AccountRef,
    model: &str,
    now_ms: i64,
    class: FailureClass,
    duration_ms: u64,
) -> (r: WakeupVerificationStateItem)
    ensures
        r.account_id@ == account.id@,
        r.account_email@ == account.email@,
        r.status == class.status,
        r.last_verify_at == Some(now_ms),
        opt_chars(r.last_model) == Some(model@),
        r.last_error_code == class.error_code,
        opt_chars(r.last_message) == Some(class.message@),
        r.validation_url == class.validation_url,
        r.trajectory_id == class.trajectory_id,
        r.duration_ms == Some(duration_ms),
{
    WakeupVerificationStateItem {
        account_id: account.id.clone(),
        account_email: account.email.clone(),
        status: class.status,
        last_verify_at: Some(now_ms),
        last_model: Some(model.to_string()),
        last_error_code: class.error_code,
        last_message: Some(class.message),
        validation_url: class.validation_url,
        trajectory_id: class.trajectory_id,
        duration_ms: Some(duration_ms),
    }
}

fn copy_opt_string(o: &Option<String>) -> (r: Option<String>)
    ensures
        r == *o,
{
    match o {
        Some(s) => Some(s.clone()),
        None => None,
    }
}

/// A field-by-field copy of an item.
pub fn copy_item(x: &WakeupVerificationStateItem) -> (r: WakeupVerificationStateItem)
    ensures
        r == *x,
{
    WakeupVerificationStateItem {
        account_id: x.account_id.clone(),
        account_email: x.account_email.clone(),
        status: x.status,
        last_verify_at: x.last_verify_at,
        last_model: copy_opt_string(&x.last_model),
        last_error_code: x.last_error_code,
        last_message: copy_opt_string(&x.last_message),
        validation_url: copy_opt_string(&x.validation_url),
        trajectory_id: copy_opt_string(&x.trajectory_id),
        duration_ms: x.duration_ms,
    }
}

/// Progress reported after each completed account, and once at the end.
#[derive(Clone, Debug)]
pub struct WakeupVerificationProgressPayload {
    pub batch_id: String,
    pub totals: BatchTally,
    pub running: bool,
    pub item: Option<WakeupVerificationStateItem>,
}

/// A batch in progress: its totals and the records collected so far, in
/// completion order.
pub struct WakeupVerificationBatchRun {
    pub batch_id: String,
    pub model: String,
    pub prompt: String,
    pub totals: BatchTally,
    pub records: Vec<WakeupVerificationStateItem>,
}

impl WakeupVerificationBatchRun {
    pub open spec fn wf(&self) -> bool {
        tally_bounded(self.totals) && self.totals.completed == self.records@.len()
    }

    /// Starts a batch over `total` accounts.
    pub fn new(batch_id: String, model: String, prompt: String, total: usize) -> (r: Self)
        ensures
            r.wf(),
            r.totals == tally_of(total, Seq::empty()),
            r.records@.len() == 0,
            r.batch_id == batch_id,
    {
        WakeupVerificationBatchRun { batch_id, model, prompt, totals: BatchTally::new(total), records: Vec::new() }
    }

    /// Takes one completed account: counts it, records it in the
    /// latest-status table and in the batch, and reports progress.
    pub fn complete(&mut self, item: WakeupVerificationStateItem, table: &mut Vec<WakeupVerificationStateItem>) -> (r: WakeupVerificationProgressPayload)
        requires
            old(self).wf(),
            old(self).records@.len() < usize::MAX,
        ensures
            final(self).wf(),
            final(self).records@ == old(self).records@.push(item),
            final(self).totals.completed == old(self).totals.completed + 1,
            final(self).totals.total == old(self).totals.total,
            final(self).totals.success_count == old(self).totals.success_count + (if item.status
                == VerificationStatus::Success { 1int } else { 0int }),
            final(self).totals.verification_required_count == old(self).totals.verification_required_count
                + (if item.status == VerificationStatus::VerificationRequired { 1int } else { 0int }),
            final(self).totals.auth_expired_count == old(self).totals.auth_expired_count + (if item.status
                == VerificationStatus::AuthExpired { 1int } else { 0int }),
            final(self).totals.failed_count == old(self).totals.failed_count + (if item.status
                == VerificationStatus::Failed || item.status == VerificationStatus::Idle { 1int } else { 0int }),
            final(table)@ == upsert_spec(old(table)@, item),
            r.totals == final(self).totals,
            r.running == (final(self).totals.completed < final(self).totals.total),
            r.item == Some(item),
            r.batch_id == final(self).batch_id,
            final(self).batch_id == old(self).batch_id,
            final(self).model == old(self).model,
            final(self).prompt == old(self).prompt,
    {
        self.totals.record(item.status);
        upsert_state_item(table, copy_item(&item));
        self.records.push(copy_item(&item));
        WakeupVerificationProgressPayload {
            batch_id: self.batch_id.clone(),
            totals: self.totals,
            running: self.totals.running(),
            item: Some(item),
        }
    }
}

/// The email string of the first account with id `id`.
pub open spec fn email_string_of(accounts: Seq<AccountRef>, id: Seq<char>) -> Option<String>
    decreases accounts.len(),
{
    if accounts.len() == 0 {
        None
    } else if accounts[0].id@ == id {
        Some(accounts[0].email)
    } else {
        email_string_of(accounts.drop_first(), id)
    }
}

fn email_string_lookup(accounts: &Vec<AccountRef>, id: &str) -> (r: Option<String>)
    ensures
        r == email_string_of(accounts@, id@),
{
    let mut i: usize = 0;
    proof {
        assert(accounts@.subrange(0, accounts@.len() as int) =~= accounts@);
    }
    while i < accounts.len()
        invariant
            i <= accounts@.len(),
            email_string_of(accounts@.subrange(i as int, accounts@.len() as int), id@)
                == email_string_of(accounts@, id@),
        decreases accounts@.len() - i,
    {
        proof {
            assert(accounts@.subrange(i as int, accounts@.len() as int).drop_first() =~= accounts@.subrange(
                i + 1,
                accounts@.len() as int,
            ));
        }
        if str_eq(accounts[i].id.as_str(), id) {
            return Some(accounts[i].email.clone());
        }
        i += 1;
    }
    proof {
        assert(accounts@.subrange(i as int, accounts@.len() as int) =~= Seq::<AccountRef>::empty());
    }
    None
}

/// An item with its email refreshed from the account list, when the account
/// is still known.
pub open spec fn refreshed(x: WakeupVerificationStateItem, accounts: Seq<AccountRef>) -> WakeupVerificationStateItem {
    match email_string_of(accounts, x.account_id@) {
        Some(e) => WakeupVerificationStateItem { account_email: e, ..x },
        None => x,
    }
}

fn refresh_items(items: Vec<WakeupVerificationStateItem>, accounts: &Vec<AccountRef>) -> (r: Vec<
    WakeupVerificationStateItem,
>)
    ensures
        r@.len() == items@.len(),
        forall|k: int| 0 <= k < r@.len() ==> r@[k] == refreshed(#[trigger] items@[k], accounts@),
{
    let ghost s = items@;
    let mut rest = items;
    let mut out: Vec<WakeupVerificationStateItem> = Vec::new();
    while rest.len() > 0
        invariant
            out@.len() + rest@.len() == s.len(),
            rest@ == s.subrange(out@.len() as int, s.len() as int),
            forall|k: int| 0 <= k < out@.len() ==> out@[k] == refreshed(#[trigger] s[k], accounts@),
        decreases rest@.len(),
    {
        let ghost n = out@.len();
        let mut x = rest.remove(0);
        proof {
            assert(x == s[n as int]);
            assert(rest@ =~= s.subrange(n as int + 1, s.len() as int));
        }
        match email_string_lookup(accounts, x.account_id.as_str()) {
            Some(e) => {
                x.account_email = e;
            },
            None => {},
        }
        out.push(x);
    }
    out
}

/// Reads the latest-status table for display: display order.
pub fn load_state(items: Vec<WakeupVerificationStateItem>) -> (r: Vec<WakeupVerificationStateItem>)
    ensures
        r@ == sort_items_spec(items@),
{
    sort_state_items(items)
}

/// Reads the history for display: newest first, each record's emails
/// refreshed from the current account list.
pub fn load_history(history: Vec<WakeupVerificationBatchHistoryItem>, accounts: &Vec<AccountRef>) -> (r: Vec<
    WakeupVerificationBatchHistoryItem,
>)
    ensures
        r@.len() == history@.len(),
        forall|i: int|
            0 <= i < r@.len() ==> {
                let o = #[trigger] sort_history_spec(history@)[i];
                &&& r@[i].batch_id == o.batch_id
                &&& r@[i].verified_at == o.verified_at
                &&& r@[i].model == o.model
                &&& r@[i].prompt == o.prompt
                &&& r@[i].totals == o.totals
                &&& r@[i].records@.len() == o.records@.len()
                &&& forall|k: int|
                    0 <= k < o.records@.len() ==> r@[i].records@[k] == refreshed(
                        #[trigger] o.records@[k],
                        accounts@,
                    )
            },
{
    let sorted = sort_history(history);
    proof {
        lemma_sort_history_sorted(history@);
    }
    let ghost s = sorted@;
    let mut rest = sorted;
    let mut out: Vec<WakeupVerificationBatchHistoryItem> = Vec::new();
    while rest.len() > 0
        invariant
            s == sort_history_spec(history@),
            out@.len() + rest@.len() == s.len(),
            rest@ == s.subrange(out@.len() as int, s.len() as int),
            forall|i: int|
                0 <= i < out@.len() ==> {
                    let o = #[trigger] s[i];
                    &&& out@[i].batch_id == o.batch_id
                    &&& out@[i].verified_at == o.verified_at
                    &&& out@[i].model == o.model
                    &&& out@[i].prompt == o.prompt
                    &&& out@[i].totals == o.totals
                    &&& out@[i].records@.len() == o.records@.len()
                    &&& forall|k: int|
                        0 <= k < o.records@.len() ==> out@[i].records@[k] == refreshed(
                            #[trigger] o.records@[k],
                            accounts@,
                        )
                },
        decreases rest@.len(),
    {
        let ghost n = out@.len();
        let rec = rest.remove(0);
        proof {
            assert(rec == s[n as int]);
            assert(rest@ =~= s.subrange(n as int + 1, s.len() as int));
        }
        let WakeupVerificationBatchHistoryItem { batch_id, verified_at, model, prompt, totals, records } = rec;
        let fresh = refresh_items(records, accounts);
        out.push(WakeupVerificationBatchHistoryItem { batch_id, verified_at, model, prompt, totals, records: fresh });
    }
    out
}

/// Trimmed, non-empty batch ids to delete.
pub open spec fn is_target(targets: Seq<Seq<char>>, id: Seq<char>) -> bool {
    exists|k: int| 0 <= k < targets.len() && trim_spec(targets[k]).len() > 0 && trim_spec(#[trigger] targets[k]) == id
}

/// The records whose batch id is not a target, in order.
pub open spec fn retain_spec(s: Seq<WakeupVerificationBatchHistoryItem>, targets: Seq<Seq<char>>) -> Seq<
    WakeupVerificationBatchHistoryItem,
>
    decreases s.len(),
{
    if s.len() == 0 {
        s
    } else {
        let w = retain_spec(s.drop_last(), targets);
        if is_target(targets, s.last().batch_id@) { w } else { w.push(s.last()) }
    }
}

fn is_target_exec(targets: &Vec<String>, id: &str) -> (r: bool)
    ensures
        r == is_target(strings_view(targets@), id@),
{
    let mut i: usize = 0;
    while i < targets.len()
        invariant
            i <= targets@.len(),
            forall|k: int| 0 <= k < i ==> !(trim_spec(#[trigger] targets@[k]@).len() > 0 && trim_spec(targets@[k]@) == id@),
        decreases targets@.len() - i,
    {
        let t = trim(targets[i].as_str());
        if t.unicode_len() > 0 && str_eq(t.as_str(), id) {
            proof {
                assert(strings_view(targets@)[i as int] == targets@[i as int]@);
            }
            return true;
        }
        i += 1;
    }
    proof {
        if is_target(strings_view(targets@), id@) {
            let k = choose|k: int| 0 <= k < strings_view(targets@).len() && trim_spec(strings_view(targets@)[k]).len() > 0 && trim_spec(#[trigger] strings_view(targets@)[k]) == id@;
            assert(strings_view(targets@)[k] == targets@[k]@);
        }
    }
    false
}

/// Deletes the history records whose batch id is among `batch_ids`
/// (trimmed; blank ids are ignored) and returns how many went.
pub fn delete_history(history: &mut Vec<WakeupVerificationBatchHistoryItem>, batch_ids: &Vec<String>) -> (r: usize)
    ensures
        final(history)@ == retain_spec(old(history)@, strings_view(batch_ids@)),
        r == old(history)@.len() - final(history)@.len(),
{
    let ghost s = history@;
    let ghost t = strings_view(batch_ids@);
    let before_len = history.len();
    let mut i: usize = 0;
    let ghost mut j: int = 0;
    while i < history.len()
        invariant
            0 <= j <= s.len(),
            i as int == retain_spec(s.subrange(0, j), t).len(),
            i <= j,
            before_len == s.len(),
            t == strings_view(batch_ids@),
            history@.len() == i + (s.len() - j),
            history@ == retain_spec(s.subrange(0, j), t) + s.subrange(j, s.len() as int),
        decreases s.len() - j,
    {
        proof {
            assert(s.subrange(0, j + 1).drop_last() =~= s.subrange(0, j));
            assert(history@[i as int] == s[j]);
        }
        let hit = is_target_exec(batch_ids, history[i].batch_id.as_str());
        proof {
            assert(s.subrange(0, j + 1).last() == s[j]);
            assert(hit == is_target(t, s[j].batch_id@));
        }
        if hit {
            history.remove(i);
            proof {
                assert(history@ =~= retain_spec(s.subrange(0, j + 1), t) + s.subrange(j + 1, s.len() as int));
                j = j + 1;
            }
        } else {
            proof {
                assert(history@ =~= retain_spec(s.subrange(0, j + 1), t) + s.subrange(j + 1, s.len() as int));
                j = j + 1;
            }
            i += 1;
        }
    }
    proof {
        assert(s.subrange(0, j) =~= s);
        assert(history@ =~= retain_spec(s, t));
    }
    before_len - history.len()
}

/// The saved item of the first entry for account `id`.
pub open spec fn saved_item(saved: Seq<WakeupVerificationStateItem>, id: Seq<char>) -> Option<WakeupVerificationStateItem>
    decreases saved.len(),
{
    if saved.len() == 0 {
        None
    } else if saved[0].account_id@ == id {
        Some(saved[0])
    } else {
        saved_item(saved.drop_first(), id)
    }
}

/// The item shown for an account: its saved item under its current email,
/// or an idle item when it has never been verified.
pub open spec fn display_item(a: AccountRef, saved: Seq<WakeupVerificationStateItem>) -> WakeupVerificationStateItem {
    match saved_item(saved, a.id@) {
        Some(x) => WakeupVerificationStateItem { account_email: a.email, ..x },
        None => WakeupVerificationStateItem {
            account_id: a.id,
            account_email: a.email,
            status: VerificationStatus::Idle,
            last_verify_at: None,
            last_model: None,
            last_error_code: None,
            last_message: None,
            validation_url: None,
            trajectory_id: None,
            duration_ms: None,
        },
    }
}

fn saved_lookup(saved: &Vec<WakeupVerificationStateItem>, id: &str) -> (r: Option<WakeupVerificationStateItem>)
    ensures
        r == saved_item(saved@, id@),
{
    let mut i: usize = 0;
    proof {
        assert(saved@.subrange(0, saved@.len() as int) =~= saved@);
    }
    while i < saved.len()
        invariant
            i <= saved@.len(),
            saved_item(saved@.subrange(i as int, saved@.len() as int), id@) == saved_item(saved@, id@),
        decreases saved@.len() - i,
    {
        proof {
            assert(saved@.subrange(i as int, saved@.len() as int).drop_first() =~= saved@.subrange(
                i + 1,
                saved@.len() as int,
            ));
        }
        if str_eq(saved[i].account_id.as_str(), id) {
            return Some(copy_item(&saved[i]));
        }
        i += 1;
    }
    proof {
        assert(saved@.subrange(i as int, saved@.len() as int) =~= Seq::<WakeupVerificationStateItem>::empty());
    }
    None
}

/// One item per known account, in display order.
pub fn build_display_state_for_all_accounts(
    accounts: &Vec<AccountRef>,
    saved: &Vec<WakeupVerificationStateItem>,
) -> (r: Vec<WakeupVerificationStateItem>)
    ensures
        r@ == sort_items_spec(accounts@.map_values(|a: AccountRef| display_item(a, saved@))),
{
    let mut items: Vec<WakeupVerificationStateItem> = Vec::new();
    let mut i: usize = 0;
    while i < accounts.len()
        invariant
            i <= accounts@.len(),
            items@ =~= accounts@.subrange(0, i as int).map_values(|a: AccountRef| display_item(a, saved@)),
        decreases accounts@.len() - i,
    {
        let a = &accounts[i];
        let item = match saved_lookup(saved, a.id.as_str()) {
            Some(mut x) => {
                x.account_email = a.email.clone();
                x
            },
            None => WakeupVerificationStateItem {
                account_id: a.id.clone(),
                account_email: a.email.clone(),
                status: VerificationStatus::Idle,
                last_verify_at: None,
                last_model: None,
                last_error_code: None,
                last_message: None,
                validation_url: None,
                trajectory_id: None,
                duration_ms: None,
            },
        };
        items.push(item);
        i += 1;
        proof {
            assert(items@ =~= accounts@.subrange(0, i as int).map_values(|a: AccountRef| display_item(a, saved@)));
        }
    }
    proof {
        assert(accounts@.subrange(0, i as int) =~= accounts@);
    }
    sort_state_items(items)
}

/// Result of a finished batch.
#[derive(Clone, Debug)]
pub struct WakeupVerificationBatchResult {
    pub batch_id: String,
    pub verified_at: i64,
    pub model: String,
    pub prompt: String,
    pub totals: BatchTally,
    /// Outcomes ordered by account email.
    pub records: Vec<WakeupVerificationStateItem>,
}

fn copy_items(v: &Vec<WakeupVerificationStateItem>) -> (r: Vec<WakeupVerificationStateItem>)
    ensures
        r@ == v@,
{
    let mut out: Vec<WakeupVerificationStateItem> = Vec::new();
    let mut i: usize = 0;
    while i < v.len()
        invariant
            i <= v@.len(),
            out@ =~= v@.subrange(0, i as int),
        decreases v@.len() - i,
    {
        out.push(copy_item(&v[i]));
        i += 1;
        proof {
            assert(out@ =~= v@.subrange(0, i as int));
        }
    }
    out
}

impl WakeupVerificationBatchRun {
    /// Ends the batch: records ordered by email, the final progress report
    /// (not running), and the history record to append.
    pub fn finish(self, verified_at: i64) -> (r: (
        WakeupVerificationBatchResult,
        WakeupVerificationProgressPayload,
        WakeupVerificationBatchHistoryItem,
    ))
        ensures
            r.0.records@ == sort_by_email_spec(self.records@),
            r.0.totals == self.totals,
            r.0.batch_id == self.batch_id,
            r.0.model == self.model,
            r.0.prompt == self.prompt,
            r.0.verified_at == verified_at,
            r.1.batch_id == self.batch_id,
            r.1.totals == self.totals,
            !r.1.running,
            r.1.item is None,
            r.2.batch_id == self.batch_id,
            r.2.verified_at == verified_at,
            r.2.model == self.model,
            r.2.prompt == self.prompt,
            r.2.totals == self.totals,
            r.2.records@ == r.0.records@,
    {
        let WakeupVerificationBatchRun { batch_id, model, prompt, totals, records } = self;
        let sorted = sort_records_by_email(records);
        let history = WakeupVerificationBatchHistoryItem {
            batch_id: batch_id.clone(),
            verified_at,
            model: model.clone(),
            prompt: prompt.clone(),
            totals,
            records: copy_items(&sorted),
        };
        let progress = WakeupVerificationProgressPayload {
            batch_id: batch_id.clone(),
            totals,
            running: false,
            item: None,
        };
        (WakeupVerificationBatchResult { batch_id, verified_at, model, prompt, totals, records: sorted }, progress, history)
    }
}

} // verus!
