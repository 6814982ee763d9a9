//! Lifecycle of a language-server subprocess session: how it is launched and
//! the handshake that must complete before it serves calls.
use vstd::prelude::*;
use vstd::string::*;
use crate::handshake::{ClientMetadata, StartedPorts};

verus! {

/// Upstream endpoint for accounts under the cloud terms of service.
pub const CLOUD_CODE_PROD: &'static str = "https://cloudcode-pa.googleapis.com";
/// Upstream endpoint for the other accounts.
pub const CLOUD_CODE_DAILY: &'static str = "https://daily-cloudcode-pa.googleapis.com";
/// Prefix of a session's per-account working directory.
pub const APP_DATA_DIR_PREFIX: &'static str = "antigravity-cockpit-tools-wakeup-ls";
/// How long the subprocess has to announce its ports, in milliseconds.
pub const HANDSHAKE_TIMEOUT_MS: u64 = 15000;
/// How long shutdown waits for the subprocess to exit, in milliseconds.
pub const SHUTDOWN_WAIT_MS: u64 = 2000;

/// Upstream endpoint chosen by the account's terms-of-service flag.
pub fn cloud_code_endpoint(is_gcp_tos: Option<bool>) -> (r: &'static str)
    ensures
        r@ == (if is_gcp_tos == Some(true) { CLOUD_CODE_PROD@ } else { CLOUD_CODE_DAILY@ }),
{
    if is_gcp_tos == Some(true) {
        CLOUD_CODE_PROD
    } else {
        CLOUD_CODE_DAILY
    }
}

/// The per-account working directory: the prefix, a dash, and the first
/// eight characters of the account id.
pub open spec fn app_data_dir_spec(account_id: Seq<char>) -> Seq<char> {
    APP_DATA_DIR_PREFIX@ + "-"@ + account_id.subrange(0, if account_id.len() < 8 { account_id.len() as int } else { 8 })
}

pub fn app_data_dir_for(account_id: &str) -> (r: String)
    ensures
        r@ == app_data_dir_spec(account_id@),
{
    let n = account_id.unicode_len();
    let k: usize = if n < 8 { n } else { 8 };
    let mut out = APP_DATA_DIR_PREFIX.to_string();
    out.append("-");
    out.append(account_id.substring_char(0, k));
    out
}

/// Phase of a session's subprocess.
#[derive(Clone, Copy, Debug, PartialEq, Eq, Structural)]
pub enum SessionPhase {
    /// The subprocess is being launched.
    Spawning,
    /// Launched; waiting until `deadline_ms` for its port announcement.
    AwaitingCallback { deadline_ms: u64 },
    /// Announced; calls go to its TLS port.
    Ready { ports: StartedPorts },
    /// Being torn down.
    ShuttingDown,
}

/// What happened to a session.
#[derive(Clone, Copy, Debug, PartialEq, Eq, Structural)]
pub enum SessionEvent {
    /// The subprocess was launched at `now_ms` and its metadata written.
    Spawned { now_ms: u64 },
    /// The companion server received the port announcement at `now_ms`.
    Announced { ports: StartedPorts, now_ms: u64 },
    /// The clock reached `now_ms` with no announcement.
    Tick { now_ms: u64 },
    /// The announcement channel closed without delivering.
    ChannelClosed,
    /// The session is being deleted.
    Shutdown,
}

/// What the owner of the session must do.
#[derive(Clone, Copy, Debug, PartialEq, Eq, Structural)]
pub enum SessionAction {
    /// Nothing yet.
    Wait,
    /// The session is usable.
    Serve,
    /// Kill the subprocess and fail the start.
    KillAndFail,
    /// Close the held stream, stop the servers and log tasks, terminate the
    /// subprocess and wait for it.
    TearDown,
}

/// The handshake as a state machine.
pub open spec fn session_step_spec(phase: SessionPhase, event: SessionEvent) -> (SessionPhase, SessionAction) {
    match event {
        SessionEvent::Shutdown => (SessionPhase::ShuttingDown, SessionAction::TearDown),
        _ => match phase {
            SessionPhase::Spawning => match event {
                SessionEvent::Spawned { now_ms } => if now_ms <= u64::MAX - HANDSHAKE_TIMEOUT_MS {
                    (SessionPhase::AwaitingCallback { deadline_ms: (now_ms + HANDSHAKE_TIMEOUT_MS) as u64 }, SessionAction::Wait)
                } else {
                    (SessionPhase::AwaitingCallback { deadline_ms: u64::MAX }, SessionAction::Wait)
                },
                _ => (phase, SessionAction::Wait),
            },
            SessionPhase::AwaitingCallback { deadline_ms } => match event {
                SessionEvent::Announced { ports, now_ms } => if now_ms <= deadline_ms {
                    (SessionPhase::Ready { ports }, SessionAction::Serve)
                } else {
                    (SessionPhase::ShuttingDown, SessionAction::KillAndFail)
                },
                SessionEvent::Tick { now_ms } => if now_ms > deadline_ms {
                    (SessionPhase::ShuttingDown, SessionAction::KillAndFail)
                } else {
                    (phase, SessionAction::Wait)
                },
                SessionEvent::ChannelClosed => (SessionPhase::ShuttingDown, SessionAction::KillAndFail),
                _ => (phase, SessionAction::Wait),
            },
            _ => (phase, if phase is Ready { SessionAction::Serve } else { SessionAction::Wait }),
        },
    }
}

/// Advances a session's handshake by one event.
pub fn session_step(phase: SessionPhase, event: SessionEvent) -> (r: (SessionPhase, SessionAction))
    ensures
        r == session_step_spec(phase, event),
{
    match event {
        SessionEvent::Shutdown => (SessionPhase::ShuttingDown, SessionAction::TearDown),
        _ => match phase {
            SessionPhase::Spawning => match event {
                SessionEvent::Spawned { now_ms } => {
                    if now_ms <= u64::MAX - HANDSHAKE_TIMEOUT_MS {
                        (SessionPhase::AwaitingCallback { deadline_ms: now_ms + HANDSHAKE_TIMEOUT_MS }, SessionAction::Wait)
                    } else {
                        (SessionPhase::AwaitingCallback { deadline_ms: u64::MAX }, SessionAction::Wait)
                    }
                },
                _ => (phase, SessionAction::Wait),
            },
            SessionPhase::AwaitingCallback { deadline_ms } => match event {
                SessionEvent::Announced { ports, now_ms } => {
                    if now_ms <= deadline_ms {
                        (SessionPhase::Ready { ports }, SessionAction::Serve)
                    } else {
                        (SessionPhase::ShuttingDown, SessionAction::KillAndFail)
                    }
                },
                SessionEvent::Tick { now_ms } => {
                    if now_ms > deadline_ms {
                        (SessionPhase::ShuttingDown, SessionAction::KillAndFail)
                    } else {
                        (phase, SessionAction::Wait)
                    }
                },
                SessionEvent::ChannelClosed => (SessionPhase::ShuttingDown, SessionAction::KillAndFail),
                _ => (phase, SessionAction::Wait),
            },
            SessionPhase::Ready { .. } => (phase, SessionAction::Serve),
            SessionPhase::ShuttingDown => (phase, SessionAction::Wait),
        },
    }
}

/// Relies on uuid's `Uuid::new_v4` and its hyphenated text form: a fresh
/// random id written as 36 characters.
#[verifier::external_body]
fn random_uuid_text() -> (r: String)
    ensures
        r@.len() == 36,
{
    uuid::Uuid::new_v4().to_string()
}

/// Fresh secrets of one session: the CSRF token of its companion server and
/// the one it hands the subprocess.
pub struct SessionSecrets {
    pub companion_csrf: String,
    pub subprocess_csrf: String,
}

pub fn new_session_secrets() -> (r: SessionSecrets)
    ensures
        r.companion_csrf@.len() == 36,
        r.subprocess_csrf@.len() == 36,
{
    SessionSecrets { companion_csrf: random_uuid_text(), subprocess_csrf: random_uuid_text() }
}

/// The metadata a session writes to its subprocess: the vendor client's
/// names, the given version, extension path and locale, and a fresh device
/// fingerprint.
pub fn client_metadata(ide_version: &str, extension_path: &str, locale: &str) -> (r: ClientMetadata)
    ensures
        r.ide_name@ == "Antigravity"@,
        r.ide_version@ == ide_version@,
        r.extension_name@ == "antigravity"@,
        r.extension_path@ == extension_path@,
        r.locale@ == locale@,
        r.device_fingerprint@.len() == 36,
{
    ClientMetadata {
        ide_name: "Antigravity".to_string(),
        ide_version: ide_version.to_string(),
        extension_name: "antigravity".to_string(),
        extension_path: extension_path.to_string(),
        locale: locale.to_string(),
        device_fingerprint: random_uuid_text(),
    }
}

/// Locale from a `LANG`-style value: the part before the first dot, with
/// underscores turned into dashes; `zh-CN` when the value is unset.
pub open spec fn locale_of(lang: Option<Seq<char>>) -> Seq<char> {
    match lang {
        None => "zh-CN"@,
        Some(v) => dashes(v.subrange(0, first_dot(v, 0))),
    }
}

/// First position of a dot at or after `i`, or the length.
pub open spec fn first_dot(v: Seq<char>, i: int) -> int
    decreases v.len() - i,
{
    if i < 0 || i >= v.len() || v[i] == '.' { if i < 0 { 0 } else { i } } else { first_dot(v, i + 1) }
}

pub open spec fn dashes(v: Seq<char>) -> Seq<char> {
    Seq::new(v.len(), |i: int| if v[i] == '_' { '-' } else { v[i] })
}

/// Relies on `String::push`: the character is appended.
#[verifier::external_body]
fn push_char(s: &mut String, c: char)
    ensures
        final(s)@ == old(s)@.push(c),
{
    s.push(c)
}

pub fn locale_from_lang(lang: Option<&str>) -> (r: String)
    ensures
        r@ == locale_of(
            match lang {
                Some(v) => Some(v@),
                None => None,
            },
        ),
{
    match lang {
        None => "zh-CN".to_string(),
        Some(v) => {
            let n = v.unicode_len();
            let mut out = String::new();
            let mut i: usize = 0;
            while i < n && v.get_char(i) != '.'
                invariant
                    n == v@.len(),
                    i <= n,
                    first_dot(v@, i as int) == first_dot(v@, 0),
                    out@ =~= dashes(v@.subrange(0, i as int)),
                decreases n - i,
            {
                let c = v.get_char(i);
                push_char(&mut out, if c == '_' { '-' } else { c });
                i += 1;
            }
            out
        },
    }
}

} // verus!
