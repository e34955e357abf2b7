//! Session handling around launcher requests. An operation that needs the
//! launcher session runs with the stored access token; when the launcher no
//! longer accepts the session, the session is renewed once with the refresh
//! token and the operation is retried once. These decisions are a state
//! machine: the caller performs each action (a secure-store access, a launcher
//! request, running the operation) and hands its result back as the next event.
use vstd::prelude::*;
use crate::error::{fails_with, is_unauthorized, spec_is_unauthorized, EnterpriseError};
use crate::json::{json_bool, json_get, json_view, push_member, Json, JsonView};
use crate::text::{chars_eq, chars_of, trim, trim_chars};

verus! {

/// The tokens of a launcher session.
#[derive(Debug, Clone)]
pub struct SessionTokens {
    pub access_token: String,
    pub refresh_token: String,
}

/// How a guarded operation ended: with its value, or with the session expired
/// (the enterprise state has then been cleared where the flow says so).
#[derive(Debug)]
pub enum SessionOutcome<T> {
    Done(T),
    Expired,
}

/// Where a guarded operation stands.
#[derive(Debug)]
pub enum SessionPhase {
    /// The operation runs with the stored access token.
    FirstAttempt,
    /// The refresh token is being read from the secure store.
    ReadingRefreshToken,
    /// There is no refresh token; the enterprise state is being cleared.
    ClearingWithoutRefreshToken,
    /// The launcher is asked for a new session.
    Refreshing,
    /// The launcher refused the refresh; the enterprise state is being cleared.
    ClearingRejectedRefresh,
    /// The new session is being stored; `access_token` is its access token.
    SavingSession { access_token: String },
    /// The operation runs again with the new access token.
    Retrying,
    /// The retried operation was refused too; the enterprise state is being cleared.
    ClearingAfterRetry,
    /// The flow has ended.
    Finished,
}

/// The result of the last action.
#[derive(Debug)]
pub enum SessionEvent<T> {
    /// The operation ran.
    Completed(Result<T, EnterpriseError>),
    /// The refresh token was read.
    RefreshTokenRead(Result<Option<String>, EnterpriseError>),
    /// The launcher answered the refresh request.
    Refreshed(Result<SessionTokens, EnterpriseError>),
    /// The new session was stored.
    Saved(Result<(), EnterpriseError>),
    /// The enterprise state was cleared.
    Cleared(Result<(), EnterpriseError>),
}

/// What the caller does next.
#[derive(Debug)]
pub enum SessionAction<T> {
    ReadRefreshToken,
    Refresh { refresh_token: String },
    SaveSession { tokens: SessionTokens },
    Retry { access_token: String },
    ClearEnterpriseState,
    Finish(Result<SessionOutcome<T>, EnterpriseError>),
}

/// Which event each phase waits for.
pub open spec fn event_fits<T>(phase: SessionPhase, event: SessionEvent<T>) -> bool {
    match phase {
        SessionPhase::FirstAttempt | SessionPhase::Retrying => event is Completed,
        SessionPhase::ReadingRefreshToken => event is RefreshTokenRead,
        SessionPhase::Refreshing => event is Refreshed,
        SessionPhase::SavingSession { .. } => event is Saved,
        SessionPhase::ClearingWithoutRefreshToken | SessionPhase::ClearingRejectedRefresh
        | SessionPhase::ClearingAfterRetry => event is Cleared,
        SessionPhase::Finished => false,
    }
}

/// The most steps a flow can still take from a phase.
pub open spec fn steps_left(phase: SessionPhase) -> nat {
    match phase {
        SessionPhase::FirstAttempt => 6,
        SessionPhase::ReadingRefreshToken => 5,
        SessionPhase::Refreshing => 4,
        SessionPhase::SavingSession { .. } => 3,
        SessionPhase::Retrying => 2,
        SessionPhase::ClearingWithoutRefreshToken | SessionPhase::ClearingRejectedRefresh
        | SessionPhase::ClearingAfterRetry => 1,
        SessionPhase::Finished => 0,
    }
}

/// How a failure while renewing the session ends the flow: a failure that
/// means the session is no longer accepted reports it expired, any other is
/// reported as it is.
pub open spec fn renew_failure<T>(e: EnterpriseError) -> Result<SessionOutcome<T>, EnterpriseError> {
    if spec_is_unauthorized(e) {
        Ok(SessionOutcome::Expired)
    } else {
        Err(e)
    }
}

/// The outcome of a finished attempt that is not a refused session.
pub open spec fn attempt_outcome<T>(r: Result<T, EnterpriseError>) -> Result<
    SessionOutcome<T>,
    EnterpriseError,
> {
    match r {
        Ok(v) => Ok(SessionOutcome::Done(v)),
        Err(e) => Err(e),
    }
}

/// One step of a guarded operation.
pub open spec fn spec_session_step<T>(
    phase: SessionPhase,
    event: SessionEvent<T>,
    next: SessionPhase,
    action: SessionAction<T>,
) -> bool {
    match (phase, event) {
        (SessionPhase::FirstAttempt, SessionEvent::Completed(r)) => if r matches Err(e)
            && spec_is_unauthorized(e) {
            next is ReadingRefreshToken && action is ReadRefreshToken
        } else {
            next is Finished && action == SessionAction::Finish(attempt_outcome(r))
        },
        (SessionPhase::ReadingRefreshToken, SessionEvent::RefreshTokenRead(r)) => match r {
            Err(e) => next is Finished && action == SessionAction::Finish(renew_failure::<T>(e)),
            Ok(None) => next is ClearingWithoutRefreshToken && action is ClearEnterpriseState,
            Ok(Some(t)) => next is Refreshing && action == SessionAction::<T>::Refresh {
                refresh_token: t,
            },
        },
        (SessionPhase::ClearingWithoutRefreshToken, SessionEvent::Cleared(r)) => next is Finished
            && match r {
            Ok(()) => action == SessionAction::<T>::Finish(Ok(SessionOutcome::Expired)),
            Err(e) => action == SessionAction::Finish(renew_failure::<T>(e)),
        },
        (SessionPhase::Refreshing, SessionEvent::Refreshed(r)) => match r {
            Ok(tokens) => next == (SessionPhase::SavingSession {
                access_token: tokens.access_token,
            }) && action == SessionAction::<T>::SaveSession { tokens },
            Err(e) => if spec_is_unauthorized(e) {
                next is ClearingRejectedRefresh && action is ClearEnterpriseState
            } else {
                next is Finished && action == SessionAction::<T>::Finish(Err(e))
            },
        },
        (SessionPhase::ClearingRejectedRefresh, SessionEvent::Cleared(r)) => next is Finished
            && match r {
            Ok(()) => action == SessionAction::<T>::Finish(Ok(SessionOutcome::Expired)),
            Err(e) => action == SessionAction::Finish(renew_failure::<T>(e)),
        },
        (SessionPhase::SavingSession { access_token }, SessionEvent::Saved(r)) => match r {
            Ok(()) => next is Retrying && action == SessionAction::<T>::Retry { access_token },
            Err(e) => next is Finished && action == SessionAction::Finish(renew_failure::<T>(e)),
        },
        (SessionPhase::Retrying, SessionEvent::Completed(r)) => if r matches Err(e)
            && spec_is_unauthorized(e) {
            next is ClearingAfterRetry && action is ClearEnterpriseState
        } else {
            next is Finished && action == SessionAction::Finish(attempt_outcome(r))
        },
        (SessionPhase::ClearingAfterRetry, SessionEvent::Cleared(r)) => next is Finished
            && match r {
            Ok(()) => action == SessionAction::<T>::Finish(Ok(SessionOutcome::Expired)),
            Err(e) => action == SessionAction::<T>::Finish(Err(e)),
        },
        _ => false,
    }
}

fn renew_failed<T>(e: EnterpriseError) -> (r: Result<SessionOutcome<T>, EnterpriseError>)
    ensures
        r == renew_failure::<T>(e),
{
    if is_unauthorized(&e) {
        Ok(SessionOutcome::Expired)
    } else {
        Err(e)
    }
}

/// Takes one step: the phase that follows and the action to perform. A
/// refused session leads to one renewal and one retry; a refresh refused by
/// the launcher, a missing refresh token or a refused retry clear the
/// enterprise state and report the session expired; every other failure is
/// reported as it is. Each step brings the flow closer to its end.
pub fn session_step<T>(phase: SessionPhase, event: SessionEvent<T>) -> (r: (
    SessionPhase,
    SessionAction<T>,
))
    requires
        event_fits(phase, event),
    ensures
        spec_session_step(phase, event, r.0, r.1),
        steps_left(r.0) < steps_left(phase),
        r.1 is Finish <==> r.0 is Finished,
{
    match phase {
        SessionPhase::FirstAttempt | SessionPhase::Retrying => {
            let first = match phase {
                SessionPhase::FirstAttempt => true,
                _ => false,
            };
            match event {
                SessionEvent::Completed(r) => match r {
                    Ok(v) => (SessionPhase::Finished, SessionAction::Finish(Ok(SessionOutcome::Done(v)))),
                    Err(e) => if is_unauthorized(&e) {
                        if first {
                            (SessionPhase::ReadingRefreshToken, SessionAction::ReadRefreshToken)
                        } else {
                            (SessionPhase::ClearingAfterRetry, SessionAction::ClearEnterpriseState)
                        }
                    } else {
                        (SessionPhase::Finished, SessionAction::Finish(Err(e)))
                    },
                },
                _ => {
                    assert(false);
                    (SessionPhase::Finished, SessionAction::ClearEnterpriseState)
                },
            }
        },
        SessionPhase::ReadingRefreshToken => match event {
            SessionEvent::RefreshTokenRead(r) => match r {
                Err(e) => (SessionPhase::Finished, SessionAction::Finish(renew_failed(e))),
                Ok(None) => (
                    SessionPhase::ClearingWithoutRefreshToken,
                    SessionAction::ClearEnterpriseState,
                ),
                Ok(Some(t)) => (SessionPhase::Refreshing, SessionAction::Refresh { refresh_token: t }),
            },
            _ => {
                assert(false);
                (SessionPhase::Finished, SessionAction::ClearEnterpriseState)
            },
        },
        SessionPhase::Refreshing => match event {
            SessionEvent::Refreshed(r) => match r {
                Ok(tokens) => {
                    let access_token = tokens.access_token.clone();
                    assert(access_token@ == tokens.access_token@);
                    (SessionPhase::SavingSession { access_token }, SessionAction::SaveSession { tokens })
                },
                Err(e) => if is_unauthorized(&e) {
                    (SessionPhase::ClearingRejectedRefresh, SessionAction::ClearEnterpriseState)
                } else {
                    (SessionPhase::Finished, SessionAction::Finish(Err(e)))
                },
            },
            _ => {
                assert(false);
                (SessionPhase::Finished, SessionAction::ClearEnterpriseState)
            },
        },
        SessionPhase::SavingSession { access_token } => match event {
            SessionEvent::Saved(r) => match r {
                Ok(()) => (SessionPhase::Retrying, SessionAction::Retry { access_token }),
                Err(e) => (SessionPhase::Finished, SessionAction::Finish(renew_failed(e))),
            },
            _ => {
                assert(false);
                (SessionPhase::Finished, SessionAction::ClearEnterpriseState)
            },
        },
        SessionPhase::ClearingWithoutRefreshToken | SessionPhase::ClearingRejectedRefresh => {
            match event {
                SessionEvent::Cleared(r) => match r {
                    Ok(()) => (SessionPhase::Finished, SessionAction::Finish(Ok(SessionOutcome::Expired))),
                    Err(e) => (SessionPhase::Finished, SessionAction::Finish(renew_failed(e))),
                },
                _ => {
                    assert(false);
                    (SessionPhase::Finished, SessionAction::ClearEnterpriseState)
                },
            }
        },
        SessionPhase::ClearingAfterRetry => match event {
            SessionEvent::Cleared(r) => match r {
                Ok(()) => (SessionPhase::Finished, SessionAction::Finish(Ok(SessionOutcome::Expired))),
                Err(e) => (SessionPhase::Finished, SessionAction::Finish(Err(e))),
            },
            _ => {
                assert(false);
                (SessionPhase::Finished, SessionAction::ClearEnterpriseState)
            },
        },
        SessionPhase::Finished => {
            assert(false);
            (SessionPhase::Finished, SessionAction::ClearEnterpriseState)
        },
    }
}

/// A guarded operation that completes successfully, on the first attempt or
/// on the retry, ends the flow with its own value.
pub proof fn law_success_is_returned<T>(
    phase: SessionPhase,
    v: T,
    next: SessionPhase,
    action: SessionAction<T>,
)
    requires
        phase is FirstAttempt || phase is Retrying,
        call_ensures(session_step::<T>, (phase, SessionEvent::Completed(Ok(v))), (next, action)),
    ensures
        next is Finished,
        action == SessionAction::<T>::Finish(Ok(SessionOutcome::Done(v))),
{
}

/// The flow ends with a value only when the operation itself completed with
/// that value.
pub proof fn law_done_comes_from_the_operation<T>(
    phase: SessionPhase,
    event: SessionEvent<T>,
    next: SessionPhase,
    action: SessionAction<T>,
    v: T,
)
    requires
        call_ensures(session_step::<T>, (phase, event), (next, action)),
        action == SessionAction::<T>::Finish(Ok(SessionOutcome::Done(v))),
    ensures
        event == SessionEvent::<T>::Completed(Ok(v)),
        phase is FirstAttempt || phase is Retrying,
{
}

/// A completed operation is never answered with an expired session: that is
/// reported only once the enterprise state was cleared, or when reading the
/// refresh token or saving the renewed session failed because the session is
/// no longer accepted.
pub proof fn law_expired_only_after_refusal<T>(
    phase: SessionPhase,
    event: SessionEvent<T>,
    next: SessionPhase,
)
    requires
        call_ensures(
            session_step::<T>,
            (phase, event),
            (next, SessionAction::<T>::Finish(Ok(SessionOutcome::Expired))),
        ),
    ensures
        !(event is Completed),
        event is Cleared || (event matches SessionEvent::RefreshTokenRead(Err(e))
            && spec_is_unauthorized(e)) || (event matches SessionEvent::Saved(Err(e))
            && spec_is_unauthorized(e)),
{
}

/// A failure that does not mean the session was refused ends the flow with
/// that same failure, on the first attempt or on the retry.
pub proof fn law_other_failures_are_reported_as_they_are<T>(
    phase: SessionPhase,
    e: EnterpriseError,
    next: SessionPhase,
    action: SessionAction<T>,
)
    requires
        phase is FirstAttempt || phase is Retrying,
        !spec_is_unauthorized(e),
        call_ensures(session_step::<T>, (phase, SessionEvent::<T>::Completed(Err(e))), (next, action)),
    ensures
        next is Finished,
        action == SessionAction::<T>::Finish(Err(e)),
{
}

/// A refused session is renewed once: a refused first attempt reads the
/// refresh token, the token read is the one refreshed, the renewed access
/// token is saved and then the operation is retried with it; a refused retry
/// is not renewed again but clears the enterprise state.
pub proof fn law_refused_session_is_renewed_once<T>(
    e: EnterpriseError,
    refresh_token: String,
    tokens: SessionTokens,
    first: (SessionPhase, SessionAction<T>),
    read: (SessionPhase, SessionAction<T>),
    refreshed: (SessionPhase, SessionAction<T>),
    saved: (SessionPhase, SessionAction<T>),
    retried: (SessionPhase, SessionAction<T>),
)
    requires
        spec_is_unauthorized(e),
        call_ensures(session_step::<T>, (SessionPhase::FirstAttempt, SessionEvent::<T>::Completed(Err(e))), first),
        call_ensures(session_step::<T>, (first.0, SessionEvent::<T>::RefreshTokenRead(Ok(Some(refresh_token)))), read),
        call_ensures(session_step::<T>, (read.0, SessionEvent::<T>::Refreshed(Ok(tokens))), refreshed),
        call_ensures(session_step::<T>, (refreshed.0, SessionEvent::<T>::Saved(Ok(()))), saved),
        call_ensures(session_step::<T>, (saved.0, SessionEvent::<T>::Completed(Err(e))), retried),
    ensures
        (first.1 is ReadRefreshToken),
        read.1 == (SessionAction::<T>::Refresh { refresh_token }),
        refreshed.1 == (SessionAction::<T>::SaveSession { tokens }),
        (saved.1 matches SessionAction::Retry { access_token } && access_token@
            == tokens.access_token@),
        (retried.1 is ClearEnterpriseState),
        (retried.0 is ClearingAfterRetry),
{
}

/// Secure-store name of the launcher access token.
pub const SESSION_TARGET: &'static str = "CodexPlusPlus/enterprise/session";

/// Secure-store name of the launcher refresh token.
pub const REFRESH_TARGET: &'static str = "CodexPlusPlus/enterprise/refresh";

/// The name under which the launcher access token is stored.
pub open spec fn session_target() -> Seq<char> {
    "CodexPlusPlus/enterprise/session"@
}

/// The fixed states the manager can be told about without an account snapshot.
#[derive(Debug, Clone, Copy, PartialEq, Eq, Structural)]
pub enum ReportKind {
    /// Enterprise Mode is off.
    Disabled,
    /// The official login is active (when restoring at start-up).
    OfficialAtStart,
    /// The official login is active (when reloading).
    OfficialOnReload,
    /// No session is stored.
    Unauthenticated,
    /// The session expired.
    Expired,
    /// The user signed out.
    SignedOut,
    /// The user switched to the official login.
    SwitchedToOfficial,
    /// An account snapshot was loaded.
    Connected,
}

/// The state and message shown for a report.
#[derive(Debug, Clone)]
pub struct SessionReport {
    pub state: String,
    pub message: String,
}

/// The state and message of each report.
pub open spec fn report_text(kind: ReportKind) -> (Seq<char>, Seq<char>) {
    match kind {
        ReportKind::Disabled => ("disabled"@, "Community Mode is active."@),
        ReportKind::OfficialAtStart => ("official"@, "已切换到原账号登录；可使用官方 ChatGPT 账号。"@),
        ReportKind::OfficialOnReload => ("official"@, "Official ChatGPT account login is active."@),
        ReportKind::Unauthenticated => ("unauthenticated"@, "Sign in with your company account."@),
        ReportKind::Expired => ("expired"@, "Your session expired. Please sign in again."@),
        ReportKind::SignedOut => (
            "unauthenticated"@,
            "Signed out and removed this device credential."@,
        ),
        ReportKind::SwitchedToOfficial => (
            "official"@,
            "已切换到原账号登录，并恢复官方 ChatGPT 登录途径。"@,
        ),
        ReportKind::Connected => ("authenticated"@, "Connected to Azalea Plugin for Codex."@),
    }
}

/// The state and message of a report.
pub fn report(kind: ReportKind) -> (r: SessionReport)
    ensures
        (r.state@, r.message@) == report_text(kind),
{
    let (state, message) = match kind {
        ReportKind::Disabled => ("disabled", "Community Mode is active."),
        ReportKind::OfficialAtStart => ("official", "已切换到原账号登录；可使用官方 ChatGPT 账号。"),
        ReportKind::OfficialOnReload => ("official", "Official ChatGPT account login is active."),
        ReportKind::Unauthenticated => ("unauthenticated", "Sign in with your company account."),
        ReportKind::Expired => ("expired", "Your session expired. Please sign in again."),
        ReportKind::SignedOut => ("unauthenticated", "Signed out and removed this device credential."),
        ReportKind::SwitchedToOfficial => ("official", "已切换到原账号登录，并恢复官方 ChatGPT 登录途径。"),
        ReportKind::Connected => ("authenticated", "Connected to Azalea Plugin for Codex."),
    };
    SessionReport { state: state.to_string(), message: message.to_string() }
}

/// How an account action starts.
#[derive(Debug)]
pub enum SessionStart {
    /// Nothing to ask the launcher: report this.
    Report(ReportKind),
    /// Run the operation with the stored access token (the flow of
    /// [`session_step`] from `FirstAttempt`).
    Attempt { access_token: String },
}

/// How a stored access token starts an action: a read failure is reported as
/// it is; without a token the action is `missing`; with one, the operation runs.
pub open spec fn start_with_token(
    read: Result<Option<String>, EnterpriseError>,
    missing: Result<SessionStart, EnterpriseError>,
    r: Result<SessionStart, EnterpriseError>,
) -> bool {
    match read {
        Err(e) => r == Err::<SessionStart, EnterpriseError>(e),
        Ok(None) => r == missing,
        Ok(Some(t)) => r matches Ok(SessionStart::Attempt { access_token }) && access_token@ == t@,
    }
}

/// The stored access token, read through `read_store`, decides the start.
fn start_from_store<F: FnOnce(&str) -> Result<Option<String>, EnterpriseError>>(
    read_store: F,
    missing: Result<SessionStart, EnterpriseError>,
) -> (r: Result<SessionStart, EnterpriseError>)
    requires
        forall|t: &str| t@ == session_target() ==> read_store.requires((t,)),
    ensures
        exists|t: &str, read: Result<Option<String>, EnterpriseError>|
            t@ == session_target() && read_store.ensures((t,), read) && start_with_token(
                read,
                missing,
                r,
            ),
{
    let target = SESSION_TARGET;
    proof {
        reveal_strlit("CodexPlusPlus/enterprise/session");
    }
    assert(target@ == session_target());
    let read = read_store(target);
    let ghost snapshot = read;
    let r = match read {
        Err(e) => Err(e),
        Ok(None) => missing,
        Ok(Some(t)) => Ok(SessionStart::Attempt { access_token: t }),
    };
    assert(start_with_token(snapshot, missing, r));
    r
}

/// How restoring the session at start-up (`official_report` is
/// `OfficialAtStart`) or reloading it (`OfficialOnReload`) starts: a report
/// when Enterprise Mode is off or the official login is active, otherwise the
/// stored access token (read under [`session_target`]) decides.
pub fn restore_start<F: FnOnce(&str) -> Result<Option<String>, EnterpriseError>>(
    mode_enabled: bool,
    login_method: &str,
    official_report: ReportKind,
    read_store: F,
) -> (r: Result<SessionStart, EnterpriseError>)
    requires
        mode_enabled && login_method@ != crate::login::official() ==> forall|t: &str|
            t@ == session_target() ==> read_store.requires((t,)),
    ensures
        !mode_enabled ==> r == Ok::<SessionStart, EnterpriseError>(
            SessionStart::Report(ReportKind::Disabled),
        ),
        mode_enabled && login_method@ == crate::login::official() ==> r == Ok::<
            SessionStart,
            EnterpriseError,
        >(SessionStart::Report(official_report)),
        mode_enabled && login_method@ != crate::login::official() ==> exists|
            t: &str,
            read: Result<Option<String>, EnterpriseError>,
        |
            t@ == session_target() && read_store.ensures((t,), read) && start_with_token(
                read,
                Ok(SessionStart::Report(ReportKind::Unauthenticated)),
                r,
            ),
{
    if !mode_enabled {
        return Ok(SessionStart::Report(ReportKind::Disabled));
    }
    proof {
        reveal_strlit("official");
    }
    if chars_eq(&chars_of(login_method), &chars_of(crate::login::LOGIN_METHOD_OFFICIAL)) {
        return Ok(SessionStart::Report(official_report));
    }
    start_from_store(read_store, Ok(SessionStart::Report(ReportKind::Unauthenticated)))
}

/// How refreshing the account starts: it needs a stored access token.
pub fn refresh_start<F: FnOnce(&str) -> Result<Option<String>, EnterpriseError>>(
    read_store: F,
) -> (r: Result<SessionStart, EnterpriseError>)
    requires
        forall|t: &str| t@ == session_target() ==> read_store.requires((t,)),
    ensures
        exists|t: &str, read: Result<Option<String>, EnterpriseError>|
            t@ == session_target() && read_store.ensures((t,), read) && (match read {
                Ok(None) => fails_with(r, "Authentication required"@),
                _ => start_with_token(read, r, r),
            }),
{
    let missing = Err(EnterpriseError::message("Authentication required"));
    let r = start_from_store(read_store, missing);
    r
}

/// How choosing a default model starts: the trimmed model must not be empty,
/// and a stored access token is needed.
pub fn default_model_start<F: FnOnce(&str) -> Result<Option<String>, EnterpriseError>>(
    model: &str,
    read_store: F,
) -> (r: Result<SessionStart, EnterpriseError>)
    requires
        trim(model@).len() > 0 ==> forall|t: &str| t@ == session_target() ==> read_store.requires((t,)),
    ensures
        trim(model@).len() == 0 ==> fails_with(r, "Default model is required"@),
        trim(model@).len() > 0 ==> exists|t: &str, read: Result<Option<String>, EnterpriseError>|
            t@ == session_target() && read_store.ensures((t,), read) && (match read {
                Ok(None) => fails_with(r, "Authentication required"@),
                _ => start_with_token(read, r, r),
            }),
{
    if trim_chars(&chars_of(model)).len() == 0 {
        return Err(EnterpriseError::message("Default model is required"));
    }
    refresh_start(read_store)
}

/// Signing in needs Enterprise Mode, a non-blank e-mail and a password; the
/// request body is then the one [`crate::login::login_request_body`] builds.
pub fn login_start(mode_enabled: bool, email: &str, password: &str, client_version: &str) -> (r:
    Result<Json, EnterpriseError>)
    ensures
        !mode_enabled ==> fails_with(r, "Enterprise Mode is not enabled"@),
        mode_enabled && (trim(email@).len() == 0 || password@.len() == 0) ==> fails_with(
            r,
            "Email and password are required"@,
        ),
        mode_enabled && !(trim(email@).len() == 0 || password@.len() == 0) ==> (r matches Ok(body)
            && crate::json::json_str(json_get(body, "username"@)) == Some(trim(email@))
            && crate::json::json_str(json_get(body, "password"@)) == Some(password@)
            && crate::json::json_str(json_get(body, "clientVersion"@)) == Some(client_version@)),
{
    if !mode_enabled {
        return Err(EnterpriseError::message("Enterprise Mode is not enabled"));
    }
    crate::login::login_request_body(email, password, client_version)
}

/// Switching back to the company login needs Enterprise Mode.
pub fn company_login_start(mode_enabled: bool) -> (r: Result<(), EnterpriseError>)
    ensures
        mode_enabled ==> r is Ok,
        !mode_enabled ==> fails_with(r, "Enterprise Mode is not enabled"@),
{
    if !mode_enabled {
        return Err(EnterpriseError::message("Enterprise Mode is not enabled"));
    }
    Ok(())
}

/// The error a sign-in reports when provisioning failed: the provisioning
/// error once the enterprise state is cleared, else the clean-up's error.
pub fn failed_provision_error(provision: EnterpriseError, cleared: Result<(), EnterpriseError>) -> (r:
    EnterpriseError)
    ensures
        r == match cleared {
            Ok(()) => provision,
            Err(c) => c,
        },
{
    match cleared {
        Ok(()) => provision,
        Err(c) => c,
    }
}

/// The body of the key request: rotate the key when no credential is stored.
pub fn key_request_body(credential_stored: bool) -> (r: Json)
    ensures
        json_view(r) == JsonView::Object(seq![("rotate"@, JsonView::Bool(!credential_stored))]),
{
    let mut m: Vec<(String, Json)> = Vec::new();
    push_member(&mut m, "rotate", Json::Bool(!credential_stored));
    assert(crate::json::member_views(m@) =~= seq![("rotate"@, JsonView::Bool(!credential_stored))]);
    Json::Object(m)
}

/// The key the launcher issued, when it issued a non-blank one (it is then stored).
pub fn issued_key(virtual_key: Option<String>) -> (r: Option<String>)
    ensures
        match virtual_key {
            Some(k) => if trim(k@).len() > 0 {
                r == Some(k)
            } else {
                r is None
            },
            None => r is None,
        },
{
    match virtual_key {
        Some(k) => if trim_chars(&chars_of(k.as_str())).len() > 0 {
            Some(k)
        } else {
            None
        },
        None => None,
    }
}

/// The stored inference credential, which provisioning needs.
pub fn provision_credential(read: Result<Option<String>, EnterpriseError>) -> (r: Result<
    String,
    EnterpriseError,
>)
    ensures
        match read {
            Ok(Some(c)) => r == Ok::<String, EnterpriseError>(c),
            Ok(None) => fails_with(
                r,
                "Enterprise credential is unavailable; sign in again to recover it"@,
            ),
            Err(e) => r == Err::<String, EnterpriseError>(e),
        },
{
    match read {
        Ok(Some(c)) => Ok(c),
        Ok(None) => Err(
            EnterpriseError::message(
                "Enterprise credential is unavailable; sign in again to recover it",
            ),
        ),
        Err(e) => Err(e),
    }
}

/// The stored inference credential, which changing the default model needs.
pub fn model_change_credential(read: Result<Option<String>, EnterpriseError>) -> (r: Result<
    String,
    EnterpriseError,
>)
    ensures
        match read {
            Ok(Some(c)) => r == Ok::<String, EnterpriseError>(c),
            Ok(None) => fails_with(
                r,
                "Enterprise credential is unavailable; refresh the account first"@,
            ),
            Err(e) => r == Err::<String, EnterpriseError>(e),
        },
{
    match read {
        Ok(Some(c)) => Ok(c),
        Ok(None) => Err(
            EnterpriseError::message(
                "Enterprise credential is unavailable; refresh the account first",
            ),
        ),
        Err(e) => Err(e),
    }
}

} // verus!
