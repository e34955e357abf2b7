use codex_plus_core::error::{EnterpriseError, EnterpriseRequestError};
use codex_plus_core::json::{Json, JsonInput};
use codex_plus_core::login::{
    diagnostics_report, enterprise_credential, enterprise_mode_enabled, launcher_request_error,
    launcher_url, model_discovery_error, response_payload, summarize_failures, CREDENTIAL_TARGET,
};
use codex_plus_core::managed_config::{
    compose_managed_config, remove_managed_block_text, restore_root_selections,
};
use codex_plus_core::profile::{
    apply_user_models, models_from_list, offered_model, restore_default_model, select_default_model,
    validate_profile,
    EnterprisePreferences, EnterpriseProfile, EnterpriseUser,
};
use codex_plus_core::session::{
    company_login_start, default_model_start, failed_provision_error, issued_key,
    key_request_body, login_start, model_change_credential, provision_credential, refresh_start,
    report, restore_start, session_step, ReportKind, SessionAction, SessionEvent, SessionOutcome,
    SessionPhase, SessionStart, SessionTokens, SESSION_TARGET,
};

fn text(e: &EnterpriseError) -> String {
    e.describe_chain()
}

fn unauthorized() -> EnterpriseError {
    EnterpriseError::Request(EnterpriseRequestError {
        status: 401,
        code: "unauthorized".to_string(),
        retryable: false,
        session_auth: true,
        message: "expired".to_string(),
    })
}

fn tokens() -> SessionTokens {
    SessionTokens { access_token: "access-2".to_string(), refresh_token: "refresh-2".to_string() }
}

fn profile() -> EnterpriseProfile {
    EnterpriseProfile {
        gateway_url: "https://api.ai.rydf-design.com/v1".to_string(),
        provider_id: "company-ai".to_string(),
        default_model: "gpt-5.4-mini".to_string(),
        allowed_models: vec!["gpt-5.4-mini".to_string()],
        wire_api: "responses".to_string(),
        display_name: "Azalea Plugin for Codex".to_string(),
        user_id: None,
        group_id: None,
        group_name: None,
    }
}

fn object(entries: Vec<(&str, Json)>) -> Json {
    Json::Object(entries.into_iter().map(|(k, v)| (k.to_string(), v)).collect())
}

fn string(s: &str) -> Json {
    Json::String(s.to_string())
}

#[test]
fn renewed_session_retries_the_operation_once() {
    let (phase, action) =
        session_step::<u32>(SessionPhase::FirstAttempt, SessionEvent::Completed(Err(unauthorized())));
    assert!(matches!(action, SessionAction::ReadRefreshToken));
    let (phase, action) = session_step::<u32>(
        phase,
        SessionEvent::RefreshTokenRead(Ok(Some("refresh-1".to_string()))),
    );
    assert!(matches!(&action, SessionAction::Refresh { refresh_token } if refresh_token == "refresh-1"));
    let (phase, action) = session_step::<u32>(phase, SessionEvent::Refreshed(Ok(tokens())));
    assert!(matches!(&action, SessionAction::SaveSession { tokens } if tokens.access_token == "access-2"));
    let (phase, action) = session_step::<u32>(phase, SessionEvent::Saved(Ok(())));
    assert!(matches!(&action, SessionAction::Retry { access_token } if access_token == "access-2"));
    let (phase, action) = session_step::<u32>(phase, SessionEvent::Completed(Ok(7)));
    assert!(matches!(phase, SessionPhase::Finished));
    assert!(matches!(action, SessionAction::Finish(Ok(SessionOutcome::Done(7)))));
}

#[test]
fn refused_retry_clears_state_and_expires() {
    let (phase, _) =
        session_step::<u32>(SessionPhase::Retrying, SessionEvent::Completed(Err(unauthorized())));
    assert!(matches!(phase, SessionPhase::ClearingAfterRetry));
    let (phase, action) = session_step::<u32>(phase, SessionEvent::Cleared(Ok(())));
    assert!(matches!(phase, SessionPhase::Finished));
    assert!(matches!(action, SessionAction::Finish(Ok(SessionOutcome::Expired))));
}

#[test]
fn missing_refresh_token_clears_state_and_expires() {
    let (phase, action) =
        session_step::<u32>(SessionPhase::ReadingRefreshToken, SessionEvent::RefreshTokenRead(Ok(None)));
    assert!(matches!(action, SessionAction::ClearEnterpriseState));
    let (_, action) = session_step::<u32>(phase, SessionEvent::Cleared(Ok(())));
    assert!(matches!(action, SessionAction::Finish(Ok(SessionOutcome::Expired))));
}

#[test]
fn rejected_refresh_clears_state_and_expires() {
    let (phase, action) =
        session_step::<u32>(SessionPhase::Refreshing, SessionEvent::Refreshed(Err(unauthorized())));
    assert!(matches!(phase, SessionPhase::ClearingRejectedRefresh));
    assert!(matches!(action, SessionAction::ClearEnterpriseState));
    let failed = EnterpriseError::message("Unable to fully clear enterprise credentials: denied");
    let (_, action) = session_step::<u32>(phase, SessionEvent::Cleared(Err(failed)));
    match action {
        SessionAction::Finish(Err(e)) => {
            assert_eq!(text(&e), "Unable to fully clear enterprise credentials: denied")
        }
        other => panic!("unexpected {other:?}"),
    }
}

#[test]
fn other_failures_are_reported_as_they_are() {
    let forbidden = EnterpriseError::message("request failed (HTTP 403, code group_access_denied)");
    let (phase, action) =
        session_step::<u32>(SessionPhase::FirstAttempt, SessionEvent::Completed(Err(forbidden)));
    assert!(matches!(phase, SessionPhase::Finished));
    match action {
        SessionAction::Finish(Err(e)) => {
            assert_eq!(text(&e), "request failed (HTTP 403, code group_access_denied)")
        }
        other => panic!("unexpected {other:?}"),
    }
    let offline = EnterpriseError::network("Unable to connect to Azalea Plugin for Codex", "dns".to_string());
    let (_, action) = session_step::<u32>(SessionPhase::Refreshing, SessionEvent::Refreshed(Err(offline)));
    assert!(matches!(action, SessionAction::Finish(Err(_))));
    let expired = EnterpriseError::message("Enterprise session expired (HTTP 401); sign in again");
    let (_, action) = session_step::<u32>(
        SessionPhase::SavingSession { access_token: "a".to_string() },
        SessionEvent::Saved(Err(expired)),
    );
    assert!(matches!(action, SessionAction::Finish(Ok(SessionOutcome::Expired))));
}

#[test]
fn every_flow_finishes_within_six_steps() {
    let mut phase = SessionPhase::FirstAttempt;
    let mut steps = 0;
    let mut events: Vec<SessionEvent<u32>> = vec![
        SessionEvent::Completed(Err(unauthorized())),
        SessionEvent::RefreshTokenRead(Ok(Some("r".to_string()))),
        SessionEvent::Refreshed(Ok(tokens())),
        SessionEvent::Saved(Ok(())),
        SessionEvent::Completed(Err(unauthorized())),
        SessionEvent::Cleared(Ok(())),
    ];
    events.reverse();
    while !matches!(phase, SessionPhase::Finished) {
        let (next, _) = session_step(phase, events.pop().unwrap());
        phase = next;
        steps += 1;
    }
    assert_eq!(steps, 6);
}

#[test]
fn restore_reports_without_contacting_the_launcher() {
    let never = |_: &str| -> Result<Option<String>, EnterpriseError> { panic!("not read") };
    assert!(matches!(
        restore_start(false, "company", ReportKind::OfficialAtStart, never),
        Ok(SessionStart::Report(ReportKind::Disabled))
    ));
    assert!(matches!(
        restore_start(true, "official", ReportKind::OfficialOnReload, never),
        Ok(SessionStart::Report(ReportKind::OfficialOnReload))
    ));
    let none = |target: &str| {
        assert_eq!(target, SESSION_TARGET);
        Ok(None)
    };
    assert!(matches!(
        restore_start(true, "company", ReportKind::OfficialAtStart, none),
        Ok(SessionStart::Report(ReportKind::Unauthenticated))
    ));
    let some = |_: &str| Ok(Some("access-1".to_string()));
    assert!(matches!(
        restore_start(true, "company", ReportKind::OfficialAtStart, some),
        Ok(SessionStart::Attempt { access_token }) if access_token == "access-1"
    ));
}

#[test]
fn refresh_and_default_model_need_a_session() {
    let none = |_: &str| Ok(None);
    assert_eq!(text(&refresh_start(none).unwrap_err()), "Authentication required");
    let never = |_: &str| -> Result<Option<String>, EnterpriseError> { panic!("not read") };
    assert_eq!(text(&default_model_start("  ", never).unwrap_err()), "Default model is required");
    let some = |_: &str| Ok(Some("t".to_string()));
    assert!(matches!(default_model_start("gpt-5.5", some), Ok(SessionStart::Attempt { .. })));
}

#[test]
fn login_needs_enterprise_mode_and_credentials() {
    assert_eq!(text(&login_start(false, "a@b", "pw", "1.0").unwrap_err()), "Enterprise Mode is not enabled");
    assert_eq!(text(&login_start(true, "  ", "pw", "1.0").unwrap_err()), "Email and password are required");
    assert_eq!(text(&login_start(true, "a@b", "", "1.0").unwrap_err()), "Email and password are required");
    let body = login_start(true, " a@b ", "pw", "1.0").unwrap();
    assert_eq!(codex_plus_core::json::get_str(&body, "username").unwrap(), "a@b");
    assert_eq!(codex_plus_core::json::get_str(&body, "clientVersion").unwrap(), "1.0");
    assert!(company_login_start(true).is_ok());
    assert!(company_login_start(false).is_err());
}

#[test]
fn reports_carry_state_and_message() {
    let r = report(ReportKind::Expired);
    assert_eq!(r.state, "expired");
    assert_eq!(r.message, "Your session expired. Please sign in again.");
    assert_eq!(report(ReportKind::Connected).message, "Connected to Azalea Plugin for Codex.");
    assert_eq!(report(ReportKind::SignedOut).state, "unauthenticated");
}

#[test]
fn provisioning_credentials_and_keys() {
    assert_eq!(issued_key(Some(" ".to_string())), None);
    assert_eq!(issued_key(Some("sk-1".to_string())), Some("sk-1".to_string()));
    assert_eq!(
        text(&provision_credential(Ok(None)).unwrap_err()),
        "Enterprise credential is unavailable; sign in again to recover it"
    );
    assert_eq!(
        text(&model_change_credential(Ok(None)).unwrap_err()),
        "Enterprise credential is unavailable; refresh the account first"
    );
    assert_eq!(provision_credential(Ok(Some("sk".to_string()))).unwrap(), "sk");
    match key_request_body(false) {
        Json::Object(entries) => assert!(matches!(entries[0].1, Json::Bool(true))),
        _ => panic!("object expected"),
    }
    let provision = EnterpriseError::message("provision failed");
    assert_eq!(text(&failed_provision_error(provision, Ok(()))), "provision failed");
    let provision = EnterpriseError::message("provision failed");
    let cleanup = EnterpriseError::message("cleanup failed");
    assert_eq!(text(&failed_provision_error(provision, Err(cleanup))), "cleanup failed");
}

#[test]
fn enterprise_mode_setting() {
    assert!(enterprise_mode_enabled(None));
    assert!(!enterprise_mode_enabled(Some(" OFF ")));
    assert!(!enterprise_mode_enabled(Some("0")));
    assert!(enterprise_mode_enabled(Some("yes")));
    let never = |_: &str| -> Result<Option<String>, EnterpriseError> { panic!("not read") };
    assert!(enterprise_credential(false, never).unwrap().is_none());
    let read = |target: &str| {
        assert_eq!(target, CREDENTIAL_TARGET);
        Ok(Some("sk".to_string()))
    };
    assert_eq!(enterprise_credential(true, read).unwrap().as_deref(), Some("sk"));
}

#[test]
fn launcher_requests_and_errors() {
    assert_eq!(launcher_url(None, "me"), "https://api.ai.rydf-design.com/launcher/v1/me");
    assert_eq!(launcher_url(Some("http://localhost:8080//"), "login"), "http://localhost:8080/launcher/v1/login");
    let body = JsonInput::Present(object(vec![(
        "error",
        object(vec![("code", string("subscription_required")), ("retryable", Json::Bool(true))]),
    )]));
    let e = launcher_request_error(403, &body);
    assert_eq!(e.code, "subscription_required");
    assert!(e.retryable);
    assert_eq!(e.message, "request failed");
    let e = launcher_request_error(502, &JsonInput::Invalid("eof".to_string()));
    assert_eq!(e.code, "unknown");
    assert!(e.retryable);
    assert_eq!(
        e.describe(),
        "Azalea Plugin for Codex request failed (HTTP 502, code unknown): request failed"
    );
    let m = model_discovery_error(429);
    assert!(m.retryable);
    assert!(!m.session_auth);
    match response_payload(object(vec![("data", string("x"))])) {
        Json::String(s) => assert_eq!(s, "x"),
        _ => panic!("payload expected"),
    }
    assert!(summarize_failures("Unable to clear", &vec![]).is_ok());
    let failures = vec!["a".to_string(), "b".to_string()];
    assert_eq!(text(&summarize_failures("Unable to clear", &failures).unwrap_err()), "Unable to clear: a; b");
}

#[test]
fn diagnostics_need_every_check() {
    let ready = diagnostics_report(true, true, true, true, true, true);
    assert!(ready.responses_api);
    assert_eq!(ready.message, "Enterprise connection is ready.");
    let partial = diagnostics_report(true, false, true, true, true, true);
    assert!(partial.responses_api);
    assert_eq!(partial.message, "One or more enterprise checks require attention.");
    let no_profile = diagnostics_report(true, true, true, false, true, true);
    assert!(!no_profile.model);
    assert!(!no_profile.responses_api);
}

#[test]
fn model_list_and_default_model_policy() {
    let list = object(vec![(
        "data",
        Json::Array(vec![
            object(vec![("id", string(" gpt-5.5 "))]),
            object(vec![("id", string("gpt-5.5"))]),
            object(vec![("id", string(""))]),
            object(vec![("id", string("gpt-5.6-sol"))]),
        ]),
    )]);
    assert_eq!(models_from_list(&list).unwrap(), vec!["gpt-5.5".to_string(), "gpt-5.6-sol".to_string()]);
    assert_eq!(
        text(&models_from_list(&object(vec![("data", Json::Array(vec![]))])).unwrap_err()),
        "This Sub2API account currently has no available models"
    );
    assert_eq!(text(&models_from_list(&Json::Null).unwrap_err()), "Sub2API returned an invalid model list");

    let mut profile = profile();
    let mut preferences = EnterprisePreferences::from_stored(1, vec![]).unwrap();
    let user = EnterpriseUser { id: "u1".to_string(), display_name: "Ann".to_string() };
    let refused = select_default_model(&mut profile, vec!["gpt-5.5".to_string()], "gpt-x", &user, &mut preferences);
    assert_eq!(text(&refused.unwrap_err()), "The selected model is not available to this Sub2API account");
    let previous = select_default_model(&mut profile, vec!["gpt-5.5".to_string()], " gpt-5.5 ", &user, &mut preferences)
        .unwrap();
    assert_eq!(previous, None);
    assert_eq!(profile.default_model, "gpt-5.5");
    assert_eq!(preferences.get("u1").as_deref(), Some("gpt-5.5"));
    restore_default_model(&mut preferences, "u1", previous);
    assert_eq!(preferences.get("u1"), None);
    assert!(EnterprisePreferences::from_stored(2, vec![]).is_err());
}

#[test]
fn gateway_policy() {
    let mut p = profile();
    p.gateway_url = "http://gw.test/v1".to_string();
    assert_eq!(
        text(&validate_profile(&p, false).unwrap_err()),
        "Azalea Plugin for Codex gateway must use HTTPS"
    );
    assert!(validate_profile(&p, true).is_ok());
    p.gateway_url = "https://user@gw.test/v1".to_string();
    assert_eq!(
        text(&validate_profile(&p, true).unwrap_err()),
        "Azalea Plugin for Codex gateway URL contains unsupported components"
    );
    p.gateway_url = "not a url".to_string();
    assert!(text(&validate_profile(&p, true).unwrap_err()).starts_with("Azalea Plugin for Codex gateway URL is invalid"));
}

#[test]
fn configuration_refusals() {
    assert_eq!(
        text(&compose_managed_config("model_providers.company-ai.name = \"x\"", "block").unwrap_err()),
        "An unmanaged company-ai provider already exists"
    );
    assert!(text(&remove_managed_block_text("not = [valid").unwrap_err())
        .starts_with("Enterprise configuration cannot be recovered because config.toml is invalid"));
    assert_eq!(remove_managed_block_text("a = 1\n").unwrap(), "a = 1\n");
    assert!(restore_root_selections("# codex-plus-plus enterprise preserved-root: ***").is_err());
}

#[test]
fn unmarked_managed_tables_are_removed_structurally() {
    let config = "model = \"gpt\"\nmodel_provider = \"company-ai\"\n\n[model_providers.company-ai]\nname = \"x\"\n\n[mcp_servers.company_imagegen]\ncommand = \"y\"\n\n[mcp_servers.other]\ncommand = \"z\"\n";
    let cleaned = remove_managed_block_text(config).unwrap();
    assert!(!cleaned.contains("company-ai"));
    assert!(!cleaned.contains("company_imagegen"));
    assert!(!cleaned.contains("model_providers"));
    assert!(!cleaned.contains("model ="));
    assert!(cleaned.contains("[mcp_servers.other]"));
    assert!(cleaned.contains("command = \"z\""));
}

#[test]
fn unmarked_config_without_the_shape_is_kept() {
    let config = "model_provider = \"company-ai\"\n\n[model_providers.company-ai]\nname = \"x\"\n";
    assert_eq!(remove_managed_block_text(config).unwrap(), config);
}

#[test]
fn padded_user_id_keeps_its_default_model() {
    let models = vec!["gpt-5.5".to_string(), "gpt-5.6-sol".to_string()];
    let mut profile = profile();
    let mut preferences = EnterprisePreferences::new();
    let user = EnterpriseUser { id: " user-42 ".to_string(), display_name: "Ann".to_string() };
    let previous = select_default_model(&mut profile, models.clone(), "gpt-5.6-sol", &user, &mut preferences).unwrap();
    assert_eq!(previous, None);
    assert_eq!(preferences.get("user-42").as_deref(), Some("gpt-5.6-sol"));
    assert_eq!(preferences.get(" user-42 "), None);
    assert_eq!(preferences.schema_version, 1);

    let mut fresh = self::profile();
    apply_user_models(&mut fresh, models.clone(), &user, &preferences).unwrap();
    assert_eq!(fresh.default_model, "gpt-5.6-sol");

    restore_default_model(&mut preferences, " user-42 ", previous);
    assert_eq!(preferences.get("user-42"), None);
}

#[test]
fn offered_model_is_the_trimmed_request() {
    let models = vec!["gpt-5.5".to_string()];
    assert_eq!(offered_model(&models, " gpt-5.5 ").unwrap(), "gpt-5.5");
    assert_eq!(
        text(&offered_model(&models, "gpt-x").unwrap_err()),
        "The selected model is not available to this Sub2API account"
    );
}
