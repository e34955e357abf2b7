use codex_plus_core::error::{
    enterprise_failure, is_unauthorized, EnterpriseError, EnterpriseFailure, EnterpriseRequestError,
};
use codex_plus_core::json::{Json, JsonInput};
use codex_plus_core::login::{
    current_login_method, login_method_document, read_login_method, LOGIN_METHOD_COMPANY,
    LOGIN_METHOD_OFFICIAL,
};
use codex_plus_core::managed_config::{
    apply_official_login_config, build_managed_block, clear_enterprise_configuration,
    image_helper_path, preserve_root_selections, remove_managed_config, restore_root_selections,
    write_managed_config, ConfigText,
};
use codex_plus_core::profile::{
    apply_user_identity, apply_user_models, models_url, validate_profile, EnterprisePreferences,
    EnterpriseProfile, EnterpriseUser,
};

const BEGIN_MARKER: &str = "# >>> codex-plus-plus enterprise managed block >>>";
const END_MARKER: &str = "# <<< codex-plus-plus enterprise managed block <<<";
const MANAGER: &str = "C:/Program Files/Codex++/codex-plus-plus.exe";

fn profile() -> EnterpriseProfile {
    EnterpriseProfile {
        gateway_url: "https://api.ai.rydf-design.com/v1".to_string(),
        provider_id: "company-ai".to_string(),
        default_model: "gpt-5.4-mini".to_string(),
        allowed_models: vec!["gpt-5.4-mini".to_string()],
        wire_api: "responses".to_string(),
        display_name: "Azalea Plugin for Codex".to_string(),
        user_id: None,
        group_id: None,
        group_name: None,
    }
}

fn user(id: &str, display_name: &str) -> EnterpriseUser {
    EnterpriseUser { id: id.to_string(), display_name: display_name.to_string() }
}

fn to_json(value: &serde_json::Value) -> Json {
    match value {
        serde_json::Value::Null => Json::Null,
        serde_json::Value::Bool(b) => Json::Bool(*b),
        serde_json::Value::Number(n) => Json::Number(n.to_string()),
        serde_json::Value::String(s) => Json::String(s.clone()),
        serde_json::Value::Array(items) => Json::Array(items.iter().map(to_json).collect()),
        serde_json::Value::Object(entries) => {
            Json::Object(entries.iter().map(|(k, v)| (k.clone(), to_json(v))).collect())
        }
    }
}

fn from_json(value: &Json) -> serde_json::Value {
    match value {
        Json::Null => serde_json::Value::Null,
        Json::Bool(b) => serde_json::Value::Bool(*b),
        Json::Number(n) => serde_json::from_str(n).unwrap(),
        Json::String(s) => serde_json::Value::String(s.clone()),
        Json::Array(items) => serde_json::Value::Array(items.iter().map(from_json).collect()),
        Json::Object(entries) => serde_json::Value::Object(
            entries.iter().map(|(k, v)| (k.clone(), from_json(v))).collect(),
        ),
    }
}

fn auth_input(text: &str) -> JsonInput {
    JsonInput::Present(to_json(&serde_json::from_str(text).unwrap()))
}

fn helper() -> String {
    image_helper_path(MANAGER, true)
}

fn write(original: &str, profile: &EnterpriseProfile, auth: JsonInput) -> (String, Option<Json>) {
    let written = write_managed_config(
        original,
        &helper(),
        profile,
        "sk-enterprise-test",
        false,
        auth,
        "auth.json",
    )
    .unwrap();
    (written.config, written.auth)
}

#[test]
fn managed_config_uses_direct_gateway_with_codex_auth() {
    let helper = image_helper_path("C:/Program Files/Codex++/manager.exe", true);
    let block = build_managed_block(&helper, &profile());
    let document = block.parse::<toml::Value>().unwrap();
    let provider = &document["model_providers"]["company-ai"];
    let auth = &provider["auth"];
    let command = auth["command"].as_str().unwrap();
    assert!(block.contains("base_url = \"https://api.ai.rydf-design.com/v1\""));
    assert!(block.contains("[model_providers.company-ai.auth]"));
    assert!(command.ends_with("codex-plus-image-mcp.exe"));
    assert_eq!(
        auth["args"].as_array().unwrap(),
        &[
            toml::Value::String("--enterprise-credential".to_string()),
            toml::Value::String("get".to_string()),
        ]
    );
    assert!(!block.contains("127.0.0.1"));
    assert!(!block.contains("requires_openai_auth"));
    assert!(!block.contains("experimental_bearer_token"));
    assert!(!block.contains("sk-enterprise-test"));
    assert!(!block.contains("OPENAI_API_KEY"));
    assert!(block.contains("[mcp_servers.company_imagegen]"));
    assert!(block.contains("codex-plus-image-mcp.exe"));
    assert!(block.contains("CODEX_PLUS_IMAGE_BASE_URL = \"https://api.ai.rydf-design.com/v1\""));
    assert!(block.contains("CODEX_PLUS_RESPONSES_MODEL = \"gpt-5.6-sol\""));
    assert!(block.contains("CODEX_PLUS_IMAGE_MODEL = \"gpt-image-2\""));
}

#[test]
fn managed_provider_name_uses_authenticated_sub2api_username() {
    let mut profile = profile();
    apply_user_models(
        &mut profile,
        vec!["gpt-5.4-mini".to_string()],
        &user("sub2-user-42", "alice"),
        &EnterprisePreferences::new(),
    )
    .unwrap();
    let block = build_managed_block(&image_helper_path("C:/Program Files/Codex++/manager.exe", true), &profile);
    assert!(block.contains("model_providers.company-ai.name = \"alice\""));
    assert!(block.contains("model_provider = \"company-ai\""));
    assert_eq!(profile.user_id.as_deref(), Some("sub2-user-42"));
}

#[test]
fn managed_config_preserves_and_restores_community_selection() {
    let original = "model = \"community-model\"\nmodel_provider = \"community\"\n[model_providers.community]\nbase_url = \"https://example.test/v1\"\n";
    let clean = preserve_root_selections(original);
    let restored = restore_root_selections(&clean).unwrap();
    assert_eq!(restored, original.trim_end());
}

#[test]
fn managed_config_keeps_existing_root_settings_out_of_image_mcp_env() {
    let original = r#"model = "official-model"
model_provider = "openai"
model_reasoning_effort = "medium"
approval_policy = "never"
sandbox_mode = "danger-full-access"
service_tier = "priority"
notify = ["powershell", "-File", "notify.ps1"]

[windows]
sandbox = "elevated"

[features]
apps = true
"#;
    let (config, _) = write(original, &profile(), JsonInput::Missing);
    let document = config.parse::<toml::Value>().unwrap();
    assert_eq!(document["model_provider"].as_str(), Some("company-ai"));
    assert_eq!(document["model_reasoning_effort"].as_str(), Some("medium"));
    assert_eq!(document["service_tier"].as_str(), Some("priority"));
    assert!(document["notify"].is_array());
    assert_eq!(document["windows"]["sandbox"].as_str(), Some("elevated"));
    assert_eq!(document["features"]["apps"].as_bool(), Some(true));
    let image_env = document["mcp_servers"]["company_imagegen"]["env"].as_table().unwrap();
    assert!(image_env.values().all(toml::Value::is_str));
    assert!(!image_env.contains_key("notify"));
    assert!(!image_env.contains_key("model_reasoning_effort"));

    let restored = remove_managed_config(&config).unwrap();
    let restored_document = restored.parse::<toml::Value>().unwrap();
    assert_eq!(restored_document["model"].as_str(), Some("official-model"));
    assert_eq!(restored_document["model_provider"].as_str(), Some("openai"));
    assert!(restored_document["notify"].is_array());
    assert_eq!(restored_document["windows"]["sandbox"].as_str(), Some("elevated"));
}

#[test]
fn managed_config_recovers_when_codex_drops_the_end_marker() {
    let original = r#"model = "official-model"
model_provider = "openai"
notify = ["powershell", "-File", "notify.ps1"]

[windows]
sandbox = "elevated"
"#;
    let (config, _) = write(original, &profile(), JsonInput::Missing);
    let damaged = config.replace(END_MARKER, "");

    let mut updated_profile = profile();
    updated_profile.default_model = "gpt-5.6-sol".to_string();
    let (repaired, _) = write(&damaged, &updated_profile, JsonInput::Missing);
    assert_eq!(repaired.matches(BEGIN_MARKER).count(), 1);
    assert_eq!(repaired.matches(END_MARKER).count(), 1);
    let document = repaired.parse::<toml::Value>().unwrap();
    assert_eq!(document["model"].as_str(), Some("gpt-5.6-sol"));
    assert!(document["notify"].is_array());
    assert_eq!(document["windows"]["sandbox"].as_str(), Some("elevated"));

    let restored = remove_managed_config(&repaired).unwrap();
    let document = restored.parse::<toml::Value>().unwrap();
    assert_eq!(document["model"].as_str(), Some("official-model"));
    assert_eq!(document["model_provider"].as_str(), Some("openai"));
    assert!(document["notify"].is_array());
}

#[test]
fn managed_config_recovers_when_codex_drops_both_markers() {
    let (config, _) = write("", &profile(), JsonInput::Missing);
    let damaged = config.replace(BEGIN_MARKER, "").replace(END_MARKER, "");
    let (repaired, _) = write(&damaged, &profile(), JsonInput::Missing);
    assert_eq!(repaired.matches(BEGIN_MARKER).count(), 1);
    assert_eq!(repaired.matches(END_MARKER).count(), 1);
    repaired.parse::<toml::Value>().unwrap();
}

#[test]
fn enterprise_configuration_errors_preserve_authenticated_ui_state() {
    let failure = enterprise_failure(&EnterpriseError::message(
        "Enterprise configuration cannot be recovered because config.toml is invalid",
    ));
    assert_eq!(failure.code, "enterprise_configuration_repair_failed");
    assert!(failure.retryable);
}

#[test]
fn profile_rejects_non_responses_protocol() {
    let mut invalid = profile();
    invalid.wire_api = "chat_completions".to_string();
    assert!(validate_profile(&invalid, false).is_err());
}

#[test]
fn user_models_replace_launcher_policy_and_select_available_default() {
    let mut profile = profile();
    apply_user_models(
        &mut profile,
        vec!["gpt-5.5".to_string(), "gpt-5.6-sol".to_string()],
        &user("user-1", "Alice"),
        &EnterprisePreferences::new(),
    )
    .unwrap();
    assert_eq!(profile.default_model, "gpt-5.5");
    assert_eq!(profile.allowed_models, ["gpt-5.5", "gpt-5.6-sol"]);
}

#[test]
fn user_models_keep_launcher_default_when_sub2_allows_it() {
    let mut profile = profile();
    apply_user_models(
        &mut profile,
        vec!["gpt-5.5".to_string(), "gpt-5.4-mini".to_string()],
        &user("user-1", "Alice"),
        &EnterprisePreferences::new(),
    )
    .unwrap();
    assert_eq!(profile.default_model, "gpt-5.4-mini");
    assert_eq!(profile.allowed_models, ["gpt-5.5", "gpt-5.4-mini"]);
}

#[test]
fn user_model_preferences_are_isolated_and_override_launcher_default() {
    let preferences = EnterprisePreferences::from_stored(
        1,
        vec![
            ("user-a".to_string(), "gpt-5.6-sol".to_string()),
            ("user-b".to_string(), "gpt-5.5".to_string()),
        ],
    )
    .unwrap();

    let models = vec!["gpt-5.4-mini".to_string(), "gpt-5.6-sol".to_string()];
    let mut profile_a = profile();
    apply_user_models(&mut profile_a, models.clone(), &user("user-a", "Alice"), &preferences).unwrap();
    assert_eq!(profile_a.default_model, "gpt-5.6-sol");
    assert_eq!(profile_a.display_name, "Alice");
    assert_eq!(profile_a.user_id.as_deref(), Some("user-a"));

    let mut profile_b = profile();
    apply_user_models(&mut profile_b, models, &user("user-b", "Bob"), &preferences).unwrap();
    assert_eq!(profile_b.default_model, "gpt-5.4-mini");
    assert_eq!(profile_b.display_name, "Bob");
    assert_eq!(profile_b.user_id.as_deref(), Some("user-b"));
}

#[test]
fn empty_username_falls_back_to_authenticated_user_id() {
    let mut profile = profile();
    apply_user_identity(&mut profile, &user(" user-42 ", "   "));
    assert_eq!(profile.display_name, "user-42");
    assert_eq!(profile.user_id.as_deref(), Some("user-42"));
}

#[test]
fn models_endpoint_uses_gateway_version_prefix_once() {
    assert_eq!(
        models_url("https://api.ai.rydf-design.com/v1"),
        "https://api.ai.rydf-design.com/v1/models"
    );
    assert_eq!(models_url("https://api.example.test"), "https://api.example.test/v1/models");
}

#[test]
fn group_policy_forbidden_is_not_treated_as_session_expiry() {
    assert!(!is_unauthorized(&EnterpriseError::message(
        "request failed (HTTP 403, code group_access_denied)"
    )));
    assert!(is_unauthorized(&EnterpriseError::message(
        "request failed (HTTP 401, code unauthorized)"
    )));
    assert!(is_unauthorized(&EnterpriseError::message(
        "request failed (HTTP 403, code reauthentication_required)"
    )));
}

#[test]
fn launcher_error_metadata_preserves_retryability() {
    let retryable = EnterpriseError::Request(EnterpriseRequestError {
        status: 503,
        code: "subscription_progress_unavailable".to_string(),
        retryable: true,
        session_auth: true,
        message: "temporary".to_string(),
    });
    assert_eq!(
        enterprise_failure(&retryable),
        EnterpriseFailure { code: "subscription_progress_unavailable".to_string(), retryable: true }
    );

    let forbidden = EnterpriseError::Request(EnterpriseRequestError {
        status: 403,
        code: "subscription_required".to_string(),
        retryable: false,
        session_auth: true,
        message: "assign a subscription".to_string(),
    });
    assert!(!is_unauthorized(&forbidden));
    assert!(!enterprise_failure(&forbidden).retryable);

    let rejected_inference_key = EnterpriseError::Request(EnterpriseRequestError {
        status: 401,
        code: "model_discovery_failed".to_string(),
        retryable: false,
        session_auth: false,
        message: "invalid key".to_string(),
    });
    assert!(!is_unauthorized(&rejected_inference_key));
}

#[test]
fn login_method_file_defaults_to_company_and_reads_official() {
    assert_eq!(read_login_method(&JsonInput::Missing), LOGIN_METHOD_COMPANY);
    assert_eq!(read_login_method(&auth_input(r#"{"method":"official"}"#)), LOGIN_METHOD_OFFICIAL);
    assert_eq!(read_login_method(&auth_input(r#"{"method":"company"}"#)), LOGIN_METHOD_COMPANY);
}

#[test]
fn official_login_config_removes_enterprise_provider_and_restores_chatgpt_path() {
    let (config, auth) = write(
        "",
        &profile(),
        auth_input(
            r#"{"OPENAI_API_KEY":"sk-enterprise-test","auth_mode":"chatgpt","tokens":{"access_token":"keep"}}"#,
        ),
    );
    let auth = from_json(&auth.unwrap());

    let config = apply_official_login_config(&ConfigText::Present(config)).unwrap().unwrap_or_default();
    assert!(!config.contains("company-ai"));
    assert!(!config.contains("company_imagegen"));
    assert!(!config.contains("CODEX_PLUS_IMAGE_BASE_URL"));
    assert!(!config.contains("model_provider"));
    assert!(!config.contains(BEGIN_MARKER));
    assert!(auth.get("OPENAI_API_KEY").is_none());
    assert_eq!(auth["auth_mode"], "chatgpt");
    assert_eq!(auth["tokens"]["access_token"], "keep");
}

#[test]
fn terminal_session_cleanup_removes_managed_provider_and_inference_key() {
    let (config, _) = write("", &profile(), JsonInput::Missing);
    let plan = clear_enterprise_configuration(
        &ConfigText::Present(config),
        Some("sk-enterprise-test"),
        auth_input(r#"{"OPENAI_API_KEY":"sk-enterprise-test","auth_mode":"chatgpt"}"#),
        "auth.json",
    );
    let config = plan.config.unwrap().unwrap_or_default();
    assert!(!config.contains(BEGIN_MARKER));
    assert!(!config.contains("experimental_bearer_token"));
    assert!(!config.contains("company_imagegen"));
    let auth = from_json(&plan.auth.unwrap().unwrap());
    assert!(auth.get("OPENAI_API_KEY").is_none());
    assert_eq!(auth["auth_mode"], "chatgpt");
}

#[test]
fn enterprise_provisioning_preserves_a_different_official_api_key() {
    let official = r#"{"OPENAI_API_KEY":"sk-official-user-key","auth_mode":"apikey"}"#;
    let (config, written_auth) = write("", &profile(), auth_input(official));
    let after_write = match written_auth {
        Some(replaced) => from_json(&replaced).to_string(),
        None => official.to_string(),
    };
    let plan = clear_enterprise_configuration(
        &ConfigText::Present(config),
        Some("sk-enterprise-test"),
        auth_input(&after_write),
        "auth.json",
    );
    let after_clear = match plan.auth.unwrap() {
        Some(replaced) => from_json(&replaced),
        None => serde_json::from_str(&after_write).unwrap(),
    };
    assert_eq!(after_clear["OPENAI_API_KEY"], "sk-official-user-key");
    assert_eq!(after_clear["auth_mode"], "apikey");
}

#[test]
fn enterprise_migration_removes_rotated_legacy_key_from_managed_block_only() {
    let config = format!(
        "{BEGIN_MARKER}\nmodel_provider = \"company-ai\"\nmodel_providers.company-ai.base_url = \"https://example.com/v1\"\nmodel_providers.company-ai.experimental_bearer_token = \"sk-enterprise-old\"\n{END_MARKER}\n"
    );
    let plan = clear_enterprise_configuration(
        &ConfigText::Present(config),
        Some("sk-enterprise-new"),
        auth_input(
            r#"{"OPENAI_API_KEY":"sk-enterprise-old","auth_mode":"chatgpt","tokens":{"access_token":"keep"}}"#,
        ),
        "auth.json",
    );
    let auth = from_json(&plan.auth.unwrap().unwrap());
    assert!(auth.get("OPENAI_API_KEY").is_none());
    assert_eq!(auth["tokens"]["access_token"], "keep");
    assert!(!plan.config.unwrap().unwrap_or_default().contains(BEGIN_MARKER));
}

#[test]
fn enterprise_provisioning_does_not_create_auth_json() {
    let (_, auth) = write("", &profile(), JsonInput::Missing);
    assert!(auth.is_none());
}

#[test]
fn current_login_method_reads_overridden_path() {
    let official = JsonInput::Present(login_method_document(LOGIN_METHOD_OFFICIAL));
    assert_eq!(current_login_method(&official), LOGIN_METHOD_OFFICIAL);
    let company = JsonInput::Present(login_method_document(LOGIN_METHOD_COMPANY));
    assert_eq!(current_login_method(&company), LOGIN_METHOD_COMPANY);
}

fn settings(text: &str) -> Vec<String> {
    text.lines().map(str::trim).filter(|line| !line.is_empty()).map(str::to_string).collect()
}

#[test]
fn written_configuration_gives_back_its_settings() {
    let original = "  model = \"m\"\r\nmodel_provider = \"p\"\r\n\r\nnotify = [\"a\"]\n\n[tui]\nx = 1\n\n";
    let block = build_managed_block(&helper(), &profile());
    let written = codex_plus_core::managed_config::compose_managed_config(original, &block).unwrap();
    assert!(written.contains(BEGIN_MARKER));
    assert!(!written.contains("model = \"m\""));
    let restored = remove_managed_config(&written).unwrap();
    assert_eq!(settings(&restored), settings(original));
}

#[test]
fn unmarked_config_with_a_stray_provider_line_is_refused() {
    let original = "model = \"official-model\"\nmodel_providers.company-ai.name = \"mine\"\n";
    let refused = write_managed_config(
        original,
        &helper(),
        &profile(),
        "sk-enterprise-test",
        false,
        JsonInput::Missing,
        "auth.json",
    )
    .unwrap_err();
    assert_eq!(refused.describe_chain(), "An unmanaged company-ai provider already exists");
}

#[test]
fn unmarked_enterprise_shaped_config_is_repaired_before_writing() {
    let original = "model = \"gpt\"\nmodel_provider = \"company-ai\"\nservice_tier = \"priority\"\n\n[model_providers.company-ai]\nname = \"old\"\n\n[mcp_servers.company_imagegen]\ncommand = \"old\"\n";
    let (config, _) = write(original, &profile(), JsonInput::Missing);
    assert_eq!(config.matches("[model_providers.company-ai]").count(), 0);
    assert_eq!(config.matches("[mcp_servers.company_imagegen]").count(), 1);
    assert!(!config.contains("\"old\""));
    let document = config.parse::<toml::Value>().unwrap();
    assert_eq!(document["service_tier"].as_str(), Some("priority"));
    assert_eq!(document["model_provider"].as_str(), Some("company-ai"));
}

#[test]
fn provisioning_keeps_a_key_that_only_an_older_block_held() {
    let config = format!(
        "{BEGIN_MARKER}\nmodel_provider = \"company-ai\"\nmodel_providers.company-ai.experimental_bearer_token = \"sk-enterprise-old\"\n{END_MARKER}\n"
    );
    let (_, auth) = write(
        &config,
        &profile(),
        auth_input(r#"{"OPENAI_API_KEY":"sk-enterprise-old","auth_mode":"chatgpt"}"#),
    );
    assert!(auth.is_none());
    let (_, auth) = write(
        &config,
        &profile(),
        auth_input(r#"{"OPENAI_API_KEY":"sk-enterprise-test","auth_mode":"chatgpt"}"#),
    );
    let auth = from_json(&auth.unwrap());
    assert!(auth.get("OPENAI_API_KEY").is_none());
    assert_eq!(auth["auth_mode"], "chatgpt");
}
