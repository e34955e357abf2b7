//! Login mode and session-level decisions: whether Enterprise Mode is on, which
//! login method is active, which credential the helper may hand out, how
//! launcher requests are addressed and how their failures are read.
use vstd::prelude::*;
use crate::error::{is_plain_failure, EnterpriseError, EnterpriseRequestError};
use crate::json::{json_bool, json_get, json_get2, json_str, Json, JsonInput};
use crate::text::{
    append_chars, ascii_lower_seq, chars_eq, chars_of, string_of, to_ascii_lowercase_chars, trim,
    trim_chars, trim_end_char, trim_end_char_chars,
};

verus! {

broadcast use vstd::string::group_string_axioms;

/// Login with the company account.
pub const LOGIN_METHOD_COMPANY: &'static str = "company";

/// Login with the original official account.
pub const LOGIN_METHOD_OFFICIAL: &'static str = "official";

pub open spec fn company() -> Seq<char> {
    "company"@
}

pub open spec fn official() -> Seq<char> {
    "official"@
}

/// Enterprise Mode is on unless the setting, trimmed and lower-cased, is
/// `0`, `false`, `no` or `off`; an absent setting counts as `true`.
pub open spec fn spec_enterprise_mode_enabled(setting: Option<Seq<char>>) -> bool {
    let v = ascii_lower_seq(
        trim(
            match setting {
                Some(s) => s,
                None => "true"@,
            },
        ),
    );
    !(v == "0"@ || v == "false"@ || v == "no"@ || v == "off"@)
}

fn is_text(a: &Vec<char>, b: &str) -> (r: bool)
    ensures
        r == (a@ == b@),
{
    chars_eq(a, &chars_of(b))
}

/// Whether Enterprise Mode is on, given the `CODEX_PLUS_ENTERPRISE_MODE` setting.
pub fn enterprise_mode_enabled(setting: Option<&str>) -> (r: bool)
    ensures
        r == spec_enterprise_mode_enabled(
            match setting {
                Some(s) => Some(s@),
                None => None,
            },
        ),
{
    let raw = match setting {
        Some(s) => chars_of(s),
        None => chars_of("true"),
    };
    let v = to_ascii_lowercase_chars(&trim_chars(&raw));
    !(is_text(&v, "0") || is_text(&v, "false") || is_text(&v, "no") || is_text(&v, "off"))
}

/// Secure-store name of the inference credential.
pub const CREDENTIAL_TARGET: &'static str = "CodexPlusPlus/enterprise/inference";

/// The name under which the inference credential is stored.
pub open spec fn credential_target() -> Seq<char> {
    "CodexPlusPlus/enterprise/inference"@
}

/// The inference credential: none while Enterprise Mode is off, otherwise
/// what reading the credential store under [`credential_target`] gives.
pub fn enterprise_credential<F: FnOnce(&str) -> Result<Option<String>, EnterpriseError>>(
    mode_enabled: bool,
    read_store: F,
) -> (r: Result<Option<String>, EnterpriseError>)
    requires
        mode_enabled ==> forall|t: &str| t@ == credential_target() ==> read_store.requires((t,)),
    ensures
        !mode_enabled ==> r matches Ok(None),
        mode_enabled ==> exists|t: &str| t@ == credential_target() && read_store.ensures((t,), r),
{
    if !mode_enabled {
        return Ok(None);
    }
    let target = CREDENTIAL_TARGET;
    proof {
        reveal_strlit("CodexPlusPlus/enterprise/inference");
    }
    assert(target@ == credential_target());
    assert(read_store.requires((target,)));
    let r = read_store(target);
    assert(read_store.ensures((target,), r));
    r
}

/// The login method a stored login-method document names: `official` when its
/// `method` is exactly `official`, `company` in every other case (no file, not
/// JSON, no `method`).
pub open spec fn spec_read_login_method(document: Option<Json>) -> Seq<char> {
    match document {
        Some(d) => if json_str(json_get(d, "method"@)) == Some(official()) {
            official()
        } else {
            company()
        },
        None => company(),
    }
}

/// The active login method as stored; see [`spec_read_login_method`].
pub fn read_login_method(document: &JsonInput) -> (r: String)
    ensures
        r@ == spec_read_login_method(
            match document {
                JsonInput::Present(d) => Some(*d),
                _ => None,
            },
        ),
{
    match document {
        JsonInput::Present(d) => match crate::json::get_str(d, "method") {
            Some(m) => if chars_eq(&chars_of(m.as_str()), &chars_of("official")) {
                LOGIN_METHOD_OFFICIAL.to_string()
            } else {
                LOGIN_METHOD_COMPANY.to_string()
            },
            None => LOGIN_METHOD_COMPANY.to_string(),
        },
        _ => LOGIN_METHOD_COMPANY.to_string(),
    }
}

/// The active login method, read from the login-method document.
pub fn current_login_method(document: &JsonInput) -> (r: String)
    ensures
        r@ == spec_read_login_method(
            match document {
                JsonInput::Present(d) => Some(*d),
                _ => None,
            },
        ),
        r@ == company() || r@ == official(),
{
    read_login_method(document)
}

/// The login-method document that records `method`: `{"method": method}`.
pub fn login_method_document(method: &str) -> (d: Json)
    ensures
        crate::json::json_view(d) == crate::json::JsonView::Object(
            seq![("method"@, crate::json::JsonView::Str(method@))],
        ),
        json_str(json_get(d, "method"@)) == Some(method@),
{
    let value = Json::string(method);
    let mut entries: Vec<(String, Json)> = Vec::new();
    crate::json::push_member(&mut entries, "method", value);
    assert(crate::json::member_views(entries@) =~= seq![
        ("method"@, crate::json::JsonView::Str(method@)),
    ]);
    proof {
        crate::json::lemma_member_views(entries@);
        assert(crate::json::member_views(entries@)[0] == (entries@[0].0@, crate::json::json_view(
            entries@[0].1,
        )));
        assert(entries@[0].0@ == "method"@);
        assert(entries@.drop_first() =~= Seq::<(String, Json)>::empty());
        assert(crate::json::member(entries@, "method"@) == Some(entries@[0].1));
        assert(crate::json::json_view(entries@[0].1) == crate::json::JsonView::Str(method@));
    }
    Json::Object(entries)
}

/// Reading back a written login method gives the method written, for each of
/// the two methods.
pub proof fn login_method_round_trip(method: Seq<char>, document: Json)
    requires
        method == company() || method == official(),
        json_str(json_get(document, "method"@)) == Some(method),
    ensures
        spec_read_login_method(Some(document)) == method,
{
    reveal_strlit("company");
    reveal_strlit("official");
}

/// Whether the image tools may run: only while the company login is active.
pub fn image_tools_enabled_for_login_method(method: &str) -> (r: bool)
    ensures
        r == (method@ == company()),
{
    chars_eq(&chars_of(method), &chars_of(LOGIN_METHOD_COMPANY))
}

/// Connection checks of the manager's diagnostics page.
#[derive(Debug, Clone)]
pub struct EnterpriseDiagnostics {
    pub server: bool,
    pub login: bool,
    pub credential: bool,
    pub model: bool,
    pub responses_api: bool,
    pub codex_configuration: bool,
    pub message: String,
}

/// The diagnostics for the results of the individual checks. The model check
/// passes only when the codex profile could be loaded with the session, a
/// credential is stored, and the account's models were discovered with them;
/// the Responses API counts as reachable when the server, the credential and
/// the model check pass; the connection is ready when every check passes.
pub fn diagnostics_report(
    server: bool,
    login: bool,
    credential: bool,
    profile_loaded: bool,
    models_discovered: bool,
    codex_configuration: bool,
) -> (d: EnterpriseDiagnostics)
    ensures
        d.server == server && d.login == login && d.credential == credential
            && d.codex_configuration == codex_configuration,
        d.model == (profile_loaded && credential && models_discovered),
        d.responses_api == (server && credential && d.model),
        d.message@ == if server && login && credential && d.model && codex_configuration {
            "Enterprise connection is ready."@
        } else {
            "One or more enterprise checks require attention."@
        },
{
    let model = profile_loaded && credential && models_discovered;
    EnterpriseDiagnostics {
        server,
        login,
        credential,
        model,
        responses_api: server && credential && model,
        codex_configuration,
        message: if server && login && credential && model && codex_configuration {
            "Enterprise connection is ready.".to_string()
        } else {
            "One or more enterprise checks require attention.".to_string()
        },
    }
}

/// The URL of a launcher endpoint: the configured launcher origin (or the
/// production one), without trailing slashes, then `/launcher/v1/{endpoint}`.
pub open spec fn spec_launcher_url(configured: Option<Seq<char>>, endpoint: Seq<char>) -> Seq<char> {
    let base = match configured {
        Some(b) => b,
        None => "https://api.ai.rydf-design.com"@,
    };
    trim_end_char(base, '/') + "/launcher/v1/"@ + endpoint
}

pub fn launcher_url(configured: Option<&str>, endpoint: &str) -> (r: String)
    ensures
        r@ == spec_launcher_url(
            match configured {
                Some(b) => Some(b@),
                None => None,
            },
            endpoint@,
        ),
{
    let base = match configured {
        Some(b) => chars_of(b),
        None => chars_of("https://api.ai.rydf-design.com"),
    };
    let mut v = trim_end_char_chars(&base, '/');
    append_chars(&mut v, &chars_of("/launcher/v1/"));
    append_chars(&mut v, &chars_of(endpoint));
    string_of(&v)
}

/// `StatusCode::is_server_error`: 500 to 599.
pub open spec fn is_server_error(status: u16) -> bool {
    500 <= status < 600
}

/// The error for a non-success launcher answer: code, retryability and
/// message from its `error` object when present, else `unknown`, whether the
/// status is a server error, and `request failed`.
pub open spec fn launcher_error_ok(status: u16, body: JsonInput, e: EnterpriseRequestError) -> bool {
    let error = match body {
        JsonInput::Present(v) => json_get(v, "error"@),
        _ => None,
    };
    let field = |k: Seq<char>| match error {
        Some(x) => json_get(x, k),
        None => None,
    };
    &&& e.status == status
    &&& e.session_auth
    &&& e.code@ == match json_str(field("code"@)) {
        Some(c) => c,
        None => "unknown"@,
    }
    &&& e.retryable == match json_bool(field("retryable"@)) {
        Some(b) => b,
        None => is_server_error(status),
    }
    &&& e.message@ == match json_str(field("message"@)) {
        Some(m) => m,
        None => "request failed"@,
    }
}

/// Reads a launcher error answer (see [`launcher_error_ok`]).
pub fn launcher_request_error(status: u16, body: &JsonInput) -> (e: EnterpriseRequestError)
    ensures
        launcher_error_ok(status, *body, e),
{
    let error = match body {
        JsonInput::Present(v) => v.get("error"),
        _ => None,
    };
    let code = match error {
        Some(x) => crate::json::get_str(x, "code"),
        None => None,
    };
    let retryable = match error {
        Some(x) => match x.get("retryable") {
            Some(b) => b.as_bool(),
            None => None,
        },
        None => None,
    };
    let message = match error {
        Some(x) => crate::json::get_str(x, "message"),
        None => None,
    };
    EnterpriseRequestError {
        status,
        code: match code {
            Some(c) => c,
            None => "unknown".to_string(),
        },
        retryable: match retryable {
            Some(b) => b,
            None => 500 <= status && status < 600,
        },
        session_auth: true,
        message: match message {
            Some(m) => m,
            None => "request failed".to_string(),
        },
    }
}

/// The error for a failed model list request: `model_discovery_failed`,
/// retryable for server errors and 429, not a session failure.
pub fn model_discovery_error(status: u16) -> (e: EnterpriseRequestError)
    ensures
        e.status == status,
        e.code@ == "model_discovery_failed"@,
        e.retryable == (is_server_error(status) || status == 429),
        !e.session_auth,
        e.message@ == "unable to load models available to this account"@,
{
    EnterpriseRequestError {
        status,
        code: "model_discovery_failed".to_string(),
        retryable: (500 <= status && status < 600) || status == 429,
        session_auth: false,
        message: "unable to load models available to this account".to_string(),
    }
}

/// The payload of a launcher answer: its `data` member when present, else the
/// whole value.
pub fn response_payload(value: Json) -> (r: Json)
    ensures
        match json_get(value, "data"@) {
            Some(d) => r == d,
            None => r == value,
        },
{
    match value {
        Json::Object(entries) => {
            let probe = Json::Object(entries);
            let found = probe.get("data").is_some();
            if !found {
                return probe;
            }
            match probe {
                Json::Object(entries) => crate::json::take_member(entries, "data"),
                other => other,
            }
        },
        other => other,
    }
}

/// The request body of a login: the trimmed e-mail as `username`, the
/// password and the client version. Refused when the trimmed e-mail or the
/// password is empty.
pub fn login_request_body(email: &str, password: &str, client_version: &str) -> (r: Result<
    Json,
    EnterpriseError,
>)
    ensures
        (trim(email@).len() == 0 || password@.len() == 0) ==> (r matches Err(e) && is_plain_failure(
            e,
            "Email and password are required"@,
        )),
        !(trim(email@).len() == 0 || password@.len() == 0) ==> (r matches Ok(body) && json_str(
            json_get(body, "username"@),
        ) == Some(trim(email@)) && json_str(json_get(body, "password"@)) == Some(password@)
            && json_str(json_get(body, "clientVersion"@)) == Some(client_version@)),
{
    let user = trim_chars(&chars_of(email));
    if user.len() == 0 || password.is_empty() {
        return Err(EnterpriseError::message("Email and password are required"));
    }
    let mut entries: Vec<(String, Json)> = Vec::new();
    entries.push(("username".to_string(), Json::String(string_of(&user))));
    entries.push(("password".to_string(), Json::string(password)));
    entries.push(("clientVersion".to_string(), Json::string(client_version)));
    proof {
        reveal_strlit("username");
        reveal_strlit("password");
        reveal_strlit("clientVersion");
        let e = entries@;
        assert(e[0].0@ == "username"@);
        assert(e[1].0@ == "password"@);
        assert(e[2].0@ == "clientVersion"@);
        assert(e[0].0@[0] != "password"@[0]);
        assert(e[0].0@[0] != "clientVersion"@[0]);
        assert(e[1].0@[0] != "clientVersion"@[0]);
        assert(e.drop_first()[0] == e[1]);
        assert(e.drop_first().drop_first()[0] == e[2]);
        assert(crate::json::member(e, "username"@) == Some(e[0].1));
        assert(crate::json::member(e, "password"@) == crate::json::member(e.drop_first(), "password"@));
        assert(crate::json::member(e, "password"@) == Some(e[1].1));
        assert(crate::json::member(e.drop_first(), "clientVersion"@) == crate::json::member(e.drop_first().drop_first(), "clientVersion"@));
        assert(crate::json::member(e, "clientVersion"@) == Some(e[2].1));
    }
    Ok(Json::Object(entries))
}

/// Joins the failures of a clean-up into one error, or succeeds when there is none.
pub fn summarize_failures(context: &str, failures: &Vec<String>) -> (r: Result<(), EnterpriseError>)
    ensures
        failures@.len() == 0 ==> r is Ok,
        failures@.len() > 0 ==> (r matches Err(e) && is_plain_failure(
            e,
            context@ + ": "@ + crate::text::join(crate::profile::string_views(failures@), "; "@),
        )),
{
    if failures.len() == 0 {
        return Ok(());
    }
    let mut parts: Vec<Vec<char>> = Vec::new();
    let mut i: usize = 0;
    while i < failures.len()
        invariant
            i <= failures@.len(),
            crate::text::views(parts@) == crate::profile::string_views(failures@).take(i as int),
        decreases failures@.len() - i,
    {
        let ghost before = crate::text::views(parts@);
        parts.push(chars_of(failures[i].as_str()));
        assert(crate::text::views(parts@) =~= before.push(failures@[i as int]@));
        assert(crate::profile::string_views(failures@).take(i + 1) =~= crate::profile::string_views(failures@).take(i as int).push(failures@[i as int]@));
        i += 1;
    }
    assert(crate::profile::string_views(failures@).take(failures@.len() as int) =~= crate::profile::string_views(failures@));
    let mut m = chars_of(context);
    append_chars(&mut m, &chars_of(": "));
    append_chars(&mut m, &crate::text::join_exec(&parts, &chars_of("; ")));
    Err(EnterpriseError::message(string_of(&m).as_str()))
}

} // verus!
