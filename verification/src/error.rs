//! The launcher's error policy: which failures mean that the session has
//! expired, and how a failure is reported to the manager UI.
use vstd::prelude::*;
use crate::text::{append_chars, chars_eq, chars_of, contains, contains_exec, string_of};

verus! {

broadcast use vstd::string::group_string_axioms;

/// Product name used in user-facing messages.
pub open spec fn brand_name() -> Seq<char> {
    "Azalea Plugin for Codex"@
}

/// A non-success answer of the launcher API or of the model gateway.
#[derive(Debug, Clone)]
pub struct EnterpriseRequestError {
    pub status: u16,
    pub code: String,
    pub retryable: bool,
    /// Whether the request was authenticated with the launcher session (as
    /// opposed to the inference credential).
    pub session_auth: bool,
    pub message: String,
}

/// An error as the library sees it: either a request error, or any other
/// failure given by its chain of messages (outermost context first) and by
/// whether a network-level cause is in that chain.
#[derive(Debug, Clone)]
pub enum EnterpriseError {
    Request(EnterpriseRequestError),
    Failure { messages: Vec<String>, network: bool },
}

/// How the manager UI classifies a failure.
#[derive(Debug, Clone, PartialEq, Eq)]
pub struct EnterpriseFailure {
    pub code: String,
    pub retryable: bool,
}

/// Decimal digits of a number.
pub open spec fn decimal(n: nat) -> Seq<char>
    decreases n,
{
    if n < 10 {
        seq![digit_char(n)]
    } else {
        decimal(n / 10).push(digit_char(n % 10))
    }
}

pub open spec fn digit_char(d: nat) -> char {
    ((d + 48) as u32) as char
}

/// The display text of a request error.
pub open spec fn request_error_text(e: EnterpriseRequestError) -> Seq<char> {
    brand_name() + " request failed (HTTP "@ + decimal(e.status as nat) + ", code "@ + e.code@
        + "): "@ + e.message@
}

/// The outermost message of an error (what `to_string` shows).
pub open spec fn error_text(e: EnterpriseError) -> Seq<char> {
    match e {
        EnterpriseError::Request(r) => request_error_text(r),
        EnterpriseError::Failure { messages, network } => if messages@.len() > 0 {
            messages@[0]@
        } else {
            Seq::empty()
        },
    }
}

/// The messages of the error chain, outermost first.
pub open spec fn error_chain(e: EnterpriseError) -> Seq<Seq<char>> {
    match e {
        EnterpriseError::Request(r) => seq![request_error_text(r)],
        EnterpriseError::Failure { messages, network } => views_of_strings(messages@),
    }
}

pub open spec fn views_of_strings(v: Seq<String>) -> Seq<Seq<char>> {
    v.map_values(|s: String| s@)
}

/// A failure whose only message is `text`.
pub open spec fn is_plain_failure(e: EnterpriseError, text: Seq<char>) -> bool {
    e matches EnterpriseError::Failure { messages, network } && !network && messages@.len() == 1
        && messages@[0]@ == text
}

/// `r` is an error that reports `text` as its outermost message.
pub open spec fn fails_with<T>(r: Result<T, EnterpriseError>, text: Seq<char>) -> bool {
    r matches Err(e) && is_plain_failure(e, text)
}

/// Decimal digits of `n`.
pub fn decimal_u64(n: u64) -> (r: Vec<char>)
    ensures
        r@ == decimal(n as nat),
    decreases n,
{
    if n < 10 {
        let mut r = Vec::new();
        r.push(((n + 48) as u8) as char);
        r
    } else {
        let mut r = decimal_u64(n / 10);
        r.push(((n % 10 + 48) as u8) as char);
        r
    }
}

/// The decimal text of an integer, with a leading `-` when it is negative.
pub open spec fn int_text(n: int) -> Seq<char> {
    if n < 0 {
        seq!['-'] + decimal((-n) as nat)
    } else {
        decimal(n as nat)
    }
}

/// The decimal text of `n`.
pub fn int_text_exec(n: i64) -> (r: Vec<char>)
    ensures
        r@ == int_text(n as int),
{
    if n < 0 {
        let magnitude: u64 = (0i128 - n as i128) as u64;
        let mut r = Vec::new();
        r.push('-');
        let digits = decimal_u64(magnitude);
        crate::text::append_chars(&mut r, &digits);
        assert(r@ =~= seq!['-'] + digits@);
        r
    } else {
        decimal_u64(n as u64)
    }
}

impl EnterpriseError {
    /// A failure with a single message.
    pub fn message(text: &str) -> (e: Self)
        ensures
            is_plain_failure(e, text@),
    {
        let mut messages = Vec::new();
        messages.push(text.to_string());
        EnterpriseError::Failure { messages, network: false }
    }

    /// A failure to reach a server: the context `outer` around the transport
    /// error's text `cause`.
    pub fn network(outer: &str, cause: String) -> (e: Self)
        ensures
            e matches EnterpriseError::Failure { messages, network } && network
                && views_of_strings(messages@) == seq![outer@, cause@],
            error_text(e) == outer@,
    {
        let mut messages = Vec::new();
        messages.push(outer.to_string());
        messages.push(cause);
        assert(views_of_strings(messages@) =~= seq![outer@, cause@]);
        assert(messages@[0]@ == views_of_strings(messages@)[0]);
        EnterpriseError::Failure { messages, network: true }
    }

    /// A failure with the context `outer` around the cause `inner`.
    pub fn with_context(outer: &str, inner: String) -> (e: Self)
        ensures
            e matches EnterpriseError::Failure { messages, network } && !network
                && views_of_strings(messages@) == seq![outer@, inner@],
            error_text(e) == outer@,
    {
        let mut messages = Vec::new();
        messages.push(outer.to_string());
        messages.push(inner);
        assert(views_of_strings(messages@) =~= seq![outer@, inner@]);
        assert(messages@[0]@ == views_of_strings(messages@)[0]);
        let e = EnterpriseError::Failure { messages, network: false };
        e
    }
}

impl EnterpriseRequestError {
    /// The display text of a request error:
    /// `"{brand} request failed (HTTP {status}, code {code}): {message}"`.
    pub fn describe(&self) -> (s: String)
        ensures
            s@ == request_error_text(*self),
    {
        let mut v = chars_of("Azalea Plugin for Codex request failed (HTTP ");
        let digits = decimal_u64(self.status as u64);
        append_chars(&mut v, &digits);
        append_chars(&mut v, &chars_of(", code "));
        append_chars(&mut v, &chars_of(self.code.as_str()));
        append_chars(&mut v, &chars_of("): "));
        append_chars(&mut v, &chars_of(self.message.as_str()));
        proof {
            reveal_strlit("Azalea Plugin for Codex request failed (HTTP ");
            reveal_strlit("Azalea Plugin for Codex");
            reveal_strlit(" request failed (HTTP ");
            assert("Azalea Plugin for Codex request failed (HTTP "@ =~= brand_name()
                + " request failed (HTTP "@);
        }
        string_of(&v)
    }
}

/// The whole chain of an error, joined by `": "` (what `{:#}` shows).
pub open spec fn alternate_text(e: EnterpriseError) -> Seq<char> {
    crate::text::join(error_chain(e), ": "@)
}

impl EnterpriseError {
    /// The whole chain of the error, outermost first, joined by `": "`.
    pub fn describe_chain(&self) -> (s: String)
        ensures
            s@ == alternate_text(*self),
    {
        let mut parts: Vec<Vec<char>> = Vec::new();
        match self {
            EnterpriseError::Request(r) => {
                parts.push(chars_of(r.describe().as_str()));
                assert(crate::text::views(parts@) =~= error_chain(*self));
            },
            EnterpriseError::Failure { messages, .. } => {
                let mut i: usize = 0;
                while i < messages.len()
                    invariant
                        i <= messages@.len(),
                        crate::text::views(parts@) == views_of_strings(messages@).take(i as int),
                    decreases messages@.len() - i,
                {
                    let ghost before = crate::text::views(parts@);
                    parts.push(chars_of(messages[i].as_str()));
                    assert(crate::text::views(parts@) =~= before.push(messages@[i as int]@));
                    assert(views_of_strings(messages@).take(i + 1) =~= views_of_strings(
                        messages@,
                    ).take(i as int).push(messages@[i as int]@));
                    i += 1;
                }
                assert(views_of_strings(messages@).take(messages@.len() as int) =~= views_of_strings(
                    messages@,
                ));
            },
        }
        string_of(&crate::text::join_exec(&parts, &chars_of(": ")))
    }
}

/// The failure reported when a launcher answer does not have the expected
/// shape; `detail` is the decoder's message.
pub fn invalid_response_error(endpoint: &str, detail: &str) -> (e: EnterpriseError)
    ensures
        is_plain_failure(
            e,
            brand_name() + " returned an invalid response for "@ + endpoint@ + ": "@ + detail@,
        ),
{
    let mut m = chars_of("Azalea Plugin for Codex returned an invalid response for ");
    append_chars(&mut m, &chars_of(endpoint));
    append_chars(&mut m, &chars_of(": "));
    append_chars(&mut m, &chars_of(detail));
    proof {
        reveal_strlit("Azalea Plugin for Codex returned an invalid response for ");
        reveal_strlit("Azalea Plugin for Codex");
        reveal_strlit(" returned an invalid response for ");
        assert("Azalea Plugin for Codex returned an invalid response for "@ =~= brand_name()
            + " returned an invalid response for "@);
    }
    EnterpriseError::message(string_of(&m).as_str())
}

/// Whether a failure means that the launcher session is no longer accepted.
pub open spec fn spec_is_unauthorized(e: EnterpriseError) -> bool {
    match e {
        EnterpriseError::Request(r) => r.session_auth && (r.status == 401 || r.code@
            == "unauthorized"@ || r.code@ == "reauthentication_required"@),
        EnterpriseError::Failure { .. } => {
            let m = error_text(e);
            contains(m, "HTTP 401"@) || contains(m, "code unauthorized"@) || contains(
                m,
                "code reauthentication_required"@,
            )
        },
    }
}

fn str_eq(a: &str, b: &str) -> (r: bool)
    ensures
        r == (a@ == b@),
{
    chars_eq(&chars_of(a), &chars_of(b))
}

fn text_contains(s: &[char], p: &str) -> (r: bool)
    ensures
        r == contains(s@, p@),
{
    contains_exec(s, &chars_of(p))
}

/// Whether the session must be renewed: a launcher request answered 401 or
/// with an `unauthorized` / `reauthentication_required` code; for any other
/// failure, whether its message names one of these.
pub fn is_unauthorized(error: &EnterpriseError) -> (r: bool)
    ensures
        r == spec_is_unauthorized(*error),
{
    match error {
        EnterpriseError::Request(r) => r.session_auth && (r.status == 401 || str_eq(
            r.code.as_str(),
            "unauthorized",
        ) || str_eq(r.code.as_str(), "reauthentication_required")),
        EnterpriseError::Failure { messages, .. } => {
            let m = if messages.len() > 0 {
                chars_of(messages[0].as_str())
            } else {
                Vec::new()
            };
            proof {
                assert(m@ == error_text(*error));
            }
            text_contains(&m, "HTTP 401") || text_contains(&m, "code unauthorized")
                || text_contains(&m, "code reauthentication_required")
        },
    }
}

/// A message that names the managed configuration.
pub open spec fn names_configuration(m: Seq<char>) -> bool {
    contains(m, "Enterprise configuration"@) || contains(m, "enterprise Codex configuration"@)
        || contains(m, "config.toml"@)
}

/// Some message of the chain names the managed configuration.
pub open spec fn chain_names_configuration(chain: Seq<Seq<char>>) -> bool {
    exists|i: int| 0 <= i < chain.len() && names_configuration(#[trigger] chain[i])
}

/// The failure code and retryability reported for an error.
pub open spec fn failure_of(e: EnterpriseError) -> (Seq<char>, bool) {
    match e {
        EnterpriseError::Request(r) => (r.code@, r.retryable),
        EnterpriseError::Failure { messages, network } => if network {
            ("network_unavailable"@, true)
        } else if chain_names_configuration(views_of_strings(messages@)) {
            ("enterprise_configuration_repair_failed"@, true)
        } else {
            ("client_error"@, false)
        },
    }
}

/// Classifies an error for the manager UI: a request error keeps its code and
/// retryability; a network failure is `network_unavailable` (retryable); a
/// failure that names the enterprise configuration is
/// `enterprise_configuration_repair_failed` (retryable); anything else is
/// `client_error` (not retryable).
pub fn enterprise_failure(error: &EnterpriseError) -> (f: EnterpriseFailure)
    ensures
        (f.code@, f.retryable) == failure_of(*error),
{
    match error {
        EnterpriseError::Request(r) => EnterpriseFailure {
            code: r.code.clone(),
            retryable: r.retryable,
        },
        EnterpriseError::Failure { messages, network } => {
            if *network {
                return EnterpriseFailure { code: "network_unavailable".to_string(), retryable: true };
            }
            let mut i: usize = 0;
            while i < messages.len()
                invariant
                    i <= messages@.len(),
                    !*network,
                    *error == (EnterpriseError::Failure { messages: *messages, network: *network }),
                    forall|k: int| 0 <= k < i ==> !names_configuration(#[trigger] messages@[k]@),
                decreases messages@.len() - i,
            {
                let m = chars_of(messages[i].as_str());
                if text_contains(&m, "Enterprise configuration") || text_contains(
                    &m,
                    "enterprise Codex configuration",
                ) || text_contains(&m, "config.toml") {
                    assert(names_configuration(messages@[i as int]@));
                    assert(views_of_strings(messages@)[i as int] == messages@[i as int]@);
                    let code = "enterprise_configuration_repair_failed".to_string();
                    assert(code@ == "enterprise_configuration_repair_failed"@);
                    return EnterpriseFailure {
                        code,
                        retryable: true,
                    };
                }
                i += 1;
            }
            assert(!chain_names_configuration(views_of_strings(messages@))) by {
                assert forall|k: int| 0 <= k < messages@.len() implies !names_configuration(
                    #[trigger] views_of_strings(messages@)[k],
                ) by {
                    assert(views_of_strings(messages@)[k] == messages@[k]@);
                }
            }
            EnterpriseFailure { code: "client_error".to_string(), retryable: false }
        },
    }
}


/// Every network failure is reported as `network_unavailable` and may be
/// retried.
pub proof fn law_network_failures_are_retryable(error: &EnterpriseError, f: EnterpriseFailure)
    requires
        call_ensures(enterprise_failure, (error,), f),
        *error matches EnterpriseError::Failure { network, .. } && network,
    ensures
        f.code@ == "network_unavailable"@,
        f.retryable,
{
}

/// A failure built by [`EnterpriseError::network`] (the launcher or the
/// gateway cannot be reached) is classified as `network_unavailable`,
/// retryable.
pub proof fn law_unreachable_launcher_is_network_unavailable(
    outer: &str,
    cause: String,
    error: EnterpriseError,
    f: EnterpriseFailure,
)
    requires
        call_ensures(EnterpriseError::network, (outer, cause), error),
        call_ensures(enterprise_failure, (&error,), f),
    ensures
        f.code@ == "network_unavailable"@,
        f.retryable,
{
}

/// A request error keeps the code and retryability the launcher gave it; a
/// failure that is neither a request error nor a network failure is never
/// reported as `network_unavailable`.
pub proof fn law_only_network_failures_are_network_unavailable(
    error: &EnterpriseError,
    f: EnterpriseFailure,
)
    requires
        call_ensures(enterprise_failure, (error,), f),
    ensures
        *error matches EnterpriseError::Request(r) ==> f.code@ == r.code@ && f.retryable
            == r.retryable,
        *error matches EnterpriseError::Failure { network, .. } && !network ==> f.code@
            != "network_unavailable"@,
{
    reveal_strlit("network_unavailable");
    reveal_strlit("enterprise_configuration_repair_failed");
    reveal_strlit("client_error");
    assert("network_unavailable"@.len() != "enterprise_configuration_repair_failed"@.len());
    assert("network_unavailable"@.len() != "client_error"@.len());
}

} // verus!
