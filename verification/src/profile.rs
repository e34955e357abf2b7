//! The provisioned Codex profile and the policy applied to it: which gateways
//! are accepted, where the model list lives, and which identity and default
//! model the managed provider shows.
use vstd::prelude::*;
use crate::error::{brand_name, error_text, is_plain_failure, EnterpriseError};
use crate::outside::{parse_url, url_components};
use crate::text::{
    append_chars, ascii_lower_seq, chars_eq, chars_of, ends_with, ends_with_exec, string_of,
    to_ascii_lowercase_chars, trim, trim_chars, trim_end_char, trim_end_char_chars,
};

verus! {

broadcast use vstd::string::group_string_axioms;

/// Identifier of the managed model provider.
pub open spec fn provider_id() -> Seq<char> {
    "company-ai"@
}

/// The authenticated account, as far as the profile policy reads it.
#[derive(Debug, Clone)]
pub struct EnterpriseUser {
    pub id: String,
    pub display_name: String,
}

/// The inference key of an account as the launcher reports it.
#[derive(Debug, Clone)]
pub struct EnterpriseKeyInfo {
    pub alias: String,
    pub expires_at: Option<String>,
    pub rpm: u64,
    pub tpm: u64,
    pub models: Vec<String>,
}

/// The Codex profile that the launcher provisions for an account.
#[derive(Debug, Clone)]
pub struct EnterpriseProfile {
    pub gateway_url: String,
    pub provider_id: String,
    pub default_model: String,
    pub allowed_models: Vec<String>,
    pub wire_api: String,
    pub display_name: String,
    pub user_id: Option<String>,
    pub group_id: Option<i64>,
    pub group_name: Option<String>,
}

pub open spec fn string_views(v: Seq<String>) -> Seq<Seq<char>> {
    v.map_values(|s: String| s@)
}

/// The outermost message with which a profile is refused, or `None` when the
/// profile is accepted. `allow_development` holds when a development launcher
/// URL is configured, which lifts the HTTPS requirement.
pub open spec fn profile_refusal(p: EnterpriseProfile, allow_development: bool) -> Option<
    Seq<char>,
> {
    if !(p.provider_id@ == provider_id() && p.wire_api@ == "responses"@) {
        Some(brand_name() + " returned an unsupported provider policy"@)
    } else {
        match url_components(p.gateway_url@) {
            None => Some(brand_name() + " gateway URL is invalid"@),
            Some((scheme, username, password, query, fragment)) => if scheme != "https"@
                && !allow_development {
                Some(brand_name() + " gateway must use HTTPS"@)
            } else if username.len() != 0 || password || query || fragment {
                Some(brand_name() + " gateway URL contains unsupported components"@)
            } else {
                None
            },
        }
    }
}

fn str_is(a: &str, b: &str) -> (r: bool)
    ensures
        r == (a@ == b@),
{
    chars_eq(&chars_of(a), &chars_of(b))
}

fn branded(suffix: &str) -> (s: String)
    ensures
        s@ == brand_name() + suffix@,
{
    let mut v = chars_of("Azalea Plugin for Codex");
    append_chars(&mut v, &chars_of(suffix));
    proof {
        reveal_strlit("Azalea Plugin for Codex");
    }
    string_of(&v)
}

/// Accepts a profile only for the `company-ai` provider speaking the Responses
/// API, with an absolute gateway URL that uses HTTPS (unless a development
/// launcher is configured) and has no user name, password, query or fragment.
pub fn validate_profile(profile: &EnterpriseProfile, allow_development: bool) -> (r: Result<
    (),
    EnterpriseError,
>)
    ensures
        match profile_refusal(*profile, allow_development) {
            None => r is Ok,
            Some(m) => r matches Err(e) && error_text(e) == m,
        },
        r matches Err(e) ==> (url_components(profile.gateway_url@) is Some || !(profile.provider_id@
            == provider_id() && profile.wire_api@ == "responses"@)) ==> is_plain_failure(
            e,
            error_text(e),
        ),
{
    if !(str_is(profile.provider_id.as_str(), "company-ai") && str_is(
        profile.wire_api.as_str(),
        "responses",
    )) {
        let m = branded(" returned an unsupported provider policy");
        return Err(EnterpriseError::message(m.as_str()));
    }
    let gateway = match parse_url(profile.gateway_url.as_str()) {
        Ok(parts) => parts,
        Err(cause) => {
            let m = branded(" gateway URL is invalid");
            return Err(EnterpriseError::with_context(m.as_str(), cause));
        },
    };
    if !str_is(gateway.scheme.as_str(), "https") && !allow_development {
        let m = branded(" gateway must use HTTPS");
        return Err(EnterpriseError::message(m.as_str()));
    }
    if !gateway.username.as_str().is_empty() || gateway.has_password || gateway.has_query
        || gateway.has_fragment {
        let m = branded(" gateway URL contains unsupported components");
        return Err(EnterpriseError::message(m.as_str()));
    }
    Ok(())
}

/// The index just after the last `'/'` in `s`, or 0 when there is none.
pub open spec fn last_segment_start(s: Seq<char>) -> int
    decreases s.len(),
{
    if s.len() == 0 {
        0
    } else if s.last() == '/' {
        s.len() as int
    } else {
        last_segment_start(s.drop_last())
    }
}

/// `s.rsplit('/').next()`: the text after the last `'/'`.
pub open spec fn last_segment(s: Seq<char>) -> Seq<char> {
    s.skip(last_segment_start(s))
}

pub proof fn lemma_last_segment_start(s: Seq<char>)
    ensures
        0 <= last_segment_start(s) <= s.len(),
    decreases s.len(),
{
    if s.len() > 0 && s.last() != '/' {
        lemma_last_segment_start(s.drop_last());
    }
}

/// The model list URL of a gateway: the gateway itself when it already ends in
/// `/models`, `{gateway}/models` when its last segment is `v1`, and
/// `{gateway}/v1/models` otherwise (trailing slashes removed first, case of
/// `models` and `v1` ignored).
pub open spec fn spec_models_url(gateway: Seq<char>) -> Seq<char> {
    let base = trim_end_char(gateway, '/');
    if ends_with(ascii_lower_seq(base), "/models"@) {
        base
    } else if ascii_lower_seq(last_segment(base)) == "v1"@ {
        base + "/models"@
    } else {
        base + "/v1/models"@
    }
}

pub fn models_url(gateway_url: &str) -> (r: String)
    ensures
        r@ == spec_models_url(gateway_url@),
{
    let base = trim_end_char_chars(&chars_of(gateway_url), '/');
    let lower = to_ascii_lowercase_chars(&base);
    if ends_with_exec(&lower, &chars_of("/models")) {
        return string_of(&base);
    }
    let mut start: usize = base.len();
    assert(base@.take(base@.len() as int) =~= base@);
    while start > 0 && base[start - 1] != '/'
        invariant
            start <= base@.len(),
            last_segment_start(base@) == last_segment_start(base@.take(start as int)),
        decreases start,
    {
        assert(base@.take(start as int).drop_last() =~= base@.take(start - 1));
        start -= 1;
    }
    proof {
        assert(base@.take(base@.len() as int) =~= base@);
        if start > 0 {
            assert(base@.take(start as int).last() == base@[start - 1]);
        }
    }
    let mut segment: Vec<char> = Vec::new();
    let mut k = start;
    while k < base.len()
        invariant
            start <= k <= base@.len(),
            segment@ == base@.subrange(start as int, k as int),
        decreases base@.len() - k,
    {
        segment.push(base[k]);
        assert(base@.subrange(start as int, k as int).push(base@[k as int]) =~= base@.subrange(
            start as int,
            k + 1,
        ));
        k += 1;
    }
    assert(segment@ =~= last_segment(base@));
    let mut out = base.clone();
    if chars_eq(&to_ascii_lowercase_chars(&segment), &chars_of("v1")) {
        append_chars(&mut out, &chars_of("/models"));
    } else {
        append_chars(&mut out, &chars_of("/v1/models"));
    }
    string_of(&out)
}

/// The profile after the account's identity is applied: the trimmed user id
/// (when not empty) becomes `user_id`, and the trimmed display name, or else the
/// trimmed user id, becomes the provider's display name.
pub open spec fn identity_applied(
    before: EnterpriseProfile,
    after: EnterpriseProfile,
    user: EnterpriseUser,
) -> bool {
    &&& same_endpoint(before, after)
    &&& after.default_model == before.default_model
    &&& after.allowed_models == before.allowed_models
    &&& identity_fields(before, after, user)
}

/// Gateway, provider, protocol and group are unchanged.
pub open spec fn same_endpoint(before: EnterpriseProfile, after: EnterpriseProfile) -> bool {
    &&& after.gateway_url == before.gateway_url
    &&& after.provider_id == before.provider_id
    &&& after.wire_api == before.wire_api
    &&& after.group_id == before.group_id
    &&& after.group_name == before.group_name
}

/// `user_id` and `display_name` of `after` are those the identity rule gives.
pub open spec fn identity_fields(
    before: EnterpriseProfile,
    after: EnterpriseProfile,
    user: EnterpriseUser,
) -> bool {
    let id = trim(user.id@);
    let name = trim(user.display_name@);
    &&& if id.len() > 0 {
        after.user_id matches Some(u) && u@ == id
    } else {
        after.user_id == before.user_id
    }
    &&& if name.len() > 0 {
        after.display_name@ == name
    } else if id.len() > 0 {
        after.display_name@ == id
    } else {
        after.display_name == before.display_name
    }
}

/// Applies the account's identity to the profile (see [`identity_applied`]).
pub fn apply_user_identity(profile: &mut EnterpriseProfile, user: &EnterpriseUser)
    ensures
        identity_applied(*old(profile), *final(profile), *user),
{
    let user_id = trim_chars(&chars_of(user.id.as_str()));
    if user_id.len() != 0 {
        profile.user_id = Some(string_of(&user_id));
    }
    let display_name = trim_chars(&chars_of(user.display_name.as_str()));
    if display_name.len() != 0 {
        profile.display_name = string_of(&display_name);
    } else if user_id.len() != 0 {
        profile.display_name = string_of(&user_id);
    }
}


/// Locally stored model preferences, keyed by user id.
#[derive(Debug, Clone)]
pub struct EnterprisePreferences {
    pub schema_version: u32,
    pub default_model_by_user_id: Vec<(String, String)>,
}

/// The schema version of stored preferences.
pub fn preference_schema_version() -> (v: u32)
    ensures
        v == 1,
{
    1
}

/// The value stored for `k`: the first entry with that key.
pub open spec fn pref_lookup(s: Seq<(String, String)>, k: Seq<char>) -> Option<Seq<char>>
    decreases s.len(),
{
    if s.len() == 0 {
        None
    } else if s[0].0@ == k {
        Some(s[0].1@)
    } else {
        pref_lookup(s.drop_first(), k)
    }
}

pub open spec fn keys_unique(s: Seq<(String, String)>) -> bool {
    forall|i: int, j: int| 0 <= i < j < s.len() ==> s[i].0@ != s[j].0@
}

/// The entries as a map from user id to model.
pub open spec fn pref_map(s: Seq<(String, String)>) -> Map<Seq<char>, Seq<char>> {
    Map::new(|k: Seq<char>| pref_lookup(s, k) is Some, |k: Seq<char>| pref_lookup(s, k).unwrap())
}

pub proof fn lemma_pref_lookup(s: Seq<(String, String)>, k: Seq<char>)
    ensures
        (forall|i: int| 0 <= i < s.len() ==> s[i].0@ != k) ==> pref_lookup(s, k) is None,
        forall|i: int|
            0 <= i < s.len() && s[i].0@ == k && (forall|j: int| 0 <= j < i ==> s[j].0@ != k)
                ==> pref_lookup(s, k) == Some(s[i].1@),
    decreases s.len(),
{
    if s.len() > 0 {
        lemma_pref_lookup(s.drop_first(), k);
        assert forall|i: int|
            0 <= i < s.len() && s[i].0@ == k && (forall|j: int| 0 <= j < i ==> s[j].0@ != k)
                implies pref_lookup(s, k) == Some(s[i].1@) by {
            if i > 0 {
                assert(s[0].0@ != k);
                assert forall|j: int| 0 <= j < i - 1 implies s.drop_first()[j].0@ != k by {
                    assert(s.drop_first()[j] == s[j + 1]);
                }
                assert(s.drop_first()[i - 1] == s[i]);
            }
        }
        if forall|i: int| 0 <= i < s.len() ==> s[i].0@ != k {
            assert forall|i: int| 0 <= i < s.drop_first().len() implies s.drop_first()[i].0@ != k by {
                assert(s.drop_first()[i] == s[i + 1]);
            }
        }
    }
}

/// With unique keys: the value of `k` is the one at the index where `k` is.
pub proof fn lemma_pref_map_unique(s: Seq<(String, String)>)
    requires
        keys_unique(s),
    ensures
        forall|i: int| 0 <= i < s.len() ==> #[trigger] pref_lookup(s, s[i].0@) == Some(s[i].1@),
        forall|k: Seq<char>| (forall|i: int| 0 <= i < s.len() ==> s[i].0@ != k) ==> #[trigger] pref_lookup(s, k) is None,
{
    assert forall|i: int| 0 <= i < s.len() implies #[trigger] pref_lookup(s, s[i].0@) == Some(s[i].1@) by {
        lemma_pref_lookup(s, s[i].0@);
    }
    assert forall|k: Seq<char>| (forall|i: int| 0 <= i < s.len() ==> s[i].0@ != k) implies #[trigger] pref_lookup(s, k) is None by {
        lemma_pref_lookup(s, k);
    }
}

/// The models of stored entries, a later entry for a user id replacing an earlier one.
pub open spec fn stored_models(entries: Seq<(String, String)>) -> Map<Seq<char>, Seq<char>>
    decreases entries.len(),
{
    if entries.len() == 0 {
        Map::empty()
    } else {
        stored_models(entries.drop_last()).insert(entries.last().0@, entries.last().1@)
    }
}

impl EnterprisePreferences {
    /// The model chosen by each user id.
    pub open spec fn models(&self) -> Map<Seq<char>, Seq<char>> {
        pref_map(self.default_model_by_user_id@)
    }

    /// No user id is stored twice.
    pub open spec fn wf(&self) -> bool {
        keys_unique(self.default_model_by_user_id@)
    }

    /// Preferences read from storage: refused unless their schema version is
    /// the current one; the entries are stored in order, a later entry for a
    /// user id replacing an earlier one.
    pub fn from_stored(schema_version: u32, entries: Vec<(String, String)>) -> (r: Result<
        Self,
        EnterpriseError,
    >)
        ensures
            schema_version != 1 ==> (r matches Err(e) && is_plain_failure(
                e,
                "Unsupported enterprise preference schema version"@,
            )),
            schema_version == 1 ==> (r matches Ok(p) && p.wf() && p.schema_version == 1
                && p.models() == stored_models(entries@)),
    {
        if schema_version != preference_schema_version() {
            return Err(EnterpriseError::message("Unsupported enterprise preference schema version"));
        }
        let mut p = EnterprisePreferences::new();
        let mut i: usize = 0;
        while i < entries.len()
            invariant
                i <= entries@.len(),
                p.wf(),
                p.schema_version == 1,
                p.models() == stored_models(entries@.take(i as int)),
            decreases entries@.len() - i,
        {
            assert(entries@.take(i + 1).drop_last() =~= entries@.take(i as int));
            assert(entries@.take(i + 1).last() == entries@[i as int]);
            p.insert(entries[i].0.as_str(), entries[i].1.as_str());
            i += 1;
        }
        assert(entries@.take(entries@.len() as int) =~= entries@);
        Ok(p)
    }

    /// Preferences with the current schema and no stored model.
    pub fn new() -> (p: Self)
        ensures
            p.wf(),
            p.schema_version == 1,
            p.models() == Map::<Seq<char>, Seq<char>>::empty(),
    {
        let p = EnterprisePreferences {
            schema_version: preference_schema_version(),
            default_model_by_user_id: Vec::new(),
        };
        assert(p.models() =~= Map::<Seq<char>, Seq<char>>::empty());
        p
    }

    fn index_of(&self, user_id: &str) -> (r: Option<usize>)
        ensures
            r matches Some(i) ==> i < self.default_model_by_user_id@.len()
                && self.default_model_by_user_id@[i as int].0@ == user_id@,
            r is None ==> forall|i: int|
                0 <= i < self.default_model_by_user_id@.len()
                    ==> self.default_model_by_user_id@[i].0@ != user_id@,
    {
        let mut i: usize = 0;
        while i < self.default_model_by_user_id.len()
            invariant
                i <= self.default_model_by_user_id@.len(),
                forall|j: int| 0 <= j < i ==> self.default_model_by_user_id@[j].0@ != user_id@,
            decreases self.default_model_by_user_id@.len() - i,
        {
            if str_is(self.default_model_by_user_id[i].0.as_str(), user_id) {
                return Some(i);
            }
            i += 1;
        }
        None
    }

    /// The model stored for `user_id`.
    pub fn get(&self, user_id: &str) -> (r: Option<String>)
        requires
            self.wf(),
        ensures
            r is Some <==> self.models().contains_key(user_id@),
            r matches Some(m) ==> m@ == self.models()[user_id@],
    {
        proof {
            lemma_pref_map_unique(self.default_model_by_user_id@);
        }
        match self.index_of(user_id) {
            Some(i) => Some(self.default_model_by_user_id[i].1.clone()),
            None => None,
        }
    }

    /// Stores `model` for `user_id`; returns the model stored before, if any.
    pub fn insert(&mut self, user_id: &str, model: &str) -> (previous: Option<String>)
        requires
            old(self).wf(),
        ensures
            final(self).wf(),
            final(self).schema_version == old(self).schema_version,
            final(self).models() == old(self).models().insert(user_id@, model@),
            previous is Some <==> old(self).models().contains_key(user_id@),
            previous matches Some(m) ==> m@ == old(self).models()[user_id@],
    {
        let ghost s0 = self.default_model_by_user_id@;
        proof {
            lemma_pref_map_unique(s0);
        }
        let entry = (user_id.to_string(), model.to_string());
        match self.index_of(user_id) {
            Some(i) => {
                let previous = self.default_model_by_user_id[i].1.clone();
                self.default_model_by_user_id.set(i, entry);
                let ghost s1 = self.default_model_by_user_id@;
                assert(keys_unique(s1)) by {
                    assert forall|a: int, b: int| 0 <= a < b < s1.len() implies s1[a].0@ != s1[b].0@ by {
                        assert(s1[a].0@ == s0[a].0@);
                        assert(s1[b].0@ == s0[b].0@);
                    }
                }
                proof {
                    lemma_pref_map_unique(s1);
                    assert forall|k: Seq<char>| #[trigger] pref_lookup(s1, k) == (if k == user_id@ {
                        Some(model@)
                    } else {
                        pref_lookup(s0, k)
                    }) by {
                        if k == user_id@ {
                            assert(pref_lookup(s1, s1[i as int].0@) == Some(s1[i as int].1@));
                        } else if exists|j: int| 0 <= j < s0.len() && s0[j].0@ == k {
                            let j = choose|j: int| 0 <= j < s0.len() && s0[j].0@ == k;
                            assert(pref_lookup(s0, s0[j].0@) == Some(s0[j].1@));
                            assert(s1[j] == s0[j]);
                            assert(pref_lookup(s1, s1[j].0@) == Some(s1[j].1@));
                        } else {
                            assert(pref_lookup(s0, k) is None);
                            assert forall|j: int| 0 <= j < s1.len() implies s1[j].0@ != k by {
                                if j != i {
                                    assert(s1[j] == s0[j]);
                                }
                            }
                            assert(pref_lookup(s1, k) is None);
                        }
                    }
                    assert(pref_map(s1) =~= pref_map(s0).insert(user_id@, model@));
                    assert(pref_lookup(s0, s0[i as int].0@) == Some(s0[i as int].1@));
                }
                Some(previous)
            },
            None => {
                self.default_model_by_user_id.push(entry);
                let ghost s1 = self.default_model_by_user_id@;
                assert(keys_unique(s1)) by {
                    assert forall|a: int, b: int| 0 <= a < b < s1.len() implies s1[a].0@ != s1[b].0@ by {
                        if b < s0.len() {
                            assert(s1[a] == s0[a]);
                            assert(s1[b] == s0[b]);
                        } else {
                            assert(s1[a] == s0[a]);
                        }
                    }
                }
                proof {
                    lemma_pref_map_unique(s1);
                    assert forall|k: Seq<char>| #[trigger] pref_lookup(s1, k) == (if k == user_id@ {
                        Some(model@)
                    } else {
                        pref_lookup(s0, k)
                    }) by {
                        let last = s0.len() as int;
                        if k == user_id@ {
                            assert(s1[last].0@ == k);
                            assert(pref_lookup(s1, s1[last].0@) == Some(s1[last].1@));
                        } else if exists|j: int| 0 <= j < s0.len() && s0[j].0@ == k {
                            let j = choose|j: int| 0 <= j < s0.len() && s0[j].0@ == k;
                            assert(pref_lookup(s0, s0[j].0@) == Some(s0[j].1@));
                            assert(s1[j] == s0[j]);
                            assert(pref_lookup(s1, s1[j].0@) == Some(s1[j].1@));
                        } else {
                            assert(pref_lookup(s0, k) is None);
                            assert forall|j: int| 0 <= j < s1.len() implies s1[j].0@ != k by {
                                if j < last {
                                    assert(s1[j] == s0[j]);
                                }
                            }
                            assert(pref_lookup(s1, k) is None);
                        }
                    }
                    assert(pref_map(s1) =~= pref_map(s0).insert(user_id@, model@));
                    assert(pref_lookup(s0, user_id@) is None);
                }
                None
            },
        }
    }

    /// Removes the model stored for `user_id`.
    pub fn remove(&mut self, user_id: &str)
        requires
            old(self).wf(),
        ensures
            final(self).wf(),
            final(self).schema_version == old(self).schema_version,
            final(self).models() == old(self).models().remove(user_id@),
    {
        let ghost s0 = self.default_model_by_user_id@;
        proof {
            lemma_pref_map_unique(s0);
        }
        match self.index_of(user_id) {
            Some(i) => {
                self.default_model_by_user_id.remove(i);
                let ghost s1 = self.default_model_by_user_id@;
                assert forall|j: int| 0 <= j < s1.len() implies s1[j] == (if j < i { s0[j] } else { s0[j + 1] }) by {}
                assert(keys_unique(s1)) by {
                    assert forall|a: int, b: int| 0 <= a < b < s1.len() implies s1[a].0@ != s1[b].0@ by {
                        let a0 = if a < i { a } else { a + 1 };
                        let b0 = if b < i { b } else { b + 1 };
                        assert(s1[a] == s0[a0]);
                        assert(s1[b] == s0[b0]);
                    }
                }
                proof {
                    lemma_pref_map_unique(s1);
                    assert forall|k: Seq<char>| #[trigger] pref_lookup(s1, k) == (if k == user_id@ {
                        None
                    } else {
                        pref_lookup(s0, k)
                    }) by {
                        if k == user_id@ {
                            assert forall|j: int| 0 <= j < s1.len() implies s1[j].0@ != k by {
                                let j0 = if j < i { j } else { j + 1 };
                                assert(s1[j] == s0[j0]);
                            }
                            assert(pref_lookup(s1, k) is None);
                        } else if exists|j: int| 0 <= j < s0.len() && s0[j].0@ == k {
                            let j = choose|j: int| 0 <= j < s0.len() && s0[j].0@ == k;
                            assert(j != i);
                            assert(pref_lookup(s0, s0[j].0@) == Some(s0[j].1@));
                            let j1 = if j < i { j } else { j - 1 };
                            assert(s1[j1] == s0[j]);
                            assert(pref_lookup(s1, s1[j1].0@) == Some(s1[j1].1@));
                        } else {
                            assert(pref_lookup(s0, k) is None);
                            assert forall|j: int| 0 <= j < s1.len() implies s1[j].0@ != k by {
                                let j0 = if j < i { j } else { j + 1 };
                                assert(s1[j] == s0[j0]);
                            }
                            assert(pref_lookup(s1, k) is None);
                        }
                    }
                    assert(pref_map(s1) =~= pref_map(s0).remove(user_id@));
                }
            },
            None => {
                proof {
                    assert(pref_lookup(s0, user_id@) is None);
                    assert(pref_map(s0) =~= pref_map(s0).remove(user_id@));
                }
            },
        }
    }
}

/// Whether `v` holds a string equal to `x`.
pub fn strings_contain(v: &Vec<String>, x: &str) -> (r: bool)
    ensures
        r == string_views(v@).contains(x@),
{
    let mut i: usize = 0;
    while i < v.len()
        invariant
            i <= v@.len(),
            forall|j: int| 0 <= j < i ==> v@[j]@ != x@,
        decreases v@.len() - i,
    {
        if str_is(v[i].as_str(), x) {
            assert(string_views(v@)[i as int] == x@);
            return true;
        }
        i += 1;
    }
    assert forall|j: int| 0 <= j < string_views(v@).len() implies string_views(v@)[j] != x@ by {
        assert(string_views(v@)[j] == v@[j]@);
    }
    false
}

/// The default model a profile gets for the account's model list: the user's
/// stored preference when the account still offers it, else the launcher's
/// default when offered, else the first offered model; `None` when no model is
/// offered.
pub open spec fn chosen_default_model(
    profile_default: Seq<char>,
    models: Seq<Seq<char>>,
    user_id: Seq<char>,
    preferences: Map<Seq<char>, Seq<char>>,
) -> Option<Seq<char>> {
    let id = trim(user_id);
    if preferences.contains_key(id) && models.contains(preferences[id]) {
        Some(preferences[id])
    } else if models.contains(profile_default) {
        Some(profile_default)
    } else if models.len() > 0 {
        Some(models[0])
    } else {
        None
    }
}

/// Replaces the profile's model policy by the models the account is offered,
/// picks its default model (see [`chosen_default_model`]) and applies the
/// account's identity; refuses an empty model list.
pub fn apply_user_models(
    profile: &mut EnterpriseProfile,
    models: Vec<String>,
    user: &EnterpriseUser,
    preferences: &EnterprisePreferences,
) -> (r: Result<(), EnterpriseError>)
    requires
        preferences.wf(),
    ensures
        match chosen_default_model(
            old(profile).default_model@,
            string_views(models@),
            user.id@,
            preferences.models(),
        ) {
            None => *final(profile) == *old(profile) && (r matches Err(e) && is_plain_failure(
                e,
                "This Sub2API account currently has no available models"@,
            )),
            Some(d) => r is Ok && final(profile).default_model@ == d && final(profile).allowed_models
                == models && same_endpoint(*old(profile), *final(profile)) && identity_fields(
                *old(profile),
                *final(profile),
                *user,
            ),
        },
{
    let id = trim_chars(&chars_of(user.id.as_str()));
    let id_text = string_of(&id);
    let preferred = match preferences.get(id_text.as_str()) {
        Some(m) => if strings_contain(&models, m.as_str()) {
            Some(m)
        } else {
            None
        },
        None => None,
    };
    let default_model = match preferred {
        Some(m) => m,
        None => {
            if strings_contain(&models, profile.default_model.as_str()) {
                profile.default_model.clone()
            } else if models.len() > 0 {
                assert(string_views(models@)[0] == models@[0]@);
                models[0].clone()
            } else {
                return Err(
                    EnterpriseError::message(
                        "This Sub2API account currently has no available models",
                    ),
                );
            }
        },
    };
    profile.default_model = default_model;
    profile.allowed_models = models;
    apply_user_identity(profile, user);
    Ok(())
}


/// The model an item of the gateway's model list names: its `id`, trimmed,
/// when it is a non-empty string.
pub open spec fn item_model(item: crate::json::Json) -> Option<Seq<char>> {
    match crate::json::json_str(crate::json::json_get(item, "id"@)) {
        Some(s) => if trim(s).len() > 0 {
            Some(trim(s))
        } else {
            None
        },
        None => None,
    }
}

/// The models named by the items, in order of first appearance, each once.
pub open spec fn collect_models(items: Seq<crate::json::Json>) -> Seq<Seq<char>>
    decreases items.len(),
{
    if items.len() == 0 {
        seq![]
    } else {
        let prev = collect_models(items.drop_last());
        match item_model(items.last()) {
            Some(m) => if prev.contains(m) {
                prev
            } else {
                prev.push(m)
            },
            None => prev,
        }
    }
}

/// What the model list endpoint's answer gives: the models of its `data`
/// array (see [`collect_models`]); refused when `data` is not an array or
/// names no model.
pub open spec fn models_of_list(value: crate::json::Json) -> Option<Seq<Seq<char>>> {
    match crate::json::json_array(crate::json::json_get(value, "data"@)) {
        Some(items) => if collect_models(items).len() > 0 {
            Some(collect_models(items))
        } else {
            None
        },
        None => None,
    }
}

/// The models that the gateway's model list offers to the account.
pub fn models_from_list(value: &crate::json::Json) -> (r: Result<Vec<String>, EnterpriseError>)
    ensures
        match r {
            Ok(models) => models_of_list(*value) == Some(string_views(models@)),
            Err(e) => models_of_list(*value) is None && (if crate::json::json_array(
                crate::json::json_get(*value, "data"@),
            ) is None {
                is_plain_failure(e, "Sub2API returned an invalid model list"@)
            } else {
                is_plain_failure(e, "This Sub2API account currently has no available models"@)
            }),
        },
{
    let items = match value.get("data") {
        Some(d) => match d.as_array() {
            Some(items) => items,
            None => return Err(EnterpriseError::message("Sub2API returned an invalid model list")),
        },
        None => return Err(EnterpriseError::message("Sub2API returned an invalid model list")),
    };
    let mut models: Vec<String> = Vec::new();
    let mut i: usize = 0;
    while i < items.len()
        invariant
            i <= items@.len(),
            string_views(models@) == collect_models(items@.take(i as int)),
        decreases items@.len() - i,
    {
        let ghost prev = string_views(models@);
        let item = &items[i];
        let candidate = match crate::json::get_str(item, "id") {
            Some(id) => {
                let t = trim_chars(&chars_of(id.as_str()));
                if t.len() > 0 {
                    Some(string_of(&t))
                } else {
                    None
                }
            },
            None => None,
        };
        assert(items@.take(i + 1).drop_last() =~= items@.take(i as int));
        assert(items@.take(i + 1).last() == items@[i as int]);
        if let Some(m) = candidate {
            if !strings_contain(&models, m.as_str()) {
                models.push(m);
                assert(string_views(models@) =~= prev.push(models@.last()@));
            }
        }
        i += 1;
    }
    assert(items@.take(items@.len() as int) =~= items@);
    if models.len() == 0 {
        return Err(
            EnterpriseError::message("This Sub2API account currently has no available models"),
        );
    }
    Ok(models)
}

/// The trimmed requested model, when the account is offered it.
pub fn offered_model(models: &Vec<String>, requested: &str) -> (r: Result<String, EnterpriseError>)
    ensures
        match r {
            Ok(m) => m@ == trim(requested@) && string_views(models@).contains(trim(requested@)),
            Err(e) => !string_views(models@).contains(trim(requested@)) && is_plain_failure(
                e,
                "The selected model is not available to this Sub2API account"@,
            ),
        },
{
    let wanted = string_of(&trim_chars(&chars_of(requested)));
    if !strings_contain(models, wanted.as_str()) {
        return Err(
            EnterpriseError::message("The selected model is not available to this Sub2API account"),
        );
    }
    Ok(wanted)
}

/// Selecting a default model: the trimmed request must be one of the models
/// the account is offered; the profile then takes the offered models, the
/// requested default and the account's identity, and the preference for the
/// trimmed user id (the id the identity and the model lookup use) is set.
/// Returns the preference held before, for rolling back.
pub fn select_default_model(
    profile: &mut EnterpriseProfile,
    models: Vec<String>,
    requested: &str,
    user: &EnterpriseUser,
    preferences: &mut EnterprisePreferences,
) -> (r: Result<Option<String>, EnterpriseError>)
    requires
        old(preferences).wf(),
    ensures
        final(preferences).wf(),
        !string_views(models@).contains(trim(requested@)) ==> (r matches Err(e) && is_plain_failure(
            e,
            "The selected model is not available to this Sub2API account"@,
        ) && *final(profile) == *old(profile) && *final(preferences) == *old(preferences)),
        string_views(models@).contains(trim(requested@)) ==> {
            &&& r matches Ok(previous)
            &&& final(profile).default_model@ == trim(requested@)
            &&& final(profile).allowed_models == models
            &&& same_endpoint(*old(profile), *final(profile))
            &&& identity_fields(*old(profile), *final(profile), *user)
            &&& final(preferences).schema_version == old(preferences).schema_version
            &&& final(preferences).models() == old(preferences).models().insert(
                trim(user.id@),
                trim(requested@),
            )
            &&& (previous is Some <==> old(preferences).models().contains_key(trim(user.id@)))
            &&& (previous matches Some(p) ==> p@ == old(preferences).models()[trim(user.id@)])
        },
{
    let wanted = offered_model(&models, requested)?;
    profile.allowed_models = models;
    profile.default_model = wanted.clone();
    apply_user_identity(profile, user);
    let user_id = string_of(&trim_chars(&chars_of(user.id.as_str())));
    let previous = preferences.insert(user_id.as_str(), wanted.as_str());
    Ok(previous)
}

/// Rolls back a preference change for a user: under the trimmed id, puts back
/// the model held before, or removes the entry when there was none.
pub fn restore_default_model(
    preferences: &mut EnterprisePreferences,
    user_id: &str,
    previous: Option<String>,
)
    requires
        old(preferences).wf(),
    ensures
        final(preferences).wf(),
        final(preferences).schema_version == old(preferences).schema_version,
        final(preferences).models() == match previous {
            Some(p) => old(preferences).models().insert(trim(user_id@), p@),
            None => old(preferences).models().remove(trim(user_id@)),
        },
{
    let id = string_of(&trim_chars(&chars_of(user_id)));
    match previous {
        Some(p) => {
            preferences.insert(id.as_str(), p.as_str());
        },
        None => preferences.remove(id.as_str()),
    }
}

/// Setting a default model and then rolling it back leaves the preferences as
/// they were.
pub proof fn rollback_restores_preferences(
    before: Map<Seq<char>, Seq<char>>,
    user_id: Seq<char>,
    model: Seq<char>,
    previous: Option<Seq<char>>,
)
    requires
        previous is Some <==> before.contains_key(user_id),
        previous matches Some(p) ==> p == before[user_id],
    ensures
        match previous {
            Some(p) => before.insert(user_id, model).insert(user_id, p),
            None => before.insert(user_id, model).remove(user_id),
        } == before,
{
    match previous {
        Some(p) => {
            assert(before.insert(user_id, model).insert(user_id, p) =~= before);
        },
        None => {
            assert(before.insert(user_id, model).remove(user_id) =~= before);
        },
    }
}


/// A stored preference that the account no longer offers does not count:
/// when the launcher's default is offered, the profile keeps it as its
/// default model.
pub proof fn law_stale_preference_keeps_launcher_default(
    profile: &mut EnterpriseProfile,
    models: Vec<String>,
    user: &EnterpriseUser,
    preferences: &EnterprisePreferences,
    r: Result<(), EnterpriseError>,
)
    requires
        call_ensures(apply_user_models, (profile, models, user, preferences), r),
        string_views(models@).contains(old(profile).default_model@),
        !(preferences.models().contains_key(trim(user.id@)) && string_views(models@).contains(
            preferences.models()[trim(user.id@)],
        )),
    ensures
        r is Ok,
        final(profile).default_model@ == old(profile).default_model@,
{
}


/// A stored preference for the user (by trimmed id) that the account still
/// offers becomes the profile's default model.
pub proof fn law_offered_preference_wins(
    profile: &mut EnterpriseProfile,
    models: Vec<String>,
    user: &EnterpriseUser,
    preferences: &EnterprisePreferences,
    r: Result<(), EnterpriseError>,
)
    requires
        call_ensures(apply_user_models, (profile, models, user, preferences), r),
        preferences.models().contains_key(trim(user.id@)),
        string_views(models@).contains(preferences.models()[trim(user.id@)]),
    ensures
        r is Ok,
        final(profile).default_model@ == preferences.models()[trim(user.id@)],
{
}

/// Applying the account's models succeeds exactly when some model is offered,
/// and the default model it picks is always one of them.
pub proof fn law_chosen_default_is_offered(
    profile: &mut EnterpriseProfile,
    models: Vec<String>,
    user: &EnterpriseUser,
    preferences: &EnterprisePreferences,
    r: Result<(), EnterpriseError>,
)
    requires
        call_ensures(apply_user_models, (profile, models, user, preferences), r),
    ensures
        r is Ok <==> models@.len() > 0,
        r is Ok ==> string_views(models@).contains(final(profile).default_model@)
            && final(profile).allowed_models == models,
{
}


/// A trailing slash on the gateway URL does not change its model list URL.
pub proof fn law_models_url_ignores_trailing_slash(
    gateway: &str,
    slashed: &str,
    r: String,
    r_slashed: String,
)
    requires
        slashed@ == gateway@.push('/'),
        call_ensures(models_url, (gateway,), r),
        call_ensures(models_url, (slashed,), r_slashed),
    ensures
        r_slashed@ == r@,
{
    assert(slashed@.drop_last() =~= gateway@);
}

/// For a gateway whose last path segment is `v1` in any case (trailing
/// slashes aside, and not already a `/models` URL), the model list URL is the
/// gateway without its trailing slashes followed by `/models`.
pub proof fn law_models_url_of_v1_gateway(gateway: &str, r: String)
    requires
        call_ensures(models_url, (gateway,), r),
        ascii_lower_seq(last_segment(trim_end_char(gateway@, '/'))) == "v1"@,
        !ends_with(ascii_lower_seq(trim_end_char(gateway@, '/')), "/models"@),
    ensures
        r@ == trim_end_char(gateway@, '/') + "/models"@,
{
}


/// A gateway URL that already names the model list (ending in `/models`, in
/// any case) is used as it is, without its trailing slashes; any other gateway
/// whose last segment is not `v1` gets `/v1/models` appended.
pub proof fn law_models_url_of_other_gateways(gateway: &str, r: String)
    requires
        call_ensures(models_url, (gateway,), r),
    ensures
        ends_with(ascii_lower_seq(trim_end_char(gateway@, '/')), "/models"@) ==> r@ == trim_end_char(
            gateway@,
            '/',
        ),
        !ends_with(ascii_lower_seq(trim_end_char(gateway@, '/')), "/models"@) && ascii_lower_seq(
            last_segment(trim_end_char(gateway@, '/')),
        ) != "v1"@ ==> r@ == trim_end_char(gateway@, '/') + "/v1/models"@,
{
}

} // verus!
