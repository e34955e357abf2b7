//! `auth.json` hygiene: an `OPENAI_API_KEY` is removed only when it is the
//! enterprise credential; any other key and every other setting are kept.
use vstd::prelude::*;
use crate::error::{is_plain_failure, EnterpriseError};
use crate::json::{json_get, json_str, member, Json, JsonInput};
use crate::profile::string_views;
use crate::text::{append_chars, chars_eq, chars_of, string_of, trim, trim_chars};

verus! {

broadcast use vstd::string::group_string_axioms;

/// The members of an object without those named `key`.
pub open spec fn without_member(entries: Seq<(String, Json)>, key: Seq<char>) -> Seq<(String, Json)>
    decreases entries.len(),
{
    if entries.len() == 0 {
        seq![]
    } else {
        let rest = without_member(entries.drop_last(), key);
        if entries.last().0@ == key {
            rest
        } else {
            rest.push(entries.last())
        }
    }
}

/// Some credential, trimmed and not empty, equals `value`.
pub open spec fn matches_credential(value: Seq<char>, credentials: Seq<Seq<char>>) -> bool {
    exists|i: int|
        0 <= i < credentials.len() && trim(#[trigger] credentials[i]).len() > 0 && value == trim(
            credentials[i],
        )
}

/// What becomes of `auth.json`: `Ok(None)` leaves the file as it is, `Ok(Some(v))`
/// replaces it by `v`.
pub open spec fn auth_update_ok(
    auth: JsonInput,
    credentials: Seq<Seq<char>>,
    r: Result<Option<Json>, EnterpriseError>,
) -> bool {
    match auth {
        JsonInput::Missing => r matches Ok(None),
        JsonInput::Present(Json::Object(entries)) => match json_str(
            member(entries@, "OPENAI_API_KEY"@),
        ) {
            Some(key) => if matches_credential(key, credentials) {
                r matches Ok(Some(Json::Object(kept))) && kept@ == without_member(
                    entries@,
                    "OPENAI_API_KEY"@,
                )
            } else {
                r matches Ok(None)
            },
            None => r matches Ok(None),
        },
        JsonInput::Present(_) => r is Err,
        JsonInput::Unreadable(_) => r is Err,
        JsonInput::Invalid(_) => r is Err,
    }
}

fn credentials_match(value: &String, credentials: &Vec<String>) -> (r: bool)
    ensures
        r == matches_credential(value@, string_views(credentials@)),
{
    let v = chars_of(value.as_str());
    let mut i: usize = 0;
    while i < credentials.len()
        invariant
            i <= credentials@.len(),
            v@ == value@,
            forall|j: int|
                0 <= j < i ==> !(trim(#[trigger] credentials@[j]@).len() > 0 && value@ == trim(
                    credentials@[j]@,
                )),
        decreases credentials@.len() - i,
    {
        let c = trim_chars(&chars_of(credentials[i].as_str()));
        assert(string_views(credentials@)[i as int] == credentials@[i as int]@);
        if c.len() > 0 && chars_eq(&v, &c) {
            return true;
        }
        i += 1;
    }
    assert forall|j: int| 0 <= j < string_views(credentials@).len() implies !(trim(
        #[trigger] string_views(credentials@)[j],
    ).len() > 0 && value@ == trim(string_views(credentials@)[j])) by {
        assert(string_views(credentials@)[j] == credentials@[j]@);
    }
    false
}

fn remove_member(entries: Vec<(String, Json)>, key: &str) -> (r: Vec<(String, Json)>)
    ensures
        r@ == without_member(entries@, key@),
{
    let k = chars_of(key);
    let ghost all = entries@;
    let mut rest = entries;
    let mut reversed: Vec<(String, Json)> = Vec::new();
    while rest.len() > 0
        invariant
            rest@ == all.take(rest@.len() as int),
            reversed@.len() + rest@.len() == all.len(),
            forall|j: int|
                0 <= j < reversed@.len() ==> #[trigger] reversed@[j] == all[all.len() - 1 - j],
        decreases rest@.len(),
    {
        let e = rest.pop().unwrap();
        reversed.push(e);
        assert(all.take(rest@.len() as int) =~= rest@);
    }
    let mut kept: Vec<(String, Json)> = Vec::new();
    assert(all.take(0) =~= Seq::<(String, Json)>::empty());
    while reversed.len() > 0
        invariant
            reversed@.len() <= all.len(),
            k@ == key@,
            forall|j: int|
                0 <= j < reversed@.len() ==> #[trigger] reversed@[j] == all[all.len() - 1 - j],
            kept@ == without_member(all.take(all.len() - reversed@.len()), key@),
        decreases reversed@.len(),
    {
        let ghost idx = all.len() - reversed@.len();
        let e = reversed.pop().unwrap();
        assert(e == all[idx]);
        assert(all.take(idx + 1).drop_last() =~= all.take(idx));
        assert(all.take(idx + 1).last() == all[idx]);
        if !chars_eq(&chars_of(e.0.as_str()), &k) {
            kept.push(e);
        }
    }
    assert(all.take(all.len() as int) =~= all);
    kept
}

/// `auth.json` after provisioning or clean-up: when its `OPENAI_API_KEY` equals
/// one of the enterprise credentials (trimmed, not empty), the document without
/// that key; otherwise nothing to write. A missing file stays missing; an
/// unreadable or invalid file, or one that is not a JSON object, is an error.
pub fn auth_json_without_matching_api_keys(
    auth: JsonInput,
    auth_path: &str,
    credentials: &Vec<String>,
) -> (r: Result<Option<Json>, EnterpriseError>)
    ensures
        auth_update_ok(auth, string_views(credentials@), r),
        auth matches JsonInput::Present(v) ==> !(v is Object) ==> (r matches Err(e)
            && is_plain_failure(e, auth_path@ + " must contain a JSON object"@)),
{
    match auth {
        JsonInput::Missing => Ok(None),
        JsonInput::Unreadable(message) => Err(EnterpriseError::message(message.as_str())),
        JsonInput::Invalid(message) => {
            let mut outer = chars_of(auth_path);
            append_chars(&mut outer, &chars_of(" is not valid JSON"));
            Err(EnterpriseError::with_context(string_of(&outer).as_str(), message))
        },
        JsonInput::Present(value) => {
            let key = crate::json::get_str(&value, "OPENAI_API_KEY");
            match value {
                Json::Object(entries) => match key {
                    Some(k) => if credentials_match(&k, credentials) {
                        Ok(Some(Json::Object(remove_member(entries, "OPENAI_API_KEY"))))
                    } else {
                        Ok(None)
                    },
                    None => Ok(None),
                },
                _ => {
                    let mut m = chars_of(auth_path);
                    append_chars(&mut m, &chars_of(" must contain a JSON object"));
                    Err(EnterpriseError::message(string_of(&m).as_str()))
                },
            }
        },
    }
}

} // verus!
