//! A JSON value as the library reads it. Reading and writing JSON text is done
//! where the text enters or leaves the program; the library works on values.
use vstd::prelude::*;
use crate::text::{chars_eq, chars_of};

verus! {

/// A JSON value. Numbers are kept as their JSON text; objects keep their
/// members in order.
#[derive(Debug)]
pub enum Json {
    Null,
    Bool(bool),
    Number(String),
    String(String),
    Array(Vec<Json>),
    Object(Vec<(String, Json)>),
}

/// A JSON document as it was read: absent, unreadable, not JSON (with the
/// reader's or parser's message), or a value.
#[derive(Debug)]
pub enum JsonInput {
    Missing,
    Unreadable(String),
    Invalid(String),
    Present(Json),
}

/// The mathematical value of a JSON document.
pub enum JsonView {
    Null,
    Bool(bool),
    Number(Seq<char>),
    Str(Seq<char>),
    Array(Seq<JsonView>),
    Object(Seq<(Seq<char>, JsonView)>),
}

/// The value that a `Json` holds.
pub open spec fn json_view(j: Json) -> JsonView
    decreases j,
{
    match j {
        Json::Null => JsonView::Null,
        Json::Bool(b) => JsonView::Bool(b),
        Json::Number(n) => JsonView::Number(n@),
        Json::String(s) => JsonView::Str(s@),
        Json::Array(items) => JsonView::Array(item_views(items@)),
        Json::Object(entries) => JsonView::Object(member_views(entries@)),
    }
}

/// The values of a sequence of items.
pub open spec fn item_views(items: Seq<Json>) -> Seq<JsonView>
    decreases items,
{
    if items.len() == 0 {
        Seq::empty()
    } else {
        item_views(items.drop_last()).push(json_view(items.last()))
    }
}

/// The names and values of a sequence of members.
pub open spec fn member_views(entries: Seq<(String, Json)>) -> Seq<(Seq<char>, JsonView)>
    decreases entries,
{
    if entries.len() == 0 {
        Seq::empty()
    } else {
        member_views(entries.drop_last()).push(
            (entries.last().0@, json_view(entries.last().1)),
        )
    }
}

pub proof fn lemma_item_views(items: Seq<Json>)
    ensures
        item_views(items).len() == items.len(),
        forall|i: int| 0 <= i < items.len() ==> #[trigger] item_views(items)[i] == json_view(items[i]),
    decreases items.len(),
{
    if items.len() > 0 {
        lemma_item_views(items.drop_last());
    }
}

pub proof fn lemma_member_views(entries: Seq<(String, Json)>)
    ensures
        member_views(entries).len() == entries.len(),
        forall|i: int|
            0 <= i < entries.len() ==> #[trigger] member_views(entries)[i] == (
                entries[i].0@,
                json_view(entries[i].1),
            ),
    decreases entries.len(),
{
    if entries.len() > 0 {
        lemma_member_views(entries.drop_last());
    }
}

impl View for Json {
    type V = JsonView;

    open spec fn view(&self) -> JsonView {
        json_view(*self)
    }
}

/// The first member named `key`.
pub open spec fn member(entries: Seq<(String, Json)>, key: Seq<char>) -> Option<Json>
    decreases entries.len(),
{
    if entries.len() == 0 {
        None
    } else if entries[0].0@ == key {
        Some(entries[0].1)
    } else {
        member(entries.drop_first(), key)
    }
}

/// `value.get(key)`: the member `key` of an object.
pub open spec fn json_get(value: Json, key: Seq<char>) -> Option<Json> {
    match value {
        Json::Object(entries) => member(entries@, key),
        _ => None,
    }
}

/// `value.as_str()`.
pub open spec fn json_str(value: Option<Json>) -> Option<Seq<char>> {
    match value {
        Some(Json::String(s)) => Some(s@),
        _ => None,
    }
}

/// `value.as_array()`.
pub open spec fn json_array(value: Option<Json>) -> Option<Seq<Json>> {
    match value {
        Some(Json::Array(items)) => Some(items@),
        _ => None,
    }
}

/// `value.as_bool()`.
pub open spec fn json_bool(value: Option<Json>) -> Option<bool> {
    match value {
        Some(Json::Bool(b)) => Some(b),
        _ => None,
    }
}

/// `value.get(a).and_then(|v| v.get(b))`.
pub open spec fn json_get2(value: Json, a: Seq<char>, b: Seq<char>) -> Option<Json> {
    match json_get(value, a) {
        Some(v) => json_get(v, b),
        None => None,
    }
}

pub proof fn lemma_member_step(entries: Seq<(String, Json)>, i: int, key: Seq<char>)
    requires
        0 <= i < entries.len(),
    ensures
        member(entries.skip(i), key) == if entries[i].0@ == key {
            Some(entries[i].1)
        } else {
            member(entries.skip(i + 1), key)
        },
{
    assert(entries.skip(i)[0] == entries[i]);
    assert(entries.skip(i).drop_first() =~= entries.skip(i + 1));
}

impl Json {
    /// `self.get(key)`.
    pub fn get(&self, key: &str) -> (r: Option<&Json>)
        ensures
            match r {
                Some(v) => json_get(*self, key@) == Some(*v),
                None => json_get(*self, key@) is None,
            },
    {
        match self {
            Json::Object(entries) => {
                let k = chars_of(key);
                let mut i: usize = 0;
                assert(entries@.skip(0) =~= entries@);
                while i < entries.len()
                    invariant
                        i <= entries@.len(),
                        k@ == key@,
                        json_get(*self, key@) == member(entries@, key@),
                        member(entries@, key@) == member(entries@.skip(i as int), key@),
                    decreases entries@.len() - i,
                {
                    proof {
                        lemma_member_step(entries@, i as int, key@);
                    }
                    if chars_eq(&chars_of(entries[i].0.as_str()), &k) {
                        return Some(&entries[i].1);
                    }
                    i += 1;
                }
                assert(entries@.skip(i as int) =~= Seq::<(String, Json)>::empty());
                None
            },
            _ => None,
        }
    }

    /// `self.as_str()`.
    pub fn as_str(&self) -> (r: Option<&String>)
        ensures
            match r {
                Some(s) => json_str(Some(*self)) == Some(s@),
                None => json_str(Some(*self)) is None,
            },
    {
        match self {
            Json::String(s) => Some(s),
            _ => None,
        }
    }

    /// `self.as_array()`.
    pub fn as_array(&self) -> (r: Option<&Vec<Json>>)
        ensures
            match r {
                Some(a) => json_array(Some(*self)) == Some(a@),
                None => json_array(Some(*self)) is None,
            },
    {
        match self {
            Json::Array(items) => Some(items),
            _ => None,
        }
    }

    /// `self.as_bool()`.
    pub fn as_bool(&self) -> (r: Option<bool>)
        ensures
            r == json_bool(Some(*self)),
    {
        match self {
            Json::Bool(b) => Some(*b),
            _ => None,
        }
    }

    /// A string value.
    pub fn string(s: &str) -> (r: Json)
        ensures
            r matches Json::String(t) && t@ == s@,
    {
        Json::String(s.to_string())
    }
}

/// Moves the first member named `key` out of the members.
pub fn take_member(entries: Vec<(String, Json)>, key: &str) -> (r: Json)
    requires
        member(entries@, key@) is Some,
    ensures
        member(entries@, key@) == Some(r),
{
    let k = chars_of(key);
    let ghost all = entries@;
    let mut rest = entries;
    let mut reversed: Vec<(String, Json)> = Vec::new();
    while rest.len() > 0
        invariant
            rest@ == all.take(rest@.len() as int),
            reversed@.len() + rest@.len() == all.len(),
            forall|j: int|
                0 <= j < reversed@.len() ==> #[trigger] reversed@[j] == all[all.len() - 1 - j],
        decreases rest@.len(),
    {
        let e = rest.pop().unwrap();
        reversed.push(e);
        assert(all.take(rest@.len() as int) =~= rest@);
    }
    assert(all.skip(0) =~= all);
    loop
        invariant
            reversed@.len() <= all.len(),
            all == entries@,
            k@ == key@,
            forall|j: int|
                0 <= j < reversed@.len() ==> #[trigger] reversed@[j] == all[all.len() - 1 - j],
            member(all, key@) == member(all.skip(all.len() - reversed@.len()), key@),
            member(all, key@) is Some,
        decreases reversed@.len(),
    {
        let ghost idx = all.len() - reversed@.len();
        if reversed.len() == 0 {
            assert(all.skip(idx) =~= Seq::<(String, Json)>::empty());
            assert(false);
        }
        proof {
            lemma_member_step(all, idx, key@);
        }
        let e = reversed.pop().unwrap();
        assert(e == all[idx]);
        let (name, value) = e;
        if chars_eq(&chars_of(name.as_str()), &k) {
            assert(member(all, key@) == Some(all[idx].1));
            assert(value == all[idx].1);
            assert(all == entries@);
            return value;
        }
        assert(all.len() - reversed@.len() == idx + 1);
    }
}

/// Appends the member `key: value`.
pub fn push_member(entries: &mut Vec<(String, Json)>, key: &str, value: Json)
    ensures
        member_views(final(entries)@) == member_views(old(entries)@).push((key@, json_view(value))),
        final(entries)@.len() == old(entries)@.len() + 1,
{
    let ghost before = entries@;
    entries.push((key.to_string(), value));
    assert(entries@.drop_last() =~= before);
}

/// Appends an item.
pub fn push_item(items: &mut Vec<Json>, value: Json)
    ensures
        item_views(final(items)@) == item_views(old(items)@).push(json_view(value)),
{
    let ghost before = items@;
    items.push(value);
    assert(items@.drop_last() =~= before);
}

/// The string at `value.get(key)`, if it is one.
pub fn get_str(value: &Json, key: &str) -> (r: Option<String>)
    ensures
        match r {
            Some(s) => json_str(json_get(*value, key@)) == Some(s@),
            None => json_str(json_get(*value, key@)) is None,
        },
{
    match value.get(key) {
        Some(v) => match v.as_str() {
            Some(s) => Some(s.clone()),
            None => None,
        },
        None => None,
    }
}

} // verus!
