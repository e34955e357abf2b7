//! Trusted items: each one makes one call into std or an outside crate, and its
//! contract states what that call does. Nothing here is proved; everything else
//! in the crate is proved against these contracts.
use vstd::prelude::*;
use vstd::utf8::{decode_utf8, valid_utf8};

verus! {

/// `String::push`: appends one character to the string.
#[verifier::external_body]
pub(crate) fn string_push(s: &mut String, c: char)
    ensures
        final(s)@ == old(s)@.push(c),
{
    s.push(c);
}

/// `String::from_utf8`: the string the bytes encode, when they are valid UTF-8.
/// On invalid input the error's display text is returned; its wording is not stated.
#[verifier::external_body]
pub(crate) fn string_from_utf8(bytes: Vec<u8>) -> (r: Result<String, String>)
    ensures
        r is Ok <==> valid_utf8(bytes@),
        r matches Ok(s) ==> s@ == decode_utf8(bytes@),
{
    String::from_utf8(bytes).map_err(|e| e.to_string())
}

/// What `base64::engine::general_purpose::STANDARD.encode` returns for the given bytes.
pub uninterp spec fn base64_standard_encode(bytes: Seq<u8>) -> Seq<char>;

/// What `base64::engine::general_purpose::STANDARD.decode` returns for the given text,
/// `None` where it reports an error.
pub uninterp spec fn base64_standard_decode(text: Seq<char>) -> Option<Seq<u8>>;

/// The characters of the standard padded base64 alphabet.
pub open spec fn is_base64_char(c: char) -> bool {
    ||| 'A' <= c <= 'Z'
    ||| 'a' <= c <= 'z'
    ||| '0' <= c <= '9'
    ||| c == '+'
    ||| c == '/'
    ||| c == '='
}

/// `STANDARD.encode(input)`: the padded standard base64 text of `input`: four
/// characters for each started group of three bytes, made of the standard
/// alphabet and `=`; `STANDARD.decode` gives `input`
/// back. (`encode` panics when the encoded length overflows `usize`; the bound
/// keeps such inputs out.)
#[verifier::external_body]
pub(crate) fn base64_encode(input: &[u8]) -> (r: String)
    requires
        input@.len() <= usize::MAX / 2,
    ensures
        r@ == base64_standard_encode(input@),
        r@.len() == 4 * ((input@.len() + 2) / 3),
        forall|i: int| 0 <= i < r@.len() ==> is_base64_char(#[trigger] r@[i]),
        base64_standard_decode(r@) == Some(input@),
{
    base64::Engine::encode(&base64::engine::general_purpose::STANDARD, input)
}

/// `STANDARD.decode(input)`: the decoded bytes, or the error's display text.
#[verifier::external_body]
pub(crate) fn base64_decode(input: &str) -> (r: Result<Vec<u8>, String>)
    ensures
        r is Ok <==> base64_standard_decode(input@) is Some,
        r matches Ok(b) ==> Some(b@) == base64_standard_decode(input@),
{
    base64::Engine::decode(&base64::engine::general_purpose::STANDARD, input).map_err(
        |e| e.to_string(),
    )
}

/// What `toml::Value::String(value).to_string()` returns: the TOML literal of a string.
pub uninterp spec fn toml_string_literal(value: Seq<char>) -> Seq<char>;

/// `toml::Value::String(value).to_string()`: the string written as a TOML value.
#[verifier::external_body]
pub(crate) fn toml_quote(value: &str) -> (r: String)
    ensures
        r@ == toml_string_literal(value@),
{
    toml::Value::String(value.to_string()).to_string()
}

/// The string values of a TOML document by their key path, as `toml`'s
/// `FromStr for toml::Value` reads them; `None` when that parse fails.
pub uninterp spec fn toml_document_strings(text: Seq<char>) -> Option<Map<Seq<Seq<char>>, Seq<char>>>;

/// `text.parse::<toml::Value>()`: whether `toml` reads the text as a
/// document. `Err` carries the parse error's display text, whose wording is
/// not stated.
#[verifier::external_body]
pub(crate) fn toml_check(text: &str) -> (r: Result<(), String>)
    ensures
        r is Ok <==> toml_document_strings(text@) is Some,
{
    text.parse::<toml::Value>().map(|_| ()).map_err(|e| e.to_string())
}

/// `text.parse::<toml::Value>()`, then `.get(table)`, `.get(entry)`,
/// `.get(key)` and `as_str`: the string at `table.entry.key`. `Err` carries
/// the parse error's display text, whose wording is not stated.
#[verifier::external_body]
pub(crate) fn toml_string_at(text: &str, table: &str, entry: &str, key: &str) -> (r: Result<
    Option<String>,
    String,
>)
    ensures
        r is Ok <==> toml_document_strings(text@) is Some,
        r matches Ok(found) ==> {
            let m = toml_document_strings(text@).unwrap();
            &&& found is Some <==> m.contains_key(seq![table@, entry@, key@])
            &&& found matches Some(s) ==> s@ == m[seq![table@, entry@, key@]]
        },
{
    let value = text.parse::<toml::Value>().map_err(|e| e.to_string())?;
    let found = match value.get(table) {
        Some(t) => match t.get(entry) {
            Some(e) => e.get(key),
            None => None,
        },
        None => None,
    };
    Ok(found.and_then(toml::Value::as_str).map(str::to_string))
}

/// What `toml_edit` reads from a text: the root of the parsed document (see
/// [`toml_edit_root`]), or `None` when the text is not a TOML document.
pub uninterp spec fn toml_edit_parsed(text: Seq<char>) -> Option<Map<Seq<char>, TomlShape>>;

/// Whether `toml_edit` accepts the text as a TOML document.
pub open spec fn toml_edit_accepts(text: Seq<char>) -> bool {
    toml_edit_parsed(text) is Some
}

#[verifier::external_type_specification]
#[verifier::external_body]
pub struct ExDocumentMut(toml_edit::DocumentMut);

/// `text.parse::<toml_edit::DocumentMut>()`: a document whose root is what the
/// text gives, or the error's display text when the text is not TOML.
#[verifier::external_body]
pub(crate) fn toml_edit_parse(text: &str) -> (r: Result<toml_edit::DocumentMut, String>)
    ensures
        match r {
            Ok(document) => toml_edit_parsed(text@) == Some(toml_edit_root(document)),
            Err(_) => toml_edit_parsed(text@) is None,
        },
{
    text.parse::<toml_edit::DocumentMut>().map_err(|e| e.to_string())
}

/// What an item of a `toml_edit` table is, as far as this crate reads it: a
/// string value (its text), a table (the keys of its entries), or anything else.
pub enum TomlShape {
    Text(Seq<char>),
    Table(Set<Seq<char>>),
    Other,
}

/// What a `toml_edit::DocumentMut` holds at its root: each key whose item is not
/// `Item::None`, with the shape of that item.
pub uninterp spec fn toml_edit_root(document: toml_edit::DocumentMut) -> Map<Seq<char>, TomlShape>;

/// The text of the root entry `key` when it is a string value.
pub open spec fn root_text(root: Map<Seq<char>, TomlShape>, key: Seq<char>) -> Option<Seq<char>> {
    if root.contains_key(key) {
        match root[key] {
            TomlShape::Text(s) => Some(s),
            _ => None,
        }
    } else {
        None
    }
}

/// The keys of the root entry `key` when it is a table.
pub open spec fn root_table(root: Map<Seq<char>, TomlShape>, key: Seq<char>) -> Option<Set<Seq<char>>> {
    if root.contains_key(key) {
        match root[key] {
            TomlShape::Table(keys) => Some(keys),
            _ => None,
        }
    } else {
        None
    }
}

/// Whether the root entry `parent` is a table with an entry `child`.
pub open spec fn root_table_has(root: Map<Seq<char>, TomlShape>, parent: Seq<char>, child: Seq<char>) -> bool {
    match root_table(root, parent) {
        Some(keys) => keys.contains(child),
        None => false,
    }
}

/// `document.get(key).and_then(Item::as_str)`: `Table::get` skips `Item::None`,
/// and `Item::as_str` gives the text of a string value and `None` for any other item.
#[verifier::external_body]
pub(crate) fn toml_edit_root_str(document: &toml_edit::DocumentMut, key: &str) -> (r: Option<String>)
    ensures
        match r {
            Some(s) => Some(s@),
            None => None::<Seq<char>>,
        } == root_text(toml_edit_root(*document), key@),
{
    document.get(key).and_then(toml_edit::Item::as_str).map(str::to_string)
}

/// `document.get(parent).and_then(Item::as_table).is_some_and(|t| t.contains_key(child))`:
/// true when the root entry `parent` is a table (`Item::as_table` takes no inline
/// table) holding a non-empty entry `child`.
#[verifier::external_body]
pub(crate) fn toml_edit_table_has(document: &toml_edit::DocumentMut, parent: &str, child: &str) -> (r: bool)
    ensures
        r == root_table_has(toml_edit_root(*document), parent@, child@),
{
    match document.get(parent).and_then(toml_edit::Item::as_table) {
        Some(table) => table.contains_key(child),
        None => false,
    }
}

/// `document.as_table_mut().remove(key)`: the root entry `key` is gone and the
/// other root entries are kept.
#[verifier::external_body]
pub(crate) fn toml_edit_remove_root(document: &mut toml_edit::DocumentMut, key: &str)
    ensures
        toml_edit_root(*final(document)) == toml_edit_root(*old(document)).remove(key@),
{
    document.as_table_mut().remove(key);
}

/// `document.get_mut(parent).and_then(Item::as_table_mut)`, then `remove(child)` on
/// that table. When the root entry `parent` is a table, `child` leaves it, the
/// rest of the root is kept, and the result says whether the table has no
/// entry left (`Table::is_empty` counts the entries that are not `Item::None`);
/// otherwise the document is untouched and the result is `None`.
#[verifier::external_body]
pub(crate) fn toml_edit_remove_child(
    document: &mut toml_edit::DocumentMut,
    parent: &str,
    child: &str,
) -> (r: Option<bool>)
    ensures
        match root_table(toml_edit_root(*old(document)), parent@) {
            Some(keys) => {
                &&& r == Some(keys.remove(child@).is_empty())
                &&& toml_edit_root(*final(document)) == toml_edit_root(*old(document)).insert(
                    parent@,
                    TomlShape::Table(keys.remove(child@)),
                )
            },
            None => r is None && toml_edit_root(*final(document)) == toml_edit_root(*old(document)),
        },
{
    match document.get_mut(parent).and_then(toml_edit::Item::as_table_mut) {
        Some(table) => {
            table.remove(child);
            Some(table.is_empty())
        },
        None => None,
    }
}

/// The text that `toml_edit` renders a document to (its `Display`).
pub uninterp spec fn toml_edit_rendered(document: toml_edit::DocumentMut) -> Seq<char>;

/// `document.to_string()`: the rendered text of the document. How the text
/// relates to the document's entries (layout, comments, order) is not stated.
#[verifier::external_body]
pub(crate) fn toml_edit_render(document: &toml_edit::DocumentMut) -> (r: String)
    ensures
        r@ == toml_edit_rendered(*document),
{
    document.to_string()
}

/// What `reqwest::Url::parse` (the `url` crate) reads from a text: its scheme,
/// its user name, and whether it has a password, a query and a fragment;
/// `None` where parsing fails.
pub uninterp spec fn url_components(text: Seq<char>) -> Option<(Seq<char>, Seq<char>, bool, bool, bool)>;

/// The parts of a parsed URL that the gateway policy reads.
pub struct UrlParts {
    pub scheme: String,
    pub username: String,
    pub has_password: bool,
    pub has_query: bool,
    pub has_fragment: bool,
}

/// `reqwest::Url::parse(text)`, read into its scheme, user name and the presence
/// of password, query and fragment; `Err` carries the parse error's display text.
#[verifier::external_body]
pub(crate) fn parse_url(text: &str) -> (r: Result<UrlParts, String>)
    ensures
        r is Ok <==> url_components(text@) is Some,
        r matches Ok(p) ==> url_components(text@) == Some(
            (p.scheme@, p.username@, p.has_password, p.has_query, p.has_fragment),
        ),
{
    let url = reqwest::Url::parse(text).map_err(|e| e.to_string())?;
    Ok(UrlParts {
        scheme: url.scheme().to_string(),
        username: url.username().to_string(),
        has_password: url.password().is_some(),
        has_query: url.query().is_some(),
        has_fragment: url.fragment().is_some(),
    })
}

/// What `format!("{:?}", s)` writes for a string: the string in double
/// quotes, with double quotes, backslashes, control characters and characters
/// that do not print escaped (a single quote is left as it is).
pub uninterp spec fn str_debug_text(s: Seq<char>) -> Seq<char>;

/// `format!("{:?}", s)`: the `Debug` text of a string.
#[verifier::external_body]
pub(crate) fn debug_str(s: &str) -> (r: String)
    ensures
        r@ == str_debug_text(s@),
{
    format!("{s:?}")
}

/// What `String::from_utf8_lossy` gives for the bytes: their text, with each
/// invalid sequence replaced by U+FFFD.
pub uninterp spec fn utf8_lossy_text(bytes: Seq<u8>) -> Seq<char>;

/// `String::from_utf8_lossy(bytes)`. Valid UTF-8 comes back as the text it
/// encodes, as std documents.
#[verifier::external_body]
pub(crate) fn utf8_lossy(bytes: &[u8]) -> (r: String)
    ensures
        r@ == utf8_lossy_text(bytes@),
        valid_utf8(bytes@) ==> r@ == decode_utf8(bytes@),
{
    String::from_utf8_lossy(bytes).into_owned()
}

/// What `Path::new(path).with_file_name(name).to_string_lossy()` gives.
pub uninterp spec fn path_with_file_name_text(path: Seq<char>, name: Seq<char>) -> Seq<char>;

/// `Path::new(path).with_file_name(name)`, as text.
#[verifier::external_body]
pub(crate) fn path_with_file_name(path: &str, name: &str) -> (r: String)
    ensures
        r@ == path_with_file_name_text(path@, name@),
{
    std::path::Path::new(path).with_file_name(name).to_string_lossy().into_owned()
}

} // verus!
