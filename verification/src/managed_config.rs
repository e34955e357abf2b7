//! The enterprise-managed block in Codex's `config.toml`: how it is written,
//! how root model selections of the user's configuration are preserved around
//! it, and how the block is removed again.
use vstd::prelude::*;
use vstd::utf8::{decode_utf8, encode_utf8, valid_utf8};
use crate::error::{error_text, is_plain_failure, EnterpriseError};
use crate::outside::{
    base64_decode, base64_encode, base64_standard_decode, base64_standard_encode,
    is_base64_char, path_with_file_name, path_with_file_name_text, toml_edit_accepts,
    toml_edit_parse, toml_edit_parsed, toml_edit_remove_child, toml_edit_remove_root,
    toml_edit_render, toml_edit_rendered,
    toml_edit_root, toml_edit_root_str, toml_edit_table_has, toml_quote, toml_string_literal,
    root_table, root_table_has, root_text, TomlShape,
};
use crate::profile::EnterpriseProfile;
use crate::text::{
    append_chars, chars_eq, chars_of, contains, contains_exec, find, find_exec, join, join_exec,
    lemma_find, lines, lines_exec, occurs_at, occurs_at_exec, starts_with, starts_with_exec,
    string_of, sub_chars, trim, trim_chars, trim_end, trim_end_char, trim_end_char_chars,
    trim_end_chars, trim_start, trim_start_chars, views,
};

verus! {

broadcast use vstd::string::group_string_axioms;

/// First line of the managed block.
pub open spec fn begin_marker() -> Seq<char> {
    "# >>> codex-plus-plus enterprise managed block >>>"@
}

/// Last line of the managed block.
pub open spec fn end_marker() -> Seq<char> {
    "# <<< codex-plus-plus enterprise managed block <<<"@
}

/// Prefix of a root selection line kept, encoded, while the block is present.
pub open spec fn preserved_prefix() -> Seq<char> {
    "# codex-plus-plus enterprise preserved-root: "@
}

fn begin_marker_chars() -> (r: Vec<char>)
    ensures
        r@ == begin_marker(),
{
    chars_of("# >>> codex-plus-plus enterprise managed block >>>")
}

fn end_marker_chars() -> (r: Vec<char>)
    ensures
        r@ == end_marker(),
{
    chars_of("# <<< codex-plus-plus enterprise managed block <<<")
}

fn preserved_prefix_chars() -> (r: Vec<char>)
    ensures
        r@ == preserved_prefix(),
{
    chars_of("# codex-plus-plus enterprise preserved-root: ")
}

fn push_str(v: &mut Vec<char>, s: &str)
    ensures
        final(v)@ == old(v)@ + s@,
{
    append_chars(v, &chars_of(s));
}

fn push_string(v: &mut Vec<char>, s: &String)
    ensures
        final(v)@ == old(v)@ + s@,
{
    append_chars(v, &chars_of(s.as_str()));
}

/// The file name of the credential and image helper next to the manager.
pub open spec fn helper_file_name(windows: bool) -> Seq<char> {
    if windows {
        "codex-plus-image-mcp.exe"@
    } else {
        "codex-plus-image-mcp"@
    }
}

/// The path of the helper executable that sits next to `executable`.
pub fn image_helper_path(executable: &str, windows: bool) -> (r: String)
    ensures
        r@ == path_with_file_name_text(executable@, helper_file_name(windows)),
{
    if windows {
        path_with_file_name(executable, "codex-plus-image-mcp.exe")
    } else {
        path_with_file_name(executable, "codex-plus-image-mcp")
    }
}

/// The managed block for a profile; `helper` is the path of the helper executable.
pub open spec fn managed_block(helper: Seq<char>, p: EnterpriseProfile) -> Seq<char> {
    let gateway = trim_end_char(p.gateway_url@, '/');
    begin_marker() + "\nmodel = "@ + toml_string_literal(p.default_model@) + "\nmodel_provider = "@
        + toml_string_literal("company-ai"@) + "\n\nmodel_providers.company-ai.name = "@
        + toml_string_literal(p.display_name@) + "\nmodel_providers.company-ai.base_url = "@
        + toml_string_literal(gateway) + "\nmodel_providers.company-ai.wire_api = "@
        + toml_string_literal(p.wire_api@) + "\n\n[model_providers.company-ai.auth]\ncommand = "@
        + toml_string_literal(helper)
        + "\nargs = [\"--enterprise-credential\", \"get\"]\ntimeout_ms = 5000\nrefresh_interval_ms = 300000\n\n[mcp_servers.company_imagegen]\ncommand = "@
        + toml_string_literal(helper)
        + "\nstartup_timeout_sec = 30\ntool_timeout_sec = 300\n\n[mcp_servers.company_imagegen.env]\nCODEX_PLUS_IMAGE_BASE_URL = "@
        + toml_string_literal(gateway) + "\nCODEX_PLUS_RESPONSES_MODEL = "@ + toml_string_literal(
        "gpt-5.6-sol"@,
    ) + "\nCODEX_PLUS_IMAGE_MODEL = \"gpt-image-2\"\n"@ + end_marker()
}

/// The block starts with the begin marker and ends with the end marker.
pub proof fn lemma_managed_block_markers(helper: Seq<char>, p: EnterpriseProfile)
    ensures
        starts_with(managed_block(helper, p), begin_marker()),
        crate::text::ends_with(managed_block(helper, p), end_marker()),
        contains(managed_block(helper, p), begin_marker()),
        contains(managed_block(helper, p), end_marker()),
{
    let b = managed_block(helper, p);
    let n = b.len() as int;
    let el = end_marker().len() as int;
    assert(b.subrange(0, begin_marker().len() as int) =~= begin_marker());
    assert(b.subrange(n - el, n) =~= end_marker());
    assert(crate::text::occurs_at(b, begin_marker(), 0));
    assert(crate::text::occurs_at(b, end_marker(), n - el));
}

fn push_quoted(v: &mut Vec<char>, value: &str)
    ensures
        final(v)@ == old(v)@ + toml_string_literal(value@),
{
    let q = toml_quote(value);
    push_string(v, &q);
}

/// The managed block: the default model and the `company-ai` provider, whose
/// authentication runs the helper with `--enterprise-credential get`, and the
/// image-generation MCP server, both pointing at the gateway (trailing slashes
/// removed); it starts with the begin marker and ends with the end marker.
pub fn build_managed_block(helper: &str, profile: &EnterpriseProfile) -> (r: String)
    ensures
        r@ == managed_block(helper@, *profile),
{
    let gateway = string_of(&trim_end_char_chars(&chars_of(profile.gateway_url.as_str()), '/'));
    let mut v = begin_marker_chars();
    push_str(&mut v, "\nmodel = ");
    push_quoted(&mut v, profile.default_model.as_str());
    push_str(&mut v, "\nmodel_provider = ");
    push_quoted(&mut v, "company-ai");
    push_str(&mut v, "\n\nmodel_providers.company-ai.name = ");
    push_quoted(&mut v, profile.display_name.as_str());
    push_str(&mut v, "\nmodel_providers.company-ai.base_url = ");
    push_quoted(&mut v, gateway.as_str());
    push_str(&mut v, "\nmodel_providers.company-ai.wire_api = ");
    push_quoted(&mut v, profile.wire_api.as_str());
    push_str(&mut v, "\n\n[model_providers.company-ai.auth]\ncommand = ");
    push_quoted(&mut v, helper);
    push_str(
        &mut v,
        "\nargs = [\"--enterprise-credential\", \"get\"]\ntimeout_ms = 5000\nrefresh_interval_ms = 300000\n\n[mcp_servers.company_imagegen]\ncommand = ",
    );
    push_quoted(&mut v, helper);
    push_str(
        &mut v,
        "\nstartup_timeout_sec = 30\ntool_timeout_sec = 300\n\n[mcp_servers.company_imagegen.env]\nCODEX_PLUS_IMAGE_BASE_URL = ",
    );
    push_quoted(&mut v, gateway.as_str());
    push_str(&mut v, "\nCODEX_PLUS_RESPONSES_MODEL = ");
    push_quoted(&mut v, "gpt-5.6-sol");
    push_str(&mut v, "\nCODEX_PLUS_IMAGE_MODEL = \"gpt-image-2\"\n");
    let end = end_marker_chars();
    append_chars(&mut v, &end);
    string_of(&v)
}

/// Whether a configuration text holds both markers.
pub open spec fn spec_config_is_managed(text: Seq<char>) -> bool {
    contains(text, begin_marker()) && contains(text, end_marker())
}

/// Whether a configuration text holds both markers of the managed block.
pub fn config_is_managed(text: &str) -> (r: bool)
    ensures
        r == spec_config_is_managed(text@),
{
    let t = chars_of(text);
    contains_exec(&t, &begin_marker_chars()) && contains_exec(&t, &end_marker_chars())
}


/// The text with the managed block cut out, when both markers are present with
/// the end marker not before the begin marker (their first occurrences).
pub open spec fn marked_block_removed(t: Seq<char>) -> Option<Seq<char>> {
    match (find(t, begin_marker()), find(t, end_marker())) {
        (Some(b), Some(e)) => if e >= b {
            Some(trim(t.take(b) + t.skip(e + end_marker().len())))
        } else {
            None
        },
        _ => None,
    }
}

/// Lines other than the two marker lines (after trimming).
pub open spec fn without_marker_lines(ls: Seq<Seq<char>>) -> Seq<Seq<char>>
    decreases ls.len(),
{
    if ls.len() == 0 {
        seq![]
    } else {
        let rest = without_marker_lines(ls.drop_first());
        let t = trim(ls[0]);
        if t == begin_marker() || t == end_marker() {
            rest
        } else {
            seq![ls[0]] + rest
        }
    }
}

/// The root `model_provider` is `company-ai` and both the provider table and
/// the image-generation MCP server table are present.
pub open spec fn spec_enterprise_shape(
    model_provider: Option<Seq<char>>,
    has_provider: bool,
    has_image_helper: bool,
) -> bool {
    model_provider == Some("company-ai"@) && has_provider && has_image_helper
}

/// Whether a configuration has the shape of the managed block without its markers.
pub fn enterprise_shape(model_provider: Option<String>, has_provider: bool, has_image_helper: bool) -> (r: bool)
    ensures
        r == spec_enterprise_shape(
            match model_provider {
                Some(m) => Some(m@),
                None => None,
            },
            has_provider,
            has_image_helper,
        ),
{
    let is_company = match &model_provider {
        Some(m) => chars_eq(&chars_of(m.as_str()), &chars_of("company-ai")),
        None => false,
    };
    is_company && has_provider && has_image_helper
}

/// Whether a parsed document has the managed block's shape: the root
/// `model_provider` is `company-ai`, and the tables `model_providers` and
/// `mcp_servers` hold the provider and the image-generation server.
pub open spec fn document_has_enterprise_shape(root: Map<Seq<char>, TomlShape>) -> bool {
    spec_enterprise_shape(
        root_text(root, "model_provider"@),
        root_table_has(root, "model_providers"@, "company-ai"@),
        root_table_has(root, "mcp_servers"@, "company_imagegen"@),
    )
}

/// The root after `child` leaves the table `parent`, and `parent` itself leaves
/// when no entry is left in it; a root whose `parent` is not a table is unchanged.
pub open spec fn child_table_removed(
    root: Map<Seq<char>, TomlShape>,
    parent: Seq<char>,
    child: Seq<char>,
) -> Map<Seq<char>, TomlShape> {
    match root_table(root, parent) {
        Some(keys) => if keys.remove(child).is_empty() {
            root.remove(parent)
        } else {
            root.insert(parent, TomlShape::Table(keys.remove(child)))
        },
        None => root,
    }
}

/// The root once the managed entries leave it: `model` and `model_provider`
/// when the provider is `company-ai`, then the `company-ai` provider and the
/// `company_imagegen` server, each parent table going with its last entry.
pub open spec fn stripped_root(root: Map<Seq<char>, TomlShape>) -> Map<Seq<char>, TomlShape> {
    let unselected = if root_text(root, "model_provider"@) == Some("company-ai"@) {
        root.remove("model"@).remove("model_provider"@)
    } else {
        root
    };
    child_table_removed(
        child_table_removed(unselected, "model_providers"@, "company-ai"@),
        "mcp_servers"@,
        "company_imagegen"@,
    )
}

/// `clean` is what the structural repair of a document with this root gives:
/// the rendering of a document whose root is the stripped root, without
/// marker lines, trimmed.
pub open spec fn structurally_repaired(root: Map<Seq<char>, TomlShape>, clean: Seq<char>) -> bool {
    exists|d: toml_edit::DocumentMut|
        #![trigger toml_edit_rendered(d)]
        toml_edit_root(d) == stripped_root(root) && clean == trim(
            join(without_marker_lines(lines(toml_edit_rendered(d))), "\n"@),
        )
}

/// Whether either marker occurs in the text.
pub open spec fn mentions_marker(t: Seq<char>) -> bool {
    find(t, begin_marker()) is Some || find(t, end_marker()) is Some
}

fn has_managed_enterprise_shape(document: &toml_edit::DocumentMut) -> (r: bool)
    ensures
        r == document_has_enterprise_shape(toml_edit_root(*document)),
{
    let model_provider = toml_edit_root_str(document, "model_provider");
    let has_provider = toml_edit_table_has(document, "model_providers", "company-ai");
    let has_image_helper = toml_edit_table_has(document, "mcp_servers", "company_imagegen");
    enterprise_shape(model_provider, has_provider, has_image_helper)
}

fn remove_child_table(document: &mut toml_edit::DocumentMut, parent: &str, child: &str)
    ensures
        toml_edit_root(*final(document)) == child_table_removed(
            toml_edit_root(*old(document)),
            parent@,
            child@,
        ),
{
    if let Some(true) = toml_edit_remove_child(document, parent, child) {
        toml_edit_remove_root(document, parent);
        proof {
            let root = toml_edit_root(*old(document));
            let keys = root_table(root, parent@)->0;
            assert(root.insert(parent@, TomlShape::Table(keys.remove(child@))).remove(parent@)
                =~= root.remove(parent@));
        }
    }
}

pub proof fn lemma_without_marker_lines_push(ls: Seq<Seq<char>>, l: Seq<char>)
    ensures
        without_marker_lines(ls.push(l)) == without_marker_lines(ls) + (if trim(l)
            == begin_marker() || trim(l) == end_marker() {
            Seq::<Seq<char>>::empty()
        } else {
            seq![l]
        }),
    decreases ls.len(),
{
    let y = if trim(l) == begin_marker() || trim(l) == end_marker() {
        Seq::<Seq<char>>::empty()
    } else {
        seq![l]
    };
    if ls.len() == 0 {
        assert(ls.push(l).drop_first() =~= Seq::<Seq<char>>::empty());
        assert(ls.push(l)[0] == l);
        assert(without_marker_lines(ls.push(l).drop_first()) =~= Seq::<Seq<char>>::empty());
        assert(without_marker_lines(ls.push(l)) =~= y);
        assert(without_marker_lines(ls) + y =~= y);
    } else {
        assert(ls.push(l).drop_first() =~= ls.drop_first().push(l));
        assert(ls.push(l)[0] == ls[0]);
        lemma_without_marker_lines_push(ls.drop_first(), l);
        let rest = without_marker_lines(ls.drop_first());
        if trim(ls[0]) == begin_marker() || trim(ls[0]) == end_marker() {
        } else {
            assert(seq![ls[0]] + (rest + y) =~= (seq![ls[0]] + rest) + y);
        }
    }
}

/// `ls` without the marker lines.
pub fn drop_marker_lines(ls: &Vec<Vec<char>>) -> (r: Vec<Vec<char>>)
    ensures
        views(r@) == without_marker_lines(views(ls@)),
{
    let begin = begin_marker_chars();
    let end = end_marker_chars();
    let mut r: Vec<Vec<char>> = Vec::new();
    let mut i: usize = 0;
    while i < ls.len()
        invariant
            i <= ls@.len(),
            begin@ == begin_marker(),
            end@ == end_marker(),
            views(r@) == without_marker_lines(views(ls@).take(i as int)),
        decreases ls@.len() - i,
    {
        let t = trim_chars(&ls[i]);
        proof {
            assert(views(ls@).take(i + 1) =~= views(ls@).take(i as int).push(ls@[i as int]@));
            lemma_without_marker_lines_push(views(ls@).take(i as int), ls@[i as int]@);
        }
        if !(chars_eq(&t, &begin) || chars_eq(&t, &end)) {
            let ghost before = views(r@);
            r.push(ls[i].clone());
            assert(views(r@) =~= before + seq![ls@[i as int]@]);
        } else {
            assert(views(r@) =~= views(r@) + Seq::<Seq<char>>::empty());
        }
        i += 1;
    }
    assert(views(ls@).take(ls@.len() as int) =~= views(ls@));
    r
}

/// Removes the managed keys and tables through `toml_edit`: the root `model`
/// and `model_provider` when the provider is `company-ai`, the provider table
/// and the image-generation MCP server table (and a parent table left empty);
/// then drops any marker line left and trims.
fn strip_managed_tables(original: toml_edit::DocumentMut) -> (r: String)
    ensures
        structurally_repaired(toml_edit_root(original), r@),
{
    let mut document = original;
    let provider = toml_edit_root_str(&document, "model_provider");
    let is_company = match &provider {
        Some(m) => chars_eq(&chars_of(m.as_str()), &chars_of("company-ai")),
        None => false,
    };
    if is_company {
        toml_edit_remove_root(&mut document, "model");
        toml_edit_remove_root(&mut document, "model_provider");
    }
    remove_child_table(&mut document, "model_providers", "company-ai");
    remove_child_table(&mut document, "mcp_servers", "company_imagegen");
    assert(toml_edit_root(document) == stripped_root(toml_edit_root(original)));
    let rendered = chars_of(toml_edit_render(&document).as_str());
    let kept = drop_marker_lines(&lines_exec(&rendered));
    let joined = join_exec(&kept, &chars_of("\n"));
    let r = string_of(&trim_chars(&joined));
    assert(r@ == trim(join(without_marker_lines(lines(toml_edit_rendered(document))), "\n"@)));
    r
}

/// Removes the managed block from a configuration text. With both markers in
/// order the text between them (markers included) is cut out and the result
/// trimmed. Otherwise the text must be TOML; a text with neither marker and
/// without the block's shape is returned unchanged, and any other is repaired
/// structurally.
pub fn remove_managed_block_text(text: &str) -> (r: Result<String, EnterpriseError>)
    ensures
        marked_block_removed(text@) matches Some(x) ==> (r matches Ok(y) && y@ == x),
        marked_block_removed(text@) is None && !toml_edit_accepts(text@) ==> (r matches Err(e)
            && error_text(e)
            == "Enterprise configuration cannot be recovered because config.toml is invalid"@),
        r is Ok <==> (marked_block_removed(text@) is Some || toml_edit_accepts(text@)),
        r matches Ok(y) ==> removal_candidate(text@, y@),
{
    let t = chars_of(text);
    let begin = begin_marker_chars();
    let end = end_marker_chars();
    let b = find_exec(&t, &begin);
    let e = find_exec(&t, &end);
    proof {
        lemma_find(t@, begin@);
        lemma_find(t@, end@);
    }
    if let (Some(b), Some(e)) = (b, e) {
        if e >= b {
            let tl = t.len();
            assert(occurs_at(t@, end@, e as int));
            assert(e + end@.len() <= tl);
            let mut v = sub_chars(&t, 0, b);
            let tail = sub_chars(&t, e + end.len(), t.len());
            assert(tail@ =~= t@.skip(e + end_marker().len()));
            append_chars(&mut v, &tail);
            return Ok(string_of(&trim_chars(&v)));
        }
    }
    let document = match toml_edit_parse(text) {
        Ok(document) => document,
        Err(cause) => {
            return Err(
                EnterpriseError::with_context(
                    "Enterprise configuration cannot be recovered because config.toml is invalid",
                    cause,
                ),
            );
        },
    };
    let marker_damaged = b.is_some() || e.is_some();
    if !marker_damaged && !has_managed_enterprise_shape(&document) {
        return Ok(text.to_string());
    }
    Ok(strip_managed_tables(document))
}


/// A root setting that selects the model or the model provider.
pub open spec fn is_root_selection(trimmed: Seq<char>) -> bool {
    starts_with(trimmed, "model ="@) || starts_with(trimmed, "model_provider ="@)
}

/// A preserved root selection line: the prefix and the base64 of the line's UTF-8.
pub open spec fn preserved_line(line: Seq<char>) -> Seq<char> {
    preserved_prefix() + base64_standard_encode(encode_utf8(line))
}

/// Lines with the root selections (lines before the first table header that
/// start with `model =` or `model_provider =`) replaced by preserved lines.
pub open spec fn preserve_lines(ls: Seq<Seq<char>>, root: bool) -> Seq<Seq<char>>
    decreases ls.len(),
{
    if ls.len() == 0 {
        seq![]
    } else {
        let t = trim_start(ls[0]);
        let still_root = root && !starts_with(t, "["@);
        let out = if still_root && is_root_selection(t) {
            preserved_line(ls[0])
        } else {
            ls[0]
        };
        seq![out] + preserve_lines(ls.drop_first(), still_root)
    }
}

/// `m` is how `l` is written after preserving: unchanged, or a preserved line
/// whose base64 part decodes back to the line's UTF-8.
pub open spec fn preserved_as(l: Seq<char>, m: Seq<char>) -> bool {
    ||| m == l
    ||| {
        &&& m == preserved_line(l)
        &&& m.len() > preserved_prefix().len()
        &&& forall|i: int| preserved_prefix().len() <= i < m.len() ==> is_base64_char(#[trigger] m[i])
        &&& base64_standard_decode(m.skip(preserved_prefix().len() as int)) == Some(encode_utf8(l))
    }
}

/// Texts on which restoring gives back the lines that preserving saw: no line
/// starts with the preserved prefix, no line but the last ends with `'\r'`,
/// and the last line is not empty.
pub open spec fn round_trips(text: Seq<char>) -> bool {
    let ls = lines(text);
    &&& forall|k: int| 0 <= k < ls.len() ==> !starts_with(#[trigger] ls[k], preserved_prefix())
    &&& forall|k: int| 0 <= k < ls.len() - 1 ==> crate::text::no_trailing_cr(#[trigger] ls[k])
    &&& ls.len() > 0 ==> ls.last().len() > 0
}

pub open spec fn spec_preserve_root_selections(text: Seq<char>) -> Seq<char> {
    join(preserve_lines(lines(text), true), "\n"@)
}

/// One line after restoring: a preserved line decoded back, any other line as it is.
pub open spec fn restore_line(line: Seq<char>) -> Option<Seq<char>> {
    if starts_with(line, preserved_prefix()) {
        match base64_standard_decode(line.skip(preserved_prefix().len() as int)) {
            Some(bytes) => if valid_utf8(bytes) {
                Some(decode_utf8(bytes))
            } else {
                None
            },
            None => None,
        }
    } else {
        Some(line)
    }
}

pub open spec fn restore_lines(ls: Seq<Seq<char>>) -> Option<Seq<Seq<char>>>
    decreases ls.len(),
{
    if ls.len() == 0 {
        Some(seq![])
    } else {
        match restore_line(ls[0]) {
            None => None,
            Some(x) => match restore_lines(ls.drop_first()) {
                None => None,
                Some(rest) => Some(seq![x] + rest),
            },
        }
    }
}

pub open spec fn spec_restore_root_selections(text: Seq<char>) -> Option<Seq<char>> {
    match restore_lines(lines(text)) {
        Some(ls) => Some(join(ls, "\n"@)),
        None => None,
    }
}

pub proof fn lemma_encode_utf8_len(s: Seq<char>)
    ensures
        encode_utf8(s).len() <= 4 * s.len(),
    decreases s.len(),
{
    if s.len() > 0 {
        lemma_encode_utf8_len(s.drop_first());
    }
}

pub proof fn lemma_lines_short(t: Seq<char>)
    ensures
        forall|i: int| 0 <= i < lines(t).len() ==> #[trigger] lines(t)[i].len() <= t.len(),
    decreases t.len(),
{
    if t.len() > 0 {
        let i = crate::text::newline_index(t, 0);
        crate::text::lemma_newline_index(t, 0);
        if i < t.len() {
            lemma_lines_short(t.skip(i + 1));
            assert forall|k: int| 0 <= k < lines(t).len() implies #[trigger] lines(t)[k].len()
                <= t.len() by {
                if k > 0 {
                    assert(lines(t)[k] == lines(t.skip(i + 1))[k - 1]);
                }
            }
        }
    }
}

pub proof fn lemma_preserve_lines_len(ls: Seq<Seq<char>>, root: bool)
    ensures
        preserve_lines(ls, root).len() == ls.len(),
    decreases ls.len(),
{
    if ls.len() > 0 {
        let t = trim_start(ls[0]);
        lemma_preserve_lines_len(ls.drop_first(), root && !starts_with(t, "["@));
    }
}

pub proof fn lemma_preserve_lines_step(ls: Seq<Seq<char>>, i: int, root: bool)
    requires
        0 <= i < ls.len(),
    ensures
        ({
            let t = trim_start(ls[i]);
            let still_root = root && !starts_with(t, "["@);
            let out = if still_root && is_root_selection(t) {
                preserved_line(ls[i])
            } else {
                ls[i]
            };
            preserve_lines(ls.skip(i), root) == seq![out] + preserve_lines(
                ls.skip(i + 1),
                still_root,
            )
        }),
{
    assert(ls.skip(i)[0] == ls[i]);
    assert(ls.skip(i).drop_first() =~= ls.skip(i + 1));
}

/// Replaces each root `model = ...` or `model_provider = ...` line (before the
/// first table header) by the preserved prefix followed by the base64 of the
/// line, so that the selection is kept but inactive while the managed block
/// sets its own; lines are joined by `'\n'`. Restoring the result gives back
/// the text's lines joined by `'\n'` (see [`round_trips`] for the texts this is
/// stated on).
pub fn preserve_root_selections(text: &str) -> (r: String)
    requires
        text@.len() <= usize::MAX / 8,
    ensures
        r@ == spec_preserve_root_selections(text@),
        preserve_lines(lines(text@), true).len() == lines(text@).len(),
        forall|k: int|
            0 <= k < lines(text@).len() ==> preserved_as(
                lines(text@)[k],
                #[trigger] preserve_lines(lines(text@), true)[k],
            ),
        round_trips(text@) ==> spec_restore_root_selections(r@) == Some(
            join(lines(text@), "\n"@),
        ),
{
    let t = chars_of(text);
    let ls = lines_exec(&t);
    let prefix = preserved_prefix_chars();
    let mut out: Vec<Vec<char>> = Vec::new();
    let mut root = true;
    let mut i: usize = 0;
    proof {
        lemma_lines_short(t@);
        assert(views(ls@).skip(0) =~= views(ls@));
    }
    while i < ls.len()
        invariant
            i <= ls@.len(),
            prefix@ == preserved_prefix(),
            views(ls@) == lines(text@),
            text@.len() <= usize::MAX / 8,
            forall|k: int| 0 <= k < lines(text@).len() ==> #[trigger] lines(text@)[k].len()
                <= text@.len(),
            views(out@) + preserve_lines(views(ls@).skip(i as int), root) == preserve_lines(
                views(ls@),
                true,
            ),
            out@.len() == i,
            forall|k: int| 0 <= k < i ==> preserved_as(views(ls@)[k], #[trigger] views(out@)[k]),
        decreases ls@.len() - i,
    {
        let line = &ls[i];
        assert(views(ls@)[i as int] == line@);
        proof {
            lemma_preserve_lines_len(views(ls@).skip(i as int), root);
        }
        proof {
            lemma_preserve_lines_step(views(ls@), i as int, root);
        }
        let trimmed = trim_start_chars(line);
        if starts_with_exec(&trimmed, &chars_of("[")) {
            root = false;
        }
        let ghost before = views(out@);
        if root && (starts_with_exec(&trimmed, &chars_of("model =")) || starts_with_exec(
            &trimmed,
            &chars_of("model_provider ="),
        )) {
            let line_text = string_of(line);
            proof {
                lemma_encode_utf8_len(line@);
                assert(line@.len() <= text@.len());
            }
            let encoded = base64_encode(line_text.as_str().as_bytes());
            let mut v = prefix.clone();
            append_chars(&mut v, &chars_of(encoded.as_str()));
            proof {
                assert(line@.len() > 0) by {
                    crate::text::lemma_trim_start_is_suffix(line@);
                    reveal_strlit("model =");
                    reveal_strlit("model_provider =");
                }
                assert(encode_utf8(line@).len() > 0);
                assert(v@.skip(preserved_prefix().len() as int) =~= encoded@);
                assert forall|j: int| preserved_prefix().len() <= j < v@.len() implies is_base64_char(#[trigger] v@[j]) by {
                    assert(v@[j] == encoded@[j - preserved_prefix().len()]);
                }
                assert(preserved_as(line@, v@));
            }
            out.push(v);
        } else {
            out.push(line.clone());
        }
        assert(views(out@) =~= before.push(views(out@).last()));
        assert(before.push(views(out@).last()) + preserve_lines(views(ls@).skip(i + 1), root)
            =~= before + (seq![views(out@).last()] + preserve_lines(views(ls@).skip(i + 1), root)));
        assert(preserved_as(views(ls@)[i as int], views(out@)[i as int]));
        assert forall|k: int| 0 <= k < i + 1 implies preserved_as(views(ls@)[k], #[trigger] views(out@)[k]) by {
            if k < i {
                assert(views(out@)[k] == before[k]);
            }
        }
        i += 1;
    }
    assert(views(ls@).skip(ls@.len() as int) =~= Seq::<Seq<char>>::empty());
    assert(views(out@) + Seq::<Seq<char>>::empty() =~= views(out@));
    let joined = join_exec(&out, &chars_of("\n"));
    proof {
        lemma_preserve_lines_len(views(ls@), true);
        lemma_preserve_round_trip(text@, views(out@));
    }
    string_of(&joined)
}

pub proof fn lemma_restore_pointwise(m: Seq<Seq<char>>, l: Seq<Seq<char>>)
    requires
        m.len() == l.len(),
        forall|k: int| 0 <= k < m.len() ==> restore_line(#[trigger] m[k]) == Some(l[k]),
    ensures
        restore_lines(m) == Some(l),
    decreases m.len(),
{
    if m.len() > 0 {
        assert(restore_line(m[0]) == Some(l[0]));
        assert forall|k: int| 0 <= k < m.drop_first().len() implies restore_line(
            #[trigger] m.drop_first()[k],
        ) == Some(l.drop_first()[k]) by {
            assert(m.drop_first()[k] == m[k + 1]);
            assert(restore_line(m[k + 1]) == Some(l[k + 1]));
        }
        lemma_restore_pointwise(m.drop_first(), l.drop_first());
        assert(seq![l[0]] + l.drop_first() =~= l);
    }
}

/// A preserved line restores to the line it was made from.
pub proof fn lemma_restore_preserved(l: Seq<char>, m: Seq<char>)
    requires
        preserved_as(l, m),
        !starts_with(l, preserved_prefix()),
    ensures
        restore_line(m) == Some(l),
{
    if m != l {
        assert(m.subrange(0, preserved_prefix().len() as int) =~= preserved_prefix());
        vstd::utf8::encode_utf8_valid_utf8(l);
        vstd::utf8::encode_utf8_decode_utf8(l);
    }
}

proof fn lemma_preserve_round_trip(text: Seq<char>, m: Seq<Seq<char>>)
    requires
        m == preserve_lines(lines(text), true),
        m.len() == lines(text).len(),
        forall|k: int| 0 <= k < m.len() ==> preserved_as(lines(text)[k], #[trigger] m[k]),
    ensures
        round_trips(text) ==> spec_restore_root_selections(join(m, "\n"@)) == Some(
            join(lines(text), "\n"@),
        ),
{
    if round_trips(text) {
        let ls = lines(text);
        reveal_strlit("\n");
        reveal_strlit("# codex-plus-plus enterprise preserved-root: ");
        assert("\n"@ =~= seq!['\n']);
        crate::text::lemma_lines_no_newline(text);
        assert forall|k: int| 0 <= k < m.len() implies crate::text::no_newline(#[trigger] m[k]) by {
            assert(preserved_as(ls[k], m[k]));
            if m[k] != ls[k] {
                assert forall|j: int| 0 <= j < m[k].len() implies m[k][j] != '\n' by {
                    if j < preserved_prefix().len() {
                        assert(m[k][j] == preserved_prefix()[j]);
                    } else {
                        assert(is_base64_char(m[k][j]));
                    }
                }
            }
        }
        assert forall|k: int| 0 <= k < m.len() - 1 implies crate::text::no_trailing_cr(#[trigger] m[k]) by {
            assert(preserved_as(ls[k], m[k]));
            if m[k] != ls[k] {
                assert(is_base64_char(m[k][m[k].len() - 1]));
            }
        }
        if m.len() > 0 {
            assert(preserved_as(ls[m.len() - 1], m[m.len() - 1]));
        }
        assert(crate::text::rejoinable(m));
        crate::text::lemma_lines_join(m);
        assert forall|k: int| 0 <= k < m.len() implies restore_line(#[trigger] m[k]) == Some(ls[k]) by {
            lemma_restore_preserved(ls[k], m[k]);
        }
        lemma_restore_pointwise(m, ls);
    }
}

pub proof fn lemma_restore_lines_step(ls: Seq<Seq<char>>, i: int)
    requires
        0 <= i < ls.len(),
    ensures
        restore_lines(ls.skip(i)) == match restore_line(ls[i]) {
            None => None,
            Some(x) => match restore_lines(ls.skip(i + 1)) {
                None => None,
                Some(rest) => Some(seq![x] + rest),
            },
        },
{
    assert(ls.skip(i)[0] == ls[i]);
    assert(ls.skip(i).drop_first() =~= ls.skip(i + 1));
}

/// Decodes every preserved line back into the root selection it holds; other
/// lines are kept. Fails when a preserved line is not valid base64 of UTF-8.
pub fn restore_root_selections(text: &str) -> (r: Result<String, EnterpriseError>)
    ensures
        r is Ok <==> spec_restore_root_selections(text@) is Some,
        r matches Ok(s) ==> Some(s@) == spec_restore_root_selections(text@),
{
    let t = chars_of(text);
    let ls = lines_exec(&t);
    let prefix = preserved_prefix_chars();
    let mut out: Vec<Vec<char>> = Vec::new();
    let mut i: usize = 0;
    assert(views(ls@).skip(0) =~= views(ls@));
    while i < ls.len()
        invariant
            i <= ls@.len(),
            prefix@ == preserved_prefix(),
            views(ls@) == lines(text@),
            restore_lines(views(ls@)) == match restore_lines(views(ls@).skip(i as int)) {
                None => None,
                Some(rest) => Some(views(out@) + rest),
            },
        decreases ls@.len() - i,
    {
        let line = &ls[i];
        assert(views(ls@)[i as int] == line@);
        proof {
            lemma_restore_lines_step(views(ls@), i as int);
        }
        let ghost before = views(out@);
        if starts_with_exec(line, &prefix) {
            let encoded = sub_chars(line, prefix.len(), line.len());
            assert(encoded@ =~= line@.skip(preserved_prefix().len() as int));
            let bytes = match base64_decode(string_of(&encoded).as_str()) {
                Ok(bytes) => bytes,
                Err(cause) => {
                    return Err(EnterpriseError::message(cause.as_str()));
                },
            };
            let decoded = match crate::outside::string_from_utf8(bytes) {
                Ok(s) => s,
                Err(cause) => {
                    return Err(
                        EnterpriseError::with_context(
                            "Preserved Codex root setting is invalid",
                            cause,
                        ),
                    );
                },
            };
            out.push(chars_of(decoded.as_str()));
        } else {
            out.push(line.clone());
        }
        proof {
            assert(views(out@) =~= before.push(views(out@).last()));
            match restore_lines(views(ls@).skip(i + 1)) {
                None => {},
                Some(rest) => {
                    assert(before.push(views(out@).last()) + rest =~= before + (seq![
                        views(out@).last(),
                    ] + rest));
                },
            }
        }
        i += 1;
    }
    assert(views(ls@).skip(ls@.len() as int) =~= Seq::<Seq<char>>::empty());
    assert(views(out@) + Seq::<Seq<char>>::empty() =~= views(out@));
    let joined = join_exec(&out, &chars_of("\n"));
    Ok(string_of(&joined))
}


/// Where the first table header line starts (a line whose trimmed start is
/// `[`), or the text's length when there is none.
pub open spec fn table_offset(t: Seq<char>) -> int
    decreases t.len(),
{
    if t.len() == 0 {
        0
    } else {
        let i = crate::text::newline_index(t, 0);
        let line = if i >= t.len() {
            t
        } else {
            crate::text::strip_cr(t.take(i))
        };
        if starts_with(trim_start(line), "["@) {
            0
        } else if i >= t.len() {
            t.len() as int
        } else {
            proof {
                crate::text::lemma_newline_index(t, 0);
            }
            i + 1 + table_offset(t.skip(i + 1))
        }
    }
}

pub proof fn lemma_table_offset(t: Seq<char>)
    ensures
        0 <= table_offset(t) <= t.len(),
    decreases t.len(),
{
    if t.len() > 0 {
        let i = crate::text::newline_index(t, 0);
        crate::text::lemma_newline_index(t, 0);
        if i < t.len() {
            lemma_table_offset(t.skip(i + 1));
        }
    }
}

/// Splits a configuration before its first table header: TOML cannot return to
/// the root table after a table, so root settings must be written before the
/// managed block's tables.
pub fn split_root_preamble(text: &[char]) -> (r: (Vec<char>, Vec<char>))
    ensures
        r.0@ == text@.take(table_offset(text@)),
        r.1@ == text@.skip(table_offset(text@)),
{
    let mut start: usize = 0;
    let open = chars_of("[");
    assert(text@.skip(0) =~= text@);
    let mut offset: usize = 0;
    loop
        invariant_except_break
            start <= text@.len(),
            open@ == "["@,
            table_offset(text@) == start + table_offset(text@.skip(start as int)),
        ensures
            offset <= text@.len(),
            offset == table_offset(text@),
        decreases text@.len() - start,
    {
        if start == text.len() {
            assert(text@.skip(start as int) =~= Seq::<char>::empty());
            offset = start;
            break;
        }
        let ghost rest = text@.skip(start as int);
        let i = crate::text::newline_index_exec(text, start);
        proof {
            crate::text::lemma_newline_index(text@, start as int);
            crate::text::lemma_newline_index_shift(text@, start as int, 0);
        }
        let raw = sub_chars(text, start, i);
        let line = if i < text.len() && raw.len() > 0 && raw[raw.len() - 1] == '\r' {
            sub_chars(&raw, 0, raw.len() - 1)
        } else {
            raw
        };
        proof {
            if i >= text.len() {
                assert(raw@ =~= rest);
            } else {
                assert(raw@ =~= rest.take(i - start));
                assert(rest.skip(i - start + 1) =~= text@.skip(i + 1));
            }
        }
        if starts_with_exec(&trim_start_chars(&line), &open) {
            offset = start;
            break;
        }
        if i >= text.len() {
            offset = text.len();
            break;
        }
        start = i + 1;
    }
    proof {
        lemma_table_offset(text@);
    }
    (sub_chars(text, 0, offset), sub_chars(text, offset, text.len()))
}

/// A line that sets a key of the `company-ai` provider outside the managed block.
pub open spec fn sets_company_provider(line: Seq<char>) -> bool {
    starts_with(trim_start(line), "model_providers.company-ai."@)
}

pub open spec fn has_unmanaged_provider(ls: Seq<Seq<char>>) -> bool {
    exists|i: int| 0 <= i < ls.len() && sets_company_provider(#[trigger] ls[i])
}

/// The sections of the written configuration: the trimmed root settings (if
/// any), the managed block, and the trimmed tables (if any).
pub open spec fn config_sections(root: Seq<char>, block: Seq<char>, tables: Seq<char>) -> Seq<
    Seq<char>,
> {
    (if root.len() > 0 {
        seq![root]
    } else {
        Seq::<Seq<char>>::empty()
    }) + seq![block] + (if tables.len() > 0 {
        seq![tables]
    } else {
        Seq::<Seq<char>>::empty()
    })
}

/// The configuration written around a managed block: the configuration
/// without its trailing whitespace and with its root selections preserved is
/// split before its first table; then root settings, block and tables are
/// joined by blank lines and end with a newline.
pub open spec fn merged_config(clean: Seq<char>, block: Seq<char>) -> Seq<char> {
    let p = spec_preserve_root_selections(trim_end(clean));
    let off = table_offset(p);
    join(config_sections(trim(p.take(off)), block, trim(p.skip(off))), "\n\n"@) + "\n"@
}

/// A configuration the law of [`compose_managed_config`] speaks of: it holds
/// neither marker, and no line of it reads, after leading whitespace, as a
/// preserved root setting.
pub open spec fn restorable_config(clean: Seq<char>) -> bool {
    &&& crate::config_laws::plain_text(clean)
    &&& !contains(clean, begin_marker())
    &&& !contains(clean, end_marker())
}

/// A block that starts with the begin marker and holds the end marker only at its end.
pub open spec fn well_formed_block(block: Seq<char>) -> bool {
    &&& starts_with(block, begin_marker())
    &&& find(block, end_marker()) == Some(block.len() - end_marker().len())
}

/// Removing the managed block from `written` and restoring the root
/// selections gives back the settings of `clean`: its lines that are not
/// blank, trimmed, in order.
pub open spec fn settings_come_back(clean: Seq<char>, written: Seq<char>) -> bool {
    marked_block_removed(written) matches Some(x) && restored_config(x) matches Some(y)
        && crate::config_laws::content(lines(y)) == crate::config_laws::content(lines(clean))
}

/// Provisioning into a TOML configuration that holds no marker and not the
/// block's shape, then removing the block, gives back that configuration's
/// settings. The premises on `clean` and `written` are what
/// [`write_managed_config`] states of a successful write.
pub proof fn lemma_unmarked_write_then_remove(
    original: Seq<char>,
    clean: Seq<char>,
    block: Seq<char>,
    written: Seq<char>,
)
    requires
        toml_edit_parsed(original) matches Some(root) && !document_has_enterprise_shape(root),
        restorable_config(original),
        well_formed_block(block),
        removal_candidate(original, clean),
        written == merged_config(clean, block),
        restorable_config(clean) && well_formed_block(block) ==> settings_come_back(clean, written),
    ensures
        clean == original,
        determined_removal(written) matches Some(x) && restored_config(x) matches Some(y)
            && crate::config_laws::content(lines(y)) == crate::config_laws::content(lines(original)),
{
    crate::text::lemma_find(original, begin_marker());
    crate::text::lemma_find(original, end_marker());
    assert(marked_block_removed(original) is None);
    assert(!mentions_marker(original));
}

/// Places the managed block into a configuration from which any earlier block
/// was removed. Refused when the configuration already sets the `company-ai`
/// provider itself. Removing the block again gives back the configuration's
/// settings ([`settings_come_back`]) for a configuration and block as
/// [`restorable_config`] and [`well_formed_block`] describe.
pub fn compose_managed_config(clean: &str, block: &str) -> (r: Result<String, EnterpriseError>)
    requires
        clean@.len() <= usize::MAX / 8,
    ensures
        has_unmanaged_provider(lines(clean@)) ==> (r matches Err(e) && is_plain_failure(
            e,
            "An unmanaged company-ai provider already exists"@,
        )),
        !has_unmanaged_provider(lines(clean@)) ==> (r matches Ok(s) && s@ == merged_config(
            clean@,
            block@,
        )),
        !has_unmanaged_provider(lines(clean@)) && restorable_config(clean@) && well_formed_block(
            block@,
        ) ==> (r matches Ok(s) && settings_come_back(clean@, s@)),
        !has_unmanaged_provider(lines(clean@)) && contains(block@, begin_marker()) && contains(
            block@,
            end_marker(),
        ) ==> (r matches Ok(s) && spec_config_is_managed(s@)),
{
    let t = chars_of(clean);
    let ls = lines_exec(&t);
    let marker = chars_of("model_providers.company-ai.");
    let mut i: usize = 0;
    while i < ls.len()
        invariant
            i <= ls@.len(),
            marker@ == "model_providers.company-ai."@,
            views(ls@) == lines(clean@),
            forall|k: int| 0 <= k < i ==> !sets_company_provider(#[trigger] views(ls@)[k]),
        decreases ls@.len() - i,
    {
        assert(views(ls@)[i as int] == ls@[i as int]@);
        if starts_with_exec(&trim_start_chars(&ls[i]), &marker) {
            return Err(EnterpriseError::message("An unmanaged company-ai provider already exists"));
        }
        i += 1;
    }
    let trimmed = string_of(&trim_end_chars(&t));
    proof {
        crate::text::lemma_trim_end_is_prefix(t@);
    }
    let preserved = chars_of(preserve_root_selections(trimmed.as_str()).as_str());
    proof {
        if restorable_config(clean@) && well_formed_block(block@) {
            crate::config_laws::lemma_managed_config_round_trip(clean@, block@);
        }
        if contains(block@, begin_marker()) && contains(block@, end_marker()) {
            crate::config_laws::lemma_written_config_is_managed(clean@, block@);
        }
    }
    let (root, tables) = split_root_preamble(&preserved);
    let root = trim_chars(&root);
    let tables = trim_chars(&tables);
    let mut sections: Vec<Vec<char>> = Vec::new();
    if root.len() > 0 {
        sections.push(root);
    }
    sections.push(chars_of(block));
    if tables.len() > 0 {
        sections.push(tables);
    }
    assert(views(sections@) =~= config_sections(root@, block@, tables@));
    let mut out = join_exec(&sections, &chars_of("\n\n"));
    append_chars(&mut out, &chars_of("\n"));
    Ok(string_of(&out))
}

/// The key path of the bearer token that older versions wrote into the block.
pub open spec fn legacy_token_path() -> Seq<Seq<char>> {
    seq!["model_providers"@, "company-ai"@, "experimental_bearer_token"@]
}

/// The credential that older versions wrote into the managed block: the text
/// from the begin marker to the first end marker after it is read as TOML and
/// `model_providers.company-ai.experimental_bearer_token` is taken, trimmed,
/// when not empty.
pub open spec fn spec_legacy_bearer_token(config: Seq<char>) -> Option<Seq<char>> {
    match find(config, begin_marker()) {
        None => None,
        Some(b) => match find(config.skip(b), end_marker()) {
            None => None,
            Some(re) => match crate::outside::toml_document_strings(
                config.subrange(b, b + re + end_marker().len()),
            ) {
                None => None,
                Some(m) => if m.contains_key(legacy_token_path()) && trim(
                    m[legacy_token_path()],
                ).len() > 0 {
                    Some(trim(m[legacy_token_path()]))
                } else {
                    None
                },
            },
        },
    }
}

pub fn managed_legacy_bearer_token(config: &str) -> (r: Option<String>)
    ensures
        r matches Some(s) ==> spec_legacy_bearer_token(config@) == Some(s@),
        r is None ==> spec_legacy_bearer_token(config@) is None,
{
    let t = chars_of(config);
    let begin = begin_marker_chars();
    let end = end_marker_chars();
    let b = match find_exec(&t, &begin) {
        Some(b) => b,
        None => return None,
    };
    proof {
        lemma_find(t@, begin@);
    }
    let rest = sub_chars(&t, b, t.len());
    assert(rest@ =~= t@.skip(b as int));
    let re = match find_exec(&rest, &end) {
        Some(re) => re,
        None => return None,
    };
    proof {
        lemma_find(rest@, end@);
    }
    let managed = sub_chars(&t, b, b + re + end.len());
    proof {
        assert(legacy_token_path() =~= seq![
            "model_providers"@,
            "company-ai"@,
            "experimental_bearer_token"@,
        ]);
    }
    let found = match crate::outside::toml_string_at(
        string_of(&managed).as_str(),
        "model_providers",
        "company-ai",
        "experimental_bearer_token",
    ) {
        Ok(found) => found,
        Err(_) => return None,
    };
    match found {
        Some(value) => {
            let v = trim_chars(&chars_of(value.as_str()));
            if v.len() > 0 {
                Some(string_of(&v))
            } else {
                None
            }
        },
        None => None,
    }
}

/// The configuration after removing the managed block and restoring the
/// preserved root selections, trimmed; `None` when restoring fails.
pub open spec fn restored_config(without_block: Seq<char>) -> Option<Seq<char>> {
    match spec_restore_root_selections(without_block) {
        Some(z) => Some(trim(z)),
        None => None,
    }
}

/// Removing the managed block from `t` can succeed, and whatever it gives
/// restores its root selections into a text that reads as TOML.
pub open spec fn removal_always_restores(t: Seq<char>) -> bool {
    &&& marked_block_removed(t) is Some || toml_edit_accepts(t)
    &&& forall|c: Seq<char>|
        #![trigger removal_candidate(t, c)]
        removal_candidate(t, c) ==> (restored_config(c) matches Some(y)
            && crate::outside::toml_document_strings(y) is Some)
}

/// Removes the managed block and restores the root selections it displaced.
/// The result must read as TOML.
pub fn remove_managed_config(original: &str) -> (r: Result<String, EnterpriseError>)
    ensures
        determined_removal(original@) matches Some(x) ==> match restored_config(x) {
            None => r is Err,
            Some(y) => if crate::outside::toml_document_strings(y) is Some {
                r matches Ok(s) && s@ == y
            } else {
                r matches Err(e) && error_text(e)
                    == "Generated enterprise Codex configuration is invalid TOML"@
            },
        },
        marked_block_removed(original@) is None && !toml_edit_accepts(original@) ==> r is Err,
        removal_always_restores(original@) ==> r is Ok,
        r matches Ok(s) ==> {
            &&& crate::outside::toml_document_strings(s@) is Some
            &&& exists|clean: Seq<char>|
                #![trigger removal_candidate(original@, clean)]
                removal_candidate(original@, clean) && restored_config(clean) == Some(s@)
        },
{
    let without_block = remove_managed_block_text(original)?;
    assert(removal_candidate(original@, without_block@));
    let restored = restore_root_selections(without_block.as_str())?;
    let result = string_of(&trim_chars(&chars_of(restored.as_str())));
    match crate::outside::toml_check(result.as_str()) {
        Ok(_) => Ok(result),
        Err(cause) => Err(
            EnterpriseError::with_context(
                "Generated enterprise Codex configuration is invalid TOML",
                cause,
            ),
        ),
    }
}


/// A configuration file as it was read.
#[derive(Debug, Clone)]
pub enum ConfigText {
    Missing,
    Unreadable(String),
    Present(String),
}

/// What provisioning writes: the new `config.toml`, and the new `auth.json`
/// when it has to change.
#[derive(Debug)]
pub struct ManagedWrite {
    pub config: String,
    pub auth: Option<crate::json::Json>,
}

/// The credentials that `auth.json` is cleaned of: the current one and, when
/// present, the one an older block held.
pub open spec fn cleanup_credentials(credential: Option<Seq<char>>, legacy: Option<Seq<char>>) -> Seq<Seq<char>> {
    (match credential {
        Some(c) => seq![c],
        None => Seq::<Seq<char>>::empty(),
    }) + (match legacy {
        Some(l) => seq![l],
        None => Seq::<Seq<char>>::empty(),
    })
}

/// An `auth.json` that clean-up can work on: absent, or a JSON object.
pub open spec fn auth_writable(auth: crate::json::JsonInput) -> bool {
    auth matches crate::json::JsonInput::Missing || auth matches crate::json::JsonInput::Present(
        crate::json::Json::Object(_),
    )
}

/// `clean` is what removing the managed block from `original` gives: the text
/// around an ordered marker pair; otherwise, for a TOML text, the text itself
/// when it mentions no marker and lacks the block's shape, and its structural
/// repair when it does.
pub open spec fn removal_candidate(original: Seq<char>, clean: Seq<char>) -> bool {
    match marked_block_removed(original) {
        Some(x) => clean == x,
        None => match toml_edit_parsed(original) {
            Some(root) => if mentions_marker(original) || document_has_enterprise_shape(root) {
                structurally_repaired(root, clean)
            } else {
                clean == original
            },
            None => false,
        },
    }
}

/// The text without its managed block where that text is determined by the
/// text alone: the text around an ordered marker pair, or the text itself when
/// it is TOML, mentions no marker and lacks the block's shape. `None` where no
/// block can be removed, or where the structural repair decides.
pub open spec fn determined_removal(original: Seq<char>) -> Option<Seq<char>> {
    match marked_block_removed(original) {
        Some(x) => Some(x),
        None => match toml_edit_parsed(original) {
            Some(root) => if mentions_marker(original) || document_has_enterprise_shape(root) {
                None
            } else {
                Some(original)
            },
            None => None,
        },
    }
}

fn credential_list(credential: Option<&str>, legacy: Option<String>) -> (r: Vec<String>)
    ensures
        crate::profile::string_views(r@) == cleanup_credentials(
            match credential {
                Some(c) => Some(c@),
                None => None,
            },
            match legacy {
                Some(l) => Some(l@),
                None => None,
            },
        ),
{
    let mut r: Vec<String> = Vec::new();
    if let Some(c) = credential {
        r.push(c.to_string());
    }
    if let Some(l) = legacy {
        r.push(l);
    }
    assert(crate::profile::string_views(r@) =~= cleanup_credentials(
        match credential {
            Some(c) => Some(c@),
            None => None,
        },
        match legacy {
            Some(l) => Some(l@),
            None => None,
        },
    ));
    r
}

/// Provisioning of the managed configuration: validates the profile, refuses
/// an empty credential, replaces any earlier managed block by the block for
/// this profile (keeping the rest of the configuration and preserving its root
/// model selections), and removes from `auth.json` an `OPENAI_API_KEY` only
/// when it equals the credential (trimmed). A configuration whose earlier block
/// lost a marker is repaired structurally first. The written
/// configuration reads as managed, and removing its block gives back the
/// settings of the configuration it was written into
/// ([`settings_come_back`]).
#[verifier::spinoff_prover]
pub fn write_managed_config(
    original: &str,
    helper: &str,
    profile: &EnterpriseProfile,
    credential: &str,
    allow_development: bool,
    auth: crate::json::JsonInput,
    auth_path: &str,
) -> (r: Result<ManagedWrite, EnterpriseError>)
    ensures
        crate::profile::profile_refusal(*profile, allow_development) matches Some(m) ==> (r matches Err(
            e,
        ) && error_text(e) == m),
        crate::profile::profile_refusal(*profile, allow_development) is None && trim(credential@).len()
            == 0 ==> (r matches Err(e) && is_plain_failure(e, "Enterprise API key is empty"@)),
        crate::profile::profile_refusal(*profile, allow_development) is None && trim(credential@).len()
            > 0 ==> (determined_removal(original@) matches Some(x) ==> (x.len() <= usize::MAX / 8
            && !has_unmanaged_provider(lines(x)) && auth_writable(auth) ==> (r matches Ok(w)
            && w.config@ == merged_config(x, managed_block(helper@, *profile))))),
        crate::profile::profile_refusal(*profile, allow_development) is None && trim(credential@).len()
            > 0 ==> (determined_removal(original@) matches Some(x) ==> (x.len() <= usize::MAX / 8
            && has_unmanaged_provider(lines(x)) ==> (r matches Err(e) && is_plain_failure(
            e,
            "An unmanaged company-ai provider already exists"@,
        )))),
        crate::profile::profile_refusal(*profile, allow_development) is None && trim(credential@).len()
            > 0 && (marked_block_removed(original@) is Some || toml_edit_accepts(original@)) && (
        forall|c: Seq<char>|
            #![trigger removal_candidate(original@, c)]
            removal_candidate(original@, c) ==> c.len() <= usize::MAX / 8
                && !has_unmanaged_provider(lines(c))) && auth_writable(auth) ==> r is Ok,
        r matches Ok(w) ==> {
            &&& crate::profile::profile_refusal(*profile, allow_development) is None
            &&& trim(credential@).len() > 0
            &&& spec_config_is_managed(w.config@)
            &&& exists|clean: Seq<char>|
                #![trigger removal_candidate(original@, clean)]
                removal_candidate(original@, clean) && !has_unmanaged_provider(lines(clean))
                    && w.config@ == merged_config(clean, managed_block(helper@, *profile)) && (
                restorable_config(clean) && well_formed_block(managed_block(helper@, *profile))
                    ==> settings_come_back(clean, w.config@))
            &&& crate::auth::auth_update_ok(
                auth,
                cleanup_credentials(Some(credential@), None),
                Ok(w.auth),
            )
        },
{
    crate::profile::validate_profile(profile, allow_development)?;
    if trim_chars(&chars_of(credential)).len() == 0 {
        return Err(EnterpriseError::message("Enterprise API key is empty"));
    }
    let clean = remove_managed_block_text(original)?;
    // A machine limit: composing needs the cleaned text's length, with the
    // preserved lines' base64 growth, to stay within `usize`. The cleaned text
    // of a structurally repaired configuration is `toml_edit`'s rendering,
    // whose length is not known before the call, so the bound is checked here
    // rather than asked of the caller.
    if clean.as_str().unicode_len() > usize::MAX / 8 {
        return Err(EnterpriseError::message("Codex configuration is too large"));
    }
    let block = build_managed_block(helper, profile);
    proof {
        lemma_managed_block_markers(helper@, *profile);
    }
    let updated = compose_managed_config(clean.as_str(), block.as_str())?;
    let credentials = credential_list(Some(credential), None);
    let updated_auth = crate::auth::auth_json_without_matching_api_keys(auth, auth_path, &credentials)?;
    assert(removal_candidate(original@, clean@));
    assert(!has_unmanaged_provider(lines(clean@)));
    assert(updated@ == merged_config(clean@, managed_block(helper@, *profile)));
    assert(restorable_config(clean@) && well_formed_block(managed_block(helper@, *profile))
        ==> settings_come_back(clean@, updated@));
    Ok(ManagedWrite { config: updated, auth: updated_auth })
}

/// What clean-up writes: the new `config.toml` (when there is one to change)
/// and the new `auth.json` (when it has to change); each may fail on its own.
#[derive(Debug)]
pub struct ClearPlan {
    pub config: Result<Option<String>, EnterpriseError>,
    pub auth: Result<Option<crate::json::Json>, EnterpriseError>,
}

/// Removes the managed configuration: the managed block leaves `config.toml`
/// (its root selections restored), and `auth.json` loses an `OPENAI_API_KEY`
/// equal to the credential or to one an older block held.
pub fn clear_enterprise_configuration(
    config: &ConfigText,
    credential: Option<&str>,
    auth: crate::json::JsonInput,
    auth_path: &str,
) -> (r: ClearPlan)
    ensures
        config matches ConfigText::Missing ==> r.config matches Ok(None),
        config matches ConfigText::Unreadable(_) ==> r.config is Err,
        config matches ConfigText::Present(t) ==> (determined_removal(t@) matches Some(x) ==> (
            restored_config(x) matches Some(y) ==> (crate::outside::toml_document_strings(y) is Some
                ==> (r.config matches Ok(Some(s)) && s@ == y)))),
        config matches ConfigText::Present(t) ==> (r.config matches Ok(Some(s)) ==> exists|
            clean: Seq<char>,
        |
            #![trigger removal_candidate(t@, clean)]
            removal_candidate(t@, clean) && restored_config(clean) == Some(s@)),
        config matches ConfigText::Present(t) ==> (removal_always_restores(t@)
            ==> r.config matches Ok(Some(_))),
        crate::auth::auth_update_ok(
            auth,
            cleanup_credentials(
                match credential {
                    Some(c) => Some(c@),
                    None => None,
                },
                match config {
                    ConfigText::Present(t) => spec_legacy_bearer_token(t@),
                    _ => None,
                },
            ),
            r.auth,
        ),
{
    let legacy = match config {
        ConfigText::Present(t) => managed_legacy_bearer_token(t.as_str()),
        _ => None,
    };
    let updated_config = match config {
        ConfigText::Missing => Ok(None),
        ConfigText::Unreadable(message) => Err(EnterpriseError::message(message.as_str())),
        ConfigText::Present(t) => match remove_managed_config(t.as_str()) {
            Ok(s) => Ok(Some(s)),
            Err(e) => Err(e),
        },
    };
    let credentials = credential_list(credential, legacy);
    let updated_auth = crate::auth::auth_json_without_matching_api_keys(auth, auth_path, &credentials);
    ClearPlan { config: updated_config, auth: updated_auth }
}

/// Switching to the official login: the managed block leaves `config.toml`.
pub fn apply_official_login_config(config: &ConfigText) -> (r: Result<Option<String>, EnterpriseError>)
    ensures
        config matches ConfigText::Missing ==> r matches Ok(None),
        config matches ConfigText::Unreadable(_) ==> r is Err,
        config matches ConfigText::Present(t) ==> (determined_removal(t@) matches Some(x) ==> (
            restored_config(x) matches Some(y) ==> (crate::outside::toml_document_strings(y) is Some
                ==> (r matches Ok(Some(s)) && s@ == y)))),
        config matches ConfigText::Present(t) ==> (r matches Ok(Some(s)) ==> exists|
            clean: Seq<char>,
        |
            #![trigger removal_candidate(t@, clean)]
            removal_candidate(t@, clean) && restored_config(clean) == Some(s@)),
        config matches ConfigText::Present(t) ==> (removal_always_restores(t@)
            ==> r matches Ok(Some(_))),
{
    match config {
        ConfigText::Missing => Ok(None),
        ConfigText::Unreadable(message) => Err(EnterpriseError::message(message.as_str())),
        ConfigText::Present(t) => match remove_managed_config(t.as_str()) {
            Ok(s) => Ok(Some(s)),
            Err(e) => Err(e),
        },
    }
}

} // verus!
