//! The protocol logic of the image-generation MCP helper: how a JSON-RPC
//! request is answered, how a `generate_image` call is read and checked, what
//! is sent to the Sub2API Responses endpoint and how its answer is turned into
//! an image. Reading stdin, the HTTP exchange and saving the file are done by
//! the helper program around these functions.
use vstd::prelude::*;
use crate::error::{int_text, int_text_exec, EnterpriseError};
use crate::json::{
    json_get, json_get2, json_str, json_view, push_item, push_member, Json, JsonView,
};
use crate::text::{append_chars, chars_of, string_of};

verus! {

broadcast use vstd::string::group_string_axioms;

/// The name under which the helper introduces itself.
pub const SERVER_NAME: &'static str = "codex-plus-sub2api-imagegen";

/// The one tool that the helper offers.
pub const TOOL_NAME: &'static str = "generate_image";

/// The longest prompt accepted, in characters.
pub const MAX_PROMPT_CHARS: usize = 32000;

/// The largest image accepted, in bytes.
pub const MAX_IMAGE_BYTES: usize = 32 * 1024 * 1024;

pub open spec fn server_name() -> Seq<char> {
    "codex-plus-sub2api-imagegen"@
}

pub open spec fn tool_name() -> Seq<char> {
    "generate_image"@
}

/// A string value.
pub open spec fn jstr(s: Seq<char>) -> JsonView {
    JsonView::Str(s)
}

/// A list of string values.
pub open spec fn jstrs(items: Seq<Seq<char>>) -> JsonView {
    JsonView::Array(items.map_values(|s: Seq<char>| JsonView::Str(s)))
}

/// `{"jsonrpc": "2.0", "id": id, "result": result}`.
pub open spec fn result_reply(id: JsonView, result: JsonView) -> JsonView {
    JsonView::Object(seq![("jsonrpc"@, jstr("2.0"@)), ("id"@, id), ("result"@, result)])
}

/// `{"jsonrpc": "2.0", "id": id, "error": {"code": code, "message": message}}`.
pub open spec fn error_reply(id: JsonView, code: int, message: Seq<char>) -> JsonView {
    JsonView::Object(
        seq![
            ("jsonrpc"@, jstr("2.0"@)),
            ("id"@, id),
            (
                "error"@,
                JsonView::Object(
                    seq![("code"@, JsonView::Number(int_text(code))), ("message"@, jstr(message))],
                ),
            ),
        ],
    )
}

/// The result of `initialize`: the protocol version the client asked for, the
/// tool capability, and the server's name and version.
pub open spec fn initialize_view(protocol: Seq<char>, version: Seq<char>) -> JsonView {
    JsonView::Object(
        seq![
            ("protocolVersion"@, jstr(protocol)),
            (
                "capabilities"@,
                JsonView::Object(
                    seq![
                        (
                            "tools"@,
                            JsonView::Object(seq![("listChanged"@, JsonView::Bool(false))]),
                        ),
                    ],
                ),
            ),
            (
                "serverInfo"@,
                JsonView::Object(seq![("name"@, jstr(server_name())), ("version"@, jstr(version))]),
            ),
        ],
    )
}

/// The sizes a generated image may have.
pub open spec fn image_sizes() -> Seq<Seq<char>> {
    seq![
        "1024x1024"@,
        "1536x1024"@,
        "1024x1536"@,
        "2048x2048"@,
        "2048x1152"@,
        "3840x2160"@,
        "2160x3840"@,
    ]
}

/// The qualities a generated image may have.
pub open spec fn image_qualities() -> Seq<Seq<char>> {
    seq!["low"@, "medium"@, "high"@, "auto"@]
}

/// The formats a generated image may have.
pub open spec fn image_formats() -> Seq<Seq<char>> {
    seq!["png"@, "jpeg"@, "webp"@]
}

/// A string property of the input schema, with its allowed values and default.
pub open spec fn enum_property(allowed: Seq<Seq<char>>, default: Seq<char>) -> JsonView {
    JsonView::Object(
        seq![("type"@, jstr("string"@)), ("enum"@, jstrs(allowed)), ("default"@, jstr(default))],
    )
}

pub open spec fn tool_description() -> Seq<char> {
    "Generate a raster image with the authenticated enterprise Sub2API account. Use this whenever the user asks to create or generate an image, photo, illustration, mockup, or other bitmap visual."@
}

/// The input schema of `generate_image`.
pub open spec fn input_schema_view() -> JsonView {
    JsonView::Object(
        seq![
            ("type"@, jstr("object"@)),
            (
                "properties"@,
                JsonView::Object(
                    seq![
                        (
                            "prompt"@,
                            JsonView::Object(
                                seq![
                                    ("type"@, jstr("string"@)),
                                    ("description"@, jstr("Detailed image-generation prompt."@)),
                                ],
                            ),
                        ),
                        ("size"@, enum_property(image_sizes(), "1024x1024"@)),
                        ("quality"@, enum_property(image_qualities(), "auto"@)),
                        ("output_format"@, enum_property(image_formats(), "png"@)),
                    ],
                ),
            ),
            ("required"@, jstrs(seq!["prompt"@])),
            ("additionalProperties"@, JsonView::Bool(false)),
        ],
    )
}

/// The result of `tools/list`: the `generate_image` tool.
pub open spec fn tools_list_view() -> JsonView {
    JsonView::Object(
        seq![
            (
                "tools"@,
                JsonView::Array(
                    seq![
                        JsonView::Object(
                            seq![
                                ("name"@, jstr(tool_name())),
                                ("title"@, jstr("Generate image with Sub2API"@)),
                                ("description"@, jstr(tool_description())),
                                ("inputSchema"@, input_schema_view()),
                            ],
                        ),
                    ],
                ),
            ),
        ],
    )
}

/// The result of a failed tool call.
pub open spec fn tool_failure_view(message: Seq<char>) -> JsonView {
    JsonView::Object(
        seq![
            (
                "content"@,
                JsonView::Array(
                    seq![
                        JsonView::Object(
                            seq![
                                ("type"@, jstr("text"@)),
                                ("text"@, jstr("Sub2API image generation failed: "@ + message)),
                            ],
                        ),
                    ],
                ),
            ),
            ("isError"@, JsonView::Bool(true)),
        ],
    )
}

/// The result of a successful tool call: the image, then where it was saved.
pub open spec fn tool_success_view(data: Seq<char>, mime_type: Seq<char>, path: Seq<char>) -> JsonView {
    JsonView::Object(
        seq![
            (
                "content"@,
                JsonView::Array(
                    seq![
                        JsonView::Object(
                            seq![
                                ("type"@, jstr("image"@)),
                                ("data"@, jstr(data)),
                                ("mimeType"@, jstr(mime_type)),
                            ],
                        ),
                        JsonView::Object(
                            seq![
                                ("type"@, jstr("text"@)),
                                ("text"@, jstr("Generated image saved to "@ + path)),
                            ],
                        ),
                    ],
                ),
            ),
            ("isError"@, JsonView::Bool(false)),
        ],
    )
}

fn object(entries: Vec<(String, Json)>) -> (r: Json)
    ensures
        json_view(r) == JsonView::Object(crate::json::member_views(entries@)),
{
    Json::Object(entries)
}

fn array(items: Vec<Json>) -> (r: Json)
    ensures
        json_view(r) == JsonView::Array(crate::json::item_views(items@)),
{
    Json::Array(items)
}

fn string_array(items: &[&str]) -> (r: Json)
    ensures
        json_view(r) == jstrs(items@.map_values(|s: &str| s@)),
{
    let mut v: Vec<Json> = Vec::new();
    let mut i: usize = 0;
    while i < items.len()
        invariant
            i <= items@.len(),
            crate::json::item_views(v@) == items@.take(i as int).map_values(|s: &str| s@).map_values(
                |s: Seq<char>| JsonView::Str(s),
            ),
        decreases items@.len() - i,
    {
        let ghost before = crate::json::item_views(v@);
        push_item(&mut v, Json::string(items[i]));
        assert(items@.take(i + 1).map_values(|s: &str| s@).map_values(
            |s: Seq<char>| JsonView::Str(s),
        ) =~= before.push(JsonView::Str(items@[i as int]@)));
        i += 1;
    }
    assert(items@.take(items@.len() as int) =~= items@);
    array(v)
}

/// A JSON-RPC result answer.
pub fn json_rpc_result(id: Json, result: Json) -> (r: Json)
    ensures
        json_view(r) == result_reply(json_view(id), json_view(result)),
{
    let mut m: Vec<(String, Json)> = Vec::new();
    push_member(&mut m, "jsonrpc", Json::string("2.0"));
    push_member(&mut m, "id", id);
    push_member(&mut m, "result", result);
    let r = object(m);
    assert(crate::json::member_views(m@) =~= seq![
        ("jsonrpc"@, jstr("2.0"@)),
        ("id"@, json_view(id)),
        ("result"@, json_view(result)),
    ]);
    r
}

/// A JSON-RPC error answer.
pub fn json_rpc_error(id: Json, code: i64, message: &str) -> (r: Json)
    ensures
        json_view(r) == error_reply(json_view(id), code as int, message@),
{
    let mut e: Vec<(String, Json)> = Vec::new();
    let digits = int_text_exec(code);
    push_member(&mut e, "code", Json::Number(string_of(&digits)));
    push_member(&mut e, "message", Json::string(message));
    let ev = object(e);
    assert(crate::json::member_views(e@) =~= seq![
        ("code"@, JsonView::Number(int_text(code as int))),
        ("message"@, jstr(message@)),
    ]);
    let mut m: Vec<(String, Json)> = Vec::new();
    push_member(&mut m, "jsonrpc", Json::string("2.0"));
    push_member(&mut m, "id", id);
    push_member(&mut m, "error", ev);
    let r = object(m);
    assert(crate::json::member_views(m@) =~= seq![
        ("jsonrpc"@, jstr("2.0"@)),
        ("id"@, json_view(id)),
        ("error"@, json_view(ev)),
    ]);
    r
}

/// The protocol version that an `initialize` request asks for, `2024-11-05`
/// when it names none.
pub open spec fn requested_protocol(request: Json) -> Seq<char> {
    match json_str(json_get2(request, "params"@, "protocolVersion"@)) {
        Some(p) => p,
        None => "2024-11-05"@,
    }
}

fn params_str(request: &Json, key: &str) -> (r: Option<String>)
    ensures
        match r {
            Some(s) => json_str(json_get2(*request, "params"@, key@)) == Some(s@),
            None => json_str(json_get2(*request, "params"@, key@)) is None,
        },
{
    match request.get("params") {
        Some(params) => crate::json::get_str(params, key),
        None => None,
    }
}

/// The result of `initialize` for the request, with the helper's version.
pub fn initialize_result(request: &Json, version: &str) -> (r: Json)
    ensures
        json_view(r) == initialize_view(requested_protocol(*request), version@),
{
    let protocol = match params_str(request, "protocolVersion") {
        Some(p) => p,
        None => "2024-11-05".to_string(),
    };
    let mut t: Vec<(String, Json)> = Vec::new();
    push_member(&mut t, "listChanged", Json::Bool(false));
    assert(crate::json::member_views(t@) =~= seq![("listChanged"@, JsonView::Bool(false))]);
    let tools = object(t);
    let mut c: Vec<(String, Json)> = Vec::new();
    push_member(&mut c, "tools", tools);
    assert(crate::json::member_views(c@) =~= seq![("tools"@, json_view(tools))]);
    let capabilities = object(c);
    let mut i: Vec<(String, Json)> = Vec::new();
    push_member(&mut i, "name", Json::string(SERVER_NAME));
    push_member(&mut i, "version", Json::string(version));
    proof {
        reveal_strlit("codex-plus-sub2api-imagegen");
        assert(SERVER_NAME@ == server_name());
    }
    assert(crate::json::member_views(i@) =~= seq![
        ("name"@, jstr(server_name())),
        ("version"@, jstr(version@)),
    ]);
    let info = object(i);
    let ghost p = protocol@;
    let mut m: Vec<(String, Json)> = Vec::new();
    push_member(&mut m, "protocolVersion", Json::String(protocol));
    push_member(&mut m, "capabilities", capabilities);
    push_member(&mut m, "serverInfo", info);
    assert(crate::json::member_views(m@) =~= seq![
        ("protocolVersion"@, jstr(p)),
        ("capabilities"@, json_view(capabilities)),
        ("serverInfo"@, json_view(info)),
    ]);
    object(m)
}

fn enum_property_json(allowed: &[&str], default: &str) -> (r: Json)
    ensures
        json_view(r) == enum_property(allowed@.map_values(|s: &str| s@), default@),
{
    let mut m: Vec<(String, Json)> = Vec::new();
    push_member(&mut m, "type", Json::string("string"));
    push_member(&mut m, "enum", string_array(allowed));
    push_member(&mut m, "default", Json::string(default));
    assert(crate::json::member_views(m@) =~= seq![
        ("type"@, jstr("string"@)),
        ("enum"@, jstrs(allowed@.map_values(|s: &str| s@))),
        ("default"@, jstr(default@)),
    ]);
    object(m)
}

/// The result of `tools/list`.
pub fn tools_list_result() -> (r: Json)
    ensures
        json_view(r) == tools_list_view(),
{
    let sizes: [&str; 7] = [
        "1024x1024",
        "1536x1024",
        "1024x1536",
        "2048x2048",
        "2048x1152",
        "3840x2160",
        "2160x3840",
    ];
    let qualities: [&str; 4] = ["low", "medium", "high", "auto"];
    let formats: [&str; 3] = ["png", "jpeg", "webp"];
    proof {
        reveal_strlit("generate_image");
        assert(TOOL_NAME@ == tool_name());
        assert(sizes@.map_values(|s: &str| s@) =~= image_sizes());
        assert(qualities@.map_values(|s: &str| s@) =~= image_qualities());
        assert(formats@.map_values(|s: &str| s@) =~= image_formats());
    }
    let mut p: Vec<(String, Json)> = Vec::new();
    push_member(&mut p, "type", Json::string("string"));
    push_member(&mut p, "description", Json::string("Detailed image-generation prompt."));
    assert(crate::json::member_views(p@) =~= seq![
        ("type"@, jstr("string"@)),
        ("description"@, jstr("Detailed image-generation prompt."@)),
    ]);
    let prompt = object(p);
    let size = enum_property_json(&sizes, "1024x1024");
    let quality = enum_property_json(&qualities, "auto");
    let format = enum_property_json(&formats, "png");
    let mut q: Vec<(String, Json)> = Vec::new();
    push_member(&mut q, "prompt", prompt);
    push_member(&mut q, "size", size);
    push_member(&mut q, "quality", quality);
    push_member(&mut q, "output_format", format);
    assert(crate::json::member_views(q@) =~= seq![
        ("prompt"@, json_view(prompt)),
        ("size"@, json_view(size)),
        ("quality"@, json_view(quality)),
        ("output_format"@, json_view(format)),
    ]);
    let properties = object(q);
    let required_names: [&str; 1] = ["prompt"];
    let required = string_array(&required_names);
    assert(required_names@.map_values(|s: &str| s@) =~= seq!["prompt"@]);
    let mut h: Vec<(String, Json)> = Vec::new();
    push_member(&mut h, "type", Json::string("object"));
    push_member(&mut h, "properties", properties);
    push_member(&mut h, "required", required);
    push_member(&mut h, "additionalProperties", Json::Bool(false));
    assert(crate::json::member_views(h@) =~= seq![
        ("type"@, jstr("object"@)),
        ("properties"@, json_view(properties)),
        ("required"@, json_view(required)),
        ("additionalProperties"@, JsonView::Bool(false)),
    ]);
    let schema = object(h);
    let mut t: Vec<(String, Json)> = Vec::new();
    push_member(&mut t, "name", Json::string(TOOL_NAME));
    push_member(&mut t, "title", Json::string("Generate image with Sub2API"));
    push_member(
        &mut t,
        "description",
        Json::string(
            "Generate a raster image with the authenticated enterprise Sub2API account. Use this whenever the user asks to create or generate an image, photo, illustration, mockup, or other bitmap visual.",
        ),
    );
    push_member(&mut t, "inputSchema", schema);
    assert(crate::json::member_views(t@) =~= seq![
        ("name"@, jstr(tool_name())),
        ("title"@, jstr("Generate image with Sub2API"@)),
        ("description"@, jstr(tool_description())),
        ("inputSchema"@, json_view(schema)),
    ]);
    let tool = object(t);
    let mut list: Vec<Json> = Vec::new();
    push_item(&mut list, tool);
    assert(crate::json::item_views(list@) =~= seq![json_view(tool)]);
    let tools = array(list);
    let mut m: Vec<(String, Json)> = Vec::new();
    push_member(&mut m, "tools", tools);
    assert(crate::json::member_views(m@) =~= seq![("tools"@, json_view(tools))]);
    object(m)
}

/// The result of a tool call that failed with `message`.
pub fn tool_failure_result(message: &str) -> (r: Json)
    ensures
        json_view(r) == tool_failure_view(message@),
{
    let mut text = chars_of("Sub2API image generation failed: ");
    append_chars(&mut text, &chars_of(message));
    let mut c: Vec<(String, Json)> = Vec::new();
    push_member(&mut c, "type", Json::string("text"));
    push_member(&mut c, "text", Json::String(string_of(&text)));
    assert(crate::json::member_views(c@) =~= seq![
        ("type"@, jstr("text"@)),
        ("text"@, jstr("Sub2API image generation failed: "@ + message@)),
    ]);
    let item = object(c);
    let mut list: Vec<Json> = Vec::new();
    push_item(&mut list, item);
    assert(crate::json::item_views(list@) =~= seq![json_view(item)]);
    let content = array(list);
    let mut m: Vec<(String, Json)> = Vec::new();
    push_member(&mut m, "content", content);
    push_member(&mut m, "isError", Json::Bool(true));
    assert(crate::json::member_views(m@) =~= seq![
        ("content"@, json_view(content)),
        ("isError"@, JsonView::Bool(true)),
    ]);
    object(m)
}

/// The result of a successful tool call: the image as base64 with its MIME
/// type, then a note of where it was saved.
pub fn tool_success_result(bytes: &[u8], mime_type: &str, saved_path: &str) -> (r: Json)
    requires
        bytes@.len() <= usize::MAX / 2,
    ensures
        json_view(r) == tool_success_view(
            crate::outside::base64_standard_encode(bytes@),
            mime_type@,
            saved_path@,
        ),
{
    let encoded = crate::outside::base64_encode(bytes);
    let ghost data = encoded@;
    let mut img: Vec<(String, Json)> = Vec::new();
    push_member(&mut img, "type", Json::string("image"));
    push_member(&mut img, "data", Json::String(encoded));
    push_member(&mut img, "mimeType", Json::string(mime_type));
    assert(crate::json::member_views(img@) =~= seq![
        ("type"@, jstr("image"@)),
        ("data"@, jstr(data)),
        ("mimeType"@, jstr(mime_type@)),
    ]);
    let image = object(img);
    let mut text = chars_of("Generated image saved to ");
    append_chars(&mut text, &chars_of(saved_path));
    let mut note: Vec<(String, Json)> = Vec::new();
    push_member(&mut note, "type", Json::string("text"));
    push_member(&mut note, "text", Json::String(string_of(&text)));
    assert(crate::json::member_views(note@) =~= seq![
        ("type"@, jstr("text"@)),
        ("text"@, jstr("Generated image saved to "@ + saved_path@)),
    ]);
    let saved = object(note);
    let mut list: Vec<Json> = Vec::new();
    push_item(&mut list, image);
    push_item(&mut list, saved);
    assert(crate::json::item_views(list@) =~= seq![json_view(image), json_view(saved)]);
    let content = array(list);
    let mut m: Vec<(String, Json)> = Vec::new();
    push_member(&mut m, "content", content);
    push_member(&mut m, "isError", Json::Bool(false));
    assert(crate::json::member_views(m@) =~= seq![
        ("content"@, json_view(content)),
        ("isError"@, JsonView::Bool(false)),
    ]);
    object(m)
}

/// The value of an enumerated argument: the string given, else the default.
pub open spec fn enum_choice(value: Option<Json>, default: Seq<char>) -> Seq<char> {
    match json_str(value) {
        Some(s) => s,
        None => default,
    }
}

/// An enumerated argument: its value when it is one of `allowed`, else the
/// message `unsupported {name} value {value:?}`.
pub open spec fn enum_result(
    value: Option<Json>,
    default: Seq<char>,
    allowed: Seq<Seq<char>>,
    name: Seq<char>,
) -> Result<Seq<char>, Seq<char>> {
    let v = enum_choice(value, default);
    if allowed.contains(v) {
        Ok(v)
    } else {
        Err("unsupported "@ + name + " value "@ + crate::outside::str_debug_text(v))
    }
}

/// Reads an enumerated argument of a tool call.
pub fn enum_argument(value: Option<&Json>, default: &str, allowed: &[&str], name: &str) -> (r:
    Result<String, String>)
    ensures
        match r {
            Ok(v) => enum_result(
                match value {
                    Some(j) => Some(*j),
                    None => None,
                },
                default@,
                allowed@.map_values(|s: &str| s@),
                name@,
            ) == Ok::<Seq<char>, Seq<char>>(v@),
            Err(m) => enum_result(
                match value {
                    Some(j) => Some(*j),
                    None => None,
                },
                default@,
                allowed@.map_values(|s: &str| s@),
                name@,
            ) == Err::<Seq<char>, Seq<char>>(m@),
        },
{
    let ghost given = match value {
        Some(j) => Some(*j),
        None => None::<Json>,
    };
    let v: String = match value {
        Some(j) => match j.as_str() {
            Some(s) => s.clone(),
            None => default.to_string(),
        },
        None => default.to_string(),
    };
    assert(v@ == enum_choice(given, default@));
    let ghost views = allowed@.map_values(|s: &str| s@);
    let vc = chars_of(v.as_str());
    let mut i: usize = 0;
    while i < allowed.len()
        invariant
            i <= allowed@.len(),
            views == allowed@.map_values(|s: &str| s@),
            vc@ == v@,
            v@ == enum_choice(given, default@),
            given == match value {
                Some(j) => Some(*j),
                None => None::<Json>,
            },
            forall|k: int| 0 <= k < i ==> views[k] != v@,
        decreases allowed@.len() - i,
    {
        if crate::text::chars_eq(&chars_of(allowed[i]), &vc) {
            assert(views[i as int] == v@);
            assert(views.contains(v@));
            return Ok(v);
        }
        i += 1;
    }
    assert(!views.contains(v@));
    let mut m = chars_of("unsupported ");
    append_chars(&mut m, &chars_of(name));
    append_chars(&mut m, &chars_of(" value "));
    append_chars(&mut m, &chars_of(crate::outside::debug_str(v.as_str()).as_str()));
    Err(string_of(&m))
}

/// The prompt of a tool call: the `prompt` argument, trimmed; it must not be
/// empty and may have at most 32000 characters.
pub open spec fn prompt_result(arguments: Json) -> Result<Seq<char>, Seq<char>> {
    match json_str(json_get(arguments, "prompt"@)) {
        Some(p) => if crate::text::trim(p).len() == 0 {
            Err("prompt is required"@)
        } else if crate::text::trim(p).len() > MAX_PROMPT_CHARS {
            Err("prompt exceeds 32000 characters"@)
        } else {
            Ok(crate::text::trim(p))
        },
        None => Err("prompt is required"@),
    }
}

/// A checked request to generate an image.
#[derive(Debug)]
pub struct ImageRequest {
    pub prompt: String,
    pub size: String,
    pub quality: String,
    pub output_format: String,
}

pub open spec fn image_request_view(q: ImageRequest) -> (Seq<char>, Seq<char>, Seq<char>, Seq<char>) {
    (q.prompt@, q.size@, q.quality@, q.output_format@)
}

/// The name of the tool that a `tools/call` request names, empty when it names none.
pub open spec fn called_tool(request: Json) -> Seq<char> {
    match json_str(json_get2(request, "params"@, "name"@)) {
        Some(n) => n,
        None => ""@,
    }
}

/// What a `tools/call` request asks for: prompt, size, quality and output
/// format, or the message that refuses it. The tool must be
/// `generate_image`, its arguments an object, the prompt as `prompt_result`
/// says, and size (default `1024x1024`), quality (default `auto`) and output
/// format (default `png`) among the allowed values; the first failing check
/// gives the message.
pub open spec fn spec_tool_call(request: Json) -> Result<
    (Seq<char>, Seq<char>, Seq<char>, Seq<char>),
    Seq<char>,
> {
    let name = called_tool(request);
    if name != tool_name() {
        Err("unknown tool "@ + crate::outside::str_debug_text(name))
    } else {
        match json_get2(request, "params"@, "arguments"@) {
            Some(args) => if args is Object {
                match prompt_result(args) {
                    Err(m) => Err(m),
                    Ok(p) => match enum_result(
                        json_get(args, "size"@),
                        "1024x1024"@,
                        image_sizes(),
                        "size"@,
                    ) {
                        Err(m) => Err(m),
                        Ok(size) => match enum_result(
                            json_get(args, "quality"@),
                            "auto"@,
                            image_qualities(),
                            "quality"@,
                        ) {
                            Err(m) => Err(m),
                            Ok(quality) => match enum_result(
                                json_get(args, "output_format"@),
                                "png"@,
                                image_formats(),
                                "output_format"@,
                            ) {
                                Err(m) => Err(m),
                                Ok(format) => Ok((p, size, quality, format)),
                            },
                        },
                    },
                }
            } else {
                Err("tool arguments must be an object"@)
            },
            None => Err("tool arguments must be an object"@),
        }
    }
}

fn prompt_argument(arguments: &Json) -> (r: Result<String, String>)
    ensures
        match r {
            Ok(p) => prompt_result(*arguments) == Ok::<Seq<char>, Seq<char>>(p@),
            Err(m) => prompt_result(*arguments) == Err::<Seq<char>, Seq<char>>(m@),
        },
{
    match crate::json::get_str(arguments, "prompt") {
        Some(p) => {
            let t = crate::text::trim_chars(&chars_of(p.as_str()));
            if t.len() == 0 {
                Err("prompt is required".to_string())
            } else if t.len() > MAX_PROMPT_CHARS {
                Err("prompt exceeds 32000 characters".to_string())
            } else {
                Ok(string_of(&t))
            }
        },
        None => Err("prompt is required".to_string()),
    }
}

/// Reads and checks a `tools/call` request.
pub fn parse_tool_call(request: &Json) -> (r: Result<ImageRequest, String>)
    ensures
        match r {
            Ok(q) => spec_tool_call(*request) == Ok::<_, Seq<char>>(image_request_view(q)),
            Err(m) => spec_tool_call(*request) == Err::<(Seq<char>, Seq<char>, Seq<char>, Seq<char>), Seq<char>>(m@),
        },
{
    proof {
        reveal_strlit("generate_image");
        reveal_strlit("");
        assert(TOOL_NAME@ == tool_name());
    }
    let name = match params_str(request, "name") {
        Some(n) => n,
        None => String::new(),
    };
    assert(name@ == called_tool(*request));
    if !crate::text::chars_eq(&chars_of(name.as_str()), &chars_of(TOOL_NAME)) {
        let mut m = chars_of("unknown tool ");
        append_chars(&mut m, &chars_of(crate::outside::debug_str(name.as_str()).as_str()));
        return Err(string_of(&m));
    }
    let arguments = match request.get("params") {
        Some(params) => params.get("arguments"),
        None => None,
    };
    let arguments = match arguments {
        Some(a) => a,
        None => {
            return Err("tool arguments must be an object".to_string());
        },
    };
    if !(match arguments {
        Json::Object(_) => true,
        _ => false,
    }) {
        return Err("tool arguments must be an object".to_string());
    }
    let prompt = match prompt_argument(arguments) {
        Ok(p) => p,
        Err(m) => {
            return Err(m);
        },
    };
    let sizes: [&str; 7] = [
        "1024x1024",
        "1536x1024",
        "1024x1536",
        "2048x2048",
        "2048x1152",
        "3840x2160",
        "2160x3840",
    ];
    let qualities: [&str; 4] = ["low", "medium", "high", "auto"];
    let formats: [&str; 3] = ["png", "jpeg", "webp"];
    assert(sizes@.map_values(|s: &str| s@) =~= image_sizes());
    assert(qualities@.map_values(|s: &str| s@) =~= image_qualities());
    assert(formats@.map_values(|s: &str| s@) =~= image_formats());
    let size = match enum_argument(arguments.get("size"), "1024x1024", &sizes, "size") {
        Ok(v) => v,
        Err(m) => {
            return Err(m);
        },
    };
    let quality = match enum_argument(arguments.get("quality"), "auto", &qualities, "quality") {
        Ok(v) => v,
        Err(m) => {
            return Err(m);
        },
    };
    let output_format = match enum_argument(
        arguments.get("output_format"),
        "png",
        &formats,
        "output_format",
    ) {
        Ok(v) => v,
        Err(m) => {
            return Err(m);
        },
    };
    Ok(ImageRequest { prompt, size, quality, output_format })
}

/// What the helper does with one request: nothing (a notification), write an
/// answer, or generate the image that a checked `tools/call` asks for and
/// then answer the request `id`.
#[derive(Debug)]
pub enum McpReply {
    Silent,
    Reply(Json),
    Generate { id: Json, request: ImageRequest },
}

/// The method a request names, empty when it names none.
pub open spec fn request_method(request: Json) -> Seq<char> {
    match json_str(json_get(request, "method"@)) {
        Some(m) => m,
        None => ""@,
    }
}

/// How a request is answered. A request without `id` is a notification and
/// gets no answer. `initialize`, `ping` and `tools/list` are answered with
/// their results; a `tools/call` that passes `spec_tool_call` leads to image
/// generation, one that fails is answered with a failed tool result; any other
/// method gets the JSON-RPC error -32601 `method not found`.
pub open spec fn spec_handle_request(request: Json, version: Seq<char>, r: McpReply) -> bool {
    match json_get(request, "id"@) {
        None => r is Silent,
        Some(id) => {
            let m = request_method(request);
            if m == "initialize"@ {
                r matches McpReply::Reply(j) && json_view(j) == result_reply(
                    json_view(id),
                    initialize_view(requested_protocol(request), version),
                )
            } else if m == "ping"@ {
                r matches McpReply::Reply(j) && json_view(j) == result_reply(
                    json_view(id),
                    JsonView::Object(Seq::empty()),
                )
            } else if m == "tools/list"@ {
                r matches McpReply::Reply(j) && json_view(j) == result_reply(
                    json_view(id),
                    tools_list_view(),
                )
            } else if m == "tools/call"@ {
                match spec_tool_call(request) {
                    Ok(t) => r matches McpReply::Generate { id: i, request: q } && json_view(i)
                        == json_view(id) && image_request_view(q) == t,
                    Err(message) => r matches McpReply::Reply(j) && json_view(j) == result_reply(
                        json_view(id),
                        tool_failure_view(message),
                    ),
                }
            } else {
                r matches McpReply::Reply(j) && json_view(j) == error_reply(
                    json_view(id),
                    -32601,
                    "method not found"@,
                )
            }
        },
    }
}

fn text_is(a: &Vec<char>, b: &str) -> (r: bool)
    ensures
        r == (a@ == b@),
{
    crate::text::chars_eq(a, &chars_of(b))
}

/// Decides how to answer one request; `version` is the helper's version.
pub fn handle_request(request: Json, version: &str) -> (r: McpReply)
    ensures
        spec_handle_request(request, version@, r),
{
    if request.get("id").is_none() {
        return McpReply::Silent;
    }
    let method = match crate::json::get_str(&request, "method") {
        Some(m) => chars_of(m.as_str()),
        None => Vec::new(),
    };
    proof {
        reveal_strlit("");
    }
    assert(method@ == request_method(request));
    let mut result: Option<Json> = None;
    let mut call: Option<ImageRequest> = None;
    if text_is(&method, "initialize") {
        result = Some(initialize_result(&request, version));
    } else if text_is(&method, "ping") {
        let empty: Vec<(String, Json)> = Vec::new();
        assert(crate::json::member_views(empty@) =~= Seq::<(Seq<char>, JsonView)>::empty());
        result = Some(object(empty));
    } else if text_is(&method, "tools/list") {
        result = Some(tools_list_result());
    } else if text_is(&method, "tools/call") {
        match parse_tool_call(&request) {
            Ok(q) => {
                call = Some(q);
            },
            Err(m) => {
                result = Some(tool_failure_result(m.as_str()));
            },
        }
    }
    let ghost whole = request;
    let id = match request {
        Json::Object(entries) => crate::json::take_member(entries, "id"),
        _ => {
            assert(false);
            Json::Null
        },
    };
    assert(json_get(whole, "id"@) == Some(id));
    match call {
        Some(q) => McpReply::Generate { id, request: q },
        None => match result {
            Some(res) => McpReply::Reply(json_rpc_result(id, res)),
            None => McpReply::Reply(json_rpc_error(id, -32601, "method not found")),
        },
    }
}

/// Whether a line read from the client is blank (it is then skipped).
pub fn request_line_is_blank(line: &str) -> (r: bool)
    ensures
        r == (crate::text::trim(line@).len() == 0),
{
    crate::text::trim_chars(&chars_of(line)).len() == 0
}

/// The answer to a line that is not JSON: error -32700 with the parser's message.
pub fn invalid_json_reply(detail: &str) -> (r: Json)
    ensures
        json_view(r) == error_reply(JsonView::Null, -32700, "invalid JSON: "@ + detail@),
{
    let mut m = chars_of("invalid JSON: ");
    append_chars(&mut m, &chars_of(detail));
    let text = string_of(&m);
    json_rpc_error(Json::Null, -32700, text.as_str())
}

/// A model setting: the configured name unless it is absent or blank, else the default.
pub open spec fn spec_configured_model(value: Option<Seq<char>>, default: Seq<char>) -> Seq<char> {
    match value {
        Some(v) => if crate::text::trim(v).len() > 0 {
            v
        } else {
            default
        },
        None => default,
    }
}

/// The model to use: `value` unless it is absent or blank, else `default`
/// (`gpt-5.6-sol` for the Responses model, `gpt-image-2` for the image model).
pub fn configured_model(value: Option<&str>, default: &str) -> (r: String)
    ensures
        r@ == spec_configured_model(
            match value {
                Some(v) => Some(v@),
                None => None,
            },
            default@,
        ),
{
    match value {
        Some(v) => if crate::text::trim_chars(&chars_of(v)).len() > 0 {
            v.to_string()
        } else {
            default.to_string()
        },
        None => default.to_string(),
    }
}

/// The Responses endpoint under the image base URL: the URL without trailing
/// slashes, then `/responses`.
pub fn responses_endpoint(base_url: &str) -> (r: String)
    ensures
        r@ == crate::text::trim_end_char(base_url@, '/') + "/responses"@,
{
    let mut v = crate::text::trim_end_char_chars(&chars_of(base_url), '/');
    append_chars(&mut v, &chars_of("/responses"));
    string_of(&v)
}

/// The body of the image request: the Responses model answers the prompt
/// with the `image_generation` tool, which it is made to call, with the image
/// model, size, quality and output format of the request.
pub open spec fn image_request_body_view(
    responses_model: Seq<char>,
    image_model: Seq<char>,
    q: (Seq<char>, Seq<char>, Seq<char>, Seq<char>),
) -> JsonView {
    JsonView::Object(
        seq![
            ("model"@, jstr(responses_model)),
            ("stream"@, JsonView::Bool(false)),
            ("input"@, jstr(q.0)),
            (
                "tools"@,
                JsonView::Array(
                    seq![
                        JsonView::Object(
                            seq![
                                ("type"@, jstr("image_generation"@)),
                                ("model"@, jstr(image_model)),
                                ("size"@, jstr(q.1)),
                                ("quality"@, jstr(q.2)),
                                ("output_format"@, jstr(q.3)),
                            ],
                        ),
                    ],
                ),
            ),
            ("tool_choice"@, JsonView::Object(seq![("type"@, jstr("image_generation"@))])),
        ],
    )
}

/// The JSON body sent to the Responses endpoint.
pub fn image_request_body(responses_model: &str, image_model: &str, request: &ImageRequest) -> (r:
    Json)
    ensures
        json_view(r) == image_request_body_view(
            responses_model@,
            image_model@,
            image_request_view(*request),
        ),
{
    let mut t: Vec<(String, Json)> = Vec::new();
    push_member(&mut t, "type", Json::string("image_generation"));
    push_member(&mut t, "model", Json::string(image_model));
    push_member(&mut t, "size", Json::string(request.size.as_str()));
    push_member(&mut t, "quality", Json::string(request.quality.as_str()));
    push_member(&mut t, "output_format", Json::string(request.output_format.as_str()));
    assert(crate::json::member_views(t@) =~= seq![
        ("type"@, jstr("image_generation"@)),
        ("model"@, jstr(image_model@)),
        ("size"@, jstr(request.size@)),
        ("quality"@, jstr(request.quality@)),
        ("output_format"@, jstr(request.output_format@)),
    ]);
    let tool = object(t);
    let mut list: Vec<Json> = Vec::new();
    push_item(&mut list, tool);
    assert(crate::json::item_views(list@) =~= seq![json_view(tool)]);
    let tools = array(list);
    let mut c: Vec<(String, Json)> = Vec::new();
    push_member(&mut c, "type", Json::string("image_generation"));
    assert(crate::json::member_views(c@) =~= seq![("type"@, jstr("image_generation"@))]);
    let choice = object(c);
    let mut m: Vec<(String, Json)> = Vec::new();
    push_member(&mut m, "model", Json::string(responses_model));
    push_member(&mut m, "stream", Json::Bool(false));
    push_member(&mut m, "input", Json::string(request.prompt.as_str()));
    push_member(&mut m, "tools", tools);
    push_member(&mut m, "tool_choice", choice);
    assert(crate::json::member_views(m@) =~= seq![
        ("model"@, jstr(responses_model@)),
        ("stream"@, JsonView::Bool(false)),
        ("input"@, jstr(request.prompt@)),
        ("tools"@, json_view(tools)),
        ("tool_choice"@, json_view(choice)),
    ]);
    object(m)
}

/// The credential for the image request: the one read from the secure store,
/// or a failure when there is none.
pub fn image_credential(read: Result<Option<String>, EnterpriseError>) -> (r: Result<
    String,
    EnterpriseError,
>)
    ensures
        match read {
            Ok(Some(c)) => r matches Ok(s) && s@ == c@,
            Ok(None) => crate::error::fails_with(
                r,
                "enterprise credential is unavailable; sign in again in Codex++ Manager"@,
            ),
            Err(e) => r == Err::<String, EnterpriseError>(e),
        },
{
    match read {
        Ok(Some(c)) => Ok(c),
        Ok(None) => Err(
            EnterpriseError::message(
                "enterprise credential is unavailable; sign in again in Codex++ Manager",
            ),
        ),
        Err(e) => Err(e),
    }
}

/// The first `n` characters of `s` (all of them when it is shorter).
pub open spec fn first_chars(s: Seq<char>, n: nat) -> Seq<char> {
    if s.len() <= n {
        s
    } else {
        s.take(n as int)
    }
}

/// The failure reported for a non-success answer of the image endpoint: the
/// status (as `reqwest` displays it) and the first 2000 characters of the
/// body read as lossy UTF-8.
pub fn http_failure(status: &str, body: &[u8]) -> (e: EnterpriseError)
    ensures
        crate::error::is_plain_failure(
            e,
            "Sub2API returned HTTP "@ + status@ + ": "@ + first_chars(
                crate::outside::utf8_lossy_text(body@),
                2000,
            ),
        ),
{
    let detail = chars_of(crate::outside::utf8_lossy(body).as_str());
    let shown = if detail.len() <= 2000 {
        detail
    } else {
        crate::text::sub_chars(&detail, 0, 2000)
    };
    let mut m = chars_of("Sub2API returned HTTP ");
    append_chars(&mut m, &chars_of(status));
    append_chars(&mut m, &chars_of(": "));
    append_chars(&mut m, &shown);
    EnterpriseError::message(string_of(&m).as_str())
}

/// A generated image with the MIME type and file extension of its format.
#[derive(Debug)]
pub struct GeneratedImage {
    pub bytes: Vec<u8>,
    pub mime_type: &'static str,
    pub extension: &'static str,
}

/// MIME type and extension of a format: `jpeg` and `webp` are themselves,
/// anything else is PNG.
pub open spec fn format_info(format: Seq<char>) -> (Seq<char>, Seq<char>) {
    if format == "jpeg"@ {
        ("image/jpeg"@, "jpg"@)
    } else if format == "webp"@ {
        ("image/webp"@, "webp"@)
    } else {
        ("image/png"@, "png"@)
    }
}

/// Labels the bytes with the MIME type and extension of `format`.
pub fn image_with_format(bytes: Vec<u8>, format: &str) -> (r: GeneratedImage)
    ensures
        r.bytes@ == bytes@,
        (r.mime_type@, r.extension@) == format_info(format@),
{
    let f = chars_of(format);
    if text_is(&f, "jpeg") {
        GeneratedImage { bytes, mime_type: "image/jpeg", extension: "jpg" }
    } else if text_is(&f, "webp") {
        GeneratedImage { bytes, mime_type: "image/webp", extension: "webp" }
    } else {
        GeneratedImage { bytes, mime_type: "image/png", extension: "png" }
    }
}

/// Refuses an empty image and one larger than `MAX_IMAGE_BYTES`.
pub fn ensure_image_size(bytes: &[u8]) -> (r: Result<(), EnterpriseError>)
    ensures
        bytes@.len() == 0 ==> crate::error::fails_with(r, "generated image was empty"@),
        bytes@.len() > MAX_IMAGE_BYTES ==> crate::error::fails_with(
            r,
            "generated image exceeds the 33554432 byte limit"@,
        ),
        0 < bytes@.len() <= MAX_IMAGE_BYTES ==> r is Ok,
{
    if bytes.len() == 0 {
        return Err(EnterpriseError::message("generated image was empty"));
    }
    if bytes.len() > MAX_IMAGE_BYTES {
        return Err(EnterpriseError::message("generated image exceeds the 33554432 byte limit"));
    }
    Ok(())
}

/// The first item whose `type` is `image_generation_call`.
pub open spec fn first_image_call(items: Seq<Json>) -> Option<Json>
    decreases items.len(),
{
    if items.len() == 0 {
        None
    } else if json_str(json_get(items[0], "type"@)) == Some("image_generation_call"@) {
        Some(items[0])
    } else {
        first_image_call(items.drop_first())
    }
}

/// The image generation call of a Responses answer: the first such item of
/// its `output` array.
pub open spec fn image_call_of(payload: Json) -> Option<Json> {
    match crate::json::json_array(json_get(payload, "output"@)) {
        Some(items) => first_image_call(items),
        None => None,
    }
}

/// The format the answer reports for the image, else the one asked for.
pub open spec fn reported_format(call: Json, requested: Seq<char>) -> Seq<char> {
    match json_str(json_get(call, "output_format"@)) {
        Some(f) => f,
        None => requested,
    }
}

/// `e` is a failure whose outermost message is `text`, over one further cause.
pub open spec fn fails_with_cause<T>(r: Result<T, EnterpriseError>, text: Seq<char>) -> bool {
    r matches Err(e) && e matches EnterpriseError::Failure { network, .. } && !network
        && crate::error::error_chain(e).len() == 2 && crate::error::error_text(e) == text
}

fn find_image_call(items: &Vec<Json>) -> (r: Option<&Json>)
    ensures
        match r {
            Some(c) => first_image_call(items@) == Some(*c),
            None => first_image_call(items@) is None,
        },
{
    let mut i: usize = 0;
    assert(items@.skip(0) =~= items@);
    while i < items.len()
        invariant
            i <= items@.len(),
            first_image_call(items@) == first_image_call(items@.skip(i as int)),
        decreases items@.len() - i,
    {
        let ghost rest = items@.skip(i as int);
        assert(rest[0] == items@[i as int]);
        assert(rest.drop_first() =~= items@.skip(i + 1));
        let found = match crate::json::get_str(&items[i], "type") {
            Some(t) => text_is(&chars_of(t.as_str()), "image_generation_call"),
            None => false,
        };
        if found {
            return Some(&items[i]);
        }
        i += 1;
    }
    assert(items@.skip(i as int) =~= Seq::<Json>::empty());
    None
}

/// Reads the generated image out of a Responses answer: the `result` of its
/// first `image_generation_call` item, base64-decoded and size-checked,
/// labelled with the format the item reports (else the one asked for).
pub fn image_from_payload(payload: &Json, requested_format: &str) -> (r: Result<
    GeneratedImage,
    EnterpriseError,
>)
    ensures
        match image_call_of(*payload) {
            None => crate::error::fails_with(
                r,
                "Sub2API response did not contain an image_generation_call"@,
            ),
            Some(call) => match json_str(json_get(call, "result"@)) {
                None => crate::error::fails_with(
                    r,
                    "Sub2API image_generation_call did not contain image data"@,
                ),
                Some(data) => match crate::outside::base64_standard_decode(data) {
                    None => fails_with_cause(r, "Sub2API returned invalid base64 image data"@),
                    Some(bytes) => if bytes.len() == 0 {
                        crate::error::fails_with(r, "generated image was empty"@)
                    } else if bytes.len() > MAX_IMAGE_BYTES {
                        crate::error::fails_with(
                            r,
                            "generated image exceeds the 33554432 byte limit"@,
                        )
                    } else {
                        r matches Ok(image) && image.bytes@ == bytes && (
                            image.mime_type@,
                            image.extension@,
                        ) == format_info(reported_format(call, requested_format@))
                    },
                },
            },
        },
{
    let items = match payload.get("output") {
        Some(o) => o.as_array(),
        None => None,
    };
    let call = match items {
        Some(items) => find_image_call(items),
        None => None,
    };
    let call = match call {
        Some(c) => c,
        None => {
            return Err(
                EnterpriseError::message(
                    "Sub2API response did not contain an image_generation_call",
                ),
            );
        },
    };
    let data = match crate::json::get_str(call, "result") {
        Some(d) => d,
        None => {
            return Err(
                EnterpriseError::message("Sub2API image_generation_call did not contain image data"),
            );
        },
    };
    let bytes = match crate::outside::base64_decode(data.as_str()) {
        Ok(b) => b,
        Err(cause) => {
            let e = EnterpriseError::with_context("Sub2API returned invalid base64 image data", cause);
            return Err(e);
        },
    };
    match ensure_image_size(&bytes) {
        Ok(()) => {},
        Err(e) => {
            return Err(e);
        },
    }
    let format = match crate::json::get_str(call, "output_format") {
        Some(f) => f,
        None => requested_format.to_string(),
    };
    Ok(image_with_format(bytes, format.as_str()))
}

/// The result of a failed tool call for an error: its whole chain as text.
pub fn tool_error_result(error: &EnterpriseError) -> (r: Json)
    ensures
        json_view(r) == tool_failure_view(crate::error::alternate_text(*error)),
{
    let text = error.describe_chain();
    tool_failure_result(text.as_str())
}

/// The answer to a `tools/call` request once the image was generated and
/// saved (`Ok` with the tool result) or could not be (`Err`).
pub fn finish_tool_call(id: Json, outcome: Result<Json, EnterpriseError>) -> (r: Json)
    ensures
        match outcome {
            Ok(result) => json_view(r) == result_reply(json_view(id), json_view(result)),
            Err(e) => json_view(r) == result_reply(
                json_view(id),
                tool_failure_view(crate::error::alternate_text(e)),
            ),
        },
{
    match outcome {
        Ok(result) => json_rpc_result(id, result),
        Err(e) => json_rpc_result(id, tool_error_result(&e)),
    }
}


/// An image labelled for `format`: JPEG and WebP images are `image/<format>`
/// (a JPEG file ends in `.jpg`), every other format is a PNG image, and
/// otherwise the file extension is the MIME subtype.
pub open spec fn labelled_for(format: Seq<char>, mime_type: Seq<char>, extension: Seq<char>) -> bool {
    &&& (format == "jpeg"@ || format == "webp"@) ==> mime_type == "image/"@ + format
    &&& !(format == "jpeg"@ || format == "webp"@) ==> mime_type == "image/"@ + "png"@
    &&& extension == if format == "jpeg"@ {
        "jpg"@
    } else {
        mime_type.skip(6)
    }
}

proof fn lemma_labels_agree(format: Seq<char>)
    ensures
        labelled_for(format, format_info(format).0, format_info(format).1),
{
    reveal_strlit("image/");
    reveal_strlit("jpeg");
    reveal_strlit("webp");
    reveal_strlit("png");
    reveal_strlit("jpg");
    reveal_strlit("image/jpeg");
    reveal_strlit("image/webp");
    reveal_strlit("image/png");
    assert("image/"@ + "jpeg"@ =~= "image/jpeg"@);
    assert("image/"@ + "webp"@ =~= "image/webp"@);
    assert("image/"@ + "png"@ =~= "image/png"@);
    assert("image/webp"@.skip(6) =~= "webp"@);
    assert("image/png"@.skip(6) =~= "png"@);
}

/// The bytes are kept, and the MIME type and extension agree with the format.
pub proof fn law_image_label_matches_format(bytes: Vec<u8>, format: &str, image: GeneratedImage)
    requires
        call_ensures(image_with_format, (bytes, format), image),
    ensures
        image.bytes@ == bytes@,
        labelled_for(format@, image.mime_type@, image.extension@),
{
    lemma_labels_agree(format@);
}

/// An image read from a Responses answer is labelled for the format that the
/// image call reports, or the requested one when it reports none.
pub proof fn law_payload_image_labelled_by_reported_format(
    payload: &Json,
    requested_format: &str,
    r: Result<GeneratedImage, EnterpriseError>,
)
    requires
        call_ensures(image_from_payload, (payload, requested_format), r),
    ensures
        r matches Ok(image) ==> image_call_of(*payload) matches Some(call) && labelled_for(
            reported_format(call, requested_format@),
            image.mime_type@,
            image.extension@,
        ),
{
    if let Some(call) = image_call_of(*payload) {
        lemma_labels_agree(reported_format(call, requested_format@));
    }
}

} // verus!
