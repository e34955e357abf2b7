use codex_plus_core::error::EnterpriseError;
use codex_plus_core::image_mcp::{
    configured_model, enum_argument, ensure_image_size, finish_tool_call, handle_request,
    http_failure, image_from_payload, image_request_body, image_with_format, invalid_json_reply,
    parse_tool_call, request_line_is_blank, responses_endpoint, tool_success_result, McpReply,
    MAX_IMAGE_BYTES, TOOL_NAME,
};
use codex_plus_core::json::Json;
use codex_plus_core::login::{
    image_tools_enabled_for_login_method, LOGIN_METHOD_COMPANY, LOGIN_METHOD_OFFICIAL,
};

fn to_json(value: &serde_json::Value) -> Json {
    match value {
        serde_json::Value::Null => Json::Null,
        serde_json::Value::Bool(b) => Json::Bool(*b),
        serde_json::Value::Number(n) => Json::Number(n.to_string()),
        serde_json::Value::String(s) => Json::String(s.clone()),
        serde_json::Value::Array(items) => Json::Array(items.iter().map(to_json).collect()),
        serde_json::Value::Object(entries) => {
            Json::Object(entries.iter().map(|(k, v)| (k.clone(), to_json(v))).collect())
        }
    }
}

fn from_json(value: &Json) -> serde_json::Value {
    match value {
        Json::Null => serde_json::Value::Null,
        Json::Bool(b) => serde_json::Value::Bool(*b),
        Json::Number(n) => serde_json::from_str(n).unwrap(),
        Json::String(s) => serde_json::Value::String(s.clone()),
        Json::Array(items) => serde_json::Value::Array(items.iter().map(from_json).collect()),
        Json::Object(entries) => serde_json::Value::Object(
            entries.iter().map(|(k, v)| (k.clone(), from_json(v))).collect(),
        ),
    }
}

fn parse(text: &str) -> Json {
    to_json(&serde_json::from_str(text).unwrap())
}

fn reply(request: &str) -> serde_json::Value {
    match handle_request(parse(request), "1.2.3") {
        McpReply::Reply(answer) => from_json(&answer),
        other => panic!("expected an answer, got {other:?}"),
    }
}

fn failure_text(e: &EnterpriseError) -> String {
    e.describe_chain()
}

#[test]
fn initialize_echoes_protocol_and_advertises_tools() {
    let response = reply(
        r#"{"jsonrpc":"2.0","id":1,"method":"initialize","params":{"protocolVersion":"2025-06-18"}}"#,
    );
    assert_eq!(response["result"]["protocolVersion"], "2025-06-18");
    assert_eq!(response["result"]["capabilities"]["tools"]["listChanged"], false);
    assert_eq!(response["result"]["serverInfo"]["name"], "codex-plus-sub2api-imagegen");
    assert_eq!(response["result"]["serverInfo"]["version"], "1.2.3");
    assert_eq!(response["id"], 1);
    assert_eq!(response["jsonrpc"], "2.0");
}

#[test]
fn initialize_defaults_protocol_version() {
    let response = reply(r#"{"jsonrpc":"2.0","id":"a","method":"initialize"}"#);
    assert_eq!(response["result"]["protocolVersion"], "2024-11-05");
    assert_eq!(response["id"], "a");
}

#[test]
fn tools_list_exposes_generate_image() {
    let response = reply(r#"{"jsonrpc":"2.0","id":2,"method":"tools/list","params":{}}"#);
    assert_eq!(response["result"]["tools"][0]["name"], TOOL_NAME);
    assert_eq!(response["result"]["tools"][0]["inputSchema"]["required"][0], "prompt");
    let sizes = response["result"]["tools"][0]["inputSchema"]["properties"]["size"]["enum"]
        .as_array()
        .unwrap()
        .len();
    assert_eq!(sizes, 7);
    assert_eq!(
        response["result"]["tools"][0]["inputSchema"]["properties"]["output_format"]["default"],
        "png"
    );
    assert_eq!(response["result"]["tools"][0]["inputSchema"]["additionalProperties"], false);
}

#[test]
fn ping_answers_an_empty_result() {
    let response = reply(r#"{"jsonrpc":"2.0","id":3,"method":"ping"}"#);
    assert_eq!(response["result"], serde_json::Value::Object(serde_json::Map::new()));
}

#[test]
fn notifications_get_no_answer() {
    let request = parse(r#"{"jsonrpc":"2.0","method":"notifications/initialized"}"#);
    assert!(matches!(handle_request(request, "1.2.3"), McpReply::Silent));
}

#[test]
fn unknown_methods_get_method_not_found() {
    let response = reply(r#"{"jsonrpc":"2.0","id":4,"method":"resources/list"}"#);
    assert_eq!(response["error"]["code"], -32601);
    assert_eq!(response["error"]["message"], "method not found");
    assert_eq!(response["id"], 4);
}

#[test]
fn invalid_lines_get_parse_error() {
    let answer = from_json(&invalid_json_reply("expected value at line 1 column 1"));
    assert_eq!(answer["error"]["code"], -32700);
    assert_eq!(answer["error"]["message"], "invalid JSON: expected value at line 1 column 1");
    assert!(answer["id"].is_null());
}

#[test]
fn blank_lines_are_skipped() {
    assert!(request_line_is_blank("  \t "));
    assert!(!request_line_is_blank(" {} "));
}

#[test]
fn tool_call_is_checked_before_generation() {
    let request = parse(
        r#"{"jsonrpc":"2.0","id":5,"method":"tools/call","params":{"name":"generate_image","arguments":{"prompt":"  a red fox  ","size":"1536x1024"}}}"#,
    );
    match handle_request(request, "1.2.3") {
        McpReply::Generate { id, request } => {
            assert_eq!(from_json(&id), 5);
            assert_eq!(request.prompt, "a red fox");
            assert_eq!(request.size, "1536x1024");
            assert_eq!(request.quality, "auto");
            assert_eq!(request.output_format, "png");
        }
        other => panic!("expected generation, got {other:?}"),
    }
}

#[test]
fn refused_tool_calls_answer_a_failed_tool_result() {
    let response = reply(
        r#"{"jsonrpc":"2.0","id":6,"method":"tools/call","params":{"name":"generate_image","arguments":{"prompt":"   "}}}"#,
    );
    assert_eq!(response["result"]["isError"], true);
    assert_eq!(
        response["result"]["content"][0]["text"],
        "Sub2API image generation failed: prompt is required"
    );
}

#[test]
fn tool_call_errors_name_the_failed_check() {
    let unknown = parse(r#"{"params":{"name":"draw","arguments":{}}}"#);
    assert_eq!(parse_tool_call(&unknown).unwrap_err(), "unknown tool \"draw\"");
    let not_object = parse(r#"{"params":{"name":"generate_image","arguments":[1]}}"#);
    assert_eq!(parse_tool_call(&not_object).unwrap_err(), "tool arguments must be an object");
    let long_prompt = "x".repeat(32_001);
    let too_long = to_json(&serde_json::Value::Object(
        [(
            "params".to_string(),
            serde_json::Value::Object(
                [
                    ("name".to_string(), serde_json::Value::String("generate_image".to_string())),
                    (
                        "arguments".to_string(),
                        serde_json::Value::Object(
                            [("prompt".to_string(), serde_json::Value::String(long_prompt))]
                                .into_iter()
                                .collect(),
                        ),
                    ),
                ]
                .into_iter()
                .collect(),
            ),
        )]
        .into_iter()
        .collect(),
    ));
    assert_eq!(parse_tool_call(&too_long).unwrap_err(), "prompt exceeds 32000 characters");
    let bad_quality = parse(
        r#"{"params":{"name":"generate_image","arguments":{"prompt":"fox","quality":"ultra"}}}"#,
    );
    assert_eq!(parse_tool_call(&bad_quality).unwrap_err(), "unsupported quality value \"ultra\"");
}

#[test]
fn enum_arguments_fall_back_to_default() {
    assert_eq!(enum_argument(None, "png", &["png", "jpeg"], "output_format").unwrap(), "png");
    let jpeg = Json::String("jpeg".to_string());
    assert_eq!(enum_argument(Some(&jpeg), "png", &["png", "jpeg"], "output_format").unwrap(), "jpeg");
    let number = Json::Number("3".to_string());
    assert_eq!(enum_argument(Some(&number), "png", &["png", "jpeg"], "output_format").unwrap(), "png");
    let gif = Json::String("gi\"f".to_string());
    assert_eq!(
        enum_argument(Some(&gif), "png", &["png", "jpeg"], "output_format").unwrap_err(),
        "unsupported output_format value \"gi\\\"f\""
    );
}

#[test]
fn image_formats_map_to_renderable_mime_types() {
    assert_eq!(image_with_format(vec![1], "png").mime_type, "image/png");
    assert_eq!(image_with_format(vec![1], "jpeg").extension, "jpg");
    assert_eq!(image_with_format(vec![1], "webp").mime_type, "image/webp");
}

#[test]
fn unknown_image_formats_are_png() {
    let image = image_with_format(vec![1, 2], "gif");
    assert_eq!(image.mime_type, "image/png");
    assert_eq!(image.extension, "png");
    assert_eq!(image.bytes, vec![1, 2]);
}

#[test]
fn official_login_never_enables_enterprise_image_tools() {
    assert!(image_tools_enabled_for_login_method(LOGIN_METHOD_COMPANY));
    assert!(!image_tools_enabled_for_login_method(LOGIN_METHOD_OFFICIAL));
}

#[test]
fn image_size_limits() {
    assert_eq!(failure_text(&ensure_image_size(&[]).unwrap_err()), "generated image was empty");
    let too_big = vec![0u8; MAX_IMAGE_BYTES + 1];
    assert_eq!(
        failure_text(&ensure_image_size(&too_big).unwrap_err()),
        "generated image exceeds the 33554432 byte limit"
    );
    assert!(ensure_image_size(&[1]).is_ok());
}

#[test]
fn image_is_read_from_the_first_generation_call() {
    let payload = parse(
        r#"{"output":[{"type":"message"},{"type":"image_generation_call","result":"AQID","output_format":"webp"},{"type":"image_generation_call","result":"BA=="}]}"#,
    );
    let image = image_from_payload(&payload, "png").unwrap();
    assert_eq!(image.bytes, vec![1, 2, 3]);
    assert_eq!(image.mime_type, "image/webp");
    assert_eq!(image.extension, "webp");

    let no_format = parse(r#"{"output":[{"type":"image_generation_call","result":"BA=="}]}"#);
    let image = image_from_payload(&no_format, "jpeg").unwrap();
    assert_eq!(image.bytes, vec![4]);
    assert_eq!(image.extension, "jpg");
}

#[test]
fn image_payload_errors() {
    let none = parse(r#"{"output":[{"type":"message"}]}"#);
    assert_eq!(
        failure_text(&image_from_payload(&none, "png").unwrap_err()),
        "Sub2API response did not contain an image_generation_call"
    );
    let no_data = parse(r#"{"output":[{"type":"image_generation_call"}]}"#);
    assert_eq!(
        failure_text(&image_from_payload(&no_data, "png").unwrap_err()),
        "Sub2API image_generation_call did not contain image data"
    );
    let bad = parse(r#"{"output":[{"type":"image_generation_call","result":"***"}]}"#);
    assert!(failure_text(&image_from_payload(&bad, "png").unwrap_err())
        .starts_with("Sub2API returned invalid base64 image data: "));
    let empty = parse(r#"{"output":[{"type":"image_generation_call","result":""}]}"#);
    assert_eq!(
        failure_text(&image_from_payload(&empty, "png").unwrap_err()),
        "generated image was empty"
    );
}

#[test]
fn successful_tool_result_carries_base64_image_and_path() {
    let result = from_json(&tool_success_result(&[1, 2, 3], "image/png", "/tmp/a.png"));
    assert_eq!(result["content"][0]["type"], "image");
    assert_eq!(result["content"][0]["data"], "AQID");
    assert_eq!(result["content"][0]["mimeType"], "image/png");
    assert_eq!(result["content"][1]["text"], "Generated image saved to /tmp/a.png");
    assert_eq!(result["isError"], false);
}

#[test]
fn finished_tool_call_reports_the_error_chain() {
    let error = EnterpriseError::with_context("Sub2API image request failed", "timed out".to_string());
    let answer = from_json(&finish_tool_call(Json::Number("9".to_string()), Err(error)));
    assert_eq!(answer["id"], 9);
    assert_eq!(
        answer["result"]["content"][0]["text"],
        "Sub2API image generation failed: Sub2API image request failed: timed out"
    );
    assert_eq!(answer["result"]["isError"], true);
}

#[test]
fn request_settings_and_body() {
    assert_eq!(configured_model(None, "gpt-image-2"), "gpt-image-2");
    assert_eq!(configured_model(Some("  "), "gpt-image-2"), "gpt-image-2");
    assert_eq!(configured_model(Some("my-model"), "gpt-image-2"), "my-model");
    assert_eq!(responses_endpoint("https://gw.test/v1//"), "https://gw.test/v1/responses");
    let request = parse_tool_call(&parse(
        r#"{"params":{"name":"generate_image","arguments":{"prompt":"fox","quality":"high"}}}"#,
    ))
    .unwrap();
    let body = from_json(&image_request_body("gpt-5.6-sol", "gpt-image-2", &request));
    assert_eq!(body["model"], "gpt-5.6-sol");
    assert_eq!(body["stream"], false);
    assert_eq!(body["input"], "fox");
    assert_eq!(body["tools"][0]["type"], "image_generation");
    assert_eq!(body["tools"][0]["model"], "gpt-image-2");
    assert_eq!(body["tools"][0]["size"], "1024x1024");
    assert_eq!(body["tools"][0]["quality"], "high");
    assert_eq!(body["tools"][0]["output_format"], "png");
    assert_eq!(body["tool_choice"]["type"], "image_generation");
}

#[test]
fn http_failures_show_status_and_truncated_body() {
    let body = "e".repeat(2_100);
    let error = http_failure("503 Service Unavailable", body.as_bytes());
    let text = failure_text(&error);
    assert_eq!(text, format!("Sub2API returned HTTP 503 Service Unavailable: {}", "e".repeat(2_000)));
    let lossy = http_failure("400 Bad Request", &[b'o', b'k', 0xff]);
    assert_eq!(failure_text(&lossy), "Sub2API returned HTTP 400 Bad Request: ok\u{fffd}");
}
