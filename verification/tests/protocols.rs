use qwen_studio::json::{jarray_of, jobject, jtext, obj1, obj2, obj3, obj4, Json};
use qwen_studio::protocols::{anthropic_body, chat_body, responses_body, with_chat_breakpoints, ChatReq};
use qwen_studio::chat::{choose_key, on_rejection, request_body, resolve_url, Retry};

fn req(messages: Json, tools: Option<Json>) -> ChatReq {
    ChatReq {
        api_key: None,
        base_url: None,
        model: "qwen-test".to_string(),
        protocol: None,
        messages,
        tools,
    }
}

fn msg(role: &str, content: &str) -> Json {
    obj2("role", jtext(role), "content", jtext(content))
}

fn tool_call(id: &str, name: &str, arguments: &str) -> Json {
    obj2("id", jtext(id), "function", obj2("name", jtext(name), "arguments", jtext(arguments)))
}

fn assistant_with_call(content: &str, call: Json) -> Json {
    obj3("role", jtext("assistant"), "content", jtext(content), "tool_calls", jarray_of(vec![call]))
}

fn tool_msg(id: &str, content: &str) -> Json {
    obj3("role", jtext("tool"), "tool_call_id", jtext(id), "content", jtext(content))
}

fn is_ephemeral(v: &Json) -> bool {
    v.member("cache_control").member("type").is_text("ephemeral")
}

#[test]
fn chat_breakpoints_land_on_stable_prefix_and_tail() {
    let messages = jarray_of(vec![
        msg("system", "稳定规则"),
        msg("system", "Today's date: 2026-09-14"),
        msg("user", "帮我改代码"),
        assistant_with_call("", tool_call("c1", "read", "{}")),
        tool_msg("c1", "结果"),
    ]);
    let body = chat_body(&req(messages, None), true);
    let ms = body.member("messages");
    assert!(is_ephemeral(&ms.item(0).member("content").item(0)));
    assert!(ms.item(1).member("content").is_string(), "易变段不该被单独设成缓存块");
    assert!(ms.item(2).member("content").is_string(), "中间的用户消息不该被改成块形态");
    assert!(is_ephemeral(&ms.item(4)));
    assert!(ms.item(4).member("content").is_string());
}

#[test]
fn chat_body_without_cache_is_untouched() {
    let messages = jarray_of(vec![msg("user", "hi")]);
    let body = chat_body(&req(messages, None), false);
    assert!(body.member("messages").item(0).member("content").is_string());
    assert!(body.member("messages").item(0).get("cache_control").is_none());
}

#[test]
fn anthropic_marks_tools_system_and_last_tool_result() {
    let messages = jarray_of(vec![
        msg("system", "稳定规则"),
        msg("system", "Model: qwen"),
        msg("user", "读文件"),
        assistant_with_call("好", tool_call("c1", "read", "{\"filePath\":\"a.txt\"}")),
        tool_msg("c1", "内容"),
    ]);
    let tools = jarray_of(vec![obj2(
        "type",
        jtext("function"),
        "function",
        obj3("name", jtext("read"), "description", jtext("d"), "parameters", jobject()),
    )]);
    let body = anthropic_body(&req(messages, Some(tools)), true);
    assert!(is_ephemeral(&body.member("tools").item(0)));
    assert!(is_ephemeral(&body.member("system").item(0)));
    assert!(body.member("system").item(1).member("cache_control").is_null());
    let ms = body.member("messages");
    let n = ms.as_array().unwrap().len();
    let last_user = ms.item(n - 1);
    let blocks = last_user.member("content");
    let m = blocks.as_array().unwrap().len();
    assert!(is_ephemeral(&blocks.item(m - 1)));
}

#[test]
fn anthropic_merges_tool_results_into_one_user_turn() {
    let messages = jarray_of(vec![
        msg("user", "读两个文件"),
        obj3(
            "role",
            jtext("assistant"),
            "content",
            jtext(""),
            "tool_calls",
            jarray_of(vec![tool_call("a", "read", "{}"), tool_call("b", "read", "not json")]),
        ),
        tool_msg("a", "一"),
        tool_msg("b", "二"),
    ]);
    let body = anthropic_body(&req(messages, None), false);
    let ms = body.member("messages");
    assert_eq!(ms.as_array().unwrap().len(), 3);
    let calls = ms.item(1).member("content");
    assert_eq!(calls.as_array().unwrap().len(), 2);
    assert!(calls.item(0).member("input").as_array().is_none());
    assert!(matches!(calls.item(0).member("input"), Json::Embedded(ref t) if t == "{}"));
    assert!(matches!(calls.item(1).member("input"), Json::Object(ref m) if m.is_empty()));
    let results = ms.item(2).member("content");
    assert_eq!(results.as_array().unwrap().len(), 2);
    assert!(results.item(1).member("content").is_text("二"));
    assert!(body.member("system").is_null());
    assert!(body.member("max_tokens").as_u64() == Some(8192));
}

#[test]
fn anthropic_joins_system_text_without_cache() {
    let messages = jarray_of(vec![msg("system", "甲"), msg("system", "乙"), msg("user", "hi")]);
    let body = anthropic_body(&req(messages, None), false);
    assert!(body.member("system").is_text("甲\n\n乙"));
}

#[test]
fn responses_body_maps_roles() {
    let messages = jarray_of(vec![
        msg("system", "规则"),
        msg("user", "问"),
        assistant_with_call("答", tool_call("c9", "grep", "{\"pattern\":\"x\"}")),
        tool_msg("c9", "结果"),
    ]);
    let body = responses_body(&req(messages, None));
    assert!(body.member("instructions").is_text("规则"));
    let input = body.member("input");
    assert_eq!(input.as_array().unwrap().len(), 4);
    assert!(input.item(0).member("content").item(0).member("type").is_text("input_text"));
    assert!(input.item(1).member("type").is_text("message"));
    assert!(input.item(2).member("type").is_text("function_call"));
    assert!(input.item(2).member("call_id").is_text("c9"));
    assert!(input.item(3).member("output").is_text("结果"));
    assert!(body.get("tools").is_none());
}

#[test]
fn chat_body_keeps_tools_only_when_present() {
    let tools = jarray_of(vec![obj1("type", jtext("function"))]);
    let body = chat_body(&req(jarray_of(vec![msg("user", "hi")]), Some(tools)), false);
    assert!(body.get("tools").is_some());
    let body = chat_body(&req(jarray_of(vec![msg("user", "hi")]), Some(jarray_of(vec![]))), false);
    assert!(body.get("tools").is_none());
    assert!(matches!(body.member("stream_options").member("include_usage"), Json::Bool(true)));
}

#[test]
fn breakpoints_leave_non_lists_alone() {
    let m = jtext("not a list");
    assert!(with_chat_breakpoints(&m).is_text("not a list"));
}

#[test]
fn request_body_follows_protocol() {
    let mut r = req(jarray_of(vec![msg("user", "hi")]), None);
    r.protocol = Some("responses".to_string());
    assert!(request_body(&r, true).get("input").is_some());
    r.protocol = Some("anthropic".to_string());
    assert!(request_body(&r, true).get("max_tokens").is_some());
    r.protocol = None;
    assert!(request_body(&r, true).get("stream_options").is_some());
}

#[test]
fn urls_per_protocol() {
    assert_eq!(resolve_url(" https://a.example/v1/ ", "anthropic"), "https://a.example/v1/messages");
    assert_eq!(resolve_url("https://a.example", "anthropic"), "https://a.example/v1/messages");
    assert_eq!(resolve_url("https://a.example//", "responses"), "https://a.example/v1/responses");
    assert_eq!(resolve_url("https://a.example/v1", "responses"), "https://a.example/v1/responses");
    assert_eq!(resolve_url("https://a.example/compatible-mode/v1", "chat"), "https://a.example/compatible-mode/v1/chat/completions");
}

#[test]
fn key_choice() {
    assert_eq!(choose_key(Some("  k1 "), Some("env")), Some("k1".to_string()));
    assert_eq!(choose_key(Some("   "), Some(" env ")), Some(" env ".to_string()));
    assert_eq!(choose_key(None, Some("  ")), None);
    assert_eq!(choose_key(None, None), None);
}

#[test]
fn rejection_decisions() {
    assert!(matches!(on_rejection(400, "unknown field stream_options", true, true), Retry::DropStreamOptions));
    assert!(matches!(on_rejection(400, "bad cache_control", false, true), Retry::DropCacheMarkers));
    match on_rejection(401, "denied", true, true) {
        Retry::Fail(m) => assert_eq!(m, "HTTP 401: denied"),
        _ => panic!("should fail"),
    }
    match on_rejection(400, "bad cache_control", false, false) {
        Retry::Fail(m) => assert_eq!(m, "HTTP 400: bad cache_control"),
        _ => panic!("should fail"),
    }
}
