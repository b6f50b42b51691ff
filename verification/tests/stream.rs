use qwen_studio::sse::{handle_anthropic_payload, handle_openai_payload, handle_responses_payload};
use qwen_studio::json::parse_json;
use qwen_studio::sse::{StreamEvent, StreamStep};
use qwen_studio::json::{jarray_of, jnumber, jtext, obj1, obj2, obj3, Json};
use qwen_studio::sse::{
    handle_anthropic_sse, handle_openai_sse, handle_responses_sse, output_tokens_of, timing_payload, ChatEvent, Frag,
    SseReader, StreamStats,
};

fn kinds(ev: &[ChatEvent]) -> Vec<String> {
    ev.iter().map(|e| e.kind.clone()).collect()
}

#[test]
fn sse_lines_survive_any_cut() {
    let mut r = SseReader::new();
    let a = r.push_text("data: {\"a\":1}\r\nda");
    assert_eq!(a, vec!["{\"a\":1}".to_string()]);
    let b = r.push_text("ta: [DONE]\n: comment\ndata:  x  \n");
    assert_eq!(b, vec!["x".to_string()]);
    let mut once = SseReader::new();
    let all = once.push_text("data: {\"a\":1}\r\ndata: [DONE]\n: comment\ndata:  x  \n");
    assert_eq!(all, vec!["{\"a\":1}".to_string(), "x".to_string()]);
}

#[test]
fn sse_bytes_are_read_lossily() {
    let mut r = SseReader::new();
    let out = r.push_bytes(b"data: \xff\n");
    assert_eq!(out, vec!["\u{fffd}".to_string()]);
}

#[test]
fn openai_chunk_events() {
    let delta = obj2("content", jtext("你好"), "reasoning_content", jtext(""));
    let choice = obj2("delta", delta, "finish_reason", jtext("stop"));
    let v = obj2("choices", jarray_of(vec![choice]), "usage", obj2("completion_tokens", jnumber("12"), "prompt_tokens", jnumber("100")));
    let mut ev = Vec::new();
    let f = handle_openai_sse(&Some(v), &mut ev);
    assert!(f.out);
    assert_eq!(f.completion_tokens, Some(12));
    assert_eq!(f.prompt_tokens, Some(100));
    assert_eq!(kinds(&ev), vec!["delta", "finish"]);
    assert!(ev[0].payload.is_text("你好"));
    let mut ev = Vec::new();
    let f = handle_openai_sse(&None, &mut ev);
    assert!(!f.out && ev.is_empty());
    let err = obj1("error", obj1("message", jtext("quota")));
    let mut ev = Vec::new();
    handle_openai_sse(&Some(err), &mut ev);
    assert_eq!(kinds(&ev), vec!["error"]);
}

#[test]
fn anthropic_stream_events() {
    let start = obj3("type", jtext("content_block_start"), "index", jnumber("1"), "content_block",
        obj3("type", jtext("tool_use"), "id", jtext("t1"), "name", jtext("read")));
    let mut ev = Vec::new();
    let f = handle_anthropic_sse(&Some(start), &mut ev);
    assert!(!f.out);
    assert_eq!(kinds(&ev), vec!["tool"]);
    assert!(ev[0].payload.item(0).member("function").member("name").is_text("read"));
    let delta = obj3("type", jtext("content_block_delta"), "index", jnumber("1"), "delta",
        obj2("type", jtext("input_json_delta"), "partial_json", jtext("{\"a\"")));
    let mut ev = Vec::new();
    assert!(handle_anthropic_sse(&Some(delta), &mut ev).out);
    assert!(ev[0].payload.item(0).member("function").member("arguments").is_text("{\"a\""));
    let usage = obj3("type", jtext("message_delta"), "usage",
        obj3("output_tokens", jnumber("7"), "input_tokens", jnumber("10"), "cache_read_input_tokens", jnumber("90")),
        "delta", obj1("stop_reason", jtext("end_turn")));
    let mut ev = Vec::new();
    let f = handle_anthropic_sse(&Some(usage), &mut ev);
    assert_eq!(f.completion_tokens, Some(7));
    assert_eq!(f.prompt_tokens, Some(100));
    assert_eq!(f.cached_tokens, Some(90));
    assert_eq!(kinds(&ev), vec!["finish"]);
    let mut ev = Vec::new();
    handle_anthropic_sse(&Some(obj1("type", jtext("error"))), &mut ev);
    assert!(ev[0].payload.is_text("Anthropic 接口返回错误"));
}

#[test]
fn responses_stream_events() {
    let mut ev = Vec::new();
    let f = handle_responses_sse(&Some(obj2("type", jtext("response.output_text.delta"), "delta", jtext("hi"))), &mut ev);
    assert!(f.out);
    let done = obj2("type", jtext("response.completed"), "response",
        obj1("usage", obj2("output_tokens", jnumber("5"), "input_tokens_details", obj1("cached_tokens", jnumber("3")))));
    let f = handle_responses_sse(&Some(done), &mut ev);
    assert_eq!(f.completion_tokens, Some(5));
    assert_eq!(f.cached_tokens, Some(3));
    let mut ev2 = Vec::new();
    handle_responses_sse(&Some(obj2("type", jtext("error"), "error", obj1("message", jtext("boom")))), &mut ev2);
    assert!(ev2[0].payload.is_text("boom"));
    assert_eq!(kinds(&ev), vec!["delta", "finish"]);
    assert!(ev[1].payload.is_text("stop"));
}

#[test]
fn output_token_naming() {
    assert_eq!(output_tokens_of(&obj1("output_tokens", jnumber("4"))), Some(4));
    assert_eq!(output_tokens_of(&obj1("completion_tokens", jnumber("1.5"))), None);
    assert_eq!(output_tokens_of(&Json::Null), None);
}

#[test]
fn stats_keep_the_largest_figures() {
    let mut s = StreamStats::new();
    let f1 = Frag { out: true, completion_tokens: Some(9), ..Frag::none() };
    let f2 = Frag { out: false, completion_tokens: Some(4), prompt_tokens: Some(20), ..Frag::none() };
    s.record(&f1);
    s.record(&f2);
    assert_eq!(s.chunks, 1);
    assert_eq!(s.completion_tokens, Some(9));
    let mut t = StreamStats::new();
    t.record(&f2);
    t.record(&f1);
    assert!(s == t);
    let p = timing_payload(&s, 120, 800, 1000);
    assert_eq!(p.member("ttftMs").as_u64(), Some(120));
    assert_eq!(p.member("completionTokens").as_u64(), Some(9));
    assert!(p.member("cachedTokens").is_null());
    assert_eq!(p.member("chunks").as_u64(), Some(1));
}

#[test]
fn stream_turns_decide_the_ending() {
    let mut r = SseReader::new();
    assert!(matches!(r.step(StreamEvent::Chunk(b"data: {\"a\":1}\ndata: x".to_vec())), StreamStep::Payloads(p) if p == vec!["{\"a\":1}".to_string()]));
    assert!(matches!(r.step(StreamEvent::StopRequested), StreamStep::Aborted));
    assert!(matches!(r.step(StreamEvent::Stalled), StreamStep::Failed(m) if m == "数据流读取超时（180 秒无输出）"));
    assert!(matches!(r.step(StreamEvent::Broken("reset".into())), StreamStep::Failed(m) if m == "数据流中断: reset"));
    assert!(matches!(r.step(StreamEvent::Chunk(b"y\n".to_vec())), StreamStep::Payloads(p) if p == vec!["xy".to_string()]));
    assert!(matches!(r.step(StreamEvent::Closed), StreamStep::Finished));
}

#[test]
fn raw_payloads_are_parsed_then_read() {
    let mut ev = Vec::new();
    let f = handle_openai_payload("{\"choices\":[{\"delta\":{\"content\":\"hi\"}}]}", &mut ev);
    assert!(f.out);
    assert_eq!(kinds(&ev), vec!["delta"]);
    let mut ev = Vec::new();
    let f = handle_openai_payload("not json", &mut ev);
    assert!(!f.out && ev.is_empty());
    // Chat Completions reads `completion_tokens` only
    let mut ev = Vec::new();
    let f = handle_openai_payload("{\"choices\":[],\"usage\":{\"output_tokens\":7}}", &mut ev);
    assert_eq!(f.completion_tokens, None);
    let f = handle_openai_payload("{\"choices\":[],\"usage\":{\"completion_tokens\":9,\"prompt_tokens\":3}}", &mut ev);
    assert_eq!((f.completion_tokens, f.prompt_tokens), (Some(9), Some(3)));
    let mut ev = Vec::new();
    let f = handle_anthropic_payload("{\"type\":\"content_block_delta\",\"delta\":{\"type\":\"text_delta\",\"text\":\"x\"}}", &mut ev);
    assert!(f.out);
    assert_eq!(kinds(&ev), vec!["delta"]);
    let mut ev = Vec::new();
    let f = handle_responses_payload("{\"type\":\"response.output_text.delta\",\"delta\":\"y\"}", &mut ev);
    assert!(f.out);
    assert_eq!(kinds(&ev), vec!["delta"]);
}

#[test]
fn json_text_is_read_by_serde_json() {
    let v = parse_json("{\"b\":1.5,\"a\":[true,null,\"s\"]}").unwrap();
    assert!(matches!(v.get("b"), Some(Json::Number(t)) if t == "1.5"));
    assert!(matches!(v.get("a"), Some(Json::Array(a)) if a.len() == 3));
    assert!(parse_json("{").is_none());
    assert!(parse_json("").is_none());
}
