//! Server-sent events of the three chat protocols: cutting the byte stream into
//! `data:` payloads, reading each payload into front-end events, and the
//! statistics behind the output-rate display (output chunks, token usage).

use vstd::prelude::*;
use crate::json::{Json, JsonV, jat, jstr, jidx, jnum_u64, jobj, obj1, obj2, obj3, jtext, items_view, lemma_items_view};
use crate::text::{split_seq, trim_spec, has_prefix, strs, vview, lemma_split_concat, lemma_split_nonempty, dec};

verus! {

// ---------- per-payload results ----------

/// What one payload brought: whether it carried real output (it opens or extends
/// the output window of the rate display) and the usage figures it carried, which
/// are running totals.
#[derive(Clone, Copy, PartialEq, Eq, Structural)]
pub struct Frag {
    pub out: bool,
    pub completion_tokens: Option<u64>,
    pub prompt_tokens: Option<u64>,
    pub cached_tokens: Option<u64>,
    pub cache_write_tokens: Option<u64>,
}

/// A payload that brought nothing.
pub open spec fn frag_none() -> Frag {
    Frag { out: false, completion_tokens: None, prompt_tokens: None, cached_tokens: None, cache_write_tokens: None }
}

impl Frag {
    /// A payload that brought nothing.
    pub fn none() -> (r: Frag)
        ensures
            r == frag_none(),
    {
        Frag { out: false, completion_tokens: None, prompt_tokens: None, cached_tokens: None, cache_write_tokens: None }
    }
}

/// An event for the front end: its kind and its payload.
pub struct ChatEvent {
    pub kind: String,
    pub payload: Json,
}

/// The events as (kind, payload) values.
pub open spec fn events_view(e: Seq<ChatEvent>) -> Seq<(Seq<char>, JsonV)> {
    e.map_values(|x: ChatEvent| (x.kind@, x.payload@))
}

/// One event when `cond` holds, none otherwise.
pub open spec fn ev_if(cond: bool, kind: Seq<char>, payload: JsonV) -> Seq<(Seq<char>, JsonV)> {
    if cond { seq![(kind, payload)] } else { Seq::<(Seq<char>, JsonV)>::empty() }
}

fn emit(events: &mut Vec<ChatEvent>, kind: &str, payload: Json)
    ensures
        events_view(final(events)@) == events_view(old(events)@).push((kind@, payload@)),
{
    let ghost before = events@;
    events.push(ChatEvent { kind: String::from_str(kind), payload });
    assert(events_view(events@) =~= events_view(before).push((kind@, payload@)));
}

// ---------- usage figures ----------

/// The first of two optional figures that is there.
pub open spec fn or_else(a: Option<u64>, b: Option<u64>) -> Option<u64> {
    match a {
        Some(x) => Some(x),
        None => b,
    }
}

/// A figure, zero when missing.
pub open spec fn or_zero(a: Option<u64>) -> u64 {
    match a {
        Some(x) => x,
        None => 0,
    }
}

/// Output tokens: `completion_tokens` or, under the other naming, `output_tokens`.
pub open spec fn output_tokens_spec(u: JsonV) -> Option<u64> {
    or_else(jnum_u64(jat(u, "completion_tokens"@)), jnum_u64(jat(u, "output_tokens"@)))
}

/// Total input tokens: `prompt_tokens`, or `input_tokens` plus the cache reads and
/// cache writes, which Anthropic counts apart from `input_tokens`.
pub open spec fn prompt_tokens_of(u: JsonV) -> Option<u64> {
    match jnum_u64(jat(u, "prompt_tokens"@)) {
        Some(p) => Some(p),
        None => match jnum_u64(jat(u, "input_tokens"@)) {
            Some(i) => Some(i.saturating_add(or_zero(jnum_u64(jat(u, "cache_read_input_tokens"@))))
                .saturating_add(or_zero(jnum_u64(jat(u, "cache_creation_input_tokens"@))))),
            None => None,
        },
    }
}

/// Input tokens served from the cache.
pub open spec fn cached_tokens_of(u: JsonV) -> Option<u64> {
    or_else(
        jnum_u64(jat(jat(u, "prompt_tokens_details"@), "cached_tokens"@)),
        or_else(
            jnum_u64(jat(jat(u, "input_tokens_details"@), "cached_tokens"@)),
            jnum_u64(jat(u, "cache_read_input_tokens"@)),
        ),
    )
}

/// Input tokens written to the cache.
pub open spec fn cache_write_of(u: JsonV) -> Option<u64> {
    or_else(
        jnum_u64(jat(u, "cache_creation_input_tokens"@)),
        jnum_u64(jat(jat(u, "prompt_tokens_details"@), "cache_creation_input_tokens"@)),
    )
}

/// The usage figures of a Chat Completions usage object: its output figure is
/// `completion_tokens` only.
pub open spec fn chat_usage_frag(out: bool, u: JsonV) -> Frag {
    Frag { completion_tokens: jnum_u64(jat(u, "completion_tokens"@)), ..usage_frag(out, u) }
}

/// The usage figures of a usage object, with the given output flag.
pub open spec fn usage_frag(out: bool, u: JsonV) -> Frag {
    Frag {
        out,
        completion_tokens: output_tokens_spec(u),
        prompt_tokens: prompt_tokens_of(u),
        cached_tokens: cached_tokens_of(u),
        cache_write_tokens: cache_write_of(u),
    }
}

fn first_of(a: Option<u64>, b: Option<u64>) -> (r: Option<u64>)
    ensures
        r == or_else(a, b),
{
    match a {
        Some(x) => Some(x),
        None => b,
    }
}

fn zero_if_none(a: Option<u64>) -> (r: u64)
    ensures
        r == or_zero(a),
{
    match a {
        Some(x) => x,
        None => 0,
    }
}

/// The output-token figure of a usage object.
pub fn output_tokens_of(u: &Json) -> (r: Option<u64>)
    ensures
        r == output_tokens_spec(u@),
{
    first_of(u.member("completion_tokens").as_u64(), u.member("output_tokens").as_u64())
}

fn usage_frag_exec(out: bool, u: &Json) -> (r: Frag)
    ensures
        r == usage_frag(out, u@),
{
    let prompt = match u.member("prompt_tokens").as_u64() {
        Some(p) => Some(p),
        None => match u.member("input_tokens").as_u64() {
            Some(i) => Some(i.saturating_add(zero_if_none(u.member("cache_read_input_tokens").as_u64()))
                .saturating_add(zero_if_none(u.member("cache_creation_input_tokens").as_u64()))),
            None => None,
        },
    };
    let cached = first_of(
        u.member("prompt_tokens_details").member("cached_tokens").as_u64(),
        first_of(
            u.member("input_tokens_details").member("cached_tokens").as_u64(),
            u.member("cache_read_input_tokens").as_u64(),
        ),
    );
    let write = first_of(
        u.member("cache_creation_input_tokens").as_u64(),
        u.member("prompt_tokens_details").member("cache_creation_input_tokens").as_u64(),
    );
    Frag {
        out,
        completion_tokens: output_tokens_of(u),
        prompt_tokens: prompt,
        cached_tokens: cached,
        cache_write_tokens: write,
    }
}

/// A non-empty string member.
pub open spec fn nonempty_str(j: JsonV) -> Option<Seq<char>> {
    match jstr(j) {
        Some(s) => if s.len() > 0 { Some(s) } else { None },
        None => None,
    }
}

fn nonempty_str_exec(j: &Json) -> (r: Option<String>)
    ensures
        match r {
            Some(s) => nonempty_str(j@) == Some(s@),
            None => nonempty_str(j@) is None,
        },
{
    match j.as_str() {
        Some(s) => if s.is_empty() { None } else { Some(String::from_str(s)) },
        None => None,
    }
}

/// The string, or the fallback text.
pub open spec fn str_or(j: JsonV, fallback: Seq<char>) -> Seq<char> {
    match jstr(j) {
        Some(s) => s,
        None => fallback,
    }
}

fn str_or_exec(j: &Json, fallback: &str) -> (r: String)
    ensures
        r@ == str_or(j@, fallback@),
{
    match j.as_str() {
        Some(s) => String::from_str(s),
        None => String::from_str(fallback),
    }
}

// ---------- Chat Completions ----------

/// The tool-call deltas of a chunk, when there are any.
pub open spec fn nonempty_list(j: JsonV) -> Option<Seq<JsonV>> {
    match j {
        JsonV::Array(a) => if a.len() > 0 { Some(a) } else { None },
        _ => None,
    }
}

/// A Chat Completions chunk: the error message, or the text, reasoning and
/// tool-call deltas of the first choice and its finish reason; the usage chunk
/// (empty choices) carries the token figures.
pub open spec fn openai_spec(v: Option<JsonV>) -> (Frag, Seq<(Seq<char>, JsonV)>) {
    match v {
        None => (frag_none(), Seq::<(Seq<char>, JsonV)>::empty()),
        Some(v) => match jstr(jat(jat(v, "error"@), "message"@)) {
            Some(e) => (frag_none(), seq![("error"@, JsonV::Str(e))]),
            None => {
                let delta = jat(jidx(jat(v, "choices"@), 0), "delta"@);
                let choice = jidx(jat(v, "choices"@), 0);
                let c = nonempty_str(jat(delta, "content"@));
                let rc = nonempty_str(jat(delta, "reasoning_content"@));
                let tc = nonempty_list(jat(delta, "tool_calls"@));
                let fr = jstr(jat(choice, "finish_reason"@));
                let out = c is Some || rc is Some || tc is Some;
                (
                    chat_usage_frag(out, jat(v, "usage"@)),
                    ev_if(c is Some, "delta"@, JsonV::Str(c->0))
                        + ev_if(rc is Some, "reasoning"@, JsonV::Str(rc->0))
                        + ev_if(tc is Some, "tool"@, JsonV::Array(tc->0))
                        + ev_if(fr is Some, "finish"@, JsonV::Str(fr->0)),
                )
            },
        },
    }
}

/// Reads one Chat Completions payload (`None` when it was not JSON).
pub fn handle_openai_sse(v: &Option<Json>, events: &mut Vec<ChatEvent>) -> (r: Frag)
    ensures
        r == openai_spec(crate::protocols::opt_view(*v)).0,
        events_view(final(events)@) == events_view(old(events)@) + openai_spec(crate::protocols::opt_view(*v)).1,
{
    let ghost e0 = events_view(events@);
    let v = match v {
        Some(v) => v,
        None => {
            assert(events_view(events@) =~= e0 + Seq::<(Seq<char>, JsonV)>::empty());
            return Frag::none();
        },
    };
    match v.member("error").member("message").as_str() {
        Some(e) => {
            emit(events, "error", jtext(e));
            assert(events_view(events@) =~= e0 + seq![("error"@, JsonV::Str(e@))]);
            return Frag::none();
        },
        None => {},
    }
    let choice = v.member("choices").item(0);
    let delta = choice.member("delta");
    let mut out = false;
    let ghost s0 = events_view(events@);
    match nonempty_str_exec(&delta.member("content")) {
        Some(c) => {
            out = true;
            emit(events, "delta", jtext(c.as_str()));
        },
        None => {},
    }
    let ghost s1 = events_view(events@);
    match nonempty_str_exec(&delta.member("reasoning_content")) {
        Some(c) => {
            out = true;
            emit(events, "reasoning", jtext(c.as_str()));
        },
        None => {},
    }
    let ghost s2 = events_view(events@);
    let tcs = delta.member("tool_calls");
    match &tcs {
        Json::Array(a) => {
            proof { lemma_items_view(a@); }
            if a.len() > 0 {
                out = true;
                emit(events, "tool", tcs.deep_clone());
            }
        },
        _ => {},
    }
    let ghost s3 = events_view(events@);
    match choice.member("finish_reason").as_str() {
        Some(fr) => {
            emit(events, "finish", jtext(fr));
        },
        None => {},
    }
    let ghost sp = openai_spec(Some(v@));
    assert(events_view(events@) =~= e0 + sp.1);
    let u = v.member("usage");
    let f = usage_frag_exec(out, &u);
    Frag { completion_tokens: u.member("completion_tokens").as_u64(), ..f }
}

/// Reads one Chat Completions payload from its raw text, as serde_json parses it.
pub fn handle_openai_payload(data: &str, events: &mut Vec<ChatEvent>) -> (r: Frag)
    ensures
        r == openai_spec(crate::json::json_parse(data@)).0,
        events_view(final(events)@) == events_view(old(events)@) + openai_spec(crate::json::json_parse(data@)).1,
{
    let v = crate::json::parse_json(data);
    proof { assert(crate::protocols::opt_view(v) == crate::json::json_parse(data@)); }
    handle_openai_sse(&v, events)
}

// ---------- Anthropic Messages ----------

/// `[{index, id, function: {name}}]`: a tool call opened.
pub open spec fn tool_start(index: JsonV, id: JsonV, name: JsonV) -> JsonV {
    JsonV::Array(seq![jobj(seq![("index"@, index), ("id"@, id), ("function"@, jobj(seq![("name"@, name)]))])])
}

/// `[{index, function: {arguments}}]`: a piece of tool-call arguments.
pub open spec fn tool_args(index: JsonV, args: Seq<char>) -> JsonV {
    JsonV::Array(seq![jobj(seq![("index"@, index), ("function"@, jobj(seq![("arguments"@, JsonV::Str(args))]))])])
}

fn tool_start_exec(index: Json, id: Json, name: Json) -> (r: Json)
    ensures
        r@ == tool_start(index@, id@, name@),
{
    let o = obj3("index", index, "id", id, "function", obj1("name", name));
    let ghost g = o@;
    let mut v: Vec<Json> = Vec::new();
    v.push(o);
    proof {
        lemma_items_view(v@);
        assert(items_view(v@) =~= seq![g]);
    }
    crate::json::jarray_of(v)
}

fn tool_args_exec(index: Json, args: &str) -> (r: Json)
    ensures
        r@ == tool_args(index@, args@),
{
    let o = obj2("index", index, "function", obj1("arguments", jtext(args)));
    let ghost g = o@;
    let mut v: Vec<Json> = Vec::new();
    v.push(o);
    proof {
        lemma_items_view(v@);
        assert(items_view(v@) =~= seq![g]);
    }
    crate::json::jarray_of(v)
}

/// The `type` of an event (empty when missing).
pub open spec fn type_of(v: JsonV) -> Seq<char> {
    str_or(jat(v, "type"@), ""@)
}

/// An Anthropic stream event.
pub open spec fn anthropic_spec(v: Option<JsonV>) -> (Frag, Seq<(Seq<char>, JsonV)>) {
    match v {
        None => (frag_none(), Seq::<(Seq<char>, JsonV)>::empty()),
        Some(v) => {
            let t = type_of(v);
            if t == "message_start"@ {
                (usage_frag(false, jat(jat(v, "message"@), "usage"@)), Seq::<(Seq<char>, JsonV)>::empty())
            } else if t == "content_block_start"@ {
                let cb = jat(v, "content_block"@);
                (frag_none(), ev_if(jat(cb, "type"@) == JsonV::Str("tool_use"@), "tool"@,
                    tool_start(jat(v, "index"@), jat(cb, "id"@), jat(cb, "name"@))))
            } else if t == "content_block_delta"@ {
                let d = jat(v, "delta"@);
                let dt = type_of(d);
                if dt == "text_delta"@ {
                    let x = nonempty_str(jat(d, "text"@));
                    (Frag { out: x is Some, ..frag_none() }, ev_if(x is Some, "delta"@, JsonV::Str(x->0)))
                } else if dt == "thinking_delta"@ {
                    let x = nonempty_str(jat(d, "thinking"@));
                    (Frag { out: x is Some, ..frag_none() }, ev_if(x is Some, "reasoning"@, JsonV::Str(x->0)))
                } else if dt == "input_json_delta"@ {
                    let x = nonempty_str(jat(d, "partial_json"@));
                    (Frag { out: x is Some, ..frag_none() }, ev_if(x is Some, "tool"@, tool_args(jat(v, "index"@), x->0)))
                } else {
                    (frag_none(), Seq::<(Seq<char>, JsonV)>::empty())
                }
            } else if t == "message_delta"@ {
                let fr = jstr(jat(jat(v, "delta"@), "stop_reason"@));
                (usage_frag(false, jat(v, "usage"@)), ev_if(fr is Some, "finish"@, JsonV::Str(fr->0)))
            } else if t == "error"@ {
                (frag_none(), seq![("error"@, JsonV::Str(str_or(jat(jat(v, "error"@), "message"@), "Anthropic 接口返回错误"@)))])
            } else {
                (frag_none(), Seq::<(Seq<char>, JsonV)>::empty())
            }
        },
    }
}

/// Reads one Anthropic payload (`None` when it was not JSON).
pub fn handle_anthropic_sse(v: &Option<Json>, events: &mut Vec<ChatEvent>) -> (r: Frag)
    ensures
        r == anthropic_spec(crate::protocols::opt_view(*v)).0,
        events_view(final(events)@) == events_view(old(events)@) + anthropic_spec(crate::protocols::opt_view(*v)).1,
{
    let ghost e0 = events_view(events@);
    let v = match v {
        Some(v) => v,
        None => {
            assert(events_view(events@) =~= e0 + Seq::<(Seq<char>, JsonV)>::empty());
            return Frag::none();
        },
    };
    let ghost sp = anthropic_spec(Some(v@));
    let t = str_or_exec(&v.member("type"), "");
    let mut frag = Frag::none();
    if crate::json::text_eq(t.as_str(), "message_start") {
        frag = usage_frag_exec(false, &v.member("message").member("usage"));
    } else if crate::json::text_eq(t.as_str(), "content_block_start") {
        let cb = v.member("content_block");
        if cb.member("type").is_text("tool_use") {
            emit(events, "tool", tool_start_exec(v.member("index"), cb.member("id"), cb.member("name")));
        }
    } else if crate::json::text_eq(t.as_str(), "content_block_delta") {
        let d = v.member("delta");
        let dt = str_or_exec(&d.member("type"), "");
        if crate::json::text_eq(dt.as_str(), "text_delta") {
            match nonempty_str_exec(&d.member("text")) {
                Some(x) => {
                    frag.out = true;
                    emit(events, "delta", jtext(x.as_str()));
                },
                None => {},
            }
        } else if crate::json::text_eq(dt.as_str(), "thinking_delta") {
            match nonempty_str_exec(&d.member("thinking")) {
                Some(x) => {
                    frag.out = true;
                    emit(events, "reasoning", jtext(x.as_str()));
                },
                None => {},
            }
        } else if crate::json::text_eq(dt.as_str(), "input_json_delta") {
            match nonempty_str_exec(&d.member("partial_json")) {
                Some(x) => {
                    frag.out = true;
                    emit(events, "tool", tool_args_exec(v.member("index"), x.as_str()));
                },
                None => {},
            }
        }
    } else if crate::json::text_eq(t.as_str(), "message_delta") {
        frag = usage_frag_exec(false, &v.member("usage"));
        match v.member("delta").member("stop_reason").as_str() {
            Some(fr) => {
                emit(events, "finish", jtext(fr));
            },
            None => {},
        }
    } else if crate::json::text_eq(t.as_str(), "error") {
        let msg = str_or_exec(&v.member("error").member("message"), "Anthropic 接口返回错误");
        emit(events, "error", jtext(msg.as_str()));
    }
    assert(events_view(events@) =~= e0 + sp.1);
    frag
}

/// Reads one Anthropic Messages payload from its raw text, as serde_json parses it.
pub fn handle_anthropic_payload(data: &str, events: &mut Vec<ChatEvent>) -> (r: Frag)
    ensures
        r == anthropic_spec(crate::json::json_parse(data@)).0,
        events_view(final(events)@) == events_view(old(events)@) + anthropic_spec(crate::json::json_parse(data@)).1,
{
    let v = crate::json::parse_json(data);
    proof { assert(crate::protocols::opt_view(v) == crate::json::json_parse(data@)); }
    handle_anthropic_sse(&v, events)
}

// ---------- OpenAI Responses ----------

/// A Responses stream event.
pub open spec fn responses_spec(v: Option<JsonV>) -> (Frag, Seq<(Seq<char>, JsonV)>) {
    match v {
        None => (frag_none(), Seq::<(Seq<char>, JsonV)>::empty()),
        Some(v) => {
            let t = type_of(v);
            if t == "response.output_text.delta"@ {
                let x = nonempty_str(jat(v, "delta"@));
                (Frag { out: x is Some, ..frag_none() }, ev_if(x is Some, "delta"@, JsonV::Str(x->0)))
            } else if t == "response.reasoning_summary_text.delta"@ || t == "response.reasoning_text.delta"@ {
                let x = nonempty_str(jat(v, "delta"@));
                (Frag { out: x is Some, ..frag_none() }, ev_if(x is Some, "reasoning"@, JsonV::Str(x->0)))
            } else if t == "response.output_item.added"@ {
                let item = jat(v, "item"@);
                (frag_none(), ev_if(jat(item, "type"@) == JsonV::Str("function_call"@), "tool"@,
                    tool_start(jat(v, "output_index"@), jat(item, "call_id"@), jat(item, "name"@))))
            } else if t == "response.function_call_arguments.delta"@ {
                let x = nonempty_str(jat(v, "delta"@));
                (Frag { out: x is Some, ..frag_none() }, ev_if(x is Some, "tool"@, tool_args(jat(v, "output_index"@), x->0)))
            } else if t == "response.completed"@ {
                (usage_frag(false, jat(jat(v, "response"@), "usage"@)), seq![("finish"@, JsonV::Str("stop"@))])
            } else if t == "response.incomplete"@ {
                (frag_none(), seq![("finish"@, JsonV::Str("incomplete"@))])
            } else if t == "response.failed"@ {
                (frag_none(), seq![("error"@, JsonV::Str(str_or(jat(jat(jat(v, "response"@), "error"@), "message"@),
                    "Responses 接口返回失败"@)))])
            } else if t == "error"@ {
                let m = match jstr(jat(v, "message"@)) {
                    Some(m) => m,
                    None => str_or(jat(jat(v, "error"@), "message"@), "Responses 接口返回错误"@),
                };
                (frag_none(), seq![("error"@, JsonV::Str(m))])
            } else {
                (frag_none(), Seq::<(Seq<char>, JsonV)>::empty())
            }
        },
    }
}

/// Reads one Responses payload (`None` when it was not JSON).
pub fn handle_responses_sse(v: &Option<Json>, events: &mut Vec<ChatEvent>) -> (r: Frag)
    ensures
        r == responses_spec(crate::protocols::opt_view(*v)).0,
        events_view(final(events)@) == events_view(old(events)@) + responses_spec(crate::protocols::opt_view(*v)).1,
{
    let ghost e0 = events_view(events@);
    let v = match v {
        Some(v) => v,
        None => {
            assert(events_view(events@) =~= e0 + Seq::<(Seq<char>, JsonV)>::empty());
            return Frag::none();
        },
    };
    let ghost sp = responses_spec(Some(v@));
    let t = str_or_exec(&v.member("type"), "");
    let mut frag = Frag::none();
    if crate::json::text_eq(t.as_str(), "response.output_text.delta") {
        match nonempty_str_exec(&v.member("delta")) {
            Some(x) => {
                frag.out = true;
                emit(events, "delta", jtext(x.as_str()));
            },
            None => {},
        }
    } else if crate::json::text_eq(t.as_str(), "response.reasoning_summary_text.delta")
        || crate::json::text_eq(t.as_str(), "response.reasoning_text.delta") {
        match nonempty_str_exec(&v.member("delta")) {
            Some(x) => {
                frag.out = true;
                emit(events, "reasoning", jtext(x.as_str()));
            },
            None => {},
        }
    } else if crate::json::text_eq(t.as_str(), "response.output_item.added") {
        let item = v.member("item");
        if item.member("type").is_text("function_call") {
            emit(events, "tool", tool_start_exec(v.member("output_index"), item.member("call_id"), item.member("name")));
        }
    } else if crate::json::text_eq(t.as_str(), "response.function_call_arguments.delta") {
        match nonempty_str_exec(&v.member("delta")) {
            Some(x) => {
                frag.out = true;
                emit(events, "tool", tool_args_exec(v.member("output_index"), x.as_str()));
            },
            None => {},
        }
    } else if crate::json::text_eq(t.as_str(), "response.completed") {
        frag = usage_frag_exec(false, &v.member("response").member("usage"));
        emit(events, "finish", jtext("stop"));
    } else if crate::json::text_eq(t.as_str(), "response.incomplete") {
        emit(events, "finish", jtext("incomplete"));
    } else if crate::json::text_eq(t.as_str(), "response.failed") {
        let msg = str_or_exec(&v.member("response").member("error").member("message"), "Responses 接口返回失败");
        emit(events, "error", jtext(msg.as_str()));
    } else if crate::json::text_eq(t.as_str(), "error") {
        let msg = match v.member("message").as_str() {
            Some(m) => String::from_str(m),
            None => str_or_exec(&v.member("error").member("message"), "Responses 接口返回错误"),
        };
        emit(events, "error", jtext(msg.as_str()));
    }
    assert(events_view(events@) =~= e0 + sp.1);
    frag
}

/// Reads one Responses payload from its raw text, as serde_json parses it.
pub fn handle_responses_payload(data: &str, events: &mut Vec<ChatEvent>) -> (r: Frag)
    ensures
        r == responses_spec(crate::json::json_parse(data@)).0,
        events_view(final(events)@) == events_view(old(events)@) + responses_spec(crate::json::json_parse(data@)).1,
{
    let v = crate::json::parse_json(data);
    proof { assert(crate::protocols::opt_view(v) == crate::json::json_parse(data@)); }
    handle_responses_sse(&v, events)
}

// ---------- cutting the stream into payloads ----------

/// The payload of one line: after `data:` on a `data:` line, both trimmed,
/// unless it is the end marker `[DONE]`.
pub open spec fn line_payload(line: Seq<char>) -> Option<Seq<char>> {
    let t = trim_spec(line);
    if has_prefix(t, "data:"@) {
        let d = trim_spec(t.skip("data:"@.len() as int));
        if d == "[DONE]"@ { None } else { Some(d) }
    } else {
        None
    }
}

/// The payloads of a run of lines, in order.
pub open spec fn payloads(lines: Seq<Seq<char>>) -> Seq<Seq<char>>
    decreases lines.len(),
{
    if lines.len() == 0 {
        Seq::<Seq<char>>::empty()
    } else {
        match line_payload(lines.last()) {
            Some(d) => payloads(lines.drop_last()).push(d),
            None => payloads(lines.drop_last()),
        }
    }
}

/// The payloads of two runs of lines are those of each run.
pub proof fn lemma_payloads_concat(a: Seq<Seq<char>>, b: Seq<Seq<char>>)
    ensures
        payloads(a + b) == payloads(a) + payloads(b),
    decreases b.len(),
{
    if b.len() == 0 {
        assert(a + b =~= a);
        assert(payloads(a) + payloads(b) =~= payloads(a));
    } else {
        lemma_payloads_concat(a, b.drop_last());
        assert((a + b).drop_last() =~= a + b.drop_last());
        assert((a + b).last() == b.last());
        match line_payload(b.last()) {
            Some(d) => {
                assert((payloads(a) + payloads(b.drop_last())).push(d) =~= payloads(a) + payloads(b.drop_last()).push(d));
            },
            None => {},
        }
    }
}

fn line_payload_exec(line: &[char]) -> (r: Option<String>)
    ensures
        match r {
            Some(d) => line_payload(line@) == Some(d@),
            None => line_payload(line@) is None,
        },
{
    let t = crate::text::trim_chars(line);
    let prefix = crate::text::chars_of("data:");
    if !crate::text::starts_with(&t, &prefix) {
        return None;
    }
    let rest = crate::text::copy_range(&t, prefix.len(), t.len());
    assert(rest@ =~= t@.skip("data:"@.len() as int));
    let d = crate::text::trim_chars(&rest);
    let done = crate::text::chars_of("[DONE]");
    if crate::text::chars_eq(&d, &done) {
        None
    } else {
        Some(crate::text::string_of(&d))
    }
}

/// Reads a byte stream of server-sent events line by line; an unfinished last
/// line waits for the next chunk.
pub struct SseReader {
    buf: Vec<char>,
}

impl SseReader {
    /// The text received after the last line break.
    pub closed spec fn pending(&self) -> Seq<char> {
        self.buf@
    }

    /// A reader that has received nothing.
    pub fn new() -> (r: SseReader)
        ensures
            r.pending() == Seq::<char>::empty(),
    {
        SseReader { buf: Vec::new() }
    }

    /// Takes in a piece of text; returns the payloads of the lines it completed.
    pub fn push_text(&mut self, text: &str) -> (r: Vec<String>)
        ensures
            strs(r@) == payloads(split_seq(old(self).pending() + text@, '\n').drop_last()),
            final(self).pending() == split_seq(old(self).pending() + text@, '\n').last(),
    {
        let mut all: Vec<char> = Vec::new();
        std::mem::swap(&mut all, &mut self.buf);
        let tv = crate::text::chars_of(text);
        crate::text::extend_chars(&mut all, &tv);
        let pieces = crate::text::split_chars(&all, '\n');
        let ghost ps = vview(pieces@);
        proof { lemma_split_nonempty(all@, '\n'); }
        let n = pieces.len();
        let mut out: Vec<String> = Vec::new();
        let mut i: usize = 0;
        while i + 1 < n
            invariant
                n == pieces@.len(),
                n >= 1,
                ps == vview(pieces@),
                i < n,
                strs(out@) == payloads(ps.take(i as int)),
            decreases n - i,
        {
            assert(ps.take(i + 1).drop_last() =~= ps.take(i as int));
            assert(ps.take(i + 1).last() == pieces@[i as int]@);
            let ghost before = out@;
            match line_payload_exec(&pieces[i]) {
                Some(d) => {
                    out.push(d);
                    assert(strs(out@) =~= strs(before).push(d@));
                },
                None => {},
            }
            i += 1;
        }
        assert(ps.take(i as int) =~= ps.drop_last());
        self.buf = crate::text::copy_range(&pieces[n - 1], 0, pieces[n - 1].len());
        assert(self.buf@ =~= ps.last());
        out
    }

    /// Takes in a chunk of bytes, read as UTF-8 with invalid sequences replaced.
    pub fn push_bytes(&mut self, chunk: &[u8]) -> (r: Vec<String>)
        ensures
            strs(r@) == payloads(split_seq(old(self).pending() + utf8_lossy(chunk@), '\n').drop_last()),
            final(self).pending() == split_seq(old(self).pending() + utf8_lossy(chunk@), '\n').last(),
    {
        let t = lossy(chunk);
        self.push_text(t.as_str())
    }

    /// One turn of reading a stream: a stop request ends it as `aborted`, a
    /// stall or a broken connection ends it with an error, the end of the stream
    /// ends it quietly, and a chunk gives the payloads of the lines it completed.
    pub fn step(&mut self, ev: StreamEvent) -> (r: StreamStep)
        ensures
            match ev {
                StreamEvent::StopRequested => r is Aborted && final(self).pending() == old(self).pending(),
                StreamEvent::Stalled => r matches StreamStep::Failed(m) && m@ == stall_message()
                    && final(self).pending() == old(self).pending(),
                StreamEvent::Closed => r is Finished && final(self).pending() == old(self).pending(),
                StreamEvent::Broken(e) => r matches StreamStep::Failed(m) && m@ == "数据流中断: "@ + e@
                    && final(self).pending() == old(self).pending(),
                StreamEvent::Chunk(b) => r matches StreamStep::Payloads(ps)
                    && strs(ps@) == payloads(split_seq(old(self).pending() + utf8_lossy(b@), '\n').drop_last())
                    && final(self).pending() == split_seq(old(self).pending() + utf8_lossy(b@), '\n').last(),
            },
    {
        match ev {
            StreamEvent::StopRequested => StreamStep::Aborted,
            StreamEvent::Stalled => StreamStep::Failed(String::from_str("数据流读取超时（180 秒无输出）")),
            StreamEvent::Closed => StreamStep::Finished,
            StreamEvent::Broken(e) => {
                let mut m = String::from_str("数据流中断: ");
                crate::text::push_str(&mut m, e.as_str());
                StreamStep::Failed(m)
            },
            StreamEvent::Chunk(b) => StreamStep::Payloads(self.push_bytes(b.as_slice())),
        }
    }
}

/// The error when no piece of the stream came for 180 seconds.
pub open spec fn stall_message() -> Seq<char> {
    "数据流读取超时（180 秒无输出）"@
}

/// What waiting for the stream's next piece gave.
pub enum StreamEvent {
    /// The user asked to stop.
    StopRequested,
    /// Nothing came for 180 seconds.
    Stalled,
    /// The stream ended.
    Closed,
    /// The connection broke (the reason).
    Broken(String),
    /// A chunk of bytes.
    Chunk(Vec<u8>),
}

/// What to do after one turn.
pub enum StreamStep {
    /// Emit `aborted`, with no error, and stop reading.
    Aborted,
    /// Emit `error` with this message and stop reading.
    Failed(String),
    /// The stream ended normally: stop reading.
    Finished,
    /// Go on; these payloads were completed.
    Payloads(Vec<String>),
}

/// The text of bytes read as UTF-8, invalid sequences replaced by U+FFFD.
pub uninterp spec fn utf8_lossy(b: Seq<u8>) -> Seq<char>;

/// `String::from_utf8_lossy`: claims only that the text is the function's reading
/// of the given bytes.
#[verifier::external_body]
pub(crate) fn lossy(b: &[u8]) -> (r: String)
    ensures
        r@ == utf8_lossy(b@),
{
    String::from_utf8_lossy(b).into_owned()
}

/// Feeding text in two pieces gives the same payloads, and leaves the same
/// unfinished line, as feeding it at once: where the network cuts the stream
/// does not matter.
pub proof fn lemma_feed_split(pending: Seq<char>, a: Seq<char>, b: Seq<char>)
    ensures
        ({
            let first = split_seq(pending + a, '\n');
            let second = split_seq(first.last() + b, '\n');
            let once = split_seq(pending + a + b, '\n');
            &&& payloads(first.drop_last()) + payloads(second.drop_last()) == payloads(once.drop_last())
            &&& second.last() == once.last()
        }),
{
    let first = split_seq(pending + a, '\n');
    let second = split_seq(first.last() + b, '\n');
    lemma_split_concat(pending + a, b, '\n');
    lemma_split_nonempty(first.last() + b, '\n');
    let once = split_seq(pending + a + b, '\n');
    assert(once =~= first.drop_last() + second);
    assert(once.drop_last() =~= first.drop_last() + second.drop_last());
    lemma_payloads_concat(first.drop_last(), second.drop_last());
}

// ---------- the figures behind the rate display ----------

/// The larger of a running figure and a new one (figures are running totals,
/// so the largest seen is the latest, whatever order chunks arrive in).
pub open spec fn max_opt(a: Option<u64>, b: Option<u64>) -> Option<u64> {
    match b {
        Some(t) => match a {
            Some(p) => Some(if p >= t { p } else { t }),
            None => Some(t),
        },
        None => a,
    }
}

fn max_opt_exec(a: Option<u64>, b: Option<u64>) -> (r: Option<u64>)
    ensures
        r == max_opt(a, b),
{
    match b {
        Some(t) => match a {
            Some(p) => Some(if p >= t { p } else { t }),
            None => Some(t),
        },
        None => a,
    }
}

/// What a stream has brought so far.
#[derive(Clone, Copy, PartialEq, Eq, Structural)]
pub struct StreamStats {
    /// Payloads with real output.
    pub chunks: u64,
    pub completion_tokens: Option<u64>,
    pub prompt_tokens: Option<u64>,
    pub cached_tokens: Option<u64>,
    pub cache_write_tokens: Option<u64>,
}

/// The figures after one more payload.
pub open spec fn record_spec(s: StreamStats, f: Frag) -> StreamStats {
    StreamStats {
        chunks: if f.out { (s.chunks + 1) as u64 } else { s.chunks },
        completion_tokens: max_opt(s.completion_tokens, f.completion_tokens),
        prompt_tokens: max_opt(s.prompt_tokens, f.prompt_tokens),
        cached_tokens: max_opt(s.cached_tokens, f.cached_tokens),
        cache_write_tokens: max_opt(s.cache_write_tokens, f.cache_write_tokens),
    }
}

impl StreamStats {
    /// Nothing received yet.
    pub fn new() -> (r: StreamStats)
        ensures
            r == (StreamStats { chunks: 0, completion_tokens: None, prompt_tokens: None, cached_tokens: None, cache_write_tokens: None }),
    {
        StreamStats { chunks: 0, completion_tokens: None, prompt_tokens: None, cached_tokens: None, cache_write_tokens: None }
    }

    /// Takes one payload's result into account.
    pub fn record(&mut self, f: &Frag)
        requires
            f.out ==> old(self).chunks < u64::MAX,
        ensures
            *final(self) == record_spec(*old(self), *f),
    {
        if f.out {
            self.chunks = self.chunks + 1;
        }
        self.completion_tokens = max_opt_exec(self.completion_tokens, f.completion_tokens);
        self.prompt_tokens = max_opt_exec(self.prompt_tokens, f.prompt_tokens);
        self.cached_tokens = max_opt_exec(self.cached_tokens, f.cached_tokens);
        self.cache_write_tokens = max_opt_exec(self.cache_write_tokens, f.cache_write_tokens);
    }
}

/// Two payloads taken in either order give the same figures.
pub proof fn lemma_record_commutes(s: StreamStats, f: Frag, g: Frag)
    requires
        s.chunks + 2 <= u64::MAX,
    ensures
        record_spec(record_spec(s, f), g) == record_spec(record_spec(s, g), f),
{
}

/// A figure as a JSON number, or null.
pub open spec fn opt_number(o: Option<u64>) -> JsonV {
    match o {
        Some(n) => JsonV::Number(dec(n as nat)),
        None => JsonV::Null,
    }
}

fn number_of(n: u64) -> (r: Json)
    ensures
        r@ == JsonV::Number(dec(n as nat)),
{
    Json::Number(crate::text::dec_string(n as u128))
}

fn opt_number_exec(o: Option<u64>) -> (r: Json)
    ensures
        r@ == opt_number(o),
{
    match o {
        Some(n) => number_of(n),
        None => Json::Null,
    }
}

/// The `timing` event's payload: time to first output, the output window (first to
/// last output chunk), the whole request, and the figures.
pub open spec fn timing_spec(s: StreamStats, ttft_ms: u64, decode_ms: u64, total_ms: u64) -> JsonV {
    jobj(seq![
        ("ttftMs"@, JsonV::Number(dec(ttft_ms as nat))),
        ("decodeMs"@, JsonV::Number(dec(decode_ms as nat))),
        ("totalMs"@, JsonV::Number(dec(total_ms as nat))),
        ("completionTokens"@, opt_number(s.completion_tokens)),
        ("chunks"@, JsonV::Number(dec(s.chunks as nat))),
        ("promptTokens"@, opt_number(s.prompt_tokens)),
        ("cachedTokens"@, opt_number(s.cached_tokens)),
        ("cacheWriteTokens"@, opt_number(s.cache_write_tokens)),
    ])
}

/// The `timing` event's payload.
pub fn timing_payload(s: &StreamStats, ttft_ms: u64, decode_ms: u64, total_ms: u64) -> (r: Json)
    ensures
        r@ == timing_spec(*s, ttft_ms, decode_ms, total_ms),
{
    let mut m: Vec<(String, Json)> = Vec::new();
    m.push((String::from_str("ttftMs"), number_of(ttft_ms)));
    m.push((String::from_str("decodeMs"), number_of(decode_ms)));
    m.push((String::from_str("totalMs"), number_of(total_ms)));
    m.push((String::from_str("completionTokens"), opt_number_exec(s.completion_tokens)));
    m.push((String::from_str("chunks"), number_of(s.chunks)));
    m.push((String::from_str("promptTokens"), opt_number_exec(s.prompt_tokens)));
    m.push((String::from_str("cachedTokens"), opt_number_exec(s.cached_tokens)));
    m.push((String::from_str("cacheWriteTokens"), opt_number_exec(s.cache_write_tokens)));
    proof {
        crate::json::lemma_members_view(m@);
        assert(crate::json::members_view(m@) =~= seq![
            ("ttftMs"@, JsonV::Number(dec(ttft_ms as nat))),
            ("decodeMs"@, JsonV::Number(dec(decode_ms as nat))),
            ("totalMs"@, JsonV::Number(dec(total_ms as nat))),
            ("completionTokens"@, opt_number(s.completion_tokens)),
            ("chunks"@, JsonV::Number(dec(s.chunks as nat))),
            ("promptTokens"@, opt_number(s.prompt_tokens)),
            ("cachedTokens"@, opt_number(s.cached_tokens)),
            ("cacheWriteTokens"@, opt_number(s.cache_write_tokens)),
        ]);
    }
    crate::json::obj_of(m)
}

/// In a Chat Completions chunk without an error, answer text and thinking stay
/// apart: every `delta` event carries exactly the delta's `content` text, every
/// `reasoning` event exactly its `reasoning_content` text, and a non-empty
/// `content` or `reasoning_content` is always shown, as a `delta` or a
/// `reasoning` event respectively.
pub proof fn law_openai_reasoning_apart_from_text(v: JsonV)
    requires
        jstr(jat(jat(v, "error"@), "message"@)) is None,
    ensures
        forall|i: int| 0 <= i < openai_spec(Some(v)).1.len() && (#[trigger] openai_spec(Some(v)).1[i]).0 == "delta"@
            ==> openai_spec(Some(v)).1[i].1 == jat(jat(jidx(jat(v, "choices"@), 0), "delta"@), "content"@),
        forall|i: int| 0 <= i < openai_spec(Some(v)).1.len() && (#[trigger] openai_spec(Some(v)).1[i]).0 == "reasoning"@
            ==> openai_spec(Some(v)).1[i].1 == jat(jat(jidx(jat(v, "choices"@), 0), "delta"@), "reasoning_content"@),
        forall|x: Seq<char>| jat(jat(jidx(jat(v, "choices"@), 0), "delta"@), "reasoning_content"@) == JsonV::Str(x)
            && x.len() > 0 ==> openai_spec(Some(v)).1.contains(("reasoning"@, JsonV::Str(x))),
        forall|x: Seq<char>| jat(jat(jidx(jat(v, "choices"@), 0), "delta"@), "content"@) == JsonV::Str(x)
            && x.len() > 0 ==> openai_spec(Some(v)).1.contains(("delta"@, JsonV::Str(x))),
{
    let delta = jat(jidx(jat(v, "choices"@), 0), "delta"@);
    let choice = jidx(jat(v, "choices"@), 0);
    let c = nonempty_str(jat(delta, "content"@));
    let rc = nonempty_str(jat(delta, "reasoning_content"@));
    let tc = nonempty_list(jat(delta, "tool_calls"@));
    let fr = jstr(jat(choice, "finish_reason"@));
    let a = ev_if(c is Some, "delta"@, JsonV::Str(c->0));
    let b = ev_if(rc is Some, "reasoning"@, JsonV::Str(rc->0));
    let t = ev_if(tc is Some, "tool"@, JsonV::Array(tc->0));
    let f = ev_if(fr is Some, "finish"@, JsonV::Str(fr->0));
    let evs = openai_spec(Some(v)).1;
    assert(evs == a + b + t + f);
    assert("delta"@ != "reasoning"@) by { reveal_strlit("delta"); reveal_strlit("reasoning"); assert("delta"@[0] != "reasoning"@[0]); }
    assert("delta"@ != "tool"@) by { reveal_strlit("delta"); reveal_strlit("tool"); assert("delta"@.len() != "tool"@.len()); }
    assert("delta"@ != "finish"@) by { reveal_strlit("delta"); reveal_strlit("finish"); assert("delta"@.len() != "finish"@.len()); }
    assert("reasoning"@ != "tool"@) by { reveal_strlit("reasoning"); reveal_strlit("tool"); assert("reasoning"@.len() != "tool"@.len()); }
    assert("reasoning"@ != "finish"@) by { reveal_strlit("reasoning"); reveal_strlit("finish"); assert("reasoning"@.len() != "finish"@.len()); }
    assert forall|i: int| 0 <= i < evs.len() && (#[trigger] evs[i]).0 == "delta"@
        implies evs[i].1 == jat(delta, "content"@) by {
        if i < a.len() {
            assert(evs[i] == a[i]);
        } else if i < a.len() + b.len() {
            assert(evs[i] == b[i - a.len()]);
        } else if i < a.len() + b.len() + t.len() {
            assert(evs[i] == t[i - a.len() - b.len()]);
        } else {
            assert(evs[i] == f[i - a.len() - b.len() - t.len()]);
        }
    }
    assert forall|i: int| 0 <= i < evs.len() && (#[trigger] evs[i]).0 == "reasoning"@
        implies evs[i].1 == jat(delta, "reasoning_content"@) by {
        if i < a.len() {
            assert(evs[i] == a[i]);
        } else if i < a.len() + b.len() {
            assert(evs[i] == b[i - a.len()]);
        } else if i < a.len() + b.len() + t.len() {
            assert(evs[i] == t[i - a.len() - b.len()]);
        } else {
            assert(evs[i] == f[i - a.len() - b.len() - t.len()]);
        }
    }
    assert forall|x: Seq<char>| jat(delta, "reasoning_content"@) == JsonV::Str(x) && x.len() > 0
        implies evs.contains(("reasoning"@, JsonV::Str(x))) by {
        assert(rc == Some(x));
        assert(evs[a.len() as int] == b[0]);
    }
    assert forall|x: Seq<char>| jat(delta, "content"@) == JsonV::Str(x) && x.len() > 0
        implies evs.contains(("delta"@, JsonV::Str(x))) by {
        assert(c == Some(x));
        assert(evs[0] == a[0]);
    }
}

} // verus!
