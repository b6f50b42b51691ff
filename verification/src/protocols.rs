//! Request bodies for the three chat protocols (Chat Completions, Anthropic
//! Messages, Responses), with prompt-cache breakpoints.
//!
//! A prefix cache only serves a contiguous prefix from token 0, so where the
//! breakpoints fall matters more than how many there are:
//!  1. one at the end of the stable prefix (system text, tool definitions);
//!  2. one rolling breakpoint on the last user / tool message, which freezes the
//!     whole history before this turn as a prefix the next request can hit.
//! Both protocols allow at most four per request; at most three are used here.

use vstd::prelude::*;
use crate::json::{
    Json, JsonV, jat, jget, jset, jstr, jobj, items_view, lemma_items_view, last_where,
    lemma_last_where, lemma_last_where_take, indices_where, lemma_indices_where_step,
    lemma_indices_where, lemma_items_push, lemma_items_update, obj1, obj2, obj3, obj4, jtext,
    jbool, jnumber, jarray_of, obj_of, members_view, lemma_members_view, text_eq, jobject,
};
use crate::text::{strs, join_seq, join_strings};

verus! {

/// A chat request as the front end sends it.
pub struct ChatReq {
    pub api_key: Option<String>,
    pub base_url: Option<String>,
    pub model: String,
    /// `chat` (the default), `anthropic` or `responses`.
    pub protocol: Option<String>,
    pub messages: Json,
    pub tools: Option<Json>,
}

/// An optional value by its view.
pub open spec fn opt_view(o: Option<Json>) -> Option<JsonV> {
    match o {
        Some(j) => Some(j@),
        None => None,
    }
}

// ---------- the outside parser ----------

/// Whether `s` is a JSON document, as `serde_json` reads one.
pub open spec fn json_valid(s: Seq<char>) -> bool {
    crate::json::json_parse(s) is Some
}

/// Whether `s` is a JSON document.
fn parses_as_json(s: &str) -> (r: bool)
    ensures
        r == json_valid(s@),
{
    crate::json::parse_json(s).is_some()
}

// ---------- cache breakpoints ----------

/// The breakpoint marker (the same literal for Anthropic and DashScope).
pub open spec fn ephemeral_v() -> JsonV {
    jobj(seq![("type"@, JsonV::Str("ephemeral"@))])
}

fn ephemeral() -> (r: Json)
    ensures
        r@ == ephemeral_v(),
{
    obj1("type", jtext("ephemeral"))
}

/// `m[key]` is the string `t`.
pub open spec fn key_is(m: JsonV, key: Seq<char>, t: Seq<char>) -> bool {
    jstr(jat(m, key)) == Some(t)
}

fn key_is_exec(m: &Json, key: &str, t: &str) -> (r: bool)
    ensures
        r == key_is(m@, key@, t@),
{
    match m.get(key) {
        Some(x) => x.is_text(t),
        None => false,
    }
}

/// A block whose type is text, input text or missing.
pub open spec fn text_like(b: JsonV) -> bool {
    let t = jstr(jat(b, "type"@));
    t == Some("text"@) || t == Some("input_text"@) || t is None
}

fn text_like_exec(b: &Json) -> (r: bool)
    ensures
        r == text_like(b@),
{
    let t = b.member("type");
    match t.as_str() {
        Some(s) => text_eq(s, "text") || text_eq(s, "input_text"),
        None => true,
    }
}

/// The text-like test as a predicate.
pub open spec fn text_like_p() -> spec_fn(JsonV) -> bool {
    |b: JsonV| text_like(b)
}

/// `{type: text, text: t}`.
pub open spec fn text_block(t: Seq<char>) -> JsonV {
    jobj(seq![("type"@, JsonV::Str("text"@)), ("text"@, JsonV::Str(t))])
}

/// `{type: text, text: t, cache_control: ephemeral}`.
pub open spec fn marked_text_block(t: Seq<char>) -> JsonV {
    jobj(seq![("type"@, JsonV::Str("text"@)), ("text"@, JsonV::Str(t)), ("cache_control"@, ephemeral_v())])
}

fn text_block_exec(t: &str) -> (r: Json)
    ensures
        r@ == text_block(t@),
{
    obj2("type", jtext("text"), "text", jtext(t))
}

fn marked_text_block_exec(t: &str) -> (r: Json)
    ensures
        r@ == marked_text_block(t@),
{
    obj3("type", jtext("text"), "text", jtext(t), "cache_control", ephemeral())
}

/// A message with a breakpoint. With `as_part`, a string content becomes a single
/// marked text block (an empty one stays as it is) and a block list gets the marker
/// on its last text block; without it the marker goes on the message itself
/// (tool messages, whose content must stay a string).
pub open spec fn mark_spec(msg: JsonV, as_part: bool) -> JsonV {
    if !as_part {
        jset(msg, "cache_control"@, ephemeral_v())
    } else {
        match jget(msg, "content"@) {
            Some(JsonV::Str(t)) => if t.len() == 0 {
                msg
            } else {
                jset(msg, "content"@, JsonV::Array(seq![marked_text_block(t)]))
            },
            Some(JsonV::Array(a)) => match last_where(a, text_like_p()) {
                Some(k) => jset(msg, "content"@, JsonV::Array(a.update(k, jset(a[k], "cache_control"@, ephemeral_v())))),
                None => msg,
            },
            _ => msg,
        }
    }
}

/// Objects and null take a member; marking anything else is a fault.
pub open spec fn can_take(j: JsonV) -> bool {
    j is Object || j is Null
}

/// Marking `msg` is not a fault.
pub open spec fn mark_ok(msg: JsonV, as_part: bool) -> bool {
    if !as_part {
        can_take(msg)
    } else {
        match jget(msg, "content"@) {
            Some(JsonV::Array(a)) => match last_where(a, text_like_p()) {
                Some(k) => can_take(a[k]),
                None => true,
            },
            _ => true,
        }
    }
}

/// The last text-like block of a block list.
fn last_text_like(a: &Vec<Json>) -> (r: Option<usize>)
    ensures
        match r {
            Some(k) => last_where(items_view(a@), text_like_p()) == Some(k as int),
            None => last_where(items_view(a@), text_like_p()) is None,
        },
{
    proof { lemma_items_view(a@); }
    let ghost s = items_view(a@);
    let mut i: usize = a.len();
    while i > 0
        invariant
            i <= a@.len(),
            s == items_view(a@),
            s.len() == a@.len(),
            forall|k: int| 0 <= k < a@.len() ==> #[trigger] s[k] == a@[k]@,
            forall|j: int| i <= j < s.len() ==> !text_like_p()(#[trigger] s[j]),
        decreases i,
    {
        if text_like_exec(&a[i - 1]) {
            proof {
                lemma_last_where_take(s, text_like_p(), i as int);
                let t = s.take(i as int);
                assert(t.last() == s[i - 1]);
            }
            return Some(i - 1);
        }
        i -= 1;
    }
    proof {
        lemma_last_where_take(s, text_like_p(), 0);
    }
    None
}

/// Puts a cache breakpoint on one message.
fn mark_message(msg: &mut Json, as_part: bool)
    requires
        mark_ok(old(msg)@, as_part),
    ensures
        final(msg)@ == mark_spec(old(msg)@, as_part),
{
    if !as_part {
        msg.set("cache_control", ephemeral());
        return;
    }
    let content = msg.member("content");
    proof {
        assert(jget(old(msg)@, "content"@) is Some ==> jat(old(msg)@, "content"@) == jget(old(msg)@, "content"@)->0);
    }
    match content {
        Json::Str(t) => {
            if t.as_str().is_empty() {
                return;
            }
            let block = marked_text_block_exec(t.as_str());
            let mut items: Vec<Json> = Vec::new();
            items.push(block);
            proof {
                lemma_items_view(items@);
                assert(items_view(items@) =~= seq![marked_text_block(t@)]);
            }
            msg.set("content", jarray_of(items));
        },
        Json::Array(a) => {
            let found = last_text_like(&a);
            match found {
                Some(k) => {
                    proof {
                        lemma_last_where(items_view(a@), text_like_p());
                        lemma_items_view(a@);
                    }
                    let mut a2 = a;
                    let mut b = a2[k].deep_clone();
                    b.set("cache_control", ephemeral());
                    let ghost before = a2@;
                    a2.set(k, b);
                    proof { lemma_items_update(before, k as int, b); }
                    msg.set("content", jarray_of(a2));
                },
                None => {},
            }
        },
        _ => {},
    }
}

// ---------- Chat Completions / DashScope compatible mode ----------

/// A message with the given role.
pub open spec fn role_is(m: JsonV, r: Seq<char>) -> bool {
    key_is(m, "role"@, r)
}

fn role_is_exec(m: &Json, r: &str) -> (b: bool)
    ensures
        b == role_is(m@, r@),
{
    key_is_exec(m, "role", r)
}

/// The system-message test as a predicate.
pub open spec fn system_p() -> spec_fn(JsonV) -> bool {
    |m: JsonV| role_is(m, "system"@)
}

/// The user-or-tool-message test as a predicate.
pub open spec fn user_or_tool_p() -> spec_fn(JsonV) -> bool {
    |m: JsonV| role_is(m, "user"@) || role_is(m, "tool"@)
}

/// The stable system message: with several system messages the last but one
/// (the last carries the changing tail), with one that one.
pub open spec fn stable_system(a: Seq<JsonV>) -> Option<int> {
    let s = indices_where(a, system_p());
    if s.len() >= 2 {
        Some(s[s.len() - 2])
    } else if s.len() == 1 {
        Some(s[0])
    } else {
        None
    }
}

/// The last user or tool message.
pub open spec fn last_user_or_tool(a: Seq<JsonV>) -> Option<int> {
    last_where(a, user_or_tool_p())
}

/// The messages after the stable-prefix breakpoint.
pub open spec fn after_stable_mark(a: Seq<JsonV>) -> Seq<JsonV> {
    match stable_system(a) {
        Some(i) => a.update(i, mark_spec(a[i], true)),
        None => a,
    }
}

/// The messages with both breakpoints placed.
pub open spec fn chat_marks(a: Seq<JsonV>) -> Seq<JsonV> {
    let a1 = after_stable_mark(a);
    match last_user_or_tool(a1) {
        Some(j) => a1.update(j, mark_spec(a1[j], !role_is(a1[j], "tool"@))),
        None => a1,
    }
}

/// Placing both breakpoints is not a fault.
pub open spec fn chat_marks_ok(a: Seq<JsonV>) -> bool {
    &&& (stable_system(a) matches Some(i) ==> mark_ok(a[i], true))
    &&& (last_user_or_tool(after_stable_mark(a)) matches Some(j) ==> mark_ok(
        after_stable_mark(a)[j],
        !role_is(after_stable_mark(a)[j], "tool"@),
    ))
}

/// The message list with breakpoints (anything but a list is left as it is).
pub open spec fn with_chat_breakpoints_spec(messages: JsonV) -> JsonV {
    match messages {
        JsonV::Array(a) => JsonV::Array(chat_marks(a)),
        _ => messages,
    }
}

/// Placing the breakpoints on `messages` is not a fault.
pub open spec fn breakpoints_ok(messages: JsonV) -> bool {
    match messages {
        JsonV::Array(a) => chat_marks_ok(a),
        _ => true,
    }
}

/// Positions of the system messages.
fn system_positions(v: &Vec<Json>) -> (r: Vec<usize>)
    ensures
        r@.len() == indices_where(items_view(v@), system_p()).len(),
        forall|k: int| 0 <= k < r@.len() ==> r@[k] as int == #[trigger] indices_where(items_view(v@), system_p())[k],
{
    proof { lemma_items_view(v@); }
    let ghost s = items_view(v@);
    let mut r: Vec<usize> = Vec::new();
    let mut i: usize = 0;
    while i < v.len()
        invariant
            i <= v@.len(),
            s == items_view(v@),
            s.len() == v@.len(),
            forall|k: int| 0 <= k < v@.len() ==> #[trigger] s[k] == v@[k]@,
            r@.len() == indices_where(s.take(i as int), system_p()).len(),
            forall|k: int| 0 <= k < r@.len() ==> r@[k] as int == #[trigger] indices_where(s.take(i as int), system_p())[k],
        decreases v@.len() - i,
    {
        proof { lemma_indices_where_step(s, system_p(), i as int); }
        if role_is_exec(&v[i], "system") {
            r.push(i);
        }
        i += 1;
    }
    assert(s.take(v@.len() as int) =~= s);
    r
}

/// The last user or tool message of a list.
fn last_user_or_tool_exec(v: &Vec<Json>) -> (r: Option<usize>)
    ensures
        match r {
            Some(k) => last_user_or_tool(items_view(v@)) == Some(k as int),
            None => last_user_or_tool(items_view(v@)) is None,
        },
{
    proof { lemma_items_view(v@); }
    let ghost s = items_view(v@);
    let mut i: usize = v.len();
    while i > 0
        invariant
            i <= v@.len(),
            s == items_view(v@),
            s.len() == v@.len(),
            forall|k: int| 0 <= k < v@.len() ==> #[trigger] s[k] == v@[k]@,
            forall|j: int| i <= j < s.len() ==> !user_or_tool_p()(#[trigger] s[j]),
        decreases i,
    {
        if role_is_exec(&v[i - 1], "user") || role_is_exec(&v[i - 1], "tool") {
            proof {
                lemma_last_where_take(s, user_or_tool_p(), i as int);
                assert(s.take(i as int).last() == s[i - 1]);
            }
            return Some(i - 1);
        }
        i -= 1;
    }
    proof { lemma_last_where_take(s, user_or_tool_p(), 0); }
    None
}

/// The message list with the stable-prefix and rolling breakpoints.
pub fn with_chat_breakpoints(messages: &Json) -> (r: Json)
    requires
        breakpoints_ok(messages@),
    ensures
        r@ == with_chat_breakpoints_spec(messages@),
{
    let mut out: Vec<Json> = match messages {
        Json::Array(a) => {
            let mut c: Vec<Json> = Vec::new();
            let mut i: usize = 0;
            while i < a.len()
                invariant
                    i <= a@.len(),
                    c@.len() == i,
                    forall|k: int| 0 <= k < i ==> #[trigger] c@[k]@ == a@[k]@,
                decreases a@.len() - i,
            {
                c.push(a[i].deep_clone());
                i += 1;
            }
            proof {
                lemma_items_view(a@);
                lemma_items_view(c@);
                assert forall|k: int| 0 <= k < a@.len() implies items_view(c@)[k] == items_view(a@)[k] by {
                    assert(c@[k]@ == a@[k]@);
                }
                assert(items_view(c@) =~= items_view(a@));
            }
            c
        },
        _ => {
            return messages.deep_clone();
        },
    };
    let ghost a0 = items_view(out@);
    let sys = system_positions(&out);
    let pick: Option<usize> = if sys.len() >= 2 {
        Some(sys[sys.len() - 2])
    } else if sys.len() == 1 {
        Some(sys[0])
    } else {
        None
    };
    proof {
        lemma_indices_where(a0, system_p());
        lemma_items_view(out@);
    }
    match pick {
        Some(idx) => {
            assert(stable_system(a0) == Some(idx as int)) by {
                if sys@.len() >= 2 {
                    assert(sys@[sys@.len() - 2] as int == indices_where(a0, system_p())[sys@.len() - 2]);
                } else {
                    assert(sys@[0] as int == indices_where(a0, system_p())[0]);
                }
            }
            let mut m = out[idx].deep_clone();
            mark_message(&mut m, true);
            let ghost before = out@;
            out.set(idx, m);
            proof { lemma_items_update(before, idx as int, m); }
        },
        None => {},
    }
    let ghost a1 = items_view(out@);
    assert(a1 == after_stable_mark(a0));
    let last = last_user_or_tool_exec(&out);
    match last {
        Some(j) => {
            proof {
                lemma_last_where(a1, user_or_tool_p());
                lemma_items_view(out@);
            }
            let tool_role = role_is_exec(&out[j], "tool");
            let mut m = out[j].deep_clone();
            mark_message(&mut m, !tool_role);
            let ghost before = out@;
            out.set(j, m);
            proof { lemma_items_update(before, j as int, m); }
        },
        None => {},
    }
    jarray_of(out)
}

fn mark_ok_exec(msg: &Json, as_part: bool) -> (r: bool)
    ensures
        r == mark_ok(msg@, as_part),
{
    if !as_part {
        return match msg {
            Json::Object(_) => true,
            Json::Null => true,
            _ => false,
        };
    }
    match msg.get("content") {
        Some(Json::Array(a)) => {
            proof { lemma_items_view(a@); }
            let found = last_text_like(a);
            proof { lemma_last_where(items_view(a@), text_like_p()); }
            match found {
                Some(k) => match &a[k] {
                    Json::Object(_) => true,
                    Json::Null => true,
                    _ => false,
                },
                None => true,
            }
        },
        _ => true,
    }
}

/// Whether placing the breakpoints on `messages` is free of faults (a marker can
/// only go on an object: a block list whose last text-like block is anything else
/// cannot take one).
pub fn breakpoints_fault_free(messages: &Json) -> (r: bool)
    ensures
        r == breakpoints_ok(messages@),
{
    let a = match messages {
        Json::Array(a) => a,
        _ => {
            return true;
        },
    };
    proof { lemma_items_view(a@); }
    let ghost a0 = items_view(a@);
    let sys = system_positions(a);
    proof { crate::json::lemma_indices_where(a0, system_p()); }
    let pick: Option<usize> = if sys.len() >= 2 {
        Some(sys[sys.len() - 2])
    } else if sys.len() == 1 {
        Some(sys[0])
    } else {
        None
    };
    let mut out: Vec<Json> = Vec::new();
    let mut i: usize = 0;
    while i < a.len()
        invariant
            i <= a@.len(),
            out@.len() == i,
            forall|k: int| 0 <= k < i ==> #[trigger] out@[k]@ == a@[k]@,
        decreases a@.len() - i,
    {
        out.push(a[i].deep_clone());
        i += 1;
    }
    proof {
        lemma_items_view(out@);
        assert forall|k: int| 0 <= k < a@.len() implies items_view(out@)[k] == items_view(a@)[k] by {
            assert(out@[k]@ == a@[k]@);
        }
        assert(items_view(out@) =~= a0);
    }
    match pick {
        Some(idx) => {
            assert(stable_system(a0) == Some(idx as int)) by {
                if sys@.len() >= 2 {
                    assert(sys@[sys@.len() - 2] as int == indices_where(a0, system_p())[sys@.len() - 2]);
                } else {
                    assert(sys@[0] as int == indices_where(a0, system_p())[0]);
                }
            }
            if !mark_ok_exec(&out[idx], true) {
                return false;
            }
            let mut m = out[idx].deep_clone();
            mark_message(&mut m, true);
            let ghost before = out@;
            out.set(idx, m);
            proof { lemma_items_update(before, idx as int, m); }
        },
        None => {},
    }
    assert(items_view(out@) == after_stable_mark(a0));
    proof { lemma_items_view(out@); }
    match last_user_or_tool_exec(&out) {
        Some(j) => {
            proof { lemma_last_where(items_view(out@), user_or_tool_p()); }
            let tool_role = role_is_exec(&out[j], "tool");
            mark_ok_exec(&out[j], !tool_role)
        },
        None => true,
    }
}

/// The Chat Completions body: model, messages (with breakpoints when caching),
/// streaming with usage in the last chunk, and the tools when there are any.
pub open spec fn chat_body_spec(model: Seq<char>, messages: JsonV, tools: Option<JsonV>, use_cache: bool) -> JsonV {
    let ms = if use_cache { with_chat_breakpoints_spec(messages) } else { messages };
    let base = seq![
        ("model"@, JsonV::Str(model)),
        ("messages"@, ms),
        ("stream"@, JsonV::Bool(true)),
        ("stream_options"@, jobj(seq![("include_usage"@, JsonV::Bool(true))])),
    ];
    match tools {
        Some(JsonV::Array(t)) => if t.len() > 0 {
            jobj(base.push(("tools"@, JsonV::Array(t))))
        } else {
            jobj(base)
        },
        _ => jobj(base),
    }
}

/// The Chat Completions request body.
pub fn chat_body(req: &ChatReq, use_cache: bool) -> (r: Json)
    requires
        use_cache ==> breakpoints_ok(req.messages@),
    ensures
        r@ == chat_body_spec(req.model@, req.messages@, opt_view(req.tools), use_cache),
{
    let messages = if use_cache {
        with_chat_breakpoints(&req.messages)
    } else {
        req.messages.deep_clone()
    };
    let ghost mv = messages@;
    let so = obj1("include_usage", jbool(true));
    let ghost sov = so@;
    let mut ms: Vec<(String, Json)> = Vec::new();
    ms.push((String::from_str("model"), jtext(req.model.as_str())));
    ms.push((String::from_str("messages"), messages));
    ms.push((String::from_str("stream"), jbool(true)));
    ms.push((String::from_str("stream_options"), so));
    let ghost base = seq![
        ("model"@, JsonV::Str(req.model@)),
        ("messages"@, mv),
        ("stream"@, JsonV::Bool(true)),
        ("stream_options"@, sov),
    ];
    proof {
        lemma_members_view(ms@);
        assert(members_view(ms@) =~= base);
    }
    match &req.tools {
        Some(t) => {
            match t {
                Json::Array(items) => {
                    if items.len() > 0 {
                        let tc = t.deep_clone();
                        let ghost tv = tc@;
                        let ghost before = ms@;
                        ms.push((String::from_str("tools"), tc));
                        proof {
                            lemma_members_view(ms@);
                            lemma_items_view(items@);
                            assert(members_view(ms@) =~= base.push(("tools"@, tv)));
                        }
                    }
                },
                _ => {},
            }
        },
        None => {},
    }
    obj_of(ms)
}

// ---------- shared reading of the front end's messages ----------

/// The role of a message (empty when it has none).
pub open spec fn role_name(m: JsonV) -> Seq<char> {
    match jstr(jat(m, "role"@)) {
        Some(r) => r,
        None => ""@,
    }
}

/// The content of a message when it is a non-empty string.
pub open spec fn nonempty_content(m: JsonV) -> Option<Seq<char>> {
    match jstr(jat(m, "content"@)) {
        Some(c) => if c.len() > 0 { Some(c) } else { None },
        None => None,
    }
}

/// The content of a message as text (empty unless it is a string).
pub open spec fn content_or_empty(m: JsonV) -> Seq<char> {
    match jstr(jat(m, "content"@)) {
        Some(c) => c,
        None => ""@,
    }
}

/// The tool calls of an assistant message.
pub open spec fn tool_calls_of(m: JsonV) -> Seq<JsonV> {
    match jat(m, "tool_calls"@) {
        JsonV::Array(a) => a,
        _ => Seq::<JsonV>::empty(),
    }
}

/// The messages of a request (none unless they form a list).
pub open spec fn message_list(messages: JsonV) -> Seq<JsonV> {
    match messages {
        JsonV::Array(a) => a,
        _ => Seq::<JsonV>::empty(),
    }
}

fn role_name_exec(m: &Json) -> (r: String)
    ensures
        r@ == role_name(m@),
{
    let v = m.member("role");
    match v.as_str() {
        Some(s) => String::from_str(s),
        None => String::from_str(""),
    }
}

fn nonempty_content_exec(m: &Json) -> (r: Option<String>)
    ensures
        match r {
            Some(c) => nonempty_content(m@) == Some(c@),
            None => nonempty_content(m@) is None,
        },
{
    let v = m.member("content");
    match v.as_str() {
        Some(s) => if s.is_empty() { None } else { Some(String::from_str(s)) },
        None => None,
    }
}

fn content_or_empty_exec(m: &Json) -> (r: String)
    ensures
        r@ == content_or_empty(m@),
{
    let v = m.member("content");
    match v.as_str() {
        Some(s) => String::from_str(s),
        None => String::from_str(""),
    }
}

/// The items of a list value (none for anything else).
fn list_items(v: &Json) -> (r: Vec<Json>)
    ensures
        items_view(r@) == match v@ {
            JsonV::Array(a) => a,
            _ => Seq::<JsonV>::empty(),
        },
{
    match v {
        Json::Array(a) => {
            let c = v.deep_clone();
            match c {
                Json::Array(b) => b,
                _ => {
                    let e: Vec<Json> = Vec::new();
                    e
                },
            }
        },
        _ => {
            let e: Vec<Json> = Vec::new();
            proof {
                lemma_items_view(e@);
                assert(items_view(e@) =~= Seq::<JsonV>::empty());
            }
            e
        },
    }
}

// ---------- Anthropic Messages ----------

/// `{role: user, content: [block]}`.
pub open spec fn user_message(block: JsonV) -> JsonV {
    jobj(seq![("role"@, JsonV::Str("user"@)), ("content"@, JsonV::Array(seq![block]))])
}

/// A user-side block joins the previous user message when there is one (the
/// protocol wants user and assistant turns to alternate), else starts a new one.
pub open spec fn push_user_spec(out: Seq<JsonV>, block: JsonV) -> Seq<JsonV> {
    if out.len() > 0 && key_is(out.last(), "role"@, "user"@) {
        match jat(out.last(), "content"@) {
            JsonV::Array(arr) => out.update(
                out.len() - 1,
                jset(out.last(), "content"@, JsonV::Array(arr.push(block))),
            ),
            _ => out.push(user_message(block)),
        }
    } else {
        out.push(user_message(block))
    }
}

/// The `input` of a tool call: its arguments when they are JSON text, else `{}`.
pub open spec fn tool_input(tc: JsonV) -> JsonV {
    match jstr(jat(jat(tc, "function"@), "arguments"@)) {
        Some(s) => if json_valid(s) { JsonV::Embedded(s) } else { jobj(Seq::<(Seq<char>, JsonV)>::empty()) },
        None => jobj(Seq::<(Seq<char>, JsonV)>::empty()),
    }
}

/// A tool call as a `tool_use` block.
pub open spec fn tool_use_block(tc: JsonV) -> JsonV {
    jobj(seq![
        ("type"@, JsonV::Str("tool_use"@)),
        ("id"@, jat(tc, "id"@)),
        ("name"@, jat(jat(tc, "function"@), "name"@)),
        ("input"@, tool_input(tc)),
    ])
}

/// The blocks of an assistant message: its text, then its tool calls.
pub open spec fn assistant_blocks(m: JsonV) -> Seq<JsonV> {
    let text = match nonempty_content(m) {
        Some(c) => seq![text_block(c)],
        None => Seq::<JsonV>::empty(),
    };
    text + tool_calls_of(m).map_values(|tc: JsonV| tool_use_block(tc))
}

/// A tool message as a `tool_result` block.
pub open spec fn tool_result_block(m: JsonV) -> JsonV {
    jobj(seq![
        ("type"@, JsonV::Str("tool_result"@)),
        ("tool_use_id"@, jat(m, "tool_call_id"@)),
        ("content"@, JsonV::Str(content_or_empty(m))),
    ])
}

/// One message taken in: system text is collected, user text and tool results
/// become user blocks, an assistant message becomes text and `tool_use` blocks.
pub open spec fn anth_step(st: (Seq<Seq<char>>, Seq<JsonV>), m: JsonV) -> (Seq<Seq<char>>, Seq<JsonV>) {
    let parts = st.0;
    let out = st.1;
    let r = role_name(m);
    if r == "system"@ {
        match nonempty_content(m) {
            Some(c) => (parts.push(c), out),
            None => st,
        }
    } else if r == "user"@ {
        match nonempty_content(m) {
            Some(c) => (parts, push_user_spec(out, text_block(c))),
            None => st,
        }
    } else if r == "assistant"@ {
        let b = assistant_blocks(m);
        if b.len() > 0 {
            (parts, out.push(jobj(seq![("role"@, JsonV::Str("assistant"@)), ("content"@, JsonV::Array(b))])))
        } else {
            st
        }
    } else if r == "tool"@ {
        (parts, push_user_spec(out, tool_result_block(m)))
    } else {
        st
    }
}

/// All messages taken in, in order.
pub open spec fn anth_fold(ms: Seq<JsonV>) -> (Seq<Seq<char>>, Seq<JsonV>)
    decreases ms.len(),
{
    if ms.len() == 0 {
        (Seq::<Seq<char>>::empty(), Seq::<JsonV>::empty())
    } else {
        anth_step(anth_fold(ms.drop_last()), ms.last())
    }
}

/// The user-message test as a predicate.
pub open spec fn user_p() -> spec_fn(JsonV) -> bool {
    |m: JsonV| key_is(m, "role"@, "user"@)
}

/// The rolling breakpoint: the last block of the last user message.
pub open spec fn mark_last_user(out: Seq<JsonV>) -> Seq<JsonV> {
    match last_where(out, user_p()) {
        Some(i) => match jat(out[i], "content"@) {
            JsonV::Array(a) => if a.len() > 0 {
                out.update(i, jset(out[i], "content"@, JsonV::Array(
                    a.update(a.len() - 1, jset(a.last(), "cache_control"@, ephemeral_v())),
                )))
            } else {
                out
            },
            _ => out,
        },
        None => out,
    }
}

/// The system text blocks when caching with several parts: the marker sits on the
/// last but one (the stable part; the last one carries date and model).
pub open spec fn system_blocks(parts: Seq<Seq<char>>) -> Seq<JsonV> {
    Seq::new(parts.len(), |i: int| if i + 2 == parts.len() { marked_text_block(parts[i]) } else { text_block(parts[i]) })
}

/// The `system` member of an Anthropic body.
pub open spec fn system_member(parts: Seq<Seq<char>>, use_cache: bool) -> Seq<(Seq<char>, JsonV)> {
    if parts.len() == 0 {
        Seq::<(Seq<char>, JsonV)>::empty()
    } else if use_cache && parts.len() > 1 {
        seq![("system"@, JsonV::Array(system_blocks(parts)))]
    } else if use_cache {
        seq![("system"@, JsonV::Array(seq![marked_text_block(parts[0])]))]
    } else {
        seq![("system"@, JsonV::Str(join_seq(parts, "\n\n"@)))]
    }
}

/// An OpenAI tool definition as an Anthropic one.
pub open spec fn anth_tool_def(f: JsonV) -> JsonV {
    jobj(seq![
        ("name"@, jat(f, "name"@)),
        ("description"@, jat(f, "description"@)),
        ("input_schema"@, jat(f, "parameters"@)),
    ])
}

/// The definitions of the tools that have a `function` member.
pub open spec fn anth_tool_defs(a: Seq<JsonV>) -> Seq<JsonV>
    decreases a.len(),
{
    if a.len() == 0 {
        Seq::<JsonV>::empty()
    } else {
        match jget(a.last(), "function"@) {
            Some(f) => anth_tool_defs(a.drop_last()).push(anth_tool_def(f)),
            None => anth_tool_defs(a.drop_last()),
        }
    }
}

/// The Anthropic tool list (with a breakpoint on the last definition when caching).
pub open spec fn tools_to_anthropic_spec(tools: Option<JsonV>, use_cache: bool) -> Option<JsonV> {
    match tools {
        Some(JsonV::Array(a)) => {
            let d = anth_tool_defs(a);
            if d.len() == 0 {
                None
            } else if use_cache {
                Some(JsonV::Array(d.update(d.len() - 1, jset(d.last(), "cache_control"@, ephemeral_v()))))
            } else {
                Some(JsonV::Array(d))
            }
        },
        _ => None,
    }
}

/// A member that is there only when the value is.
pub open spec fn opt_member(k: Seq<char>, v: Option<JsonV>) -> Seq<(Seq<char>, JsonV)> {
    match v {
        Some(x) => seq![(k, x)],
        None => Seq::<(Seq<char>, JsonV)>::empty(),
    }
}

/// The Anthropic Messages body.
pub open spec fn anthropic_body_spec(model: Seq<char>, messages: JsonV, tools: Option<JsonV>, use_cache: bool) -> JsonV {
    let st = anth_fold(message_list(messages));
    let out = if use_cache { mark_last_user(st.1) } else { st.1 };
    jobj(seq![
        ("model"@, JsonV::Str(model)),
        ("max_tokens"@, JsonV::Number("8192"@)),
        ("messages"@, JsonV::Array(out)),
        ("stream"@, JsonV::Bool(true)),
    ] + system_member(st.0, use_cache) + opt_member("tools"@, tools_to_anthropic_spec(tools, use_cache)))
}

fn user_message_exec(block: Json) -> (r: Json)
    ensures
        r@ == user_message(block@),
{
    let ghost b = block@;
    let mut items: Vec<Json> = Vec::new();
    items.push(block);
    proof {
        lemma_items_view(items@);
        assert(items_view(items@) =~= seq![b]);
    }
    obj2("role", jtext("user"), "content", jarray_of(items))
}

fn push_user_block(out: &mut Vec<Json>, block: Json)
    ensures
        items_view(final(out)@) == push_user_spec(items_view(old(out)@), block@),
{
    let ghost b = block@;
    let ghost o = items_view(out@);
    proof { lemma_items_view(out@); }
    let n = out.len();
    if n > 0 && key_is_exec(&out[n - 1], "role", "user") {
        let content = out[n - 1].member("content");
        match content {
            Json::Array(arr) => {
                let mut arr2 = arr;
                let ghost a0 = arr2@;
                arr2.push(block);
                proof { lemma_items_push(a0, arr2@.last()); assert(arr2@ == a0.push(arr2@.last())); }
                let mut last = out[n - 1].deep_clone();
                last.set("content", jarray_of(arr2));
                let ghost before = out@;
                out.set(n - 1, last);
                proof { lemma_items_update(before, n - 1, last); }
                return;
            },
            _ => {},
        }
    }
    let ghost before = out@;
    let um = user_message_exec(block);
    out.push(um);
    proof { lemma_items_push(before, um); }
}

fn tool_use_block_exec(tc: &Json) -> (r: Json)
    ensures
        r@ == tool_use_block(tc@),
{
    let id = tc.member("id");
    let f = tc.member("function");
    let name = f.member("name");
    let args = f.member("arguments");
    let input = match args.as_str() {
        Some(s) => if parses_as_json(s) { Json::Embedded(String::from_str(s)) } else { jobject() },
        None => jobject(),
    };
    obj4("type", jtext("tool_use"), "id", id, "name", name, "input", input)
}

fn assistant_blocks_exec(m: &Json) -> (r: Vec<Json>)
    ensures
        items_view(r@) == assistant_blocks(m@),
{
    let mut blocks: Vec<Json> = Vec::new();
    match nonempty_content_exec(m) {
        Some(c) => {
            blocks.push(text_block_exec(c.as_str()));
        },
        None => {},
    }
    let ghost head = items_view(blocks@);
    proof {
        lemma_items_view(blocks@);
        assert(head =~= match nonempty_content(m@) {
            Some(c) => seq![text_block(c)],
            None => Seq::<JsonV>::empty(),
        });
    }
    let tcs = list_items(&m.member("tool_calls"));
    let ghost t = items_view(tcs@);
    assert(t == tool_calls_of(m@));
    proof { lemma_items_view(tcs@); }
    let mut i: usize = 0;
    while i < tcs.len()
        invariant
            i <= tcs@.len(),
            t == items_view(tcs@),
            t.len() == tcs@.len(),
            forall|k: int| 0 <= k < tcs@.len() ==> #[trigger] t[k] == tcs@[k]@,
            items_view(blocks@) == head + t.take(i as int).map_values(|tc: JsonV| tool_use_block(tc)),
        decreases tcs@.len() - i,
    {
        let b = tool_use_block_exec(&tcs[i]);
        let ghost before = blocks@;
        blocks.push(b);
        proof {
            lemma_items_push(before, b);
            assert(t.take(i + 1).map_values(|tc: JsonV| tool_use_block(tc))
                =~= t.take(i as int).map_values(|tc: JsonV| tool_use_block(tc)).push(tool_use_block(t[i as int])));
        }
        i += 1;
    }
    assert(t.take(tcs@.len() as int) =~= t);
    blocks
}

fn tool_result_block_exec(m: &Json) -> (r: Json)
    ensures
        r@ == tool_result_block(m@),
{
    let text = content_or_empty_exec(m);
    obj3("type", jtext("tool_result"), "tool_use_id", m.member("tool_call_id"), "content", jtext(text.as_str()))
}

fn anth_step_exec(parts: &mut Vec<String>, out: &mut Vec<Json>, m: &Json)
    ensures
        (strs(final(parts)@), items_view(final(out)@)) == anth_step((strs(old(parts)@), items_view(old(out)@)), m@),
{
    let r = role_name_exec(m);
    if text_eq(r.as_str(), "system") {
        match nonempty_content_exec(m) {
            Some(c) => {
                let ghost before = parts@;
                parts.push(c);
                proof { assert(strs(parts@) =~= strs(before).push(c@)); }
            },
            None => {},
        }
    } else if text_eq(r.as_str(), "user") {
        match nonempty_content_exec(m) {
            Some(c) => {
                push_user_block(out, text_block_exec(c.as_str()));
            },
            None => {},
        }
    } else if text_eq(r.as_str(), "assistant") {
        let blocks = assistant_blocks_exec(m);
        proof { lemma_items_view(blocks@); }
        if blocks.len() > 0 {
            let msg = obj2("role", jtext("assistant"), "content", jarray_of(blocks));
            let ghost before = out@;
            out.push(msg);
            proof { lemma_items_push(before, msg); }
        }
    } else if text_eq(r.as_str(), "tool") {
        push_user_block(out, tool_result_block_exec(m));
    }
}

fn last_user_exec(v: &Vec<Json>) -> (r: Option<usize>)
    ensures
        match r {
            Some(k) => last_where(items_view(v@), user_p()) == Some(k as int),
            None => last_where(items_view(v@), user_p()) is None,
        },
{
    proof { lemma_items_view(v@); }
    let ghost s = items_view(v@);
    let mut i: usize = v.len();
    while i > 0
        invariant
            i <= v@.len(),
            s == items_view(v@),
            s.len() == v@.len(),
            forall|k: int| 0 <= k < v@.len() ==> #[trigger] s[k] == v@[k]@,
            forall|j: int| i <= j < s.len() ==> !user_p()(#[trigger] s[j]),
        decreases i,
    {
        if key_is_exec(&v[i - 1], "role", "user") {
            proof {
                lemma_last_where_take(s, user_p(), i as int);
                assert(s.take(i as int).last() == s[i - 1]);
            }
            return Some(i - 1);
        }
        i -= 1;
    }
    proof { lemma_last_where_take(s, user_p(), 0); }
    None
}

fn mark_last_user_exec(out: &mut Vec<Json>)
    ensures
        items_view(final(out)@) == mark_last_user(items_view(old(out)@)),
{
    proof { lemma_items_view(out@); }
    match last_user_exec(out) {
        Some(i) => {
            proof { lemma_last_where(items_view(out@), user_p()); }
            let content = out[i].member("content");
            match content {
                Json::Array(a) => {
                    proof { lemma_items_view(a@); }
                    if a.len() > 0 {
                        let k = a.len() - 1;
                        let mut a2 = a;
                        let mut b = a2[k].deep_clone();
                        b.set("cache_control", ephemeral());
                        let ghost ba = a2@;
                        a2.set(k, b);
                        proof { lemma_items_update(ba, k as int, b); }
                        let mut m = out[i].deep_clone();
                        m.set("content", jarray_of(a2));
                        let ghost before = out@;
                        out.set(i, m);
                        proof { lemma_items_update(before, i as int, m); }
                    }
                },
                _ => {},
            }
        },
        None => {},
    }
}

fn system_blocks_exec(parts: &Vec<String>) -> (r: Vec<Json>)
    ensures
        items_view(r@) == system_blocks(strs(parts@)),
{
    let ghost ps = strs(parts@);
    let mut r: Vec<Json> = Vec::new();
    let n = parts.len();
    let mut i: usize = 0;
    while i < n
        invariant
            n == parts@.len(),
            ps == strs(parts@),
            i <= n,
            items_view(r@) == system_blocks(ps).take(i as int),
        decreases n - i,
    {
        let b = if n >= 2 && i == n - 2 {
            marked_text_block_exec(parts[i].as_str())
        } else {
            text_block_exec(parts[i].as_str())
        };
        let ghost before = r@;
        r.push(b);
        proof {
            lemma_items_push(before, b);
            assert(system_blocks(ps).take(i + 1) =~= system_blocks(ps).take(i as int).push(b@));
        }
        i += 1;
    }
    assert(system_blocks(ps).take(n as int) =~= system_blocks(ps));
    r
}

fn anth_tool_defs_exec(a: &Vec<Json>) -> (r: Vec<Json>)
    ensures
        items_view(r@) == anth_tool_defs(items_view(a@)),
{
    proof { lemma_items_view(a@); }
    let ghost s = items_view(a@);
    let mut r: Vec<Json> = Vec::new();
    let mut i: usize = 0;
    while i < a.len()
        invariant
            i <= a@.len(),
            s == items_view(a@),
            s.len() == a@.len(),
            forall|k: int| 0 <= k < a@.len() ==> #[trigger] s[k] == a@[k]@,
            items_view(r@) == anth_tool_defs(s.take(i as int)),
        decreases a@.len() - i,
    {
        assert(s.take(i + 1).drop_last() =~= s.take(i as int));
        assert(s.take(i + 1).last() == s[i as int]);
        match a[i].get("function") {
            Some(f) => {
                let d = obj3("name", f.member("name"), "description", f.member("description"), "input_schema", f.member("parameters"));
                let ghost before = r@;
                r.push(d);
                proof { lemma_items_push(before, d); }
            },
            None => {},
        }
        i += 1;
    }
    assert(s.take(a@.len() as int) =~= s);
    r
}

fn tools_to_anthropic(tools: &Option<Json>, use_cache: bool) -> (r: Option<Json>)
    ensures
        opt_view(r) == tools_to_anthropic_spec(opt_view(*tools), use_cache),
{
    match tools {
        Some(t) => match t {
            Json::Array(a) => {
                let mut d = anth_tool_defs_exec(a);
                proof { lemma_items_view(d@); }
                if d.len() == 0 {
                    return None;
                }
                if use_cache {
                    let k = d.len() - 1;
                    let mut b = d[k].deep_clone();
                    b.set("cache_control", ephemeral());
                    let ghost before = d@;
                    d.set(k, b);
                    proof { lemma_items_update(before, k as int, b); }
                }
                Some(jarray_of(d))
            },
            _ => None,
        },
        None => None,
    }
}

/// The Anthropic Messages request body: system text lifted to the top level,
/// tool calls as `tool_use`, tool results as `tool_result` (consecutive ones
/// merged into one user message), and with caching three breakpoints: the last
/// tool definition, the stable system block and the last user block.
pub fn anthropic_body(req: &ChatReq, use_cache: bool) -> (r: Json)
    ensures
        r@ == anthropic_body_spec(req.model@, req.messages@, opt_view(req.tools), use_cache),
{
    let msgs = list_items(&req.messages);
    let ghost ms = items_view(msgs@);
    assert(ms == message_list(req.messages@));
    proof { lemma_items_view(msgs@); }
    let mut parts: Vec<String> = Vec::new();
    let mut out: Vec<Json> = Vec::new();
    proof {
        lemma_items_view(out@);
        assert(strs(parts@) =~= Seq::<Seq<char>>::empty());
        assert(items_view(out@) =~= Seq::<JsonV>::empty());
        assert(ms.take(0) =~= Seq::<JsonV>::empty());
    }
    let mut i: usize = 0;
    while i < msgs.len()
        invariant
            i <= msgs@.len(),
            ms == items_view(msgs@),
            ms.len() == msgs@.len(),
            forall|k: int| 0 <= k < msgs@.len() ==> #[trigger] ms[k] == msgs@[k]@,
            (strs(parts@), items_view(out@)) == anth_fold(ms.take(i as int)),
        decreases msgs@.len() - i,
    {
        assert(ms.take(i + 1).drop_last() =~= ms.take(i as int));
        assert(ms.take(i + 1).last() == ms[i as int]);
        anth_step_exec(&mut parts, &mut out, &msgs[i]);
        i += 1;
    }
    assert(ms.take(msgs@.len() as int) =~= ms);
    let ghost st = anth_fold(ms);
    if use_cache {
        mark_last_user_exec(&mut out);
    }
    let ghost outv = items_view(out@);
    let mut body: Vec<(String, Json)> = Vec::new();
    body.push((String::from_str("model"), jtext(req.model.as_str())));
    body.push((String::from_str("max_tokens"), jnumber("8192")));
    body.push((String::from_str("messages"), jarray_of(out)));
    body.push((String::from_str("stream"), jbool(true)));
    let ghost base = seq![
        ("model"@, JsonV::Str(req.model@)),
        ("max_tokens"@, JsonV::Number("8192"@)),
        ("messages"@, JsonV::Array(outv)),
        ("stream"@, JsonV::Bool(true)),
    ];
    proof {
        lemma_members_view(body@);
        assert(members_view(body@) =~= base);
    }
    let np = parts.len();
    if np > 0 {
        let sys = if use_cache && np > 1 {
            jarray_of(system_blocks_exec(&parts))
        } else if use_cache {
            let mut one: Vec<Json> = Vec::new();
            one.push(marked_text_block_exec(parts[0].as_str()));
            proof {
                lemma_items_view(one@);
                assert(items_view(one@) =~= seq![marked_text_block(strs(parts@)[0])]);
            }
            jarray_of(one)
        } else {
            jtext(join_strings(&parts, "\n\n").as_str())
        };
        let ghost before = body@;
        body.push((String::from_str("system"), sys));
        proof {
            lemma_members_view(before);
            lemma_members_view(body@);
            assert(members_view(body@) =~= members_view(before).push(("system"@, sys@)));
        }
    }
    let ghost with_sys = members_view(body@);
    assert(with_sys =~= base + system_member(st.0, use_cache));
    match tools_to_anthropic(&req.tools, use_cache) {
        Some(t) => {
            let ghost before = body@;
            let ghost tv = t@;
            body.push((String::from_str("tools"), t));
            proof {
                lemma_members_view(before);
                lemma_members_view(body@);
                assert(members_view(body@) =~= members_view(before).push(("tools"@, tv)));
            }
        },
        None => {},
    }
    assert(members_view(body@) =~= base + system_member(st.0, use_cache)
        + opt_member("tools"@, tools_to_anthropic_spec(opt_view(req.tools), use_cache)));
    obj_of(body)
}

// ---------- OpenAI Responses ----------

/// A user message as a Responses input item.
pub open spec fn resp_user_item(m: JsonV) -> JsonV {
    jobj(seq![
        ("role"@, JsonV::Str("user"@)),
        ("content"@, JsonV::Array(seq![jobj(seq![
            ("type"@, JsonV::Str("input_text"@)),
            ("text"@, JsonV::Str(content_or_empty(m))),
        ])])),
    ])
}

/// Assistant text as a Responses input item.
pub open spec fn resp_assistant_item(c: Seq<char>) -> JsonV {
    jobj(seq![
        ("type"@, JsonV::Str("message"@)),
        ("role"@, JsonV::Str("assistant"@)),
        ("content"@, JsonV::Array(seq![jobj(seq![
            ("type"@, JsonV::Str("output_text"@)),
            ("text"@, JsonV::Str(c)),
        ])])),
    ])
}

/// A tool call as a `function_call` item.
pub open spec fn resp_call_item(tc: JsonV) -> JsonV {
    jobj(seq![
        ("type"@, JsonV::Str("function_call"@)),
        ("call_id"@, jat(tc, "id"@)),
        ("name"@, jat(jat(tc, "function"@), "name"@)),
        ("arguments"@, jat(jat(tc, "function"@), "arguments"@)),
    ])
}

/// A tool message as a `function_call_output` item.
pub open spec fn resp_output_item(m: JsonV) -> JsonV {
    jobj(seq![
        ("type"@, JsonV::Str("function_call_output"@)),
        ("call_id"@, jat(m, "tool_call_id"@)),
        ("output"@, JsonV::Str(content_or_empty(m))),
    ])
}

/// The items of an assistant message: its text, then one per tool call.
pub open spec fn resp_assistant_items(m: JsonV) -> Seq<JsonV> {
    let text = match nonempty_content(m) {
        Some(c) => seq![resp_assistant_item(c)],
        None => Seq::<JsonV>::empty(),
    };
    text + tool_calls_of(m).map_values(|tc: JsonV| resp_call_item(tc))
}

/// One message taken in: system text goes to the instructions, the rest to the input.
pub open spec fn resp_step(st: (Seq<Seq<char>>, Seq<JsonV>), m: JsonV) -> (Seq<Seq<char>>, Seq<JsonV>) {
    let instr = st.0;
    let input = st.1;
    let r = role_name(m);
    if r == "system"@ {
        match nonempty_content(m) {
            Some(c) => (instr.push(c), input),
            None => st,
        }
    } else if r == "user"@ {
        (instr, input.push(resp_user_item(m)))
    } else if r == "assistant"@ {
        (instr, input + resp_assistant_items(m))
    } else if r == "tool"@ {
        (instr, input.push(resp_output_item(m)))
    } else {
        st
    }
}

/// All messages taken in, in order.
pub open spec fn resp_fold(ms: Seq<JsonV>) -> (Seq<Seq<char>>, Seq<JsonV>)
    decreases ms.len(),
{
    if ms.len() == 0 {
        (Seq::<Seq<char>>::empty(), Seq::<JsonV>::empty())
    } else {
        resp_step(resp_fold(ms.drop_last()), ms.last())
    }
}

/// An OpenAI tool definition in the flat Responses form.
pub open spec fn resp_tool_def(f: JsonV) -> JsonV {
    jobj(seq![
        ("type"@, JsonV::Str("function"@)),
        ("name"@, jat(f, "name"@)),
        ("description"@, jat(f, "description"@)),
        ("parameters"@, jat(f, "parameters"@)),
    ])
}

/// The definitions of the tools that have a `function` member.
pub open spec fn resp_tool_defs(a: Seq<JsonV>) -> Seq<JsonV>
    decreases a.len(),
{
    if a.len() == 0 {
        Seq::<JsonV>::empty()
    } else {
        match jget(a.last(), "function"@) {
            Some(f) => resp_tool_defs(a.drop_last()).push(resp_tool_def(f)),
            None => resp_tool_defs(a.drop_last()),
        }
    }
}

/// The Responses tool list.
pub open spec fn tools_to_responses_spec(tools: Option<JsonV>) -> Option<JsonV> {
    match tools {
        Some(JsonV::Array(a)) => if resp_tool_defs(a).len() > 0 { Some(JsonV::Array(resp_tool_defs(a))) } else { None },
        _ => None,
    }
}

/// The Responses body. The protocol has no block-level breakpoint field (its
/// prefix caching is automatic), so no markers are placed.
pub open spec fn responses_body_spec(model: Seq<char>, messages: JsonV, tools: Option<JsonV>) -> JsonV {
    let st = resp_fold(message_list(messages));
    let instructions = if st.0.len() > 0 {
        seq![("instructions"@, JsonV::Str(join_seq(st.0, "\n\n"@)))]
    } else {
        Seq::<(Seq<char>, JsonV)>::empty()
    };
    jobj(seq![
        ("model"@, JsonV::Str(model)),
        ("input"@, JsonV::Array(st.1)),
        ("stream"@, JsonV::Bool(true)),
    ] + instructions + opt_member("tools"@, tools_to_responses_spec(tools)))
}

fn text_part(kind: &str, text: &str) -> (r: Json)
    ensures
        r@ == jobj(seq![("type"@, JsonV::Str(kind@)), ("text"@, JsonV::Str(text@))]),
{
    obj2("type", jtext(kind), "text", jtext(text))
}

fn single(x: Json) -> (r: Json)
    ensures
        r@ == JsonV::Array(seq![x@]),
{
    let ghost g = x@;
    let mut v: Vec<Json> = Vec::new();
    v.push(x);
    proof {
        lemma_items_view(v@);
        assert(items_view(v@) =~= seq![g]);
    }
    jarray_of(v)
}

fn resp_step_exec(instr: &mut Vec<String>, input: &mut Vec<Json>, m: &Json)
    ensures
        (strs(final(instr)@), items_view(final(input)@)) == resp_step((strs(old(instr)@), items_view(old(input)@)), m@),
{
    let r = role_name_exec(m);
    if text_eq(r.as_str(), "system") {
        match nonempty_content_exec(m) {
            Some(c) => {
                let ghost before = instr@;
                instr.push(c);
                proof { assert(strs(instr@) =~= strs(before).push(c@)); }
            },
            None => {},
        }
    } else if text_eq(r.as_str(), "user") {
        let text = content_or_empty_exec(m);
        let item = obj2("role", jtext("user"), "content", single(text_part("input_text", text.as_str())));
        let ghost before = input@;
        input.push(item);
        proof { lemma_items_push(before, item); }
    } else if text_eq(r.as_str(), "assistant") {
        let ghost start = items_view(input@);
        match nonempty_content_exec(m) {
            Some(c) => {
                let item = obj3("type", jtext("message"), "role", jtext("assistant"), "content",
                    single(text_part("output_text", c.as_str())));
                let ghost before = input@;
                input.push(item);
                proof { lemma_items_push(before, item); }
            },
            None => {},
        }
        let ghost head = items_view(input@);
        assert(head =~= start + match nonempty_content(m@) {
            Some(c) => seq![resp_assistant_item(c)],
            None => Seq::<JsonV>::empty(),
        });
        let tcs = list_items(&m.member("tool_calls"));
        let ghost t = items_view(tcs@);
        assert(t == tool_calls_of(m@));
        proof { lemma_items_view(tcs@); }
        let mut i: usize = 0;
        while i < tcs.len()
            invariant
                i <= tcs@.len(),
                t == items_view(tcs@),
                t.len() == tcs@.len(),
                forall|k: int| 0 <= k < tcs@.len() ==> #[trigger] t[k] == tcs@[k]@,
                items_view(input@) == head + t.take(i as int).map_values(|tc: JsonV| resp_call_item(tc)),
            decreases tcs@.len() - i,
        {
            let tc = &tcs[i];
            let f = tc.member("function");
            let item = obj4("type", jtext("function_call"), "call_id", tc.member("id"), "name", f.member("name"),
                "arguments", f.member("arguments"));
            let ghost before = input@;
            input.push(item);
            proof {
                lemma_items_push(before, item);
                assert(t.take(i + 1).map_values(|tc: JsonV| resp_call_item(tc))
                    =~= t.take(i as int).map_values(|tc: JsonV| resp_call_item(tc)).push(resp_call_item(t[i as int])));
            }
            i += 1;
        }
        assert(t.take(tcs@.len() as int) =~= t);
        assert(items_view(input@) =~= start + resp_assistant_items(m@));
    } else if text_eq(r.as_str(), "tool") {
        let text = content_or_empty_exec(m);
        let item = obj3("type", jtext("function_call_output"), "call_id", m.member("tool_call_id"), "output",
            jtext(text.as_str()));
        let ghost before = input@;
        input.push(item);
        proof { lemma_items_push(before, item); }
    }
}

fn resp_tool_defs_exec(a: &Vec<Json>) -> (r: Vec<Json>)
    ensures
        items_view(r@) == resp_tool_defs(items_view(a@)),
{
    proof { lemma_items_view(a@); }
    let ghost s = items_view(a@);
    let mut r: Vec<Json> = Vec::new();
    let mut i: usize = 0;
    while i < a.len()
        invariant
            i <= a@.len(),
            s == items_view(a@),
            s.len() == a@.len(),
            forall|k: int| 0 <= k < a@.len() ==> #[trigger] s[k] == a@[k]@,
            items_view(r@) == resp_tool_defs(s.take(i as int)),
        decreases a@.len() - i,
    {
        assert(s.take(i + 1).drop_last() =~= s.take(i as int));
        assert(s.take(i + 1).last() == s[i as int]);
        match a[i].get("function") {
            Some(f) => {
                let d = obj4("type", jtext("function"), "name", f.member("name"), "description", f.member("description"),
                    "parameters", f.member("parameters"));
                let ghost before = r@;
                r.push(d);
                proof { lemma_items_push(before, d); }
            },
            None => {},
        }
        i += 1;
    }
    assert(s.take(a@.len() as int) =~= s);
    r
}

fn tools_to_responses(tools: &Option<Json>) -> (r: Option<Json>)
    ensures
        opt_view(r) == tools_to_responses_spec(opt_view(*tools)),
{
    match tools {
        Some(t) => match t {
            Json::Array(a) => {
                let d = resp_tool_defs_exec(a);
                proof { lemma_items_view(d@); }
                if d.len() == 0 { None } else { Some(jarray_of(d)) }
            },
            _ => None,
        },
        None => None,
    }
}

/// The Responses request body: system text as `instructions`, tool calls as
/// `function_call`, tool results as `function_call_output`.
pub fn responses_body(req: &ChatReq) -> (r: Json)
    ensures
        r@ == responses_body_spec(req.model@, req.messages@, opt_view(req.tools)),
{
    let msgs = list_items(&req.messages);
    let ghost ms = items_view(msgs@);
    assert(ms == message_list(req.messages@));
    proof { lemma_items_view(msgs@); }
    let mut instr: Vec<String> = Vec::new();
    let mut input: Vec<Json> = Vec::new();
    proof {
        lemma_items_view(input@);
        assert(strs(instr@) =~= Seq::<Seq<char>>::empty());
        assert(items_view(input@) =~= Seq::<JsonV>::empty());
        assert(ms.take(0) =~= Seq::<JsonV>::empty());
    }
    let mut i: usize = 0;
    while i < msgs.len()
        invariant
            i <= msgs@.len(),
            ms == items_view(msgs@),
            ms.len() == msgs@.len(),
            forall|k: int| 0 <= k < msgs@.len() ==> #[trigger] ms[k] == msgs@[k]@,
            (strs(instr@), items_view(input@)) == resp_fold(ms.take(i as int)),
        decreases msgs@.len() - i,
    {
        assert(ms.take(i + 1).drop_last() =~= ms.take(i as int));
        assert(ms.take(i + 1).last() == ms[i as int]);
        resp_step_exec(&mut instr, &mut input, &msgs[i]);
        i += 1;
    }
    assert(ms.take(msgs@.len() as int) =~= ms);
    let ghost st = resp_fold(ms);
    let ghost inv = items_view(input@);
    let mut body: Vec<(String, Json)> = Vec::new();
    body.push((String::from_str("model"), jtext(req.model.as_str())));
    body.push((String::from_str("input"), jarray_of(input)));
    body.push((String::from_str("stream"), jbool(true)));
    let ghost base = seq![
        ("model"@, JsonV::Str(req.model@)),
        ("input"@, JsonV::Array(inv)),
        ("stream"@, JsonV::Bool(true)),
    ];
    proof {
        lemma_members_view(body@);
        assert(members_view(body@) =~= base);
    }
    if instr.len() > 0 {
        let joined = join_strings(&instr, "\n\n");
        let ghost before = body@;
        body.push((String::from_str("instructions"), jtext(joined.as_str())));
        proof {
            lemma_members_view(before);
            lemma_members_view(body@);
            assert(members_view(body@) =~= members_view(before).push(("instructions"@, JsonV::Str(joined@))));
        }
    }
    let ghost instructions = if st.0.len() > 0 {
        seq![("instructions"@, JsonV::Str(join_seq(st.0, "\n\n"@)))]
    } else {
        Seq::<(Seq<char>, JsonV)>::empty()
    };
    assert(members_view(body@) =~= base + instructions);
    match tools_to_responses(&req.tools) {
        Some(t) => {
            let ghost before = body@;
            let ghost tv = t@;
            body.push((String::from_str("tools"), t));
            proof {
                lemma_members_view(before);
                lemma_members_view(body@);
                assert(members_view(body@) =~= members_view(before).push(("tools"@, tv)));
            }
        },
        None => {},
    }
    assert(members_view(body@) =~= base + instructions + opt_member("tools"@, tools_to_responses_spec(opt_view(req.tools))));
    obj_of(body)
}

// ---------- laws ----------

/// Without caching, the Chat Completions body carries the messages exactly as given.
pub proof fn law_chat_body_without_cache_keeps_messages(model: Seq<char>, messages: JsonV, tools: Option<JsonV>)
    ensures
        jat(chat_body_spec(model, messages, tools, false), "messages"@) == messages,
{
    reveal_strlit("model");
    reveal_strlit("messages");
    let base = seq![
        ("model"@, JsonV::Str(model)),
        ("messages"@, messages),
        ("stream"@, JsonV::Bool(true)),
        ("stream_options"@, jobj(seq![("include_usage"@, JsonV::Bool(true))])),
    ];
    crate::json::lemma_find_key(base, "messages"@);
    assert("model"@.len() == 5);
    assert("messages"@.len() == 8);
    assert(base[0].0 != "messages"@);
    assert(crate::json::find_key(base, "messages"@) == Some(1int));
    match tools {
        Some(JsonV::Array(t)) => if t.len() > 0 {
            let b2 = base.push(("tools"@, JsonV::Array(t)));
            crate::json::lemma_find_key(b2, "messages"@);
            assert(b2[0] == base[0]);
            assert(b2[1] == base[1]);
            assert(crate::json::find_key(b2, "messages"@) == Some(1int));
        },
        _ => {},
    }
}

/// Placing the breakpoints changes at most two messages, the stable system message
/// and the last user or tool message, and never the number of messages.
pub proof fn law_breakpoints_touch_two_messages(a: Seq<JsonV>)
    ensures
        chat_marks(a).len() == a.len(),
        forall|k: int| 0 <= k < a.len()
            && stable_system(a) != Some(k)
            && last_user_or_tool(after_stable_mark(a)) != Some(k)
            ==> #[trigger] chat_marks(a)[k] == a[k],
{
    crate::json::lemma_indices_where(a, system_p());
    let a1 = after_stable_mark(a);
    lemma_last_where(a1, user_or_tool_p());
}

/// A message with the user role.
pub open spec fn is_user(m: JsonV) -> bool {
    key_is(m, "role"@, "user"@)
}

/// No two neighbouring messages both have the user role.
pub open spec fn alternates(out: Seq<JsonV>) -> bool {
    forall|k: int| 0 <= k < out.len() - 1 ==> !(is_user(#[trigger] out[k]) && is_user(out[k + 1]))
}

/// Every user message carries a block list.
pub open spec fn users_have_blocks(out: Seq<JsonV>) -> bool {
    forall|k: int| 0 <= k < out.len() && is_user(#[trigger] out[k]) ==> jat(out[k], "content"@) is Array
}

proof fn lemma_find_key_same_keys(a: Seq<(Seq<char>, JsonV)>, b: Seq<(Seq<char>, JsonV)>, k: Seq<char>)
    requires
        a.len() == b.len(),
        forall|j: int| 0 <= j < a.len() ==> (#[trigger] a[j]).0 == b[j].0,
    ensures
        crate::json::find_key(a, k) == crate::json::find_key(b, k),
    decreases a.len(),
{
    if a.len() > 0 {
        assert forall|j: int| 0 <= j < a.drop_last().len() implies (#[trigger] a.drop_last()[j]).0 == b.drop_last()[j].0 by {
            assert(a.drop_last()[j] == a[j]);
            assert(b.drop_last()[j] == b[j]);
        }
        lemma_find_key_same_keys(a.drop_last(), b.drop_last(), k);
        assert(a.last().0 == b.last().0);
    }
}

proof fn lemma_literals()
    ensures
        "role"@ != "content"@,
        "user"@ != "assistant"@,
{
    reveal_strlit("role");
    reveal_strlit("content");
    reveal_strlit("user");
    reveal_strlit("assistant");
    assert("role"@.len() == 4);
    assert("content"@.len() == 7);
    assert("user"@.len() == 4);
    assert("assistant"@.len() == 9);
}

/// Setting the content of a message keeps its role and sets the content.
proof fn lemma_set_content(m: JsonV, x: JsonV)
    requires
        m is Object,
    ensures
        jat(jset(m, "content"@, x), "role"@) == jat(m, "role"@),
        jat(jset(m, "content"@, x), "content"@) == x,
{
    lemma_literals();
    let ms = m->Object_0;
    crate::json::lemma_find_key(ms, "content"@);
    crate::json::lemma_find_key(ms, "role"@);
    match crate::json::find_key(ms, "content"@) {
        Some(i) => {
            let ms2 = ms.update(i, ("content"@, x));
            assert forall|j: int| 0 <= j < ms.len() implies (#[trigger] ms[j]).0 == ms2[j].0 by {}
            lemma_find_key_same_keys(ms, ms2, "role"@);
            lemma_find_key_same_keys(ms, ms2, "content"@);
            crate::json::lemma_find_key(ms2, "role"@);
        },
        None => {
            let ms2 = ms.push(("content"@, x));
            crate::json::lemma_find_key(ms2, "role"@);
            crate::json::lemma_find_key(ms2, "content"@);
            assert(ms2.drop_last() =~= ms);
            match crate::json::find_key(ms, "role"@) {
                Some(j) => {
                    assert(ms2[j] == ms[j]);
                },
                None => {
                    assert(ms2[ms.len() as int].0 == "content"@);
                },
            }
            assert(ms2[ms.len() as int].0 == "content"@);
        },
    }
}

proof fn lemma_user_message(b: JsonV)
    ensures
        is_user(user_message(b)),
        jat(user_message(b), "content"@) is Array,
{
    lemma_literals();
    let ms = seq![("role"@, JsonV::Str("user"@)), ("content"@, JsonV::Array(seq![b]))];
    crate::json::lemma_find_key(ms, "role"@);
    crate::json::lemma_find_key(ms, "content"@);
    assert(ms[0].0 == "role"@);
    assert(ms[1].0 == "content"@);
}

proof fn lemma_assistant_message(b: Seq<JsonV>)
    ensures
        !is_user(jobj(seq![("role"@, JsonV::Str("assistant"@)), ("content"@, JsonV::Array(b))])),
{
    lemma_literals();
    let ms = seq![("role"@, JsonV::Str("assistant"@)), ("content"@, JsonV::Array(b))];
    crate::json::lemma_find_key(ms, "role"@);
    assert(ms[0].0 == "role"@);
}

proof fn lemma_push_user_keeps(out: Seq<JsonV>, block: JsonV)
    requires
        alternates(out),
        users_have_blocks(out),
    ensures
        alternates(push_user_spec(out, block)),
        users_have_blocks(push_user_spec(out, block)),
{
    let r = push_user_spec(out, block);
    if out.len() > 0 && is_user(out.last()) {
        assert(is_user(out[out.len() - 1]));
        let arr = jat(out.last(), "content"@)->Array_0;
        let m2 = jset(out.last(), "content"@, JsonV::Array(arr.push(block)));
        assert(out.last() is Object) by {
            if !(out.last() is Object) {
                assert(jget(out.last(), "role"@) is None);
            }
        }
        lemma_set_content(out.last(), JsonV::Array(arr.push(block)));
        assert(r == out.update(out.len() - 1, m2));
        assert(is_user(m2));
        assert forall|k: int| 0 <= k < r.len() - 1 implies !(is_user(#[trigger] r[k]) && is_user(r[k + 1])) by {
            assert(r[k] == out[k]);
            if k + 1 < r.len() - 1 {
                assert(r[k + 1] == out[k + 1]);
            } else {
                assert(is_user(out[k + 1]));
            }
        }
        assert forall|k: int| 0 <= k < r.len() && is_user(#[trigger] r[k]) implies jat(r[k], "content"@) is Array by {
            if k < r.len() - 1 {
                assert(r[k] == out[k]);
            }
        }
    } else {
        lemma_user_message(block);
        assert(r == out.push(user_message(block)));
        assert forall|k: int| 0 <= k < r.len() - 1 implies !(is_user(#[trigger] r[k]) && is_user(r[k + 1])) by {
            assert(r[k] == out[k]);
            if k + 1 < r.len() - 1 {
                assert(r[k + 1] == out[k + 1]);
            } else {
                assert(k == out.len() - 1);
            }
        }
        assert forall|k: int| 0 <= k < r.len() && is_user(#[trigger] r[k]) implies jat(r[k], "content"@) is Array by {
            if k < r.len() - 1 {
                assert(r[k] == out[k]);
            }
        }
    }
}

proof fn lemma_anth_step_keeps(st: (Seq<Seq<char>>, Seq<JsonV>), m: JsonV)
    requires
        alternates(st.1),
        users_have_blocks(st.1),
    ensures
        alternates(anth_step(st, m).1),
        users_have_blocks(anth_step(st, m).1),
{
    let out = st.1;
    let r = role_name(m);
    if r == "system"@ {
    } else if r == "user"@ {
        match nonempty_content(m) {
            Some(c) => lemma_push_user_keeps(out, text_block(c)),
            None => {},
        }
    } else if r == "assistant"@ {
        let b = assistant_blocks(m);
        if b.len() > 0 {
            let am = jobj(seq![("role"@, JsonV::Str("assistant"@)), ("content"@, JsonV::Array(b))]);
            lemma_assistant_message(b);
            let o2 = out.push(am);
            assert forall|k: int| 0 <= k < o2.len() - 1 implies !(is_user(#[trigger] o2[k]) && is_user(o2[k + 1])) by {
                assert(o2[k] == out[k]);
                if k + 1 < o2.len() - 1 {
                    assert(o2[k + 1] == out[k + 1]);
                }
            }
            assert forall|k: int| 0 <= k < o2.len() && is_user(#[trigger] o2[k]) implies jat(o2[k], "content"@) is Array by {
                if k < o2.len() - 1 {
                    assert(o2[k] == out[k]);
                }
            }
        }
    } else if r == "tool"@ {
        lemma_push_user_keeps(out, tool_result_block(m));
    }
}

/// The Anthropic messages alternate: consecutive user text and tool results are
/// merged into one user message, so no two user messages are neighbours.
pub proof fn law_anthropic_user_turns_merge(ms: Seq<JsonV>)
    ensures
        alternates(anth_fold(ms).1),
    decreases ms.len(),
{
    lemma_fold_keeps(ms);
}

proof fn lemma_fold_keeps(ms: Seq<JsonV>)
    ensures
        alternates(anth_fold(ms).1),
        users_have_blocks(anth_fold(ms).1),
    decreases ms.len(),
{
    if ms.len() > 0 {
        lemma_fold_keeps(ms.drop_last());
        lemma_anth_step_keeps(anth_fold(ms.drop_last()), ms.last());
    }
}

/// The text a message gives the Responses instructions: the content of a
/// `system` message when it is a non-empty string.
pub open spec fn system_text(m: JsonV) -> Option<Seq<char>> {
    if jat(m, "role"@) == JsonV::Str("system"@) {
        match jat(m, "content"@) {
            JsonV::Str(c) => if c.len() > 0 { Some(c) } else { None },
            _ => None,
        }
    } else {
        None
    }
}

proof fn lemma_resp_fold_instructions(ms: Seq<JsonV>)
    ensures
        resp_fold(ms).0 == ms.filter_map(|m: JsonV| system_text(m)),
    decreases ms.len(),
{
    if ms.len() > 0 {
        lemma_resp_fold_instructions(ms.drop_last());
        let m = ms.last();
        reveal_strlit("system");
        reveal_strlit("");
        assert("system"@.len() > 0);
        assert(""@.len() == 0);
        if role_name(m) == "system"@ {
            match jat(m, "role"@) {
                JsonV::Str(r) => {
                    assert(jstr(jat(m, "role"@)) == Some(r));
                    assert(r == "system"@);
                    assert(jat(m, "role"@) == JsonV::Str("system"@));
                },
                _ => {
                    assert(jstr(jat(m, "role"@)) is None);
                    assert(role_name(m) == ""@);
                    assert(false);
                },
            }
            match jat(m, "content"@) {
                JsonV::Str(c) => {
                    assert(jstr(jat(m, "content"@)) == Some(c));
                    assert(system_text(m) == (if c.len() > 0 { Some(c) } else { None }));
                },
                _ => {
                    assert(jstr(jat(m, "content"@)) is None);
                    assert(nonempty_content(m) is None);
                    assert(system_text(m) is None);
                },
            }
            assert(system_text(m) == nonempty_content(m));
        } else {
            if jat(m, "role"@) == JsonV::Str("system"@) {
                assert(role_name(m) == "system"@);
            }
            assert(system_text(m) is None);
        }
        let rest = ms.drop_last().filter_map(|m: JsonV| system_text(m));
        match system_text(m) {
            Some(c) => assert(rest + seq![c] =~= rest.push(c)),
            None => {},
        }
    }
}

/// The Responses instructions are the non-empty texts of all the `system`
/// messages, in their order, joined by a blank line; none are sent when there
/// is no such text.
pub proof fn law_responses_instructions_join_all_system_texts(model: Seq<char>, ms: Seq<JsonV>, tools: Option<JsonV>)
    ensures
        resp_fold(ms).0 == ms.filter_map(|m: JsonV| system_text(m)),
        ms.filter_map(|m: JsonV| system_text(m)).len() > 0 ==> (responses_body_spec(model, JsonV::Array(ms), tools)
            matches JsonV::Object(mem) && mem.contains(("instructions"@,
                JsonV::Str(join_seq(ms.filter_map(|m: JsonV| system_text(m)), "\n\n"@))))),
{
    lemma_resp_fold_instructions(ms);
    let texts = ms.filter_map(|m: JsonV| system_text(m));
    if texts.len() > 0 {
        let st = resp_fold(message_list(JsonV::Array(ms)));
        let base = seq![
            ("model"@, JsonV::Str(model)),
            ("input"@, JsonV::Array(st.1)),
            ("stream"@, JsonV::Bool(true)),
        ];
        let ins = seq![("instructions"@, JsonV::Str(join_seq(st.0, "\n\n"@)))];
        let mem = base + ins + opt_member("tools"@, tools_to_responses_spec(tools));
        assert(mem[3] == ins[0]);
    }
}

} // verus!
