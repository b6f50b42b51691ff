//! The decisions of a chat request: which endpoint, which key, which body, and
//! what to do when the provider rejects the request.

use vstd::prelude::*;
use crate::json::{Json, JsonV};
use crate::protocols::{
    ChatReq, anthropic_body, responses_body, chat_body, anthropic_body_spec, responses_body_spec,
    chat_body_spec, opt_view, breakpoints_ok,
};
use crate::text::{trim_spec, chars_of, trim_chars, string_of, push_str, dec, dec_string};
use crate::write::find_from;
use crate::state::{truncate_spec, truncate_str};

verus! {

/// The endpoint used when the request names none.
pub const DEFAULT_BASE_URL: &'static str = "https://dashscope.aliyuncs.com/compatible-mode/v1";

/// `s` without its trailing `c` characters.
pub open spec fn strip_trailing(s: Seq<char>, c: char) -> Seq<char>
    decreases s.len(),
{
    if s.len() > 0 && s.last() == c {
        strip_trailing(s.drop_last(), c)
    } else {
        s
    }
}

/// `s` ends with `p`.
pub open spec fn ends_with(s: Seq<char>, p: Seq<char>) -> bool {
    s.len() >= p.len() && s.subrange(s.len() - p.len(), s.len() as int) == p
}

/// The request address for a provider base URL and a protocol; `/v1` is added for
/// Anthropic and Responses when the base lacks it (a bare domain root).
pub open spec fn resolve_url_spec(base: Seq<char>, protocol: Seq<char>) -> Seq<char> {
    let b = strip_trailing(trim_spec(base), '/');
    if protocol == "anthropic"@ {
        if ends_with(b, "/v1"@) { b + "/messages"@ } else { b + "/v1/messages"@ }
    } else if protocol == "responses"@ {
        if ends_with(b, "/v1"@) { b + "/responses"@ } else { b + "/v1/responses"@ }
    } else {
        b + "/chat/completions"@
    }
}

fn strip_trailing_exec(v: &[char], c: char) -> (r: Vec<char>)
    ensures
        r@ == strip_trailing(v@, c),
{
    let mut n = v.len();
    assert(v@.take(n as int) =~= v@);
    while n > 0 && v[n - 1] == c
        invariant
            n <= v@.len(),
            strip_trailing(v@, c) == strip_trailing(v@.take(n as int), c),
        decreases n,
    {
        assert(v@.take(n as int).drop_last() =~= v@.take(n - 1));
        n -= 1;
    }
    assert(v@.take(n as int).len() == 0 || v@.take(n as int).last() != c);
    crate::text::copy_range(v, 0, n)
}

fn ends_with_exec(v: &[char], p: &[char]) -> (r: bool)
    ensures
        r == ends_with(v@, p@),
{
    if v.len() < p.len() {
        return false;
    }
    let tail = crate::text::copy_range(v, v.len() - p.len(), v.len());
    crate::text::chars_eq(&tail, p)
}

/// The request address.
pub fn resolve_url(base: &str, protocol: &str) -> (r: String)
    ensures
        r@ == resolve_url_spec(base@, protocol@),
{
    let b = strip_trailing_exec(&trim_chars(&chars_of(base)), '/');
    let mut r = string_of(&b);
    let v1 = chars_of("/v1");
    if crate::json::text_eq(protocol, "anthropic") {
        if ends_with_exec(&b, &v1) { push_str(&mut r, "/messages"); } else { push_str(&mut r, "/v1/messages"); }
    } else if crate::json::text_eq(protocol, "responses") {
        if ends_with_exec(&b, &v1) { push_str(&mut r, "/responses"); } else { push_str(&mut r, "/v1/responses"); }
    } else {
        push_str(&mut r, "/chat/completions");
    }
    r
}

/// The API key: the request's own, trimmed, when it is not blank; else the
/// environment's, when it is not blank.
pub open spec fn choose_key_spec(given: Option<Seq<char>>, env: Option<Seq<char>>) -> Option<Seq<char>> {
    let g = match given {
        Some(k) => if trim_spec(k).len() > 0 { Some(trim_spec(k)) } else { None },
        None => None,
    };
    let c = match g {
        Some(t) => Some(t),
        None => env,
    };
    match c {
        Some(k) => if trim_spec(k).len() > 0 { Some(k) } else { None },
        None => None,
    }
}

/// The API key to send (`env` is the `DASHSCOPE_API_KEY` variable).
pub fn choose_key(given: Option<&str>, env: Option<&str>) -> (r: Option<String>)
    ensures
        match r {
            Some(k) => choose_key_spec(
                match given { Some(x) => Some(x@), None => None },
                match env { Some(x) => Some(x@), None => None },
            ) == Some(k@),
            None => choose_key_spec(
                match given { Some(x) => Some(x@), None => None },
                match env { Some(x) => Some(x@), None => None },
            ) is None,
        },
{
    let g: Option<Vec<char>> = match given {
        Some(k) => {
            let t = trim_chars(&chars_of(k));
            if t.len() > 0 { Some(t) } else { None }
        },
        None => None,
    };
    let c: Option<Vec<char>> = match g {
        Some(t) => Some(t),
        None => match env {
            Some(e) => Some(chars_of(e)),
            None => None,
        },
    };
    match c {
        Some(k) => {
            let t = trim_chars(&k);
            if t.len() > 0 { Some(string_of(&k)) } else { None }
        },
        None => None,
    }
}

/// The missing-key message.
pub open spec fn missing_key_message() -> Seq<char> {
    "缺少 API Key：请在设置中为当前供应商填写 API Key，或设置环境变量 DASHSCOPE_API_KEY"@
}

/// The missing-key message.
pub fn missing_key() -> (r: String)
    ensures
        r@ == missing_key_message(),
{
    String::from_str("缺少 API Key：请在设置中为当前供应商填写 API Key，或设置环境变量 DASHSCOPE_API_KEY")
}

/// The protocol of a request (`chat` unless it names one).
pub open spec fn protocol_spec(p: Option<Seq<char>>) -> Seq<char> {
    match p {
        Some(x) => x,
        None => "chat"@,
    }
}

/// The request body for the request's protocol.
pub open spec fn request_body_spec(req: ChatReq, use_cache: bool) -> JsonV {
    let p = protocol_spec(match req.protocol { Some(x) => Some(x@), None => None });
    if p == "anthropic"@ {
        anthropic_body_spec(req.model@, req.messages@, opt_view(req.tools), use_cache)
    } else if p == "responses"@ {
        responses_body_spec(req.model@, req.messages@, opt_view(req.tools))
    } else {
        chat_body_spec(req.model@, req.messages@, opt_view(req.tools), use_cache)
    }
}

/// Whether a request is sent with the chat protocol (neither `anthropic` nor `responses`).
pub open spec fn uses_chat_protocol(req: ChatReq) -> bool {
    let p = protocol_spec(match req.protocol { Some(x) => Some(x@), None => None });
    p != "anthropic"@ && p != "responses"@
}

/// The request body for the request's protocol.
pub fn request_body(req: &ChatReq, use_cache: bool) -> (r: Json)
    requires
        use_cache && uses_chat_protocol(*req) ==> breakpoints_ok(req.messages@),
    ensures
        r@ == request_body_spec(*req, use_cache),
{
    let p: &str = match &req.protocol {
        Some(x) => x.as_str(),
        None => "chat",
    };
    if crate::json::text_eq(p, "anthropic") {
        anthropic_body(req, use_cache)
    } else if crate::json::text_eq(p, "responses") {
        responses_body(req)
    } else {
        chat_body(req, use_cache)
    }
}

/// `p` occurs in `s`.
pub open spec fn contains_text(s: Seq<char>, p: Seq<char>) -> bool {
    find_from(s, p, 0) is Some
}

/// Whether `p` occurs in `s`.
pub fn text_contains(s: &str, p: &str) -> (r: bool)
    ensures
        r == contains_text(s@, p@),
{
    crate::write::find_chars(&chars_of(s), &chars_of(p), 0).is_some()
}

/// What to do after an unsuccessful HTTP status.
pub enum Retry {
    /// Send again without `stream_options` (some compatible endpoints refuse it).
    DropStreamOptions,
    /// Send again without cache breakpoints, and stop placing them from now on.
    DropCacheMarkers,
    /// Give up with this message.
    Fail(String),
}

/// The view of a decision.
pub enum RetryView {
    DropStreamOptions,
    DropCacheMarkers,
    Fail(Seq<char>),
}

impl View for Retry {
    type V = RetryView;

    open spec fn view(&self) -> RetryView {
        match self {
            Retry::DropStreamOptions => RetryView::DropStreamOptions,
            Retry::DropCacheMarkers => RetryView::DropCacheMarkers,
            Retry::Fail(m) => RetryView::Fail(m@),
        }
    }
}

/// A 400 that names `stream_options` while the body has it: drop it and resend;
/// a 400 that names `cache_control` while breakpoints were placed: resend without
/// them; anything else fails with the status and the start of the reply.
pub open spec fn on_rejection_spec(code: u16, reply: Seq<char>, has_stream_options: bool, cache_used: bool) -> RetryView {
    if code == 400 && contains_text(reply, "stream_options"@) && has_stream_options {
        RetryView::DropStreamOptions
    } else if code == 400 && contains_text(reply, "cache_control"@) && cache_used {
        RetryView::DropCacheMarkers
    } else {
        RetryView::Fail("HTTP "@ + dec(code as nat) + ": "@ + truncate_spec(reply, 600))
    }
}

/// The decision after an unsuccessful HTTP status.
pub fn on_rejection(code: u16, reply: &str, has_stream_options: bool, cache_used: bool) -> (r: Retry)
    ensures
        r@ == on_rejection_spec(code, reply@, has_stream_options, cache_used),
{
    if code == 400 && text_contains(reply, "stream_options") && has_stream_options {
        Retry::DropStreamOptions
    } else if code == 400 && text_contains(reply, "cache_control") && cache_used {
        Retry::DropCacheMarkers
    } else {
        let mut m = String::from_str("HTTP ");
        push_str(&mut m, dec_string(code as u128).as_str());
        push_str(&mut m, ": ");
        push_str(&mut m, truncate_str(reply, 600).as_str());
        Retry::Fail(m)
    }
}

} // verus!
