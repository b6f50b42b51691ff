//! The decisions of the Node tool bridge: which engine runs a tool, how the
//! resident server's answers and silences are read, when the one-shot fallback
//! moves on to the next `node` candidate, and what the user is told.

use vstd::prelude::*;
use crate::json::{Json, JsonV, jat, jstr};
use crate::text::{chars_of, string_of, push_str, dec, dec_string, trim_spec, strs};
use crate::chat::{contains_text, text_contains};
use crate::state::{truncate_spec, truncate_str};

verus! {

/// The tool engine (`QS_TOOL_ENGINE`).
#[derive(Clone, Copy, PartialEq, Eq, Structural)]
pub enum Engine {
    /// All tools on the Node runtime (the default).
    Node,
    /// Tools with a native implementation run natively, the rest on Node.
    Auto,
    /// Native only: a tool without a native implementation is refused.
    Rust,
}

/// ASCII lower case of one character.
pub open spec fn ascii_lower(c: char) -> char {
    if 'A' <= c <= 'Z' { ((c as u32) + 32) as char } else { c }
}

/// ASCII lower case of a text.
pub open spec fn ascii_lower_seq(s: Seq<char>) -> Seq<char> {
    s.map_values(|c: char| ascii_lower(c))
}

fn ascii_lower_char(c: char) -> (r: char)
    ensures
        r == ascii_lower(c),
{
    if 'A' <= c && c <= 'Z' {
        ((c as u8) + 32) as char
    } else {
        c
    }
}

fn ascii_lower_chars(v: &[char]) -> (r: Vec<char>)
    ensures
        r@ == ascii_lower_seq(v@),
{
    let mut r: Vec<char> = Vec::new();
    let mut i: usize = 0;
    while i < v.len()
        invariant
            i <= v@.len(),
            r@ == ascii_lower_seq(v@.take(i as int)),
        decreases v@.len() - i,
    {
        r.push(ascii_lower_char(v[i]));
        assert(ascii_lower_seq(v@.take(i + 1)) =~= ascii_lower_seq(v@.take(i as int)).push(ascii_lower(v@[i as int])));
        i += 1;
    }
    assert(v@.take(v@.len() as int) =~= v@);
    r
}

/// The engine named by the variable's value (unset counts as empty).
pub open spec fn engine_spec(v: Seq<char>) -> Engine {
    let t = ascii_lower_seq(trim_spec(v));
    if t == "rust"@ || t == "native"@ {
        Engine::Rust
    } else if t == "auto"@ {
        Engine::Auto
    } else {
        Engine::Node
    }
}

/// The engine named by the variable's value.
pub fn engine_from(v: &str) -> (r: Engine)
    ensures
        r == engine_spec(v@),
{
    let t = ascii_lower_chars(&crate::text::trim_chars(&chars_of(v)));
    if crate::text::chars_eq(&t, &chars_of("rust")) || crate::text::chars_eq(&t, &chars_of("native")) {
        Engine::Rust
    } else if crate::text::chars_eq(&t, &chars_of("auto")) {
        Engine::Auto
    } else {
        Engine::Node
    }
}

/// The engine a call gets: the one already chosen for the process, else the
/// one the variable's current value names.
pub open spec fn engine_get_spec(chosen: Option<Engine>, v: Seq<char>) -> Engine {
    match chosen {
        Some(e) => e,
        None => engine_spec(v),
    }
}

/// The process's tool engine: fixed by the first call from the variable's value
/// then, and kept for every later call.
pub struct EngineChoice {
    chosen: Option<Engine>,
}

impl EngineChoice {
    /// The engine chosen so far, if any.
    pub closed spec fn chosen(&self) -> Option<Engine> {
        self.chosen
    }

    /// Nothing chosen yet.
    pub fn new() -> (r: EngineChoice)
        ensures
            r.chosen() is None,
    {
        EngineChoice { chosen: None }
    }

    /// The engine, given the variable's current value (empty when unset).
    pub fn get(&mut self, v: &str) -> (r: Engine)
        ensures
            r == engine_get_spec(old(self).chosen(), v@),
            final(self).chosen() == Some(r),
    {
        match self.chosen {
            Some(e) => e,
            None => {
                let e = engine_from(v);
                self.chosen = Some(e);
                e
            },
        }
    }
}

/// Once a call has chosen the engine, every later call gets the same engine,
/// whatever the variable says by then.
pub proof fn law_engine_fixed_after_first_call(chosen: Option<Engine>, first: Seq<char>, later: Seq<char>)
    ensures
        engine_get_spec(Some(engine_get_spec(chosen, first)), later) == engine_get_spec(chosen, first),
        engine_get_spec(None, first) == engine_spec(first),
{
}

/// Where a tool call goes.
pub enum Route {
    Native,
    Refused(String),
    Node,
}

/// Routing of a call of `name`: natively when the engine allows it and the tool has
/// a native implementation; refused under the native-only engine; else to Node.
pub open spec fn route_spec(eng: Engine, name: Seq<char>) -> Result<bool, Seq<char>> {
    if eng != Engine::Node && crate::tools::supports_spec(name) {
        Ok(true)
    } else if eng == Engine::Rust {
        Err("工具 "@ + name + " 尚未移植到 Rust 引擎（QS_TOOL_ENGINE=rust），去掉该环境变量可回到 Node 运行时"@)
    } else {
        Ok(false)
    }
}

/// Routing of a call of `name`.
pub fn route(eng: Engine, name: &str) -> (r: Route)
    ensures
        match r {
            Route::Native => route_spec(eng, name@) == Ok::<bool, Seq<char>>(true),
            Route::Node => route_spec(eng, name@) == Ok::<bool, Seq<char>>(false),
            Route::Refused(m) => route_spec(eng, name@) == Err::<bool, Seq<char>>(m@),
        },
{
    if eng != Engine::Node && crate::tools::supports(name) {
        Route::Native
    } else if eng == Engine::Rust {
        let mut m = String::from_str("工具 ");
        push_str(&mut m, name);
        push_str(&mut m, " 尚未移植到 Rust 引擎（QS_TOOL_ENGINE=rust），去掉该环境变量可回到 Node 运行时");
        Route::Refused(m)
    } else {
        Route::Node
    }
}

/// Seconds a call of `name` may take: `bash` gets longer.
pub fn timeout_secs(name: &str) -> (r: u64)
    ensures
        r == if name@ == "bash"@ { 200u64 } else { 60u64 },
{
    if crate::json::text_eq(name, "bash") { 200 } else { 60 }
}

// ---------- reading the runtime's replies ----------

/// The reply reports success (`ok` is `true`).
pub open spec fn out_ok_spec(v: JsonV) -> bool {
    jat(v, "ok"@) == JsonV::Bool(true)
}

/// Whether the reply reports success.
pub fn out_ok(v: &Json) -> (r: bool)
    ensures
        r == out_ok_spec(v@),
{
    match v.get("ok") {
        Some(x) => match x {
            Json::Bool(b) => *b,
            _ => false,
        },
        None => false,
    }
}

/// The request id a reply line answers (`id` as an unsigned integer).
pub fn reply_id(v: &Json) -> (r: Option<u64>)
    ensures
        r == crate::json::jnum_u64(jat(v@, "id"@)),
{
    v.member("id").as_u64()
}

/// The reply reports a cancellation.
pub open spec fn is_cancelled_spec(v: JsonV) -> bool {
    match jstr(jat(v, "error"@)) {
        Some(s) => contains_text(s, "已取消"@) || contains_text(s, "已被用户停止"@),
        None => false,
    }
}

/// Whether the reply reports a cancellation.
pub fn is_cancelled_resp(v: &Json) -> (r: bool)
    ensures
        r == is_cancelled_spec(v@),
{
    match v.member("error").as_str() {
        Some(s) => text_contains(s, "已取消") || text_contains(s, "已被用户停止"),
        None => false,
    }
}

/// The reply's error text, or the generic failure text.
pub open spec fn error_text(v: JsonV) -> Seq<char> {
    match jstr(jat(v, "error"@)) {
        Some(s) => s,
        None => "工具执行失败"@,
    }
}

/// A reply as the call's result: itself on success, its error otherwise.
pub open spec fn reply_result_spec(v: JsonV) -> Result<JsonV, Seq<char>> {
    if out_ok_spec(v) { Ok(v) } else { Err(error_text(v)) }
}

/// A reply as the call's result.
pub fn reply_result(v: Json) -> (r: Result<Json, String>)
    ensures
        match r {
            Ok(x) => reply_result_spec(v@) == Ok::<JsonV, Seq<char>>(x@),
            Err(e) => reply_result_spec(v@) == Err::<JsonV, Seq<char>>(e@),
        },
{
    if out_ok(&v) {
        Ok(v)
    } else {
        let e = v.member("error");
        match e.as_str() {
            Some(s) => Err(String::from_str(s)),
            None => Err(String::from_str("工具执行失败")),
        }
    }
}

// ---------- the resident server ----------

/// How a call to the resident server ended.
pub enum Dispatch {
    Response(Json),
    /// The user stopped it.
    Cancelled,
    /// No answer in time: the server may be stuck.
    Timeout,
    /// The connection broke: the one-shot fallback takes over.
    Gone(String),
}

/// The view of an ending.
pub enum DispatchView {
    Response(JsonV),
    Cancelled,
    Timeout,
    Gone(Seq<char>),
}

impl View for Dispatch {
    type V = DispatchView;

    open spec fn view(&self) -> DispatchView {
        match self {
            Dispatch::Response(v) => DispatchView::Response(v@),
            Dispatch::Cancelled => DispatchView::Cancelled,
            Dispatch::Timeout => DispatchView::Timeout,
            Dispatch::Gone(m) => DispatchView::Gone(m@),
        }
    }
}

/// An answer in time: a cancellation the user asked for is a cancellation,
/// anything else is the response.
pub open spec fn on_reply_spec(v: JsonV, cancelled: bool) -> DispatchView {
    if cancelled && is_cancelled_spec(v) { DispatchView::Cancelled } else { DispatchView::Response(v) }
}

/// The call's ending after an answer in time.
pub fn on_reply(v: Json, cancelled: bool) -> (r: Dispatch)
    ensures
        r@ == on_reply_spec(v@, cancelled),
{
    if cancelled && is_cancelled_resp(&v) { Dispatch::Cancelled } else { Dispatch::Response(v) }
}

/// After the wait ran out a cancel was sent; its acknowledgement (none when it
/// did not come or the server went away). A success that finished just then is
/// kept; a cancellation the user asked for is a cancellation; anything else,
/// including the acknowledgement of our own cancel, is a timeout.
pub open spec fn on_ack_spec(ack: Option<JsonV>, cancelled: bool) -> DispatchView {
    match ack {
        None => DispatchView::Timeout,
        Some(v) => if out_ok_spec(v) {
            DispatchView::Response(v)
        } else if cancelled {
            DispatchView::Cancelled
        } else {
            DispatchView::Timeout
        },
    }
}

/// The call's ending after the cancel that followed a timeout.
pub fn on_ack(ack: Option<Json>, cancelled: bool) -> (r: Dispatch)
    ensures
        r@ == on_ack_spec(crate::protocols::opt_view(ack), cancelled),
{
    match ack {
        None => Dispatch::Timeout,
        Some(v) => if out_ok(&v) {
            Dispatch::Response(v)
        } else if cancelled {
            Dispatch::Cancelled
        } else {
            Dispatch::Timeout
        },
    }
}

/// The line that asks the server to stop call `id` once its wait ran out.
pub open spec fn cancel_line_spec(id: u64) -> JsonV {
    crate::json::jobj(seq![("ctrl"@, JsonV::Str("cancel"@)), ("target"@, JsonV::Number(dec(id as nat)))])
}

/// The cancel line for call `id`.
pub fn cancel_line(id: u64) -> (r: Json)
    ensures
        r@ == cancel_line_spec(id),
{
    crate::json::obj2("ctrl", crate::json::jtext("cancel"), "target", crate::json::jnumber(dec_string(id as u128).as_str()))
}

/// After the cancel that followed a timeout: the call's ending, and whether the
/// server must be shut down and forgotten (it did not acknowledge, so it is stuck
/// and the next call builds a new one).
pub fn after_timeout(ack: Option<Json>, cancelled: bool) -> (r: (Dispatch, bool))
    ensures
        r.0@ == on_ack_spec(crate::protocols::opt_view(ack), cancelled),
        r.1 == ack.is_none(),
{
    let stuck = ack.is_none();
    (on_ack(ack, cancelled), stuck)
}

/// The message when the server's connection closed before the answer.
pub open spec fn server_gone_message() -> Seq<char> {
    "Node 工具服务已断开"@
}

/// The call's ending when the server's connection closed before the answer
/// (the server is then forgotten).
pub fn server_gone() -> (r: Dispatch)
    ensures
        r@ == DispatchView::Gone(server_gone_message()),
{
    Dispatch::Gone(String::from_str("Node 工具服务已断开"))
}

/// The timeout message.
pub open spec fn timeout_message(secs: u64) -> Seq<char> {
    "工具执行超时（"@ + dec(secs as nat) + " 秒）"@
}

fn timeout_message_exec(secs: u64) -> (r: String)
    ensures
        r@ == timeout_message(secs),
{
    let mut m = String::from_str("工具执行超时（");
    push_str(&mut m, dec_string(secs as u128).as_str());
    push_str(&mut m, " 秒）");
    m
}

/// The call's result from the server's ending, or `None` to fall back to the
/// one-shot mode (the connection broke and the user did not stop the call).
pub open spec fn settle_spec(d: DispatchView, cancelled: bool, secs: u64) -> Option<Result<JsonV, Seq<char>>> {
    match d {
        DispatchView::Response(v) => Some(reply_result_spec(v)),
        DispatchView::Cancelled => Some(Err("已取消"@)),
        DispatchView::Timeout => Some(Err(timeout_message(secs))),
        DispatchView::Gone(_) => if cancelled { Some(Err("已取消"@)) } else { None },
    }
}

/// The result view of an optional result.
pub open spec fn opt_result_view(r: Option<Result<Json, String>>) -> Option<Result<JsonV, Seq<char>>> {
    match r {
        Some(Ok(v)) => Some(Ok(v@)),
        Some(Err(e)) => Some(Err(e@)),
        None => None,
    }
}

/// The call's result from the server's ending.
pub fn settle(d: Dispatch, cancelled: bool, secs: u64) -> (r: Option<Result<Json, String>>)
    ensures
        opt_result_view(r) == settle_spec(d@, cancelled, secs),
{
    match d {
        Dispatch::Response(v) => Some(reply_result(v)),
        Dispatch::Cancelled => Some(Err(String::from_str("已取消"))),
        Dispatch::Timeout => Some(Err(timeout_message_exec(secs))),
        Dispatch::Gone(_) => if cancelled { Some(Err(String::from_str("已取消"))) } else { None },
    }
}

/// A failed handshake: the ping reply's error (`?` when it has none).
pub open spec fn ping_failure(v: JsonV) -> Option<Seq<char>> {
    if jat(v, "ok"@) == JsonV::Bool(true) {
        None
    } else {
        Some("ping 失败："@ + match jstr(jat(v, "error"@)) { Some(s) => s, None => "?"@ })
    }
}

/// Whether a ping reply proves the server usable, and if not why.
pub fn ping_verdict(v: &Json) -> (r: Option<String>)
    ensures
        match r {
            None => ping_failure(v@) is None,
            Some(m) => ping_failure(v@) == Some(m@),
        },
{
    if out_ok(v) {
        None
    } else {
        let mut m = String::from_str("ping 失败：");
        match v.member("error").as_str() {
            Some(s) => push_str(&mut m, s),
            None => push_str(&mut m, "?"),
        }
        Some(m)
    }
}

/// An error tagged with the candidate that gave it.
pub open spec fn with_node(e: Seq<char>, node: Seq<char>) -> Seq<char> {
    e + "（node: "@ + node + "）"@
}

/// An error tagged with the candidate that gave it.
pub fn tag_with_node(e: &str, node: &str) -> (r: String)
    ensures
        r@ == with_node(e@, node@),
{
    let mut m = String::from_str(e);
    push_str(&mut m, "（node: ");
    push_str(&mut m, node);
    push_str(&mut m, "）");
    m
}

/// A resident server is reused only while it is alive and was used recently;
/// otherwise it is shut down and forgotten.
pub fn keep_server(dead: bool, idle_too_long: bool) -> (r: bool)
    ensures
        r == (!dead && !idle_too_long),
{
    !dead && !idle_too_long
}

/// How starting one `node` candidate as the resident server went.
pub enum Start {
    /// The process did not come up within the handshake window.
    SpawnTimedOut,
    /// The task that starts it failed (its message).
    SpawnTaskFailed(String),
    /// The process could not be started (the reason).
    SpawnFailed(String),
    /// The ping could not be written in time.
    PingWriteTimedOut,
    /// The task writing the ping failed (its message).
    PingTaskFailed(String),
    /// Writing the ping failed (the reason).
    PingWriteFailed(String),
    /// No reply to the ping within the handshake window.
    PingSilent,
    /// The server exited before it replied.
    PingClosed,
    /// The reply to the ping.
    Pinged(Json),
}

/// The view of a start.
pub enum StartView {
    SpawnTimedOut,
    SpawnTaskFailed(Seq<char>),
    SpawnFailed(Seq<char>),
    PingWriteTimedOut,
    PingTaskFailed(Seq<char>),
    PingWriteFailed(Seq<char>),
    PingSilent,
    PingClosed,
    Pinged(JsonV),
}

impl View for Start {
    type V = StartView;

    open spec fn view(&self) -> StartView {
        match self {
            Start::SpawnTimedOut => StartView::SpawnTimedOut,
            Start::SpawnTaskFailed(m) => StartView::SpawnTaskFailed(m@),
            Start::SpawnFailed(m) => StartView::SpawnFailed(m@),
            Start::PingWriteTimedOut => StartView::PingWriteTimedOut,
            Start::PingTaskFailed(m) => StartView::PingTaskFailed(m@),
            Start::PingWriteFailed(m) => StartView::PingWriteFailed(m@),
            Start::PingSilent => StartView::PingSilent,
            Start::PingClosed => StartView::PingClosed,
            Start::Pinged(v) => StartView::Pinged(v@),
        }
    }
}

/// The verdict on one candidate: `Ok` keeps its server; `Err` is the error to
/// remember before the next candidate is tried (the last one is reported).
/// Errors of a started server that failed its handshake name the candidate.
pub open spec fn candidate_verdict_spec(s: StartView, node: Seq<char>) -> Result<(), Seq<char>> {
    match s {
        StartView::SpawnTimedOut => Err("Node 常驻服务启动超时"@),
        StartView::SpawnTaskFailed(m) => Err("服务启动任务错误："@ + m),
        StartView::SpawnFailed(m) => Err(m),
        StartView::PingWriteTimedOut => Err(with_node("写入 ping 超时"@, node)),
        StartView::PingTaskFailed(m) => Err(with_node("服务任务错误："@ + m, node)),
        StartView::PingWriteFailed(m) => Err(with_node(m, node)),
        StartView::PingSilent => Err(with_node("Node 常驻服务无响应（握手超时）"@, node)),
        StartView::PingClosed => Err(with_node("Node 常驻服务已退出"@, node)),
        StartView::Pinged(v) => match ping_failure(v) {
            None => Ok(()),
            Some(m) => Err(with_node(m, node)),
        },
    }
}

/// The verdict on one candidate.
pub fn candidate_verdict(s: Start, node: &str) -> (r: Result<(), String>)
    ensures
        match (r, candidate_verdict_spec(s@, node@)) {
            (Ok(()), Ok(())) => true,
            (Err(e), Err(f)) => e@ == f,
            _ => false,
        },
{
    match s {
        Start::SpawnTimedOut => Err(String::from_str("Node 常驻服务启动超时")),
        Start::SpawnTaskFailed(m) => {
            let mut e = String::from_str("服务启动任务错误：");
            push_str(&mut e, m.as_str());
            Err(e)
        },
        Start::SpawnFailed(m) => Err(m),
        Start::PingWriteTimedOut => Err(tag_with_node("写入 ping 超时", node)),
        Start::PingTaskFailed(m) => {
            let mut e = String::from_str("服务任务错误：");
            push_str(&mut e, m.as_str());
            Err(tag_with_node(e.as_str(), node))
        },
        Start::PingWriteFailed(m) => Err(tag_with_node(m.as_str(), node)),
        Start::PingSilent => Err(tag_with_node("Node 常驻服务无响应（握手超时）", node)),
        Start::PingClosed => Err(tag_with_node("Node 常驻服务已退出", node)),
        Start::Pinged(v) => match ping_verdict(&v) {
            None => Ok(()),
            Some(m) => Err(tag_with_node(m.as_str(), node)),
        },
    }
}

/// The next thing to do while acquiring the resident server.
pub enum AcquireStep {
    /// Hand out the server already in the slot.
    Reuse,
    /// Start this `node` candidate as a server and ping it.
    Spawn(String),
    /// The server just started answered its ping with `ok`: put it in the slot
    /// and hand it out.
    Install,
    /// No candidate gave a server: this error (the last candidate's).
    Fail(String),
}

/// The view of a step.
pub enum AcquireStepView {
    Reuse,
    Spawn(Seq<char>),
    Install,
    Fail(Seq<char>),
}

impl View for AcquireStep {
    type V = AcquireStepView;

    open spec fn view(&self) -> AcquireStepView {
        match self {
            AcquireStep::Reuse => AcquireStepView::Reuse,
            AcquireStep::Spawn(n) => AcquireStepView::Spawn(n@),
            AcquireStep::Install => AcquireStepView::Install,
            AcquireStep::Fail(e) => AcquireStepView::Fail(e@),
        }
    }
}

/// Acquiring the resident server: the candidates, how many were started, and
/// the last error.
pub struct Acquire {
    candidates: Vec<String>,
    next: usize,
    last_err: String,
}

/// The view of an acquisition.
pub struct AcquireView {
    pub candidates: Seq<Seq<char>>,
    pub next: nat,
    pub last_err: Seq<char>,
}

impl View for Acquire {
    type V = AcquireView;

    closed spec fn view(&self) -> AcquireView {
        AcquireView { candidates: strs(self.candidates@), next: self.next as nat, last_err: self.last_err@ }
    }
}

/// After a failure: start the next candidate, or report the last error when none is left.
pub open spec fn acquire_next(a: AcquireView) -> (AcquireView, AcquireStepView) {
    if a.next < a.candidates.len() {
        (AcquireView { next: a.next + 1, ..a }, AcquireStepView::Spawn(a.candidates[a.next as int]))
    } else {
        (a, AcquireStepView::Fail(a.last_err))
    }
}

/// The start of an acquisition, given the slot's server if any (whether it is
/// dead, whether it sat idle too long): a live, recently used server is reused
/// and nothing is started; otherwise the candidates are tried in order. The
/// flag tells whether the slot's stale server must be shut down and forgotten.
pub open spec fn acquire_begin_spec(candidates: Seq<Seq<char>>, existing: Option<(bool, bool)>)
    -> (AcquireView, AcquireStepView, bool)
{
    let a = AcquireView { candidates, next: 0, last_err: Seq::<char>::empty() };
    match existing {
        Some((dead, idle)) => if !dead && !idle {
            (a, AcquireStepView::Reuse, false)
        } else {
            (acquire_next(a).0, acquire_next(a).1, true)
        },
        None => (acquire_next(a).0, acquire_next(a).1, false),
    }
}

/// The candidate started last.
pub open spec fn current_candidate(a: AcquireView) -> Seq<char> {
    if 1 <= a.next <= a.candidates.len() { a.candidates[a.next - 1] } else { Seq::<char>::empty() }
}

/// Whether a start got as far as a running server.
pub open spec fn started(s: StartView) -> bool {
    !(s is SpawnTimedOut || s is SpawnTaskFailed || s is SpawnFailed)
}

/// After the candidate started last: its server is installed when the verdict
/// keeps it; otherwise its error becomes the last error and the next candidate
/// is tried. The flag tells whether its (started) server must be shut down.
pub open spec fn acquire_feed_spec(a: AcquireView, s: StartView) -> (AcquireView, AcquireStepView, bool) {
    match candidate_verdict_spec(s, current_candidate(a)) {
        Ok(()) => (a, AcquireStepView::Install, false),
        Err(e) => {
            let b = AcquireView { last_err: e, ..a };
            (acquire_next(b).0, acquire_next(b).1, started(s))
        },
    }
}

impl Acquire {
    /// Begins acquiring, given the slot's server as (dead, idle too long) if any.
    pub fn begin(candidates: Vec<String>, existing: Option<(bool, bool)>) -> (r: (Acquire, AcquireStep, bool))
        ensures
            (r.0@, r.1@, r.2) == acquire_begin_spec(strs(candidates@), existing),
    {
        let a = Acquire { candidates, next: 0, last_err: String::new() };
        match existing {
            Some((dead, idle)) => if keep_server(dead, idle) {
                (a, AcquireStep::Reuse, false)
            } else {
                let (b, st) = a.advance();
                (b, st, true)
            },
            None => {
                let (b, st) = a.advance();
                (b, st, false)
            },
        }
    }

    fn advance(self) -> (r: (Acquire, AcquireStep))
        ensures
            (r.0@, r.1@) == acquire_next(self@),
    {
        if self.next < self.candidates.len() {
            let n = self.candidates[self.next].clone();
            let next = self.next + 1;
            (Acquire { candidates: self.candidates, next, last_err: self.last_err }, AcquireStep::Spawn(n))
        } else {
            let e = self.last_err.clone();
            (self, AcquireStep::Fail(e))
        }
    }

    /// Takes in how starting the candidate of the last `Spawn` went.
    pub fn feed(self, s: Start) -> (r: (Acquire, AcquireStep, bool))
        ensures
            (r.0@, r.1@, r.2) == acquire_feed_spec(self@, s@),
    {
        let ghost sv = s@;
        let was_started = !matches!(s, Start::SpawnTimedOut | Start::SpawnTaskFailed(_) | Start::SpawnFailed(_));
        let node: String = if 1 <= self.next && self.next <= self.candidates.len() {
            self.candidates[self.next - 1].clone()
        } else {
            String::new()
        };
        match candidate_verdict(s, node.as_str()) {
            Ok(()) => (self, AcquireStep::Install, false),
            Err(e) => {
                let b = Acquire { candidates: self.candidates, next: self.next, last_err: e };
                let (c, st) = b.advance();
                (c, st, was_started)
            },
        }
    }
}

/// The server slot only ever receives a server that answered its ping with
/// `ok: true`: no acquisition installs one on any other outcome, and beginning
/// one never installs.
pub proof fn law_slot_holds_pinged_server(
    candidates: Seq<Seq<char>>,
    existing: Option<(bool, bool)>,
    a: AcquireView,
    s: StartView,
)
    ensures
        !(acquire_begin_spec(candidates, existing).1 is Install),
        acquire_feed_spec(a, s).1 is Install ==> (s matches StartView::Pinged(v) && jat(v, "ok"@) == JsonV::Bool(true)),
{
}

/// An acquisition reuses the slot's server exactly when it is alive and was used
/// recently, and then starts nothing; when the last candidate fails, the
/// acquisition fails with that candidate's error.
pub proof fn law_acquire_reuse_and_last_error(
    candidates: Seq<Seq<char>>,
    existing: Option<(bool, bool)>,
    a: AcquireView,
    s: StartView,
)
    requires
        a.next == a.candidates.len(),
        1 <= a.next,
    ensures
        (acquire_begin_spec(candidates, existing).1 is Reuse) <==> (existing matches Some((d, i)) && !d && !i),
        candidate_verdict_spec(s, a.candidates.last()) matches Err(e)
            ==> acquire_feed_spec(a, s).1 == AcquireStepView::Fail(e),
{
}

// ---------- the one-shot fallback ----------

/// How one one-shot run ended.
pub enum RunOutcome {
    /// Out of time: the candidate was working, so no other is tried.
    TimedOut,
    /// The task running it failed.
    TaskError(String),
    /// The candidate could not start or crashed.
    Failed(String),
    /// The runtime answered.
    Finished(Json),
}

/// What comes after one run: the call's result, or the next candidate with the
/// error kept for the final report.
pub enum RunStep {
    Done(Result<Json, String>),
    Next(String),
}

/// The step after one run.
pub open spec fn run_step_spec(o: RunOutcome, cancelled: bool, node: Seq<char>, secs: u64) -> Result<Result<JsonV, Seq<char>>, Seq<char>> {
    match o {
        RunOutcome::TimedOut => Ok(Err(timeout_message(secs))),
        RunOutcome::TaskError(e) => Ok(Err("任务错误："@ + e@)),
        RunOutcome::Failed(e) => if cancelled { Ok(Err("已取消"@)) } else { Err(with_node(e@, node)) },
        RunOutcome::Finished(v) => Ok(reply_result_spec(v@)),
    }
}

/// The step after one run (`Next` carries the error to remember).
pub fn run_step(o: RunOutcome, cancelled: bool, node: &str, secs: u64) -> (r: RunStep)
    ensures
        match r {
            RunStep::Done(Ok(v)) => run_step_spec(o, cancelled, node@, secs) == Ok::<Result<JsonV, Seq<char>>, Seq<char>>(Ok(v@)),
            RunStep::Done(Err(e)) => run_step_spec(o, cancelled, node@, secs) == Ok::<Result<JsonV, Seq<char>>, Seq<char>>(Err(e@)),
            RunStep::Next(e) => run_step_spec(o, cancelled, node@, secs) == Err::<Result<JsonV, Seq<char>>, Seq<char>>(e@),
        },
{
    match o {
        RunOutcome::TimedOut => RunStep::Done(Err(timeout_message_exec(secs))),
        RunOutcome::TaskError(e) => {
            let mut m = String::from_str("任务错误：");
            push_str(&mut m, e.as_str());
            RunStep::Done(Err(m))
        },
        RunOutcome::Failed(e) => if cancelled {
            RunStep::Done(Err(String::from_str("已取消")))
        } else {
            RunStep::Next(tag_with_node(e.as_str(), node))
        },
        RunOutcome::Finished(v) => RunStep::Done(reply_result(v)),
    }
}

/// The report when every candidate failed: a hint for the known Node 22.20.x
/// entry-resolution bug (`EISDIR`), else the last error.
pub open spec fn exhausted_spec(last: Seq<char>) -> Seq<char> {
    if contains_text(last, "EISDIR"@) {
        "Node 启动失败（EISDIR，疑似 Node 22.20.x 的 Windows 入口解析 bug，见 nodejs/node#60435）。请升级 Node，或设置环境变量 QS_NODE_PATH 指向正常的 node.exe 后重启应用。原始错误："@ + last
    } else {
        last
    }
}

/// The report when every candidate failed.
pub fn exhausted(last: &str) -> (r: String)
    ensures
        r@ == exhausted_spec(last@),
{
    if text_contains(last, "EISDIR") {
        let mut m = String::from_str(
            "Node 启动失败（EISDIR，疑似 Node 22.20.x 的 Windows 入口解析 bug，见 nodejs/node#60435）。请升级 Node，或设置环境变量 QS_NODE_PATH 指向正常的 node.exe 后重启应用。原始错误：",
        );
        push_str(&mut m, last);
        m
    } else {
        String::from_str(last)
    }
}

/// The first line of a text, without a trailing carriage return (`str::lines`).
pub open spec fn first_line(s: Seq<char>) -> Seq<char> {
    let l = crate::text::split_seq(s, '\n')[0];
    if l.len() > 0 && l.last() == '\r' { l.drop_last() } else { l }
}

/// The one-shot runtime's output: the first line of its trimmed standard output
/// (the JSON reply), or, when it printed nothing, the exit code and its trimmed
/// standard error (`code` is the exit code's debug text, as `Some(1)` or `None`).
pub open spec fn exchange_spec(out: Seq<char>, err: Seq<char>, code: Seq<char>) -> Result<Seq<char>, Seq<char>> {
    let t = trim_spec(out);
    if t.len() == 0 {
        Err("Node 工具无输出（exit "@ + code + "）："@ + truncate_spec(trim_spec(err), 600))
    } else {
        Ok(first_line(t))
    }
}

/// The one-shot runtime's output read.
pub fn exchange_result(out: &str, err: &str, code: &str) -> (r: Result<String, String>)
    ensures
        match r {
            Ok(l) => exchange_spec(out@, err@, code@) == Ok::<Seq<char>, Seq<char>>(l@),
            Err(e) => exchange_spec(out@, err@, code@) == Err::<Seq<char>, Seq<char>>(e@),
        },
{
    let t = crate::text::trim_chars(&chars_of(out));
    if t.len() == 0 {
        let e = string_of(&crate::text::trim_chars(&chars_of(err)));
        let mut m = String::from_str("Node 工具无输出（exit ");
        push_str(&mut m, code);
        push_str(&mut m, "）：");
        push_str(&mut m, truncate_str(e.as_str(), 600).as_str());
        return Err(m);
    }
    let parts = crate::text::split_chars(&t, '\n');
    proof { crate::text::lemma_split_nonempty(t@, '\n'); }
    let first = &parts[0];
    assert(first@ == crate::text::split_seq(t@, '\n')[0]);
    if first.len() > 0 && first[first.len() - 1] == '\r' {
        let c = crate::text::copy_range(first, 0, first.len() - 1);
        assert(c@ =~= first@.drop_last());
        Ok(string_of(&c))
    } else {
        Ok(string_of(first))
    }
}

/// The message when the reply line is not JSON (`e` is the parser's message).
pub fn parse_failure(e: &str, line: &str) -> (r: String)
    ensures
        r@ == "Node 工具响应解析失败："@ + e@ + "："@ + truncate_spec(line@, 200),
{
    let mut m = String::from_str("Node 工具响应解析失败：");
    push_str(&mut m, e);
    push_str(&mut m, "：");
    push_str(&mut m, truncate_str(line, 200).as_str());
    m
}

/// The message when the reply line is not JSON (`e` is the parser's message).
pub open spec fn parse_failure_spec(e: Seq<char>, line: Seq<char>) -> Seq<char> {
    "Node 工具响应解析失败："@ + e + "："@ + truncate_spec(line, 200)
}

/// The one-shot runtime's reply: its first output line read as JSON, or the
/// error for no output or for a line that is not JSON.
pub open spec fn one_shot_reply_spec(out: Seq<char>, err: Seq<char>, code: Seq<char>) -> Result<JsonV, Seq<char>> {
    match exchange_spec(out, err, code) {
        Err(e) => Err(e),
        Ok(l) => match crate::json::json_parse(l) {
            Some(v) => Ok(v),
            None => Err(parse_failure_spec(crate::json::json_parse_error(l), l)),
        },
    }
}

/// The one-shot runtime's reply, from its output, error output and exit code text.
pub fn one_shot_reply(out: &str, err: &str, code: &str) -> (r: Result<Json, String>)
    ensures
        match (r, one_shot_reply_spec(out@, err@, code@)) {
            (Ok(j), Ok(v)) => j@ == v,
            (Err(e), Err(f)) => e@ == f,
            _ => false,
        },
{
    let first = match exchange_result(out, err, code) {
        Ok(l) => l,
        Err(e) => return Err(e),
    };
    match crate::json::parse_json_or_error(first.as_str()) {
        Ok(j) => Ok(j),
        Err(e) => Err(parse_failure(e.as_str(), first.as_str())),
    }
}

/// A reply line of the resident server: the request id it answers and its value,
/// when the trimmed line is JSON with an unsigned integer `id`; other lines are
/// skipped.
pub open spec fn reply_line_spec(line: Seq<char>) -> Option<(u64, JsonV)> {
    match crate::json::json_parse(trim_spec(line)) {
        Some(v) => match crate::json::jnum_u64(jat(v, "id"@)) {
            Some(id) => Some((id, v)),
            None => None,
        },
        None => None,
    }
}

/// Reads a reply line of the resident server.
pub fn reply_line(line: &str) -> (r: Option<(u64, Json)>)
    ensures
        match (r, reply_line_spec(line@)) {
            (None, None) => true,
            (Some((i, j)), Some((k, v))) => i == k && j@ == v,
            _ => false,
        },
{
    let t = crate::text::trim(line);
    match crate::json::parse_json(t.as_str()) {
        Some(v) => match reply_id(&v) {
            Some(id) => Some((id, v)),
            None => None,
        },
        None => None,
    }
}

// ---------- node candidates ----------

/// Two texts equal up to ASCII case.
pub open spec fn eq_ignore_ascii_case(a: Seq<char>, b: Seq<char>) -> bool {
    ascii_lower_seq(a) == ascii_lower_seq(b)
}

fn eq_ignore_case_exec(a: &str, b: &[char]) -> (r: bool)
    ensures
        r == eq_ignore_ascii_case(a@, b@),
{
    let x = ascii_lower_chars(&chars_of(a));
    let y = ascii_lower_chars(b);
    crate::text::chars_eq(&x, &y)
}

/// The list after offering one candidate path: kept (trimmed) when it is not
/// blank, not already listed up to ASCII case, and a file.
pub open spec fn offer_spec(list: Seq<Seq<char>>, p: Seq<char>, is_file: bool) -> Seq<Seq<char>> {
    let t = trim_spec(p);
    if t.len() > 0 && !(exists|i: int| 0 <= i < list.len() && eq_ignore_ascii_case(#[trigger] list[i], t)) && is_file {
        list.push(t)
    } else {
        list
    }
}

/// Offers one candidate path (`is_file`: whether the trimmed path is a file).
pub fn offer_candidate(list: &mut Vec<String>, p: &str, is_file: bool)
    ensures
        strs(final(list)@) == offer_spec(strs(old(list)@), p@, is_file),
{
    let t = crate::text::trim_chars(&chars_of(p));
    if t.len() == 0 || !is_file {
        return;
    }
    let ghost s = strs(list@);
    let mut i: usize = 0;
    while i < list.len()
        invariant
            i <= list@.len(),
            s == strs(list@),
            list@ == old(list)@,
            t@ == trim_spec(p@),
            t@.len() > 0,
            is_file,
            forall|k: int| 0 <= k < i ==> !eq_ignore_ascii_case(#[trigger] s[k], t@),
        decreases list@.len() - i,
    {
        if eq_ignore_case_exec(list[i].as_str(), &t) {
            assert(s[i as int] == list@[i as int]@);
            assert(eq_ignore_ascii_case(s[i as int], t@));
            assert(exists|j: int| 0 <= j < s.len() && eq_ignore_ascii_case(#[trigger] s[j], t@));
            return;
        }
        i += 1;
    }
    assert(!(exists|j: int| 0 <= j < s.len() && eq_ignore_ascii_case(#[trigger] s[j], t@)));
    let ghost before = list@;
    list.push(string_of(&t));
    assert(strs(list@) =~= strs(before).push(t@));
}

/// The cached candidate list: collected once (looking `node` up is itself a
/// process on some systems), dropped when every candidate failed so that a
/// changed `PATH` or `QS_NODE_PATH` is seen without a restart.
pub struct CandidateCache {
    pub list: Option<Vec<String>>,
}

impl CandidateCache {
    /// The cached list, if there is one (none: collect and `store`).
    pub fn node_candidates(&self) -> (r: Option<Vec<String>>)
        ensures
            match r {
                Some(v) => self.list matches Some(l) && strs(v@) == strs(l@),
                None => self.list is None,
            },
    {
        match &self.list {
            Some(l) => {
                let mut v: Vec<String> = Vec::new();
                let mut i: usize = 0;
                while i < l.len()
                    invariant
                        i <= l@.len(),
                        strs(v@) == strs(l@).take(i as int),
                    decreases l@.len() - i,
                {
                    let ghost before = v@;
                    v.push(l[i].clone());
                    assert(strs(v@) =~= strs(before).push(l@[i as int]@));
                    assert(strs(l@).take(i + 1) =~= strs(l@).take(i as int).push(l@[i as int]@));
                    assert(strs(v@) =~= strs(l@).take(i + 1));
                    i += 1;
                }
                assert(strs(l@).take(l@.len() as int) =~= strs(l@));
                Some(v)
            },
            None => None,
        }
    }

    /// Keeps a freshly collected list.
    pub fn store(&mut self, v: Vec<String>)
        ensures
            final(self).list == Some(v),
    {
        self.list = Some(v);
    }

    /// Drops the list.
    pub fn invalidate_node_candidates(&mut self)
        ensures
            final(self).list is None,
    {
        self.list = None;
    }
}

// ---------- paths ----------

/// A canonical path without the Windows verbatim prefix (all its repetitions).
pub open spec fn strip_verbatim_all(p: Seq<char>) -> Seq<char>
    decreases p.len(),
{
    if p.len() >= 4 && p.take(4) == crate::sandbox::verbatim_prefix() {
        strip_verbatim_all(p.skip(4))
    } else {
        p
    }
}

/// The script path handed to Node: canonical without the verbatim prefix when it
/// could be canonicalized (`canonical`), else as it was.
pub fn normalize_path(p: &str, canonical: Option<&str>) -> (r: String)
    ensures
        r@ == match canonical {
            Some(c) => strip_verbatim_all(c@),
            None => p@,
        },
{
    match canonical {
        Some(c) => {
            let v = chars_of(c);
            let pre: [char; 4] = ['\\', '\\', '?', '\\'];
            assert(pre@ =~= crate::sandbox::verbatim_prefix());
            let mut i: usize = 0;
            assert(v@.skip(0) =~= v@);
            while v.len() - i >= 4 && v[i] == '\\' && v[i + 1] == '\\' && v[i + 2] == '?' && v[i + 3] == '\\'
                invariant
                    i <= v@.len(),
                    strip_verbatim_all(v@) == strip_verbatim_all(v@.skip(i as int)),
                decreases v@.len() - i,
            {
                assert(v@.skip(i as int).take(4) =~= crate::sandbox::verbatim_prefix());
                assert(v@.skip(i as int).skip(4) =~= v@.skip(i + 4));
                i += 4;
            }
            let rest = crate::text::copy_range(&v, i, v.len());
            assert(rest@ =~= v@.skip(i as int));
            proof {
                let s = v@.skip(i as int);
                if s.len() >= 4 {
                    assert(s.take(4) != crate::sandbox::verbatim_prefix()) by {
                        if s.take(4) == crate::sandbox::verbatim_prefix() {
                            assert(s[0] == s.take(4)[0]);
                            assert(s[1] == s.take(4)[1]);
                            assert(s[2] == s.take(4)[2]);
                            assert(s[3] == s.take(4)[3]);
                        }
                    }
                }
            }
            string_of(&rest)
        },
        None => String::from_str(p),
    }
}

/// The last `max` characters of the runtime's error output (kept for reports).
pub open spec fn keep_tail_spec(s: Seq<char>, max: nat) -> Seq<char> {
    if s.len() > max { s.skip(s.len() - max) } else { s }
}

/// Appends to the error-output log and keeps its last `max` characters.
pub fn append_log(log: &mut String, piece: &str, max: usize)
    ensures
        final(log)@ == keep_tail_spec(old(log)@ + piece@, max as nat),
{
    push_str(log, piece);
    let v = chars_of(log.as_str());
    if v.len() > max {
        let t = crate::text::copy_range(&v, v.len() - max, v.len());
        assert(t@ =~= v@.skip(v@.len() - max));
        *log = string_of(&t);
    }
}

} // verus!
