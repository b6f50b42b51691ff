use qwen_studio::node::{one_shot_reply, reply_line, EngineChoice};
use qwen_studio::node::{Acquire, AcquireStep};
use qwen_studio::node::{candidate_verdict, keep_server, Start};
use qwen_studio::models::model_status;
use qwen_studio::files::{command_result, CmdRun};
use qwen_studio::json::{jarray_of, jbool, jnumber, jtext, obj1, obj2, Json};
use qwen_studio::state::{truncate_str, CancelRegistry, ToolCancel};
use qwen_studio::node::{
    append_log, engine_from, exchange_result, exhausted, is_cancelled_resp, normalize_path, offer_candidate, on_ack,
    on_reply, out_ok, ping_verdict, reply_result, route, run_step, settle, tag_with_node, timeout_secs,
    CandidateCache, Dispatch, Engine, Route, RunOutcome, RunStep,
};
use qwen_studio::models::{model_ids, model_list_form, url_encode};
use qwen_studio::files::{
    command_output, command_text, delete_message, list_dir, platform, read_plan, shell_invocation, whole_text,
    write_message, xft_dpi_values, FileRow, ReadPlan,
};
use qwen_studio::sandbox::{resolve_in_workspace, Answer, Probe, Step};
use qwen_studio::workspace::{canonicalize_or_self, resolve_target};
use qwen_studio::write::{apply_hunks, edit_file, patch_file, plan_patch, write_content, write_summary};
use qwen_studio::text::{pad_start, utf16_len, utf16_truncate};

#[test]
fn truncation_note() {
    assert_eq!(truncate_str("abc", 3), "abc");
    assert_eq!(truncate_str("abcd", 2), "ab\n…（已截断）");
    assert_eq!(truncate_str("中文字", 1), "中\n…（已截断）");
}

#[test]
fn tool_cancel_generation() {
    let mut t = ToolCancel::new();
    let snap = t.tool_cancel_gen();
    assert!(!t.was_tool_cancelled(snap));
    t.cancel();
    assert!(t.was_tool_cancelled(snap));
    let mut w = ToolCancel { generation: u64::MAX };
    let s = w.tool_cancel_gen();
    w.cancel();
    assert!(w.was_tool_cancelled(s));
}

#[test]
fn stream_cancel_registry() {
    let mut r = CancelRegistry::new();
    r.register_cancel("r1");
    assert!(r.chat_cancel("r1"));
    assert!(!r.chat_cancel("r2"));
    assert!(r.take_cancelled("r1"));
    assert!(!r.take_cancelled("r1"));
    r.unregister_cancel("r2");
    assert!(!r.take_cancelled("r2"));
    r.unregister_cancel("r1");
    assert!(!r.chat_cancel("r1"));
}

#[test]
fn engine_and_routes() {
    assert!(engine_from(" RUST ") == Engine::Rust);
    assert!(engine_from("native") == Engine::Rust);
    assert!(engine_from("Auto") == Engine::Auto);
    assert!(engine_from("") == Engine::Node);
    assert!(matches!(route(Engine::Node, "read"), Route::Node));
    assert!(matches!(route(Engine::Auto, "read"), Route::Native));
    assert!(matches!(route(Engine::Auto, "bash"), Route::Node));
    match route(Engine::Rust, "bash") {
        Route::Refused(m) => assert!(m.starts_with("工具 bash 尚未移植")),
        _ => panic!("should refuse"),
    }
    assert_eq!(timeout_secs("bash"), 200);
    assert_eq!(timeout_secs("read"), 60);
}

#[test]
fn replies_and_endings() {
    let ok = obj2("ok", jbool(true), "result", jtext("x"));
    let cancelled = obj2("ok", jbool(false), "error", jtext("已被用户停止"));
    assert!(out_ok(&ok));
    assert!(!out_ok(&cancelled));
    assert!(is_cancelled_resp(&cancelled));
    assert_eq!(reply_result(cancelled.deep_clone()).unwrap_err(), "已被用户停止");
    assert_eq!(reply_result(obj1("ok", jbool(false))).unwrap_err(), "工具执行失败");
    assert!(matches!(on_reply(cancelled.deep_clone(), true), Dispatch::Cancelled));
    assert!(matches!(on_reply(cancelled.deep_clone(), false), Dispatch::Response(_)));
    assert!(matches!(on_ack(None, true), Dispatch::Timeout));
    assert!(matches!(on_ack(Some(ok.deep_clone()), false), Dispatch::Response(_)));
    assert!(matches!(on_ack(Some(cancelled.deep_clone()), false), Dispatch::Timeout));
    assert!(matches!(on_ack(Some(cancelled.deep_clone()), true), Dispatch::Cancelled));
    assert_eq!(settle(Dispatch::Timeout, false, 60).unwrap().unwrap_err(), "工具执行超时（60 秒）");
    assert!(settle(Dispatch::Gone("x".to_string()), false, 60).is_none());
    assert_eq!(settle(Dispatch::Gone("x".to_string()), true, 60).unwrap().unwrap_err(), "已取消");
    assert_eq!(ping_verdict(&obj1("error", jtext("bad"))), Some("ping 失败：bad".to_string()));
    assert_eq!(ping_verdict(&ok), None);
}

#[test]
fn one_shot_steps() {
    assert!(matches!(run_step(RunOutcome::Failed("EISDIR".to_string()), false, "/n", 60), RunStep::Next(ref e) if e == "EISDIR（node: /n）"));
    assert!(matches!(run_step(RunOutcome::Failed("x".to_string()), true, "/n", 60), RunStep::Done(Err(ref e)) if e == "已取消"));
    assert!(matches!(run_step(RunOutcome::TaskError("j".to_string()), false, "/n", 60), RunStep::Done(Err(ref e)) if e == "任务错误：j"));
    assert!(exhausted("spawn EISDIR").starts_with("Node 启动失败（EISDIR"));
    assert_eq!(exhausted("other"), "other");
    assert_eq!(tag_with_node("e", "n"), "e（node: n）");
    assert_eq!(exchange_result("  {\"ok\":true}\r\nmore", "", "Some(0)").unwrap(), "{\"ok\":true}");
    assert_eq!(exchange_result(" \n", " boom ", "Some(1)").unwrap_err(), "Node 工具无输出（exit Some(1)）：boom");
}

#[test]
fn node_candidates_and_paths() {
    let mut list = Vec::new();
    offer_candidate(&mut list, " /usr/bin/node ", true);
    offer_candidate(&mut list, "/USR/BIN/NODE", true);
    offer_candidate(&mut list, "/opt/node", false);
    offer_candidate(&mut list, "  ", true);
    assert_eq!(list, vec!["/usr/bin/node".to_string()]);
    let mut cache = CandidateCache { list: None };
    assert!(cache.node_candidates().is_none());
    cache.store(list.clone());
    assert_eq!(cache.node_candidates(), Some(list));
    cache.invalidate_node_candidates();
    assert!(cache.node_candidates().is_none());
    assert_eq!(normalize_path("x", Some("\\\\?\\C:\\a")), "C:\\a");
    assert_eq!(normalize_path("x", None), "x");
    let mut log = String::from("abc");
    append_log(&mut log, "defg", 5);
    assert_eq!(log, "cdefg");
}

#[test]
fn form_encoding() {
    assert_eq!(url_encode("a b~中"), "a%20b~%E4%B8%AD");
    assert_eq!(model_list_form("{}"), "product=sfm_bailian&action=BroadScopeAspnGateway&region=cn-beijing&params=%7B%7D");
}

#[test]
fn model_list_reading() {
    let list = jarray_of(vec![jtext("qwen-max"), jnumber("3"), jtext("qwen-plus")]);
    let v = obj1("data", obj1("DataV2", obj1("data", obj1("data", list))));
    assert_eq!(model_ids(&v, "...").unwrap(), vec!["qwen-max".to_string(), "qwen-plus".to_string()]);
    let empty = obj1("data", obj1("DataV2", obj1("data", obj1("data", jarray_of(vec![])))));
    assert_eq!(model_ids(&empty, "...").unwrap_err(), "接口返回的模型列表为空");
    assert_eq!(model_ids(&Json::Null, "null").unwrap_err(), "接口返回结构异常：null");
}

#[test]
fn panel_listing_is_stable() {
    let row = |name: &str, is_dir: bool| FileRow { name: name.to_string(), path: name.to_string(), is_dir, size: 0, pos: 0 };
    let rows = vec![row("b", false), row("A", true), row("B", false), row(".x", false), row("dist", true), row("a", false)];
    let out: Vec<String> = list_dir(&rows, false).into_iter().map(|r| r.name).collect();
    assert_eq!(out, vec!["A", "a", "b", "B"]);
    let all: Vec<String> = list_dir(&rows, true).into_iter().map(|r| r.name).collect();
    assert_eq!(all, vec!["A", "dist", ".x", "a", "b", "B"]);
}

#[test]
fn file_read_plans() {
    assert!(matches!(read_plan(true, 1, None), ReadPlan::Refuse(ref m) if m == "这是一个目录，不是文件"));
    assert!(matches!(read_plan(false, 5000, Some(100)), ReadPlan::Head(100)));
    assert!(matches!(read_plan(false, 600000, None), ReadPlan::Refuse(ref m) if m == "文件过大（600000 字节，上限 512KB）"));
    assert!(matches!(read_plan(false, 50, Some(100)), ReadPlan::Whole));
    assert!(matches!(read_plan(false, 50, Some(0)), ReadPlan::Whole));
    assert_eq!(whole_text(b"PK\x03\x04rest").unwrap_err(), "二进制文件（压缩包），无法以文本读取");
    assert_eq!(whole_text(b"a\0b\0c\0").unwrap_err(), "二进制文件，无法以文本读取");
    assert_eq!(whole_text(b"a\0b\0c").unwrap(), "a\0b\0c");
}

#[test]
fn file_command_texts() {
    assert_eq!(write_message("héllo", "/w", "/w/a.txt"), "已写入 6 字节 → a.txt");
    assert_eq!(delete_message(true, "/w", "/w/d"), "已删除目录 d");
    assert_eq!(delete_message(false, "/w", "/other/f"), "已删除文件 /other/f");
    assert_eq!(platform("macos"), ("sh".to_string(), "macOS".to_string()));
    assert_eq!(platform("freebsd"), ("sh".to_string(), "freebsd".to_string()));
    assert_eq!(command_text("  ls  ").unwrap(), "ls");
    assert_eq!(command_text("   ").unwrap_err(), "命令为空");
    assert_eq!(shell_invocation("dir", true), ("cmd".to_string(), vec!["/C".to_string(), "chcp 65001 >nul & dir".to_string()]));
    assert_eq!(shell_invocation("ls", false).1, vec!["-c".to_string(), "ls".to_string()]);
    let o = command_output(b"out", b"err", None);
    assert_eq!((o.stdout.as_str(), o.stderr.as_str(), o.code), ("out", "err", -1));
    assert_eq!(xft_dpi_values("Xft.antialias:\t1\nXft.dpi:\t144\r\n"), vec!["144".to_string()]);
}

#[test]
fn sandbox_walk_accepts_inside_paths() {
    let (mut w, s) = resolve_in_workspace("/home/u", "proj", "src/./x", false);
    assert!(matches!(s, Step::Ask(Probe::RealPath(ref p)) if p == "/home/u/proj"));
    let mut step = w.feed(Answer::Found("/home/u/proj".to_string()));
    let mut guard = 0;
    let result = loop {
        guard += 1;
        assert!(guard < 20);
        match step {
            Step::Done(r) => break r,
            Step::Ask(Probe::RealPath(p)) => step = w.feed(Answer::Found(p)),
            Step::Ask(Probe::IsSymlink(_)) => step = w.feed(Answer::Flag(false)),
            Step::Ask(Probe::Exists(_)) => step = w.feed(Answer::Flag(true)),
            Step::Ask(Probe::IsDir(_)) => step = w.feed(Answer::Flag(true)),
        }
    };
    let r = result.unwrap();
    assert_eq!(r.root, "/home/u/proj");
    assert_eq!(r.target, "/home/u/proj/src/x");
    let (mut w, _) = resolve_in_workspace("/home/u", "proj", "src/../x", false);
    let s = w.feed(Answer::Found("/home/u/proj".to_string()));
    let s = match s {
        Step::Ask(Probe::RealPath(p)) => w.feed(Answer::Found(p)),
        other => other,
    };
    assert!(matches!(s, Step::Done(Err(ref e)) if e == "不允许访问工作目录之外的路径"));
    let (mut w, _) = resolve_in_workspace("/", "/ws", "/etc/passwd", false);
    match w.feed(Answer::Found("/ws".to_string())) {
        Step::Done(Err(e)) => assert_eq!(e, "只允许使用相对工作目录的路径"),
        _ => panic!("absolute paths are refused"),
    }
}

#[test]
fn workspace_check_refuses_outside_links() {
    let (mut w, s) = resolve_target("/ws", Some("a"));
    assert!(matches!(s, Step::Ask(Probe::IsDir(ref p)) if p == "/ws"));
    let s = w.feed(Answer::Flag(true));
    assert!(matches!(s, Step::Ask(Probe::RealPath(_))));
    let mut s = w.feed(Answer::Found("/ws".to_string()));
    if let Step::Ask(Probe::RealPath(_)) = s {
        s = w.feed(Answer::Found("/etc".to_string()));
    }
    match s {
        Step::Done(Err(e)) => assert!(e.contains("符号链接 a")),
        _ => panic!("a link out of the workspace is refused"),
    }
    assert_eq!(canonicalize_or_self("/a/../b", Some("/b")), "/b");
    assert_eq!(canonicalize_or_self("/new", None), "/new");
}

#[test]
fn edits_and_patches() {
    let (t, m) = edit_file("a.txt", "one\ntwo\n", "two", "2\n2").unwrap();
    assert_eq!(t, "one\n2\n2\n");
    assert_eq!(m, "已修改 a.txt：替换 1 行 → 2 行");
    assert_eq!(edit_file("a.txt", "x x", "x", "y").unwrap_err(), "oldString 在文件中出现多次，请扩大范围使其唯一（可包含更多上下文行）");
    assert_eq!(edit_file("a.txt", "x", "", "y").unwrap_err(), "oldString 不能为空");
    let hunks = plan_patch("--- a\n+++ b\n@@ -1,2 +1,2 @@\n one\n-two\n+2\n").unwrap();
    let (t, m) = patch_file("a.txt", "one\ntwo", &hunks).unwrap();
    assert_eq!(t, "one\n2");
    assert_eq!(m, "已应用补丁 a.txt（1 个 hunk，修改）");
    assert!(apply_hunks("zzz", &hunks).unwrap_err().starts_with("补丁无法应用：第 1 行附近"));
    assert_eq!(plan_patch("no hunks").unwrap_err(), "未解析到有效的 @@ hunk，请提供标准 unified diff");
    assert_eq!(write_summary("f", "a😀\nb"), "已写入 f（5 字符，2 行）");
    assert_eq!(write_content(&obj1("content", jnumber("12"))), "12");
    assert_eq!(write_content(&obj1("other", jtext("x"))), "");
}

#[test]
fn utf16_measures() {
    assert_eq!(utf16_len("a😀"), 3);
    assert_eq!(utf16_truncate("a😀b", 2), "a");
    assert_eq!(pad_start("😀", 4), "  😀");
}

#[test]
fn root_with_trailing_slash_contains_its_children() {
    assert!(qwen_studio::sandbox::is_under("/", "/a", false));
    assert!(qwen_studio::sandbox::is_under("/w/", "/w/a", false));
    assert!(qwen_studio::sandbox::is_under("/w", "/w", false));
    assert!(qwen_studio::sandbox::is_under("/w", "/w/x", false));
    assert!(!qwen_studio::sandbox::is_under("/w", "/wx", false));
    assert!(qwen_studio::workspace::under("C:\\", "c:\\a"));
    assert!(!qwen_studio::workspace::under("/w", "/wx"));
}

#[test]
fn timeout_sends_cancel_and_drops_a_silent_server() {
    let line = qwen_studio::node::cancel_line(42);
    assert_eq!(write_content(&obj1("content", line)), "{\"ctrl\":\"cancel\",\"target\":42}");
    let (d, stuck) = qwen_studio::node::after_timeout(None, false);
    assert!(matches!(d, Dispatch::Timeout) && stuck);
    let (d, stuck) = qwen_studio::node::after_timeout(Some(obj1("ok", jbool(false))), true);
    assert!(matches!(d, Dispatch::Cancelled) && !stuck);
    let (d, stuck) = qwen_studio::node::after_timeout(Some(obj1("ok", jbool(true))), true);
    assert!(matches!(d, Dispatch::Response(_)) && !stuck);
    assert!(matches!(qwen_studio::node::server_gone(), Dispatch::Gone(m) if m == "Node 工具服务已断开"));
}

#[test]
fn resident_server_reuse_and_candidate_verdicts() {
    assert!(keep_server(false, false));
    assert!(!keep_server(true, false));
    assert!(!keep_server(false, true));
    assert_eq!(candidate_verdict(Start::SpawnTimedOut, "node"), Err("Node 常驻服务启动超时".to_string()));
    assert_eq!(candidate_verdict(Start::SpawnFailed("no such file".into()), "node"), Err("no such file".to_string()));
    assert_eq!(candidate_verdict(Start::SpawnTaskFailed("panic".into()), "n"), Err("服务启动任务错误：panic".to_string()));
    assert_eq!(candidate_verdict(Start::PingSilent, "/usr/bin/node"),
        Err("Node 常驻服务无响应（握手超时）（node: /usr/bin/node）".to_string()));
    assert_eq!(candidate_verdict(Start::PingClosed, "n"), Err("Node 常驻服务已退出（node: n）".to_string()));
    assert_eq!(candidate_verdict(Start::PingWriteTimedOut, "n"), Err("写入 ping 超时（node: n）".to_string()));
    assert_eq!(candidate_verdict(Start::PingTaskFailed("x".into()), "n"), Err("服务任务错误：x（node: n）".to_string()));
    assert_eq!(candidate_verdict(Start::PingWriteFailed("pipe".into()), "n"), Err("pipe（node: n）".to_string()));
    assert_eq!(candidate_verdict(Start::Pinged(obj1("ok", jbool(true))), "n"), Ok(()));
    assert_eq!(candidate_verdict(Start::Pinged(obj2("ok", jbool(false), "error", jtext("bad"))), "n"),
        Err("ping 失败：bad（node: n）".to_string()));
}

#[test]
fn model_list_status_errors() {
    assert_eq!(model_status(200), Ok(()));
    assert_eq!(model_status(299), Ok(()));
    assert_eq!(model_status(404), Err("HTTP 404".to_string()));
    assert_eq!(model_status(302), Err("HTTP 302".to_string()));
    assert_eq!(model_status(199), Err("HTTP 199".to_string()));
}

#[test]
fn command_outcomes() {
    assert_eq!(command_result(CmdRun::TimedOut).err(), Some("命令执行超时（180 秒），已终止等待".to_string()));
    assert_eq!(command_result(CmdRun::TaskFailed("x".into())).err(), Some("命令启动失败: x".to_string()));
    assert_eq!(command_result(CmdRun::Failed("y".into())).err(), Some("命令执行失败: y".to_string()));
    let o = command_result(CmdRun::Finished { stdout: b"hi".to_vec(), stderr: vec![], code: None }).ok().unwrap();
    assert_eq!((o.stdout.as_str(), o.stderr.as_str(), o.code), ("hi", "", -1));
}

#[test]
fn json_text_is_serde_jsons() {
    let v = obj2("b", jnumber("1"), "a", jarray_of(vec![jtext("x\"y"), Json::Null, jbool(true)]));
    assert_eq!(write_content(&obj1("content", v)), "{\"a\":[\"x\\\"y\",null,true],\"b\":1}");
    assert_eq!(write_content(&obj1("content", obj2("z", jnumber("2"), "y", jnumber("3")))), "{\"y\":3,\"z\":2}");
}

fn spawned(step: &AcquireStep) -> Option<String> {
    match step {
        AcquireStep::Spawn(n) => Some(n.clone()),
        _ => None,
    }
}

#[test]
fn acquiring_the_resident_server() {
    let cands = vec!["a".to_string(), "b".to_string()];
    let (_, step, discard) = Acquire::begin(cands.clone(), Some((false, false)));
    assert!(matches!(step, AcquireStep::Reuse) && !discard);
    let (acq, step, discard) = Acquire::begin(cands.clone(), Some((true, false)));
    assert!(discard);
    assert_eq!(spawned(&step), Some("a".to_string()));
    let (acq, step, shut) = acq.feed(Start::PingClosed);
    assert!(shut);
    assert_eq!(spawned(&step), Some("b".to_string()));
    let (_, step, shut) = acq.feed(Start::SpawnFailed("no node".into()));
    assert!(!shut);
    assert!(matches!(step, AcquireStep::Fail(e) if e == "no node"));
    let (acq, step, discard) = Acquire::begin(cands.clone(), None);
    assert!(!discard && spawned(&step) == Some("a".to_string()));
    let (_, step, shut) = acq.feed(Start::Pinged(obj1("ok", jbool(true))));
    assert!(matches!(step, AcquireStep::Install) && !shut);
    let (_, step, _) = Acquire::begin(vec![], Some((false, true)));
    assert!(matches!(step, AcquireStep::Fail(e) if e.is_empty()));
}

#[test]
fn node_reply_lines() {
    let (id, v) = reply_line("  {\"id\":7,\"ok\":true}\r\n").unwrap();
    assert_eq!(id, 7);
    assert!(out_ok(&v));
    assert!(reply_line("{\"ok\":true}").is_none());
    assert!(reply_line("log text").is_none());
    assert!(out_ok(&one_shot_reply("{\"ok\":true,\"result\":\"r\"}\nmore", "", "Some(0)").ok().unwrap()));
    let e = one_shot_reply("oops", "", "Some(0)").err().unwrap();
    assert!(e.starts_with("Node 工具响应解析失败：") && e.ends_with("：oops"));
    let e = one_shot_reply("  ", "boom", "Some(1)").err().unwrap();
    assert_eq!(e, "Node 工具无输出（exit Some(1)）：boom");
}

#[test]
fn engine_is_chosen_once() {
    let mut c = EngineChoice::new();
    assert!(c.get(" Native ") == Engine::Rust);
    assert!(c.get("node") == Engine::Rust);
    let mut d = EngineChoice::new();
    assert!(d.get("") == Engine::Node);
    assert!(d.get("auto") == Engine::Node);
    let mut e = EngineChoice::new();
    assert!(e.get("AUTO") == Engine::Auto);
}
