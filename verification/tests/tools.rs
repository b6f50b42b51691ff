use qwen_studio::tools::{native_answer, workspace_refusal, NativeRun};
use qwen_studio::readonly::grep_args;
use qwen_studio::json::{jarray_of, jnumber, jobject, jtext, obj1, obj2, Json};
use qwen_studio::tools::{run, supports, ToolKind, ToolRun};
use qwen_studio::fmt::{arg_str, arg_truthy, fmt_size, glob_regex_source, glob_to_regex, is_ignored_dir, regex_escape_set};
use qwen_studio::skills::{skill_name, skill_paths, skill_text, todo_icon, todowrite};
use qwen_studio::readonly::{
    assert_text_file, build_search_regex, include_ok, list_text, read_text, GlobRun, GrepRun, ListRow, RawLines,
};
use qwen_studio::sort::locale_like_cmp;
use qwen_studio::walk::{DirEntry, WalkStep, Walker};
use std::cmp::Ordering;

fn done_err(r: ToolRun) -> String {
    match r {
        ToolRun::Done(Err(e)) => e,
        _ => panic!("expected an error"),
    }
}

fn done_ok(r: ToolRun) -> String {
    match r {
        ToolRun::Done(Ok(t)) => t,
        _ => panic!("expected an answer"),
    }
}

#[test]
fn unmigrated_tools_report_clearly() {
    for name in ["bash"] {
        assert!(!supports(name), "{name} 已移植，请同步更新本测试与回落名单");
        let e = done_err(run("/tmp", name, &jobject()));
        assert!(e.contains("尚未移植"), "{name} 的报错文案不该变：{e}");
    }
    for name in ["list", "read", "glob", "grep", "write", "edit", "patch", "todowrite", "skill"] {
        assert!(supports(name), "{name} 应已接入 Rust 分发");
    }
    assert!(done_err(run("", "read", &jobject())).contains("缺少 workspace"));
    assert!(done_ok(run("", "todowrite", &obj1("todos", jarray_of(vec![])))).contains("已清空"));
}

#[test]
fn dispatch_names_file_tools() {
    assert!(matches!(run("/w", "grep", &jobject()), ToolRun::Run(ToolKind::Grep)));
    assert!(matches!(run("/w", "skill", &jobject()), ToolRun::Run(ToolKind::Skill)));
    assert!(matches!(run("  ", "list", &jobject()), ToolRun::Done(Err(_))));
}

#[test]
fn sizes_round_half_away_from_zero() {
    assert_eq!(fmt_size(0), "0 B");
    assert_eq!(fmt_size(1023), "1023 B");
    assert_eq!(fmt_size(1024), "1.0 KB");
    assert_eq!(fmt_size(1280), "1.3 KB");
    assert_eq!(fmt_size(1536), "1.5 KB");
    assert_eq!(fmt_size(1048575), "1024.0 KB");
    assert_eq!(fmt_size(1048576), "1.0 MB");
    assert_eq!(fmt_size(5 * 1048576 + 104858), "5.1 MB");
}

#[test]
fn ignored_directories() {
    assert!(is_ignored_dir("node_modules"));
    assert!(is_ignored_dir(".pnpm-store"));
    assert!(!is_ignored_dir("src"));
}

#[test]
fn globs_become_anchored_regexes() {
    assert_eq!(glob_regex_source("**/*.rs"), "^(?:.*/)?[^/]*\\.rs$");
    assert_eq!(glob_regex_source("a?{x,y.z}"), "^a[^/](?:x|y\\.z)$");
    assert_eq!(glob_regex_source("{open"), "^{open$");
    assert_eq!(glob_regex_source("**"), "^.*$");
    assert_eq!(regex_escape_set("a.b}$", ".+^$|()[]\\"), "a\\.b\\}\\$");
    let p = glob_to_regex("*.JS").unwrap();
    assert!(p.is_match("app.js"));
    assert!(!p.is_match("src/app.js"));
    assert!(include_ok(Some(&p), "src/app.js"));
    assert!(!include_ok(Some(&p), "src/app.ts"));
    assert!(include_ok(None, "anything"));
}

#[test]
fn invalid_search_regex_is_reported() {
    let e = build_search_regex("(", false).err().unwrap();
    assert!(e.starts_with("正则无效："));
    assert!(build_search_regex("a+", true).is_ok());
}

#[test]
fn argument_coercions() {
    let args = obj2("s", jtext("x"), "n", jnumber("0.0"));
    assert_eq!(arg_str(&args, "s"), "x");
    assert_eq!(arg_str(&args, "n"), "0.0");
    assert_eq!(arg_str(&args, "missing"), "");
    assert!(!arg_truthy(&args, "n"));
    assert!(arg_truthy(&obj1("n", jnumber("1e-7")), "n"));
    assert!(!arg_truthy(&obj1("n", jnumber("-0e5")), "n"));
    assert!(arg_truthy(&obj1("s", jtext("0")), "s"));
    assert!(!arg_truthy(&obj1("s", jtext("")), "s"));
    assert!(arg_truthy(&obj1("a", jarray_of(vec![])), "a"));
    assert!(!arg_truthy(&obj1("z", Json::Null), "z"));
}

#[test]
fn todo_list_rendering() {
    assert_eq!(todo_icon("active"), "◉");
    assert_eq!(todo_icon("whatever"), "○");
    let todos = jarray_of(vec![
        obj2("status", jtext("completed"), "content", jtext("写测试")),
        obj2("status", jtext("active"), "content", jnumber("3")),
        obj1("status", jtext("pending")),
    ]);
    let t = todowrite(&obj1("todos", todos));
    assert_eq!(t, "任务清单（1/3 完成）\n✔ ~~写测试~~\n◉ 3\n○ undefined");
    assert_eq!(todowrite(&jobject()), "（已清空任务清单）");
    let nested = jarray_of(vec![obj2("status", jtext("x"), "content", obj1("k", jtext("a\"b")))]);
    assert_eq!(todowrite(&obj1("todos", nested)), "任务清单（0/1 完成）\n○ {\"k\":\"a\\\"b\"}");
}

#[test]
fn skill_names_and_texts() {
    assert_eq!(skill_name(&obj1("name", jtext(" deploy "))).unwrap(), "deploy");
    assert!(skill_name(&obj1("name", jtext("a/b"))).is_err());
    assert!(skill_name(&obj1("name", jtext("  "))).is_err());
    assert_eq!(skill_paths("deploy"), vec![".agents/skills/deploy/SKILL.md".to_string(), ".agents/skills/deploy.md".to_string()]);
    let long = "a".repeat(65537);
    let cut = skill_text(&long);
    assert!(cut.ends_with("\n…（技能内容过长，已截断）"));
    assert_eq!(cut.chars().filter(|c| *c == 'a').count(), 65536);
    assert_eq!(skill_text("short"), "short");
}

#[test]
fn raw_lines_cut_like_node() {
    let mut r = RawLines::new("a\r\nb\rc\n\nd");
    let mut got = Vec::new();
    while let Some(l) = r.next_line() {
        got.push(l);
    }
    assert_eq!(got, vec!["a", "b", "c", "", "d"]);
    let mut r = RawLines::new("x\n");
    assert_eq!(r.next_line(), Some("x".to_string()));
    assert_eq!(r.next_line(), None);
    let mut r = RawLines::new("");
    assert_eq!(r.next_line(), None);
}

#[test]
fn grep_reports_lines_and_caps() {
    let p = build_search_regex("needle", false).unwrap();
    let mut g = GrepRun::new(p);
    g.feed_text("a.txt", "hay\n  needle here  \nneedle");
    assert_eq!(g.finish("needle"), "a.txt:2:needle here\na.txt:3:needle");
    let p = build_search_regex("x", false).unwrap();
    let mut g = GrepRun::new(p);
    let text = "x\n".repeat(250);
    g.feed_text("big.txt", &text);
    assert!(!g.wants_more());
    let out = g.finish("x");
    assert_eq!(out.lines().count(), 201);
    assert!(out.ends_with("…（超过 200 条匹配，已截断）"));
    let g = GrepRun::new(build_search_regex("zzz", false).unwrap());
    assert_eq!(g.finish("zzz"), "没有匹配 /zzz/ 的内容");
}

#[test]
fn glob_lists_matches() {
    let mut g = GlobRun::new(glob_to_regex("*.rs").unwrap());
    g.feed("src/lib.rs");
    g.feed("README.md");
    assert_eq!(g.finish("*.rs"), "src/lib.rs");
    let g = GlobRun::new(glob_to_regex("*.none").unwrap());
    assert_eq!(g.finish("*.none"), "没有匹配 *.none 的文件");
}

#[test]
fn text_file_checks() {
    assert_eq!(assert_text_file(true, 0, &[], "/w/d").unwrap_err(), "这是一个目录：/w/d");
    assert_eq!(assert_text_file(false, 600 * 1024, &[], "f").unwrap_err(), "文件过大（600.0 KB，上限 512KB），请用 offset/limit 分段读取");
    assert_eq!(assert_text_file(false, 3, &[0x1f, 0x8b, 0], "f").unwrap_err(), "二进制文件（gzip），无法以文本读取");
    assert_eq!(assert_text_file(false, 3, b"a\0b", "f").unwrap_err(), "二进制文件，无法以文本读取");
    assert!(assert_text_file(false, 3, b"abc", "f").is_ok());
}

#[test]
fn read_numbers_lines() {
    assert_eq!(read_text("a.txt", "one\ntwo\nthree", 1, 600), "a.txt（共 3 行，显示 1-3）\n     1\tone\n     2\ttwo\n     3\tthree");
    assert_eq!(
        read_text("a.txt", "one\ntwo\nthree", 2, 1),
        "a.txt（共 3 行，显示 2-2）\n     2\ttwo\n（第 3-3 行未显示，可用 offset 继续读取）"
    );
    assert_eq!(read_text("a.txt", "x", 9, 5), "a.txt（共 1 行，显示 9-1）\n");
}

#[test]
fn list_orders_directories_first() {
    let row = |name: &str, is_dir: bool, size: u64| ListRow { name: name.to_string(), is_dir, size, rel: name.to_string() };
    let t = list_text(&vec![row("b.txt", false, 10), row("Zeta", true, 0), row(".hidden", false, 1), row("node_modules", true, 0), row("a.txt", false, 2048)], false);
    assert_eq!(t, "d       0 B  Zeta\n-    2.0 KB  a.txt\n-      10 B  b.txt");
    assert_eq!(list_text(&vec![], false), "（空目录）");
    assert_eq!(locale_like_cmp("a", "B"), Ordering::Less);
    assert_eq!(locale_like_cmp("B", "b"), Ordering::Less);
    assert_eq!(locale_like_cmp("x", "x"), Ordering::Equal);
}

#[test]
fn walk_goes_depth_first_in_name_order() {
    let e = |name: &str, is_dir: bool| DirEntry { name: name.to_string(), is_dir, is_file: !is_dir };
    let (mut w, first) = Walker::new("/r", false);
    assert!(matches!(first, WalkStep::ReadDir(ref p) if p == "/r"));
    w.feed(Some(vec![e("z.txt", false), e("dir", true), e(".git", true), e("target", true), e("a.txt", false)]));
    let mut files = Vec::new();
    loop {
        match w.step() {
            WalkStep::Done => break,
            WalkStep::Skip => {}
            WalkStep::File(p) => files.push(p),
            WalkStep::ReadDir(p) => {
                assert_eq!(p, "/r/dir");
                w.feed(Some(vec![e("inner.rs", false)]));
            }
        }
    }
    assert_eq!(files, vec!["/r/a.txt", "/r/dir/inner.rs", "/r/z.txt"]);
}

#[test]
fn grep_arguments_checked_in_order() {
    assert_eq!(grep_args("", false, "[").err(), Some("pattern 不能为空".to_string()));
    assert!(grep_args("(", false, "[").err().unwrap().starts_with("正则无效："));
    assert!(grep_args("a", false, "").unwrap().1.is_none());
    assert!(grep_args("a", false, "*.rs").unwrap().1.is_some());
}

#[test]
fn native_call_answers_like_the_node_runtime() {
    assert_eq!(workspace_refusal("/nope", false), Some("工作目录无效：/nope".to_string()));
    assert_eq!(workspace_refusal("/w", true), None);
    let j = native_answer(NativeRun::Ran(Ok("done".into()))).ok().unwrap();
    assert_eq!(j.get("ok").and_then(|v| if let Json::Bool(b) = v { Some(*b) } else { None }), Some(true));
    assert_eq!(j.get("result").and_then(|v| v.as_str()), Some("done"));
    assert_eq!(native_answer(NativeRun::Ran(Err("bad".into()))).err(), Some("bad".to_string()));
    assert_eq!(native_answer(NativeRun::ThreadFailed("panic".into())).err(), Some("工具线程错误：panic".to_string()));
}
