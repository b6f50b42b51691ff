//! The native tool runtime: which tools it has, and the entry that checks a
//! call and hands it to the tool.

use vstd::prelude::*;

verus! {

/// The tools with a native implementation.
pub open spec fn supports_spec(name: Seq<char>) -> bool {
    name == "list"@ || name == "read"@ || name == "glob"@ || name == "grep"@ || name == "write"@
        || name == "edit"@ || name == "patch"@ || name == "todowrite"@ || name == "skill"@
}

/// Whether the tool has a native implementation.
pub fn supports(name: &str) -> (r: bool)
    ensures
        r == supports_spec(name@),
{
    crate::json::text_eq(name, "list") || crate::json::text_eq(name, "read") || crate::json::text_eq(name, "glob")
        || crate::json::text_eq(name, "grep") || crate::json::text_eq(name, "write")
        || crate::json::text_eq(name, "edit") || crate::json::text_eq(name, "patch")
        || crate::json::text_eq(name, "todowrite") || crate::json::text_eq(name, "skill")
}

/// The native tools that touch files (the caller does the reading and writing).
#[derive(Clone, Copy, PartialEq, Eq, Structural)]
pub enum ToolKind {
    List,
    Read,
    Glob,
    Grep,
    Write,
    Edit,
    Patch,
    Skill,
}

/// What a native call comes to: an answer already, or a file tool to run.
pub enum ToolRun {
    Done(Result<String, String>),
    Run(ToolKind),
}

/// The view of a dispatch.
pub enum ToolRunV {
    Done(Result<Seq<char>, Seq<char>>),
    Run(ToolKind),
}

impl View for ToolRun {
    type V = ToolRunV;

    open spec fn view(&self) -> ToolRunV {
        match self {
            ToolRun::Done(Ok(s)) => ToolRunV::Done(Ok(s@)),
            ToolRun::Done(Err(e)) => ToolRunV::Done(Err(e@)),
            ToolRun::Run(k) => ToolRunV::Run(*k),
        }
    }
}

/// The text for a tool without a native implementation.
pub open spec fn unsupported_message(name: Seq<char>) -> Seq<char> {
    "工具 "@ + name + " 尚未移植到 Rust 引擎（见 RUST-TOOLS-MIGRATION.md 批次计划），请设 QS_TOOL_ENGINE=node 使用 Node 运行时"@
}

/// The dispatch of a native call: every tool but `todowrite` needs a workspace;
/// `todowrite` answers at once; the file tools run; anything else is refused.
pub open spec fn run_spec(workspace: Seq<char>, name: Seq<char>, args: crate::json::JsonV) -> ToolRunV {
    if name != "todowrite"@ && crate::text::trim_spec(workspace).len() == 0 {
        ToolRunV::Done(Err("缺少 workspace"@))
    } else if name == "list"@ {
        ToolRunV::Run(ToolKind::List)
    } else if name == "read"@ {
        ToolRunV::Run(ToolKind::Read)
    } else if name == "glob"@ {
        ToolRunV::Run(ToolKind::Glob)
    } else if name == "grep"@ {
        ToolRunV::Run(ToolKind::Grep)
    } else if name == "write"@ {
        ToolRunV::Run(ToolKind::Write)
    } else if name == "edit"@ {
        ToolRunV::Run(ToolKind::Edit)
    } else if name == "patch"@ {
        ToolRunV::Run(ToolKind::Patch)
    } else if name == "todowrite"@ {
        ToolRunV::Done(Ok(crate::skills::todowrite_spec(args)))
    } else if name == "skill"@ {
        ToolRunV::Run(ToolKind::Skill)
    } else {
        ToolRunV::Done(Err(unsupported_message(name)))
    }
}

/// The dispatch of a native call.
pub fn run(workspace: &str, name: &str, args: &crate::json::Json) -> (r: ToolRun)
    ensures
        r@ == run_spec(workspace@, name@, args@),
{
    if !crate::json::text_eq(name, "todowrite") && crate::text::trim(workspace).as_str().is_empty() {
        return ToolRun::Done(Err(String::from_str("缺少 workspace")));
    }
    if crate::json::text_eq(name, "list") {
        ToolRun::Run(ToolKind::List)
    } else if crate::json::text_eq(name, "read") {
        ToolRun::Run(ToolKind::Read)
    } else if crate::json::text_eq(name, "glob") {
        ToolRun::Run(ToolKind::Glob)
    } else if crate::json::text_eq(name, "grep") {
        ToolRun::Run(ToolKind::Grep)
    } else if crate::json::text_eq(name, "write") {
        ToolRun::Run(ToolKind::Write)
    } else if crate::json::text_eq(name, "edit") {
        ToolRun::Run(ToolKind::Edit)
    } else if crate::json::text_eq(name, "patch") {
        ToolRun::Run(ToolKind::Patch)
    } else if crate::json::text_eq(name, "todowrite") {
        ToolRun::Done(Ok(crate::skills::todowrite(args)))
    } else if crate::json::text_eq(name, "skill") {
        ToolRun::Run(ToolKind::Skill)
    } else {
        let mut m = String::from_str("工具 ");
        crate::text::push_str(&mut m, name);
        crate::text::push_str(&mut m, " 尚未移植到 Rust 引擎（见 RUST-TOOLS-MIGRATION.md 批次计划），请设 QS_TOOL_ENGINE=node 使用 Node 运行时");
        ToolRun::Done(Err(m))
    }
}

/// A native dispatch's answer as the front end gets it: `{ok: true, result}`.
pub fn native_reply(text: &str) -> (r: crate::json::Json)
    ensures
        r@ == crate::json::jobj(seq![("ok"@, crate::json::JsonV::Bool(true)), ("result"@, crate::json::JsonV::Str(text@))]),
{
    crate::json::obj2("ok", crate::json::jbool(true), "result", crate::json::jtext(text))
}

/// The refusal of a native call whose workspace is not a directory: no tool runs then.
pub open spec fn workspace_refusal_spec(workspace: Seq<char>, is_dir: bool) -> Option<Seq<char>> {
    if is_dir { None } else { Some("工作目录无效："@ + workspace) }
}

/// The refusal of a native call, given whether its workspace is a directory.
pub fn workspace_refusal(workspace: &str, is_dir: bool) -> (r: Option<String>)
    ensures
        match (r, workspace_refusal_spec(workspace@, is_dir)) {
            (None, None) => true,
            (Some(m), Some(n)) => m@ == n,
            _ => false,
        },
{
    if is_dir {
        None
    } else {
        let mut m = String::from_str("工作目录无效：");
        crate::text::push_str(&mut m, workspace);
        Some(m)
    }
}

/// How running a native tool on its own thread went.
pub enum NativeRun {
    /// The tool ran: its text, or its error.
    Ran(Result<String, String>),
    /// The thread running it failed (its message).
    ThreadFailed(String),
}

/// The answer of a native call that passed the workspace check: a tool's text as
/// the Node runtime's response body `{ok: true, result}`, a tool's error as it is.
pub open spec fn native_answer_spec(run: NativeRun) -> Result<crate::json::JsonV, Seq<char>> {
    match run {
        NativeRun::Ran(Ok(t)) => Ok(crate::json::jobj(seq![
            ("ok"@, crate::json::JsonV::Bool(true)),
            ("result"@, crate::json::JsonV::Str(t@)),
        ])),
        NativeRun::Ran(Err(e)) => Err(e@),
        NativeRun::ThreadFailed(m) => Err("工具线程错误："@ + m@),
    }
}

/// The answer of a native call.
pub fn native_answer(run: NativeRun) -> (r: Result<crate::json::Json, String>)
    ensures
        match (r, native_answer_spec(run)) {
            (Ok(j), Ok(v)) => j@ == v,
            (Err(e), Err(f)) => e@ == f,
            _ => false,
        },
{
    match run {
        NativeRun::Ran(Ok(t)) => Ok(native_reply(t.as_str())),
        NativeRun::Ran(Err(e)) => Err(e),
        NativeRun::ThreadFailed(m) => {
            let mut e = String::from_str("工具线程错误：");
            crate::text::push_str(&mut e, m.as_str());
            Err(e)
        },
    }
}

} // verus!
