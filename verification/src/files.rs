//! The workspace file commands of the front end: listing order, the read
//! limits and binary checks, the texts of writes and deletes, the platform
//! summary, shell invocations and command output.

use vstd::prelude::*;
use crate::text::{chars_of, string_of, push_str, dec, dec_string, strs, lowercase, to_lowercase, trim_spec};
use crate::sort::{lex_order, lemma_lex_antisym, lemma_lex_trans};
use crate::sandbox::{rel_path_spec, rel_path};
use crate::fmt::{ignored_dir, is_ignored_dir};
use crate::sse::utf8_lossy;
use crate::state::{truncate_spec, truncate_str};
use vstd::string::StringSliceAdditionalSpecFns;

verus! {

// ---------- list_dir ----------

/// A directory entry for the file panel: its name, its path relative to the
/// workspace, whether it is a directory, its size, and its place in the order read.
pub struct FileRow {
    pub name: String,
    pub path: String,
    pub is_dir: bool,
    pub size: u64,
    pub pos: usize,
}

/// The panel shows dot entries and ignored directories only when asked for all.
pub open spec fn panel_keeps(r: FileRow, all: bool) -> bool {
    !(r.name@.len() > 0 && r.name@[0] == '.' && !all) && !(r.is_dir && !all && ignored_dir(r.name@))
}

/// The panel order: directories first, then lower-case names in code-point
/// order; equal names keep the order read.
pub open spec fn file_le(x: FileRow, y: FileRow) -> bool {
    if x.is_dir != y.is_dir {
        x.is_dir
    } else {
        let c = lex_order(lowercase(x.name@), lowercase(y.name@));
        c < 0 || (c == 0 && x.pos <= y.pos)
    }
}

/// Every row may come before every later one.
pub open spec fn files_sorted(s: Seq<FileRow>) -> bool {
    forall|i: int, j: int| 0 <= i < j < s.len() ==> file_le(#[trigger] s[i], #[trigger] s[j])
}

/// The rows the panel shows, numbered in the order read.
pub open spec fn panel_kept(rows: Seq<FileRow>, all: bool) -> Seq<FileRow>
    decreases rows.len(),
{
    if rows.len() == 0 {
        Seq::<FileRow>::empty()
    } else if panel_keeps(rows.last(), all) {
        let k = panel_kept(rows.drop_last(), all);
        k.push(FileRow { pos: k.len() as usize, ..rows.last() })
    } else {
        panel_kept(rows.drop_last(), all)
    }
}

proof fn lemma_file_total(x: FileRow, y: FileRow)
    ensures
        file_le(x, y) || file_le(y, x),
{
    lemma_lex_antisym(lowercase(x.name@), lowercase(y.name@));
}

proof fn lemma_file_trans(x: FileRow, y: FileRow, z: FileRow)
    requires
        file_le(x, y),
        file_le(y, z),
    ensures
        file_le(x, z),
{
    let (a, b, c) = (lowercase(x.name@), lowercase(y.name@), lowercase(z.name@));
    lemma_lex_antisym(a, b);
    lemma_lex_antisym(b, c);
    lemma_lex_antisym(a, c);
    if x.is_dir == y.is_dir && y.is_dir == z.is_dir {
        lemma_lex_trans(a, b, c);
    }
}

fn file_le_exec(x: &FileRow, y: &FileRow) -> (r: bool)
    ensures
        r == file_le(*x, *y),
{
    if x.is_dir != y.is_dir {
        return x.is_dir;
    }
    let a = chars_of(to_lowercase(x.name.as_str()).as_str());
    let b = chars_of(to_lowercase(y.name.as_str()).as_str());
    let mut i: usize = 0;
    assert(a@.skip(0) =~= a@);
    assert(b@.skip(0) =~= b@);
    while i < a.len() && i < b.len() && a[i] == b[i]
        invariant
            i <= a@.len(),
            i <= b@.len(),
            lex_order(a@, b@) == lex_order(a@.skip(i as int), b@.skip(i as int)),
        decreases a@.len() - i,
    {
        assert(a@.skip(i as int).drop_first() =~= a@.skip(i + 1));
        assert(b@.skip(i as int).drop_first() =~= b@.skip(i + 1));
        i += 1;
    }
    if i == a.len() && i == b.len() {
        x.pos <= y.pos
    } else if i == a.len() {
        true
    } else if i == b.len() {
        false
    } else {
        a[i] < b[i]
    }
}

fn sort_files(input: Vec<FileRow>) -> (out: Vec<FileRow>)
    ensures
        out@.to_multiset() == input@.to_multiset(),
        files_sorted(out@),
{
    broadcast use vstd::seq_lib::group_to_multiset_ensures;
    let mut rest = input;
    let mut out: Vec<FileRow> = Vec::new();
    let ghost orig = rest@.to_multiset();
    proof {
        broadcast use vstd::multiset::group_multiset_axioms;
        vstd::multiset::lemma_multiset_empty_len(out@.to_multiset());
        assert(rest@.to_multiset().add(out@.to_multiset()) =~= orig);
    }
    while rest.len() > 0
        invariant
            rest@.to_multiset().add(out@.to_multiset()) == orig,
            files_sorted(out@),
            forall|i: int, k: int| 0 <= i < out@.len() && 0 <= k < rest@.len() ==> file_le(#[trigger] out@[i], #[trigger] rest@[k]),
        decreases rest@.len(),
    {
        let mut m: usize = 0;
        let mut j: usize = 1;
        proof { lemma_file_total(rest@[0], rest@[0]); }
        while j < rest.len()
            invariant
                0 <= m < j <= rest@.len(),
                forall|k: int| 0 <= k < j ==> file_le(rest@[m as int], #[trigger] rest@[k]),
            decreases rest@.len() - j,
        {
            if !file_le_exec(&rest[m], &rest[j]) {
                proof {
                    lemma_file_total(rest@[m as int], rest@[j as int]);
                    assert forall|k: int| 0 <= k < j + 1 implies file_le(rest@[j as int], #[trigger] rest@[k]) by {
                        if k < j {
                            lemma_file_trans(rest@[j as int], rest@[m as int], rest@[k]);
                        } else {
                            lemma_file_total(rest@[j as int], rest@[j as int]);
                        }
                    }
                }
                m = j;
            }
            j += 1;
        }
        let ghost r0 = rest@;
        let ghost o0 = out@;
        let x = rest.remove(m);
        out.push(x);
        proof {
            vstd::seq_lib::to_multiset_remove(r0, m as int);
            vstd::seq_lib::to_multiset_build(o0, x);
            assert(rest@ == r0.remove(m as int));
            assert(out@ == o0.push(x));
            assert(r0.contains(r0[m as int]));
            vstd::seq_lib::to_multiset_contains(r0, r0[m as int]);
            assert(rest@.to_multiset().add(out@.to_multiset()) =~= orig) by {
                broadcast use vstd::multiset::group_multiset_axioms;
            }
            assert forall|i: int, k: int| 0 <= i < out@.len() && 0 <= k < rest@.len() implies file_le(#[trigger] out@[i], #[trigger] rest@[k]) by {
                if k < m {
                    assert(rest@[k] == r0[k]);
                } else {
                    assert(rest@[k] == r0[k + 1]);
                }
                if i < o0.len() {
                    assert(out@[i] == o0[i]);
                }
            }
            assert forall|i: int, j2: int| 0 <= i < j2 < out@.len() implies file_le(#[trigger] out@[i], #[trigger] out@[j2]) by {
                assert(out@[i] == if i < o0.len() { o0[i] } else { x });
                if j2 < o0.len() {
                    assert(out@[j2] == o0[j2]);
                } else {
                    assert(out@[j2] == r0[m as int]);
                }
            }
        }
    }
    proof {
        broadcast use vstd::multiset::group_multiset_axioms;
        vstd::multiset::lemma_multiset_empty_len(rest@.to_multiset());
        assert(out@.to_multiset() =~= orig);
    }
    out
}

/// The panel's entries: the shown rows (numbered in the order read) in panel order.
pub fn list_dir(rows: &Vec<FileRow>, all: bool) -> (r: Vec<FileRow>)
    ensures
        r@.to_multiset() == panel_kept(rows@, all).to_multiset(),
        files_sorted(r@),
{
    let mut kept: Vec<FileRow> = Vec::new();
    let mut i: usize = 0;
    while i < rows.len()
        invariant
            i <= rows@.len(),
            kept@ == panel_kept(rows@.take(i as int), all),
        decreases rows@.len() - i,
    {
        assert(rows@.take(i + 1).drop_last() =~= rows@.take(i as int));
        assert(rows@.take(i + 1).last() == rows@[i as int]);
        let r = &rows[i];
        let nv = chars_of(r.name.as_str());
        let hidden = nv.len() > 0 && nv[0] == '.' && !all;
        let skip_dir = r.is_dir && !all && is_ignored_dir(r.name.as_str());
        if !hidden && !skip_dir {
            let pos = kept.len();
            kept.push(FileRow { name: r.name.clone(), path: r.path.clone(), is_dir: r.is_dir, size: r.size, pos });
        }
        i += 1;
    }
    assert(rows@.take(rows@.len() as int) =~= rows@);
    sort_files(kept)
}

// ---------- read_file ----------

/// The most the panel reads of a file.
pub open spec fn max_file_bytes() -> u64 { 524288 }

/// How a read proceeds.
pub enum ReadPlan {
    /// Refused with this message.
    Refuse(String),
    /// Read only this many first bytes (the caller asked for a prefix).
    Head(u64),
    /// Read the whole file.
    Whole,
}

/// The view of a plan.
pub enum ReadPlanV {
    Refuse(Seq<char>),
    Head(u64),
    Whole,
}

impl View for ReadPlan {
    type V = ReadPlanV;

    open spec fn view(&self) -> ReadPlanV {
        match self {
            ReadPlan::Refuse(m) => ReadPlanV::Refuse(m@),
            ReadPlan::Head(n) => ReadPlanV::Head(*n),
            ReadPlan::Whole => ReadPlanV::Whole,
        }
    }
}

/// The read plan: a directory is refused; a positive `max_bytes` (capped at
/// 512 KB) below the size reads that prefix; beyond 512 KB is refused; else the
/// whole file is read.
pub open spec fn read_plan_spec(is_dir: bool, len: u64, max_bytes: Option<u64>) -> ReadPlanV {
    let cap: u64 = match max_bytes {
        Some(n) => if n > 0 { if n < max_file_bytes() { n } else { max_file_bytes() } } else { (max_file_bytes() + 1) as u64 },
        None => (max_file_bytes() + 1) as u64,
    };
    if is_dir {
        ReadPlanV::Refuse("这是一个目录，不是文件"@)
    } else if cap <= max_file_bytes() && len > cap {
        ReadPlanV::Head(cap)
    } else if len > max_file_bytes() {
        ReadPlanV::Refuse("文件过大（"@ + dec(len as nat) + " 字节，上限 512KB）"@)
    } else {
        ReadPlanV::Whole
    }
}

/// The read plan.
pub fn read_plan(is_dir: bool, len: u64, max_bytes: Option<u64>) -> (r: ReadPlan)
    ensures
        r@ == read_plan_spec(is_dir, len, max_bytes),
{
    let cap: u64 = match max_bytes {
        Some(n) => if n > 0 { if n < 524288 { n } else { 524288 } } else { 524289 },
        None => 524289,
    };
    if is_dir {
        ReadPlan::Refuse(String::from_str("这是一个目录，不是文件"))
    } else if cap <= 524288 && len > cap {
        ReadPlan::Head(cap)
    } else if len > 524288 {
        let mut m = String::from_str("文件过大（");
        push_str(&mut m, dec_string(len as u128).as_str());
        push_str(&mut m, " 字节，上限 512KB）");
        ReadPlan::Refuse(m)
    } else {
        ReadPlan::Whole
    }
}

/// Zero bytes among the first `n` bytes.
pub open spec fn zeros(b: Seq<u8>) -> nat
    decreases b.len(),
{
    if b.len() == 0 { 0 } else { zeros(b.drop_last()) + if b.last() == 0 { 1nat } else { 0nat } }
}

/// A whole file as text: archives (gzip or zip magic) and files with more than two
/// zero bytes in their first 1024 are refused; the rest is read as UTF-8 with
/// invalid sequences replaced.
pub open spec fn whole_text_spec(b: Seq<u8>) -> Result<Seq<char>, Seq<char>> {
    if (b.len() >= 2 && b[0] == 0x1f && b[1] == 0x8b)
        || (b.len() >= 4 && b[0] == 0x50 && b[1] == 0x4b && b[2] == 0x03 && b[3] == 0x04) {
        Err("二进制文件（压缩包），无法以文本读取"@)
    } else if zeros(b.take(if b.len() < 1024 { b.len() as int } else { 1024 })) > 2 {
        Err("二进制文件，无法以文本读取"@)
    } else {
        Ok(utf8_lossy(b))
    }
}

/// A whole file as text.
pub fn whole_text(b: &[u8]) -> (r: Result<String, String>)
    ensures
        match r {
            Ok(t) => whole_text_spec(b@) == Ok::<Seq<char>, Seq<char>>(t@),
            Err(e) => whole_text_spec(b@) == Err::<Seq<char>, Seq<char>>(e@),
        },
{
    if (b.len() >= 2 && b[0] == 0x1f && b[1] == 0x8b)
        || (b.len() >= 4 && b[0] == 0x50 && b[1] == 0x4b && b[2] == 0x03 && b[3] == 0x04) {
        return Err(String::from_str("二进制文件（压缩包），无法以文本读取"));
    }
    let n: usize = if b.len() < 1024 { b.len() } else { 1024 };
    let mut z: usize = 0;
    let mut i: usize = 0;
    while i < n
        invariant
            i <= n <= b@.len(),
            z == zeros(b@.take(i as int)),
            z <= i,
        decreases n - i,
    {
        assert(b@.take(i + 1).drop_last() =~= b@.take(i as int));
        if b[i] == 0 {
            z += 1;
        }
        i += 1;
    }
    if z > 2 {
        Err(String::from_str("二进制文件，无法以文本读取"))
    } else {
        Ok(crate::sse::lossy(b))
    }
}

/// A prefix read as text.
pub fn head_text(b: &[u8]) -> (r: String)
    ensures
        r@ == utf8_lossy(b@),
{
    crate::sse::lossy(b)
}

// ---------- write and delete ----------

/// The answer of a write: the UTF-8 bytes written and the path.
pub fn write_message(content: &str, root: &str, target: &str) -> (r: String)
    ensures
        r@ == "已写入 "@ + dec(content.len() as nat) + " 字节 → "@ + rel_path_spec(root@, target@),
{
    let mut m = String::from_str("已写入 ");
    push_str(&mut m, dec_string(content.len() as u128).as_str());
    push_str(&mut m, " 字节 → ");
    push_str(&mut m, rel_path(root, target).as_str());
    m
}

/// The answer of a delete.
pub fn delete_message(is_dir: bool, root: &str, target: &str) -> (r: String)
    ensures
        r@ == (if is_dir { "已删除目录 "@ } else { "已删除文件 "@ }) + rel_path_spec(root@, target@),
{
    let mut m = String::from_str(if is_dir { "已删除目录 " } else { "已删除文件 " });
    push_str(&mut m, rel_path(root, target).as_str());
    m
}

// ---------- platform and commands ----------

/// The shell and the label shown to the model for an operating system name.
pub open spec fn platform_spec(os: Seq<char>) -> (Seq<char>, Seq<char>) {
    if os == "windows"@ {
        ("cmd"@, "Windows"@)
    } else if os == "macos"@ {
        ("sh"@, "macOS"@)
    } else if os == "linux"@ {
        ("sh"@, "Linux"@)
    } else {
        ("sh"@, os)
    }
}

/// The shell and the label for an operating system name.
pub fn platform(os: &str) -> (r: (String, String))
    ensures
        (r.0@, r.1@) == platform_spec(os@),
{
    if crate::json::text_eq(os, "windows") {
        (String::from_str("cmd"), String::from_str("Windows"))
    } else if crate::json::text_eq(os, "macos") {
        (String::from_str("sh"), String::from_str("macOS"))
    } else if crate::json::text_eq(os, "linux") {
        (String::from_str("sh"), String::from_str("Linux"))
    } else {
        (String::from_str("sh"), String::from_str(os))
    }
}

/// The command to run: trimmed, and not empty.
pub fn command_text(command: &str) -> (r: Result<String, String>)
    ensures
        match r {
            Ok(c) => trim_spec(command@).len() > 0 && c@ == trim_spec(command@),
            Err(e) => trim_spec(command@).len() == 0 && e@ == "命令为空"@,
        },
{
    let t = crate::text::trim(command);
    if t.as_str().is_empty() {
        Err(String::from_str("命令为空"))
    } else {
        Ok(t)
    }
}

/// The program and arguments that run a command: `cmd /C` with the UTF-8 code
/// page on Windows, `sh -c` elsewhere.
pub fn shell_invocation(command: &str, windows: bool) -> (r: (String, Vec<String>))
    ensures
        r.0@ == if windows { "cmd"@ } else { "sh"@ },
        strs(r.1@) == if windows {
            seq!["/C"@, "chcp 65001 >nul & "@ + command@]
        } else {
            seq!["-c"@, command@]
        },
{
    let mut args: Vec<String> = Vec::new();
    if windows {
        args.push(String::from_str("/C"));
        let mut c = String::from_str("chcp 65001 >nul & ");
        push_str(&mut c, command);
        args.push(c);
        assert(strs(args@) =~= seq!["/C"@, "chcp 65001 >nul & "@ + command@]);
        (String::from_str("cmd"), args)
    } else {
        args.push(String::from_str("-c"));
        args.push(String::from_str(command));
        assert(strs(args@) =~= seq!["-c"@, command@]);
        (String::from_str("sh"), args)
    }
}

/// A command's result for the front end.
pub struct CmdOutput {
    pub stdout: String,
    pub stderr: String,
    pub code: i32,
}

/// A command's result: both streams read as UTF-8 and cut at 20000 characters,
/// the exit code or -1 when it has none.
pub fn command_output(stdout: &[u8], stderr: &[u8], code: Option<i32>) -> (r: CmdOutput)
    ensures
        r.stdout@ == truncate_spec(utf8_lossy(stdout@), 20000),
        r.stderr@ == truncate_spec(utf8_lossy(stderr@), 20000),
        r.code == match code { Some(c) => c, None => -1i32 },
{
    CmdOutput {
        stdout: truncate_str(crate::sse::lossy(stdout).as_str(), 20000),
        stderr: truncate_str(crate::sse::lossy(stderr).as_str(), 20000),
        code: match code {
            Some(c) => c,
            None => -1,
        },
    }
}

/// How running a command went.
pub enum CmdRun {
    /// It did not finish within 180 seconds; nobody waits for it any longer.
    TimedOut,
    /// The task running it failed (its message).
    TaskFailed(String),
    /// It could not be run (the reason).
    Failed(String),
    /// It finished with these streams and exit code.
    Finished { stdout: Vec<u8>, stderr: Vec<u8>, code: Option<i32> },
}

/// The message when a command outlives its 180 seconds.
pub open spec fn command_timeout_message() -> Seq<char> {
    "命令执行超时（180 秒），已终止等待"@
}

/// The command's result: its output when it finished, else the error for how it failed.
pub fn command_result(run: CmdRun) -> (r: Result<CmdOutput, String>)
    ensures
        match run {
            CmdRun::TimedOut => r matches Err(e) && e@ == command_timeout_message(),
            CmdRun::TaskFailed(m) => r matches Err(e) && e@ == "命令启动失败: "@ + m@,
            CmdRun::Failed(m) => r matches Err(e) && e@ == "命令执行失败: "@ + m@,
            CmdRun::Finished { stdout, stderr, code } => r matches Ok(o)
                && o.stdout@ == truncate_spec(utf8_lossy(stdout@), 20000)
                && o.stderr@ == truncate_spec(utf8_lossy(stderr@), 20000)
                && o.code == match code { Some(c) => c, None => -1i32 },
        },
{
    match run {
        CmdRun::TimedOut => Err(String::from_str("命令执行超时（180 秒），已终止等待")),
        CmdRun::TaskFailed(m) => {
            let mut e = String::from_str("命令启动失败: ");
            push_str(&mut e, m.as_str());
            Err(e)
        },
        CmdRun::Failed(m) => {
            let mut e = String::from_str("命令执行失败: ");
            push_str(&mut e, m.as_str());
            Err(e)
        },
        CmdRun::Finished { stdout, stderr, code } => Ok(command_output(stdout.as_slice(), stderr.as_slice(), code)),
    }
}

// ---------- display scale ----------

/// The values of `Xft.dpi:` lines in `xrdb -query` output, trimmed, in order
/// (the first that reads as a number sets the scale).
pub open spec fn xft_values(out: Seq<char>) -> Seq<Seq<char>> {
    xft_from(crate::write::diff_lines(out))
}

/// The `Xft.dpi:` values among lines.
pub open spec fn xft_from(lines: Seq<Seq<char>>) -> Seq<Seq<char>>
    decreases lines.len(),
{
    if lines.len() == 0 {
        Seq::<Seq<char>>::empty()
    } else {
        let t = trim_spec(lines.last());
        if crate::text::has_prefix(t, "Xft.dpi:"@) {
            xft_from(lines.drop_last()).push(trim_spec(t.skip("Xft.dpi:"@.len() as int)))
        } else {
            xft_from(lines.drop_last())
        }
    }
}

/// The `Xft.dpi:` values of `xrdb -query` output.
pub fn xft_dpi_values(out: &str) -> (r: Vec<String>)
    ensures
        strs(r@) == xft_values(out@),
{
    let v = chars_of(out);
    let body = if v.len() > 0 && v[v.len() - 1] == '\n' { crate::text::copy_range(&v, 0, v.len() - 1) } else { crate::text::copy_range(&v, 0, v.len()) };
    assert(body@ =~= crate::write::diff_body(out@));
    let pieces = crate::text::split_chars(&body, '\n');
    let ghost ls = crate::write::diff_lines(out@);
    assert(ls =~= crate::text::vview(pieces@).map_values(|l: Seq<char>| crate::write::strip_cr(l)));
    let prefix = chars_of("Xft.dpi:");
    let mut r: Vec<String> = Vec::new();
    let mut i: usize = 0;
    while i < pieces.len()
        invariant
            i <= pieces@.len(),
            ls.len() == pieces@.len(),
            forall|k: int| 0 <= k < pieces@.len() ==> #[trigger] ls[k] == crate::write::strip_cr(pieces@[k]@),
            prefix@ == "Xft.dpi:"@,
            strs(r@) == xft_from(ls.take(i as int)),
        decreases pieces@.len() - i,
    {
        assert(ls.take(i + 1).drop_last() =~= ls.take(i as int));
        assert(ls.take(i + 1).last() == ls[i as int]);
        let p = &pieces[i];
        let line = if p.len() > 0 && p[p.len() - 1] == '\r' { crate::text::copy_range(p, 0, p.len() - 1) } else { crate::text::copy_range(p, 0, p.len()) };
        assert(line@ =~= crate::write::strip_cr(p@));
        let t = crate::text::trim_chars(&line);
        if crate::text::starts_with(&t, &prefix) {
            let rest = crate::text::copy_range(&t, prefix.len(), t.len());
            assert(rest@ =~= t@.skip("Xft.dpi:"@.len() as int));
            let val = string_of(&crate::text::trim_chars(&rest));
            let ghost before = r@;
            r.push(val);
            assert(strs(r@) =~= strs(before).push(val@));
        }
        i += 1;
    }
    assert(ls.take(pieces@.len() as int) =~= ls);
    r
}

} // verus!
