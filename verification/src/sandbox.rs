//! The workspace sandbox of the tools: every path a tool touches must lie inside
//! the workspace root.
//!
//! Checking `..` in the text is not enough: a symbolic link inside the workspace
//! can point anywhere. The relative path is therefore walked segment by segment,
//! each step resolved to its real path and checked against the root; a step that
//! does not resolve but is itself a link (dangling, or a loop) is refused too, and
//! the final target is checked once more.
//!
//! The walk needs the file system at every step, so it is a state machine: the
//! caller answers each `Probe` and feeds the answer back. Paths are text with `/`
//! separating segments (`\` also separates the segments of the relative path the
//! tool is given).

use vstd::prelude::*;
use crate::text::{
    chars_of, copy_range, has_prefix, join_chars, join_seq, lowercase, push_chars,
    push_str, slashes, split_chars, split_seq, starts_with, string_of, to_lowercase, to_slashes,
    trim_chars, trim_spec, vview, chars_eq,
};

verus! {

// ---------- path text ----------

/// `\\?\`
pub open spec fn verbatim_prefix() -> Seq<char> { seq!['\\', '\\', '?', '\\'] }
/// `\\.\`
pub open spec fn device_prefix() -> Seq<char> { seq!['\\', '\\', '.', '\\'] }

/// The path without a Windows verbatim prefix (`\\?\` or `\\.\`).
pub open spec fn strip_verbatim_spec(p: Seq<char>) -> Seq<char> {
    if has_prefix(p, verbatim_prefix()) || has_prefix(p, device_prefix()) { p.skip(4) } else { p }
}

/// Removes a Windows verbatim prefix.
pub fn strip_verbatim(p: &str) -> (r: String)
    ensures
        r@ == strip_verbatim_spec(p@),
{
    let v = chars_of(p);
    let a = ['\\', '\\', '?', '\\'];
    let b = ['\\', '\\', '.', '\\'];
    assert(a@ == verbatim_prefix());
    assert(b@ == device_prefix());
    if starts_with(&v, &a) || starts_with(&v, &b) {
        string_of(&copy_range(&v, 4, v.len()))
    } else {
        string_of(&v)
    }
}

/// The comparison form of a path: `/` for `\`, lowercased where paths ignore case.
pub open spec fn lower_spec(p: Seq<char>, case_insensitive: bool) -> Seq<char> {
    if case_insensitive { lowercase(slashes(p)) } else { slashes(p) }
}

/// The comparison form of a path.
pub fn lower(p: &str, case_insensitive: bool) -> (r: Vec<char>)
    ensures
        r@ == lower_spec(p@, case_insensitive),
{
    let s = to_slashes(&chars_of(p));
    if case_insensitive {
        chars_of(&to_lowercase(&string_of(&s)))
    } else {
        s
    }
}

/// `p` lies inside `root` (or is `root`): its comparison form is the root's,
/// or continues it at a segment boundary (the root ends in `/`, or a `/` follows it).
pub open spec fn is_under_spec(root: Seq<char>, p: Seq<char>, case_insensitive: bool) -> bool {
    let r = lower_spec(root, case_insensitive);
    let x = lower_spec(p, case_insensitive);
    x == r || (has_prefix(x, r) && x.len() > r.len() && ((r.len() > 0 && r.last() == '/')
        || x[r.len() as int] == '/'))
}

/// Whether `p` lies inside `root`.
pub fn is_under(root: &str, p: &str, case_insensitive: bool) -> (b: bool)
    ensures
        b == is_under_spec(root@, p@, case_insensitive),
{
    let r = lower(root, case_insensitive);
    let x = lower(p, case_insensitive);
    if chars_eq(&x, &r) {
        return true;
    }
    starts_with(&x, &r) && x.len() > r.len() && ((r.len() > 0 && r[r.len() - 1] == '/')
        || x[r.len()] == '/')
}

/// Every path lies inside itself.
pub proof fn lemma_is_under_refl(p: Seq<char>, case_insensitive: bool)
    ensures
        is_under_spec(p, p, case_insensitive),
{
}

/// An ASCII letter.
pub open spec fn is_ascii_alpha(c: char) -> bool {
    ('a' <= c <= 'z') || ('A' <= c <= 'Z')
}

/// Looks like an absolute path or a drive path (`/x`, `\x`, `C:...`).
pub open spec fn looks_absolute_spec(r: Seq<char>) -> bool {
    (r.len() > 0 && (r[0] == '/' || r[0] == '\\')) || (r.len() >= 2 && r[1] == ':' && is_ascii_alpha(r[0]))
}

/// Whether a relative path looks absolute.
pub fn looks_absolute(r: &[char]) -> (b: bool)
    ensures
        b == looks_absolute_spec(r@),
{
    (r.len() > 0 && (r[0] == '/' || r[0] == '\\'))
        || (r.len() >= 2 && r[1] == ':' && (('a' <= r[0] && r[0] <= 'z') || ('A' <= r[0] && r[0] <= 'Z')))
}

/// The display path of `target` relative to `root` with `/` separators: what
/// follows the root's segments, or the whole target when it does not start with them.
pub open spec fn rel_path_spec(root: Seq<char>, target: Seq<char>) -> Seq<char> {
    if target == root {
        Seq::<char>::empty()
    } else if has_prefix(target, root) && root.len() > 0 && root.last() == '/' {
        slashes(target.skip(root.len() as int))
    } else if has_prefix(target, root) && target.len() > root.len() && target[root.len() as int] == '/' {
        slashes(target.skip(root.len() + 1 as int))
    } else {
        slashes(target)
    }
}

/// The display path of `target` relative to `root`.
pub fn rel_path(root: &str, target: &str) -> (r: String)
    ensures
        r@ == rel_path_spec(root@, target@),
{
    let rt = chars_of(root);
    let t = chars_of(target);
    if chars_eq(&t, &rt) {
        return String::new();
    }
    if starts_with(&t, &rt) && rt.len() > 0 && rt[rt.len() - 1] == '/' {
        return string_of(&to_slashes(&copy_range(&t, rt.len(), t.len())));
    }
    if starts_with(&t, &rt) && t.len() > rt.len() && t[rt.len()] == '/' {
        return string_of(&to_slashes(&copy_range(&t, rt.len() + 1, t.len())));
    }
    string_of(&to_slashes(&t))
}

// ---------- lexical resolution (POSIX paths) ----------

/// `.`
pub open spec fn dot() -> Seq<char> { seq!['.'] }
/// `..`
pub open spec fn dotdot() -> Seq<char> { seq!['.', '.'] }

/// The named segments of a `/`-separated path, `.` and empty ones left out.
pub open spec fn keep_segments(parts: Seq<Seq<char>>) -> Seq<Seq<char>>
    decreases parts.len(),
{
    if parts.len() == 0 {
        Seq::<Seq<char>>::empty()
    } else {
        let k = keep_segments(parts.drop_last());
        let p = parts.last();
        if p.len() == 0 || p == dot() { k } else { k.push(p) }
    }
}

/// The segments of a path.
pub open spec fn components(p: Seq<char>) -> Seq<Seq<char>> {
    keep_segments(split_seq(p, '/'))
}

/// Folds `..` into the segment before it (none before: nothing to fold).
pub open spec fn fold_parents(segs: Seq<Seq<char>>) -> Seq<Seq<char>>
    decreases segs.len(),
{
    if segs.len() == 0 {
        Seq::<Seq<char>>::empty()
    } else {
        let f = fold_parents(segs.drop_last());
        if segs.last() == dotdot() {
            if f.len() > 0 { f.drop_last() } else { f }
        } else {
            f.push(segs.last())
        }
    }
}

/// `p` resolved against `base` without touching the file system
/// (Node's `path.resolve`): joined, `.` dropped, `..` folded.
pub open spec fn resolve_against_spec(base: Seq<char>, p: Seq<char>) -> Seq<char> {
    let p_abs = p.len() > 0 && p[0] == '/';
    let segs = if p_abs { components(p) } else { components(base) + components(p) };
    let abs = p_abs || (base.len() > 0 && base[0] == '/');
    let body = join_seq(fold_parents(segs), seq!['/']);
    if abs { seq!['/'] + body } else { body }
}

fn keep_segments_exec(parts: Vec<Vec<char>>) -> (r: Vec<Vec<char>>)
    ensures
        vview(r@) == keep_segments(vview(parts@)),
{
    let mut r: Vec<Vec<char>> = Vec::new();
    let ghost pv = vview(parts@);
    let mut i: usize = 0;
    assert(pv.take(0) == Seq::<Seq<char>>::empty());
    assert(vview(r@) =~= Seq::<Seq<char>>::empty());
    while i < parts.len()
        invariant
            i <= parts@.len(),
            pv == vview(parts@),
            vview(r@) == keep_segments(pv.take(i as int)),
        decreases parts@.len() - i,
    {
        let p = &parts[i];
        assert(pv[i as int] == p@);
        assert(pv.take(i + 1).drop_last() == pv.take(i as int));
        assert(pv.take(i + 1).last() == p@);
        let d = ['.'];
        assert(d@ == dot());
        if !(p.len() == 0 || chars_eq(p, &d)) {
            let ghost r0 = vview(r@);
            r.push(p.clone());
            assert(vview(r@) =~= r0.push(p@));
        }
        i += 1;
    }
    assert(pv.take(parts@.len() as int) == pv);
    r
}

fn fold_parents_exec(segs: &Vec<Vec<char>>) -> (r: Vec<Vec<char>>)
    ensures
        vview(r@) == fold_parents(vview(segs@)),
{
    let mut r: Vec<Vec<char>> = Vec::new();
    let ghost sv = vview(segs@);
    let mut i: usize = 0;
    assert(sv.take(0) == Seq::<Seq<char>>::empty());
    assert(vview(r@) =~= Seq::<Seq<char>>::empty());
    while i < segs.len()
        invariant
            i <= segs@.len(),
            sv == vview(segs@),
            vview(r@) == fold_parents(sv.take(i as int)),
        decreases segs@.len() - i,
    {
        let s = &segs[i];
        assert(sv[i as int] == s@);
        assert(sv.take(i + 1).drop_last() == sv.take(i as int));
        assert(sv.take(i + 1).last() == s@);
        let dd = ['.', '.'];
        assert(dd@ == dotdot());
        let ghost r0 = vview(r@);
        if chars_eq(s, &dd) {
            if r.len() > 0 {
                r.pop();
                assert(vview(r@) =~= r0.drop_last());
            }
        } else {
            r.push(s.clone());
            assert(vview(r@) =~= r0.push(s@));
        }
        i += 1;
    }
    assert(sv.take(segs@.len() as int) == sv);
    r
}

/// `p` resolved against `base` without touching the file system.
pub fn resolve_against(base: &str, p: &str) -> (r: String)
    ensures
        r@ == resolve_against_spec(base@, p@),
{
    let b = chars_of(base);
    let pv = chars_of(p);
    let p_abs = pv.len() > 0 && pv[0] == '/';
    let mut segs = if p_abs {
        keep_segments_exec(split_chars(&pv, '/'))
    } else {
        let mut s = keep_segments_exec(split_chars(&b, '/'));
        let mut t = keep_segments_exec(split_chars(&pv, '/'));
        let ghost s0 = vview(s@);
        let ghost t0 = vview(t@);
        s.append(&mut t);
        assert(vview(s@) =~= s0 + t0);
        s
    };
    let abs = p_abs || (b.len() > 0 && b[0] == '/');
    let folded = fold_parents_exec(&segs);
    let sl = ['/'];
    assert(sl@ == seq!['/']);
    let body = join_chars(&folded, &sl);
    let mut out = String::new();
    if abs {
        push_str(&mut out, "/");
        assert("/"@ == seq!['/']) by { reveal_strlit("/"); }
    }
    push_chars(&mut out, &body);
    out
}

/// `a` joined with the segment `seg` (`Path::join`).
pub open spec fn join_segment(a: Seq<char>, seg: Seq<char>) -> Seq<char> {
    if a.len() == 0 || a.last() == '/' { a + seg } else { a + seq!['/'] + seg }
}

pub(crate) fn join_segment_exec(a: &str, seg: &[char]) -> (r: String)
    ensures
        r@ == join_segment(a@, seg@),
{
    let av = chars_of(a);
    let mut out = string_of(&av);
    if !(av.len() == 0 || av[av.len() - 1] == '/') {
        push_str(&mut out, "/");
        assert("/"@ == seq!['/']) by { reveal_strlit("/"); }
    }
    push_chars(&mut out, seg);
    out
}

} // verus!

verus! {

// ---------- the walk ----------

/// `不允许访问工作目录之外的路径`
pub open spec fn outside_message() -> Seq<char> { "不允许访问工作目录之外的路径"@ }
/// `只允许使用相对工作目录的路径`
pub open spec fn absolute_message() -> Seq<char> { "只允许使用相对工作目录的路径"@ }

/// A link that leads outside the root.
pub open spec fn link_outside_message(seg: Seq<char>) -> Seq<char> {
    "符号链接 "@ + seg + " 指向工作目录之外，已拒绝访问"@
}

/// A link that does not resolve.
pub open spec fn link_dangling_message(seg: Seq<char>) -> Seq<char> {
    "符号链接 "@ + seg + " 指向不存在或工作目录之外的路径，已拒绝访问"@
}

/// What the walk needs to learn from the file system next.
pub enum Probe {
    /// The real path of this path (`fs::canonicalize`).
    RealPath(String),
    /// Whether this path is itself a symbolic link (`fs::symlink_metadata`).
    IsSymlink(String),
    /// Whether this path exists.
    Exists(String),
    /// Whether this path is a directory.
    IsDir(String),
}

/// The file system's answer to a probe.
pub enum Answer {
    /// The real path, as `fs::canonicalize` returned it.
    Found(String),
    /// `fs::canonicalize` failed because a component does not exist or is not a directory.
    Missing,
    /// `fs::canonicalize` failed otherwise; the error's text.
    Failed(String),
    /// The answer to `IsSymlink` or `Exists`.
    Flag(bool),
}

/// Root and target of a path the sandbox accepted.
pub struct Resolved {
    pub root: String,
    pub target: String,
}

/// The next move of the walk.
pub enum Step {
    Ask(Probe),
    Done(Result<Resolved, String>),
}

/// The walk's stages.
#[derive(PartialEq, Eq, Structural, Clone, Copy)]
pub enum Phase {
    /// awaiting the real path of the workspace root
    Root,
    /// awaiting the real path of the current segment
    Segment,
    /// awaiting whether the current (missing) segment is a link
    Link,
    /// awaiting whether the target exists
    Exists,
    /// awaiting the real path of the existing target
    Final,
    /// nothing more to ask
    Finished,
}

/// Probes and answers and steps as values.
pub enum StepView {
    AskRealPath(Seq<char>),
    AskIsSymlink(Seq<char>),
    AskExists(Seq<char>),
    AskIsDir(Seq<char>),
    Accept(Seq<char>, Seq<char>),
    Refuse(Seq<char>),
}

pub enum AnswerView {
    Found(Seq<char>),
    Missing,
    Failed(Seq<char>),
    Flag(bool),
}

impl View for Answer {
    type V = AnswerView;

    open spec fn view(&self) -> AnswerView {
        match self {
            Answer::Found(s) => AnswerView::Found(s@),
            Answer::Missing => AnswerView::Missing,
            Answer::Failed(s) => AnswerView::Failed(s@),
            Answer::Flag(b) => AnswerView::Flag(*b),
        }
    }
}

impl View for Step {
    type V = StepView;

    open spec fn view(&self) -> StepView {
        match self {
            Step::Ask(Probe::RealPath(p)) => StepView::AskRealPath(p@),
            Step::Ask(Probe::IsSymlink(p)) => StepView::AskIsSymlink(p@),
            Step::Ask(Probe::Exists(p)) => StepView::AskExists(p@),
            Step::Ask(Probe::IsDir(p)) => StepView::AskIsDir(p@),
            Step::Done(Ok(r)) => StepView::Accept(r.root@, r.target@),
            Step::Done(Err(e)) => StepView::Refuse(e@),
        }
    }
}

/// The state of a walk.
pub struct WalkView {
    pub cwd: Seq<char>,
    pub case_insensitive: bool,
    pub phase: Phase,
    pub root: Seq<char>,
    pub rel: Seq<char>,
    pub segs: Seq<Seq<char>>,
    pub next: nat,
    pub cur: Seq<char>,
    pub seg: Seq<char>,
}

/// The segments of the relative path: split at `/` and `\`, empty ones left out.
pub open spec fn rel_segments(r: Seq<char>) -> Seq<Seq<char>> {
    keep_nonempty(split_seq(slashes(r), '/'))
}

pub open spec fn keep_nonempty(parts: Seq<Seq<char>>) -> Seq<Seq<char>>
    decreases parts.len(),
{
    if parts.len() == 0 {
        Seq::<Seq<char>>::empty()
    } else {
        let k = keep_nonempty(parts.drop_last());
        if parts.last().len() == 0 { k } else { k.push(parts.last()) }
    }
}

/// Walks on from segment `w.next`: `.` is skipped, `..` refused, a named segment
/// is appended to the current path and its real path asked for; after the last
/// segment the lexically resolved target must lie inside the root, and whether
/// it exists is asked.
pub open spec fn advance(w: WalkView) -> (WalkView, StepView)
    decreases w.segs.len() - w.next,
{
    if w.next >= w.segs.len() {
        if !is_under_spec(w.root, resolve_against_spec(seq!['/'], w.cur), w.case_insensitive) {
            (WalkView { phase: Phase::Finished, ..w }, StepView::Refuse(outside_message()))
        } else {
            (WalkView { phase: Phase::Exists, ..w }, StepView::AskExists(w.cur))
        }
    } else {
        let seg = w.segs[w.next as int];
        if seg == dot() {
            advance(WalkView { next: w.next + 1, ..w })
        } else if seg == dotdot() {
            (WalkView { phase: Phase::Finished, ..w }, StepView::Refuse(outside_message()))
        } else {
            let cur = join_segment(w.cur, seg);
            (
                WalkView { phase: Phase::Segment, cur, seg, next: w.next + 1, ..w },
                StepView::AskRealPath(cur),
            )
        }
    }
}

/// The walk's first move: the real path of the workspace resolved against `cwd`.
pub open spec fn start_spec(cwd: Seq<char>, workspace: Seq<char>, rel: Seq<char>, ci: bool) -> (WalkView, StepView) {
    let raw_root = resolve_against_spec(cwd, workspace);
    (
        WalkView {
            cwd,
            case_insensitive: ci,
            phase: Phase::Root,
            root: Seq::<char>::empty(),
            rel: trim_spec(rel),
            segs: rel_segments(trim_spec(rel)),
            next: 0,
            cur: raw_root,
            seg: Seq::<char>::empty(),
        },
        StepView::AskRealPath(raw_root),
    )
}

/// The real path of a probed path (`canonical`): the answer without a verbatim prefix,
/// or, when there is none, the path resolved against the working directory.
pub open spec fn canonical_of(w: WalkView, a: AnswerView) -> Seq<char> {
    match a {
        AnswerView::Found(c) => strip_verbatim_spec(c),
        _ => strip_verbatim_spec(resolve_against_spec(w.cwd, w.cur)),
    }
}

/// The answer kind each stage waits for.
pub open spec fn answer_fits(phase: Phase, a: AnswerView) -> bool {
    match phase {
        Phase::Root | Phase::Segment | Phase::Final => !(a is Flag),
        Phase::Link | Phase::Exists => a is Flag,
        Phase::Finished => false,
    }
}

/// The walk's move on an answer.
pub open spec fn feed_spec(w: WalkView, a: AnswerView) -> (WalkView, StepView) {
    let done = WalkView { phase: Phase::Finished, ..w };
    match w.phase {
        Phase::Root => {
            let root = canonical_of(w, a);
            let w1 = WalkView { root, cur: root, ..w };
            if w.rel.len() == 0 || w.rel == dot() {
                (WalkView { phase: Phase::Finished, ..w1 }, StepView::Accept(root, root))
            } else if looks_absolute_spec(w.rel) {
                (WalkView { phase: Phase::Finished, ..w1 }, StepView::Refuse(absolute_message()))
            } else {
                advance(w1)
            }
        },
        Phase::Segment => match a {
            AnswerView::Found(c) => {
                let real_path = strip_verbatim_spec(c);
                if !is_under_spec(w.root, real_path, w.case_insensitive) {
                    (done, StepView::Refuse(link_outside_message(w.seg)))
                } else {
                    advance(WalkView { cur: real_path, ..w })
                }
            },
            AnswerView::Failed(e) => (done, StepView::Refuse(e)),
            _ => (WalkView { phase: Phase::Link, ..w }, StepView::AskIsSymlink(w.cur)),
        },
        Phase::Link => {
            if a == AnswerView::Flag(true) {
                (done, StepView::Refuse(link_dangling_message(w.seg)))
            } else {
                advance(w)
            }
        },
        Phase::Exists => {
            if a == AnswerView::Flag(true) {
                (WalkView { phase: Phase::Final, ..w }, StepView::AskRealPath(w.cur))
            } else {
                (done, StepView::Accept(w.root, w.cur))
            }
        },
        Phase::Final => {
            let fin = canonical_of(w, a);
            if !is_under_spec(w.root, fin, w.case_insensitive) {
                (done, StepView::Refuse(link_outside_message(fin)))
            } else {
                (done, StepView::Accept(w.root, fin))
            }
        },
        Phase::Finished => (done, StepView::Refuse(Seq::<char>::empty())),
    }
}

/// An accepted target lies inside the root: as the real path it resolved to, or,
/// for a path that does not exist yet, once resolved lexically.
pub open spec fn inside(root: Seq<char>, target: Seq<char>, ci: bool) -> bool {
    is_under_spec(root, target, ci) || is_under_spec(root, resolve_against_spec(seq!['/'], target), ci)
}

/// The invariant of a walk: once the target is being confirmed, its lexical form lies inside the root.
pub open spec fn walk_wf(w: WalkView) -> bool {
    (w.phase == Phase::Exists || w.phase == Phase::Final)
        ==> is_under_spec(w.root, resolve_against_spec(seq!['/'], w.cur), w.case_insensitive)
}

/// Every step of a walk that stays inside the invariant accepts only targets inside the root.
pub proof fn lemma_advance_inside(w: WalkView)
    ensures
        walk_wf(advance(w).0),
        advance(w).1 matches StepView::Accept(r, t) ==> r == w.root && inside(r, t, w.case_insensitive),
        advance(w).0.root == w.root,
        advance(w).0.case_insensitive == w.case_insensitive,
        advance(w).0.cwd == w.cwd,
        advance(w).0.segs == w.segs,
        advance(w).0.phase != Phase::Root,
    decreases w.segs.len() - w.next,
{
    if w.next < w.segs.len() && w.segs[w.next as int] == dot() {
        lemma_advance_inside(WalkView { next: w.next + 1, ..w });
    }
}

/// The sandbox law: whatever the file system answers, an accepted target lies inside the root.
pub proof fn lemma_feed_inside(w: WalkView, a: AnswerView)
    requires
        walk_wf(w),
    ensures
        walk_wf(feed_spec(w, a).0),
        feed_spec(w, a).1 matches StepView::Accept(r, t) ==> inside(r, t, w.case_insensitive),
{
    match w.phase {
        Phase::Root => {
            let root = canonical_of(w, a);
            let w1 = WalkView { root, cur: root, ..w };
            lemma_advance_inside(w1);
            lemma_is_under_refl(root, w.case_insensitive);
        },
        Phase::Segment => {
            if let AnswerView::Found(c) = a {
                lemma_advance_inside(WalkView { cur: strip_verbatim_spec(c), ..w });
            }
        },
        Phase::Link => {
            lemma_advance_inside(w);
        },
        _ => {},
    }
}

} // verus!

verus! {

/// A walk of a relative path through the workspace (see `feed_spec`).
pub struct Walk {
    cwd: String,
    case_insensitive: bool,
    phase: Phase,
    root: String,
    rel: Vec<char>,
    segs: Vec<Vec<char>>,
    next: usize,
    cur: String,
    seg: Vec<char>,
}

impl View for Walk {
    type V = WalkView;

    closed spec fn view(&self) -> WalkView {
        WalkView {
            cwd: self.cwd@,
            case_insensitive: self.case_insensitive,
            phase: self.phase,
            root: self.root@,
            rel: self.rel@,
            segs: vview(self.segs@),
            next: self.next as nat,
            cur: self.cur@,
            seg: self.seg@,
        }
    }
}

impl Walk {
    /// The walk's invariant.
    pub closed spec fn wf(&self) -> bool {
        &&& walk_wf(self@)
        &&& self.next <= self.segs@.len()
    }

    fn advance_exec(&mut self) -> (s: Step)
        requires
            old(self).next <= old(self).segs@.len(),
        ensures
            (final(self)@, s@) == advance(old(self)@),
            final(self).wf(),
    {
        proof { lemma_advance_inside(self@); }
        loop
            invariant
                self.next <= self.segs@.len(),
                advance(self@) == advance(old(self)@),
            decreases self.segs@.len() - self.next,
        {
            if self.next >= self.segs.len() {
                let lexical = resolve_against("/", self.cur.as_str());
                assert("/"@ == seq!['/']) by { reveal_strlit("/"); }
                if !is_under(self.root.as_str(), lexical.as_str(), self.case_insensitive) {
                    self.phase = Phase::Finished;
                    return Step::Done(Err(String::from_str("不允许访问工作目录之外的路径")));
                }
                self.phase = Phase::Exists;
                return Step::Ask(Probe::Exists(self.cur.clone()));
            }
            let seg = self.segs[self.next].clone();
            assert(vview(self.segs@)[self.next as int] == seg@);
            let d = ['.'];
            let dd = ['.', '.'];
            assert(d@ == dot());
            assert(dd@ == dotdot());
            if chars_eq(&seg, &d) {
                self.next = self.next + 1;
                continue;
            }
            if chars_eq(&seg, &dd) {
                self.phase = Phase::Finished;
                return Step::Done(Err(String::from_str("不允许访问工作目录之外的路径")));
            }
            let cur = join_segment_exec(self.cur.as_str(), &seg);
            self.cur = cur;
            self.seg = seg;
            self.next = self.next + 1;
            self.phase = Phase::Segment;
            return Step::Ask(Probe::RealPath(self.cur.clone()));
        }
    }


    fn canonical_exec(&self, a: &Answer) -> (r: String)
        ensures
            r@ == canonical_of(self@, a@),
    {
        match a {
            Answer::Found(c) => strip_verbatim(c.as_str()),
            _ => strip_verbatim(resolve_against(self.cwd.as_str(), self.cur.as_str()).as_str()),
        }
    }

    /// Feeds the file system's answer to the last probe; returns the next step.
    /// Whatever the answers, an accepted target lies inside the root.
    pub fn feed(&mut self, a: Answer) -> (s: Step)
        requires
            old(self).wf(),
            answer_fits(old(self)@.phase, a@),
        ensures
            (final(self)@, s@) == feed_spec(old(self)@, a@),
            final(self).wf(),
            s@ matches StepView::Accept(r, t) ==> inside(r, t, old(self)@.case_insensitive),
    {
        proof { lemma_feed_inside(self@, a@); }
        match self.phase {
            Phase::Root => {
                let root = self.canonical_exec(&a);
                self.root = root.clone();
                self.cur = root;
                let d = ['.'];
                assert(d@ == dot());
                if self.rel.len() == 0 || chars_eq(&self.rel, &d) {
                    self.phase = Phase::Finished;
                    return Step::Done(Ok(Resolved { root: self.root.clone(), target: self.root.clone() }));
                }
                if looks_absolute(&self.rel) {
                    self.phase = Phase::Finished;
                    return Step::Done(Err(String::from_str("只允许使用相对工作目录的路径")));
                }
                self.advance_exec()
            },
            Phase::Segment => match a {
                Answer::Found(c) => {
                    let real_path = strip_verbatim(c.as_str());
                    if !is_under(self.root.as_str(), real_path.as_str(), self.case_insensitive) {
                        self.phase = Phase::Finished;
                        return Step::Done(Err(link_message(&self.seg, " 指向工作目录之外，已拒绝访问")));
                    }
                    self.cur = real_path;
                    self.advance_exec()
                },
                Answer::Failed(e) => {
                    self.phase = Phase::Finished;
                    Step::Done(Err(e))
                },
                _ => {
                    self.phase = Phase::Link;
                    Step::Ask(Probe::IsSymlink(self.cur.clone()))
                },
            },
            Phase::Link => {
                if let Answer::Flag(true) = a {
                    self.phase = Phase::Finished;
                    return Step::Done(Err(link_message(&self.seg, " 指向不存在或工作目录之外的路径，已拒绝访问")));
                }
                self.advance_exec()
            },
            Phase::Exists => {
                if let Answer::Flag(true) = a {
                    self.phase = Phase::Final;
                    return Step::Ask(Probe::RealPath(self.cur.clone()));
                }
                self.phase = Phase::Finished;
                Step::Done(Ok(Resolved { root: self.root.clone(), target: self.cur.clone() }))
            },
            Phase::Final => {
                let fin = self.canonical_exec(&a);
                self.phase = Phase::Finished;
                if !is_under(self.root.as_str(), fin.as_str(), self.case_insensitive) {
                    return Step::Done(Err(link_message(&chars_of(fin.as_str()), " 指向工作目录之外，已拒绝访问")));
                }
                Step::Done(Ok(Resolved { root: self.root.clone(), target: fin }))
            },
            Phase::Finished => {
                Step::Done(Err(String::new()))
            },
        }
    }
}

/// `符号链接 <name><tail>`
fn link_message(name: &[char], tail: &str) -> (m: String)
    ensures
        m@ == "符号链接 "@ + name@ + tail@,
{
    let mut m = String::from_str("符号链接 ");
    push_chars(&mut m, name);
    push_str(&mut m, tail);
    m
}

fn keep_nonempty_exec(parts: Vec<Vec<char>>) -> (r: Vec<Vec<char>>)
    ensures
        vview(r@) == keep_nonempty(vview(parts@)),
{
    let mut r: Vec<Vec<char>> = Vec::new();
    let ghost pv = vview(parts@);
    let mut i: usize = 0;
    assert(pv.take(0) == Seq::<Seq<char>>::empty());
    assert(vview(r@) =~= Seq::<Seq<char>>::empty());
    while i < parts.len()
        invariant
            i <= parts@.len(),
            pv == vview(parts@),
            vview(r@) == keep_nonempty(pv.take(i as int)),
        decreases parts@.len() - i,
    {
        let p = &parts[i];
        assert(pv[i as int] == p@);
        assert(pv.take(i + 1).drop_last() == pv.take(i as int));
        assert(pv.take(i + 1).last() == p@);
        if p.len() > 0 {
            let ghost r0 = vview(r@);
            r.push(p.clone());
            assert(vview(r@) =~= r0.push(p@));
        }
        i += 1;
    }
    assert(pv.take(parts@.len() as int) == pv);
    r
}

/// Starts the walk of `rel` inside `workspace` (resolved against `cwd`):
/// the first probe asks for the workspace's real path.
pub fn resolve_in_workspace(cwd: &str, workspace: &str, rel: &str, case_insensitive: bool) -> (r: (Walk, Step))
    ensures
        (r.0@, r.1@) == start_spec(cwd@, workspace@, rel@, case_insensitive),
        r.0.wf(),
{
    let raw_root = resolve_against(cwd, workspace);
    let trimmed = trim_chars(&chars_of(rel));
    let segs = keep_nonempty_exec(split_chars(&to_slashes(&trimmed), '/'));
    let w = Walk {
        cwd: String::from_str(cwd),
        case_insensitive,
        phase: Phase::Root,
        root: String::new(),
        rel: trimmed,
        segs,
        next: 0,
        cur: raw_root.clone(),
        seg: Vec::new(),
    };
    assert(w@.seg =~= Seq::<char>::empty());
    (w, Step::Ask(Probe::RealPath(raw_root)))
}


} // verus!
