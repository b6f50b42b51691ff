//! The workspace file commands (list, read, write, delete a file; run a shell
//! command): the path check they share and what they compute around the file system.
//!
//! The path check walks the relative path segment by segment like the tools'
//! sandbox, with the commands' own messages and rules: a segment holding `:` is
//! refused, and the final target's real path (or the target, when it has none yet)
//! must lie inside the root.

use vstd::prelude::*;
use crate::sandbox::{Answer, AnswerView, Probe, Resolved, Step, StepView, dot, dotdot, join_segment, strip_verbatim, strip_verbatim_spec};
use crate::text::{
    chars_eq, chars_of, has_prefix, lowercase, push_chars, push_str, split_seq, string_of, to_lowercase,
    to_slashes, slashes, split_chars, trim_chars, trim_spec, vview,
};

verus! {

/// A path separator, `/` or `\`.
pub open spec fn is_sep(c: char) -> bool {
    c == '/' || c == '\\'
}

/// `p` lies inside `root` (or is `root`), comparing lowercased text; the root must
/// end in a separator or be followed by one.
pub open spec fn under_spec(root: Seq<char>, p: Seq<char>) -> bool {
    let r = lowercase(root);
    let x = lowercase(p);
    x == r || (has_prefix(x, r) && x.len() > r.len() && ((r.len() > 0 && is_sep(r.last()))
        || is_sep(x[r.len() as int])))
}

/// Whether `p` lies inside `root`.
pub fn under(root: &str, p: &str) -> (b: bool)
    ensures
        b == under_spec(root@, p@),
{
    let r = chars_of(&to_lowercase(root));
    let x = chars_of(&to_lowercase(p));
    if chars_eq(&x, &r) {
        return true;
    }
    crate::text::starts_with(&x, &r) && x.len() > r.len()
        && ((r.len() > 0 && (r[r.len() - 1] == '/' || r[r.len() - 1] == '\\'))
        || x[r.len()] == '/' || x[r.len()] == '\\')
}

/// The walk's stages.
#[derive(PartialEq, Eq, Structural, Clone, Copy)]
pub enum WsPhase {
    /// awaiting whether the workspace is a directory
    IsDir,
    /// awaiting the workspace's real path
    RootReal,
    /// awaiting the real path of the current segment
    Segment,
    /// awaiting whether the current (unresolved) segment is a link
    Link,
    /// awaiting the real path of the target
    Final,
    /// nothing more to ask
    Finished,
}

pub struct WsView {
    pub workspace: Seq<char>,
    pub rel: Option<Seq<char>>,
    pub raw: Seq<char>,
    pub phase: WsPhase,
    pub root: Seq<char>,
    pub segs: Seq<Seq<char>>,
    pub next: nat,
    pub cur: Seq<char>,
    pub seg: Seq<char>,
}

/// `工作目录不存在: <workspace>`
pub open spec fn no_workspace_message(ws: Seq<char>) -> Seq<char> { "工作目录不存在: "@ + ws }
/// `无法访问工作目录: <error>`
pub open spec fn inaccessible_message(e: Seq<char>) -> Seq<char> { "无法访问工作目录: "@ + e }
/// `只允许使用工作目录内的相对路径`
pub open spec fn relative_only_message() -> Seq<char> { "只允许使用工作目录内的相对路径"@ }

/// Walks on from segment `w.next`; after the last one, the target's real path is asked for.
pub open spec fn ws_advance(w: WsView) -> (WsView, StepView)
    decreases w.segs.len() - w.next,
{
    if w.next >= w.segs.len() {
        (WsView { phase: WsPhase::Final, ..w }, StepView::AskRealPath(w.cur))
    } else {
        let seg = w.segs[w.next as int];
        if seg.len() == 0 || seg == dot() {
            ws_advance(WsView { next: w.next + 1, ..w })
        } else if seg == dotdot() {
            (WsView { phase: WsPhase::Finished, ..w }, StepView::Refuse(crate::sandbox::outside_message()))
        } else if seg.contains(':') {
            (WsView { phase: WsPhase::Finished, ..w }, StepView::Refuse(relative_only_message()))
        } else {
            let cur = join_segment(w.cur, seg);
            (WsView { phase: WsPhase::Segment, cur, seg, next: w.next + 1, ..w }, StepView::AskRealPath(cur))
        }
    }
}

/// The first move: whether the (trimmed) workspace is a directory.
pub open spec fn ws_start_spec(workspace: Seq<char>, rel: Option<Seq<char>>) -> (WsView, StepView) {
    let raw = trim_spec(workspace);
    (
        WsView {
            workspace,
            rel,
            raw,
            phase: WsPhase::IsDir,
            root: Seq::<char>::empty(),
            segs: Seq::<Seq<char>>::empty(),
            next: 0,
            cur: Seq::<char>::empty(),
            seg: Seq::<char>::empty(),
        },
        StepView::AskIsDir(raw),
    )
}

/// The answer kind each stage waits for.
pub open spec fn ws_answer_fits(phase: WsPhase, a: AnswerView) -> bool {
    match phase {
        WsPhase::IsDir | WsPhase::Link => a is Flag,
        WsPhase::RootReal => a is Found || a is Failed,
        WsPhase::Segment | WsPhase::Final => !(a is Flag),
        WsPhase::Finished => false,
    }
}

/// The walk's move on an answer.
pub open spec fn ws_feed_spec(w: WsView, a: AnswerView) -> (WsView, StepView) {
    let done = WsView { phase: WsPhase::Finished, ..w };
    match w.phase {
        WsPhase::IsDir => {
            if a == AnswerView::Flag(true) {
                (WsView { phase: WsPhase::RootReal, ..w }, StepView::AskRealPath(w.raw))
            } else {
                (done, StepView::Refuse(no_workspace_message(w.workspace)))
            }
        },
        WsPhase::RootReal => match a {
            AnswerView::Found(c) => {
                let root = strip_verbatim_spec(c);
                let w1 = WsView { root, cur: root, phase: WsPhase::Finished, ..w };
                match w.rel {
                    None => (w1, StepView::Accept(root, root)),
                    Some(r0) => {
                        let r = trim_spec(r0);
                        if r.len() == 0 || r == dot() {
                            (w1, StepView::Accept(root, root))
                        } else if r.contains(':') || r[0] == '/' || r[0] == '\\' {
                            (w1, StepView::Refuse(relative_only_message()))
                        } else {
                            ws_advance(WsView { segs: split_seq(slashes(r), '/'), next: 0, ..w1 })
                        }
                    },
                }
            },
            AnswerView::Failed(e) => (done, StepView::Refuse(inaccessible_message(e))),
            _ => (done, StepView::Refuse(inaccessible_message(Seq::<char>::empty()))),
        },
        WsPhase::Segment => match a {
            AnswerView::Found(real_path) => {
                if !under_spec(w.root, real_path) {
                    (done, StepView::Refuse(crate::sandbox::link_outside_message(w.seg)))
                } else {
                    ws_advance(WsView { cur: real_path, ..w })
                }
            },
            _ => (WsView { phase: WsPhase::Link, ..w }, StepView::AskIsSymlink(w.cur)),
        },
        WsPhase::Link => {
            if a == AnswerView::Flag(true) {
                (done, StepView::Refuse(crate::sandbox::link_dangling_message(w.seg)))
            } else {
                ws_advance(w)
            }
        },
        WsPhase::Final => {
            let checked = match a { AnswerView::Found(real_path) => real_path, _ => w.cur };
            if !under_spec(w.root, checked) {
                (done, StepView::Refuse(crate::sandbox::outside_message()))
            } else {
                (done, StepView::Accept(w.root, w.cur))
            }
        },
        WsPhase::Finished => (done, StepView::Refuse(Seq::<char>::empty())),
    }
}

proof fn lemma_ws_advance(w: WsView)
    ensures
        ws_advance(w).1 is AskRealPath || ws_advance(w).1 is Refuse,
        ws_advance(w).0.next <= ws_advance(w).0.segs.len() || w.next > w.segs.len(),
    decreases w.segs.len() - w.next,
{
    if w.next < w.segs.len() {
        let seg = w.segs[w.next as int];
        if seg.len() == 0 || seg == dot() {
            lemma_ws_advance(WsView { next: w.next + 1, ..w });
        }
    }
}

/// The workspace law: an accepted target, or the real path the file system gave for it,
/// lies inside the root.
pub proof fn lemma_ws_feed_inside(w: WsView, a: AnswerView)
    ensures
        ws_feed_spec(w, a).1 matches StepView::Accept(r, t) ==>
            under_spec(r, t) || (a matches AnswerView::Found(c) && under_spec(r, c)),
{
    match w.phase {
        WsPhase::RootReal => {
            if let AnswerView::Found(c) = a {
                let root = strip_verbatim_spec(c);
                let w1 = WsView { root, cur: root, phase: WsPhase::Finished, ..w };
                if let Some(r0) = w.rel {
                    lemma_ws_advance(WsView { segs: split_seq(slashes(trim_spec(r0)), '/'), next: 0, ..w1 });
                }
            }
        },
        WsPhase::Segment => {
            if let AnswerView::Found(real_path) = a {
                lemma_ws_advance(WsView { cur: real_path, ..w });
            }
        },
        WsPhase::Link => {
            lemma_ws_advance(w);
        },
        _ => {},
    }
}

} // verus!

verus! {

/// A walk of a command's path through the workspace (see `ws_feed_spec`).
pub struct WsWalk {
    workspace: String,
    rel: Option<String>,
    raw: String,
    phase: WsPhase,
    root: String,
    segs: Vec<Vec<char>>,
    next: usize,
    cur: String,
    seg: Vec<char>,
}

impl View for WsWalk {
    type V = WsView;

    closed spec fn view(&self) -> WsView {
        WsView {
            workspace: self.workspace@,
            rel: match self.rel { Some(r) => Some(r@), None => None },
            raw: self.raw@,
            phase: self.phase,
            root: self.root@,
            segs: vview(self.segs@),
            next: self.next as nat,
            cur: self.cur@,
            seg: self.seg@,
        }
    }
}

/// Whether `v` holds `c`.
fn has_char(v: &[char], c: char) -> (b: bool)
    ensures
        b == v@.contains(c),
{
    let mut i: usize = 0;
    while i < v.len()
        invariant
            i <= v@.len(),
            forall|k: int| 0 <= k < i ==> v@[k] != c,
        decreases v@.len() - i,
    {
        if v[i] == c {
            return true;
        }
        i += 1;
    }
    false
}

impl WsWalk {
    /// The walk's invariant.
    pub closed spec fn wf(&self) -> bool {
        self.next <= self.segs@.len()
    }

    fn advance_exec(&mut self) -> (s: Step)
        requires
            old(self).next <= old(self).segs@.len(),
        ensures
            (final(self)@, s@) == ws_advance(old(self)@),
            final(self).wf(),
    {
        loop
            invariant
                self.next <= self.segs@.len(),
                ws_advance(self@) == ws_advance(old(self)@),
            decreases self.segs@.len() - self.next,
        {
            if self.next >= self.segs.len() {
                self.phase = WsPhase::Final;
                return Step::Ask(Probe::RealPath(self.cur.clone()));
            }
            let seg = self.segs[self.next].clone();
            assert(vview(self.segs@)[self.next as int] == seg@);
            let d = ['.'];
            let dd = ['.', '.'];
            assert(d@ == dot());
            assert(dd@ == dotdot());
            if seg.len() == 0 || chars_eq(&seg, &d) {
                self.next = self.next + 1;
                continue;
            }
            if chars_eq(&seg, &dd) {
                self.phase = WsPhase::Finished;
                return Step::Done(Err(String::from_str("不允许访问工作目录之外的路径")));
            }
            if has_char(&seg, ':') {
                self.phase = WsPhase::Finished;
                return Step::Done(Err(String::from_str("只允许使用工作目录内的相对路径")));
            }
            let mut cur = string_of(&chars_of(self.cur.as_str()));
            let cv = chars_of(self.cur.as_str());
            if !(cv.len() == 0 || cv[cv.len() - 1] == '/') {
                push_str(&mut cur, "/");
                assert("/"@ == seq!['/']) by { reveal_strlit("/"); }
            }
            push_chars(&mut cur, &seg);
            self.cur = cur;
            self.seg = seg;
            self.next = self.next + 1;
            self.phase = WsPhase::Segment;
            return Step::Ask(Probe::RealPath(self.cur.clone()));
        }
    }


    /// Feeds the file system's answer to the last probe; returns the next step.
    pub fn feed(&mut self, a: Answer) -> (s: Step)
        requires
            old(self).wf(),
            ws_answer_fits(old(self)@.phase, a@),
        ensures
            (final(self)@, s@) == ws_feed_spec(old(self)@, a@),
            final(self).wf(),
            s@ matches StepView::Accept(r, t) ==>
                under_spec(r, t) || (a@ matches AnswerView::Found(c) && under_spec(r, c)),
    {
        proof { lemma_ws_feed_inside(self@, a@); }
        match self.phase {
            WsPhase::IsDir => {
                if let Answer::Flag(true) = a {
                    self.phase = WsPhase::RootReal;
                    return Step::Ask(Probe::RealPath(self.raw.clone()));
                }
                self.phase = WsPhase::Finished;
                let mut m = String::from_str("工作目录不存在: ");
                push_str(&mut m, self.workspace.as_str());
                Step::Done(Err(m))
            },
            WsPhase::RootReal => match a {
                Answer::Found(c) => {
                    let root = strip_verbatim(c.as_str());
                    self.root = root.clone();
                    self.cur = root;
                    self.phase = WsPhase::Finished;
                    match &self.rel {
                        None => Step::Done(Ok(Resolved { root: self.root.clone(), target: self.root.clone() })),
                        Some(r0) => {
                            let r = trim_chars(&chars_of(r0.as_str()));
                            let d = ['.'];
                            assert(d@ == dot());
                            if r.len() == 0 || chars_eq(&r, &d) {
                                return Step::Done(Ok(Resolved { root: self.root.clone(), target: self.root.clone() }));
                            }
                            if has_char(&r, ':') || r[0] == '/' || r[0] == '\\' {
                                return Step::Done(Err(String::from_str("只允许使用工作目录内的相对路径")));
                            }
                            self.segs = split_chars(&to_slashes(&r), '/');
                            self.next = 0;
                            self.advance_exec()
                        },
                    }
                },
                Answer::Failed(e) => {
                    self.phase = WsPhase::Finished;
                    let mut m = String::from_str("无法访问工作目录: ");
                    push_str(&mut m, e.as_str());
                    Step::Done(Err(m))
                },
                _ => {
                    self.phase = WsPhase::Finished;
                    Step::Done(Err(String::from_str("无法访问工作目录: ")))
                },
            },
            WsPhase::Segment => match a {
                Answer::Found(real_path) => {
                    if !under(self.root.as_str(), real_path.as_str()) {
                        self.phase = WsPhase::Finished;
                        let mut m = String::from_str("符号链接 ");
                        push_chars(&mut m, &self.seg);
                        push_str(&mut m, " 指向工作目录之外，已拒绝访问");
                        return Step::Done(Err(m));
                    }
                    self.cur = real_path;
                    self.advance_exec()
                },
                _ => {
                    self.phase = WsPhase::Link;
                    Step::Ask(Probe::IsSymlink(self.cur.clone()))
                },
            },
            WsPhase::Link => {
                if let Answer::Flag(true) = a {
                    self.phase = WsPhase::Finished;
                    let mut m = String::from_str("符号链接 ");
                    push_chars(&mut m, &self.seg);
                    push_str(&mut m, " 指向不存在或工作目录之外的路径，已拒绝访问");
                    return Step::Done(Err(m));
                }
                self.advance_exec()
            },
            WsPhase::Final => {
                self.phase = WsPhase::Finished;
                let ok = match &a {
                    Answer::Found(real_path) => under(self.root.as_str(), real_path.as_str()),
                    _ => under(self.root.as_str(), self.cur.as_str()),
                };
                if !ok {
                    return Step::Done(Err(String::from_str("不允许访问工作目录之外的路径")));
                }
                Step::Done(Ok(Resolved { root: self.root.clone(), target: self.cur.clone() }))
            },
            WsPhase::Finished => Step::Done(Err(String::new())),
        }
    }
}

/// Starts the check of `rel` (none: the workspace itself) inside `workspace`.
pub fn resolve_target(workspace: &str, rel: Option<&str>) -> (r: (WsWalk, Step))
    ensures
        (r.0@, r.1@) == ws_start_spec(workspace@, match rel { Some(x) => Some(x@), None => None }),
        r.0.wf(),
{
    let raw = string_of(&trim_chars(&chars_of(workspace)));
    let w = WsWalk {
        workspace: String::from_str(workspace),
        rel: match rel { Some(x) => Some(String::from_str(x)), None => None },
        raw: raw.clone(),
        phase: WsPhase::IsDir,
        root: String::new(),
        segs: Vec::new(),
        next: 0,
        cur: String::new(),
        seg: Vec::new(),
    };
    assert(w@.seg =~= Seq::<char>::empty());
    assert(w@.segs =~= Seq::<Seq<char>>::empty());
    (w, Step::Ask(Probe::IsDir(raw)))
}


/// A path's canonical form when it exists (`canonical` is what canonicalizing
/// gave), else the path as it is: a target not yet created is taken literally.
pub fn canonicalize_or_self(p: &str, canonical: Option<&str>) -> (r: String)
    ensures
        r@ == match canonical {
            Some(c) => c@,
            None => p@,
        },
{
    match canonical {
        Some(c) => String::from_str(c),
        None => String::from_str(p),
    }
}

} // verus!
