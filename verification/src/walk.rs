//! The depth-first walk of `glob` and `grep`: each directory's entries in name
//! order, dot entries skipped, ignored directories skipped unless everything is
//! asked for, files only. The caller reads the directories the walk asks for.

use vstd::prelude::*;
use crate::text::chars_of;
use crate::sort::{lex_order, lemma_lex_antisym, lemma_lex_trans};
use crate::sandbox::{join_segment, join_segment_exec};
use crate::fmt::{ignored_dir, is_ignored_dir};

verus! {

/// A directory entry: its name and what it is (neither: anything else, such as a
/// socket or a link that is neither).
pub struct DirEntry {
    pub name: String,
    pub is_dir: bool,
    pub is_file: bool,
}

/// `x` may come before `y` (name order).
pub open spec fn entry_le(x: DirEntry, y: DirEntry) -> bool {
    lex_order(x.name@, y.name@) <= 0
}

/// Entries in name order.
pub open spec fn entries_sorted(s: Seq<DirEntry>) -> bool {
    forall|i: int, j: int| 0 <= i < j < s.len() ==> entry_le(#[trigger] s[i], #[trigger] s[j])
}

proof fn lemma_entry_total(x: DirEntry, y: DirEntry)
    ensures
        entry_le(x, y) || entry_le(y, x),
{
    lemma_lex_antisym(x.name@, y.name@);
}

proof fn lemma_entry_trans(x: DirEntry, y: DirEntry, z: DirEntry)
    requires
        entry_le(x, y),
        entry_le(y, z),
    ensures
        entry_le(x, z),
{
    lemma_lex_trans(x.name@, y.name@, z.name@);
}

fn entry_le_exec(x: &DirEntry, y: &DirEntry) -> (r: bool)
    ensures
        r == entry_le(*x, *y),
{
    let a = chars_of(x.name.as_str());
    let b = chars_of(y.name.as_str());
    let mut i: usize = 0;
    assert(a@.skip(0) =~= a@);
    assert(b@.skip(0) =~= b@);
    while i < a.len() && i < b.len() && a[i] == b[i]
        invariant
            i <= a@.len(),
            i <= b@.len(),
            a@ == x.name@,
            b@ == y.name@,
            lex_order(a@, b@) == lex_order(a@.skip(i as int), b@.skip(i as int)),
        decreases a@.len() - i,
    {
        assert(a@.skip(i as int).drop_first() =~= a@.skip(i + 1));
        assert(b@.skip(i as int).drop_first() =~= b@.skip(i + 1));
        i += 1;
    }
    if i == a.len() {
        true
    } else if i == b.len() {
        false
    } else {
        a[i] < b[i]
    }
}

/// The entries in name order: the same entries, sorted.
pub fn sort_entries(input: Vec<DirEntry>) -> (out: Vec<DirEntry>)
    ensures
        out@.to_multiset() == input@.to_multiset(),
        entries_sorted(out@),
{
    broadcast use vstd::seq_lib::group_to_multiset_ensures;
    let mut rest = input;
    let mut out: Vec<DirEntry> = Vec::new();
    let ghost orig = rest@.to_multiset();
    proof {
        broadcast use vstd::multiset::group_multiset_axioms;
        vstd::multiset::lemma_multiset_empty_len(out@.to_multiset());
        assert(rest@.to_multiset().add(out@.to_multiset()) =~= orig);
    }
    while rest.len() > 0
        invariant
            rest@.to_multiset().add(out@.to_multiset()) == orig,
            entries_sorted(out@),
            forall|i: int, k: int| 0 <= i < out@.len() && 0 <= k < rest@.len() ==> entry_le(#[trigger] out@[i], #[trigger] rest@[k]),
        decreases rest@.len(),
    {
        let mut m: usize = 0;
        let mut j: usize = 1;
        proof { lemma_entry_total(rest@[0], rest@[0]); }
        while j < rest.len()
            invariant
                0 <= m < j <= rest@.len(),
                forall|k: int| 0 <= k < j ==> entry_le(rest@[m as int], #[trigger] rest@[k]),
            decreases rest@.len() - j,
        {
            if !entry_le_exec(&rest[m], &rest[j]) {
                proof {
                    lemma_entry_total(rest@[m as int], rest@[j as int]);
                    assert forall|k: int| 0 <= k < j + 1 implies entry_le(rest@[j as int], #[trigger] rest@[k]) by {
                        if k < j {
                            lemma_entry_trans(rest@[j as int], rest@[m as int], rest@[k]);
                        } else {
                            lemma_entry_total(rest@[j as int], rest@[j as int]);
                        }
                    }
                }
                m = j;
            }
            j += 1;
        }
        let ghost r0 = rest@;
        let ghost o0 = out@;
        let x = rest.remove(m);
        out.push(x);
        proof {
            vstd::seq_lib::to_multiset_remove(r0, m as int);
            vstd::seq_lib::to_multiset_build(o0, x);
            assert(rest@ == r0.remove(m as int));
            assert(out@ == o0.push(x));
            assert(r0.contains(r0[m as int]));
            vstd::seq_lib::to_multiset_contains(r0, r0[m as int]);
            assert(rest@.to_multiset().add(out@.to_multiset()) =~= orig) by {
                broadcast use vstd::multiset::group_multiset_axioms;
            }
            assert forall|i: int, k: int| 0 <= i < out@.len() && 0 <= k < rest@.len() implies entry_le(#[trigger] out@[i], #[trigger] rest@[k]) by {
                if k < m {
                    assert(rest@[k] == r0[k]);
                } else {
                    assert(rest@[k] == r0[k + 1]);
                }
                if i < o0.len() {
                    assert(out@[i] == o0[i]);
                }
            }
            assert forall|i: int, j2: int| 0 <= i < j2 < out@.len() implies entry_le(#[trigger] out@[i], #[trigger] out@[j2]) by {
                assert(out@[i] == if i < o0.len() { o0[i] } else { x });
                if j2 < o0.len() {
                    assert(out@[j2] == o0[j2]);
                } else {
                    assert(out@[j2] == r0[m as int]);
                }
            }
        }
    }
    proof {
        broadcast use vstd::multiset::group_multiset_axioms;
        vstd::multiset::lemma_multiset_empty_len(rest@.to_multiset());
        assert(out@.to_multiset() =~= orig);
    }
    out
}

// ---------- the walk ----------

/// One directory being walked: its path, its entries in name order, the next one.
pub struct Frame {
    pub dir: String,
    pub items: Vec<DirEntry>,
    pub next: usize,
}

/// What the walk needs or gives next.
pub enum WalkStep {
    /// Read this directory and `feed` its entries.
    ReadDir(String),
    /// A file of the walk.
    File(String),
    /// An entry was passed over; step again.
    Skip,
    /// The walk is over.
    Done,
}

/// The view of a step.
pub enum WalkStepV {
    ReadDir(Seq<char>),
    File(Seq<char>),
    Skip,
    Done,
}

impl View for WalkStep {
    type V = WalkStepV;

    open spec fn view(&self) -> WalkStepV {
        match self {
            WalkStep::ReadDir(p) => WalkStepV::ReadDir(p@),
            WalkStep::File(p) => WalkStepV::File(p@),
            WalkStep::Skip => WalkStepV::Skip,
            WalkStep::Done => WalkStepV::Done,
        }
    }
}

/// A frame as values.
pub struct FrameV {
    pub dir: Seq<char>,
    pub items: Seq<DirEntry>,
    pub next: nat,
}

/// The walk as values: open directories (innermost last), the directory asked
/// for and not yet fed, and whether ignored directories are walked too.
pub struct WalkerV {
    pub frames: Seq<FrameV>,
    pub pending: Option<Seq<char>>,
    pub all: bool,
}

/// The walk.
pub struct Walker {
    frames: Vec<Frame>,
    pending: Option<String>,
    all: bool,
}

impl View for Walker {
    type V = WalkerV;

    closed spec fn view(&self) -> WalkerV {
        WalkerV {
            frames: self.frames@.map_values(|f: Frame| FrameV { dir: f.dir@, items: f.items@, next: f.next as nat }),
            pending: match self.pending { Some(p) => Some(p@), None => None },
            all: self.all,
        }
    }
}

/// Every frame's next position lies within its entries.
pub open spec fn walk_wf(w: WalkerV) -> bool {
    forall|i: int| 0 <= i < w.frames.len() ==> (#[trigger] w.frames[i]).next <= w.frames[i].items.len()
}

/// The step of the walk: finish the innermost directory when it is exhausted,
/// else take its next entry: dot entries and non-files pass, a directory is asked
/// for (unless ignored), a file is given.
pub open spec fn step_spec(w: WalkerV) -> (WalkerV, WalkStepV) {
    if w.frames.len() == 0 {
        (w, WalkStepV::Done)
    } else {
        let top = w.frames.last();
        if top.next >= top.items.len() {
            (WalkerV { frames: w.frames.drop_last(), ..w }, WalkStepV::Skip)
        } else {
            let e = top.items[top.next as int];
            let w1 = WalkerV { frames: w.frames.update(w.frames.len() - 1, FrameV { next: top.next + 1, ..top }), ..w };
            let path = join_segment(top.dir, e.name@);
            if e.name@.len() > 0 && e.name@[0] == '.' {
                (w1, WalkStepV::Skip)
            } else if e.is_dir {
                if !w.all && ignored_dir(e.name@) {
                    (w1, WalkStepV::Skip)
                } else {
                    (WalkerV { pending: Some(path), ..w1 }, WalkStepV::ReadDir(path))
                }
            } else if e.is_file {
                (w1, WalkStepV::File(path))
            } else {
                (w1, WalkStepV::Skip)
            }
        }
    }
}

impl Walker {
    /// A walk of `root`; the first step asks for `root` itself.
    pub fn new(root: &str, all: bool) -> (r: (Walker, WalkStep))
        ensures
            r.0@ == (WalkerV { frames: Seq::<FrameV>::empty(), pending: Some(root@), all }),
            r.1@ == WalkStepV::ReadDir(root@),
            walk_wf(r.0@),
    {
        let w = Walker { frames: Vec::new(), pending: Some(String::from_str(root)), all };
        assert(w@.frames =~= Seq::<FrameV>::empty());
        (w, WalkStep::ReadDir(String::from_str(root)))
    }

    /// The entries of the directory asked for (`None`: it could not be read and is
    /// passed over). They are walked in name order.
    pub fn feed(&mut self, entries: Option<Vec<DirEntry>>)
        requires
            old(self)@.pending is Some,
            walk_wf(old(self)@),
        ensures
            walk_wf(final(self)@),
            final(self)@.pending is None,
            final(self)@.all == old(self)@.all,
            match entries {
                None => final(self)@.frames == old(self)@.frames,
                Some(v) => final(self)@.frames.len() == old(self)@.frames.len() + 1
                    && final(self)@.frames.drop_last() == old(self)@.frames
                    && final(self)@.frames.last().dir == old(self)@.pending->0
                    && final(self)@.frames.last().next == 0
                    && final(self)@.frames.last().items.to_multiset() == v@.to_multiset()
                    && entries_sorted(final(self)@.frames.last().items),
            },
    {
        let mut p: Option<String> = None;
        std::mem::swap(&mut p, &mut self.pending);
        let dir = match p {
            Some(d) => d,
            None => String::new(),
        };
        match entries {
            None => {},
            Some(v) => {
                let items = sort_entries(v);
                let ghost before = self.frames@;
                self.frames.push(Frame { dir, items, next: 0 });
                proof {
                    let f = |f: Frame| FrameV { dir: f.dir@, items: f.items@, next: f.next as nat };
                    assert(self.frames@.map_values(f).drop_last() =~= before.map_values(f));
                }
            },
        }
        proof {
            let f = |f: Frame| FrameV { dir: f.dir@, items: f.items@, next: f.next as nat };
            assert forall|i: int| 0 <= i < self@.frames.len() implies (#[trigger] self@.frames[i]).next <= self@.frames[i].items.len() by {
                assert(self@.frames[i] == f(self.frames@[i]));
                if i < old(self)@.frames.len() {
                    assert(old(self)@.frames[i] == f(old(self).frames@[i]));
                    assert(self.frames@[i] == old(self).frames@[i]);
                }
            }
        }
    }

    /// One step of the walk.
    pub fn step(&mut self) -> (s: WalkStep)
        requires
            walk_wf(old(self)@),
            old(self)@.pending is None,
        ensures
            (final(self)@, s@) == step_spec(old(self)@),
            walk_wf(final(self)@),
    {
        let ghost f = |f: Frame| FrameV { dir: f.dir@, items: f.items@, next: f.next as nat };
        let ghost w0 = self@;
        let n = self.frames.len();
        if n == 0 {
            return WalkStep::Done;
        }
        let top_next = self.frames[n - 1].next;
        let top_len = self.frames[n - 1].items.len();
        proof { assert(w0.frames[n - 1] == f(self.frames@[n - 1])); }
        if top_next >= top_len {
            self.frames.pop();
            proof {
                assert(self@.frames =~= w0.frames.drop_last());
                assert forall|i: int| 0 <= i < self@.frames.len() implies (#[trigger] self@.frames[i]).next <= self@.frames[i].items.len() by {
                    assert(self@.frames[i] == w0.frames[i]);
                }
            }
            return WalkStep::Skip;
        }
        let e_name = self.frames[n - 1].items[top_next].name.clone();
        let e_dir = self.frames[n - 1].items[top_next].is_dir;
        let e_file = self.frames[n - 1].items[top_next].is_file;
        let path = join_segment_exec(self.frames[n - 1].dir.as_str(), &chars_of(e_name.as_str()));
        let mut top = self.frames.pop().unwrap();
        top.next = top.next + 1;
        self.frames.push(top);
        proof {
            let t0 = w0.frames.last();
            assert(self@.frames =~= w0.frames.update(w0.frames.len() - 1, FrameV { next: t0.next + 1, ..t0 }));
            assert forall|i: int| 0 <= i < self@.frames.len() implies (#[trigger] self@.frames[i]).next <= self@.frames[i].items.len() by {
                if i < n - 1 {
                    assert(self@.frames[i] == w0.frames[i]);
                }
            }
        }
        let nv = chars_of(e_name.as_str());
        if nv.len() > 0 && nv[0] == '.' {
            return WalkStep::Skip;
        }
        if e_dir {
            if !self.all && is_ignored_dir(e_name.as_str()) {
                return WalkStep::Skip;
            }
            self.pending = Some(path.clone());
            return WalkStep::ReadDir(path);
        }
        if e_file {
            return WalkStep::File(path);
        }
        WalkStep::Skip
    }
}

} // verus!
