//! Shared request state: cancellation of chat streams, the tool-cancellation
//! generation, and message truncation.

use vstd::prelude::*;
use crate::text::{chars_of, string_of, push_str, strs};

verus! {

/// At most `max` characters of `s`, with a note when something was cut.
pub open spec fn truncate_spec(s: Seq<char>, max: nat) -> Seq<char> {
    if s.len() <= max {
        s
    } else {
        s.take(max as int) + "\n…（已截断）"@
    }
}

/// At most `max` characters of `s`, with a note when something was cut.
pub fn truncate_str(s: &str, max: usize) -> (r: String)
    ensures
        r@ == truncate_spec(s@, max as nat),
{
    let v = chars_of(s);
    if v.len() <= max {
        String::from_str(s)
    } else {
        let mut r = string_of(&crate::text::copy_range(&v, 0, max));
        assert(v@.subrange(0, max as int) =~= s@.take(max as int));
        push_str(&mut r, "\n…（已截断）");
        r
    }
}

// ---------- tool cancellation ----------

/// The tool-cancellation generation: every stop request moves it on, so a call
/// that took a snapshot before starting can tell a user's stop from a failure.
pub struct ToolCancel {
    pub generation: u64,
}

impl ToolCancel {
    /// No stop requested yet.
    pub fn new() -> (r: ToolCancel)
        ensures
            r.generation == 0,
    {
        ToolCancel { generation: 0 }
    }

    /// A stop request (the counter wraps, as an atomic add does).
    pub fn cancel(&mut self)
        ensures
            final(self).generation == old(self).generation.wrapping_add(1),
    {
        self.generation = self.generation.wrapping_add(1);
    }

    /// The snapshot a call takes before it starts.
    pub fn tool_cancel_gen(&self) -> (r: u64)
        ensures
            r == self.generation,
    {
        self.generation
    }

    /// Whether a stop was requested since the snapshot `gen`.
    pub fn was_tool_cancelled(&self, gen: u64) -> (r: bool)
        ensures
            r == (self.generation != gen),
    {
        self.generation != gen
    }
}

/// A snapshot taken with no stop since reads as not cancelled, and a stop after
/// the snapshot always reads as cancelled (even when the counter wraps).
pub proof fn law_cancel_detected(snapshot: u64)
    ensures
        !(snapshot != snapshot),
        snapshot.wrapping_add(1) != snapshot,
{
}

// ---------- chat stream cancellation ----------

/// The streams that can be woken and the stops not yet consumed.
pub struct CancelRegistry {
    waiting: Vec<String>,
    cancelled: Vec<String>,
}

proof fn lemma_push_contains(s: Seq<Seq<char>>, x: Seq<char>)
    ensures
        forall|r: Seq<char>| #[trigger] s.push(x).contains(r) == (s.contains(r) || r == x),
{
    assert forall|r: Seq<char>| #[trigger] s.push(x).contains(r) == (s.contains(r) || r == x) by {
        if s.contains(r) {
            let k = choose|k: int| 0 <= k < s.len() && s[k] == r;
            assert(s.push(x)[k] == r);
        }
        if r == x {
            assert(s.push(x)[s.len() as int] == r);
        }
        if s.push(x).contains(r) {
            let k = choose|k: int| 0 <= k < s.len() + 1 && s.push(x)[k] == r;
            if k < s.len() {
                assert(s[k] == r);
            }
        }
    }
}

/// Removes every `rid` from a list.
fn remove_all(v: &mut Vec<String>, rid: &str)
    ensures
        forall|r: Seq<char>| strs(final(v)@).contains(r) == (strs(old(v)@).contains(r) && r != rid@),
{
    let ghost before = strs(v@);
    let mut out: Vec<String> = Vec::new();
    let mut i: usize = 0;
    assert(strs(out@) =~= Seq::<Seq<char>>::empty());
    assert(strs(v@).take(0) =~= Seq::<Seq<char>>::empty());
    while i < v.len()
        invariant
            i <= v@.len(),
            before == strs(v@),
            forall|r: Seq<char>| strs(out@).contains(r) == (strs(v@).take(i as int).contains(r) && r != rid@),
        decreases v@.len() - i,
    {
        let ghost o = strs(out@);
        assert(strs(v@).take(i + 1) =~= strs(v@).take(i as int).push(v@[i as int]@));
        proof {
            lemma_push_contains(strs(v@).take(i as int), v@[i as int]@);
            lemma_push_contains(o, v@[i as int]@);
        }
        if !crate::json::text_eq(v[i].as_str(), rid) {
            out.push(v[i].clone());
            assert(strs(out@) =~= o.push(v@[i as int]@));
        }
        i += 1;
    }
    assert(strs(v@).take(v@.len() as int) =~= strs(v@));
    *v = out;
}

/// Adds `rid` to a list unless it is there.
fn insert_once(v: &mut Vec<String>, rid: &str)
    ensures
        forall|r: Seq<char>| strs(final(v)@).contains(r) == (strs(old(v)@).contains(r) || r == rid@),
{
    if !list_has(v, rid) {
        let ghost before = strs(v@);
        v.push(String::from_str(rid));
        assert(strs(v@) =~= before.push(rid@));
        proof { lemma_push_contains(before, rid@); }
    }
}

fn list_has(v: &Vec<String>, rid: &str) -> (b: bool)
    ensures
        b == strs(v@).contains(rid@),
{
    let mut i: usize = 0;
    while i < v.len()
        invariant
            i <= v@.len(),
            forall|k: int| 0 <= k < i ==> strs(v@)[k] != rid@,
        decreases v@.len() - i,
    {
        if crate::json::text_eq(v[i].as_str(), rid) {
            assert(strs(v@)[i as int] == rid@);
            return true;
        }
        i += 1;
    }
    false
}

impl CancelRegistry {
    /// Whether the stream `rid` can be woken.
    pub closed spec fn is_waiting(&self, rid: Seq<char>) -> bool {
        strs(self.waiting@).contains(rid)
    }

    /// Whether a stop for `rid` waits to be consumed.
    pub closed spec fn is_cancelled(&self, rid: Seq<char>) -> bool {
        strs(self.cancelled@).contains(rid)
    }

    /// Nothing registered.
    pub fn new() -> (r: CancelRegistry)
        ensures
            forall|x: Seq<char>| !r.is_waiting(x) && !r.is_cancelled(x),
    {
        let r = CancelRegistry { waiting: Vec::new(), cancelled: Vec::new() };
        assert(strs(r.waiting@) =~= Seq::<Seq<char>>::empty());
        assert(strs(r.cancelled@) =~= Seq::<Seq<char>>::empty());
        r
    }

    /// Registers a stream before it starts, so an early stop still wakes it.
    pub fn register_cancel(&mut self, rid: &str)
        ensures
            forall|x: Seq<char>| final(self).is_waiting(x) == (old(self).is_waiting(x) || x == rid@),
            forall|x: Seq<char>| final(self).is_cancelled(x) == old(self).is_cancelled(x),
    {
        insert_once(&mut self.waiting, rid);
    }

    /// The stream is over: forget its waker and any stop nobody consumed.
    pub fn unregister_cancel(&mut self, rid: &str)
        ensures
            forall|x: Seq<char>| final(self).is_waiting(x) == (old(self).is_waiting(x) && x != rid@),
            forall|x: Seq<char>| final(self).is_cancelled(x) == (old(self).is_cancelled(x) && x != rid@),
    {
        remove_all(&mut self.waiting, rid);
        remove_all(&mut self.cancelled, rid);
    }

    /// A stop request for `rid`; returns whether its stream can be woken at once.
    pub fn chat_cancel(&mut self, rid: &str) -> (woken: bool)
        ensures
            woken == old(self).is_waiting(rid@),
            forall|x: Seq<char>| final(self).is_cancelled(x) == (old(self).is_cancelled(x) || x == rid@),
            forall|x: Seq<char>| final(self).is_waiting(x) == old(self).is_waiting(x),
    {
        insert_once(&mut self.cancelled, rid);
        list_has(&self.waiting, rid)
    }

    /// Consumes a pending stop for `rid`; returns whether there was one.
    pub fn take_cancelled(&mut self, rid: &str) -> (r: bool)
        ensures
            r == old(self).is_cancelled(rid@),
            forall|x: Seq<char>| final(self).is_cancelled(x) == (old(self).is_cancelled(x) && x != rid@),
            forall|x: Seq<char>| final(self).is_waiting(x) == old(self).is_waiting(x),
    {
        let had = list_has(&self.cancelled, rid);
        remove_all(&mut self.cancelled, rid);
        had
    }
}

/// A stop requested for a stream is seen by that stream once, and an ended
/// stream leaves nothing behind.
pub proof fn lemma_cancel_lifecycle(before: CancelRegistry, after_cancel: CancelRegistry, after_take: CancelRegistry, rid: Seq<char>)
    requires
        forall|x: Seq<char>| after_cancel.is_cancelled(x) == (before.is_cancelled(x) || x == rid),
        forall|x: Seq<char>| after_take.is_cancelled(x) == (after_cancel.is_cancelled(x) && x != rid),
    ensures
        after_cancel.is_cancelled(rid),
        !after_take.is_cancelled(rid),
{
}

} // verus!
