//! Ordering of names: code-point order, the listing order (directories first,
//! then names compared case-insensitively with the exact name breaking ties),
//! and a sort that puts entries in such an order.

use vstd::prelude::*;
use std::cmp::Ordering;
use crate::text::{lowercase, to_lowercase, chars_of};

verus! {

/// Code-point (lexicographic) order of two texts: -1, 0 or 1.
pub open spec fn lex_order(a: Seq<char>, b: Seq<char>) -> int
    decreases a.len(),
{
    if a.len() == 0 && b.len() == 0 {
        0
    } else if a.len() == 0 {
        -1
    } else if b.len() == 0 {
        1
    } else if a[0] < b[0] {
        -1
    } else if a[0] > b[0] {
        1
    } else {
        lex_order(a.drop_first(), b.drop_first())
    }
}

pub proof fn lemma_lex_antisym(a: Seq<char>, b: Seq<char>)
    ensures
        lex_order(a, b) == -lex_order(b, a),
        -1 <= lex_order(a, b) <= 1,
        lex_order(a, b) == 0 <==> a == b,
    decreases a.len(),
{
    if a.len() > 0 && b.len() > 0 && a[0] == b[0] {
        lemma_lex_antisym(a.drop_first(), b.drop_first());
        if a.drop_first() == b.drop_first() {
            assert(a =~= seq![a[0]] + a.drop_first());
            assert(b =~= seq![b[0]] + b.drop_first());
        }
    }
    if a.len() == 0 && b.len() == 0 {
        assert(a =~= b);
    }
}

pub proof fn lemma_lex_trans(a: Seq<char>, b: Seq<char>, c: Seq<char>)
    requires
        lex_order(a, b) <= 0,
        lex_order(b, c) <= 0,
    ensures
        lex_order(a, c) <= 0,
        (lex_order(a, b) < 0 || lex_order(b, c) < 0) ==> lex_order(a, c) < 0,
    decreases a.len(),
{
    lemma_lex_antisym(a, b);
    lemma_lex_antisym(b, c);
    lemma_lex_antisym(a, c);
    if a.len() > 0 && b.len() > 0 && c.len() > 0 && a[0] == b[0] && b[0] == c[0] {
        lemma_lex_trans(a.drop_first(), b.drop_first(), c.drop_first());
    }
}

fn lex_order_exec(a: &[char], b: &[char]) -> (r: i8)
    ensures
        r == lex_order(a@, b@),
{
    let mut i: usize = 0;
    assert(a@.skip(0) =~= a@);
    assert(b@.skip(0) =~= b@);
    while i < a.len() && i < b.len() && a[i] == b[i]
        invariant
            i <= a@.len(),
            i <= b@.len(),
            lex_order(a@, b@) == lex_order(a@.skip(i as int), b@.skip(i as int)),
        decreases a@.len() - i,
    {
        assert(a@.skip(i as int).drop_first() =~= a@.skip(i + 1));
        assert(b@.skip(i as int).drop_first() =~= b@.skip(i + 1));
        i += 1;
    }
    if i == a.len() && i == b.len() {
        0
    } else if i == a.len() {
        -1
    } else if i == b.len() {
        1
    } else if a[i] < b[i] {
        -1
    } else {
        1
    }
}

// ---------- the listing order ----------

/// A sort entry: a flag that puts an entry first (directories), a primary and a
/// secondary text key, and the entry's position in the caller's list.
pub struct SortKey {
    pub first: bool,
    pub primary: Vec<char>,
    pub secondary: Vec<char>,
    pub idx: usize,
}

/// `x` may come before `y`.
pub open spec fn key_le(x: SortKey, y: SortKey) -> bool {
    if x.first != y.first {
        x.first
    } else {
        let c = lex_order(x.primary@, y.primary@);
        c < 0 || (c == 0 && lex_order(x.secondary@, y.secondary@) <= 0)
    }
}

/// Every entry may come before every later one.
pub open spec fn sorted_keys(s: Seq<SortKey>) -> bool {
    forall|i: int, j: int| 0 <= i < j < s.len() ==> key_le(#[trigger] s[i], #[trigger] s[j])
}

proof fn lemma_key_total(x: SortKey, y: SortKey)
    ensures
        key_le(x, y) || key_le(y, x),
{
    lemma_lex_antisym(x.primary@, y.primary@);
    lemma_lex_antisym(x.secondary@, y.secondary@);
}

proof fn lemma_key_trans(x: SortKey, y: SortKey, z: SortKey)
    requires
        key_le(x, y),
        key_le(y, z),
    ensures
        key_le(x, z),
{
    if x.first == y.first && y.first == z.first {
        lemma_lex_antisym(x.primary@, y.primary@);
        lemma_lex_antisym(y.primary@, z.primary@);
        lemma_lex_trans(x.primary@, y.primary@, z.primary@);
        if lex_order(x.primary@, y.primary@) == 0 && lex_order(y.primary@, z.primary@) == 0 {
            lemma_lex_trans(x.secondary@, y.secondary@, z.secondary@);
        }
    }
}

fn key_le_exec(x: &SortKey, y: &SortKey) -> (r: bool)
    ensures
        r == key_le(*x, *y),
{
    if x.first != y.first {
        x.first
    } else {
        let c = lex_order_exec(&x.primary, &y.primary);
        c < 0 || (c == 0 && lex_order_exec(&x.secondary, &y.secondary) <= 0)
    }
}

/// The entries in order: the same entries, each one allowed before every later one.
pub fn sort_keys(input: Vec<SortKey>) -> (out: Vec<SortKey>)
    ensures
        out@.to_multiset() == input@.to_multiset(),
        sorted_keys(out@),
{
    broadcast use vstd::seq_lib::group_to_multiset_ensures;
    let mut rest = input;
    let mut out: Vec<SortKey> = Vec::new();
    let ghost orig = rest@.to_multiset();
    proof {
        broadcast use vstd::multiset::group_multiset_axioms;
        vstd::multiset::lemma_multiset_empty_len(out@.to_multiset());
        assert(rest@.to_multiset().add(out@.to_multiset()) =~= orig);
    }
    while rest.len() > 0
        invariant
            rest@.to_multiset().add(out@.to_multiset()) == orig,
            sorted_keys(out@),
            forall|i: int, k: int| 0 <= i < out@.len() && 0 <= k < rest@.len() ==> key_le(#[trigger] out@[i], #[trigger] rest@[k]),
        decreases rest@.len(),
    {
        let mut m: usize = 0;
        let mut j: usize = 1;
        proof { lemma_key_total(rest@[0], rest@[0]); }
        while j < rest.len()
            invariant
                0 <= m < j <= rest@.len(),
                forall|k: int| 0 <= k < j ==> key_le(rest@[m as int], #[trigger] rest@[k]),
            decreases rest@.len() - j,
        {
            if !key_le_exec(&rest[m], &rest[j]) {
                proof {
                    lemma_key_total(rest@[m as int], rest@[j as int]);
                    assert forall|k: int| 0 <= k < j + 1 implies key_le(rest@[j as int], #[trigger] rest@[k]) by {
                        if k < j {
                            lemma_key_trans(rest@[j as int], rest@[m as int], rest@[k]);
                        } else {
                            lemma_key_total(rest@[j as int], rest@[j as int]);
                        }
                    }
                }
                m = j;
            }
            j += 1;
        }
        let ghost r0 = rest@;
        let ghost o0 = out@;
        let x = rest.remove(m);
        out.push(x);
        proof {
            vstd::seq_lib::to_multiset_remove(r0, m as int);
            vstd::seq_lib::to_multiset_build(o0, x);
            assert(rest@ == r0.remove(m as int));
            assert(out@ == o0.push(x));
            assert(o0.push(x).to_multiset() =~= o0.to_multiset().insert(x));
            assert(r0.contains(r0[m as int]));
            vstd::seq_lib::to_multiset_contains(r0, r0[m as int]);
            assert(r0.to_multiset().count(r0[m as int]) > 0);
            assert(rest@.to_multiset().add(out@.to_multiset()) =~= orig) by {
                broadcast use vstd::multiset::group_multiset_axioms;
            }
            assert forall|i: int, k: int| 0 <= i < out@.len() && 0 <= k < rest@.len() implies key_le(#[trigger] out@[i], #[trigger] rest@[k]) by {
                if k < m {
                    assert(rest@[k] == r0[k]);
                } else {
                    assert(rest@[k] == r0[k + 1]);
                }
                if i < o0.len() {
                    assert(out@[i] == o0[i]);
                }
            }
            assert forall|i: int, j2: int| 0 <= i < j2 < out@.len() implies key_le(#[trigger] out@[i], #[trigger] out@[j2]) by {
                if j2 < o0.len() {
                    assert(out@[i] == o0[i]);
                    assert(out@[j2] == o0[j2]);
                } else {
                    assert(out@[i] == o0[i]);
                    assert(out@[j2] == r0[m as int]);
                }
            }
        }
    }
    proof {
        broadcast use vstd::multiset::group_multiset_axioms;
        vstd::multiset::lemma_multiset_empty_len(rest@.to_multiset());
        assert(out@.to_multiset() =~= orig);
    }
    out
}

/// The locale-like order of two names: case-insensitive first, then exact.
pub open spec fn locale_order(a: Seq<char>, b: Seq<char>) -> int {
    let c = lex_order(lowercase(a), lowercase(b));
    if c != 0 { c } else { lex_order(a, b) }
}

/// An approximation of `localeCompare`: the lower-case texts in code-point
/// order, ties broken by the exact texts.
pub fn locale_like_cmp(a: &str, b: &str) -> (r: Ordering)
    ensures
        r == (if locale_order(a@, b@) < 0 {
            Ordering::Less
        } else if locale_order(a@, b@) == 0 {
            Ordering::Equal
        } else {
            Ordering::Greater
        }),
{
    let la = chars_of(to_lowercase(a).as_str());
    let lb = chars_of(to_lowercase(b).as_str());
    let c = lex_order_exec(&la, &lb);
    let d = if c != 0 { c } else { lex_order_exec(&chars_of(a), &chars_of(b)) };
    if d < 0 {
        Ordering::Less
    } else if d == 0 {
        Ordering::Equal
    } else {
        Ordering::Greater
    }
}

} // verus!
