//! The file-writing tools `write`, `edit` and `patch`: what they compute from
//! the file's text and the arguments (the file system itself is touched by the caller).
//!
//! `patch` applies a unified diff: each hunk is located by its context and
//! removed lines ("expected") near its old start line, and replaced by its
//! context and added lines ("replacement"), so context lines are kept.

use vstd::prelude::*;
use crate::text::{push_chars, split_count, utf16_len_chars, utf16_len_spec, chars_eq, copy_range, dec, join_chars, join_seq, push_dec, push_str, string_of, chars_of, split_chars, split_seq, starts_with, vview, count_digits, digits_value, has_prefix, is_digit, lead_digits, lemma_lead_digits, parse_digits};

verus! {

// ---------- hunk headers ----------

/// `@@ -`
pub open spec fn hdr_open() -> Seq<char> { seq!['@', '@', ' ', '-'] }
/// ` +`
pub open spec fn hdr_plus() -> Seq<char> { seq![' ', '+'] }
/// ` @@`
pub open spec fn hdr_close() -> Seq<char> { seq![' ', '@', '@'] }

/// After a mandatory digit run: an optional `,<digits>` part; `None` when a
/// comma is not followed by a digit.
pub open spec fn skip_opt_count(s: Seq<char>) -> Option<Seq<char>> {
    if s.len() > 0 && s[0] == ',' {
        let n = lead_digits(s.skip(1));
        if n == 0 { None } else { Some(s.skip(1 + n as int)) }
    } else {
        Some(s)
    }
}

/// The old start line of a hunk header line
/// `@@ -<old>[,<n>] +<new>[,<n>] @@...`, when `line` is one and `<old>` fits a `usize`.
pub open spec fn hunk_header_spec(line: Seq<char>) -> Option<nat> {
    if !has_prefix(line, hdr_open()) {
        None
    } else {
        let r = line.skip(4);
        let n1 = lead_digits(r);
        let v = digits_value(r.take(n1 as int));
        if n1 == 0 || v > usize::MAX {
            None
        } else {
            match skip_opt_count(r.skip(n1 as int)) {
                None => None,
                Some(r2) => {
                    if !has_prefix(r2, hdr_plus()) {
                        None
                    } else {
                        let r3 = r2.skip(2);
                        let n3 = lead_digits(r3);
                        if n3 == 0 {
                            None
                        } else {
                            match skip_opt_count(r3.skip(n3 as int)) {
                                None => None,
                                Some(r4) => if has_prefix(r4, hdr_close()) { Some(v) } else { None },
                            }
                        }
                    }
                }
            }
        }
    }
}

/// Number of leading ASCII digits of `s` (the digit run a number is read from);
/// `None` when `s` does not begin with a digit.
pub fn take_digits(s: &[char]) -> (r: Option<usize>)
    ensures
        r == (if lead_digits(s@) == 0 { None::<usize> } else { Some(lead_digits(s@) as usize) }),
{
    let n = count_digits(s, 0);
    assert(s@.skip(0) == s@);
    if n == 0 { None } else { Some(n) }
}

/// Position after an optional `,<digits>` at `v[i..]`.
fn skip_count_at(v: &[char], i: usize) -> (r: Option<usize>)
    requires
        i <= v@.len(),
    ensures
        match skip_opt_count(v@.skip(i as int)) {
            None => r is None,
            Some(rest) => r matches Some(j) && i <= j <= v@.len() && rest == v@.skip(j as int),
        },
{
    let ghost s = v@.skip(i as int);
    if i < v.len() && v[i] == ',' {
        assert(s[0] == ',');
        let n = count_digits(v, i + 1);
        assert(s.skip(1) == v@.skip(i + 1));
        if n == 0 {
            None
        } else {
            assert(s.skip(1 + n) == v@.skip(i + 1 + n));
            Some(i + 1 + n)
        }
    } else {
        Some(i)
    }
}

/// Whether `v[i..]` begins with the characters `p`.
fn prefix_at(v: &[char], i: usize, p: &[char]) -> (r: bool)
    requires
        i <= v@.len(),
    ensures
        r == has_prefix(v@.skip(i as int), p@),
{
    if v.len() - i < p.len() {
        return false;
    }
    let mut k: usize = 0;
    while k < p.len()
        invariant
            v@.len() == v.len(),
            i + p@.len() <= v@.len(),
            k <= p@.len(),
            forall|m: int| 0 <= m < k ==> v@[i + m] == p@[m],
        decreases p@.len() - k,
    {
        if v[i + k] != p[k] {
            assert(v@.skip(i as int).take(p@.len() as int)[k as int] != p@[k as int]);
            return false;
        }
        k += 1;
    }
    assert(v@.skip(i as int).take(p@.len() as int) =~= p@);
    true
}

/// The old start line of a hunk header `@@ -<old>[,<n>] +<new>[,<n>] @@`.
pub fn hunk_header(line: &[char]) -> (r: Option<usize>)
    ensures
        r == (match hunk_header_spec(line@) { Some(v) => Some(v as usize), None => None::<usize> }),
{
    let open_p = ['@', '@', ' ', '-'];
    let plus_p = [' ', '+'];
    let close_p = [' ', '@', '@'];
    assert(open_p@ == hdr_open());
    assert(plus_p@ == hdr_plus());
    assert(close_p@ == hdr_close());
    assert(line@.len() == line.len());
    if !prefix_at(line, 0, &open_p) {
        assert(line@.skip(0) == line@);
        return None;
    }
    assert(line@.skip(0) == line@);
    let ghost r = line@.skip(4);
    let n1 = count_digits(line, 4);
    if n1 == 0 {
        return None;
    }
    proof { lemma_lead_digits(r); }
    assert forall|k: int| 4 <= k < 4 + n1 implies is_digit(#[trigger] line@[k]) by {
        assert(line@[k] == r[k - 4]);
    }
    assert(line@.subrange(4, 4 + n1 as int) == r.take(n1 as int));
    let old_start = match parse_digits(line, 4, 4 + n1) {
        Some(v) => v,
        None => return None,
    };
    assert(r.skip(n1 as int) == line@.skip(4 + n1));
    let i2 = match skip_count_at(line, 4 + n1) {
        Some(j) => j,
        None => return None,
    };
    if !prefix_at(line, i2, &plus_p) {
        return None;
    }
    assert(line@.skip(i2 as int).skip(2) == line@.skip(i2 + 2));
    let n3 = count_digits(line, i2 + 2);
    if n3 == 0 {
        return None;
    }
    assert(line@.skip(i2 + 2).skip(n3 as int) == line@.skip(i2 + 2 + n3));
    let i4 = match skip_count_at(line, i2 + 2 + n3) {
        Some(j) => j,
        None => return None,
    };
    if prefix_at(line, i4, &close_p) {
        Some(old_start)
    } else {
        None
    }
}

} // verus!

verus! {

// ---------- parsing a unified diff ----------

/// One `@@` hunk of a unified diff: its old start line and its body lines
/// (each still carrying its ` `, `-` or `+` marker).
#[derive(Debug)]
pub struct Hunk {
    pub old_start: usize,
    pub lines: Vec<Vec<char>>,
}

/// A hunk as mathematical values.
pub struct HunkView {
    pub old_start: nat,
    pub lines: Seq<Seq<char>>,
}

impl View for Hunk {
    type V = HunkView;

    open spec fn view(&self) -> HunkView {
        HunkView { old_start: self.old_start as nat, lines: vview(self.lines@) }
    }
}

pub open spec fn hunks_view(hs: Seq<Hunk>) -> Seq<HunkView> {
    hs.map_values(|h: Hunk| h@)
}

/// `---`
pub open spec fn triple_minus() -> Seq<char> { seq!['-', '-', '-'] }
/// `+++`
pub open spec fn triple_plus() -> Seq<char> { seq!['+', '+', '+'] }

/// The diff without one trailing newline (which would otherwise yield a phantom empty line).
pub open spec fn diff_body(d: Seq<char>) -> Seq<char> {
    if d.len() > 0 && d.last() == '\n' { d.drop_last() } else { d }
}

/// A line without one trailing carriage return.
pub open spec fn strip_cr(l: Seq<char>) -> Seq<char> {
    if l.len() > 0 && l.last() == '\r' { l.drop_last() } else { l }
}

/// The lines of a diff.
pub open spec fn diff_lines(d: Seq<char>) -> Seq<Seq<char>> {
    split_seq(diff_body(d), '\n').map_values(|l: Seq<char>| strip_cr(l))
}

/// Hunks read from diff lines: a header line opens a hunk; before the first
/// header, and wherever a line starts with `---` or `+++`, lines are skipped;
/// every other line is appended to the current hunk.
pub open spec fn parse_hunks(lines: Seq<Seq<char>>) -> Seq<HunkView>
    decreases lines.len(),
{
    if lines.len() == 0 {
        Seq::<HunkView>::empty()
    } else {
        let hs = parse_hunks(lines.drop_last());
        let l = lines.last();
        match hunk_header_spec(l) {
            Some(n) => hs.push(HunkView { old_start: n, lines: Seq::<Seq<char>>::empty() }),
            None => {
                if hs.len() == 0 || has_prefix(l, triple_minus()) || has_prefix(l, triple_plus()) {
                    hs
                } else {
                    hs.update(
                        hs.len() - 1,
                        HunkView { old_start: hs.last().old_start, lines: hs.last().lines.push(l) },
                    )
                }
            },
        }
    }
}

/// The hunks of a unified diff.
pub open spec fn parse_diff_spec(d: Seq<char>) -> Seq<HunkView> {
    parse_hunks(diff_lines(d))
}

fn body_and_lines(diff: &str) -> (lines: Vec<Vec<char>>)
    ensures
        vview(lines@) == split_seq(diff_body(diff@), '\n'),
{
    let mut d = chars_of(diff);
    if d.len() > 0 && d[d.len() - 1] == '\n' {
        d.pop();
    }
    let lines = split_chars(&d, '\n');
    lines
}

fn strip_cr_exec(l: &mut Vec<char>)
    ensures
        final(l)@ == strip_cr(old(l)@),
{
    if l.len() > 0 && l[l.len() - 1] == '\r' {
        l.pop();
    }
}

/// Parses a unified diff into its hunks.
pub fn parse_unified_diff(diff: &str) -> (hunks: Vec<Hunk>)
    ensures
        hunks_view(hunks@) == parse_diff_spec(diff@),
{
    let raw = body_and_lines(diff);
    let ghost all = diff_lines(diff@);
    let mut hunks: Vec<Hunk> = Vec::new();
    let minus3 = ['-', '-', '-'];
    let plus3 = ['+', '+', '+'];
    assert(minus3@ == triple_minus());
    assert(plus3@ == triple_plus());
    let mut i: usize = 0;
    assert(all.take(0) == Seq::<Seq<char>>::empty());
    assert(hunks_view(hunks@) =~= Seq::<HunkView>::empty());
    while i < raw.len()
        invariant
            i <= raw@.len(),
            all.len() == raw@.len(),
            all == split_seq(diff_body(diff@), '\n').map_values(|l: Seq<char>| strip_cr(l)),
            vview(raw@) == split_seq(diff_body(diff@), '\n'),
            hunks_view(hunks@) == parse_hunks(all.take(i as int)),
            minus3@ == triple_minus(),
            plus3@ == triple_plus(),
        decreases raw@.len() - i,
    {
        let mut line = raw[i].clone();
        assert(line@ == raw@[i as int]@);
        strip_cr_exec(&mut line);
        assert(vview(raw@)[i as int] == raw@[i as int]@);
        assert(line@ == all[i as int]);
        let ghost pre = hunks_view(hunks@);
        assert(all.take(i + 1).drop_last() == all.take(i as int));
        assert(all.take(i + 1).last() == line@);
        match hunk_header(&line) {
            Some(old_start) => {
                let fresh: Vec<Vec<char>> = Vec::new();
                assert(vview(fresh@) =~= Seq::<Seq<char>>::empty());
                hunks.push(Hunk { old_start, lines: fresh });
                assert(hunks_view(hunks@) =~= pre.push(HunkView { old_start: old_start as nat, lines: Seq::<Seq<char>>::empty() }));
            }
            None => {
                if hunks.len() == 0 || starts_with(&line, &minus3) || starts_with(&line, &plus3) {
                } else {
                    let last = hunks.len() - 1;
                    let mut h = hunks.pop().unwrap();
                    let ghost hl = h.lines@;
                    let ghost lv = line@;
                    h.lines.push(line);
                    assert(vview(h.lines@) =~= vview(hl).push(lv));
                    hunks.push(h);
                    assert(hunks_view(hunks@) =~= pre.update(last as int, HunkView { old_start: pre.last().old_start, lines: pre.last().lines.push(lv) }));
                }
            }
        }
        i += 1;
    }
    assert(all.take(raw@.len() as int) == all);
    hunks
}

} // verus!

verus! {

// ---------- applying hunks ----------

/// A line without its first character (`slice(1)`); the empty line stays empty.
pub open spec fn drop_marker(l: Seq<char>) -> Seq<char> {
    if l.len() == 0 { l } else { l.skip(1) }
}

/// The lines a hunk expects to find: its context and removed lines, markers dropped.
pub open spec fn expected_of(ls: Seq<Seq<char>>) -> Seq<Seq<char>>
    decreases ls.len(),
{
    if ls.len() == 0 {
        Seq::<Seq<char>>::empty()
    } else {
        let e = expected_of(ls.drop_last());
        let l = ls.last();
        if l.len() > 0 && l[0] == '+' { e } else { e.push(drop_marker(l)) }
    }
}

/// The lines a hunk puts in their place: its context and added lines, markers dropped
/// (a `+++` line adds nothing).
pub open spec fn replacement_of(ls: Seq<Seq<char>>) -> Seq<Seq<char>>
    decreases ls.len(),
{
    if ls.len() == 0 {
        Seq::<Seq<char>>::empty()
    } else {
        let r = replacement_of(ls.drop_last());
        let l = ls.last();
        if l.len() > 0 && l[0] == '+' {
            if has_prefix(l, triple_plus()) { r } else { r.push(l.skip(1)) }
        } else if l.len() > 0 && l[0] == '-' {
            r
        } else {
            r.push(drop_marker(l))
        }
    }
}

/// `exp` occurs in `lines` starting at index `c`.
pub open spec fn fits_at(lines: Seq<Seq<char>>, exp: Seq<Seq<char>>, c: int) -> bool {
    0 <= c && c + exp.len() <= lines.len() && lines.subrange(c, c + exp.len() as int) == exp
}

/// Nearest match of `exp` at distance `d..=50` from `start`, trying `start + d` before `start - d`
/// (the latter clamped at 0).
pub open spec fn search_from(lines: Seq<Seq<char>>, exp: Seq<Seq<char>>, start: int, d: int) -> Option<int>
    decreases 51 - d,
{
    if d > 50 || d < 0 {
        None
    } else if fits_at(lines, exp, start + d) {
        Some(start + d)
    } else if fits_at(lines, exp, if start - d > 0 { start - d } else { 0 }) {
        Some(if start - d > 0 { start - d } else { 0 })
    } else {
        search_from(lines, exp, start, d + 1)
    }
}

/// Where a hunk applies: a hunk that expects nothing inserts after line `old_start`
/// (at most at the end); otherwise the nearest match within 50 lines of line `old_start`.
pub open spec fn locate(lines: Seq<Seq<char>>, old_start: nat, exp: Seq<Seq<char>>) -> Option<int> {
    if exp.len() == 0 {
        Some(if old_start < lines.len() { old_start as int } else { lines.len() as int })
    } else {
        search_from(lines, exp, if old_start > 0 { old_start - 1 } else { 0 }, 0)
    }
}

/// Applies the hunks in order; `Err(n)` names the old start line of the first hunk that does not apply.
pub open spec fn apply_spec(lines: Seq<Seq<char>>, hunks: Seq<HunkView>) -> Result<Seq<Seq<char>>, nat>
    decreases hunks.len(),
{
    if hunks.len() == 0 {
        Ok(lines)
    } else {
        let h = hunks[0];
        let e = expected_of(h.lines);
        match locate(lines, h.old_start, e) {
            None => Err(h.old_start),
            Some(p) => apply_spec(
                lines.take(p) + replacement_of(h.lines) + lines.skip(p + e.len()),
                hunks.drop_first(),
            ),
        }
    }
}

/// The lines of a file's text; an empty text has none.
pub open spec fn text_lines(content: Seq<char>) -> Seq<Seq<char>> {
    if content.len() == 0 { Seq::<Seq<char>>::empty() } else { split_seq(content, '\n') }
}

/// The message of a hunk that cannot be applied.
pub open spec fn mismatch_message(old_start: nat) -> Seq<char> {
    "补丁无法应用：第 "@ + dec(old_start) + " 行附近的内容与 diff 不匹配（文件可能已被修改，请先 read 最新内容）"@
}

/// What applying the hunks to a file's text gives: the new text, or the mismatch message.
pub open spec fn apply_hunks_spec(content: Seq<char>, hunks: Seq<HunkView>) -> Result<Seq<char>, Seq<char>> {
    match apply_spec(text_lines(content), hunks) {
        Ok(ls) => Ok(join_seq(ls, seq!['\n'])),
        Err(n) => Err(mismatch_message(n)),
    }
}

/// `String.prototype.slice(1)` on a diff line: drops its first character.
pub fn slice1(s: &[char]) -> (r: Vec<char>)
    ensures
        r@ == drop_marker(s@),
{
    if s.len() == 0 {
        Vec::new()
    } else {
        copy_range(s, 1, s.len())
    }
}

fn split_hunk(lines: &Vec<Vec<char>>) -> (r: (Vec<Vec<char>>, Vec<Vec<char>>))
    ensures
        vview(r.0@) == expected_of(vview(lines@)),
        vview(r.1@) == replacement_of(vview(lines@)),
{
    let mut expected: Vec<Vec<char>> = Vec::new();
    let mut replacement: Vec<Vec<char>> = Vec::new();
    let plus3 = ['+', '+', '+'];
    assert(plus3@ == triple_plus());
    let ghost all = vview(lines@);
    let mut i: usize = 0;
    assert(all.take(0) == Seq::<Seq<char>>::empty());
    assert(vview(expected@) =~= Seq::<Seq<char>>::empty());
    assert(vview(replacement@) =~= Seq::<Seq<char>>::empty());
    while i < lines.len()
        invariant
            i <= lines@.len(),
            all == vview(lines@),
            plus3@ == triple_plus(),
            vview(expected@) == expected_of(all.take(i as int)),
            vview(replacement@) == replacement_of(all.take(i as int)),
        decreases lines@.len() - i,
    {
        let l = &lines[i];
        assert(all[i as int] == l@);
        assert(all.take(i + 1).drop_last() == all.take(i as int));
        assert(all.take(i + 1).last() == l@);
        let ghost e0 = vview(expected@);
        let ghost r0 = vview(replacement@);
        if l.len() > 0 && l[0] == '+' {
            if !starts_with(l, &plus3) {
                let rest = copy_range(l, 1, l.len());
                let ghost rv = rest@;
                replacement.push(rest);
                assert(vview(replacement@) =~= r0.push(rv));
            }
        } else {
            let text = slice1(l);
            let ghost tv = text@;
            if l.len() > 0 && l[0] == '-' {
                expected.push(text);
                assert(vview(expected@) =~= e0.push(tv));
            } else {
                expected.push(text.clone());
                replacement.push(text);
                assert(vview(expected@) =~= e0.push(tv));
                assert(vview(replacement@) =~= r0.push(tv));
            }
        }
        i += 1;
    }
    assert(all.take(lines@.len() as int) == all);
    (expected, replacement)
}

/// Whether `exp` occurs in `lines` at `c`.
fn fits_at_exec(lines: &Vec<Vec<char>>, exp: &Vec<Vec<char>>, c: usize) -> (r: bool)
    ensures
        r == fits_at(vview(lines@), vview(exp@), c as int),
{
    if c > lines.len() || lines.len() - c < exp.len() {
        return false;
    }
    let ghost lv = vview(lines@);
    let ghost ev = vview(exp@);
    let mut i: usize = 0;
    while i < exp.len()
        invariant
            lines@.len() == lines.len(),
            c + exp@.len() <= lines@.len(),
            i <= exp@.len(),
            lv == vview(lines@),
            ev == vview(exp@),
            forall|k: int| 0 <= k < i ==> lv[c + k] == ev[k],
        decreases exp@.len() - i,
    {
        if !chars_eq(&lines[c + i], &exp[i]) {
            assert(lv.subrange(c as int, c + ev.len())[i as int] != ev[i as int]);
            return false;
        }
        i += 1;
    }
    assert(lv.subrange(c as int, c + ev.len()) =~= ev);
    true
}

proof fn lemma_search_fits(lines: Seq<Seq<char>>, exp: Seq<Seq<char>>, start: int, d: int)
    ensures
        search_from(lines, exp, start, d) matches Some(p) ==> fits_at(lines, exp, p),
    decreases 51 - d,
{
    if 0 <= d <= 50 {
        lemma_search_fits(lines, exp, start, d + 1);
    }
}

/// Finds where a hunk applies (see `locate`).
fn locate_exec(lines: &Vec<Vec<char>>, old_start: usize, exp: &Vec<Vec<char>>) -> (r: Option<usize>)
    ensures
        r is Some <==> locate(vview(lines@), old_start as nat, vview(exp@)) is Some,
        r matches Some(p) ==> locate(vview(lines@), old_start as nat, vview(exp@)) == Some(p as int)
            && p <= lines@.len() && fits_at(vview(lines@), vview(exp@), p as int),
{
    proof { lemma_search_fits(vview(lines@), vview(exp@), if old_start > 0 { old_start - 1 } else { 0 }, 0); }
    assert(vview(lines@).subrange(if old_start < lines@.len() { old_start as int } else { lines@.len() as int }, if old_start < lines@.len() { old_start as int } else { lines@.len() as int }) =~= Seq::<Seq<char>>::empty());
    let ghost lv = vview(lines@);
    let ghost ev = vview(exp@);
    if exp.len() == 0 {
        assert(ev =~= Seq::<Seq<char>>::empty());
        return Some(if old_start < lines.len() { old_start } else { lines.len() });
    }
    let start = if old_start > 0 { old_start - 1 } else { 0 };
    let mut d: usize = 0;
    while d <= 50
        invariant
            lines@.len() == lines.len(),
            d <= 51,
            ev.len() > 0,
            lv == vview(lines@),
            ev == vview(exp@),
            start as int == (if old_start > 0 { old_start - 1 } else { 0 }),
            search_from(lv, ev, start as int, 0) == search_from(lv, ev, start as int, d as int),
        decreases 51 - d,
    {
        if start <= usize::MAX - d && fits_at_exec(lines, exp, start + d) {
            return Some(start + d);
        }
        if start > usize::MAX - d {
            assert(!fits_at(lv, ev, start + d));
        }
        let back = if start > d { start - d } else { 0 };
        if fits_at_exec(lines, exp, back) {
            return Some(back);
        }
        d += 1;
    }
    None
}

/// Applies the hunks of a unified diff to a file's text (see `apply_hunks_spec`).
pub fn apply_hunks(content: &str, hunks: &[Hunk]) -> (r: Result<String, String>)
    ensures
        match (r, apply_hunks_spec(content@, hunks_view(hunks@))) {
            (Ok(s), Ok(t)) => s@ == t,
            (Err(e), Err(t)) => e@ == t,
            _ => false,
        },
{
    let text = chars_of(content);
    let mut lines: Vec<Vec<char>> = if text.len() == 0 {
        let v: Vec<Vec<char>> = Vec::new();
        assert(vview(v@) =~= Seq::<Seq<char>>::empty());
        v
    } else {
        split_chars(&text, '\n')
    };
    let ghost hv = hunks_view(hunks@);
    let mut k: usize = 0;
    assert(hv.skip(0) == hv);
    while k < hunks.len()
        invariant
            k <= hunks@.len(),
            hv == hunks_view(hunks@),
            apply_spec(vview(lines@), hv.skip(k as int)) == apply_spec(text_lines(content@), hv),
        decreases hunks@.len() - k,
    {
        let h = &hunks[k];
        assert(hv[k as int] == h@);
        assert(hv.skip(k as int)[0] == h@);
        assert(hv.skip(k as int).drop_first() == hv.skip(k + 1));
        let (expected, replacement) = split_hunk(&h.lines);
        let pos = match locate_exec(&lines, h.old_start, &expected) {
            Some(p) => p,
            None => {
                assert(apply_spec(vview(lines@), hv.skip(k as int)) == Err::<Seq<Seq<char>>, nat>(h.old_start as nat));
                let mut e = String::new();
                push_str(&mut e, "补丁无法应用：第 ");
                push_dec(&mut e, h.old_start as u128);
                push_str(&mut e, " 行附近的内容与 diff 不匹配（文件可能已被修改，请先 read 最新内容）");
                return Err(e);
            }
        };
        let ghost lv = vview(lines@);
        let ghost ev = vview(expected@);
        let ghost rv = vview(replacement@);
        // lines[..pos] + replacement + lines[pos + expected.len()..]
        let mut next: Vec<Vec<char>> = Vec::new();
        let mut i: usize = 0;
        while i < pos
            invariant
                i <= pos <= lines@.len(),
                lv == vview(lines@),
                vview(next@) == lv.take(i as int),
            decreases pos - i,
        {
            let ghost n0 = vview(next@);
            next.push(lines[i].clone());
            assert(vview(next@) =~= n0.push(lv[i as int]));
            assert(lv.take(i + 1) =~= lv.take(i as int).push(lv[i as int]));
            i += 1;
        }
        let mut j: usize = 0;
        while j < replacement.len()
            invariant
                j <= replacement@.len(),
                rv == vview(replacement@),
                vview(next@) == lv.take(pos as int) + rv.take(j as int),
            decreases replacement@.len() - j,
        {
            let ghost n0 = vview(next@);
            next.push(replacement[j].clone());
            assert(vview(next@) =~= n0.push(rv[j as int]));
            assert(rv.take(j + 1) =~= rv.take(j as int).push(rv[j as int]));
            j += 1;
        }
        assert(rv.take(rv.len() as int) == rv);
        assert(fits_at(lv, ev, pos as int));
        assert(ev.len() == expected@.len());
        assert(lv.len() == lines@.len() && lines@.len() == lines.len());
        let mut m = pos + expected.len();
        while m < lines.len()
            invariant
                pos + ev.len() <= m <= lines@.len(),
                lv == vview(lines@),
                vview(next@) == lv.take(pos as int) + rv + lv.subrange(pos + ev.len(), m as int),
            decreases lines@.len() - m,
        {
            let ghost n0 = vview(next@);
            next.push(lines[m].clone());
            assert(vview(next@) =~= n0.push(lv[m as int]));
            assert(lv.subrange(pos + ev.len(), m + 1) =~= lv.subrange(pos + ev.len(), m as int).push(lv[m as int]));
            m += 1;
        }
        assert(lv.subrange(pos + ev.len(), lv.len() as int) == lv.skip(pos + ev.len()));
        assert(apply_spec(lv, hv.skip(k as int)) == apply_spec(vview(next@), hv.skip(k + 1)));
        lines = next;
        k += 1;
    }
    assert(hv.skip(hunks@.len() as int) =~= Seq::<HunkView>::empty());
    assert(apply_spec(vview(lines@), hv.skip(hunks@.len() as int)) == Ok::<Seq<Seq<char>>, nat>(vview(lines@)));
    let nl = ['\n'];
    assert(nl@ == seq!['\n']);
    let joined = join_chars(&lines, &nl);
    Ok(string_of(&joined))
}

} // verus!

verus! {

// ---------- edit ----------

/// `p` occurs in `s` at `i`.
pub open spec fn occurs_at(s: Seq<char>, p: Seq<char>, i: int) -> bool {
    0 <= i && i + p.len() <= s.len() && s.subrange(i, i + p.len() as int) == p
}

/// The first occurrence of `p` in `s` at or after `i`.
pub open spec fn find_from(s: Seq<char>, p: Seq<char>, i: int) -> Option<int>
    decreases s.len() + 1 - i,
{
    if i < 0 || i + p.len() > s.len() {
        None
    } else if occurs_at(s, p, i) {
        Some(i)
    } else {
        find_from(s, p, i + 1)
    }
}

/// What `edit` makes of a file's text: the text with the single occurrence of
/// `old` replaced by `new`, or the message of why not.
pub open spec fn edit_spec(content: Seq<char>, old: Seq<char>, new: Seq<char>) -> Result<Seq<char>, Seq<char>> {
    if old.len() == 0 {
        Err("oldString 不能为空"@)
    } else {
        match find_from(content, old, 0) {
            None => Err("oldString 在文件中不存在，请先 read 确认内容"@),
            Some(f) => {
                if find_from(content, old, f + old.len()) is Some {
                    Err("oldString 在文件中出现多次，请扩大范围使其唯一（可包含更多上下文行）"@)
                } else {
                    Ok(content.take(f) + new + content.skip(f + old.len()))
                }
            },
        }
    }
}

proof fn lemma_find_from_bounds(s: Seq<char>, p: Seq<char>, i: int)
    ensures
        find_from(s, p, i) matches Some(f) ==> i <= f && occurs_at(s, p, f),
    decreases s.len() + 1 - i,
{
    if !(i < 0 || i + p.len() > s.len()) && !occurs_at(s, p, i) {
        lemma_find_from_bounds(s, p, i + 1);
    }
}

/// The first occurrence of `p` in `s` at or after `from`.
pub fn find_chars(s: &[char], p: &[char], from: usize) -> (r: Option<usize>)
    ensures
        r is Some <==> find_from(s@, p@, from as int) is Some,
        r matches Some(f) ==> f + p@.len() <= s@.len() && find_from(s@, p@, from as int) == Some(f as int),
{
    proof { lemma_find_from_bounds(s@, p@, from as int); }
    let mut i = from;
    while i <= s.len() && s.len() - i >= p.len()
        invariant
            from <= i,
            s@.len() == s.len(),
            find_from(s@, p@, from as int) == find_from(s@, p@, i as int),
        decreases s@.len() + 1 - i,
    {
        let mut k: usize = 0;
        let mut same = true;
        while k < p.len()
            invariant
                s@.len() == s.len(),
                i + p@.len() <= s@.len(),
                k <= p@.len(),
                same <==> forall|m: int| 0 <= m < k ==> s@[i + m] == p@[m],
            decreases p@.len() - k,
        {
            if s[i + k] != p[k] {
                same = false;
            }
            k += 1;
        }
        if same {
            assert(s@.subrange(i as int, i + p@.len()) =~= p@);
            return Some(i);
        } else {
            let ghost m = choose|m: int| 0 <= m < p@.len() && s@[i + m] != p@[m];
            assert(s@.subrange(i as int, i + p@.len())[m] != p@[m]);
        }
        i += 1;
    }
    None
}

/// What `edit` makes of a file's text (see `edit_spec`).
pub fn edit_content(content: &str, old_str: &str, new_str: &str) -> (r: Result<String, String>)
    ensures
        match (r, edit_spec(content@, old_str@, new_str@)) {
            (Ok(s), Ok(t)) => s@ == t,
            (Err(e), Err(t)) => e@ == t,
            _ => false,
        },
{
    let c = chars_of(content);
    let o = chars_of(old_str);
    if o.len() == 0 {
        return Err(String::from_str("oldString 不能为空"));
    }
    assert(c@.len() == c.len());
    let first = match find_chars(&c, &o, 0) {
        Some(f) => f,
        None => return Err(String::from_str("oldString 在文件中不存在，请先 read 确认内容")),
    };
    if find_chars(&c, &o, first + o.len()).is_some() {
        return Err(String::from_str("oldString 在文件中出现多次，请扩大范围使其唯一（可包含更多上下文行）"));
    }
    let mut out = string_of(&copy_range(&c, 0, first));
    push_str(&mut out, new_str);
    push_chars(&mut out, &copy_range(&c, first + o.len(), c.len()));
    assert(c@.subrange(first + o@.len(), c@.len() as int) == c@.skip(first + o@.len()));
    Ok(out)
}

/// The line count `text.split('\n').count()`.
pub open spec fn line_count(s: Seq<char>) -> nat {
    split_seq(s, '\n').len()
}

/// The report of a successful `edit`.
pub open spec fn edit_message(rel: Seq<char>, old: Seq<char>, new: Seq<char>) -> Seq<char> {
    "已修改 "@ + rel + "：替换 "@ + dec(line_count(old)) + " 行 → "@ + dec(line_count(new)) + " 行"@
}

/// `edit` once the file's text is known: the new text and the report, or the error.
pub fn edit_file(rel: &str, content: &str, old_str: &str, new_str: &str) -> (r: Result<(String, String), String>)
    ensures
        match (r, edit_spec(content@, old_str@, new_str@)) {
            (Ok((s, m)), Ok(t)) => s@ == t && m@ == edit_message(rel@, old_str@, new_str@),
            (Err(e), Err(t)) => e@ == t,
            _ => false,
        },
{
    let updated = edit_content(content, old_str, new_str)?;
    let mut m = String::from_str("已修改 ");
    push_str(&mut m, rel);
    push_str(&mut m, "：替换 ");
    push_dec(&mut m, split_count(&chars_of(old_str), '\n'));
    push_str(&mut m, " 行 → ");
    push_dec(&mut m, split_count(&chars_of(new_str), '\n'));
    push_str(&mut m, " 行");
    Ok((updated, m))
}

// ---------- write ----------

/// The report of `write`: UTF-16 length and line count of what was written.
pub open spec fn write_message(rel: Seq<char>, content: Seq<char>) -> Seq<char> {
    "已写入 "@ + rel + "（"@ + dec(utf16_len_spec(content)) + " 字符，"@ + dec(line_count(content)) + " 行）"@
}

/// The report of a successful `write` of `content` to `rel`.
pub fn write_summary(rel: &str, content: &str) -> (m: String)
    ensures
        m@ == write_message(rel@, content@),
{
    let c = chars_of(content);
    let mut m = String::from_str("已写入 ");
    push_str(&mut m, rel);
    push_str(&mut m, "（");
    push_dec(&mut m, utf16_len_chars(&c));
    push_str(&mut m, " 字符，");
    push_dec(&mut m, split_count(&c, '\n'));
    push_str(&mut m, " 行）");
    m
}

/// What `write` writes: a string argument as it is, nothing for a missing or null
/// one, anything else by its JSON text.
pub open spec fn write_content_spec(args: crate::json::JsonV) -> Seq<char> {
    match crate::json::jget(args, "content"@) {
        Some(crate::json::JsonV::Str(s)) => s,
        None => Seq::<char>::empty(),
        Some(crate::json::JsonV::Null) => Seq::<char>::empty(),
        Some(other) => crate::json::value_text(other),
    }
}

/// What `write` writes.
pub fn write_content(args: &crate::json::Json) -> (r: String)
    ensures
        r@ == write_content_spec(args@),
{
    match args.get("content") {
        Some(crate::json::Json::Str(s)) => s.clone(),
        None => String::new(),
        Some(crate::json::Json::Null) => String::new(),
        Some(other) => other.to_text(),
    }
}

// ---------- patch ----------

/// The refusal of a diff without any hunk.
pub open spec fn no_hunk_message() -> Seq<char> {
    "未解析到有效的 @@ hunk，请提供标准 unified diff"@
}

/// The hunks of `diff`, or the refusal when it has none.
pub fn plan_patch(diff: &str) -> (r: Result<Vec<Hunk>, String>)
    ensures
        match r {
            Ok(hs) => hunks_view(hs@) == parse_diff_spec(diff@) && hs@.len() > 0,
            Err(e) => parse_diff_spec(diff@).len() == 0 && e@ == no_hunk_message(),
        },
{
    let hunks = parse_unified_diff(diff);
    if hunks.len() == 0 {
        return Err(String::from_str("未解析到有效的 @@ hunk，请提供标准 unified diff"));
    }
    Ok(hunks)
}

/// The report of a successful `patch`: a target that was empty (or absent) counts as created.
pub open spec fn patch_message(rel: Seq<char>, n_hunks: nat, was_empty: bool) -> Seq<char> {
    "已应用补丁 "@ + rel + "（"@ + dec(n_hunks) + " 个 hunk，"@
        + (if was_empty { "新建"@ } else { "修改"@ }) + "）"@
}

/// `patch` once the target's current text is known (empty for a file that does not exist):
/// the new text and the report, or the mismatch message.
pub fn patch_file(rel: &str, content: &str, hunks: &[Hunk]) -> (r: Result<(String, String), String>)
    ensures
        match (r, apply_hunks_spec(content@, hunks_view(hunks@))) {
            (Ok((s, m)), Ok(t)) => s@ == t && m@ == patch_message(rel@, hunks@.len(), content@.len() == 0),
            (Err(e), Err(t)) => e@ == t,
            _ => false,
        },
{
    let updated = apply_hunks(content, hunks)?;
    let mut m = String::from_str("已应用补丁 ");
    push_str(&mut m, rel);
    push_str(&mut m, "（");
    push_dec(&mut m, hunks.len() as u128);
    push_str(&mut m, " 个 hunk，");
    if content.is_empty() {
        push_str(&mut m, "新建");
    } else {
        push_str(&mut m, "修改");
    }
    push_str(&mut m, "）");
    Ok((updated, m))
}

// ---------- laws ----------

/// Replacing a text by itself changes nothing: an edit whose new text equals the
/// old one gives back the file unchanged whenever it succeeds.
pub proof fn law_edit_same_text(content: Seq<char>, old: Seq<char>)
    ensures
        edit_spec(content, old, old) matches Ok(r) ==> r == content,
{
    if old.len() > 0 {
        lemma_find_from_bounds(content, old, 0);
        match find_from(content, old, 0) {
            Some(f) => {
                assert(content.subrange(f, f + old.len()) == old);
                assert(content.take(f) + old + content.skip(f + old.len()) =~= content);
            },
            None => {},
        }
    }
}

/// A hunk line that neither adds nor removes.
pub open spec fn is_context(l: Seq<char>) -> bool {
    !(l.len() > 0 && (l[0] == '+' || l[0] == '-'))
}

proof fn lemma_context_replacement(ls: Seq<Seq<char>>)
    requires
        forall|k: int| 0 <= k < ls.len() ==> is_context(#[trigger] ls[k]),
    ensures
        replacement_of(ls) == expected_of(ls),
    decreases ls.len(),
{
    if ls.len() > 0 {
        assert forall|k: int| 0 <= k < ls.drop_last().len() implies is_context(#[trigger] ls.drop_last()[k]) by {
            assert(ls.drop_last()[k] == ls[k]);
        }
        lemma_context_replacement(ls.drop_last());
        assert(is_context(ls[ls.len() - 1]));
    }
}

/// Hunks made only of context lines change nothing: applying them gives back the
/// lines unchanged, or reports the first hunk that does not fit.
pub proof fn law_context_hunks_keep_lines(lines: Seq<Seq<char>>, hunks: Seq<HunkView>)
    requires
        forall|h: int, k: int| 0 <= h < hunks.len() && 0 <= k < hunks[h].lines.len() ==> is_context(#[trigger] hunks[h].lines[k]),
    ensures
        apply_spec(lines, hunks) matches Ok(r) ==> r == lines,
    decreases hunks.len(),
{
    if hunks.len() > 0 {
        let h = hunks[0];
        let e = expected_of(h.lines);
        assert forall|k: int| 0 <= k < h.lines.len() implies is_context(#[trigger] h.lines[k]) by {
            assert(is_context(hunks[0].lines[k]));
        }
        lemma_context_replacement(h.lines);
        match locate(lines, h.old_start, e) {
            None => {},
            Some(p) => {
                if e.len() > 0 {
                    lemma_search_fits(lines, e, if h.old_start > 0 { h.old_start - 1 } else { 0 }, 0);
                    assert(lines.subrange(p, p + e.len()) == e);
                    assert(lines.take(p) + replacement_of(h.lines) + lines.skip(p + e.len()) =~= lines);
                } else {
                    assert(lines.take(p) + replacement_of(h.lines) + lines.skip(p + e.len()) =~= lines);
                }
                let rest = hunks.drop_first();
                assert forall|h2: int, k: int| 0 <= h2 < rest.len() && 0 <= k < rest[h2].lines.len() implies is_context(#[trigger] rest[h2].lines[k]) by {
                    assert(rest[h2] == hunks[h2 + 1]);
                    assert(is_context(hunks[h2 + 1].lines[k]));
                }
                law_context_hunks_keep_lines(lines, rest);
            },
        }
    }
}

proof fn lemma_find_from_first(s: Seq<char>, p: Seq<char>, i: int)
    ensures
        find_from(s, p, i) matches Some(f) ==> forall|g: int| i <= g < f ==> !occurs_at(s, p, g),
    decreases s.len() + 1 - i,
{
    if !(i < 0 || i + p.len() > s.len()) && !occurs_at(s, p, i) {
        lemma_find_from_first(s, p, i + 1);
    }
}

/// A successful edit replaces the first occurrence of `old` and nothing else:
/// the result is the text before that occurrence, then `new`, then exactly the
/// text after it, so its length is the file's less `old`'s plus `new`'s, and
/// editing `new` back to `old` restores the file.
pub proof fn law_edit_replaces_first_occurrence(content: Seq<char>, old: Seq<char>, new: Seq<char>)
    ensures
        edit_spec(content, old, new) matches Ok(r) ==> exists|f: int| {
            &&& #[trigger] occurs_at(content, old, f)
            &&& forall|g: int| 0 <= g < f ==> !#[trigger] occurs_at(content, old, g)
            &&& r == content.subrange(0, f) + new + content.subrange(f + old.len(), content.len() as int)
        },
        edit_spec(content, old, new) matches Ok(r) ==> r.len() == content.len() - old.len() + new.len(),
{
    if let Ok(r) = edit_spec(content, old, new) {
        lemma_find_from_bounds(content, old, 0);
        lemma_find_from_first(content, old, 0);
        let f = find_from(content, old, 0)->0;
        assert(occurs_at(content, old, f));
        assert(content.take(f) == content.subrange(0, f));
        assert(content.skip(f + old.len()) == content.subrange(f + old.len(), content.len() as int));
        assert(content.subrange(f, f + old.len()) == old);
    }
}

/// A hunk line that adds a line (and is not a `+++` file header).
pub open spec fn is_addition(l: Seq<char>) -> bool {
    l.len() > 0 && l[0] == '+' && !has_prefix(l, triple_plus())
}

proof fn lemma_addition_lines(ls: Seq<Seq<char>>)
    requires
        forall|k: int| 0 <= k < ls.len() ==> is_addition(#[trigger] ls[k]),
    ensures
        expected_of(ls) == Seq::<Seq<char>>::empty(),
        replacement_of(ls) == ls.map_values(|l: Seq<char>| l.skip(1)),
    decreases ls.len(),
{
    if ls.len() > 0 {
        assert forall|k: int| 0 <= k < ls.drop_last().len() implies is_addition(#[trigger] ls.drop_last()[k]) by {
            assert(ls.drop_last()[k] == ls[k]);
        }
        lemma_addition_lines(ls.drop_last());
        assert(is_addition(ls[ls.len() - 1]));
        assert(ls.map_values(|l: Seq<char>| l.skip(1)) =~= ls.drop_last().map_values(|l: Seq<char>| l.skip(1)).push(ls.last().skip(1)));
    }
}

/// A hunk made only of added lines, with old start `l`, puts its lines (markers
/// dropped) right after line `min(l, number of lines)`: every line before that
/// point stays before them, every other line after them, in order.
pub proof fn law_pure_addition_inserts_after_old_start(lines: Seq<Seq<char>>, h: HunkView)
    requires
        forall|k: int| 0 <= k < h.lines.len() ==> is_addition(#[trigger] h.lines[k]),
    ensures
        ({
            let m = if h.old_start < lines.len() { h.old_start as int } else { lines.len() as int };
            apply_spec(lines, seq![h]) == Ok::<Seq<Seq<char>>, nat>(
                lines.subrange(0, m) + h.lines.map_values(|l: Seq<char>| l.skip(1)) + lines.subrange(m, lines.len() as int))
        }),
{
    lemma_addition_lines(h.lines);
    let m = if h.old_start < lines.len() { h.old_start as int } else { lines.len() as int };
    let hs = seq![h];
    assert(hs[0] == h);
    assert(hs.drop_first() =~= Seq::<HunkView>::empty());
    assert(lines.take(m) == lines.subrange(0, m));
    assert(lines.skip(m + 0) =~= lines.subrange(m, lines.len() as int));
    assert(expected_of(h.lines).len() == 0);
    assert(locate(lines, h.old_start, expected_of(h.lines)) == Some(m));
    let next = lines.take(m) + replacement_of(h.lines) + lines.skip(m + expected_of(h.lines).len());
    assert(apply_spec(next, Seq::<HunkView>::empty()) == Ok::<Seq<Seq<char>>, nat>(next));
    assert(apply_spec(lines, hs) == apply_spec(next, hs.drop_first()));
}

} // verus!
