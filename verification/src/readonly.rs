//! The read-only tools `list`, `read`, `glob` and `grep`: what they keep, in what
//! order, and the exact texts they answer with. The directory reading itself is
//! done by the caller, which hands the entries and file contents in.

use vstd::prelude::*;
use crate::text::{
    chars_of, string_of, push_str, push_chars, dec, dec_string, strs, split_seq, join_seq, trim_spec,
    utf16_truncate_spec, pad_start_spec, copy_range,
};
use crate::pattern::{Pattern, regex_match};
use crate::fmt::{fmt_size_spec, fmt_size, ignored_dir, is_ignored_dir};

verus! {

// ---------- lines as the line reader of Node cuts them ----------

/// The first line terminator (`\n` or `\r`) of `s`.
pub open spec fn first_term(s: Seq<char>) -> Option<int>
    decreases s.len(),
{
    if s.len() == 0 {
        None
    } else if s[0] == '\n' || s[0] == '\r' {
        Some(0)
    } else {
        match first_term(s.drop_first()) {
            Some(k) => Some(k + 1),
            None => None,
        }
    }
}

pub proof fn lemma_first_term(s: Seq<char>)
    ensures
        first_term(s) matches Some(k) ==> 0 <= k < s.len() && (s[k] == '\n' || s[k] == '\r')
            && forall|j: int| 0 <= j < k ==> s[j] != '\n' && s[j] != '\r',
        first_term(s) is None ==> forall|j: int| 0 <= j < s.len() ==> s[j] != '\n' && s[j] != '\r',
    decreases s.len(),
{
    if s.len() > 0 && !(s[0] == '\n' || s[0] == '\r') {
        lemma_first_term(s.drop_first());
        assert forall|j: int| 1 <= j < s.len() implies s[j] == s.drop_first()[j - 1] by {}
    }
}

/// The length of the terminator at `k`: `\r\n` counts as one terminator.
pub open spec fn term_len(s: Seq<char>, k: int) -> int {
    if s[k] == '\r' && k + 1 < s.len() && s[k + 1] == '\n' { 2 } else { 1 }
}

/// The lines of a text as Node's line reader yields them (`crlfDelay: Infinity`):
/// `\n`, `\r\n` and a lone `\r` end a line, and a last line without a terminator
/// is still a line; an empty text has none.
pub open spec fn raw_lines(s: Seq<char>) -> Seq<Seq<char>>
    decreases s.len(),
{
    if s.len() == 0 {
        Seq::<Seq<char>>::empty()
    } else {
        match first_term(s) {
            None => seq![s],
            Some(k) => {
                proof { lemma_first_term(s); }
                seq![s.take(k)] + raw_lines(s.skip(k + term_len(s, k)))
            },
        }
    }
}

/// A text has at most as many lines as characters.
pub proof fn lemma_raw_lines_len(s: Seq<char>)
    ensures
        raw_lines(s).len() <= s.len(),
    decreases s.len(),
{
    if s.len() > 0 {
        lemma_first_term(s);
        match first_term(s) {
            Some(k) => {
                lemma_raw_lines_len(s.skip(k + term_len(s, k)));
            },
            None => {},
        }
    }
}

/// A reader of the lines of a text, one at a time.
pub struct RawLines {
    chars: Vec<char>,
    pos: usize,
    done: bool,
}

impl RawLines {
    /// The lines not yet read.
    pub closed spec fn remaining(&self) -> Seq<Seq<char>> {
        if self.done { Seq::<Seq<char>>::empty() } else { raw_lines(self.chars@.skip(self.pos as int)) }
    }

    /// The reader is in a consistent state.
    pub closed spec fn wf(&self) -> bool {
        !self.done ==> self.pos < self.chars@.len()
    }

    /// Reads the lines of `s`.
    pub fn new(s: &str) -> (r: RawLines)
        ensures
            r.remaining() == raw_lines(s@),
            r.wf(),
    {
        let chars = chars_of(s);
        let done = chars.len() == 0;
        assert(chars@.skip(0) =~= chars@);
        RawLines { chars, pos: 0, done }
    }

    /// The next line.
    pub fn next_line(&mut self) -> (r: Option<String>)
        requires
            old(self).wf(),
        ensures
            final(self).wf(),
            match r {
                Some(l) => old(self).remaining().len() > 0 && l@ == old(self).remaining()[0]
                    && final(self).remaining() == old(self).remaining().drop_first(),
                None => old(self).remaining().len() == 0 && final(self).remaining() == old(self).remaining(),
            },
    {
        if self.done {
            return None;
        }
        let ghost rest = self.chars@.skip(self.pos as int);
        proof { lemma_first_term(rest); }
        assert(rest.len() > 0);
        let mut i = self.pos;
        while i < self.chars.len() && self.chars[i] != '\n' && self.chars[i] != '\r'
            invariant
                self.pos <= i <= self.chars@.len(),
                rest == self.chars@.skip(self.pos as int),
                forall|j: int| self.pos <= j < i ==> self.chars@[j] != '\n' && self.chars@[j] != '\r',
            decreases self.chars@.len() - i,
        {
            i += 1;
        }
        let line = string_of(&copy_range(&self.chars, self.pos, i));
        if i == self.chars.len() {
            proof {
                assert forall|j: int| 0 <= j < rest.len() implies rest[j] != '\n' && rest[j] != '\r' by {
                    assert(rest[j] == self.chars@[self.pos + j]);
                }
                lemma_first_term_none(rest);
                assert(line@ =~= rest);
                assert(raw_lines(rest) == seq![rest]);
                assert(seq![rest].drop_first() =~= Seq::<Seq<char>>::empty());
            }
            self.done = true;
            return Some(line);
        }
        let k = i - self.pos;
        proof {
            assert(rest[k as int] == self.chars@[i as int]);
            assert forall|j: int| 0 <= j < k implies rest[j] != '\n' && rest[j] != '\r' by {
                assert(rest[j] == self.chars@[self.pos + j]);
            }
            lemma_first_term_at(rest, k as int);
            assert(line@ =~= rest.take(k as int));
        }
        let skip: usize = if self.chars[i] == '\r' && i + 1 < self.chars.len() && self.chars[i + 1] == '\n' { 2 } else { 1 };
        assert(skip == term_len(rest, k as int));
        self.pos = i + skip;
        assert(rest.skip(k + skip) =~= self.chars@.skip(self.pos as int));
        proof {
            let tail = raw_lines(rest.skip(k + skip));
            assert(raw_lines(rest) == seq![rest.take(k as int)] + tail);
            assert((seq![rest.take(k as int)] + tail).drop_first() =~= tail);
        }
        if self.pos == self.chars.len() {
            self.done = true;
            assert(self.chars@.skip(self.pos as int) =~= Seq::<char>::empty());
        }
        Some(line)
    }
}

proof fn lemma_first_term_at(s: Seq<char>, k: int)
    requires
        0 <= k < s.len(),
        s[k] == '\n' || s[k] == '\r',
        forall|j: int| 0 <= j < k ==> s[j] != '\n' && s[j] != '\r',
    ensures
        first_term(s) == Some(k),
    decreases k,
{
    if k > 0 {
        assert forall|j: int| 0 <= j < k - 1 implies s.drop_first()[j] != '\n' && s.drop_first()[j] != '\r' by {
            assert(s.drop_first()[j] == s[j + 1]);
        }
        lemma_first_term_at(s.drop_first(), k - 1);
    }
}

proof fn lemma_first_term_none(s: Seq<char>)
    requires
        forall|j: int| 0 <= j < s.len() ==> s[j] != '\n' && s[j] != '\r',
    ensures
        first_term(s) is None,
    decreases s.len(),
{
    if s.len() > 0 {
        assert forall|j: int| 0 <= j < s.len() - 1 implies s.drop_first()[j] != '\n' && s.drop_first()[j] != '\r' by {
            assert(s.drop_first()[j] == s[j + 1]);
        }
        lemma_first_term_none(s.drop_first());
    }
}

// ---------- grep ----------

/// At most this many matching lines are reported.
pub open spec fn grep_max_matches() -> nat { 200 }

/// The report stops after this many files with matches.
pub open spec fn grep_max_files() -> nat { 200 }

/// One reported line: `file:line:text`, the text trimmed and cut to 200 UTF-16 units.
pub open spec fn grep_line(rel: Seq<char>, n: nat, line: Seq<char>) -> Seq<char> {
    rel + ":"@ + dec(n) + ":"@ + utf16_truncate_spec(trim_spec(line), 200)
}

/// The lines of one file from line `i` on: matching lines are reported until the
/// report is full; the flag tells whether any line matched.
pub open spec fn scan(out: Seq<Seq<char>>, matched: bool, rel: Seq<char>, lines: Seq<Seq<char>>, i: nat,
    src: Seq<char>, ci: bool) -> (Seq<Seq<char>>, bool)
    decreases lines.len() - i,
{
    if i >= lines.len() {
        (out, matched)
    } else if regex_match(src, ci, lines[i as int]) {
        let o1 = out.push(grep_line(rel, i + 1, lines[i as int]));
        if o1.len() >= grep_max_matches() { (o1, true) } else { scan(o1, true, rel, lines, i + 1, src, ci) }
    } else {
        scan(out, matched, rel, lines, i + 1, src, ci)
    }
}

/// The notice that the report was cut at the match limit.
pub open spec fn grep_cut_notice() -> Seq<char> {
    "…（超过 200 条匹配，已截断）"@
}

/// The report after one more file's text: its matching lines, the count of files
/// with matches, and whether the search is over (the match limit, with a notice,
/// or the file limit).
pub open spec fn grep_feed_spec(st: (Seq<Seq<char>>, nat, bool), rel: Seq<char>, text: Seq<char>,
    src: Seq<char>, ci: bool) -> (Seq<Seq<char>>, nat, bool) {
    let r = scan(st.0, false, rel, raw_lines(text), 0, src, ci);
    let f = if r.1 { st.1 + 1 } else { st.1 };
    if r.0.len() >= grep_max_matches() {
        (r.0.push(grep_cut_notice()), f, true)
    } else if f >= grep_max_files() {
        (r.0, f, true)
    } else {
        (r.0, f, false)
    }
}

/// A running `grep`.
pub struct GrepRun {
    pattern: Pattern,
    out: Vec<String>,
    files: usize,
    done: bool,
}

impl GrepRun {
    /// The report so far, the files with matches, whether the search is over.
    pub closed spec fn state(&self) -> (Seq<Seq<char>>, nat, bool) {
        (strs(self.out@), self.files as nat, self.done)
    }

    /// The pattern searched for.
    pub closed spec fn pattern(&self) -> (Seq<char>, bool) {
        self.pattern@
    }

    /// A search for `pattern` with nothing reported yet.
    pub fn new(pattern: Pattern) -> (r: GrepRun)
        ensures
            r.state() == (Seq::<Seq<char>>::empty(), 0nat, false),
            r.pattern() == pattern@,
    {
        let r = GrepRun { pattern, out: Vec::new(), files: 0, done: false };
        assert(strs(r.out@) =~= Seq::<Seq<char>>::empty());
        r
    }

    /// Whether more files are wanted.
    pub fn wants_more(&self) -> (r: bool)
        ensures
            r == !self.state().2,
    {
        !self.done
    }

    /// Takes in the text of one more file (`rel` is its path in the report).
    pub fn feed_text(&mut self, rel: &str, text: &str)
        requires
            !old(self).state().2,
            old(self).state().1 < grep_max_files(),
            old(self).state().0.len() < grep_max_matches(),
        ensures
            final(self).state() == grep_feed_spec(old(self).state(), rel@, text@, old(self).pattern().0, old(self).pattern().1),
            final(self).pattern() == old(self).pattern(),
            !final(self).state().2 ==> final(self).state().1 < grep_max_files() && final(self).state().0.len() < grep_max_matches(),
    {
        let ghost src = self.pattern@.0;
        let ghost ci = self.pattern@.1;
        let ghost lines = raw_lines(text@);
        let ghost start = strs(self.out@);
        let tv = chars_of(text);
        proof { lemma_raw_lines_len(text@); }
        assert(lines.len() <= tv@.len());
        let tlen = tv.len();
        let mut reader = RawLines::new(text);
        let mut matched = false;
        let mut n: usize = 0;
        proof {
            assert(reader.remaining() == lines.skip(0));
        }
        loop
            invariant_except_break
                self.out@.len() < grep_max_matches(),
                scan(strs(self.out@), matched, rel@, lines, n as nat, src, ci) == scan(start, false, rel@, lines, 0, src, ci),
            invariant
                reader.wf(),
                n <= lines.len(),
                lines.len() <= tlen,
                reader.remaining() =~= lines.skip(n as int),
                src == self.pattern@.0,
                ci == self.pattern@.1,
                self.files < grep_max_files(),
                self.pattern@ == old(self).pattern@,
                self.files == old(self).files,
                !self.done,
            ensures
                n <= lines.len(),
                self.pattern@ == old(self).pattern@,
                self.files == old(self).files,
                !self.done,
                self.files < grep_max_files(),
                (strs(self.out@), matched) == scan(start, false, rel@, lines, 0, src, ci),
            decreases lines.len() - n,
        {
            let ghost before = reader.remaining();
            let ghost m0 = matched;
            let ghost o0 = strs(self.out@);
            let next = reader.next_line();
            match next {
                None => {
                    assert(lines.skip(n as int).len() == 0);
                    assert(n == lines.len());
                    assert(scan(o0, m0, rel@, lines, n as nat, src, ci) == (o0, m0));
                    break;
                },
                Some(line) => {
                    assert(line@ == lines[n as int]);
                    assert(lines.skip(n as int).drop_first() =~= lines.skip(n + 1));
                    if self.pattern.is_match(line.as_str()) {
                        let mut entry = String::from_str(rel);
                        push_str(&mut entry, ":");
                        push_str(&mut entry, dec_string((n as u128) + 1).as_str());
                        push_str(&mut entry, ":");
                        let t = crate::text::trim(line.as_str());
                        push_str(&mut entry, crate::text::utf16_truncate(t.as_str(), 200).as_str());
                        let ghost o = strs(self.out@);
                        self.out.push(entry);
                        assert(strs(self.out@) =~= o.push(grep_line(rel@, (n + 1) as nat, lines[n as int])));
                        matched = true;
                        assert(scan(o0, m0, rel@, lines, n as nat, src, ci)
                            == if strs(self.out@).len() >= grep_max_matches() {
                                (strs(self.out@), true)
                            } else {
                                scan(strs(self.out@), true, rel@, lines, (n + 1) as nat, src, ci)
                            });
                        if self.out.len() >= 200 {
                            n += 1;
                            break;
                        }
                    } else {
                        assert(scan(o0, m0, rel@, lines, n as nat, src, ci)
                            == scan(o0, m0, rel@, lines, (n + 1) as nat, src, ci));
                    }
                    n += 1;
                },
            }
        }
        if matched {
            self.files = self.files + 1;
        }
        if self.out.len() >= 200 {
            let ghost o = strs(self.out@);
            self.out.push(String::from_str("…（超过 200 条匹配，已截断）"));
            assert(strs(self.out@) =~= o.push(grep_cut_notice()));
            self.done = true;
        } else if self.files >= 200 {
            self.done = true;
        }
    }

    /// The report: the matching lines, or the no-match text for `pattern`.
    pub fn finish(&self, pattern: &str) -> (r: String)
        ensures
            r@ == if self.state().0.len() == 0 {
                "没有匹配 /"@ + pattern@ + "/ 的内容"@
            } else {
                join_seq(self.state().0, "\n"@)
            },
    {
        if self.out.len() == 0 {
            let mut m = String::from_str("没有匹配 /");
            push_str(&mut m, pattern);
            push_str(&mut m, "/ 的内容");
            m
        } else {
            crate::text::join_strings(&self.out, "\n")
        }
    }
}

/// Files above 2 MB are not searched.
pub fn grep_size_ok(size: u64) -> (r: bool)
    ensures
        r == (size <= 2097152),
{
    size <= 2097152
}

/// A file whose first 1024 bytes hold a zero byte is taken as binary.
pub open spec fn looks_binary(bytes: Seq<u8>) -> bool {
    exists|i: int| 0 <= i < bytes.len() && i < 1024 && bytes[i] == 0
}

/// Whether the file looks binary.
pub fn is_binary_head(bytes: &[u8]) -> (r: bool)
    ensures
        r == looks_binary(bytes@),
{
    let mut i: usize = 0;
    while i < bytes.len() && i < 1024
        invariant
            i <= bytes@.len(),
            i <= 1024,
            forall|k: int| 0 <= k < i ==> bytes@[k] != 0,
        decreases bytes@.len() - i,
    {
        if bytes[i] == 0 {
            return true;
        }
        i += 1;
    }
    false
}

/// The last segment of a `/`-separated path.
pub open spec fn base_name(rel: Seq<char>) -> Seq<char> {
    split_seq(rel, '/').last()
}

fn base_name_exec(rel: &str) -> (r: String)
    ensures
        r@ == base_name(rel@),
{
    let parts = crate::text::split_chars(&chars_of(rel), '/');
    proof { crate::text::lemma_split_nonempty(rel@, '/'); }
    string_of(&parts[parts.len() - 1])
}

/// The `include` filter of `grep` keeps a file when the glob matches its path or
/// its name (no filter keeps every file).
pub open spec fn include_ok_spec(inc: Option<(Seq<char>, bool)>, rel: Seq<char>) -> bool {
    match inc {
        None => true,
        Some(p) => regex_match(p.0, p.1, rel) || regex_match(p.0, p.1, base_name(rel)),
    }
}

/// Whether the `include` filter keeps the file.
pub fn include_ok(inc: Option<&Pattern>, rel: &str) -> (r: bool)
    ensures
        r == include_ok_spec(match inc { Some(p) => Some(p@), None => None }, rel@),
{
    match inc {
        None => true,
        Some(p) => p.is_match(rel) || p.is_match(base_name_exec(rel).as_str()),
    }
}

/// The arguments of `grep` checked in order: an empty pattern is refused first,
/// then an invalid pattern, then an invalid `include` glob (an empty one filters
/// nothing). On success, the views of the search pattern and of the filter.
pub open spec fn grep_args_spec(pattern: Seq<char>, ignore_case: bool, filter: Seq<char>)
    -> Result<((Seq<char>, bool), Option<(Seq<char>, bool)>), Seq<char>>
{
    if pattern.len() == 0 {
        Err("pattern 不能为空"@)
    } else {
        match crate::pattern::regex_build(pattern, ignore_case) {
            Err(m) => Err("正则无效："@ + m),
            Ok(_) => if filter.len() == 0 {
                Ok(((pattern, ignore_case), None))
            } else {
                match crate::pattern::regex_build(crate::fmt::glob_source(filter), true) {
                    Err(m) => Err(m),
                    Ok(_) => Ok(((pattern, ignore_case), Some((crate::fmt::glob_source(filter), true)))),
                }
            },
        }
    }
}

/// The compiled search pattern and glob filter of `grep`, or the error.
pub fn grep_args(pattern: &str, ignore_case: bool, filter: &str) -> (r: Result<(Pattern, Option<Pattern>), String>)
    ensures
        match (r, grep_args_spec(pattern@, ignore_case, filter@)) {
            (Ok((p, inc)), Ok((pv, incv))) => p@ == pv
                && match (inc, incv) {
                    (None, None) => true,
                    (Some(i), Some(iv)) => i@ == iv,
                    _ => false,
                },
            (Err(e), Err(f)) => e@ == f,
            _ => false,
        },
{
    if crate::text::chars_of(pattern).len() == 0 {
        return Err(String::from_str("pattern 不能为空"));
    }
    let re = match build_search_regex(pattern, ignore_case) {
        Ok(p) => p,
        Err(e) => return Err(e),
    };
    if crate::text::chars_of(filter).len() == 0 {
        return Ok((re, None));
    }
    match crate::fmt::glob_to_regex(filter) {
        Ok(i) => Ok((re, Some(i))),
        Err(e) => Err(e),
    }
}

/// The search regex of `grep`, or the message for an invalid one.
pub fn build_search_regex(pattern: &str, ignore_case: bool) -> (r: Result<Pattern, String>)
    ensures
        match r {
            Ok(p) => crate::pattern::regex_build(pattern@, ignore_case) is Ok && p@ == (pattern@, ignore_case),
            Err(e) => crate::pattern::regex_build(pattern@, ignore_case) matches Err(m) && e@ == "正则无效："@ + m,
        },
{
    match Pattern::compile(pattern, ignore_case) {
        Ok(p) => Ok(p),
        Err(e) => {
            let mut m = String::from_str("正则无效：");
            push_str(&mut m, e.as_str());
            Err(m)
        },
    }
}

// ---------- glob ----------

/// At most this many files are listed.
pub open spec fn glob_max() -> nat { 500 }

/// The list after one more file: kept when the pattern matches its path or name;
/// at the limit a notice ends the list.
pub open spec fn glob_feed_spec(st: (Seq<Seq<char>>, bool), rel: Seq<char>, src: Seq<char>, ci: bool) -> (Seq<Seq<char>>, bool) {
    if regex_match(src, ci, rel) || regex_match(src, ci, base_name(rel)) {
        let o = st.0.push(rel);
        if o.len() >= glob_max() { (o.push("…（超过 500 条，已截断）"@), true) } else { (o, false) }
    } else {
        st
    }
}

/// A running `glob`.
pub struct GlobRun {
    pattern: Pattern,
    out: Vec<String>,
    done: bool,
}

impl GlobRun {
    /// The list so far and whether it is complete.
    pub closed spec fn state(&self) -> (Seq<Seq<char>>, bool) {
        (strs(self.out@), self.done)
    }

    /// The pattern matched against.
    pub closed spec fn pattern(&self) -> (Seq<char>, bool) {
        self.pattern@
    }

    /// A listing for `pattern`, empty so far.
    pub fn new(pattern: Pattern) -> (r: GlobRun)
        ensures
            r.state() == (Seq::<Seq<char>>::empty(), false),
            r.pattern() == pattern@,
    {
        let r = GlobRun { pattern, out: Vec::new(), done: false };
        assert(strs(r.out@) =~= Seq::<Seq<char>>::empty());
        r
    }

    /// Whether more files are wanted.
    pub fn wants_more(&self) -> (r: bool)
        ensures
            r == !self.state().1,
    {
        !self.done
    }

    /// Takes in one more file of the walk.
    pub fn feed(&mut self, rel: &str)
        requires
            !old(self).state().1,
            old(self).state().0.len() < glob_max(),
        ensures
            final(self).state() == glob_feed_spec(old(self).state(), rel@, old(self).pattern().0, old(self).pattern().1),
            final(self).pattern() == old(self).pattern(),
            !final(self).state().1 ==> final(self).state().0.len() < glob_max(),
    {
        if self.pattern.is_match(rel) || self.pattern.is_match(base_name_exec(rel).as_str()) {
            let ghost o = strs(self.out@);
            self.out.push(String::from_str(rel));
            assert(strs(self.out@) =~= o.push(rel@));
            if self.out.len() >= 500 {
                let ghost o2 = strs(self.out@);
                self.out.push(String::from_str("…（超过 500 条，已截断）"));
                assert(strs(self.out@) =~= o2.push("…（超过 500 条，已截断）"@));
                self.done = true;
            }
        }
    }

    /// The list, or the no-match text naming the pattern shown to the user.
    pub fn finish(&self, shown: &str) -> (r: String)
        ensures
            r@ == if self.state().0.len() == 0 {
                "没有匹配 "@ + shown@ + " 的文件"@
            } else {
                join_seq(self.state().0, "\n"@)
            },
    {
        if self.out.len() == 0 {
            let mut m = String::from_str("没有匹配 ");
            push_str(&mut m, shown);
            push_str(&mut m, " 的文件");
            m
        } else {
            crate::text::join_strings(&self.out, "\n")
        }
    }
}

/// The pattern shown for an empty glob argument.
pub fn glob_shown(pattern: &str) -> (r: String)
    ensures
        r@ == if pattern@.len() == 0 { "*"@ } else { pattern@ },
{
    if pattern.is_empty() { String::from_str("*") } else { String::from_str(pattern) }
}

// ---------- read ----------

/// The text-file check of `read`: no directory, at most 512 KB, no gzip magic in
/// the first 4096 bytes, no zero byte in the first 1024 (`display` is the path as
/// shown, `head` the file's first bytes).
pub open spec fn text_file_check(is_dir: bool, len: u64, head: Seq<u8>, display: Seq<char>) -> Result<(), Seq<char>> {
    if is_dir {
        Err("这是一个目录："@ + display)
    } else if len > 524288 {
        Err("文件过大（"@ + fmt_size_spec(len) + "，上限 512KB），请用 offset/limit 分段读取"@)
    } else if head.len() >= 2 && head[0] == 0x1f && head[1] == 0x8b {
        Err("二进制文件（gzip），无法以文本读取"@)
    } else if looks_binary(head) {
        Err("二进制文件，无法以文本读取"@)
    } else {
        Ok(())
    }
}

/// The text-file check of `read`.
pub fn assert_text_file(is_dir: bool, len: u64, head: &[u8], display: &str) -> (r: Result<(), String>)
    ensures
        match r {
            Ok(()) => text_file_check(is_dir, len, head@, display@) is Ok,
            Err(e) => text_file_check(is_dir, len, head@, display@) == Err::<(), Seq<char>>(e@),
        },
{
    if is_dir {
        let mut m = String::from_str("这是一个目录：");
        push_str(&mut m, display);
        return Err(m);
    }
    if len > 524288 {
        let mut m = String::from_str("文件过大（");
        push_str(&mut m, fmt_size(len).as_str());
        push_str(&mut m, "，上限 512KB），请用 offset/limit 分段读取");
        return Err(m);
    }
    if head.len() >= 2 && head[0] == 0x1f && head[1] == 0x8b {
        return Err(String::from_str("二进制文件（gzip），无法以文本读取"));
    }
    if is_binary_head(head) {
        return Err(String::from_str("二进制文件，无法以文本读取"));
    }
    Ok(())
}

/// The numbered lines of `read`, from line `offset` on.
pub open spec fn numbered(lines: Seq<Seq<char>>, offset: nat) -> Seq<Seq<char>> {
    Seq::new(lines.len(), |i: int| pad_start_spec(dec((offset + i) as nat), 6) + "\t"@ + lines[i])
}

/// What `read` answers for a file's text: a header with the line count and the
/// shown range, the lines `offset..offset+limit` numbered (`offset` at least 1),
/// and a hint when lines remain after them.
pub open spec fn read_spec(rel: Seq<char>, content: Seq<char>, offset: nat, limit: nat) -> Seq<char> {
    let lines = split_seq(content, '\n');
    let total = lines.len();
    let start = if offset - 1 < total { offset - 1 } else { total as int };
    let end = if start + limit < total { start + limit } else { total as int };
    let slice = lines.subrange(start, end);
    let shown_to = if (offset - 1 + slice.len()) < total { (offset - 1 + slice.len()) as nat } else { total };
    let more = if shown_to < total {
        "\n（第 "@ + dec((shown_to + 1) as nat) + "-"@ + dec(total) + " 行未显示，可用 offset 继续读取）"@
    } else {
        Seq::<char>::empty()
    };
    rel + "（共 "@ + dec(total) + " 行，显示 "@ + dec(offset) + "-"@ + dec(shown_to) + "）\n"@
        + join_seq(numbered(slice, offset), "\n"@) + more
}

/// What `read` answers for a file's text.
pub fn read_text(rel: &str, content: &str, offset: usize, limit: usize) -> (r: String)
    requires
        offset >= 1,
    ensures
        r@ == read_spec(rel@, content@, offset as nat, limit as nat),
{
    let lines = crate::text::split_chars(&chars_of(content), '\n');
    let ghost ls = crate::text::vview(lines@);
    let total = lines.len();
    let from = offset - 1;
    let start = if from < total { from } else { total };
    let end = if total - start > limit { start + limit } else { total };
    let ghost slice = ls.subrange(start as int, end as int);
    let mut body: Vec<Vec<char>> = Vec::new();
    let mut k = start;
    while k < end
        invariant
            start <= k <= end <= total,
            total == lines@.len(),
            ls == crate::text::vview(lines@),
            from == offset - 1,
            start <= from || start == total,
            slice == ls.subrange(start as int, end as int),
            crate::text::vview(body@) =~= numbered(slice, offset as nat).take(k - start),
        decreases end - k,
    {
        let num = crate::text::pad_start(dec_string((offset as u128) + ((k - start) as u128)).as_str(), 6);
        let mut row = chars_of(num.as_str());
        row.push('\t');
        crate::text::extend_chars(&mut row, &lines[k]);
        let ghost before = body@;
        assert(row@ =~= pad_start_spec(dec((offset + (k - start)) as nat), 6) + "\t"@ + ls[k as int]) by {
            reveal_strlit("\t");
        }
        body.push(row);
        assert(crate::text::vview(body@) =~= crate::text::vview(before).push(row@));
        k += 1;
    }
    assert(numbered(slice, offset as nat).take(end - start) =~= numbered(slice, offset as nat));
    let shown_to: usize = if from + (end - start) < total { from + (end - start) } else { total };
    let mut r = String::from_str(rel);
    push_str(&mut r, "（共 ");
    push_str(&mut r, dec_string(total as u128).as_str());
    push_str(&mut r, " 行，显示 ");
    push_str(&mut r, dec_string(offset as u128).as_str());
    push_str(&mut r, "-");
    push_str(&mut r, dec_string(shown_to as u128).as_str());
    push_str(&mut r, "）\n");
    let nl = ['\n'];
    assert(nl@ =~= "\n"@) by { reveal_strlit("\n"); }
    push_chars(&mut r, &crate::text::join_chars(&body, &nl));
    if shown_to < total {
        push_str(&mut r, "\n（第 ");
        push_str(&mut r, dec_string((shown_to as u128) + 1).as_str());
        push_str(&mut r, "-");
        push_str(&mut r, dec_string(total as u128).as_str());
        push_str(&mut r, " 行未显示，可用 offset 继续读取）");
    }
    r
}

// ---------- list ----------

/// A directory entry as read from the file system: its name, whether it is a
/// directory, its size (0 when it could not be read) and its path relative to the
/// workspace.
pub struct ListRow {
    pub name: String,
    pub is_dir: bool,
    pub size: u64,
    pub rel: String,
}

/// Entries that `list` shows: no dot entries, and no ignored directories unless
/// everything is asked for.
pub open spec fn list_keeps(r: ListRow, all: bool) -> bool {
    !(r.name@.len() > 0 && r.name@[0] == '.') && !(r.is_dir && !all && ignored_dir(r.name@))
}

/// The shown entries, in the order read.
pub open spec fn list_kept(rows: Seq<ListRow>, all: bool) -> Seq<ListRow>
    decreases rows.len(),
{
    if rows.len() == 0 {
        Seq::<ListRow>::empty()
    } else if list_keeps(rows.last(), all) {
        list_kept(rows.drop_last(), all).push(rows.last())
    } else {
        list_kept(rows.drop_last(), all)
    }
}

/// `x` may be listed before `y`: directories first, then names in the
/// locale-like order.
pub open spec fn row_le(x: ListRow, y: ListRow) -> bool {
    if x.is_dir != y.is_dir {
        x.is_dir
    } else {
        crate::sort::locale_order(x.name@, y.name@) <= 0
    }
}

/// Every entry may be listed before every later one.
pub open spec fn rows_sorted(s: Seq<ListRow>) -> bool {
    forall|i: int, j: int| 0 <= i < j < s.len() ==> row_le(#[trigger] s[i], #[trigger] s[j])
}

/// One line of `list`: kind, size padded to 9 units, path.
pub open spec fn list_line(r: ListRow) -> Seq<char> {
    (if r.is_dir { "d"@ } else { "-"@ }) + " "@ + pad_start_spec(fmt_size_spec(r.size), 9) + "  "@ + r.rel@
}

/// The lines of entries in order.
pub open spec fn list_lines(s: Seq<ListRow>) -> Seq<Seq<char>> {
    s.map_values(|r: ListRow| list_line(r))
}

proof fn lemma_locale_props(a: Seq<char>, b: Seq<char>, c: Seq<char>)
    ensures
        crate::sort::locale_order(a, b) <= 0 || crate::sort::locale_order(b, a) <= 0,
        crate::sort::locale_order(a, b) <= 0 && crate::sort::locale_order(b, c) <= 0 ==> crate::sort::locale_order(a, c) <= 0,
{
    let (la, lb, lc) = (crate::text::lowercase(a), crate::text::lowercase(b), crate::text::lowercase(c));
    crate::sort::lemma_lex_antisym(la, lb);
    crate::sort::lemma_lex_antisym(lb, lc);
    crate::sort::lemma_lex_antisym(la, lc);
    crate::sort::lemma_lex_antisym(a, b);
    crate::sort::lemma_lex_antisym(b, c);
    crate::sort::lemma_lex_antisym(a, c);
    if crate::sort::locale_order(a, b) <= 0 && crate::sort::locale_order(b, c) <= 0 {
        if crate::sort::lex_order(la, lb) <= 0 && crate::sort::lex_order(lb, lc) <= 0 {
            crate::sort::lemma_lex_trans(la, lb, lc);
        }
        if crate::sort::lex_order(la, lb) == 0 && crate::sort::lex_order(lb, lc) == 0 {
            crate::sort::lemma_lex_trans(a, b, c);
        }
    }
}

proof fn lemma_row_total(x: ListRow, y: ListRow)
    ensures
        row_le(x, y) || row_le(y, x),
{
    lemma_locale_props(x.name@, y.name@, y.name@);
}

proof fn lemma_row_trans(x: ListRow, y: ListRow, z: ListRow)
    requires
        row_le(x, y),
        row_le(y, z),
    ensures
        row_le(x, z),
{
    lemma_locale_props(x.name@, y.name@, z.name@);
}

fn row_le_exec(x: &ListRow, y: &ListRow) -> (r: bool)
    ensures
        r == row_le(*x, *y),
{
    if x.is_dir != y.is_dir {
        x.is_dir
    } else {
        match crate::sort::locale_like_cmp(x.name.as_str(), y.name.as_str()) {
            std::cmp::Ordering::Greater => false,
            _ => true,
        }
    }
}

/// The entries in listing order: the same entries, each allowed before every later one.
pub fn sort_rows(input: Vec<ListRow>) -> (out: Vec<ListRow>)
    ensures
        out@.to_multiset() == input@.to_multiset(),
        rows_sorted(out@),
{
    broadcast use vstd::seq_lib::group_to_multiset_ensures;
    let mut rest = input;
    let mut out: Vec<ListRow> = Vec::new();
    let ghost orig = rest@.to_multiset();
    proof {
        broadcast use vstd::multiset::group_multiset_axioms;
        vstd::multiset::lemma_multiset_empty_len(out@.to_multiset());
        assert(rest@.to_multiset().add(out@.to_multiset()) =~= orig);
    }
    while rest.len() > 0
        invariant
            rest@.to_multiset().add(out@.to_multiset()) == orig,
            rows_sorted(out@),
            forall|i: int, k: int| 0 <= i < out@.len() && 0 <= k < rest@.len() ==> row_le(#[trigger] out@[i], #[trigger] rest@[k]),
        decreases rest@.len(),
    {
        let mut m: usize = 0;
        let mut j: usize = 1;
        proof { lemma_row_total(rest@[0], rest@[0]); }
        while j < rest.len()
            invariant
                0 <= m < j <= rest@.len(),
                forall|k: int| 0 <= k < j ==> row_le(rest@[m as int], #[trigger] rest@[k]),
            decreases rest@.len() - j,
        {
            if !row_le_exec(&rest[m], &rest[j]) {
                proof {
                    lemma_row_total(rest@[m as int], rest@[j as int]);
                    assert forall|k: int| 0 <= k < j + 1 implies row_le(rest@[j as int], #[trigger] rest@[k]) by {
                        if k < j {
                            lemma_row_trans(rest@[j as int], rest@[m as int], rest@[k]);
                        } else {
                            lemma_row_total(rest@[j as int], rest@[j as int]);
                        }
                    }
                }
                m = j;
            }
            j += 1;
        }
        let ghost r0 = rest@;
        let ghost o0 = out@;
        let x = rest.remove(m);
        out.push(x);
        proof {
            vstd::seq_lib::to_multiset_remove(r0, m as int);
            vstd::seq_lib::to_multiset_build(o0, x);
            assert(rest@ == r0.remove(m as int));
            assert(out@ == o0.push(x));
            assert(r0.contains(r0[m as int]));
            vstd::seq_lib::to_multiset_contains(r0, r0[m as int]);
            assert(rest@.to_multiset().add(out@.to_multiset()) =~= orig) by {
                broadcast use vstd::multiset::group_multiset_axioms;
            }
            assert forall|i: int, k: int| 0 <= i < out@.len() && 0 <= k < rest@.len() implies row_le(#[trigger] out@[i], #[trigger] rest@[k]) by {
                if k < m {
                    assert(rest@[k] == r0[k]);
                } else {
                    assert(rest@[k] == r0[k + 1]);
                }
                if i < o0.len() {
                    assert(out@[i] == o0[i]);
                }
            }
            assert forall|i: int, j2: int| 0 <= i < j2 < out@.len() implies row_le(#[trigger] out@[i], #[trigger] out@[j2]) by {
                assert(out@[i] == if i < o0.len() { o0[i] } else { x });
                if j2 < o0.len() {
                    assert(out@[j2] == o0[j2]);
                } else {
                    assert(out@[j2] == r0[m as int]);
                }
            }
        }
    }
    proof {
        broadcast use vstd::multiset::group_multiset_axioms;
        vstd::multiset::lemma_multiset_empty_len(rest@.to_multiset());
        assert(out@.to_multiset() =~= orig);
    }
    out
}

/// What `list` answers: the shown entries in listing order, one line each, or the
/// empty-directory text.
pub fn list_text(rows: &Vec<ListRow>, all: bool) -> (r: String)
    ensures
        exists|ord: Seq<ListRow>| {
            &&& ord.to_multiset() == list_kept(rows@, all).to_multiset()
            &&& rows_sorted(ord)
            &&& r@ == if ord.len() == 0 { "（空目录）"@ } else { join_seq(list_lines(ord), "\n"@) }
        },
{
    let ghost all_rows = rows@;
    let mut kept: Vec<ListRow> = Vec::new();
    let mut i: usize = 0;
    while i < rows.len()
        invariant
            i <= rows@.len(),
            rows@ == all_rows,
            kept@ == list_kept(all_rows.take(i as int), all),
        decreases rows@.len() - i,
    {
        assert(all_rows.take(i + 1).drop_last() =~= all_rows.take(i as int));
        assert(all_rows.take(i + 1).last() == all_rows[i as int]);
        let hidden = {
            let nv = chars_of(rows[i].name.as_str());
            nv.len() > 0 && nv[0] == '.'
        };
        let skip_dir = rows[i].is_dir && !all && is_ignored_dir(rows[i].name.as_str());
        if !hidden && !skip_dir {
            let x = ListRow {
                name: rows[i].name.clone(),
                is_dir: rows[i].is_dir,
                size: rows[i].size,
                rel: rows[i].rel.clone(),
            };
            assert(x == rows@[i as int]);
            kept.push(x);
        }
        i += 1;
    }
    assert(all_rows.take(rows@.len() as int) =~= all_rows);
    let sorted = sort_rows(kept);
    let ghost ord = sorted@;
    if sorted.len() == 0 {
        return String::from_str("（空目录）");
    }
    let mut lines: Vec<String> = Vec::new();
    let mut k: usize = 0;
    while k < sorted.len()
        invariant
            k <= sorted@.len(),
            ord == sorted@,
            strs(lines@) =~= list_lines(ord).take(k as int),
        decreases sorted@.len() - k,
    {
        let row = &sorted[k];
        let mut line = String::from_str(if row.is_dir { "d" } else { "-" });
        push_str(&mut line, " ");
        push_str(&mut line, crate::text::pad_start(fmt_size(row.size).as_str(), 9).as_str());
        push_str(&mut line, "  ");
        push_str(&mut line, row.rel.as_str());
        let ghost before = lines@;
        lines.push(line);
        assert(strs(lines@) =~= strs(before).push(list_line(ord[k as int])));
        k += 1;
    }
    assert(list_lines(ord).take(sorted@.len() as int) =~= list_lines(ord));
    crate::text::join_strings(&lines, "\n")
}

// ---------- laws ----------

proof fn lemma_scan_bound(out: Seq<Seq<char>>, matched: bool, rel: Seq<char>, lines: Seq<Seq<char>>, i: nat,
    src: Seq<char>, ci: bool)
    requires
        out.len() < grep_max_matches(),
    ensures
        scan(out, matched, rel, lines, i, src, ci).0.len() <= grep_max_matches(),
        scan(out, matched, rel, lines, i, src, ci).0.len() >= out.len(),
    decreases lines.len() - i,
{
    if i < lines.len() {
        if regex_match(src, ci, lines[i as int]) {
            let o1 = out.push(grep_line(rel, i + 1, lines[i as int]));
            if o1.len() < grep_max_matches() {
                lemma_scan_bound(o1, true, rel, lines, i + 1, src, ci);
            }
        } else {
            lemma_scan_bound(out, matched, rel, lines, i + 1, src, ci);
        }
    }
}

/// A `grep` report never holds more than 200 matching lines and the cut notice:
/// feeding a file to a report below the limit leaves at most 201 lines.
pub proof fn law_grep_report_bounded(st: (Seq<Seq<char>>, nat, bool), rel: Seq<char>, text: Seq<char>,
    src: Seq<char>, ci: bool)
    requires
        st.0.len() < grep_max_matches(),
    ensures
        grep_feed_spec(st, rel, text, src, ci).0.len() <= grep_max_matches() + 1,
        !grep_feed_spec(st, rel, text, src, ci).2 ==> grep_feed_spec(st, rel, text, src, ci).0.len() < grep_max_matches(),
{
    lemma_scan_bound(st.0, false, rel, raw_lines(text), 0, src, ci);
}

/// A `glob` list never holds more than 500 files and the cut notice.
pub proof fn law_glob_list_bounded(st: (Seq<Seq<char>>, bool), rel: Seq<char>, src: Seq<char>, ci: bool)
    requires
        st.0.len() < glob_max(),
    ensures
        glob_feed_spec(st, rel, src, ci).0.len() <= glob_max() + 1,
{
}

proof fn lemma_scan_extends(out: Seq<Seq<char>>, matched: bool, rel: Seq<char>, lines: Seq<Seq<char>>, i: nat,
    src: Seq<char>, ci: bool)
    ensures
        out.is_prefix_of(scan(out, matched, rel, lines, i, src, ci).0),
    decreases lines.len() - i,
{
    if i < lines.len() {
        if regex_match(src, ci, lines[i as int]) {
            let o1 = out.push(grep_line(rel, i + 1, lines[i as int]));
            assert(out.is_prefix_of(o1));
            if o1.len() < grep_max_matches() {
                lemma_scan_extends(o1, true, rel, lines, i + 1, src, ci);
            }
        } else {
            lemma_scan_extends(out, matched, rel, lines, i + 1, src, ci);
        }
    }
}

/// Feeding one more file to a `grep` report only appends to it: the lines
/// already reported stay, first and in order, whatever the file holds.
pub proof fn law_grep_feed_appends(st: (Seq<Seq<char>>, nat, bool), rel: Seq<char>, text: Seq<char>,
    src: Seq<char>, ci: bool)
    ensures
        st.0.is_prefix_of(grep_feed_spec(st, rel, text, src, ci).0),
        grep_feed_spec(st, rel, text, src, ci).0.subrange(0, st.0.len() as int) == st.0,
{
    lemma_scan_extends(st.0, false, rel, raw_lines(text), 0, src, ci);
    let r = scan(st.0, false, rel, raw_lines(text), 0, src, ci);
    assert(r.0.is_prefix_of(r.0.push(grep_cut_notice())));
    let g = grep_feed_spec(st, rel, text, src, ci).0;
    assert(st.0.is_prefix_of(g));
    assert(g.subrange(0, st.0.len() as int) =~= st.0);
}

} // verus!
