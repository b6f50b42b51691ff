//! Output and argument helpers of the native tools, with JavaScript semantics
//! where the tools' texts depend on them: sizes with one decimal rounded half
//! away from zero, glob patterns as regular expressions, argument coercions.

use vstd::prelude::*;
use crate::json::{Json, JsonV, jget};
use crate::text::{chars_of, string_of, push_str, push_chars, dec, dec_string};
use crate::pattern::{Pattern, regex_build};

verus! {

// ---------- ignored directories ----------

/// Directories skipped by listings and walks unless everything is asked for.
pub open spec fn ignored_dir(name: Seq<char>) -> bool {
    name == "node_modules"@ || name == ".git"@ || name == "dist"@ || name == "target"@ || name == ".next"@
        || name == ".nuxt"@ || name == ".cache"@ || name == ".pnpm-store"@
}

/// Whether the directory name is on the ignore list.
pub fn is_ignored_dir(name: &str) -> (r: bool)
    ensures
        r == ignored_dir(name@),
{
    crate::json::text_eq(name, "node_modules") || crate::json::text_eq(name, ".git")
        || crate::json::text_eq(name, "dist") || crate::json::text_eq(name, "target")
        || crate::json::text_eq(name, ".next") || crate::json::text_eq(name, ".nuxt")
        || crate::json::text_eq(name, ".cache") || crate::json::text_eq(name, ".pnpm-store")
}

// ---------- sizes ----------

/// `q / 10` with one decimal.
pub open spec fn tenths(q: nat) -> Seq<char> {
    dec(q / 10) + "."@ + dec(q % 10)
}

/// A byte count as the tools print it: bytes below 1 KB, else KB or MB with one
/// decimal, rounded half away from zero (`toFixed(1)`).
pub open spec fn fmt_size_spec(n: u64) -> Seq<char> {
    if n < 1024 {
        dec(n as nat) + " B"@
    } else if n < 1048576 {
        tenths(((10 * n + 512) / 1024) as nat) + " KB"@
    } else {
        tenths(((10 * n + 524288) / 1048576) as nat) + " MB"@
    }
}

fn push_tenths(s: &mut String, q: u128)
    ensures
        final(s)@ == old(s)@ + tenths(q as nat),
{
    push_str(s, dec_string(q / 10).as_str());
    push_str(s, ".");
    push_str(s, dec_string(q % 10).as_str());
}

/// A byte count as the tools print it.
pub fn fmt_size(n: u64) -> (r: String)
    ensures
        r@ == fmt_size_spec(n),
{
    let mut s = String::new();
    let m = n as u128;
    if n < 1024 {
        push_str(&mut s, dec_string(m).as_str());
        push_str(&mut s, " B");
    } else if n < 1048576 {
        push_tenths(&mut s, (10 * m + 512) / 1024);
        push_str(&mut s, " KB");
    } else {
        push_tenths(&mut s, (10 * m + 524288) / 1048576);
        push_str(&mut s, " MB");
    }
    s
}

// ---------- glob patterns ----------

/// `c` is one of `special`, or a closing brace or dollar sign.
pub open spec fn escaped(c: char, special: Seq<char>) -> bool {
    special.contains(c) || c == '}' || c == '$'
}

/// `s` with a backslash before each character of `special` (and `}` and `$`).
pub open spec fn escape_set_spec(s: Seq<char>, special: Seq<char>) -> Seq<char>
    decreases s.len(),
{
    if s.len() == 0 {
        Seq::<char>::empty()
    } else {
        escape_set_spec(s.drop_last(), special) + if escaped(s.last(), special) {
            seq!['\\', s.last()]
        } else {
            seq![s.last()]
        }
    }
}

fn contains_char(v: &[char], c: char) -> (r: bool)
    ensures
        r == v@.contains(c),
{
    let mut i: usize = 0;
    while i < v.len()
        invariant
            i <= v@.len(),
            forall|k: int| 0 <= k < i ==> v@[k] != c,
        decreases v@.len() - i,
    {
        if v[i] == c {
            return true;
        }
        i += 1;
    }
    false
}

fn escape_chars(s: &[char], special: &[char]) -> (r: Vec<char>)
    ensures
        r@ == escape_set_spec(s@, special@),
{
    let mut out: Vec<char> = Vec::new();
    let mut i: usize = 0;
    while i < s.len()
        invariant
            i <= s@.len(),
            out@ == escape_set_spec(s@.take(i as int), special@),
        decreases s@.len() - i,
    {
        assert(s@.take(i + 1).drop_last() =~= s@.take(i as int));
        assert(s@.take(i + 1).last() == s@[i as int]);
        let c = s[i];
        let ghost o = out@;
        if contains_char(special, c) || c == '}' || c == '$' {
            out.push('\\');
            out.push(c);
            assert(out@ =~= o + seq!['\\', c]);
        } else {
            out.push(c);
            assert(out@ =~= o + seq![c]);
        }
        i += 1;
    }
    assert(s@.take(s@.len() as int) =~= s@);
    out
}

/// Escapes the characters of `special` (and `}` and `$`) with a backslash.
pub fn regex_escape_set(s: &str, special: &str) -> (r: String)
    ensures
        r@ == escape_set_spec(s@, special@),
{
    string_of(&escape_chars(&chars_of(s), &chars_of(special)))
}

/// The characters that a glob keeps literal by escaping them.
pub open spec fn glob_special() -> Seq<char> {
    seq!['.', '+', '^', '$', '|', '(', ')', '[', ']', '\\']
}

/// The first `}` of `s`.
pub open spec fn first_close(s: Seq<char>) -> Option<int>
    decreases s.len(),
{
    if s.len() == 0 {
        None
    } else if s[0] == '}' {
        Some(0)
    } else {
        match first_close(s.drop_first()) {
            Some(k) => Some(k + 1),
            None => None,
        }
    }
}

/// The alternatives of a brace group, escaped and joined with `|`.
pub open spec fn brace_alts(inner: Seq<char>) -> Seq<char> {
    crate::text::join_seq(
        crate::text::split_seq(inner, ',').map_values(|a: Seq<char>| escape_set_spec(a, glob_special())),
        "|"@,
    )
}

/// The regular expression (without anchors) for the glob `cs`: `**/` any
/// directories or none, `**` anything, `*` anything within one path segment,
/// `?` one character within a segment, `{a,b}` alternatives, the rest literal.
pub open spec fn glob_body(cs: Seq<char>) -> Seq<char>
    decreases cs.len(),
{
    if cs.len() == 0 {
        Seq::<char>::empty()
    } else if cs[0] == '*' {
        if cs.len() > 1 && cs[1] == '*' {
            if cs.len() > 2 && cs[2] == '/' {
                "(?:.*/)?"@ + glob_body(cs.skip(3))
            } else {
                ".*"@ + glob_body(cs.skip(2))
            }
        } else {
            "[^/]*"@ + glob_body(cs.skip(1))
        }
    } else if cs[0] == '?' {
        "[^/]"@ + glob_body(cs.skip(1))
    } else if cs[0] == '{' && first_close(cs.skip(1)) is Some {
        let off = first_close(cs.skip(1))->0;
        proof { lemma_first_close(cs.skip(1)); }
        "(?:"@ + brace_alts(cs.subrange(1, 1 + off)) + ")"@ + glob_body(cs.skip(off + 2))
    } else if glob_special().contains(cs[0]) {
        seq!['\\', cs[0]] + glob_body(cs.skip(1))
    } else {
        seq![cs[0]] + glob_body(cs.skip(1))
    }
}

pub proof fn lemma_first_close(s: Seq<char>)
    ensures
        first_close(s) matches Some(k) ==> 0 <= k < s.len() && s[k] == '}'
            && forall|j: int| 0 <= j < k ==> s[j] != '}',
        first_close(s) is None ==> forall|j: int| 0 <= j < s.len() ==> s[j] != '}',
    decreases s.len(),
{
    if s.len() > 0 && s[0] != '}' {
        lemma_first_close(s.drop_first());
        assert forall|j: int| 1 <= j < s.len() implies s[j] == s.drop_first()[j - 1] by {}
    }
}

/// The anchored regular expression for a glob.
pub open spec fn glob_source(pattern: Seq<char>) -> Seq<char> {
    "^"@ + glob_body(pattern) + "$"@
}

fn find_close(cs: &[char], from: usize) -> (r: Option<usize>)
    requires
        from <= cs@.len(),
    ensures
        match r {
            Some(k) => first_close(cs@.skip(from as int)) == Some(k as int),
            None => first_close(cs@.skip(from as int)) is None,
        },
{
    proof { lemma_first_close(cs@.skip(from as int)); }
    let mut i = from;
    while i < cs.len()
        invariant
            from <= i <= cs@.len(),
            forall|j: int| from <= j < i ==> cs@[j] != '}',
        decreases cs@.len() - i,
    {
        if cs[i] == '}' {
            proof { lemma_first_close_at(cs@.skip(from as int), (i - from) as int); }
            return Some(i - from);
        }
        i += 1;
    }
    proof { lemma_first_close_none(cs@.skip(from as int)); }
    None
}

proof fn lemma_first_close_at(s: Seq<char>, k: int)
    requires
        0 <= k < s.len(),
        s[k] == '}',
        forall|j: int| 0 <= j < k ==> s[j] != '}',
    ensures
        first_close(s) == Some(k),
    decreases k,
{
    if k > 0 {
        assert forall|j: int| 0 <= j < k - 1 implies s.drop_first()[j] != '}' by {
            assert(s.drop_first()[j] == s[j + 1]);
        }
        lemma_first_close_at(s.drop_first(), k - 1);
    }
}

proof fn lemma_first_close_none(s: Seq<char>)
    requires
        forall|j: int| 0 <= j < s.len() ==> s[j] != '}',
    ensures
        first_close(s) is None,
    decreases s.len(),
{
    if s.len() > 0 {
        assert forall|j: int| 0 <= j < s.len() - 1 implies s.drop_first()[j] != '}' by {
            assert(s.drop_first()[j] == s[j + 1]);
        }
        lemma_first_close_none(s.drop_first());
    }
}

fn brace_alts_exec(inner: &[char]) -> (r: Vec<char>)
    ensures
        r@ == brace_alts(inner@),
{
    let special: [char; 10] = ['.', '+', '^', '$', '|', '(', ')', '[', ']', '\\'];
    assert(special@ =~= glob_special());
    let parts = crate::text::split_chars(inner, ',');
    let mut escaped: Vec<Vec<char>> = Vec::new();
    let mut i: usize = 0;
    while i < parts.len()
        invariant
            i <= parts@.len(),
            special@ == glob_special(),
            crate::text::vview(escaped@) =~= crate::text::vview(parts@).take(i as int).map_values(
                |a: Seq<char>| escape_set_spec(a, glob_special()),
            ),
        decreases parts@.len() - i,
    {
        let e = escape_chars(&parts[i], &special);
        let ghost before = escaped@;
        escaped.push(e);
        assert(crate::text::vview(escaped@) =~= crate::text::vview(before).push(e@));
        i += 1;
    }
    assert(crate::text::vview(parts@).take(parts@.len() as int) =~= crate::text::vview(parts@));
    let bar = ['|'];
    assert(bar@ =~= "|"@) by { reveal_strlit("|"); }
    crate::text::join_chars(&escaped, &bar)
}

/// The anchored regular expression for a glob.
pub fn glob_regex_source(pattern: &str) -> (r: String)
    ensures
        r@ == glob_source(pattern@),
{
    let cs = chars_of(pattern);
    let len = cs.len();
    let mut re: Vec<char> = Vec::new();
    let mut i: usize = 0;
    let special: [char; 10] = ['.', '+', '^', '$', '|', '(', ')', '[', ']', '\\'];
    assert(special@ =~= glob_special());
    assert(cs@.skip(0) =~= cs@);
    while i < len
        invariant
            len == cs@.len(),
            i <= len,
            special@ == glob_special(),
            re@ + glob_body(cs@.skip(i as int)) == glob_body(cs@),
        decreases len - i,
    {
        let ghost rest = cs@.skip(i as int);
        let ghost r0 = re@;
        let c = cs[i];
        assert(rest[0] == c);
        if c == '*' {
            if i + 1 < len && cs[i + 1] == '*' {
                assert(rest[1] == cs@[i + 1]);
                if i + 2 < len && cs[i + 2] == '/' {
                    assert(rest[2] == cs@[i + 2]);
                    push_lit(&mut re, "(?:.*/)?");
                    assert(rest.skip(3) =~= cs@.skip(i + 3));
                    i += 3;
                    continue;
                }
                push_lit(&mut re, ".*");
                assert(rest.skip(2) =~= cs@.skip(i + 2));
                i += 2;
                continue;
            }
            push_lit(&mut re, "[^/]*");
            assert(rest.skip(1) =~= cs@.skip(i + 1));
            i += 1;
            continue;
        }
        if c == '?' {
            push_lit(&mut re, "[^/]");
            assert(rest.skip(1) =~= cs@.skip(i + 1));
            i += 1;
            continue;
        }
        if c == '{' {
            let found = find_close(&cs, i + 1);
            assert(cs@.skip(i + 1) =~= rest.skip(1));
            match found {
                Some(off) => {
                    proof { lemma_first_close(rest.skip(1)); }
                    let inner = crate::text::copy_range(&cs, i + 1, i + 1 + off);
                    assert(inner@ =~= rest.subrange(1, 1 + off as int));
                    push_lit(&mut re, "(?:");
                    let alts = brace_alts_exec(&inner);
                    crate::text::extend_chars(&mut re, &alts);
                    push_lit(&mut re, ")");
                    assert(rest.skip(off + 2) =~= cs@.skip(i + off + 2));
                    assert(re@ =~= r0 + "(?:"@ + brace_alts(rest.subrange(1, 1 + off as int)) + ")"@);
                    i += off + 2;
                    continue;
                },
                None => {},
            }
        }
        if contains_char(&special, c) {
            re.push('\\');
        }
        re.push(c);
        assert(rest.skip(1) =~= cs@.skip(i + 1));
        assert(re@ =~= r0 + if glob_special().contains(c) { seq!['\\', c] } else { seq![c] });
        i += 1;
    }
    assert(cs@.skip(len as int) =~= Seq::<char>::empty());
    assert(re@ =~= glob_body(cs@));
    let mut s = String::from_str("^");
    push_chars(&mut s, &re);
    push_str(&mut s, "$");
    s
}

fn push_lit(v: &mut Vec<char>, t: &str)
    ensures
        final(v)@ == old(v)@ + t@,
{
    let cs = chars_of(t);
    crate::text::extend_chars(v, &cs);
}

/// The compiled, case-insensitive regular expression for a glob.
pub fn glob_to_regex(pattern: &str) -> (r: Result<Pattern, String>)
    ensures
        match r {
            Ok(p) => regex_build(glob_source(pattern@), true) is Ok && p@ == (glob_source(pattern@), true),
            Err(e) => regex_build(glob_source(pattern@), true) == Err::<(), Seq<char>>(e@),
        },
{
    let src = glob_regex_source(pattern);
    Pattern::compile(src.as_str(), true)
}

// ---------- arguments with JavaScript coercions ----------

/// No exponent mark before position `i` of a number's text.
pub open spec fn no_exp_before(t: Seq<char>, i: int) -> bool {
    forall|j: int| 0 <= j < i ==> t[j] != 'e' && t[j] != 'E'
}

/// A number's text denotes zero: every digit before the exponent is `0`.
pub open spec fn number_is_zero(t: Seq<char>) -> bool {
    forall|i: int| 0 <= i < t.len() && #[trigger] no_exp_before(t, i) && crate::text::is_digit(t[i]) ==> t[i] == '0'
}

/// An argument as text: strings as they are, numbers and booleans by their text,
/// anything else empty.
pub open spec fn arg_str_spec(args: JsonV, key: Seq<char>) -> Seq<char> {
    match jget(args, key) {
        Some(JsonV::Str(s)) => s,
        Some(JsonV::Number(n)) => n,
        Some(JsonV::Bool(b)) => if b { "true"@ } else { "false"@ },
        _ => Seq::<char>::empty(),
    }
}

/// An argument as text.
pub fn arg_str(args: &Json, key: &str) -> (r: String)
    ensures
        r@ == arg_str_spec(args@, key@),
{
    match args.get(key) {
        Some(v) => match v {
            Json::Str(s) => s.clone(),
            Json::Number(n) => n.clone(),
            Json::Bool(b) => if *b { String::from_str("true") } else { String::from_str("false") },
            _ => String::new(),
        },
        None => String::new(),
    }
}

/// JavaScript truthiness of an argument (a non-empty string, even `"0"`, is true).
pub open spec fn arg_truthy_spec(args: JsonV, key: Seq<char>) -> bool {
    match jget(args, key) {
        None => false,
        Some(JsonV::Null) => false,
        Some(JsonV::Bool(b)) => b,
        Some(JsonV::Number(n)) => !number_is_zero(n),
        Some(JsonV::Str(s)) => s.len() > 0,
        Some(_) => true,
    }
}

/// JavaScript truthiness of an argument.
pub fn arg_truthy(args: &Json, key: &str) -> (r: bool)
    ensures
        r == arg_truthy_spec(args@, key@),
{
    match args.get(key) {
        Some(v) => match v {
            Json::Null => false,
            Json::Bool(b) => *b,
            Json::Number(n) => {
                let t = chars_of(n.as_str());
                let mut i: usize = 0;
                while i < t.len() && t[i] != 'e' && t[i] != 'E'
                    invariant
                        i <= t@.len(),
                        t@ == n@,
                        jget(args@, key@) == Some(JsonV::Number(n@)),
                        no_exp_before(t@, i as int),
                        forall|k: int| 0 <= k < i && crate::text::is_digit(#[trigger] t@[k]) ==> t@[k] == '0',
                    decreases t@.len() - i,
                {
                    if '1' <= t[i] && t[i] <= '9' {
                        assert(no_exp_before(t@, i as int) && crate::text::is_digit(t@[i as int]));
                        assert(!number_is_zero(t@));
                        return true;
                    }
                    i += 1;
                }
                assert forall|k: int| 0 <= k < t@.len() && #[trigger] no_exp_before(t@, k) && crate::text::is_digit(t@[k])
                    implies t@[k] == '0' by {
                    if k > i {
                        assert(t@[i as int] == 'e' || t@[i as int] == 'E');
                    }
                    if k == i && i < t@.len() {
                        assert(t@[k] == 'e' || t@[k] == 'E');
                    }
                }
                false
            },
            Json::Str(s) => !s.as_str().is_empty(),
            _ => true,
        },
        None => false,
    }
}

} // verus!
