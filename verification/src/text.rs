//! Character-level text helpers shared by the tools: conversions between
//! `str` and character vectors, splitting, joining, decimal rendering,
//! UTF-16 measurements and whitespace trimming.

use vstd::prelude::*;

verus! {

// ---------- conversions ----------

/// `String::push`: appends one character.
#[verifier::external_body]
pub(crate) fn push_char(s: &mut String, c: char)
    ensures
        final(s)@ == old(s)@.push(c),
{
    s.push(c);
}

/// Appends all of `t` to `s`.
pub fn push_str(s: &mut String, t: &str)
    ensures
        final(s)@ == old(s)@ + t@,
{
    s.append(t);
}

/// The characters of `s`, in order.
pub fn chars_of(s: &str) -> (v: Vec<char>)
    ensures
        v@ == s@,
{
    let mut v: Vec<char> = Vec::new();
    for c in it: s.chars()
        invariant
            v@ == it.seq().take(it.index() as int),
    {
        v.push(c);
    }
    v
}

/// Appends the characters `v` to `s`.
pub fn push_chars(s: &mut String, v: &[char])
    ensures
        final(s)@ == old(s)@ + v@,
{
    let ghost start = s@;
    let mut i: usize = 0;
    while i < v.len()
        invariant
            i <= v@.len(),
            s@ == start + v@.take(i as int),
        decreases v@.len() - i,
    {
        push_char(s, v[i]);
        assert(v@.take(i + 1) == v@.take(i as int).push(v@[i as int]));
        i += 1;
    }
    assert(v@.take(v@.len() as int) == v@);
}

/// The string made of the characters `v`.
pub fn string_of(v: &[char]) -> (s: String)
    ensures
        s@ == v@,
{
    let mut s = String::new();
    push_chars(&mut s, v);
    s
}

// ---------- decimal rendering ----------

/// The ASCII digit for `d < 10`.
pub open spec fn digit_char(d: nat) -> char {
    if d == 0 { '0' } else if d == 1 { '1' } else if d == 2 { '2' } else if d == 3 { '3' }
    else if d == 4 { '4' } else if d == 5 { '5' } else if d == 6 { '6' } else if d == 7 { '7' }
    else if d == 8 { '8' } else { '9' }
}

/// Decimal notation of `n`, without sign or leading zeros.
pub open spec fn dec(n: nat) -> Seq<char>
    decreases n,
{
    if n < 10 {
        seq![digit_char(n)]
    } else {
        dec(n / 10).push(digit_char(n % 10))
    }
}

fn digit_of(d: u128) -> (c: char)
    requires
        d < 10,
    ensures
        c == digit_char(d as nat),
{
    if d == 0 { '0' } else if d == 1 { '1' } else if d == 2 { '2' } else if d == 3 { '3' }
    else if d == 4 { '4' } else if d == 5 { '5' } else if d == 6 { '6' } else if d == 7 { '7' }
    else if d == 8 { '8' } else { '9' }
}

/// Appends the decimal notation of `n` to `s`.
pub fn push_dec(s: &mut String, n: u128)
    ensures
        final(s)@ == old(s)@ + dec(n as nat),
    decreases n,
{
    if n < 10 {
        push_char(s, digit_of(n));
        assert(dec(n as nat) == seq![digit_char(n as nat)]);
    } else {
        push_dec(s, n / 10);
        push_char(s, digit_of(n % 10));
    }
}

/// Decimal notation of `n` (`n.to_string()`).
pub fn dec_string(n: u128) -> (s: String)
    ensures
        s@ == dec(n as nat),
{
    let mut s = String::new();
    push_dec(&mut s, n);
    s
}

// ---------- splitting and joining ----------

/// The character sequences of a list of character vectors.
pub open spec fn vview(v: Seq<Vec<char>>) -> Seq<Seq<char>> {
    v.map_values(|x: Vec<char>| x@)
}

/// The pieces of `s` between occurrences of `sep`, as `str::split` with a
/// single-character pattern yields them (always at least one piece).
pub open spec fn split_seq(s: Seq<char>, sep: char) -> Seq<Seq<char>>
    decreases s.len(),
{
    if s.len() == 0 {
        seq![Seq::<char>::empty()]
    } else {
        let p = split_seq(s.drop_last(), sep);
        if s.last() == sep {
            p.push(Seq::<char>::empty())
        } else {
            p.update(p.len() - 1, p.last().push(s.last()))
        }
    }
}

/// The pieces joined back together with `sep` between consecutive ones.
pub open spec fn join_seq(parts: Seq<Seq<char>>, sep: Seq<char>) -> Seq<char>
    decreases parts.len(),
{
    if parts.len() == 0 {
        Seq::<char>::empty()
    } else if parts.len() == 1 {
        parts[0]
    } else {
        join_seq(parts.drop_last(), sep) + sep + parts.last()
    }
}

pub proof fn lemma_split_nonempty(s: Seq<char>, sep: char)
    ensures
        split_seq(s, sep).len() >= 1,
    decreases s.len(),
{
    if s.len() > 0 {
        lemma_split_nonempty(s.drop_last(), sep);
    }
}

/// Splitting at `sep` and joining with `sep` gives back the text.
pub proof fn lemma_join_split(s: Seq<char>, sep: char)
    ensures
        join_seq(split_seq(s, sep), seq![sep]) == s,
    decreases s.len(),
{
    if s.len() > 0 {
        let t = s.drop_last();
        lemma_split_nonempty(t, sep);
        lemma_join_split(t, sep);
        let p = split_seq(t, sep);
        if s.last() == sep {
            let q = p.push(Seq::<char>::empty());
            assert(q.drop_last() == p);
            assert(join_seq(q, seq![sep]) == join_seq(p, seq![sep]) + seq![sep] + Seq::<char>::empty());
            assert(s == t.push(sep));
        } else {
            let q = p.update(p.len() - 1, p.last().push(s.last()));
            if p.len() == 1 {
                assert(join_seq(p, seq![sep]) == p[0]);
                assert(q[0] == p[0].push(s.last()));
                assert(s == t.push(s.last()));
            } else {
                assert(q.drop_last() == p.drop_last());
                assert(join_seq(q, seq![sep]) == join_seq(p.drop_last(), seq![sep]) + seq![sep] + p.last().push(s.last()));
                assert(join_seq(p, seq![sep]) == join_seq(p.drop_last(), seq![sep]) + seq![sep] + p.last());
                assert(s == t.push(s.last()));
            }
        }
    }
}

/// No piece of a split contains the separator.
pub proof fn lemma_split_no_sep(s: Seq<char>, sep: char)
    ensures
        forall|i: int, j: int| 0 <= i < split_seq(s, sep).len() && 0 <= j < split_seq(s, sep)[i].len()
            ==> split_seq(s, sep)[i][j] != sep,
    decreases s.len(),
{
    if s.len() > 0 {
        lemma_split_nonempty(s.drop_last(), sep);
        lemma_split_no_sep(s.drop_last(), sep);
        let p = split_seq(s.drop_last(), sep);
        if s.last() != sep {
            let q = p.update(p.len() - 1, p.last().push(s.last()));
            assert forall|i: int, j: int| 0 <= i < q.len() && 0 <= j < q[i].len() implies q[i][j] != sep by {
                if i == p.len() - 1 && j == p.last().len() {
                } else if i == p.len() - 1 {
                    assert(q[i][j] == p[i][j]);
                }
            }
        }
    }
}

/// Splits the characters `v` at every `sep`.
pub fn split_chars(v: &[char], sep: char) -> (parts: Vec<Vec<char>>)
    ensures
        vview(parts@) == split_seq(v@, sep),
{
    let mut parts: Vec<Vec<char>> = Vec::new();
    let mut cur: Vec<char> = Vec::new();
    let mut i: usize = 0;
    proof {
        assert(v@.take(0) == Seq::<char>::empty());
        assert(vview(parts@).push(cur@) == split_seq(v@.take(0), sep));
    }
    while i < v.len()
        invariant
            i <= v@.len(),
            vview(parts@).push(cur@) == split_seq(v@.take(i as int), sep),
        decreases v@.len() - i,
    {
        let c = v[i];
        let ghost before = vview(parts@).push(cur@);
        assert(v@.take(i + 1).drop_last() == v@.take(i as int));
        assert(v@.take(i + 1).last() == c);
        if c == sep {
            let ghost pdv = vview(parts@);
            let mut done: Vec<char> = Vec::new();
            std::mem::swap(&mut done, &mut cur);
            let ghost dv = done@;
            parts.push(done);
            assert(vview(parts@) =~= pdv.push(dv));
            assert(vview(parts@).push(cur@) =~= before.push(Seq::<char>::empty()));
        } else {
            cur.push(c);
            assert(vview(parts@).push(cur@) == before.update(before.len() - 1, before.last().push(c)));
        }
        i += 1;
    }
    let ghost pdv = vview(parts@);
    let ghost cv = cur@;
    parts.push(cur);
    assert(vview(parts@) =~= pdv.push(cv));
    assert(v@.take(v@.len() as int) == v@);
    parts
}

/// Joins the pieces with `sep` between consecutive ones.
pub fn join_chars(parts: &Vec<Vec<char>>, sep: &[char]) -> (r: Vec<char>)
    ensures
        r@ == join_seq(vview(parts@), sep@),
{
    let mut r: Vec<char> = Vec::new();
    let mut i: usize = 0;
    while i < parts.len()
        invariant
            i <= parts@.len(),
            r@ == join_seq(vview(parts@).take(i as int), sep@),
        decreases parts@.len() - i,
    {
        let ghost pre = vview(parts@).take(i as int);
        assert(vview(parts@).take(i + 1).drop_last() == pre);
        if i > 0 {
            let mut k: usize = 0;
            let ghost r0 = r@;
            while k < sep.len()
                invariant
                    k <= sep@.len(),
                    r@ == r0 + sep@.take(k as int),
                decreases sep@.len() - k,
            {
                r.push(sep[k]);
                assert(sep@.take(k + 1) == sep@.take(k as int).push(sep@[k as int]));
                k += 1;
            }
            assert(sep@.take(sep@.len() as int) == sep@);
        }
        let part = &parts[i];
        let ghost r1 = r@;
        let mut k: usize = 0;
        while k < part.len()
            invariant
                k <= part@.len(),
                r@ == r1 + part@.take(k as int),
            decreases part@.len() - k,
        {
            r.push(part[k]);
            assert(part@.take(k + 1) == part@.take(k as int).push(part@[k as int]));
            k += 1;
        }
        assert(part@.take(part@.len() as int) == part@);
        assert(vview(parts@).take(i + 1).last() == part@);
        i += 1;
    }
    assert(vview(parts@).take(parts@.len() as int) == vview(parts@));
    r
}

} // verus!

verus! {

// ---------- prefixes and comparisons ----------

/// `s` begins with `p`.
pub open spec fn has_prefix(s: Seq<char>, p: Seq<char>) -> bool {
    p.len() <= s.len() && s.take(p.len() as int) == p
}

/// Whether the characters `v` begin with `p`.
pub fn starts_with(v: &[char], p: &[char]) -> (r: bool)
    ensures
        r == has_prefix(v@, p@),
{
    if p.len() > v.len() {
        return false;
    }
    let mut i: usize = 0;
    while i < p.len()
        invariant
            p@.len() <= v@.len(),
            i <= p@.len(),
            forall|k: int| 0 <= k < i ==> v@[k] == p@[k],
        decreases p@.len() - i,
    {
        if v[i] != p[i] {
            assert(v@.take(p@.len() as int)[i as int] != p@[i as int]);
            return false;
        }
        i += 1;
    }
    assert(v@.take(p@.len() as int) =~= p@);
    true
}

/// Whether two character sequences are equal.
pub fn chars_eq(a: &[char], b: &[char]) -> (r: bool)
    ensures
        r == (a@ == b@),
{
    if a.len() != b.len() {
        return false;
    }
    let mut i: usize = 0;
    while i < a.len()
        invariant
            a@.len() == b@.len(),
            i <= a@.len(),
            forall|k: int| 0 <= k < i ==> a@[k] == b@[k],
        decreases a@.len() - i,
    {
        if a[i] != b[i] {
            return false;
        }
        i += 1;
    }
    assert(a@ =~= b@);
    true
}

/// Copies `v[from..to]`.
pub fn copy_range(v: &[char], from: usize, to: usize) -> (r: Vec<char>)
    requires
        from <= to <= v@.len(),
    ensures
        r@ == v@.subrange(from as int, to as int),
{
    let mut r: Vec<char> = Vec::new();
    let mut i = from;
    while i < to
        invariant
            from <= i <= to <= v@.len(),
            r@ == v@.subrange(from as int, i as int),
        decreases to - i,
    {
        r.push(v[i]);
        assert(v@.subrange(from as int, i + 1) == v@.subrange(from as int, i as int).push(v@[i as int]));
        i += 1;
    }
    r
}

/// Appends `src` to `dst`.
pub fn extend_chars(dst: &mut Vec<char>, src: &[char])
    ensures
        final(dst)@ == old(dst)@ + src@,
{
    let ghost start = dst@;
    let mut i: usize = 0;
    while i < src.len()
        invariant
            i <= src@.len(),
            dst@ == start + src@.take(i as int),
        decreases src@.len() - i,
    {
        dst.push(src[i]);
        assert(src@.take(i + 1) == src@.take(i as int).push(src@[i as int]));
        i += 1;
    }
    assert(src@.take(src@.len() as int) == src@);
}

// ---------- digits ----------

/// An ASCII decimal digit.
pub open spec fn is_digit(c: char) -> bool {
    '0' <= c <= '9'
}

/// Number of leading ASCII digits of `s`.
pub open spec fn lead_digits(s: Seq<char>) -> nat
    decreases s.len(),
{
    if s.len() > 0 && is_digit(s[0]) {
        1 + lead_digits(s.drop_first())
    } else {
        0
    }
}

/// The value of a run of decimal digits.
pub open spec fn digits_value(s: Seq<char>) -> nat
    decreases s.len(),
{
    if s.len() == 0 {
        0
    } else {
        digits_value(s.drop_last()) * 10 + (s.last() as nat - '0' as nat) as nat
    }
}

pub proof fn lemma_lead_digits(s: Seq<char>)
    ensures
        lead_digits(s) <= s.len(),
        forall|k: int| 0 <= k < lead_digits(s) ==> is_digit(#[trigger] s[k]),
        lead_digits(s) < s.len() ==> !is_digit(s[lead_digits(s) as int]),
    decreases s.len(),
{
    if s.len() > 0 && is_digit(s[0]) {
        lemma_lead_digits(s.drop_first());
        assert forall|k: int| 0 <= k < lead_digits(s) implies is_digit(#[trigger] s[k]) by {
            if k > 0 {
                assert(s[k] == s.drop_first()[k - 1]);
            }
        }
    }
}

/// Number of leading ASCII digits of `v[from..]`.
pub fn count_digits(v: &[char], from: usize) -> (n: usize)
    requires
        from <= v@.len(),
    ensures
        n == lead_digits(v@.skip(from as int)),
        from + n <= v@.len(),
{
    let mut i = from;
    while i < v.len() && '0' <= v[i] && v[i] <= '9'
        invariant
            from <= i <= v@.len(),
            forall|k: int| from <= k < i ==> is_digit(#[trigger] v@[k]),
        decreases v@.len() - i,
    {
        i += 1;
    }
    proof { lemma_count_digits(v@.skip(from as int), (i - from) as nat); }
    i - from
}

proof fn lemma_count_digits(s: Seq<char>, n: nat)
    requires
        n <= s.len(),
        forall|k: int| 0 <= k < n ==> is_digit(#[trigger] s[k]),
        n < s.len() ==> !is_digit(s[n as int]),
    ensures
        lead_digits(s) == n,
    decreases n,
{
    if n > 0 {
        assert forall|k: int| 0 <= k < n - 1 implies is_digit(#[trigger] s.drop_first()[k]) by {
            assert(s.drop_first()[k] == s[k + 1]);
        }
        if n - 1 < s.drop_first().len() {
            assert(s.drop_first()[n - 1] == s[n as int]);
        }
        lemma_count_digits(s.drop_first(), (n - 1) as nat);
    }
}

/// The value of the digit run `v[from..to]`, or `None` when it exceeds `usize::MAX`
/// (`str::parse::<usize>` on a run of ASCII digits).
pub fn parse_digits(v: &[char], from: usize, to: usize) -> (r: Option<usize>)
    requires
        from <= to <= v@.len(),
        forall|k: int| from <= k < to ==> is_digit(#[trigger] v@[k]),
    ensures
        r == (if digits_value(v@.subrange(from as int, to as int)) <= usize::MAX {
            Some(digits_value(v@.subrange(from as int, to as int)) as usize)
        } else {
            None::<usize>
        }),
{
    let mut acc: usize = 0;
    let mut ok = true;
    let mut i = from;
    while i < to
        invariant
            from <= i <= to <= v@.len(),
            forall|k: int| from <= k < to ==> is_digit(#[trigger] v@[k]),
            ok ==> acc == digits_value(v@.subrange(from as int, i as int)),
            !ok ==> digits_value(v@.subrange(from as int, i as int)) > usize::MAX,
        decreases to - i,
    {
        let ghost pre = v@.subrange(from as int, i as int);
        let ghost next = v@.subrange(from as int, i + 1);
        assert(next.drop_last() == pre);
        assert(next.last() == v@[i as int]);
        assert(is_digit(v@[i as int]));
        let d = (v[i] as u32 - '0' as u32) as usize;
        assert(digits_value(next) == digits_value(pre) * 10 + d);
        if ok {
            match acc.checked_mul(10) {
                Some(m) => match m.checked_add(d) {
                    Some(a) => { acc = a; }
                    None => { ok = false; }
                },
                None => {
                    ok = false;
                    assert(digits_value(pre) * 10 > usize::MAX);
                }
            }
        } else {
            assert(digits_value(pre) * 10 >= digits_value(pre)) by (nonlinear_arith);
        }
        i += 1;
    }
    if ok { Some(acc) } else { None }
}

} // verus!

verus! {

// ---------- UTF-16 measurements (JavaScript string semantics) ----------

/// UTF-16 code units of one character: 2 outside the Basic Multilingual Plane.
pub open spec fn utf16_width(c: char) -> nat {
    if c as u32 > 0xFFFF { 2 } else { 1 }
}

/// UTF-16 length of a text (JavaScript `length`).
pub open spec fn utf16_len_spec(s: Seq<char>) -> nat
    decreases s.len(),
{
    if s.len() == 0 { 0 } else { utf16_len_spec(s.drop_last()) + utf16_width(s.last()) }
}

pub proof fn lemma_utf16_len_ge(s: Seq<char>)
    ensures
        utf16_len_spec(s) >= s.len(),
    decreases s.len(),
{
    if s.len() > 0 {
        lemma_utf16_len_ge(s.drop_last());
    }
}

fn width_of(c: char) -> (w: u128)
    ensures
        w == utf16_width(c),
{
    if c as u32 > 0xFFFF { 2 } else { 1 }
}

/// At most two UTF-16 units per character.
pub proof fn lemma_utf16_len_le(s: Seq<char>)
    ensures
        utf16_len_spec(s) <= 2 * s.len(),
    decreases s.len(),
{
    if s.len() > 0 {
        lemma_utf16_len_le(s.drop_last());
    }
}

/// UTF-16 length of the characters `v`.
pub fn utf16_len_chars(v: &[char]) -> (n: u128)
    ensures
        n == utf16_len_spec(v@),
{
    let mut n: u128 = 0;
    let mut i: usize = 0;
    while i < v.len()
        invariant
            i <= v@.len(),
            v@.len() == v.len(),
            n == utf16_len_spec(v@.take(i as int)),
        decreases v@.len() - i,
    {
        assert(v@.take(i + 1).drop_last() == v@.take(i as int));
        proof { lemma_utf16_len_le(v@.take(i as int)); }
        n = n + width_of(v[i]);
        i += 1;
    }
    assert(v@.take(v@.len() as int) == v@);
    n
}

/// A prefix is never longer in UTF-16 than the whole text.
pub proof fn lemma_utf16_prefix_mono(s: Seq<char>, k: int)
    requires
        0 <= k <= s.len(),
    ensures
        utf16_len_spec(s.take(k)) <= utf16_len_spec(s),
    decreases s.len(),
{
    if k < s.len() {
        assert(s.drop_last().take(k) == s.take(k));
        lemma_utf16_prefix_mono(s.drop_last(), k);
    } else {
        assert(s.take(k) == s);
    }
}

/// UTF-16 length of `s` (JavaScript `s.length`).
pub fn utf16_len(s: &str) -> (n: usize)
    requires
        utf16_len_spec(s@) <= usize::MAX,
    ensures
        n == utf16_len_spec(s@),
{
    let v = chars_of(s);
    utf16_len_chars(&v) as usize
}

/// How many leading characters fit into `max` UTF-16 units.
pub open spec fn utf16_fit(s: Seq<char>, max: nat) -> nat
    decreases s.len(),
{
    if s.len() == 0 || utf16_width(s[0]) > max {
        0
    } else {
        1 + utf16_fit(s.drop_first(), (max - utf16_width(s[0])) as nat)
    }
}

/// `s.slice(0, max)` in JavaScript, without cutting a surrogate pair:
/// the longest prefix whose UTF-16 length is at most `max`.
pub open spec fn utf16_truncate_spec(s: Seq<char>, max: nat) -> Seq<char> {
    s.take(utf16_fit(s, max) as int)
}

proof fn lemma_utf16_fit_step(s: Seq<char>, i: int, max: nat, used: nat)
    requires
        0 <= i < s.len(),
        used <= max,
        utf16_width(s[i]) <= max - used,
    ensures
        utf16_fit(s.skip(i), (max - used) as nat)
            == 1 + utf16_fit(s.skip(i + 1), (max - used - utf16_width(s[i])) as nat),
{
    assert(s.skip(i)[0] == s[i]);
    assert(s.skip(i).drop_first() == s.skip(i + 1));
}

/// The truncation: the longest prefix of `v` fitting into `max` UTF-16 units.
pub fn utf16_truncate_chars(v: &[char], max: usize) -> (r: Vec<char>)
    ensures
        r@ == utf16_truncate_spec(v@, max as nat),
{
    let mut used: usize = 0;
    let mut i: usize = 0;
    assert(v@.skip(0) == v@);
    let mut stop = false;
    while i < v.len() && !stop
        invariant
            i <= v@.len(),
            used <= max,
            utf16_fit(v@, max as nat) == i + utf16_fit(v@.skip(i as int), (max - used) as nat),
            stop ==> i < v@.len() && utf16_width(v@[i as int]) > max - used,
        decreases v@.len() - i, if stop { 0int } else { 1int },
    {
        let w = width_of(v[i]) as usize;
        if w > max - used {
            stop = true;
        } else {
            proof { lemma_utf16_fit_step(v@, i as int, max as nat, used as nat); }
            used = used + w;
            i += 1;
        }
    }
    if stop {
        assert(v@.skip(i as int)[0] == v@[i as int]);
        assert(utf16_fit(v@.skip(i as int), (max - used) as nat) == 0);
    } else {
        assert(v@.skip(i as int).len() == 0);
        assert(utf16_fit(v@.skip(i as int), (max - used) as nat) == 0);
    }
    copy_range(v, 0, i)
}

/// `utf16_truncate` on text.
pub fn utf16_truncate(s: &str, max_units: usize) -> (r: String)
    ensures
        r@ == utf16_truncate_spec(s@, max_units as nat),
{
    let v = chars_of(s);
    let t = utf16_truncate_chars(&v, max_units);
    string_of(&t)
}

/// The truncation never exceeds `max` units, and the next character (if any) would.
pub proof fn lemma_utf16_truncate(s: Seq<char>, max: nat)
    ensures
        utf16_fit(s, max) <= s.len(),
        utf16_len_spec(utf16_truncate_spec(s, max)) <= max,
        utf16_fit(s, max) < s.len() ==>
            utf16_len_spec(utf16_truncate_spec(s, max)) + utf16_width(s[utf16_fit(s, max) as int]) > max,
    decreases s.len(),
{
    if s.len() == 0 || utf16_width(s[0]) > max {
        assert(s.take(0) == Seq::<char>::empty());
    } else {
        let t = s.drop_first();
        let m2 = (max - utf16_width(s[0])) as nat;
        lemma_utf16_truncate(t, m2);
        let k = utf16_fit(t, m2);
        lemma_utf16_len_cons(s[0], t.take(k as int));
        assert(s.take(k + 1 as int) == seq![s[0]] + t.take(k as int));
        if k < t.len() {
            assert(s[k + 1 as int] == t[k as int]);
        }
    }
}

/// UTF-16 length of a character followed by a text.
pub proof fn lemma_utf16_len_cons(c: char, t: Seq<char>)
    ensures
        utf16_len_spec(seq![c] + t) == utf16_width(c) + utf16_len_spec(t),
    decreases t.len(),
{
    lemma_utf16_len_concat(seq![c], t);
    assert(seq![c].drop_last() =~= Seq::<char>::empty());
    assert(utf16_len_spec(Seq::<char>::empty()) == 0);
    assert(utf16_len_spec(seq![c]) == utf16_width(c));
}

/// UTF-16 length of a concatenation.
pub proof fn lemma_utf16_len_concat(a: Seq<char>, b: Seq<char>)
    ensures
        utf16_len_spec(a + b) == utf16_len_spec(a) + utf16_len_spec(b),
    decreases b.len(),
{
    if b.len() == 0 {
        assert(a + b == a);
    } else {
        lemma_utf16_len_concat(a, b.drop_last());
        assert((a + b).drop_last() == a + b.drop_last());
    }
}

/// `count` spaces.
pub open spec fn spaces(count: nat) -> Seq<char> {
    Seq::new(count, |i: int| ' ')
}

/// `s.padStart(width)` in JavaScript: spaces in front up to `width` UTF-16 units.
pub open spec fn pad_start_spec(s: Seq<char>, width: nat) -> Seq<char> {
    if utf16_len_spec(s) >= width { s } else { spaces((width - utf16_len_spec(s)) as nat) + s }
}

/// `s.padStart(width)` in JavaScript.
pub fn pad_start(s: &str, width: usize) -> (r: String)
    ensures
        r@ == pad_start_spec(s@, width as nat),
{
    let w = utf16_len_chars(&chars_of(s));
    let mut r = String::new();
    if w < width as u128 {
        let gap = (width as u128 - w) as usize;
        let mut k: usize = 0;
        while k < gap
            invariant
                k <= gap,
                gap == width - utf16_len_spec(s@),
                r@ == spaces(k as nat),
            decreases gap - k,
        {
            push_char(&mut r, ' ');
            assert(spaces((k + 1) as nat) == spaces(k as nat).push(' '));
            k += 1;
        }
    }
    push_str(&mut r, s);
    if w >= width as u128 {
        assert(r@ == s@);
    }
    r
}

// ---------- lines ----------

/// Number of pieces `s.split('\n')` yields.
pub fn split_count(v: &[char], sep: char) -> (n: u128)
    ensures
        n == split_seq(v@, sep).len(),
{
    let mut n: u128 = 1;
    let mut i: usize = 0;
    assert(v@.take(0) == Seq::<char>::empty());
    while i < v.len()
        invariant
            i <= v@.len(),
            v@.len() == v.len(),
            n == split_seq(v@.take(i as int), sep).len(),
            n <= i + 1,
        decreases v@.len() - i,
    {
        assert(v@.take(i + 1).drop_last() == v@.take(i as int));
        proof { lemma_split_nonempty(v@.take(i as int), sep); }
        if v[i] == sep {
            n = n + 1;
        }
        i += 1;
    }
    assert(v@.take(v@.len() as int) == v@);
    n
}

} // verus!

verus! {

// ---------- whitespace ----------

/// Unicode `White_Space` (what `char::is_whitespace` tests).
pub open spec fn is_ws(c: char) -> bool {
    ||| '\u{9}' <= c <= '\u{d}'
    ||| c == ' '
    ||| c == '\u{85}'
    ||| c == '\u{a0}'
    ||| c == '\u{1680}'
    ||| '\u{2000}' <= c <= '\u{200a}'
    ||| c == '\u{2028}'
    ||| c == '\u{2029}'
    ||| c == '\u{202f}'
    ||| c == '\u{205f}'
    ||| c == '\u{3000}'
}

pub fn is_ws_exec(c: char) -> (r: bool)
    ensures
        r == is_ws(c),
{
    ('\u{9}' <= c && c <= '\u{d}') || c == ' ' || c == '\u{85}' || c == '\u{a0}' || c == '\u{1680}'
        || ('\u{2000}' <= c && c <= '\u{200a}') || c == '\u{2028}' || c == '\u{2029}'
        || c == '\u{202f}' || c == '\u{205f}' || c == '\u{3000}'
}

/// Number of leading whitespace characters.
pub open spec fn lead_ws(s: Seq<char>) -> nat
    decreases s.len(),
{
    if s.len() > 0 && is_ws(s[0]) { 1 + lead_ws(s.drop_first()) } else { 0 }
}

/// Number of trailing whitespace characters.
pub open spec fn trail_ws(s: Seq<char>) -> nat
    decreases s.len(),
{
    if s.len() > 0 && is_ws(s.last()) { 1 + trail_ws(s.drop_last()) } else { 0 }
}

/// `str::trim`: without leading and trailing whitespace.
pub open spec fn trim_spec(s: Seq<char>) -> Seq<char> {
    let t = s.skip(lead_ws(s) as int);
    t.take(t.len() - trail_ws(t))
}

proof fn lemma_lead_ws_step(s: Seq<char>, i: int)
    requires
        0 <= i < s.len(),
        is_ws(s[i]),
    ensures
        lead_ws(s.skip(i)) == 1 + lead_ws(s.skip(i + 1)),
{
    assert(s.skip(i)[0] == s[i]);
    assert(s.skip(i).drop_first() == s.skip(i + 1));
}

proof fn lemma_trail_ws_step(s: Seq<char>, j: int)
    requires
        0 < j <= s.len(),
        is_ws(s[j - 1]),
    ensures
        trail_ws(s.take(j)) == 1 + trail_ws(s.take(j - 1)),
{
    assert(s.take(j).last() == s[j - 1]);
    assert(s.take(j).drop_last() == s.take(j - 1));
}

proof fn lemma_trail_ws_le(s: Seq<char>)
    ensures
        trail_ws(s) <= s.len(),
    decreases s.len(),
{
    if s.len() > 0 && is_ws(s.last()) {
        lemma_trail_ws_le(s.drop_last());
    }
}

/// `str::trim` on characters.
pub fn trim_chars(v: &[char]) -> (r: Vec<char>)
    ensures
        r@ == trim_spec(v@),
{
    let mut i: usize = 0;
    assert(v@.skip(0) == v@);
    while i < v.len() && is_ws_exec(v[i])
        invariant
            i <= v@.len(),
            lead_ws(v@) == i + lead_ws(v@.skip(i as int)),
        decreases v@.len() - i,
    {
        proof { lemma_lead_ws_step(v@, i as int); }
        i += 1;
    }
    if i < v.len() {
        assert(v@.skip(i as int)[0] == v@[i as int]);
    }
    let ghost t = v@.skip(i as int);
    let mut j = v.len();
    assert(t.take(t.len() as int) == t);
    while j > i && is_ws_exec(v[j - 1])
        invariant
            i <= j <= v@.len(),
            t == v@.skip(i as int),
            trail_ws(t) == (v@.len() - j) + trail_ws(t.take(j - i)),
        decreases j,
    {
        assert(t[j - 1 - i] == v@[j - 1]);
        proof { lemma_trail_ws_step(t, j - i); }
        j -= 1;
    }
    if j > i {
        assert(t.take(j - i).last() == v@[j - 1]);
    }
    proof { lemma_trail_ws_le(t); }
    assert(t.take(t.len() - trail_ws(t)) == v@.subrange(i as int, j as int));
    copy_range(v, i, j)
}

/// `str::trim`.
pub fn trim(s: &str) -> (r: String)
    ensures
        r@ == trim_spec(s@),
{
    string_of(&trim_chars(&chars_of(s)))
}

// ---------- case ----------

/// The Unicode lowercase mapping of a text, as `str::to_lowercase` computes it.
pub uninterp spec fn lowercase(s: Seq<char>) -> Seq<char>;

/// `str::to_lowercase`: its result is named `lowercase` of the argument.
#[verifier::external_body]
pub(crate) fn to_lowercase(s: &str) -> (r: String)
    ensures
        r@ == lowercase(s@),
{
    s.to_lowercase()
}

/// Every `\` turned into `/`.
pub open spec fn slashes(s: Seq<char>) -> Seq<char> {
    s.map_values(|c: char| if c == '\\' { '/' } else { c })
}

/// `s.replace('\\', "/")`.
pub fn to_slashes(v: &[char]) -> (r: Vec<char>)
    ensures
        r@ == slashes(v@),
{
    let mut r: Vec<char> = Vec::new();
    let mut i: usize = 0;
    while i < v.len()
        invariant
            i <= v@.len(),
            r@ == slashes(v@.take(i as int)),
        decreases v@.len() - i,
    {
        r.push(if v[i] == '\\' { '/' } else { v[i] });
        assert(slashes(v@.take(i + 1)) =~= slashes(v@.take(i as int)).push(if v@[i as int] == '\\' { '/' } else { v@[i as int] }));
        i += 1;
    }
    assert(v@.take(v@.len() as int) == v@);
    r
}

// ---------- lists of strings ----------

/// The character sequences of a list of strings.
pub open spec fn strs(v: Seq<String>) -> Seq<Seq<char>> {
    v.map_values(|x: String| x@)
}

/// `parts.join(sep)`.
pub fn join_strings(parts: &Vec<String>, sep: &str) -> (r: String)
    ensures
        r@ == join_seq(strs(parts@), sep@),
{
    let mut r = String::new();
    let mut i: usize = 0;
    while i < parts.len()
        invariant
            i <= parts@.len(),
            r@ == join_seq(strs(parts@).take(i as int), sep@),
        decreases parts@.len() - i,
    {
        let ghost pre = strs(parts@).take(i as int);
        assert(strs(parts@).take(i + 1).drop_last() =~= pre);
        assert(strs(parts@).take(i + 1).last() == parts@[i as int]@);
        if i > 0 {
            push_str(&mut r, sep);
        } else {
            assert(pre.len() == 0);
            assert(strs(parts@).take(i + 1).len() == 1);
        }
        push_str(&mut r, parts[i].as_str());
        i += 1;
    }
    assert(strs(parts@).take(parts@.len() as int) =~= strs(parts@));
    r
}

/// A text without the separator is one piece.
pub proof fn lemma_split_single(s: Seq<char>, sep: char)
    requires
        forall|j: int| 0 <= j < s.len() ==> s[j] != sep,
    ensures
        split_seq(s, sep) == seq![s],
    decreases s.len(),
{
    if s.len() > 0 {
        lemma_split_single(s.drop_last(), sep);
        assert(s.drop_last().push(s.last()) =~= s);
        assert(seq![s.drop_last()].update(0, s.drop_last().push(s.last())) =~= seq![s]);
    } else {
        assert(s =~= Seq::<char>::empty());
    }
}

/// Splitting `x + y` is splitting `x`, then splitting its unfinished last piece
/// followed by `y`.
pub proof fn lemma_split_concat(x: Seq<char>, y: Seq<char>, sep: char)
    ensures
        split_seq(x + y, sep) == split_seq(x, sep).drop_last() + split_seq(split_seq(x, sep).last() + y, sep),
    decreases y.len(),
{
    lemma_split_nonempty(x, sep);
    let d = split_seq(x, sep).drop_last();
    let l = split_seq(x, sep).last();
    if y.len() == 0 {
        assert(x + y =~= x);
        assert(l + y =~= l);
        lemma_split_no_sep(x, sep);
        assert forall|j: int| 0 <= j < l.len() implies l[j] != sep by {
            assert(split_seq(x, sep)[split_seq(x, sep).len() - 1][j] != sep);
        }
        lemma_split_single(l, sep);
        assert(split_seq(x, sep) =~= d + seq![l]);
    } else {
        let y1 = y.drop_last();
        let c = y.last();
        lemma_split_concat(x, y1, sep);
        assert((x + y).drop_last() =~= x + y1);
        assert((x + y).last() == c);
        assert((l + y).drop_last() =~= l + y1);
        assert((l + y).last() == c);
        let q = split_seq(l + y1, sep);
        lemma_split_nonempty(l + y1, sep);
        if c == sep {
            assert((d + q).push(Seq::<char>::empty()) =~= d + q.push(Seq::<char>::empty()));
        } else {
            let p = d + q;
            assert(p.last() == q.last());
            assert(p.update(p.len() - 1, p.last().push(c)) =~= d + q.update(q.len() - 1, q.last().push(c)));
        }
    }
}

} // verus!
