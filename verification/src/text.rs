//! Small text-building helpers with exact specifications.

use vstd::prelude::*;

verus! {

/// Decimal digit character for `d < 10`.
pub open spec fn digit_char(d: nat) -> char {
    if d == 0 { '0' } else if d == 1 { '1' } else if d == 2 { '2' } else if d == 3 { '3' }
    else if d == 4 { '4' } else if d == 5 { '5' } else if d == 6 { '6' } else if d == 7 { '7' }
    else if d == 8 { '8' } else { '9' }
}

/// Decimal rendering of a natural number, no leading zeros ("0" for zero).
pub open spec fn dec(n: nat) -> Seq<char>
    decreases n,
{
    if n < 10 {
        seq![digit_char(n)]
    } else {
        dec(n / 10).push(digit_char(n % 10))
    }
}

/// Appends one character (std `String::push`).
#[verifier::external_body]
pub(crate) fn push_char(s: &mut String, c: char)
    ensures
        final(s)@ == old(s)@.push(c),
{
    s.push(c);
}

fn digit(d: u128) -> (c: char)
    requires
        d < 10,
    ensures
        c == digit_char(d as nat),
{
    if d == 0 { '0' } else if d == 1 { '1' } else if d == 2 { '2' } else if d == 3 { '3' }
    else if d == 4 { '4' } else if d == 5 { '5' } else if d == 6 { '6' } else if d == 7 { '7' }
    else if d == 8 { '8' } else { '9' }
}

/// Appends the decimal rendering of `n`.
pub fn push_dec(s: &mut String, n: u128)
    ensures
        final(s)@ == old(s)@ + dec(n as nat),
    decreases n,
{
    if n < 10 {
        push_char(s, digit(n));
        assert(dec(n as nat) == seq![digit_char(n as nat)]);
    } else {
        push_dec(s, n / 10);
        push_char(s, digit(n % 10));
    }
}

} // verus!

verus! {

/// The characters of `s`, in order.
pub fn to_chars(s: &str) -> (r: Vec<char>)
    ensures
        r@ == s@,
{
    let n = s.unicode_len();
    let mut out: Vec<char> = Vec::new();
    let mut i: usize = 0;
    while i < n
        invariant
            n == s@.len(),
            i <= n,
            out@ == s@.take(i as int),
        decreases n - i,
    {
        out.push(s.get_char(i));
        i = i + 1;
        assert(out@ =~= s@.take(i as int));
    }
    assert(out@ =~= s@);
    out
}

/// A string holding exactly `cs[lo..hi]`.
pub fn string_of(cs: &Vec<char>, lo: usize, hi: usize) -> (r: String)
    requires
        lo <= hi <= cs@.len(),
    ensures
        r@ == cs@.subrange(lo as int, hi as int),
{
    let mut out = String::new();
    let mut i = lo;
    while i < hi
        invariant
            lo <= i <= hi <= cs@.len(),
            out@ == cs@.subrange(lo as int, i as int),
        decreases hi - i,
    {
        push_char(&mut out, cs[i]);
        i = i + 1;
        assert(out@ =~= cs@.subrange(lo as int, i as int));
    }
    out
}

/// Appends `t` (std `String::push_str`).
pub fn push_str(s: &mut String, t: &str)
    ensures
        final(s)@ == old(s)@ + t@,
{
    s.append(t);
}

/// Unicode `White_Space` (the set `char::is_whitespace` documents).
pub open spec fn is_white_space(c: char) -> bool {
    ||| ('\u{9}' <= c && c <= '\u{d}')
    ||| c == ' ' || c == '\u{85}' || c == '\u{a0}' || c == '\u{1680}'
    ||| ('\u{2000}' <= c && c <= '\u{200a}')
    ||| c == '\u{2028}' || c == '\u{2029}' || c == '\u{202f}' || c == '\u{205f}' || c == '\u{3000}'
}

/// `is_white_space`, executable.
pub fn is_ws(c: char) -> (b: bool)
    ensures
        b == is_white_space(c),
{
    ('\u{9}' <= c && c <= '\u{d}') || c == ' ' || c == '\u{85}' || c == '\u{a0}' || c == '\u{1680}'
        || ('\u{2000}' <= c && c <= '\u{200a}') || c == '\u{2028}' || c == '\u{2029}'
        || c == '\u{202f}' || c == '\u{205f}' || c == '\u{3000}'
}

/// Number of leading white-space characters of `s`.
pub open spec fn lead_ws(s: Seq<char>) -> nat
    decreases s.len(),
{
    if s.len() > 0 && is_white_space(s[0]) { 1 + lead_ws(s.drop_first()) } else { 0 }
}

/// Number of trailing white-space characters of `s`.
pub open spec fn trail_ws(s: Seq<char>) -> nat
    decreases s.len(),
{
    if s.len() > 0 && is_white_space(s.last()) { 1 + trail_ws(s.drop_last()) } else { 0 }
}

/// `s` without leading and trailing white space (std `str::trim`).
pub open spec fn trim(s: Seq<char>) -> Seq<char> {
    let a = lead_ws(s);
    if a >= s.len() { Seq::empty() } else { s.subrange(a as int, s.len() - trail_ws(s)) }
}

pub proof fn lemma_lead_ws(s: Seq<char>, i: int)
    requires
        0 <= i <= s.len(),
        forall|j: int| 0 <= j < i ==> is_white_space(#[trigger] s[j]),
    ensures
        lead_ws(s) >= i,
        lead_ws(s) <= s.len(),
        i < s.len() && !is_white_space(s[i]) ==> lead_ws(s) == i,
    decreases s.len(),
{
    if s.len() > 0 {
        let t = s.drop_first();
        if i > 0 {
            assert forall|j: int| 0 <= j < i - 1 implies is_white_space(#[trigger] t[j]) by {
                assert(t[j] == s[j + 1]);
            }
            lemma_lead_ws(t, i - 1);
        } else {
            lemma_lead_ws(t, 0);
        }
    }
}

pub proof fn lemma_trail_ws(s: Seq<char>, i: int)
    requires
        0 <= i <= s.len(),
        forall|j: int| s.len() - i <= j < s.len() ==> is_white_space(#[trigger] s[j]),
    ensures
        trail_ws(s) >= i,
        trail_ws(s) <= s.len(),
        i < s.len() && !is_white_space(s[s.len() - 1 - i]) ==> trail_ws(s) == i,
    decreases s.len(),
{
    if s.len() > 0 {
        let t = s.drop_last();
        if i > 0 {
            assert forall|j: int| t.len() - (i - 1) <= j < t.len() implies is_white_space(#[trigger] t[j]) by {
                assert(t[j] == s[j]);
            }
            lemma_trail_ws(t, i - 1);
        } else {
            lemma_trail_ws(t, 0);
        }
    }
}

/// Bounds `[lo, hi)` of `trim(cs)` inside `cs`.
pub fn trim_bounds(cs: &Vec<char>) -> (r: (usize, usize))
    ensures
        r.0 <= r.1 <= cs@.len(),
        cs@.subrange(r.0 as int, r.1 as int) == trim(cs@),
{
    let n = cs.len();
    let mut lo: usize = 0;
    while lo < n && is_ws(cs[lo])
        invariant
            lo <= n == cs@.len(),
            forall|j: int| 0 <= j < lo ==> is_white_space(#[trigger] cs@[j]),
        decreases n - lo,
    {
        lo = lo + 1;
    }
    proof { lemma_lead_ws(cs@, lo as int); }
    if lo == n {
        return (0, 0);
    }
    let mut hi: usize = n;
    while hi > lo && is_ws(cs[hi - 1])
        invariant
            lo < n == cs@.len(),
            lo <= hi <= n,
            !is_white_space(cs@[lo as int]),
            forall|j: int| hi <= j < n ==> is_white_space(#[trigger] cs@[j]),
        decreases hi,
    {
        hi = hi - 1;
    }
    proof {
        lemma_trail_ws(cs@, (n - hi) as int);
        if hi == lo {
            assert(false);
        }
    }
    (lo, hi)
}

/// Text of `s` trimmed of surrounding white space.
pub fn trimmed(s: &str) -> (r: Vec<char>)
    ensures
        r@ == trim(s@),
{
    let cs = to_chars(s);
    let (lo, hi) = trim_bounds(&cs);
    let mut out: Vec<char> = Vec::new();
    let mut i = lo;
    while i < hi
        invariant
            lo <= i <= hi <= cs@.len(),
            out@ == cs@.subrange(lo as int, i as int),
        decreases hi - i,
    {
        out.push(cs[i]);
        i = i + 1;
        assert(out@ =~= cs@.subrange(lo as int, i as int));
    }
    out
}

/// ASCII lower-casing of one char (std `char::to_ascii_lowercase`).
pub open spec fn lower_char(c: char) -> char {
    if 'A' <= c && c <= 'Z' { ((c as u32) + 32) as char } else { c }
}

pub fn to_lower(c: char) -> (r: char)
    ensures
        r == lower_char(c),
{
    if 'A' <= c && c <= 'Z' {
        let v: u32 = (c as u32) + 32;
        assert(0x61 <= v <= 0x7a);
        char_of(v)
    } else {
        c
    }
}

/// The char of an ASCII code point.
fn char_of(v: u32) -> (c: char)
    requires
        v < 128,
    ensures
        c == v as char,
{
    (v as u8) as char
}

/// ASCII lower-casing of a text (std `str::to_ascii_lowercase`).
pub open spec fn lower(s: Seq<char>) -> Seq<char> {
    s.map_values(|c: char| lower_char(c))
}

pub fn lowered(cs: &Vec<char>) -> (r: Vec<char>)
    ensures
        r@ == lower(cs@),
{
    let mut out: Vec<char> = Vec::new();
    let mut i: usize = 0;
    while i < cs.len()
        invariant
            i <= cs@.len(),
            out@ == lower(cs@.take(i as int)),
        decreases cs.len() - i,
    {
        out.push(to_lower(cs[i]));
        i = i + 1;
        assert(out@ =~= lower(cs@.take(i as int)));
    }
    assert(cs@.take(cs@.len() as int) =~= cs@);
    out
}

/// Split `s` at every `sep` (std `str::split` with a char pattern): a text
/// with `k` separators gives `k + 1` pieces, possibly empty.
pub open spec fn split_by(s: Seq<char>, sep: char) -> Seq<Seq<char>>
    decreases s.len(),
{
    if s.len() == 0 {
        seq![Seq::<char>::empty()]
    } else {
        let prev = split_by(s.drop_last(), sep);
        if s.last() == sep {
            prev.push(Seq::<char>::empty())
        } else {
            prev.update(prev.len() - 1, prev.last().push(s.last()))
        }
    }
}

pub proof fn lemma_split_nonempty(s: Seq<char>, sep: char)
    ensures
        split_by(s, sep).len() >= 1,
    decreases s.len(),
{
    if s.len() > 0 {
        lemma_split_nonempty(s.drop_last(), sep);
    }
}

/// A text without the separator splits into itself alone.
pub proof fn lemma_split_single(a: Seq<char>, sep: char)
    requires
        forall|i: int| 0 <= i < a.len() ==> a[i] != sep,
    ensures
        split_by(a, sep) == seq![a],
    decreases a.len(),
{
    if a.len() > 0 {
        let p = a.drop_last();
        assert forall|i: int| 0 <= i < p.len() implies p[i] != sep by {
            assert(p[i] == a[i]);
        }
        lemma_split_single(p, sep);
        assert(p.push(a.last()) =~= a);
    } else {
        assert(a =~= Seq::<char>::empty());
    }
}

/// Appending the separator and a separator-free text appends one field.
pub proof fn lemma_split_append(a: Seq<char>, sep: char, b: Seq<char>)
    requires
        forall|i: int| 0 <= i < b.len() ==> b[i] != sep,
    ensures
        split_by(a + seq![sep] + b, sep) == split_by(a, sep).push(b),
    decreases b.len(),
{
    lemma_split_nonempty(a, sep);
    if b.len() == 0 {
        let s = a + seq![sep] + b;
        assert(s.drop_last() =~= a);
        assert(s.last() == sep);
        assert(b =~= Seq::<char>::empty());
    } else {
        let c = b.drop_last();
        assert forall|i: int| 0 <= i < c.len() implies c[i] != sep by {
            assert(c[i] == b[i]);
        }
        lemma_split_append(a, sep, c);
        let s = a + seq![sep] + b;
        assert(s.drop_last() =~= a + seq![sep] + c);
        assert(s.last() == b.last());
        let prev = split_by(a + seq![sep] + c, sep);
        assert(prev == split_by(a, sep).push(c));
        assert(prev.update(prev.len() - 1, prev.last().push(s.last())) =~= split_by(a, sep).push(b)) by {
            assert(c.push(b.last()) =~= b);
        }
    }
}

/// The views of a vector of char vectors.
pub open spec fn views(v: Seq<Vec<char>>) -> Seq<Seq<char>> {
    v.map_values(|x: Vec<char>| x@)
}

/// `split_by`, executable.
pub fn split_chars(cs: &Vec<char>, sep: char) -> (r: Vec<Vec<char>>)
    ensures
        views(r@) == split_by(cs@, sep),
{
    let mut done: Vec<Vec<char>> = Vec::new();
    let mut cur: Vec<char> = Vec::new();
    let mut i: usize = 0;
    while i < cs.len()
        invariant
            i <= cs@.len(),
            views(done@).push(cur@) == split_by(cs@.take(i as int), sep),
        decreases cs.len() - i,
    {
        let c = cs[i];
        proof {
            let t = cs@.take(i as int + 1);
            assert(t.drop_last() =~= cs@.take(i as int));
            assert(t.last() == c);
            lemma_split_nonempty(cs@.take(i as int), sep);
        }
        let ghost before = views(done@).push(cur@);
        if c == sep {
            let old_cur = cur;
            done.push(old_cur);
            cur = Vec::new();
            assert(views(done@).push(cur@) =~= before.push(Seq::<char>::empty()));
        } else {
            cur.push(c);
            assert(views(done@).push(cur@) =~= before.update(before.len() - 1, before.last().push(c)));
        }
        i = i + 1;
    }
    assert(cs@.take(cs@.len() as int) =~= cs@);
    done.push(cur);
    assert(views(done@) =~= split_by(cs@, sep));
    done
}

/// Whether `a` equals the literal `b`.
pub fn eq_lit(a: &Vec<char>, b: &str) -> (r: bool)
    ensures
        r == (a@ == b@),
{
    let bs = to_chars(b);
    if a.len() != bs.len() {
        return false;
    }
    let mut i: usize = 0;
    while i < a.len()
        invariant
            a@.len() == bs@.len(),
            bs@ == b@,
            i <= a@.len(),
            forall|j: int| 0 <= j < i ==> a@[j] == bs@[j],
        decreases a.len() - i,
    {
        if a[i] != bs[i] {
            return false;
        }
        i = i + 1;
    }
    assert(a@ =~= bs@);
    true
}

/// The `Debug` rendering of a char (quoted, escaped).
pub uninterp spec fn char_debug(c: char) -> Seq<char>;

/// std `<char as Debug>::fmt`, rendered to a string.
#[verifier::external_body]
pub(crate) fn debug_char(c: char) -> (r: String)
    ensures
        r@ == char_debug(c),
{
    format!("{c:?}")
}

/// The `Debug` rendering of a text (quoted, escaped).
pub uninterp spec fn debug_text(s: Seq<char>) -> Seq<char>;

/// std `<str as Debug>::fmt`, rendered to a string.
#[verifier::external_body]
pub(crate) fn debug_str(s: &str) -> (r: String)
    ensures
        r@ == debug_text(s@),
{
    format!("{s:?}")
}

} // verus!

verus! {

/// Value of a run of ASCII decimal digits (most significant first).
pub open spec fn digits_value(s: Seq<char>) -> nat
    decreases s.len(),
{
    if s.len() == 0 {
        0
    } else {
        digits_value(s.drop_last()) * 10 + ((s.last() as u32) - ('0' as u32)) as nat
    }
}

/// An ASCII decimal digit.
pub open spec fn is_digit(c: char) -> bool {
    '0' <= c && c <= '9'
}

/// Every char is an ASCII digit.
pub open spec fn all_digits(s: Seq<char>) -> bool {
    forall|i: int| 0 <= i < s.len() ==> is_digit(#[trigger] s[i])
}

/// std `<uN as FromStr>::from_str`: an optional `+`, then one or more
/// ASCII digits whose value is at most `max`.
pub open spec fn parse_uint(s: Seq<char>, max: nat) -> Option<nat> {
    let body = if s.len() > 0 && s[0] == '+' { s.drop_first() } else { s };
    if body.len() > 0 && all_digits(body) && digits_value(body) <= max {
        Some(digits_value(body))
    } else {
        None
    }
}

proof fn lemma_digits_value_mono(s: Seq<char>, i: int)
    requires
        0 <= i <= s.len(),
        all_digits(s),
    ensures
        digits_value(s.take(i)) <= digits_value(s),
    decreases s.len() - i,
{
    if i < s.len() {
        lemma_digits_value_mono(s, i + 1);
        assert(s.take(i + 1).drop_last() =~= s.take(i));
        assert(is_digit(s[i]));
    } else {
        assert(s.take(i) =~= s);
    }
}

/// Parse `cs[lo..hi]` as an unsigned integer bounded by `max`
/// (std `uN::from_str` semantics).
pub fn parse_uint_range(cs: &Vec<char>, lo: usize, hi: usize, max: u64) -> (r: Option<u64>)
    requires
        lo <= hi <= cs@.len(),
    ensures
        match parse_uint(cs@.subrange(lo as int, hi as int), max as nat) {
            Some(v) => r == Some(v as u64),
            None => r is None,
        },
{
    let ghost s = cs@.subrange(lo as int, hi as int);
    let mut start = lo;
    if lo < hi && cs[lo] == '+' {
        start = lo + 1;
    }
    let ghost body = cs@.subrange(start as int, hi as int);
    assert(body =~= (if s.len() > 0 && s[0] == '+' { s.drop_first() } else { s }));
    assert(parse_uint(s, max as nat) == (if body.len() > 0 && all_digits(body) && digits_value(body) <= max as nat {
        Some(digits_value(body)) } else { None }));
    if start == hi {
        return None;
    }
    let mut v: u64 = 0;
    let mut i = start;
    while i < hi
        invariant
            lo <= start <= i <= hi <= cs@.len(),
            body == cs@.subrange(start as int, hi as int),
            s == cs@.subrange(lo as int, hi as int),
            parse_uint(s, max as nat) == (if body.len() > 0 && all_digits(body) && digits_value(body) <= max as nat {
                Some(digits_value(body)) } else { None }),
            all_digits(cs@.subrange(start as int, i as int)),
            v == digits_value(cs@.subrange(start as int, i as int)),
            v <= max,
        decreases hi - i,
    {
        let c = cs[i];
        if !('0' <= c && c <= '9') {
            proof {
                assert(body[i - start] == c);
                assert(!is_digit(body[i - start]));
                assert(!all_digits(body));
            }
            return None;
        }
        let d: u64 = ((c as u32) - ('0' as u32)) as u64;
        proof {
            let t = cs@.subrange(start as int, i as int + 1);
            assert(t.drop_last() =~= cs@.subrange(start as int, i as int));
            assert(t.last() == c);
        }
        if d > max || v > (max - d) / 10 {
            proof {
                let t = cs@.subrange(start as int, i as int + 1);
                assert(digits_value(t) > max) by (nonlinear_arith)
                    requires digits_value(t) == v * 10 + d, d > max || v > (max - d) / 10, v >= 0;
                if all_digits(body) {
                    assert(t =~= body.take(i - start + 1));
                    lemma_digits_value_mono(body, i - start + 1);
                    assert(digits_value(body) > max);
                }
                assert(parse_uint(s, max as nat) is None);
            }
            return None;
        }
        proof {
            assert(v * 10 + d <= max) by (nonlinear_arith)
                requires v <= (max - d) / 10, d <= 9, max >= 0;
        }
        v = v * 10 + d;
        i = i + 1;
    }
    assert(cs@.subrange(start as int, i as int) =~= body);
    Some(v)
}

/// Appends another string.
pub fn push_string(s: &mut String, t: &String)
    ensures
        final(s)@ == old(s)@ + t@,
{
    push_str(s, t.as_str());
}

} // verus!

verus! {

/// Whether `pat` occurs in `s` at offset `i`.
pub open spec fn occurs_at(s: Seq<char>, pat: Seq<char>, i: int) -> bool {
    0 <= i && i + pat.len() <= s.len() && s.subrange(i, i + pat.len()) == pat
}

/// Whether `cs[i..]` starts with `pat`.
pub fn starts_at(cs: &Vec<char>, i: usize, pat: &Vec<char>) -> (r: bool)
    ensures
        r == occurs_at(cs@, pat@, i as int),
{
    if i > cs.len() || pat.len() > cs.len() - i {
        return false;
    }
    let n = cs.len();
    let mut k: usize = 0;
    while k < pat.len()
        invariant
            n == cs@.len(),
            i + pat@.len() <= cs@.len(),
            k <= pat@.len(),
            i + k <= cs@.len(),
            forall|j: int| 0 <= j < k ==> cs@[i + j] == pat@[j],
        decreases pat.len() - k,
    {
        if cs[i + k] != pat[k] {
            proof {
                assert(cs@.subrange(i as int, i + pat@.len())[k as int] != pat@[k as int]);
            }
            return false;
        }
        k = k + 1;
    }
    assert(cs@.subrange(i as int, i + pat@.len()) =~= pat@);
    true
}

/// First offset `≥ from` where `pat` occurs (std `str::find`).
pub open spec fn find_from(s: Seq<char>, pat: Seq<char>, from: int) -> Option<int>
    decreases s.len() + 1 - from,
{
    if from < 0 || from + pat.len() > s.len() {
        None
    } else if occurs_at(s, pat, from) {
        Some(from)
    } else {
        find_from(s, pat, from + 1)
    }
}

/// `find_from`, executable.
pub fn find_pat(cs: &Vec<char>, pat: &Vec<char>, from: usize) -> (r: Option<usize>)
    requires
        from <= cs@.len(),
    ensures
        match find_from(cs@, pat@, from as int) {
            Some(i) => r == Some(i as usize),
            None => r is None,
        },
        r matches Some(i) ==> find_from(cs@, pat@, from as int) == Some(i as int) && i + pat@.len() <= cs@.len(),
{
    let mut i = from;
    while i <= cs.len() && pat.len() <= cs.len() - i
        invariant
            from <= i,
            i <= cs@.len() + 1,
            find_from(cs@, pat@, from as int) == find_from(cs@, pat@, i as int),
        decreases cs.len() + 1 - i,
    {
        if starts_at(cs, i, pat) {
            proof { lemma_find_found(cs@, pat@, i as int); }
            return Some(i);
        }
        proof {
            if pat@.len() == 0 {
                assert(cs@.subrange(i as int, i as int) =~= pat@);
            }
        }
        i = i + 1;
    }
    None
}

/// A found offset lies inside `s` and `pat` occurs there.
pub proof fn lemma_find_bounds(s: Seq<char>, pat: Seq<char>, from: int)
    ensures
        find_from(s, pat, from) matches Some(i) ==> from <= i && i + pat.len() <= s.len() && occurs_at(s, pat, i),
    decreases s.len() + 1 - from,
{
    if !(from < 0 || from + pat.len() > s.len()) && !occurs_at(s, pat, from) {
        lemma_find_bounds(s, pat, from + 1);
    }
}

/// A last occurrence lies inside `s` and `pat` occurs there.
pub proof fn lemma_rfind_bounds(s: Seq<char>, pat: Seq<char>, i: int)
    ensures
        rfind_upto(s, pat, i) matches Some(j) ==> 0 <= j <= i && j + pat.len() <= s.len() && occurs_at(s, pat, j),
    decreases i + 1,
{
    if i >= 0 && !occurs_at(s, pat, i) {
        lemma_rfind_bounds(s, pat, i - 1);
    }
}

proof fn lemma_find_found(s: Seq<char>, pat: Seq<char>, i: int)
    requires
        occurs_at(s, pat, i),
    ensures
        find_from(s, pat, i) == Some(i),
{
}

/// Last offset where `pat` occurs (std `str::rfind`).
pub open spec fn rfind_upto(s: Seq<char>, pat: Seq<char>, i: int) -> Option<int>
    decreases i + 1,
{
    if i < 0 {
        None
    } else if occurs_at(s, pat, i) {
        Some(i)
    } else {
        rfind_upto(s, pat, i - 1)
    }
}

pub open spec fn rfind(s: Seq<char>, pat: Seq<char>) -> Option<int> {
    rfind_upto(s, pat, s.len() - pat.len())
}

/// `rfind`, executable.
pub fn rfind_pat(cs: &Vec<char>, pat: &Vec<char>) -> (r: Option<usize>)
    ensures
        match rfind(cs@, pat@) {
            Some(i) => r == Some(i as usize),
            None => r is None,
        },
        r matches Some(i) ==> rfind(cs@, pat@) == Some(i as int) && i + pat@.len() <= cs@.len(),
{
    if pat.len() > cs.len() {
        return None;
    }
    let mut i: usize = cs.len() - pat.len();
    loop
        invariant
            i <= cs@.len() - pat@.len(),
            rfind(cs@, pat@) == rfind_upto(cs@, pat@, i as int),
        decreases i,
    {
        if starts_at(cs, i, pat) {
            assert(rfind_upto(cs@, pat@, i as int) == Some(i as int));
            return Some(i);
        }
        if i == 0 {
            assert(rfind_upto(cs@, pat@, -1) is None);
            assert(rfind_upto(cs@, pat@, 0) is None);
            return None;
        }
        i = i - 1;
    }
}

/// `s` with every leading and trailing `c` removed (std `trim_matches`).
pub open spec fn strip_char(s: Seq<char>, c: char) -> Seq<char>
    decreases s.len(),
{
    if s.len() > 0 && s[0] == c {
        strip_char(s.drop_first(), c)
    } else if s.len() > 0 && s.last() == c {
        strip_char(s.drop_last(), c)
    } else {
        s
    }
}

/// Bounds of `strip_char(cs[lo..hi], c)`.
pub fn strip_bounds(cs: &Vec<char>, lo: usize, hi: usize, c: char) -> (r: (usize, usize))
    requires
        lo <= hi <= cs@.len(),
    ensures
        lo <= r.0 <= r.1 <= hi,
        cs@.subrange(r.0 as int, r.1 as int) == strip_char(cs@.subrange(lo as int, hi as int), c),
{
    let mut a = lo;
    while a < hi && cs[a] == c
        invariant
            lo <= a <= hi <= cs@.len(),
            strip_char(cs@.subrange(lo as int, hi as int), c) == strip_char(cs@.subrange(a as int, hi as int), c),
        decreases hi - a,
    {
        proof {
            let t = cs@.subrange(a as int, hi as int);
            assert(t.drop_first() =~= cs@.subrange(a + 1, hi as int));
        }
        a = a + 1;
    }
    let mut b = hi;
    while b > a && cs[b - 1] == c
        invariant
            lo <= a <= b <= hi <= cs@.len(),
            a == hi || cs@[a as int] != c,
            strip_char(cs@.subrange(lo as int, hi as int), c) == strip_char(cs@.subrange(a as int, b as int), c),
        decreases b,
    {
        proof {
            let t = cs@.subrange(a as int, b as int);
            assert(t.drop_last() =~= cs@.subrange(a as int, b - 1));
            if t.len() > 0 {
                assert(t[0] == cs@[a as int]);
            }
        }
        b = b - 1;
    }
    proof {
        let t = cs@.subrange(a as int, b as int);
        if t.len() > 0 {
            assert(t[0] == cs@[a as int]);
            assert(t.last() == cs@[b - 1]);
        }
    }
    (a, b)
}

} // verus!
