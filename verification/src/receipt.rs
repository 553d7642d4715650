//! The print receipt: what a render resolved, carried as JSON inside the
//! SVG `<metadata>` element.

use vstd::prelude::*;

use crate::repeat::RepeatResolved;
use crate::text::{lemma_find_bounds, find_from, find_pat, occurs_at, push_char, push_str, starts_at, string_of, to_chars};

verus! {

/// The resolved render parameters (stable wire field names).
#[derive(Clone, Debug, PartialEq, Eq)]
pub struct Receipt {
    pub id: String,
    /// Canonical payload string.
    pub payload: String,
    /// Resolved symbology, compact form.
    pub symbology: String,
    /// Exact output canvas (controlling dimension, device px).
    pub size_px: u32,
    /// Per-side padding floors `[top, right, bottom, left]`.
    pub padding: [u32; 4],
    pub padding_mode: String,
    pub size_mode: String,
    pub qr_px: u32,
    pub module_px: u32,
    pub glyph_px: u32,
    pub fg: String,
    pub bg: String,
    pub font: String,
    pub generator: String,
    /// Resolved repeat geometry, present only on composed strips.
    pub repeat: Option<RepeatResolved>,
}

/// The codec version the generator stamp carries.
pub const CODEC_VERSION: &'static str = "0.1.0";

/// Codec version stamp: `qx <version>`.
pub fn generator() -> (s: String)
    ensures
        s@ == "qx "@ + CODEC_VERSION@,
{
    let mut s = String::new();
    push_str(&mut s, "qx ");
    push_str(&mut s, CODEC_VERSION);
    s
}

/// The CDATA terminator.
pub open spec fn cdata_end() -> Seq<char> {
    seq![']', ']', '>']
}

/// The CDATA opener.
pub open spec fn cdata_open() -> Seq<char> {
    seq!['<', '!', '[', 'C', 'D', 'A', 'T', 'A', '[']
}

/// What a terminator is replaced by: it is split across two sections.
pub open spec fn cdata_split() -> Seq<char> {
    seq![']', ']'] + cdata_end() + cdata_open() + seq!['>']
}

/// Every `]]>` of `s`, left to right, replaced by `]]]]><![CDATA[>`.
pub open spec fn cdata_esc(s: Seq<char>) -> Seq<char>
    decreases s.len(),
{
    if s.len() == 0 {
        Seq::empty()
    } else if occurs_at(s, cdata_end(), 0) {
        cdata_split() + cdata_esc(s.skip(3))
    } else {
        seq![s[0]] + cdata_esc(s.drop_first())
    }
}

fn lit_chars(s: &str) -> (r: Vec<char>)
    ensures
        r@ == s@,
{
    to_chars(s)
}

/// Escape `s` for a CDATA section: a literal `]]>` is split across two
/// sections.
pub fn cdata_escape(s: &str) -> (r: String)
    ensures
        r@ == cdata_esc(s@),
{
    let cs = to_chars(s);
    let end = lit_chars("]]>");
    proof { reveal_strlit("]]>"); assert(end@ =~= cdata_end()); }
    let mut out = String::new();
    let mut i: usize = 0;
    proof {
        assert(cs@.skip(0) =~= cs@);
        assert(out@ + cdata_esc(cs@) =~= cdata_esc(cs@));
    }
    while i < cs.len()
        invariant
            end@ == cdata_end(),
            i <= cs@.len(),
            out@ + cdata_esc(cs@.skip(i as int)) == cdata_esc(cs@),
        decreases cs.len() - i,
    {
        let ghost before = out@;
        proof {
            let t = cs@.skip(i as int);
            assert(t.len() > 0);
        }
        if starts_at(&cs, i, &end) {
            proof {
                let t = cs@.skip(i as int);
                assert(t.subrange(0, 3) =~= cs@.subrange(i as int, i + 3));
                assert(t.skip(3) =~= cs@.skip(i + 3));
            }
            push_str(&mut out, "]]]]><![CDATA[>");
            proof { reveal_strlit("]]]]><![CDATA[>"); assert("]]]]><![CDATA[>"@ =~= cdata_split()); }
            i = i + 3;
        } else {
            proof {
                let t = cs@.skip(i as int);
                if occurs_at(t, cdata_end(), 0) {
                    assert(t.subrange(0, 3) =~= cs@.subrange(i as int, i + 3));
                }
                assert(t.drop_first() =~= cs@.skip(i + 1));
                assert(t[0] == cs@[i as int]);
            }
            push_char(&mut out, cs[i]);
            i = i + 1;
        }
        assert(out@ + cdata_esc(cs@.skip(i as int)) =~= cdata_esc(cs@));
    }
    proof {
        assert(cs@.skip(i as int) =~= Seq::<char>::empty());
        assert(out@ + Seq::<char>::empty() =~= out@);
    }
    out
}

/// The `<metadata>` element text wrapping a receipt's JSON.
pub open spec fn metadata_text(json: Seq<char>) -> Seq<char> {
    "<metadata type=\"application/json\"><![CDATA["@ + cdata_esc(json) + "]]></metadata>"@
}

/// Frame a receipt's JSON text as the SVG `<metadata>` element: a
/// CDATA-wrapped body, its terminators escaped.
pub fn metadata_frame(json: &str) -> (r: String)
    ensures
        r@ == metadata_text(json@),
{
    let mut r = String::new();
    push_str(&mut r, "<metadata type=\"application/json\"><![CDATA[");
    let esc = cdata_escape(json);
    push_str(&mut r, esc.as_str());
    push_str(&mut r, "]]></metadata>");
    r
}

/// The text of a metadata body with its CDATA wrappers removed: plain
/// text outside sections kept, each section's content kept; `None` when
/// a section is never closed.
pub open spec fn cdata_join(body: Seq<char>) -> Option<Seq<char>>
    decreases body.len(),
{
    match find_from(body, cdata_open(), 0) {
        None => Some(body),
        Some(cs) => {
            let after = body.skip(cs + 9);
            match find_from(after, cdata_end(), 0) {
                None => None,
                Some(ce) => if 0 <= cs && 0 <= ce && cs + 9 + ce + 3 <= body.len() {
                    match cdata_join(after.skip(ce + 3)) {
                        Some(rest) => Some(body.take(cs) + after.take(ce) + rest),
                        None => None,
                    }
                } else {
                    None
                },
            }
        },
    }
}

/// The JSON text a document's `<metadata>` element carries: the body
/// between the element's open tag and `</metadata>`, CDATA-joined.
pub open spec fn metadata_json_text(svg: Seq<char>) -> Option<Seq<char>> {
    match find_from(svg, "<metadata"@, 0) {
        None => None,
        Some(start) => match find_from(svg.skip(start), seq!['>'], 0) {
            None => None,
            Some(gt) => {
                let body_start = start + gt + 1;
                match find_from(svg.skip(body_start), "</metadata>"@, 0) {
                    None => None,
                    Some(close) => cdata_join(svg.subrange(body_start, body_start + close)),
                }
            },
        },
    }
}

proof fn lemma_find_shift(s: Seq<char>, pat: Seq<char>, k: int, from: int)
    requires
        0 <= k <= s.len(),
        0 <= from,
    ensures
        find_from(s.skip(k), pat, from) == (match find_from(s, pat, from + k) {
            Some(i) => Some(i - k),
            None => None,
        }),
    decreases s.len() + 1 - from - k,
{
    let t = s.skip(k);
    if from + pat.len() <= t.len() {
        assert(t.subrange(from, from + pat.len()) =~= s.subrange(from + k, from + k + pat.len()));
        if !occurs_at(t, pat, from) {
            lemma_find_shift(s, pat, k, from + 1);
        }
    }
}

fn cdata_join_exec(cs: &Vec<char>, lo: usize, hi: usize, open: &Vec<char>, end: &Vec<char>) -> (r: Option<String>)
    requires
        lo <= hi <= cs@.len(),
        open@ == cdata_open(),
        end@ == cdata_end(),
    ensures
        match cdata_join(cs@.subrange(lo as int, hi as int)) {
            Some(t) => r matches Some(s) && s@ == t,
            None => r is None,
        },
    decreases hi - lo,
{
    let ghost body = cs@.subrange(lo as int, hi as int);
    let sub = sub_vec(cs, lo, hi);
    match find_pat(&sub, open, 0) {
        None => Some(string_of(cs, lo, hi)),
        Some(c_start) => {
            proof { lemma_find_bounds(body, cdata_open(), 0); }
            let a = lo + c_start + 9;
            let sub2 = sub_vec(cs, a, hi);
            proof { assert(sub2@ =~= body.skip(c_start + 9)); }
            match find_pat(&sub2, end, 0) {
                None => None,
                Some(c_end) => {
                    proof { lemma_find_bounds(body.skip(c_start + 9), cdata_end(), 0); }
                    let b = a + c_end + 3;
                    match cdata_join_exec(cs, b, hi, open, end) {
                        None => {
                            proof { assert(cs@.subrange(b as int, hi as int) =~= body.skip(c_start + 9).skip(c_end + 3)); }
                            None
                        },
                        Some(rest) => {
                            proof { assert(cs@.subrange(b as int, hi as int) =~= body.skip(c_start + 9).skip(c_end + 3)); }
                            let mut out = string_of(cs, lo, lo + c_start);
                            let mid = string_of(cs, a, a + c_end);
                            push_str(&mut out, mid.as_str());
                            push_str(&mut out, rest.as_str());
                            proof {
                                assert(cs@.subrange(lo as int, lo + c_start) =~= body.take(c_start as int));
                                assert(cs@.subrange(a as int, a + c_end) =~= body.skip(c_start + 9).take(c_end as int));
                            }
                            Some(out)
                        },
                    }
                },
            }
        },
    }
}

fn sub_vec(cs: &Vec<char>, lo: usize, hi: usize) -> (r: Vec<char>)
    requires
        lo <= hi <= cs@.len(),
    ensures
        r@ == cs@.subrange(lo as int, hi as int),
{
    let mut out: Vec<char> = Vec::new();
    let mut i = lo;
    while i < hi
        invariant
            lo <= i <= hi <= cs@.len(),
            out@ == cs@.subrange(lo as int, i as int),
        decreases hi - i,
    {
        out.push(cs[i]);
        i = i + 1;
        assert(out@ =~= cs@.subrange(lo as int, i as int));
    }
    out
}

/// Inverse of `metadata_frame`: the receipt JSON text an SVG document's
/// `<metadata>` element carries, `None` when there is none.
pub fn metadata_json(svg: &str) -> (r: Option<String>)
    ensures
        match metadata_json_text(svg@) {
            Some(t) => r matches Some(s) && s@ == t,
            None => r is None,
        },
{
    let cs = to_chars(svg);
    let open_tag = lit_chars("<metadata");
    let gt = lit_chars(">");
    let close_tag = lit_chars("</metadata>");
    let open = lit_chars("<![CDATA[");
    let end = lit_chars("]]>");
    proof {
        reveal_strlit(">");
        reveal_strlit("<![CDATA[");
        reveal_strlit("]]>");
        assert(gt@ =~= seq!['>']);
        assert(open@ =~= cdata_open());
        assert(end@ =~= cdata_end());
    }
    let start = match find_pat(&cs, &open_tag, 0) {
        Some(i) => i,
        None => return None,
    };
    proof { lemma_find_bounds(cs@, "<metadata"@, 0); }
    let rest = sub_vec(&cs, start, cs.len());
    proof { assert(rest@ =~= cs@.skip(start as int)); }
    let g = match find_pat(&rest, &gt, 0) {
        Some(i) => i,
        None => return None,
    };
    proof { lemma_find_bounds(cs@.skip(start as int), seq!['>'], 0); }
    let body_start = start + g + 1;
    let tail = sub_vec(&cs, body_start, cs.len());
    proof { assert(tail@ =~= cs@.skip(body_start as int)); }
    let close = match find_pat(&tail, &close_tag, 0) {
        Some(i) => i,
        None => return None,
    };
    proof { lemma_find_bounds(cs@.skip(body_start as int), "</metadata>"@, 0); }
    cdata_join_exec(&cs, body_start, body_start + close, &open, &end)
}

// ---------------------------------------------------------------------
// The escape round trip
// ---------------------------------------------------------------------

/// A first occurrence is found.
proof fn lemma_find_first(t: Seq<char>, pat: Seq<char>, from: int, k: int)
    requires
        0 <= from <= k,
        occurs_at(t, pat, k),
        forall|i: int| from <= i < k ==> !occurs_at(t, pat, i),
    ensures
        find_from(t, pat, from) == Some(k),
    decreases k - from,
{
    if from < k {
        lemma_find_first(t, pat, from + 1, k);
    }
}

/// What a search finds: the first occurrence at or after `from`, or
/// there is none.
proof fn lemma_find_spec(t: Seq<char>, pat: Seq<char>, from: int)
    requires
        0 <= from,
    ensures
        match find_from(t, pat, from) {
            Some(k) => from <= k && occurs_at(t, pat, k) && forall|i: int| from <= i < k ==> !occurs_at(t, pat, i),
            None => forall|i: int| from <= i ==> !occurs_at(t, pat, i),
        },
    decreases t.len() + 1 - from,
{
    if from + pat.len() > t.len() {
    } else if occurs_at(t, pat, from) {
    } else {
        lemma_find_spec(t, pat, from + 1);
    }
}

/// `]]>` at `i`, char by char.
proof fn lemma_end_at(t: Seq<char>, i: int)
    ensures
        occurs_at(t, cdata_end(), i) <==> (0 <= i && i + 3 <= t.len() && t[i] == ']' && t[i + 1] == ']' && t[i + 2] == '>'),
{
    if 0 <= i && i + 3 <= t.len() && t[i] == ']' && t[i + 1] == ']' && t[i + 2] == '>' {
        assert(t.subrange(i, i + 3) =~= cdata_end());
    }
    if occurs_at(t, cdata_end(), i) {
        assert(t.subrange(i, i + 3)[0] == t[i]);
        assert(t.subrange(i, i + 3)[1] == t[i + 1]);
        assert(t.subrange(i, i + 3)[2] == t[i + 2]);
    }
}

/// Up to the first terminator, escaping copies.
proof fn lemma_esc_copy(s: Seq<char>, j: int)
    requires
        0 <= j <= s.len(),
        forall|i: int| 0 <= i < j ==> !occurs_at(s, cdata_end(), i),
    ensures
        cdata_esc(s) == s.take(j) + cdata_esc(s.skip(j)),
    decreases j,
{
    if j == 0 {
        assert(s.skip(0) =~= s);
        assert(s.take(0) + cdata_esc(s.skip(0)) =~= cdata_esc(s));
    } else {
        let t = s.drop_first();
        assert forall|i: int| 0 <= i < j - 1 implies !occurs_at(t, cdata_end(), i) by {
            lemma_end_at(t, i);
            lemma_end_at(s, i + 1);
        }
        lemma_esc_copy(t, j - 1);
        assert(!occurs_at(s, cdata_end(), 0));
        assert(t.skip(j - 1) =~= s.skip(j));
        assert(s.take(j) =~= seq![s[0]] + t.take(j - 1));
        assert(cdata_esc(s) =~= s.take(j) + cdata_esc(s.skip(j)));
    }
}

/// The round trip when `s` holds no terminator.
proof fn lemma_roundtrip_plain(s: Seq<char>, rest: Seq<char>)
    requires
        find_from(s, cdata_end(), 0) is None,
    ensures
        cdata_join(cdata_open() + cdata_esc(s) + cdata_end() + rest) == (match cdata_join(rest) {
            Some(r) => Some(s + r),
            None => None::<Seq<char>>,
        }),
{
    let open = cdata_open();
    let end = cdata_end();
    let body = open + cdata_esc(s) + end + rest;
    let n = s.len() as int;
    lemma_find_spec(s, end, 0);
    lemma_esc_copy(s, n);
    assert(s.skip(n) =~= Seq::<char>::empty());
    assert(s.take(n) =~= s);
    assert(cdata_esc(s) =~= s);
    assert(body.subrange(0, 9) =~= open);
    lemma_find_first(body, open, 0, 0);
    let after = body.skip(9);
    assert(after =~= s + end + rest);
    assert forall|i: int| 0 <= i < n implies !occurs_at(after, end, i) by {
        lemma_end_at(after, i);
        if i + 2 < n {
            lemma_end_at(s, i);
            assert(after[i] == s[i] && after[i + 1] == s[i + 1] && after[i + 2] == s[i + 2]);
        } else {
            assert(after[i + 2] == end[i + 2 - n]);
        }
    }
    lemma_end_at(after, n);
    assert(after[n] == end[0] && after[n + 1] == end[1] && after[n + 2] == end[2]);
    lemma_find_first(after, end, 0, n);
    assert(after.take(n) =~= s);
    assert(after.skip(n + 3) =~= rest);
    assert(body.take(0) =~= Seq::<char>::empty());
    match cdata_join(rest) {
        Some(r) => {
            assert(body.take(0) + after.take(n) + r =~= s + r);
        },
        None => {},
    }
}

/// Escaping around the first terminator, at `j`.
proof fn lemma_esc_first(s: Seq<char>, j: int)
    requires
        find_from(s, cdata_end(), 0) == Some(j),
    ensures
        0 <= j && j + 3 <= s.len(),
        cdata_esc(s) == s.take(j) + cdata_split() + cdata_esc(s.skip(j + 3)),
        forall|i: int| 0 <= i < j ==> !occurs_at(s, cdata_end(), i),
        s =~= s.take(j) + seq![']', ']', '>'] + s.skip(j + 3),
{
    lemma_find_spec(s, cdata_end(), 0);
    lemma_esc_copy(s, j);
    let sj = s.skip(j);
    lemma_end_at(s, j);
    lemma_end_at(sj, 0);
    assert(sj[0] == s[j] && sj[1] == s[j + 1] && sj[2] == s[j + 2]);
    assert(sj.skip(3) =~= s.skip(j + 3));
    assert(cdata_esc(sj) == cdata_split() + cdata_esc(s.skip(j + 3)));
}

/// In `a + split + x`, the first terminator is the one the split ends
/// its first section with, when `a` holds none.
proof fn lemma_split_search(a: Seq<char>, x: Seq<char>)
    requires
        forall|i: int| 0 <= i && i + 3 <= a.len() ==> !occurs_at(a, cdata_end(), i),
    ensures
        find_from(a + cdata_split() + x, cdata_end(), 0) == Some(a.len() as int + 2),
        (a + cdata_split() + x).take(a.len() as int + 2) == a + seq![']', ']'],
        (a + cdata_split() + x).skip(a.len() as int + 5) == cdata_open() + seq!['>'] + x,
{
    let end = cdata_end();
    let t = a + cdata_split() + x;
    let j = a.len() as int;
    let split = cdata_split();
    assert(split =~= seq![']', ']', ']', ']', '>'] + cdata_open() + seq!['>']);
    assert(t[j] == ']' && t[j + 1] == ']' && t[j + 2] == ']' && t[j + 3] == ']');
    assert(t[j + 4] == '>');
    assert forall|i: int| 0 <= i < j + 2 implies !occurs_at(t, end, i) by {
        lemma_end_at(t, i);
        if i + 2 < j {
            lemma_end_at(a, i);
            assert(t[i] == a[i] && t[i + 1] == a[i + 1] && t[i + 2] == a[i + 2]);
        }
    }
    lemma_end_at(t, j + 2);
    lemma_find_first(t, end, 0, j + 2);
    assert(t.take(j + 2) =~= a + seq![']', ']']);
    assert(t.skip(j + 5) =~= cdata_open() + seq!['>'] + x);
}

/// The round trip when the first terminator of `s` is at `j`: the text
/// joins up to it, and the rest restarts as a section opening with `>`.
proof fn lemma_roundtrip_split(s: Seq<char>, rest: Seq<char>, j: int)
    requires
        find_from(s, cdata_end(), 0) == Some(j),
    ensures
        cdata_join(cdata_open() + cdata_esc(s) + cdata_end() + rest) == (match cdata_join(rest) {
            Some(r) => Some(s + r),
            None => None::<Seq<char>>,
        }),
    decreases s.len(), 0int,
{
    let open = cdata_open();
    let end = cdata_end();
    lemma_esc_first(s, j);
    let a = s.take(j);
    let b = s.skip(j + 3);
    let ob = seq!['>'] + b;
    lemma_end_at(ob, 0);
    assert(ob.drop_first() =~= b);
    assert(cdata_esc(ob) == seq!['>'] + cdata_esc(b));
    let x = cdata_esc(b) + end + rest;
    assert forall|i: int| 0 <= i && i + 3 <= a.len() implies !occurs_at(a, end, i) by {
        lemma_end_at(a, i);
        lemma_end_at(s, i);
        assert(a[i] == s[i] && a[i + 1] == s[i + 1] && a[i + 2] == s[i + 2]);
    }
    lemma_split_search(a, x);
    let body = open + cdata_esc(s) + end + rest;
    assert(body.subrange(0, 9) =~= open);
    lemma_find_first(body, open, 0, 0);
    let after = body.skip(9);
    assert(after =~= a + cdata_split() + x);
    assert(after.skip(j + 2 + 3) =~= open + cdata_esc(ob) + end + rest);
    law_cdata_roundtrip(ob, rest);
    assert(body.take(0) =~= Seq::<char>::empty());
    match cdata_join(rest) {
        Some(r) => {
            assert(body.take(0) + after.take(j + 2) + (ob + r) =~= s + r);
        },
        None => {},
    }
}

/// Wrapping escaped text in a CDATA section and unwrapping it gives the
/// text back, whatever follows: a `]]>` inside survives as two sections,
/// which join again.
pub proof fn law_cdata_roundtrip(s: Seq<char>, rest: Seq<char>)
    ensures
        cdata_join(cdata_open() + cdata_esc(s) + cdata_end() + rest) == (match cdata_join(rest) {
            Some(r) => Some(s + r),
            None => None::<Seq<char>>,
        }),
    decreases s.len(), 1int,
{
    match find_from(s, cdata_end(), 0) {
        None => lemma_roundtrip_plain(s, rest),
        Some(j) => lemma_roundtrip_split(s, rest, j),
    }
}

/// Text free of `]` that escaping starts with was there before escaping.
proof fn lemma_esc_prefix(x: Seq<char>, w: Seq<char>)
    requires
        forall|k: int| 0 <= k < w.len() ==> w[k] != ']',
        w.len() <= cdata_esc(x).len(),
        cdata_esc(x).take(w.len() as int) == w,
    ensures
        w.len() <= x.len(),
        x.take(w.len() as int) == w,
    decreases w.len(),
{
    if w.len() == 0 {
        assert(x.take(0) =~= w);
    } else {
        if x.len() == 0 {
            assert(cdata_esc(x).len() == 0);
        }
        if occurs_at(x, cdata_end(), 0) {
            assert(cdata_esc(x)[0] == ']');
            assert(w[0] == cdata_esc(x).take(w.len() as int)[0]);
        } else {
            let x1 = x.drop_first();
            assert(cdata_esc(x) == seq![x[0]] + cdata_esc(x1));
            let w1 = w.drop_first();
            assert(cdata_esc(x1).take(w1.len() as int) =~= cdata_esc(x).take(w.len() as int).drop_first());
            lemma_esc_prefix(x1, w1);
            assert(w[0] == cdata_esc(x).take(w.len() as int)[0]);
            assert(x.take(w.len() as int) =~= seq![x[0]] + x1.take(w1.len() as int));
            assert(x.take(w.len() as int) =~= w);
        }
    }
}

/// Escaping never creates a closing tag the text did not hold: a pattern
/// free of `]` that starts with `</` occurs in the escaped text only if it
/// occurs in the text.
proof fn lemma_esc_keeps_absent(s: Seq<char>, p: Seq<char>)
    requires
        forall|k: int| 0 <= k < p.len() ==> p[k] != ']',
        p.len() >= 2,
        p[0] == '<',
        p[1] == '/',
        forall|i: int| !occurs_at(s, p, i),
    ensures
        forall|i: int| !occurs_at(cdata_esc(s), p, i),
    decreases s.len(),
{
    let e = cdata_esc(s);
    if s.len() == 0 {
    } else if occurs_at(s, cdata_end(), 0) {
        let s3 = s.skip(3);
        assert forall|i: int| !occurs_at(s3, p, i) by {
            if occurs_at(s3, p, i) {
                assert(s.subrange(i + 3, i + 3 + p.len()) =~= s3.subrange(i, i + p.len()));
                assert(occurs_at(s, p, i + 3));
            }
        }
        lemma_esc_keeps_absent(s3, p);
        let split = cdata_split();
        assert(split =~= seq![']', ']', ']', ']', '>', '<', '!', '[', 'C', 'D', 'A', 'T', 'A', '[', '>']);
        assert(e == split + cdata_esc(s3));
        assert forall|i: int| !occurs_at(e, p, i) by {
            if occurs_at(e, p, i) {
                assert(e.subrange(i, i + p.len())[0] == e[i]);
                assert(e.subrange(i, i + p.len())[1] == e[i + 1]);
                if i >= 15 {
                    assert(e.subrange(i, i + p.len()) =~= cdata_esc(s3).subrange(i - 15, i - 15 + p.len()));
                    assert(occurs_at(cdata_esc(s3), p, i - 15));
                } else {
                    assert(e[i] == split[i]);
                    if i + 1 < 15 {
                        assert(e[i + 1] == split[i + 1]);
                    }
                }
            }
        }
    } else {
        let s1 = s.drop_first();
        assert forall|i: int| !occurs_at(s1, p, i) by {
            if occurs_at(s1, p, i) {
                assert(s.subrange(i + 1, i + 1 + p.len()) =~= s1.subrange(i, i + p.len()));
                assert(occurs_at(s, p, i + 1));
            }
        }
        lemma_esc_keeps_absent(s1, p);
        assert(e == seq![s[0]] + cdata_esc(s1));
        assert forall|i: int| !occurs_at(e, p, i) by {
            if occurs_at(e, p, i) {
                if i == 0 {
                    assert(e.take(p.len() as int) =~= e.subrange(0, p.len() as int));
                    lemma_esc_prefix(s, p);
                    assert(s.subrange(0, p.len() as int) =~= s.take(p.len() as int));
                    assert(occurs_at(s, p, 0));
                } else {
                    assert(e.subrange(i, i + p.len()) =~= cdata_esc(s1).subrange(i - 1, i - 1 + p.len()));
                    assert(occurs_at(cdata_esc(s1), p, i - 1));
                }
            }
        }
    }
}

/// The opening tag of the metadata element.
pub open spec fn meta_open_tag() -> Seq<char> {
    seq!['<', 'm', 'e', 't', 'a', 'd', 'a', 't', 'a', ' ', 't', 'y', 'p', 'e', '=', '"', 'a', 'p', 'p', 'l', 'i', 'c',
        'a', 't', 'i', 'o', 'n', '/', 'j', 's', 'o', 'n', '"', '>']
}

/// The closing tag of the metadata element.
pub open spec fn meta_close_tag() -> Seq<char> {
    seq!['<', '/', 'm', 'e', 't', 'a', 'd', 'a', 't', 'a', '>']
}

proof fn lemma_metadata_pieces(json: Seq<char>)
    ensures
        metadata_text(json) == meta_open_tag() + cdata_open() + cdata_esc(json) + cdata_end() + meta_close_tag(),
        "<metadata"@ == meta_open_tag().take(9),
        "</metadata>"@ == meta_close_tag(),
{
    reveal_strlit("<metadata type=\"application/json\"><![CDATA[");
    reveal_strlit("]]></metadata>");
    reveal_strlit("<metadata");
    reveal_strlit("</metadata>");
    assert("<metadata type=\"application/json\"><![CDATA["@ =~= meta_open_tag() + cdata_open());
    assert("]]></metadata>"@ =~= cdata_end() + meta_close_tag());
    assert("<metadata"@ =~= meta_open_tag().take(9));
    assert("</metadata>"@ =~= meta_close_tag());
    assert(metadata_text(json) =~= meta_open_tag() + cdata_open() + cdata_esc(json) + cdata_end() + meta_close_tag());
}

/// The element is found right after a prefix that holds none.
proof fn lemma_find_element(pre: Seq<char>, rest: Seq<char>)
    requires
        find_from(pre, meta_open_tag().take(9), 0) is None,
        rest.len() >= 9,
        rest.take(9) == meta_open_tag().take(9),
    ensures
        find_from(pre + rest, meta_open_tag().take(9), 0) == Some(pre.len() as int),
{
    let pat = meta_open_tag().take(9);
    let t = pre + rest;
    let n = pre.len() as int;
    lemma_find_spec(pre, pat, 0);
    assert forall|i: int| 0 <= i < n implies !occurs_at(t, pat, i) by {
        if occurs_at(t, pat, i) {
            if i + 9 <= n {
                assert(t.subrange(i, i + 9) =~= pre.subrange(i, i + 9));
                assert(occurs_at(pre, pat, i));
            } else {
                assert(t.subrange(i, i + 9)[n - i] == t[n]);
                assert(t[n] == rest[0]);
                assert(rest[0] == rest.take(9)[0]);
            }
        }
    }
    assert(t.subrange(n, n + 9) =~= rest.take(9));
    lemma_find_first(t, pat, 0, n);
}

/// In the element's text, the first `>` ends the opening tag.
proof fn lemma_find_gt(rest: Seq<char>)
    requires
        rest.len() >= 34,
        rest.take(34) == meta_open_tag(),
    ensures
        find_from(rest, seq!['>'], 0) == Some(33int),
{
    let gt = seq!['>'];
    assert forall|i: int| 0 <= i < 33 implies !occurs_at(rest, gt, i) by {
        assert(rest[i] == meta_open_tag()[i]);
        if occurs_at(rest, gt, i) {
            assert(rest.subrange(i, i + 1)[0] == rest[i]);
        }
    }
    assert(rest[33] == meta_open_tag()[33]);
    assert(rest.subrange(33, 34) =~= gt);
    lemma_find_first(rest, gt, 0, 33);
}

/// After the opening tag, the first closing tag is the element's own.
#[verifier::spinoff_prover]
#[verifier::rlimit(60)]
proof fn lemma_find_close(json: Seq<char>, post: Seq<char>)
    requires
        forall|i: int| !occurs_at(json, meta_close_tag(), i),
    ensures
        find_from(cdata_open() + cdata_esc(json) + cdata_end() + meta_close_tag() + post, meta_close_tag(), 0)
            == Some(cdata_esc(json).len() as int + 12),
{
    let close = meta_close_tag();
    let e = cdata_esc(json);
    lemma_esc_keeps_absent(json, close);
    let t = cdata_open() + e + cdata_end() + close + post;
    let l = e.len() as int + 12;
    let m = e.len() as int;
    assert(t[l] == '<');
    assert(t[9 + m] == ']');
    assert(t[0] == '<' && t[1] == '!');
    assert forall|i: int| 0 <= i < l implies !occurs_at(t, close, i) by {
        if occurs_at(t, close, i) {
            let w = t.subrange(i, i + 11);
            if i + 11 > l {
                assert(w[l - i] == t[l]);
            } else if i + 11 > 9 + m {
                assert(w[9 + m - i] == t[9 + m]);
            } else if i < 9 {
                assert(w[0] == t[i]);
                assert(cdata_open()[i] == t[i]);
                assert(w[1] == t[i + 1]);
            } else {
                assert(w =~= e.subrange(i - 9, i - 9 + 11));
                assert(occurs_at(e, close, i - 9));
            }
        }
    }
    assert(t.subrange(l, l + 11) =~= close);
    lemma_find_first(t, close, 0, l);
}

/// A receipt's JSON inscribed in a document reads back unchanged: after
/// a prefix holding no `<metadata` of its own, the element written for
/// `json` gives `json` again, whatever follows, as long as `json` holds no
/// closing `</metadata>` of its own.
pub proof fn law_metadata_roundtrip(pre: Seq<char>, json: Seq<char>, post: Seq<char>)
    requires
        find_from(pre, "<metadata"@, 0) is None,
        find_from(json, "</metadata>"@, 0) is None,
    ensures
        metadata_json_text(pre + metadata_text(json) + post) == Some(json),
{
    lemma_metadata_pieces(json);
    let open_tag = meta_open_tag();
    let close = meta_close_tag();
    let e = cdata_esc(json);
    let svg = pre + metadata_text(json) + post;
    let n = pre.len() as int;
    let rest = metadata_text(json) + post;
    assert(svg =~= pre + rest);
    assert(rest =~= open_tag + (cdata_open() + e + cdata_end() + close + post));
    assert(rest.take(9) =~= open_tag.take(9));
    lemma_find_element(pre, rest);
    assert(svg.skip(n) =~= rest);
    assert(rest.take(34) =~= open_tag);
    lemma_find_gt(rest);
    let body_start = n + 34;
    let inner = cdata_open() + e + cdata_end() + close + post;
    assert(svg.skip(body_start) =~= inner);
    lemma_find_spec(json, close, 0);
    lemma_find_close(json, post);
    let l = e.len() as int + 12;
    assert(svg.subrange(body_start, body_start + l) =~= cdata_open() + e + cdata_end() + Seq::<char>::empty());
    law_cdata_roundtrip(json, Seq::<char>::empty());
    assert(find_from(Seq::<char>::empty(), cdata_open(), 0) is None);
    assert(json + Seq::<char>::empty() =~= json);
}

} // verus!
