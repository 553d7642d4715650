//! Color values for `--fg` / `--bg`: `#RGB` / `#RRGGBB` / `#RRGGBBAA`,
//! `rgb(r,g,b)` with integers in 0..=255, lowercase names passed through,
//! and `none` (background only: the background rect is omitted).

use vstd::prelude::*;

use crate::text::{
    debug_str, debug_text, dec, lower, lowered, parse_uint, parse_uint_range, push_dec, push_str, split_by,
    split_chars, string_of, trim, trim_bounds, trimmed, views,
};

verus! {

/// A parsed color.
#[derive(Clone, Debug, PartialEq, Eq)]
pub struct Color {
    /// The form inscribed in the SVG (`fill="…"`).
    pub svg: String,
    /// The sRGB triple, when the form carries one (hex and `rgb()`).
    pub rgb: Option<[u8; 3]>,
    /// `bg=none`: the background rect is omitted.
    pub none: bool,
}

impl Color {
    /// `bg=none`: the rect is omitted.
    pub fn is_none(&self) -> (r: bool)
        ensures
            r == self.none,
    {
        self.none
    }
}

/// A color as plain values: its SVG text, its triple, and `none`.
pub open spec fn color_view(c: Color) -> (Seq<char>, Option<Seq<u8>>, bool) {
    (c.svg@, match c.rgb { Some(a) => Some(a@), None => None }, c.none)
}

/// An ASCII hex digit.
pub open spec fn is_hex(c: char) -> bool {
    ('0' <= c && c <= '9') || ('a' <= c && c <= 'f') || ('A' <= c && c <= 'F')
}

/// Value of a hex digit (0 for any other char).
pub open spec fn hex_val(c: char) -> nat {
    if '0' <= c && c <= '9' {
        ((c as u32) - ('0' as u32)) as nat
    } else if 'a' <= c && c <= 'f' {
        ((c as u32) - ('a' as u32) + 10) as nat
    } else if 'A' <= c && c <= 'F' {
        ((c as u32) - ('A' as u32) + 10) as nat
    } else {
        0
    }
}

/// A byte from two hex digits.
pub open spec fn hex_pair(hi: char, lo: char) -> u8 {
    (hex_val(hi) * 16 + hex_val(lo)) as u8
}

/// The triple of a hex body: 3 digits expand (`f` → `ff`), 6 or 8 read
/// the first three pairs (alpha ignored).
pub open spec fn hex_triple(r: Seq<char>) -> Option<Seq<u8>> {
    if r.len() == 3 {
        Some(seq![hex_pair(r[0], r[0]), hex_pair(r[1], r[1]), hex_pair(r[2], r[2])])
    } else if r.len() == 6 || r.len() == 8 {
        Some(seq![hex_pair(r[0], r[1]), hex_pair(r[2], r[3]), hex_pair(r[4], r[5])])
    } else {
        None
    }
}

/// Lowercase ASCII letters and digits, at least one.
pub open spec fn lowercase_name(s: Seq<char>) -> bool {
    s.len() > 0 && forall|i: int| 0 <= i < s.len() ==> (('a' <= #[trigger] s[i] && s[i] <= 'z') || ('0' <= s[i] && s[i] <= '9'))
}

pub open spec fn msg_empty() -> Seq<char> {
    "color: expected #RGB | #RRGGBB | #RRGGBBAA | rgb(r,g,b) | name | none"@
}

pub open spec fn msg_none_fg() -> Seq<char> {
    "color: \"none\" is only valid for --bg (omits the background rect)"@
}

/// A hex color body `rest` of the trimmed text `orig`.
pub open spec fn hex_s(rest: Seq<char>, orig: Seq<char>) -> Result<(Seq<char>, Option<Seq<u8>>, bool), Seq<char>> {
    if !(forall|i: int| 0 <= i < rest.len() ==> is_hex(#[trigger] rest[i])) {
        Err("color: "@ + debug_text(orig) + ": hex must be 0-9 a-f"@)
    } else {
        match hex_triple(rest) {
            None => Err("color: "@ + debug_text(orig) + ": hex length must be 3, 6, or 8"@),
            Some(t) => Ok(("#"@ + rest, Some(t), false)),
        }
    }
}

/// A component of `rgb(…)`: a `u16` no larger than 255.
pub open spec fn component(p: Seq<char>) -> Option<nat> {
    match parse_uint(p, 65535) {
        Some(v) => if v <= 255 { Some(v) } else { None },
        None => None,
    }
}

/// The first of the (trimmed) parts that is not a component.
pub open spec fn bad_component(parts: Seq<Seq<char>>, k: int) -> Option<Seq<char>>
    decreases k,
{
    if k <= 0 {
        None
    } else {
        match bad_component(parts, k - 1) {
            Some(p) => Some(p),
            None => if component(trim(parts[k - 1])) is None { Some(trim(parts[k - 1])) } else { None },
        }
    }
}

/// An `rgb(…)` body `rest` of the trimmed text `orig`.
pub open spec fn rgb_s(rest: Seq<char>, orig: Seq<char>) -> Result<(Seq<char>, Option<Seq<u8>>, bool), Seq<char>> {
    let parts = split_by(rest, ',');
    if parts.len() != 3 {
        Err("color: "@ + debug_text(orig) + ": rgb() expects three integers 0..=255"@)
    } else {
        match bad_component(parts, 3) {
            Some(p) => Err("color: "@ + debug_text(orig) + ": rgb() component "@ + debug_text(p)
                + " is not an integer 0..=255"@),
            None => {
                let r = component(trim(parts[0]))->0;
                let g = component(trim(parts[1]))->0;
                let b = component(trim(parts[2]))->0;
                Ok(("rgb("@ + dec(r) + ","@ + dec(g) + ","@ + dec(b) + ")"@, Some(seq![r as u8, g as u8, b as u8]), false))
            },
        }
    }
}

/// What a color value parses to: `(svg, triple, none)` or the message.
pub open spec fn color_s(input: Seq<char>, allow_none: bool) -> Result<(Seq<char>, Option<Seq<u8>>, bool), Seq<char>> {
    let s = trim(input);
    if s.len() == 0 {
        Err(msg_empty())
    } else if lower(s) == "none"@ {
        if allow_none { Ok(("none"@, None, true)) } else { Err(msg_none_fg()) }
    } else if s[0] == '#' {
        hex_s(s.drop_first(), s)
    } else if s.len() >= 5 && s.take(4) == "rgb("@ && s.last() == ')' {
        rgb_s(s.subrange(4, s.len() - 1), s)
    } else if lowercase_name(s) {
        Ok((s, None, false))
    } else {
        Err("color: "@ + debug_text(input) + ": expected #RGB | #RRGGBB | #RRGGBBAA | rgb(r,g,b) | lowercase name | none"@)
    }
}

fn hex_nibble(c: char) -> (r: u8)
    ensures
        r == hex_val(c),
{
    if '0' <= c && c <= '9' {
        ((c as u32) - ('0' as u32)) as u8
    } else if 'a' <= c && c <= 'f' {
        ((c as u32) - ('a' as u32) + 10) as u8
    } else if 'A' <= c && c <= 'F' {
        ((c as u32) - ('A' as u32) + 10) as u8
    } else {
        0
    }
}

fn from_hex_pair(hi: char, lo: char) -> (r: u8)
    ensures
        r == hex_pair(hi, lo),
{
    let h = hex_nibble(hi);
    let l = hex_nibble(lo);
    proof { assert(hex_val(hi) < 16 && hex_val(lo) < 16); }
    h * 16 + l
}

fn text_of(cs: &Vec<char>) -> (r: String)
    ensures
        r@ == cs@,
{
    let r = string_of(cs, 0, cs.len());
    assert(cs@.subrange(0, cs@.len() as int) =~= cs@);
    r
}

fn color_of(svg: String, rgb: Option<[u8; 3]>, none: bool) -> (c: Color)
    ensures
        c.svg == svg && c.rgb == rgb && c.none == none,
{
    Color { svg, rgb, none }
}

fn parse_hex(s: &Vec<char>) -> (r: Result<Color, String>)
    requires
        s@.len() >= 1,
    ensures
        match hex_s(s@.drop_first(), s@) {
            Ok(v) => r matches Ok(c) && color_view(c) == v,
            Err(m) => r matches Err(e) && e@ == m,
        },
{
    let n = s.len();
    let mut i: usize = 1;
    while i < n
        invariant
            1 <= i <= n == s@.len(),
            forall|j: int| 1 <= j < i ==> is_hex(#[trigger] s@[j]),
        decreases n - i,
    {
        let c = s[i];
        if !(('0' <= c && c <= '9') || ('a' <= c && c <= 'f') || ('A' <= c && c <= 'F')) {
            proof {
                assert(s@.drop_first()[i - 1] == c);
            }
            let mut m = "color: ".to_owned();
            let d = debug_str(text_of(s).as_str());
            push_str(&mut m, d.as_str());
            push_str(&mut m, ": hex must be 0-9 a-f");
            return Err(m);
        }
        i = i + 1;
    }
    proof {
        assert forall|j: int| 0 <= j < s@.drop_first().len() implies is_hex(#[trigger] s@.drop_first()[j]) by {
            assert(s@.drop_first()[j] == s@[j + 1]);
        }
    }
    let len = n - 1;
    let rgb: [u8; 3] = if len == 3 {
        [from_hex_pair(s[1], s[1]), from_hex_pair(s[2], s[2]), from_hex_pair(s[3], s[3])]
    } else if len == 6 || len == 8 {
        [from_hex_pair(s[1], s[2]), from_hex_pair(s[3], s[4]), from_hex_pair(s[5], s[6])]
    } else {
        let mut m = "color: ".to_owned();
        let d = debug_str(text_of(s).as_str());
        push_str(&mut m, d.as_str());
        push_str(&mut m, ": hex length must be 3, 6, or 8");
        return Err(m);
    };
    let mut svg = "#".to_owned();
    let rest = string_of(s, 1, n);
    push_str(&mut svg, rest.as_str());
    proof {
        assert(s@.subrange(1, n as int) =~= s@.drop_first());
        assert(rgb@ =~= hex_triple(s@.drop_first())->0);
    }
    Ok(color_of(svg, Some(rgb), false))
}

fn parse_component(p: &Vec<char>) -> (r: Option<u8>)
    ensures
        match component(trim(p@)) {
            Some(v) => r == Some(v as u8),
            None => r is None,
        },
{
    let (lo, hi) = trim_bounds(p);
    match parse_uint_range(p, lo, hi, 65535) {
        Some(v) => if v <= 255 { Some(v as u8) } else { None },
        None => None,
    }
}

proof fn lemma_bad_some(parts: Seq<Seq<char>>, k: int, j: int)
    requires
        0 <= k <= j,
        bad_component(parts, k) is Some,
    ensures
        bad_component(parts, j) == bad_component(parts, k),
    decreases j - k,
{
    if k < j {
        lemma_bad_some(parts, k, j - 1);
    }
}

fn parse_rgb(s: &Vec<char>) -> (r: Result<Color, String>)
    requires
        s@.len() >= 5,
    ensures
        match rgb_s(s@.subrange(4, s@.len() - 1), s@) {
            Ok(v) => r matches Ok(c) && color_view(c) == v,
            Err(m) => r matches Err(e) && e@ == m,
        },
{
    let n = s.len();
    let mut body: Vec<char> = Vec::new();
    let mut i: usize = 4;
    while i < n - 1
        invariant
            4 <= i <= n - 1,
            n == s@.len(),
            body@ == s@.subrange(4, i as int),
        decreases n - 1 - i,
    {
        body.push(s[i]);
        i = i + 1;
        assert(body@ =~= s@.subrange(4, i as int));
    }
    let parts = split_chars(&body, ',');
    let ghost pv = views(parts@);
    proof { assert(body@ == s@.subrange(4, s@.len() - 1)); }
    if parts.len() != 3 {
        let mut m = "color: ".to_owned();
        let d = debug_str(text_of(s).as_str());
        push_str(&mut m, d.as_str());
        push_str(&mut m, ": rgb() expects three integers 0..=255");
        return Err(m);
    }
    proof {
        assert(pv[0] == parts@[0]@);
        assert(pv[1] == parts@[1]@);
        assert(pv[2] == parts@[2]@);
    }
    let mut vals: [u8; 3] = [0, 0, 0];
    let mut k: usize = 0;
    while k < 3
        invariant
            k <= 3,
            parts@.len() == 3,
            pv == views(parts@),
            pv == split_by(s@.subrange(4, s@.len() - 1), ','),
            forall|j: int| 0 <= j < 3 ==> #[trigger] pv[j] == parts@[j]@,
            bad_component(pv, k as int) is None,
            forall|j: int| 0 <= j < k ==> component(trim(#[trigger] pv[j])) == Some(vals@[j] as nat),
        decreases 3 - k,
    {
        match parse_component(&parts[k]) {
            Some(v) => {
                vals.set(k, v);
            },
            None => {
                proof {
                    assert(bad_component(pv, k + 1) == Some(trim(pv[k as int])));
                    lemma_bad_some(pv, k + 1, 3);
                }
                let (lo, hi) = trim_bounds(&parts[k]);
                let p = string_of(&parts[k], lo, hi);
                let mut m = "color: ".to_owned();
                let d = debug_str(text_of(s).as_str());
                push_str(&mut m, d.as_str());
                push_str(&mut m, ": rgb() component ");
                let dp = debug_str(p.as_str());
                push_str(&mut m, dp.as_str());
                push_str(&mut m, " is not an integer 0..=255");
                return Err(m);
            },
        }
        k = k + 1;
    }
    let mut svg = "rgb(".to_owned();
    push_dec(&mut svg, vals[0] as u128);
    push_str(&mut svg, ",");
    push_dec(&mut svg, vals[1] as u128);
    push_str(&mut svg, ",");
    push_dec(&mut svg, vals[2] as u128);
    push_str(&mut svg, ")");
    proof {
        assert(vals@ =~= seq![
            component(trim(pv[0]))->0 as u8,
            component(trim(pv[1]))->0 as u8,
            component(trim(pv[2]))->0 as u8
        ]);
    }
    Ok(color_of(svg, Some(vals), false))
}

fn is_lowercase_name(s: &Vec<char>) -> (r: bool)
    ensures
        r == lowercase_name(s@),
{
    if s.len() == 0 {
        return false;
    }
    let mut i: usize = 0;
    while i < s.len()
        invariant
            i <= s@.len(),
            forall|j: int| 0 <= j < i ==> (('a' <= #[trigger] s@[j] && s@[j] <= 'z') || ('0' <= s@[j] && s@[j] <= '9')),
        decreases s@.len() - i,
    {
        let c = s[i];
        if !(('a' <= c && c <= 'z') || ('0' <= c && c <= '9')) {
            return false;
        }
        i = i + 1;
    }
    true
}

/// Parse a color value; `allow_none` is true only for the background.
pub fn parse(input: &str, allow_none: bool) -> (r: Result<Color, String>)
    ensures
        match color_s(input@, allow_none) {
            Ok(v) => r matches Ok(c) && color_view(c) == v,
            Err(m) => r matches Err(e) && e@ == m,
        },
{
    let s = trimmed(input);
    if s.len() == 0 {
        return Err("color: expected #RGB | #RRGGBB | #RRGGBBAA | rgb(r,g,b) | name | none".to_owned());
    }
    let low = lowered(&s);
    if crate::text::eq_lit(&low, "none") {
        if !allow_none {
            return Err("color: \"none\" is only valid for --bg (omits the background rect)".to_owned());
        }
        return Ok(color_of("none".to_owned(), None, true));
    }
    if s[0] == '#' {
        return parse_hex(&s);
    }
    let n = s.len();
    if n >= 5 && s[0] == 'r' && s[1] == 'g' && s[2] == 'b' && s[3] == '(' && s[n - 1] == ')' {
        proof {
            reveal_strlit("rgb(");
            assert(s@.take(4) =~= "rgb("@);
        }
        return parse_rgb(&s);
    }
    proof {
        reveal_strlit("rgb(");
        if s@.len() >= 5 && s@.take(4) == "rgb("@ && s@.last() == ')' {
            assert(s@.take(4)[0] == 'r');
            assert(s@.take(4)[1] == 'g');
            assert(s@.take(4)[2] == 'b');
            assert(s@.take(4)[3] == '(');
        }
    }
    if is_lowercase_name(&s) {
        return Ok(color_of(text_of(&s), None, false));
    }
    let mut m = "color: ".to_owned();
    let d = debug_str(input);
    push_str(&mut m, d.as_str());
    push_str(&mut m, ": expected #RGB | #RRGGBB | #RRGGBBAA | rgb(r,g,b) | lowercase name | none");
    Err(m)
}

/// The default foreground: black.
pub fn default_fg() -> (c: Color)
    ensures
        color_view(c) == ("black"@, Some(seq![0u8, 0u8, 0u8]), false),
{
    let rgb: [u8; 3] = [0, 0, 0];
    proof { assert(rgb@ =~= seq![0u8, 0u8, 0u8]); }
    color_of("black".to_owned(), Some(rgb), false)
}

/// The default background: white.
pub fn default_bg() -> (c: Color)
    ensures
        color_view(c) == ("white"@, Some(seq![255u8, 255u8, 255u8]), false),
{
    let rgb: [u8; 3] = [255, 255, 255];
    proof { assert(rgb@ =~= seq![255u8, 255u8, 255u8]); }
    color_of("white".to_owned(), Some(rgb), false)
}


/// Law: a 6- or 8-digit hex color reads each channel from its pair of
/// digits, high digit first: channel `k` is `16·d(2k) + d(2k+1)`, where
/// `d` is a digit's value (`#1e90ff` → 30, 144, 255). The alpha pair, if
/// any, is ignored. A 3-digit color repeats each digit (`#f0a` → 255, 0, 170).
pub proof fn law_hex_channels(input: Seq<char>, allow_none: bool)
    requires
        trim(input).len() >= 1,
        trim(input)[0] == '#',
        color_s(input, allow_none) is Ok,
    ensures
        ({
            let b = trim(input).drop_first();
            let t = color_s(input, allow_none)->Ok_0.1;
            &&& b.len() == 6 || b.len() == 8 ==> t == Some(seq![
                (16 * hex_val(b[0]) + hex_val(b[1])) as u8,
                (16 * hex_val(b[2]) + hex_val(b[3])) as u8,
                (16 * hex_val(b[4]) + hex_val(b[5])) as u8])
            &&& b.len() == 3 ==> t == Some(seq![
                (17 * hex_val(b[0])) as u8, (17 * hex_val(b[1])) as u8, (17 * hex_val(b[2])) as u8])
            &&& forall|k: int| 0 <= k < b.len() ==> is_hex(#[trigger] b[k])
        }),
{
    let s = trim(input);
    assert(lower(s)[0] == '#');
    assert(lower(s) != "none"@) by {
        reveal_strlit("none");
        assert("none"@[0] == 'n');
    }
    let b = s.drop_first();
    assert forall|c: char| is_hex(c) implies hex_val(c) <= 15 by {}
    if b.len() == 3 {
        assert(is_hex(b[0]) && is_hex(b[1]) && is_hex(b[2]));
    }
}

} // verus!
