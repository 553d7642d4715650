//! The symbology grammar `<family>[-<version>][-<ec>]` and auto-fit
//! resolution against the encoder.

use vstd::prelude::*;

use crate::qr::{encode_pinned, is_micro, max_version, pinned_encoding, symbol_width, version_ok, QrMatrix};
use crate::text::{to_chars, dec, debug_str, debug_text, eq_lit, lower, lowered, parse_uint, parse_uint_range, push_char, push_dec, push_str, push_string, split_by, split_chars, string_of, trim, trimmed, views, lemma_split_nonempty};
use crate::CodecError;

verus! {

/// Symbology family.
#[derive(Clone, Copy, Debug, PartialEq, Eq, Structural)]
pub enum Family {
    /// Micro QR (M1–M4, quiet zone 2 modules).
    Micro,
    /// Standard QR (V1–V40, quiet zone 4 modules).
    Qr,
}

/// Family name in the grammar.
pub open spec fn family_name(f: Family) -> Seq<char> {
    match f {
        Family::Micro => "micro"@,
        Family::Qr => "qr"@,
    }
}

/// Version prefix letter (`m` / `v`).
pub open spec fn version_prefix(f: Family) -> char {
    match f {
        Family::Micro => 'm',
        Family::Qr => 'v',
    }
}

impl Family {
    fn name(self) -> (s: &'static str)
        ensures
            s@ == family_name(self),
    {
        match self {
            Family::Micro => "micro",
            Family::Qr => "qr",
        }
    }

    fn prefix(self) -> (c: char)
        ensures
            c == version_prefix(self),
    {
        match self {
            Family::Micro => 'm',
            Family::Qr => 'v',
        }
    }

    fn version_max(self) -> (v: u8)
        ensures
            v == max_version(is_micro(self)),
    {
        match self {
            Family::Micro => 4,
            Family::Qr => 40,
        }
    }

    /// Quiet-zone width in modules (ISO/IEC 18004 §6.3.8).
    pub fn quiet_modules(self) -> (q: u32)
        ensures
            q == crate::qr::quiet_of(is_micro(self)),
    {
        match self {
            Family::Micro => 2,
            Family::Qr => 4,
        }
    }
}

/// Error-correction level.
#[derive(Clone, Copy, Debug, PartialEq, Eq, Structural)]
pub enum Ec {
    L,
    M,
    Q,
    H,
}

/// The lower-case EC letter.
pub open spec fn ec_letter(e: Ec) -> char {
    match e {
        Ec::L => 'l',
        Ec::M => 'm',
        Ec::Q => 'q',
        Ec::H => 'h',
    }
}

/// The upper-case EC letter.
pub open spec fn ec_upper(e: Ec) -> char {
    match e {
        Ec::L => 'L',
        Ec::M => 'M',
        Ec::Q => 'Q',
        Ec::H => 'H',
    }
}

fn ec_char(e: Ec) -> (c: char)
    ensures
        c == ec_letter(e),
{
    match e {
        Ec::L => 'l',
        Ec::M => 'm',
        Ec::Q => 'q',
        Ec::H => 'h',
    }
}

fn ec_char_upper(e: Ec) -> (c: char)
    ensures
        c == ec_upper(e),
{
    match e {
        Ec::L => 'L',
        Ec::M => 'M',
        Ec::Q => 'Q',
        Ec::H => 'H',
    }
}

/// A possibly under-specified symbology request.
#[derive(Clone, Copy, Debug, PartialEq, Eq, Structural)]
pub struct Symbology {
    pub family: Family,
    pub version: Option<u8>,
    pub ec: Option<Ec>,
}

/// The canonical text of a request: `micro`, `micro-m4`, `qr-v1-m`, …
pub open spec fn symbology_text(s: Symbology) -> Seq<char> {
    family_name(s.family)
        + (match s.version {
            Some(v) => seq!['-', version_prefix(s.family)] + dec(v as nat),
            None => Seq::empty(),
        })
        + (match s.ec {
            Some(e) => seq!['-', ec_letter(e)],
            None => Seq::empty(),
        })
}

impl Symbology {
    /// Family-only request (version and EC auto-fit).
    pub fn family(family: Family) -> (s: Self)
        ensures
            s == (Symbology { family, version: None, ec: None }),
    {
        Symbology { family, version: None, ec: None }
    }

    /// The canonical text of this request.
    pub fn to_text(&self) -> (t: String)
        ensures
            t@ == symbology_text(*self),
    {
        let mut t = String::new();
        push_str(&mut t, self.family.name());
        if let Some(v) = self.version {
            push_char(&mut t, '-');
            push_char(&mut t, self.family.prefix());
            push_dec(&mut t, v as u128);
        }
        if let Some(e) = self.ec {
            push_char(&mut t, '-');
            push_char(&mut t, ec_char(e));
        }
        assert(t@ =~= symbology_text(*self));
        t
    }
}

/// A fully pinned symbology — what a render actually used.
#[derive(Clone, Copy, Debug, PartialEq, Eq, Structural)]
pub struct ResolvedSymbology {
    pub family: Family,
    pub version: u8,
    pub ec: Ec,
}

/// The canonical compact text: `micro-m4-m`, `qr-v1-m`, …
pub open spec fn compact_text(family: Family, version: u8, ec: Ec) -> Seq<char> {
    family_name(family) + seq!['-', version_prefix(family)] + dec(version as nat) + seq!['-', ec_letter(ec)]
}

impl ResolvedSymbology {
    /// The canonical compact string.
    pub fn compact(&self) -> (t: String)
        ensures
            t@ == compact_text(self.family, self.version, self.ec),
    {
        let mut t = String::new();
        push_str(&mut t, self.family.name());
        push_char(&mut t, '-');
        push_char(&mut t, self.family.prefix());
        push_dec(&mut t, self.version as u128);
        push_char(&mut t, '-');
        push_char(&mut t, ec_char(self.ec));
        assert(t@ =~= compact_text(self.family, self.version, self.ec));
        t
    }

    /// Quiet-zone width in modules.
    pub fn quiet_modules(&self) -> (q: u32)
        ensures
            q == crate::qr::quiet_of(is_micro(self.family)),
    {
        self.family.quiet_modules()
    }
}

// ------------------------------------------------------------------
// The grammar
// ------------------------------------------------------------------

/// An EC token.
pub open spec fn ec_token(t: Seq<char>) -> Option<Ec> {
    if t == seq!['l'] {
        Some(Ec::L)
    } else if t == seq!['m'] {
        Some(Ec::M)
    } else if t == seq!['q'] {
        Some(Ec::Q)
    } else if t == seq!['h'] {
        Some(Ec::H)
    } else {
        None
    }
}

/// A version token of `f`: its prefix letter, then a `u8` in range.
pub open spec fn version_token(t: Seq<char>, f: Family) -> Option<u8> {
    if t.len() > 0 && t[0] == version_prefix(f) {
        match parse_uint(t.drop_first(), 255) {
            Some(v) => if 1 <= v <= max_version(is_micro(f)) { Some(v as u8) } else { None },
            None => None,
        }
    } else {
        None
    }
}

/// Micro QR constraints: no `h`; M1 has no selectable EC; `q` only at M4.
pub open spec fn combination_ok(f: Family, v: Option<u8>, e: Option<Ec>) -> bool {
    f != Family::Micro || {
        &&& e != Some(Ec::H)
        &&& !(v == Some(1u8) && e is Some)
        &&& !((v == Some(2u8) || v == Some(3u8)) && e == Some(Ec::Q))
    }
}

/// The symbology a text denotes (`None` when the text is malformed).
/// Case-insensitive, surrounding white space ignored.
pub open spec fn parse_symbology(s: Seq<char>) -> Option<Symbology> {
    let segs = split_by(lower(trim(s)), '-');
    let fam = if segs[0] == "micro"@ {
        Some(Family::Micro)
    } else if segs[0] == "qr"@ {
        Some(Family::Qr)
    } else {
        None
    };
    let rest = segs.drop_first();
    match fam {
        None => None,
        Some(f) => {
            let parts: Option<(Option<u8>, Option<Ec>)> = if rest.len() == 0 {
                Some((None, None))
            } else if rest.len() == 1 {
                match ec_token(rest[0]) {
                    Some(e) => Some((None, Some(e))),
                    None => match version_token(rest[0], f) {
                        Some(v) => Some((Some(v), None)),
                        None => None,
                    },
                }
            } else if rest.len() == 2 {
                if ec_token(rest[0]) is Some {
                    None
                } else {
                    match (version_token(rest[0], f), ec_token(rest[1])) {
                        (Some(v), Some(e)) => Some((Some(v), Some(e))),
                        _ => None,
                    }
                }
            } else {
                None
            };
            match parts {
                Some((v, e)) => if combination_ok(f, v, e) {
                    Some(Symbology { family: f, version: v, ec: e })
                } else {
                    None
                },
                None => None,
            }
        },
    }
}

/// Where the family names its version syntax (the token did not parse).
pub open spec fn versions_written_text(f: Family, tok: Seq<char>) -> Seq<char> {
    family_name(f) + " versions are written "@ + seq![version_prefix(f)] + "1.."@ + seq![version_prefix(f)]
        + dec(max_version(is_micro(f)) as nat) + " (got "@ + debug_text(tok) + ")"@
}

/// A parsed version the family does not define.
pub open spec fn out_of_range_text(f: Family, v: nat) -> Seq<char> {
    family_name(f) + " version "@ + seq![version_prefix(f)] + dec(v) + " out of range ("@
        + seq![version_prefix(f)] + "1.."@ + seq![version_prefix(f)] + dec(max_version(is_micro(f)) as nat) + ")"@
}

/// Why a version token is refused.
pub open spec fn version_error(tok: Seq<char>, f: Family) -> Seq<char> {
    if tok.len() > 0 && tok[0] == version_prefix(f) {
        match parse_uint(tok.drop_first(), 255) {
            Some(v) => out_of_range_text(f, v),
            None => versions_written_text(f, tok),
        }
    } else {
        versions_written_text(f, tok)
    }
}

/// `malformed symbology <input:?><tail>`.
pub open spec fn malformed_text(s: Seq<char>, tail: Seq<char>) -> Seq<char> {
    "malformed symbology "@ + debug_text(s) + tail
}

/// Why a Micro QR (version, EC) pair is refused.
pub open spec fn combination_error(v: Option<u8>, e: Option<Ec>, input: Seq<char>) -> Seq<char> {
    if e == Some(Ec::H) {
        "micro QR has no EC level h (got "@ + debug_text(input) + "); micro levels: l, m, q (q only at m4)"@
    } else if v == Some(1u8) && e is Some {
        "micro-m1 has no selectable EC level (got "@ + debug_text(input) + "); pick m2..m4"@
    } else {
        "EC level q requires micro-m4 (got micro-m"@ + dec(v->0 as nat) + "-q); m2/m3 levels: l, m"@
    }
}

/// The families the parser implements, and the documented future ones.
pub open spec fn family_hint() -> Seq<char> {
    "implemented families: micro, qr (dm and code128 are documented future families, ADR-031 §8)"@
}

/// The message of a refused symbology text: the first thing wrong with it.
pub open spec fn symbology_error(s: Seq<char>) -> Seq<char> {
    let segs = split_by(lower(trim(s)), '-');
    let head = segs[0];
    let rest = segs.drop_first();
    if head == "micro"@ || head == "qr"@ {
        let f = if head == "micro"@ { Family::Micro } else { Family::Qr };
        if rest.len() > 2 {
            malformed_text(s, ": expected <family>[-<version>][-<ec>] (e.g. micro, micro-m3-l, qr-v1-m)"@)
        } else if rest.len() >= 1 && ec_token(rest[0]) is Some && rest.len() != 1 {
            malformed_text(s, ": the EC level must come last (<family>[-<version>][-<ec>])"@)
        } else if rest.len() >= 1 && ec_token(rest[0]) is None && version_token(rest[0], f) is None {
            version_error(rest[0], f)
        } else if rest.len() == 2 && ec_token(rest[1]) is None {
            malformed_text(s, ": "@) + debug_text(rest[1]) + " is not an EC level (l, m, q, h)"@
        } else {
            let v = if rest.len() >= 1 && ec_token(rest[0]) is None { version_token(rest[0], f) } else { None };
            let e = if rest.len() == 1 { ec_token(rest[0]) } else if rest.len() == 2 { ec_token(rest[1]) } else { None };
            combination_error(v, e, s)
        }
    } else if head == "dm"@ || head == "code128"@ {
        "symbology family "@ + debug_text(head) + " is documented but not implemented yet; "@ + family_hint()
    } else {
        "unknown symbology family "@ + debug_text(head) + "; "@ + family_hint()
    }
}

fn parse_ec(t: &Vec<char>) -> (r: Option<Ec>)
    ensures
        r == ec_token(t@),
{
    if t.len() != 1 {
        proof {
            assert(t@ != seq!['l'] && t@ != seq!['m'] && t@ != seq!['q'] && t@ != seq!['h']);
        }
        return None;
    }
    let c = t[0];
    proof {
        assert(t@ =~= seq![c]);
    }
    if c == 'l' {
        Some(Ec::L)
    } else if c == 'm' {
        Some(Ec::M)
    } else if c == 'q' {
        Some(Ec::Q)
    } else if c == 'h' {
        Some(Ec::H)
    } else {
        None
    }
}

fn family_versions_message(family: Family, token: &Vec<char>) -> (m: String)
    ensures
        m@ == versions_written_text(family, token@),
{
    let mut m = String::new();
    push_str(&mut m, family.name());
    push_str(&mut m, " versions are written ");
    push_char(&mut m, family.prefix());
    push_str(&mut m, "1..");
    push_char(&mut m, family.prefix());
    push_dec(&mut m, family.version_max() as u128);
    push_str(&mut m, " (got ");
    let tok = string_of(token, 0, token.len());
    assert(tok@ =~= token@);
    push_string(&mut m, &debug_str(tok.as_str()));
    push_str(&mut m, ")");
    m
}

fn parse_version(token: &Vec<char>, family: Family) -> (r: Result<u8, String>)
    ensures
        match version_token(token@, family) {
            Some(v) => r == Ok::<u8, String>(v),
            None => r matches Err(m) && m@ == version_error(token@, family),
        },
{
    if token.len() == 0 || token[0] != family.prefix() {
        return Err(family_versions_message(family, token));
    }
    assert(token@.subrange(1, token@.len() as int) =~= token@.drop_first());
    assert(token@.len() > 0 && token@[0] == version_prefix(family));
    match parse_uint_range(token, 1, token.len(), 255) {
        None => Err(family_versions_message(family, token)),
        Some(v) => {
            if v < 1 || v > family.version_max() as u64 {
                let mut m = String::new();
                push_str(&mut m, family.name());
                push_str(&mut m, " version ");
                push_char(&mut m, family.prefix());
                push_dec(&mut m, v as u128);
                push_str(&mut m, " out of range (");
                push_char(&mut m, family.prefix());
                push_str(&mut m, "1..");
                push_char(&mut m, family.prefix());
                push_dec(&mut m, family.version_max() as u128);
                push_str(&mut m, ")");
                Err(m)
            } else {
                Ok(v as u8)
            }
        },
    }
}

fn validate_combination(sym: &Symbology, input: &str) -> (r: Result<(), String>)
    ensures
        r is Ok <==> combination_ok(sym.family, sym.version, sym.ec),
        r matches Err(m) ==> m@ == combination_error(sym.version, sym.ec, input@),
{
    if sym.family != Family::Micro {
        return Ok(());
    }
    match (sym.version, sym.ec) {
        (_, Some(Ec::H)) => {
            let mut m = String::new();
            push_str(&mut m, "micro QR has no EC level h (got ");
            push_string(&mut m, &debug_str(input));
            push_str(&mut m, "); micro levels: l, m, q (q only at m4)");
            Err(m)
        },
        (Some(1), Some(_)) => {
            let mut m = String::new();
            push_str(&mut m, "micro-m1 has no selectable EC level (got ");
            push_string(&mut m, &debug_str(input));
            push_str(&mut m, "); pick m2..m4");
            Err(m)
        },
        (Some(v), Some(Ec::Q)) => {
            if v == 2 || v == 3 {
                let mut m = String::new();
                push_str(&mut m, "EC level q requires micro-m4 (got micro-m");
                push_dec(&mut m, v as u128);
                push_str(&mut m, "-q); m2/m3 levels: l, m");
                Err(m)
            } else {
                Ok(())
            }
        },
        _ => Ok(()),
    }
}

fn malformed(s: &str, tail: &str) -> (m: String)
    ensures
        m@ == malformed_text(s@, tail@),
{
    let mut m = String::new();
    push_str(&mut m, "malformed symbology ");
    push_string(&mut m, &debug_str(s));
    push_str(&mut m, tail);
    m
}

const FAMILY_HINT: &'static str = "implemented families: micro, qr (dm and code128 are documented future families, ADR-031 §8)";

impl Symbology {
    /// Parse the canonical compact grammar `<family>[-<version>][-<ec>]`
    /// (case-insensitive, trimmed). Errors name what is wrong.
    pub fn from_str(s: &str) -> (r: Result<Symbology, String>)
        ensures
            match parse_symbology(s@) {
                Some(sym) => r == Ok::<Symbology, String>(sym),
                None => r matches Err(m) && m@ == symbology_error(s@),
            },
    {
        let t = trimmed(s);
        let compact = lowered(&t);
        let segs = split_chars(&compact, '-');
        proof {
            lemma_split_nonempty(compact@, '-');
            assert(views(segs@)[0] == segs@[0]@);
        }
        let head = &segs[0];
        let family = if eq_lit(head, "micro") {
            Family::Micro
        } else if eq_lit(head, "qr") {
            Family::Qr
        } else if eq_lit(head, "dm") || eq_lit(head, "code128") {
            let mut m = String::new();
            push_str(&mut m, "symbology family ");
            let h = string_of(head, 0, head.len());
            assert(h@ =~= head@);
            push_string(&mut m, &debug_str(h.as_str()));
            push_str(&mut m, " is documented but not implemented yet; ");
            push_str(&mut m, FAMILY_HINT);
            return Err(m);
        } else {
            let mut m = String::new();
            push_str(&mut m, "unknown symbology family ");
            let h = string_of(head, 0, head.len());
            assert(h@ =~= head@);
            push_string(&mut m, &debug_str(h.as_str()));
            push_str(&mut m, "; ");
            push_str(&mut m, FAMILY_HINT);
            return Err(m);
        };
        let n_rest = segs.len() - 1;
        let ghost rest = views(segs@).drop_first();
        assert(rest.len() == n_rest);
        if n_rest > 2 {
            return Err(malformed(s, ": expected <family>[-<version>][-<ec>] (e.g. micro, micro-m3-l, qr-v1-m)"));
        }
        let mut version: Option<u8> = None;
        let mut ec: Option<Ec> = None;
        if n_rest >= 1 {
            assert(rest[0] == segs@[1]@);
            let t0 = &segs[1];
            match parse_ec(t0) {
                Some(e) => {
                    if n_rest != 1 {
                        return Err(malformed(s, ": the EC level must come last (<family>[-<version>][-<ec>])"));
                    }
                    ec = Some(e);
                },
                None => {
                    match parse_version(t0, family) {
                        Ok(v) => { version = Some(v); },
                        Err(m) => { return Err(m); },
                    }
                },
            }
        }
        if n_rest == 2 {
            assert(rest[1] == segs@[2]@);
            let t1 = &segs[2];
            match parse_ec(t1) {
                Some(e) => { ec = Some(e); },
                None => {
                    let mut m = malformed(s, ": ");
                    let tok = string_of(t1, 0, t1.len());
                    assert(tok@ =~= t1@);
                    push_string(&mut m, &debug_str(tok.as_str()));
                    push_str(&mut m, " is not an EC level (l, m, q, h)");
                    return Err(m);
                },
            }
        }
        let sym = Symbology { family, version, ec };
        match validate_combination(&sym, s) {
            Ok(()) => Ok(sym),
            Err(m) => Err(m),
        }
    }
}

} // verus!

verus! {

// ------------------------------------------------------------------
// Auto-fit resolution: feasibility is the encoder's verdict
// ------------------------------------------------------------------

/// Whether the encoder accepts `p` at (family, version, EC).
pub open spec fn fits(f: Family, p: Seq<char>, v: u8, e: Ec) -> bool {
    pinned_encoding(p, is_micro(f), v, e) is Ok
}

/// The EC levels tried, strongest first: the pinned one, or the
/// contract-exposed ladder `m`, `l`.
pub open spec fn ec_ladder(s: Symbology) -> Seq<Ec> {
    match s.ec {
        Some(e) => seq![e],
        None => seq![Ec::M, Ec::L],
    }
}

/// Versions `1..=n`, ascending.
pub open spec fn versions_upto(n: u8) -> Seq<u8> {
    Seq::new(n as nat, |i: int| (i + 1) as u8)
}

/// The versions tried: the pinned one, or every version of the family.
pub open spec fn version_ladder(s: Symbology) -> Seq<u8> {
    match s.version {
        Some(v) => seq![v],
        None => versions_upto(max_version(is_micro(s.family))),
    }
}

/// The first version of `vs` the encoder accepts at `e`.
pub open spec fn first_version(f: Family, p: Seq<char>, vs: Seq<u8>, e: Ec) -> Option<u8>
    decreases vs.len(),
{
    if vs.len() == 0 {
        None
    } else if fits(f, p, vs[0], e) {
        Some(vs[0])
    } else {
        first_version(f, p, vs.drop_first(), e)
    }
}

/// The first EC of `es` (in ladder order) at which some version fits,
/// with the smallest such version.
pub open spec fn first_fit(f: Family, p: Seq<char>, es: Seq<Ec>, vs: Seq<u8>) -> Option<(u8, Ec)>
    decreases es.len(),
{
    if es.len() == 0 {
        None
    } else {
        match first_version(f, p, vs, es[0]) {
            Some(v) => Some((v, es[0])),
            None => first_fit(f, p, es.drop_first(), vs),
        }
    }
}

/// The auto-fit choice of a request over a payload.
pub open spec fn auto_fit(s: Symbology, p: Seq<char>) -> Option<(u8, Ec)> {
    first_fit(s.family, p, ec_ladder(s), version_ladder(s))
}

proof fn lemma_first_version(f: Family, p: Seq<char>, vs: Seq<u8>, e: Ec, j: int)
    requires
        0 <= j <= vs.len(),
        forall|k: int| 0 <= k < j ==> !fits(f, p, #[trigger] vs[k], e),
    ensures
        j < vs.len() && fits(f, p, vs[j], e) ==> first_version(f, p, vs, e) == Some(vs[j]),
        j == vs.len() ==> first_version(f, p, vs, e) is None,
    decreases j,
{
    if j > 0 {
        let t = vs.drop_first();
        assert forall|k: int| 0 <= k < j - 1 implies !fits(f, p, #[trigger] t[k], e) by {
            assert(t[k] == vs[k + 1]);
        }
        lemma_first_version(f, p, t, e, j - 1);
        assert(!fits(f, p, vs[0], e));
    }
}

proof fn lemma_first_fit(f: Family, p: Seq<char>, es: Seq<Ec>, vs: Seq<u8>, i: int)
    requires
        0 <= i <= es.len(),
        forall|k: int| 0 <= k < i ==> first_version(f, p, vs, #[trigger] es[k]) is None,
    ensures
        i < es.len() && first_version(f, p, vs, es[i]) is Some
            ==> first_fit(f, p, es, vs) == Some((first_version(f, p, vs, es[i])->0, es[i])),
        i == es.len() ==> first_fit(f, p, es, vs) is None,
    decreases i,
{
    if i > 0 {
        let t = es.drop_first();
        assert forall|k: int| 0 <= k < i - 1 implies first_version(f, p, vs, #[trigger] t[k]) is None by {
            assert(t[k] == es[k + 1]);
        }
        lemma_first_fit(f, p, t, vs, i - 1);
        assert(first_version(f, p, vs, es[0]) is None);
    }
}


/// QR alphanumeric-mode charset (ISO/IEC 18004 table 5).
pub open spec fn qr_alnum_char(c: char) -> bool {
    ('0' <= c && c <= '9') || ('A' <= c && c <= 'Z') || c == ' ' || c == '$' || c == '%'
        || c == '*' || c == '+' || c == '-' || c == '.' || c == '/' || c == ':'
}

pub open spec fn is_qr_alnum_text(p: Seq<char>) -> bool {
    forall|i: int| 0 <= i < p.len() ==> qr_alnum_char(#[trigger] p[i])
}

fn is_qr_alnum(p: &Vec<char>) -> (b: bool)
    ensures
        b == is_qr_alnum_text(p@),
{
    let mut i: usize = 0;
    while i < p.len()
        invariant
            i <= p@.len(),
            forall|j: int| 0 <= j < i ==> qr_alnum_char(#[trigger] p@[j]),
        decreases p.len() - i,
    {
        let c = p[i];
        if !(('0' <= c && c <= '9') || ('A' <= c && c <= 'Z') || c == ' ' || c == '$' || c == '%'
            || c == '*' || c == '+' || c == '-' || c == '.' || c == '/' || c == ':') {
            return false;
        }
        i = i + 1;
    }
    true
}

/// `n` copies of the probe char (`A` keeps alphanumeric mode, `a` forces
/// byte mode).
pub open spec fn probe_text(alnum: bool, n: nat) -> Seq<char> {
    Seq::new(n, |i: int| if alnum { 'A' } else { 'a' })
}

/// The largest probe length below `n + 1` (and at least 1) the pinned
/// combination still encodes.
pub open spec fn capacity_below(f: Family, v: u8, e: Ec, alnum: bool, n: int) -> Option<nat>
    decreases n,
{
    if n < 1 {
        None
    } else if fits(f, probe_text(alnum, n as nat), v, e) {
        Some(n as nat)
    } else {
        capacity_below(f, v, e, alnum, n - 1)
    }
}

proof fn lemma_capacity_bound(f: Family, v: u8, e: Ec, alnum: bool, n: int)
    ensures
        capacity_below(f, v, e, alnum, n) matches Some(c) ==> 1 <= c <= n,
    decreases n,
{
    if n >= 1 && !fits(f, probe_text(alnum, n as nat), v, e) {
        lemma_capacity_bound(f, v, e, alnum, n - 1);
    }
}

fn probe_string(alnum: bool, n: usize) -> (s: String)
    ensures
        s@ == probe_text(alnum, n as nat),
{
    let mut s = String::new();
    let mut i: usize = 0;
    while i < n
        invariant
            i <= n,
            s@ == probe_text(alnum, i as nat),
        decreases n - i,
    {
        push_char(&mut s, if alnum { 'A' } else { 'a' });
        i = i + 1;
        assert(s@ =~= probe_text(alnum, i as nat));
    }
    s
}

/// Largest payload length below `len` the pinned (version, EC) still
/// encodes, probed against the encoder itself.
fn capacity_probe(family: Family, version: u8, ec: Ec, alnum: bool, len: usize) -> (r: Option<usize>)
    ensures
        match capacity_below(family, version, ec, alnum, len - 1) {
            Some(c) => r == Some(c as usize),
            None => r is None,
        },
        r matches Some(c) ==> 1 <= c < len,
        capacity_below(family, version, ec, alnum, len - 1) matches Some(c) ==> c < len,
{
    proof { lemma_capacity_bound(family, version, ec, alnum, len - 1); }
    let mut n: usize = if len == 0 { 0 } else { len - 1 };
    while n >= 1
        invariant
            n <= if len == 0 { 0 } else { len - 1 },
            capacity_below(family, version, ec, alnum, len - 1) == capacity_below(family, version, ec, alnum, n as int),
        decreases n,
    {
        let probe = probe_string(alnum, n);
        let ok = match encode_pinned(probe.as_str(), family, version, ec) {
            Ok(_) => true,
            Err(_) => false,
        };
        if ok {
            return Some(n);
        }
        n = n - 1;
    }
    None
}

/// The family's candidates at one version, `l` before `m`.
pub open spec fn fits_at(f: Family, p: Seq<char>, v: u8) -> Seq<Seq<char>> {
    (if fits(f, p, v, Ec::L) { seq![compact_text(f, v, Ec::L)] } else { Seq::empty() })
        + (if fits(f, p, v, Ec::M) { seq![compact_text(f, v, Ec::M)] } else { Seq::empty() })
}

/// The feasible space on the `l|m` ladder: the smallest version that fits
/// at `l` and one step up, largest version first.
pub open spec fn feasible_list(f: Family, p: Seq<char>) -> Seq<Seq<char>> {
    let max = max_version(is_micro(f));
    match first_version(f, p, versions_upto(max), Ec::L) {
        None => Seq::empty(),
        Some(lo) => {
            let hi = if lo + 1 <= max { (lo + 1) as u8 } else { max };
            if hi == lo { fits_at(f, p, lo) } else { fits_at(f, p, hi) + fits_at(f, p, lo) }
        },
    }
}

fn push_fits_at(out: &mut Vec<String>, family: Family, payload: &str, version: u8)
    requires
        version_ok(family, version),
    ensures
        final(out)@.map_values(|x: String| x@) == old(out)@.map_values(|x: String| x@) + fits_at(family, payload@, version),
{
    let ghost before = out@.map_values(|x: String| x@);
    let l_ok = match encode_pinned(payload, family, version, Ec::L) { Ok(_) => true, Err(_) => false };
    if l_ok {
        out.push(ResolvedSymbology { family, version, ec: Ec::L }.compact());
    }
    let ghost mid = out@.map_values(|x: String| x@);
    assert(mid =~= before + (if fits(family, payload@, version, Ec::L) { seq![compact_text(family, version, Ec::L)] } else { Seq::empty() }));
    let m_ok = match encode_pinned(payload, family, version, Ec::M) { Ok(_) => true, Err(_) => false };
    if m_ok {
        out.push(ResolvedSymbology { family, version, ec: Ec::M }.compact());
    }
    assert(out@.map_values(|x: String| x@) =~= before + fits_at(family, payload@, version));
}

/// The first version in `1..=max` the encoder accepts at `ec`.
fn first_fitting_version(family: Family, payload: &str, ec: Ec) -> (r: Option<u8>)
    ensures
        r == first_version(family, payload@, versions_upto(max_version(is_micro(family))), ec),
{
    let max = family.version_max();
    let ghost vs = versions_upto(max);
    let mut v: u8 = 1;
    while v <= max
        invariant
            max == max_version(is_micro(family)),
            vs == versions_upto(max),
            1 <= v <= max + 1,
            forall|k: int| 0 <= k < v - 1 ==> !fits(family, payload@, #[trigger] vs[k], ec),
        decreases max + 1 - v,
    {
        let ok = match encode_pinned(payload, family, v, ec) { Ok(_) => true, Err(_) => false };
        if ok {
            proof {
                assert(vs[v - 1] == v);
                lemma_first_version(family, payload@, vs, ec, v - 1);
            }
            return Some(v);
        }
        proof { assert(vs[v - 1] == v); }
        v = v + 1;
    }
    proof { lemma_first_version(family, payload@, vs, ec, max as int); }
    None
}

/// The feasible (version, EC) space for this payload.
fn feasible_space(family: Family, payload: &str) -> (r: Vec<String>)
    ensures
        r@.map_values(|x: String| x@) == feasible_list(family, payload@),
{
    let max = family.version_max();
    let mut out: Vec<String> = Vec::new();
    assert(out@.map_values(|x: String| x@) =~= Seq::<Seq<char>>::empty());
    match first_fitting_version(family, payload, Ec::L) {
        None => out,
        Some(lo) => {
            proof {
                lemma_first_version_in(family, payload@, versions_upto(max), Ec::L);
            }
            let hi = if lo < max { lo + 1 } else { max };
            if hi != lo {
                push_fits_at(&mut out, family, payload, hi);
            }
            push_fits_at(&mut out, family, payload, lo);
            assert(out@.map_values(|x: String| x@) =~= feasible_list(family, payload@));
            out
        },
    }
}

proof fn lemma_first_version_in(f: Family, p: Seq<char>, vs: Seq<u8>, e: Ec)
    ensures
        first_version(f, p, vs, e) matches Some(v) ==> vs.contains(v),
    decreases vs.len(),
{
    if vs.len() > 0 && !fits(f, p, vs[0], e) {
        lemma_first_version_in(f, p, vs.drop_first(), e);
        match first_version(f, p, vs.drop_first(), e) {
            Some(v) => {
                let k = choose|k: int| 0 <= k < vs.drop_first().len() && vs.drop_first()[k] == v;
                assert(vs[k + 1] == v);
            },
            None => {},
        }
    } else if vs.len() > 0 {
        assert(vs[0] == vs[0]);
    }
}

/// `items` joined by `sep`.
pub open spec fn join(items: Seq<Seq<char>>, sep: Seq<char>) -> Seq<char>
    decreases items.len(),
{
    if items.len() == 0 {
        Seq::empty()
    } else if items.len() == 1 {
        items[0]
    } else {
        join(items.drop_last(), sep) + sep + items.last()
    }
}

fn join_strings(items: &Vec<String>, sep: &str) -> (r: String)
    ensures
        r@ == join(items@.map_values(|x: String| x@), sep@),
{
    let mut out = String::new();
    let mut i: usize = 0;
    while i < items.len()
        invariant
            i <= items@.len(),
            out@ == join(items@.map_values(|x: String| x@).take(i as int), sep@),
        decreases items.len() - i,
    {
        proof {
            let v = items@.map_values(|x: String| x@);
            assert(v.take(i as int + 1).drop_last() =~= v.take(i as int));
        }
        if i > 0 {
            push_str(&mut out, sep);
        }
        push_string(&mut out, &items[i]);
        i = i + 1;
        proof {
            let v = items@.map_values(|x: String| x@);
            if i == 1 {
                assert(v.take(1) =~= seq![v[0]]);
            }
        }
    }
    assert(items@.map_values(|x: String| x@).take(items@.len() as int) =~= items@.map_values(|x: String| x@));
    out
}

/// The human label of a version: `M4`, `V1`.
pub open spec fn version_label(f: Family, v: u8) -> Seq<char> {
    seq![if f == Family::Micro { 'M' } else { 'V' }] + dec(v as nat)
}

/// The head of the infeasibility message.
pub open spec fn infeasible_head(s: Symbology, p: Seq<char>) -> Seq<char> {
    let alnum = is_qr_alnum_text(p);
    let unit = if alnum { "alnum chars"@ } else { "chars"@ };
    match (s.version, s.ec) {
        (Some(v), Some(e)) => match capacity_below(s.family, v, e, alnum, p.len() - 1) {
            Some(cap) => version_label(s.family, v) + seq!['-', ec_upper(e)] + " caps at "@ + dec(cap) + seq![' '] + unit,
            None => symbology_text(s) + " cannot encode this payload"@ + (match pinned_encoding(p, is_micro(s.family), v, e) {
                Err(t) => " (encode failed: "@ + t + ")"@,
                Ok(_) => Seq::empty(),
            }),
        },
        _ => symbology_text(s) + " cannot hold this "@ + dec(p.len()) + "-char payload ("@ + unit + ")"@,
    }
}

/// The whole infeasibility message: head, then the feasible space (or
/// the family escape hint when nothing fits).
pub open spec fn infeasible_text(s: Symbology, p: Seq<char>) -> Seq<char> {
    let feasible = feasible_list(s.family, p);
    if feasible.len() == 0 {
        infeasible_head(s, p) + (if s.family == Family::Micro {
            "; nothing in the micro family fits — try qr"@
        } else {
            "; nothing in the qr family fits this payload"@
        })
    } else {
        infeasible_head(s, p) + "; feasible for this payload: "@ + join(feasible, ", "@)
    }
}

impl Symbology {
    /// Resolve version/EC against the payload and encode: pinned
    /// parameters are honored; an unpinned EC tries `m` then `l`, an
    /// unpinned version tries the family's versions smallest first.
    /// Infeasible requests error with the feasible space.
    pub fn resolve(&self, payload: &str) -> (r: Result<(ResolvedSymbology, QrMatrix), CodecError>)
        ensures
            match auto_fit(*self, payload@) {
                Some((v, e)) => r matches Ok((rs, m))
                    && rs == (ResolvedSymbology { family: self.family, version: v, ec: e })
                    && pinned_encoding(payload@, is_micro(self.family), v, e) == Ok::<Seq<bool>, Seq<char>>(m.modules@)
                    && m.size == symbol_width(is_micro(self.family), v)
                    && m.micro == is_micro(self.family) && m.wf() && version_ok(self.family, v),
                None => r matches Err(CodecError::Encode(msg)) && msg@ == infeasible_text(*self, payload@),
            },
    {
        let ladder: Vec<Ec> = match self.ec {
            Some(e) => vec![e],
            None => vec![Ec::M, Ec::L],
        };
        let versions: Vec<u8> = match self.version {
            Some(v) => vec![v],
            None => {
                let mut vs: Vec<u8> = Vec::new();
                let max = self.family.version_max();
                let mut v: u8 = 1;
                while v <= max
                    invariant
                        max == max_version(is_micro(self.family)),
                        1 <= v <= max + 1,
                        vs@ == versions_upto(max).take(v - 1),
                    decreases max + 1 - v,
                {
                    vs.push(v);
                    v = v + 1;
                    assert(vs@ =~= versions_upto(max).take(v - 1));
                }
                assert(vs@ =~= versions_upto(max));
                vs
            },
        };
        assert(ladder@ =~= ec_ladder(*self));
        assert(versions@ =~= version_ladder(*self));
        let mut i: usize = 0;
        while i < ladder.len()
            invariant
                ladder@ == ec_ladder(*self),
                versions@ == version_ladder(*self),
                i <= ladder@.len(),
                forall|k: int| 0 <= k < i ==> first_version(self.family, payload@, versions@, #[trigger] ladder@[k]) is None,
            decreases ladder.len() - i,
        {
            let ec = ladder[i];
            let mut j: usize = 0;
            while j < versions.len()
                invariant
                    ladder@ == ec_ladder(*self),
                    versions@ == version_ladder(*self),
                    i < ladder@.len(),
                    ec == ladder@[i as int],
                    j <= versions@.len(),
                    forall|k: int| 0 <= k < i ==> first_version(self.family, payload@, versions@, #[trigger] ladder@[k]) is None,
                    forall|k: int| 0 <= k < j ==> !fits(self.family, payload@, #[trigger] versions@[k], ec),
                decreases versions.len() - j,
            {
                let version = versions[j];
                proof {
                    if self.version is None {
                        assert(versions@[j as int] == (j + 1) as u8);
                    }
                }
                match encode_pinned(payload, self.family, version, ec) {
                    Ok(matrix) => {
                        proof {
                            lemma_first_version(self.family, payload@, versions@, ec, j as int);
                            lemma_first_fit(self.family, payload@, ladder@, versions@, i as int);
                        }
                        return Ok((ResolvedSymbology { family: self.family, version, ec }, matrix));
                    },
                    Err(_) => {},
                }
                j = j + 1;
            }
            proof { lemma_first_version(self.family, payload@, versions@, ec, j as int); }
            i = i + 1;
        }
        proof { lemma_first_fit(self.family, payload@, ladder@, versions@, i as int); }
        Err(CodecError::Encode(self.infeasible_message(payload)))
    }

    fn infeasible_message(&self, payload: &str) -> (m: String)
        ensures
            m@ == infeasible_text(*self, payload@),
    {
        let cs = to_chars(payload);
        let len = cs.len();
        let alnum = is_qr_alnum(&cs);
        let unit = if alnum { "alnum chars" } else { "chars" };
        let mut head = String::new();
        match (self.version, self.ec) {
            (Some(v), Some(e)) => {
                match capacity_probe(self.family, v, e, alnum, len) {
                    Some(cap) => {
                        assert(cap < len);
                        push_char(&mut head, if self.family == Family::Micro { 'M' } else { 'V' });
                        push_dec(&mut head, v as u128);
                        assert(head@ =~= version_label(self.family, v));
                        push_char(&mut head, '-');
                        push_char(&mut head, ec_char_upper(e));
                        push_str(&mut head, " caps at ");
                        push_dec(&mut head, cap as u128);
                        push_char(&mut head, ' ');
                        push_str(&mut head, unit);
                        proof {
                            let alnum_s = is_qr_alnum_text(payload@);
                            let c = capacity_below(self.family, v, e, alnum_s, payload@.len() - 1);
                            assert(c == Some(cap as nat));
                            assert(head@ =~= version_label(self.family, v) + seq!['-', ec_upper(e)] + " caps at "@ + dec(cap as nat) + seq![' '] + (if alnum_s { "alnum chars"@ } else { "chars"@ }));
                        }
                        assert(head@ =~= infeasible_head(*self, payload@));
                    },
                    None => {
                        push_string(&mut head, &self.to_text());
                        push_str(&mut head, " cannot encode this payload");
                        match encode_pinned(payload, self.family, v, e) {
                            Err(CodecError::Encode(t)) => {
                                push_str(&mut head, " (encode failed: ");
                                push_string(&mut head, &t);
                                push_str(&mut head, ")");
                            },
                            _ => {},
                        }
                        assert(head@ =~= infeasible_head(*self, payload@));
                    },
                }
            },
            _ => {
                push_string(&mut head, &self.to_text());
                push_str(&mut head, " cannot hold this ");
                push_dec(&mut head, len as u128);
                push_str(&mut head, "-char payload (");
                push_str(&mut head, unit);
                push_str(&mut head, ")");
                assert(head@ =~= infeasible_head(*self, payload@));
            },
        }
        assert(head@ =~= infeasible_head(*self, payload@));
        let feasible = feasible_space(self.family, payload);
        if feasible.len() == 0 {
            let escape = match self.family {
                Family::Micro => "; nothing in the micro family fits — try qr",
                Family::Qr => "; nothing in the qr family fits this payload",
            };
            push_str(&mut head, escape);
        } else {
            push_str(&mut head, "; feasible for this payload: ");
            push_string(&mut head, &join_strings(&feasible, ", "));
        }
        head
    }
}

} // verus!

verus! {

impl core::str::FromStr for Symbology {
    type Err = String;

    fn from_str(s: &str) -> Result<Symbology, String> {
        Symbology::from_str(s)
    }
}


/// Law: the compact text of a resolved symbology parses back to that
/// symbology, pinned at its version and EC level.
pub proof fn law_compact_parses_back(f: Family, v: u8, e: Ec)
    requires
        version_ok(f, v),
        combination_ok(f, Some(v), Some(e)),
    ensures
        parse_symbology(compact_text(f, v, e)) == Some(Symbology { family: f, version: Some(v), ec: Some(e) }),
{
    reveal_strlit("micro");
    reveal_strlit("qr");
    reveal_strlit("l");
    reveal_strlit("m");
    reveal_strlit("q");
    reveal_strlit("h");
    crate::payload::lemma_dec_digits(v as nat);
    let fam = family_name(f);
    let d = dec(v as nat);
    let pv = seq![version_prefix(f)] + d;
    let el = seq![ec_letter(e)];
    let t = compact_text(f, v, e);
    assert(t =~= fam + seq!['-'] + pv + seq!['-'] + el);
    // no white space at either end, nothing to lower
    assert(!crate::text::is_white_space(t[0]));
    assert(!crate::text::is_white_space(t[t.len() - 1]));
    crate::text::lemma_lead_ws(t, 0);
    crate::text::lemma_trail_ws(t, 0);
    assert(trim(t) =~= t);
    assert forall|i: int| 0 <= i < t.len() implies crate::text::lower_char(#[trigger] t[i]) == t[i] by {
        assert(!('A' <= t[i] && t[i] <= 'Z')) by {
            if i < fam.len() {
                assert(t[i] == fam[i]);
            } else if i == fam.len() || i == fam.len() + 1 {
            } else if i < fam.len() + 1 + pv.len() {
                assert(t[i] == pv[i - fam.len() - 1]);
                assert(pv[i - fam.len() - 1] == d[i - fam.len() - 2]);
                assert(crate::text::is_digit(d[i - fam.len() - 2]));
            } else if i == fam.len() + 1 + pv.len() {
            } else {
                assert(t[i] == ec_letter(e));
            }
        }
    }
    assert(lower(t) =~= t);
    // the three fields
    assert forall|i: int| 0 <= i < fam.len() implies fam[i] != '-' by {}
    assert forall|i: int| 0 <= i < pv.len() implies pv[i] != '-' by {
        if i > 0 {
            assert(pv[i] == d[i - 1]);
            assert(crate::text::is_digit(d[i - 1]));
        }
    }
    assert forall|i: int| 0 <= i < el.len() implies el[i] != '-' by {}
    crate::text::lemma_split_single(fam, '-');
    crate::text::lemma_split_append(fam, '-', pv);
    crate::text::lemma_split_append(fam + seq!['-'] + pv, '-', el);
    let segs = split_by(lower(trim(t)), '-');
    assert(segs == seq![fam, pv, el]);
    let rest = segs.drop_first();
    assert(rest =~= seq![pv, el]);
    assert(ec_token(rest[0]) is None) by {
        assert(pv.len() >= 2);
    }
    assert(ec_token(rest[1]) == Some(e));
    assert(pv.drop_first() =~= d);
    assert(d[0] != '+') by { assert(crate::text::is_digit(d[0])); }
    assert(parse_uint(d, 255) == Some(v as nat));
    assert(version_token(rest[0], f) == Some(v));
}

} // verus!
