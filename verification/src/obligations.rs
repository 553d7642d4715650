//! The ADR obligations audit: classifies the rows of the obligations
//! registry against the ADR files on disk, and renders the feeder JSON.
//!
//! The registry's rows are read by `registry`; listing `decisions/` and
//! resolving `satisfied_by` paths against the filesystem happen outside.
//! This module receives the rows (each carrying whether each of its paths
//! resolved), the ADR ids found on disk and today's date, and decides
//! everything else.

use crate::text::{push_char, push_str, push_string, to_chars, eq_lit};
use crate::textset::{TextSet, text_lt, text_less, texts};
use vstd::prelude::*;

verus! {

/// What a feeder row cites: a single path or pointer, a list of paths, or
/// nothing.
#[derive(Debug, Clone, PartialEq)]
pub enum Citation {
    Null,
    Str(String),
    List(Vec<String>),
}

/// The model of a [`Citation`].
pub enum CitationV {
    Null,
    Str(Seq<char>),
    List(Seq<Seq<char>>),
}

impl View for Citation {
    type V = CitationV;

    open spec fn view(&self) -> CitationV {
        match self {
            Citation::Null => CitationV::Null,
            Citation::Str(s) => CitationV::Str(s@),
            Citation::List(v) => CitationV::List(texts(v@)),
        }
    }
}

/// One feeder row for the coverage joiner.
#[derive(Debug, Clone)]
pub struct FeederRow {
    pub obligation: String,
    pub satisfied: bool,
    pub citation: Citation,
    pub exempt_until: Option<String>,
}

/// The model of a [`FeederRow`].
pub struct FeederV {
    pub obligation: Seq<char>,
    pub satisfied: bool,
    pub citation: CitationV,
    pub exempt_until: Option<Seq<char>>,
}

/// An optional string by its text.
pub open spec fn ov(o: Option<String>) -> Option<Seq<char>> {
    match o {
        Some(s) => Some(s@),
        None => None,
    }
}

impl View for FeederRow {
    type V = FeederV;

    open spec fn view(&self) -> FeederV {
        FeederV {
            obligation: self.obligation@,
            satisfied: self.satisfied,
            citation: self.citation@,
            exempt_until: ov(self.exempt_until),
        }
    }
}

/// The models of a sequence of feeder rows.
pub open spec fn feeder_views(v: Seq<FeederRow>) -> Seq<FeederV> {
    v.map_values(|f: FeederRow| f@)
}

// ---------------------------------------------------------------------
// JSON text, as Python's `json.dumps(.., indent=2)` writes it
// ---------------------------------------------------------------------

/// Lower-case hexadecimal digit.
pub open spec fn hex_digit(d: nat) -> char {
    if d < 10 {
        ('0' as u32 + d) as char
    } else {
        ('a' as u32 + (d - 10)) as char
    }
}

/// `\uXXXX` for a 16-bit unit `n`, lower-case hex.
pub open spec fn u_escape(n: nat) -> Seq<char> {
    seq!['\\', 'u', hex_digit(n / 4096 % 16), hex_digit(n / 256 % 16), hex_digit(n / 16 % 16), hex_digit(n % 16)]
}

/// One character inside a JSON string literal with ASCII-only output:
/// the short escapes, `\u00XX` for other controls, the character itself
/// for the rest of ASCII, and UTF-16 units beyond (a surrogate pair above
/// the basic plane).
pub open spec fn json_char(c: char) -> Seq<char> {
    let n = c as u32;
    if c == '"' {
        seq!['\\', '"']
    } else if c == '\\' {
        seq!['\\', '\\']
    } else if c == '\n' {
        seq!['\\', 'n']
    } else if c == '\r' {
        seq!['\\', 'r']
    } else if c == '\t' {
        seq!['\\', 't']
    } else if n == 8 {
        seq!['\\', 'b']
    } else if n == 12 {
        seq!['\\', 'f']
    } else if n < 0x20 {
        u_escape(n as nat)
    } else if n < 0x80 {
        seq![c]
    } else if n < 0x10000 {
        u_escape(n as nat)
    } else {
        u_escape((0xD800 + (n - 0x10000) / 1024) as nat) + u_escape((0xDC00 + (n - 0x10000) % 1024) as nat)
    }
}

/// The escaped body of a JSON string literal.
pub open spec fn json_body(s: Seq<char>) -> Seq<char>
    decreases s.len(),
{
    if s.len() == 0 {
        Seq::empty()
    } else {
        json_body(s.drop_last()) + json_char(s.last())
    }
}

/// A JSON string literal.
pub open spec fn json_text(s: Seq<char>) -> Seq<char> {
    seq!['"'] + json_body(s) + seq!['"']
}

fn hex_char(d: u32) -> (c: char)
    requires
        d < 16,
    ensures
        c == hex_digit(d as nat),
{
    if d == 0 { '0' } else if d == 1 { '1' } else if d == 2 { '2' } else if d == 3 { '3' }
    else if d == 4 { '4' } else if d == 5 { '5' } else if d == 6 { '6' } else if d == 7 { '7' }
    else if d == 8 { '8' } else if d == 9 { '9' } else if d == 10 { 'a' } else if d == 11 { 'b' }
    else if d == 12 { 'c' } else if d == 13 { 'd' } else if d == 14 { 'e' } else { 'f' }
}

fn push_u_escape(out: &mut String, n: u32)
    requires
        n < 0x10000,
    ensures
        final(out)@ == old(out)@ + u_escape(n as nat),
{
    push_char(out, '\\');
    push_char(out, 'u');
    push_char(out, hex_char(n / 4096 % 16));
    push_char(out, hex_char(n / 256 % 16));
    push_char(out, hex_char(n / 16 % 16));
    push_char(out, hex_char(n % 16));
    assert(final(out)@ =~= old(out)@ + u_escape(n as nat));
}

fn push_json_char(out: &mut String, c: char)
    ensures
        final(out)@ == old(out)@ + json_char(c),
{
    let n = c as u32;
    if c == '"' {
        push_char(out, '\\');
        push_char(out, '"');
    } else if c == '\\' {
        push_char(out, '\\');
        push_char(out, '\\');
    } else if c == '\n' {
        push_char(out, '\\');
        push_char(out, 'n');
    } else if c == '\r' {
        push_char(out, '\\');
        push_char(out, 'r');
    } else if c == '\t' {
        push_char(out, '\\');
        push_char(out, 't');
    } else if n == 8 {
        push_char(out, '\\');
        push_char(out, 'b');
    } else if n == 12 {
        push_char(out, '\\');
        push_char(out, 'f');
    } else if n < 0x20 {
        push_u_escape(out, n);
    } else if n < 0x80 {
        push_char(out, c);
    } else if n < 0x10000 {
        push_u_escape(out, n);
    } else {
        proof {
            vstd::utf8::char_is_scalar(c);
        }
        assert(n <= 0x10FFFF) by {
            vstd::utf8::char_is_scalar(c);
        }
        push_u_escape(out, 0xD800 + (n - 0x10000) / 1024);
        push_u_escape(out, 0xDC00 + (n - 0x10000) % 1024);
    }
    assert(final(out)@ =~= old(out)@ + json_char(c));
}

/// JSON string literal of `s` with `ensure_ascii` escaping: quotes and
/// backslashes escaped, controls as short or `\u00XX` escapes, non-ASCII
/// as `\uXXXX` UTF-16 units.
pub fn json_str(s: &str) -> (r: String)
    ensures
        r@ == json_text(s@),
{
    let cs = to_chars(s);
    let mut out = String::new();
    push_char(&mut out, '"');
    let mut i: usize = 0;
    while i < cs.len()
        invariant
            i <= cs@.len(),
            cs@ == s@,
            out@ == seq!['"'] + json_body(cs@.take(i as int)),
        decreases cs.len() - i,
    {
        push_json_char(&mut out, cs[i]);
        assert(cs@.take(i + 1).drop_last() =~= cs@.take(i as int));
        i = i + 1;
    }
    push_char(&mut out, '"');
    assert(cs@.take(i as int) =~= s@);
    out
}

/// `true` / `false` as JSON writes them.
pub open spec fn bool_text(b: bool) -> Seq<char> {
    if b { "true"@ } else { "false"@ }
}

/// The lines of a non-empty citation list, each item on its own line,
/// comma-separated.
pub open spec fn list_lines(items: Seq<Seq<char>>, k: int) -> Seq<char>
    decreases k,
{
    if k <= 0 {
        Seq::empty()
    } else {
        list_lines(items, k - 1) + "      "@ + json_text(items[k - 1])
            + (if k < items.len() { ","@ } else { Seq::empty() }) + "\n"@
    }
}

/// The `citation` member of a feeder entry.
pub open spec fn citation_text(c: CitationV) -> Seq<char> {
    match c {
        CitationV::Null => "    \"citation\": null,\n"@,
        CitationV::Str(s) => "    \"citation\": "@ + json_text(s) + ",\n"@,
        CitationV::List(items) => if items.len() == 0 {
            "    \"citation\": [],\n"@
        } else {
            "    \"citation\": [\n"@ + list_lines(items, items.len() as int) + "    ],\n"@
        },
    }
}

/// The `exempt_until` member of a feeder entry (the last one).
pub open spec fn exempt_text(e: Option<Seq<char>>) -> Seq<char> {
    match e {
        None => "    \"exempt_until\": null\n"@,
        Some(d) => "    \"exempt_until\": "@ + json_text(d) + "\n"@,
    }
}

/// The opening of a feeder entry, through its `satisfied` member.
pub open spec fn head_text(f: FeederV) -> Seq<char> {
    "  {\n"@ + "    \"dimension\": \"adr-obligation\",\n"@ + "    \"obligation\": "@
        + json_text(f.obligation) + ",\n"@ + "    \"satisfied\": "@ + bool_text(f.satisfied) + ",\n"@
}

/// One feeder entry, with a trailing comma unless it is the last.
pub open spec fn entry_text(f: FeederV, last: bool) -> Seq<char> {
    head_text(f) + citation_text(f.citation) + exempt_text(f.exempt_until)
        + (if last { "  }\n"@ } else { "  },\n"@ })
}

/// The first `k` entries of `rows`.
pub open spec fn entries_text(rows: Seq<FeederV>, k: int) -> Seq<char>
    decreases k,
{
    if k <= 0 {
        Seq::empty()
    } else {
        entries_text(rows, k - 1) + entry_text(rows[k - 1], k == rows.len())
    }
}

/// The feeder document: `[]` when empty, else the entries in brackets.
pub open spec fn feeder_text(rows: Seq<FeederV>) -> Seq<char> {
    if rows.len() == 0 {
        "[]"@
    } else {
        "[\n"@ + entries_text(rows, rows.len() as int) + "]"@
    }
}

fn push_citation(out: &mut String, c: &Citation)
    ensures
        final(out)@ == old(out)@ + citation_text(c@),
{
    match c {
        Citation::Null => {
            push_str(out, "    \"citation\": null,\n");
        },
        Citation::Str(s) => {
            push_str(out, "    \"citation\": ");
            let j = json_str(s.as_str());
            push_string(out, &j);
            push_str(out, ",\n");
            assert(final(out)@ =~= old(out)@ + citation_text(c@));
        },
        Citation::List(items) => {
            if items.len() == 0 {
                push_str(out, "    \"citation\": [],\n");
            } else {
                push_str(out, "    \"citation\": [\n");
                let ghost start = out@;
                let ghost its = texts(items@);
                let mut j: usize = 0;
                while j < items.len()
                    invariant
                        j <= items@.len(),
                        its == texts(items@),
                        out@ == start + list_lines(its, j as int),
                    decreases items.len() - j,
                {
                    push_str(out, "      ");
                    let t = json_str(items[j].as_str());
                    push_string(out, &t);
                    if j + 1 < items.len() {
                        push_str(out, ",");
                    }
                    push_str(out, "\n");
                    proof {
                        let k = j + 1;
                        if k < its.len() {
                            assert(list_lines(its, k as int) =~= list_lines(its, j as int) + "      "@
                                + json_text(its[j as int]) + ","@ + "\n"@);
                        } else {
                            assert(list_lines(its, k as int) =~= list_lines(its, j as int) + "      "@
                                + json_text(its[j as int]) + Seq::<char>::empty() + "\n"@);
                        }
                    }
                    j = j + 1;
                }
                push_str(out, "    ],\n");
                assert(final(out)@ =~= old(out)@ + citation_text(c@));
            }
        },
    }
}

fn push_head(out: &mut String, f: &FeederRow)
    ensures
        final(out)@ == old(out)@ + head_text(f@),
{
    push_str(out, "  {\n");
    push_str(out, "    \"dimension\": \"adr-obligation\",\n");
    push_str(out, "    \"obligation\": ");
    let o = json_str(f.obligation.as_str());
    push_string(out, &o);
    push_str(out, ",\n");
    push_str(out, "    \"satisfied\": ");
    if f.satisfied {
        push_str(out, "true");
    } else {
        push_str(out, "false");
    }
    push_str(out, ",\n");
    assert(final(out)@ =~= old(out)@ + head_text(f@));
}

fn push_exempt(out: &mut String, e: &Option<String>)
    ensures
        final(out)@ == old(out)@ + exempt_text(ov(*e)),
{
    match e {
        None => {
            push_str(out, "    \"exempt_until\": null\n");
        },
        Some(d) => {
            push_str(out, "    \"exempt_until\": ");
            let t = json_str(d.as_str());
            push_string(out, &t);
            push_str(out, "\n");
            assert(final(out)@ =~= old(out)@ + exempt_text(ov(*e)));
        },
    }
}

fn push_entry(out: &mut String, f: &FeederRow, last: bool)
    ensures
        final(out)@ == old(out)@ + entry_text(f@, last),
{
    push_head(out, f);
    push_citation(out, &f.citation);
    push_exempt(out, &f.exempt_until);
    if last {
        push_str(out, "  }\n");
    } else {
        push_str(out, "  },\n");
    }
    assert(final(out)@ =~= old(out)@ + entry_text(f@, last));
}

/// The feeder JSON for `feeder`, byte for byte what Python's
/// `json.dumps(feeder, indent=2)` writes: insertion-ordered keys, ASCII-only
/// escaping, two-space indent.
pub fn feeder_json(feeder: &[FeederRow]) -> (r: String)
    ensures
        r@ == feeder_text(feeder_views(feeder@)),
{
    let ghost rows = feeder_views(feeder@);
    if feeder.len() == 0 {
        return "[]".to_owned();
    }
    let mut out = String::new();
    push_str(&mut out, "[\n");
    let ghost start = out@;
    let mut i: usize = 0;
    while i < feeder.len()
        invariant
            i <= feeder@.len(),
            rows == feeder_views(feeder@),
            out@ == start + entries_text(rows, i as int),
        decreases feeder.len() - i,
    {
        let last = i + 1 == feeder.len();
        push_entry(&mut out, &feeder[i], last);
        assert(rows[i as int] == feeder@[i as int]@);
        assert(entries_text(rows, i + 1) == entries_text(rows, i as int) + entry_text(rows[i as int], last));
        i = i + 1;
    }
    push_str(&mut out, "]");
    assert(out@ =~= feeder_text(rows));
    out
}

// ---------------------------------------------------------------------
// The registry rows and their classification
// ---------------------------------------------------------------------

/// One `[[obligation]]` row, as the audit reads it. A field that is absent
/// or not a string reads `None`.
#[derive(Debug, Clone)]
pub struct ObligationRow {
    pub id: Option<String>,
    pub adr: Option<String>,
    pub kind: Option<String>,
    /// `kind` as a message shows it: the string itself, the TOML rendering
    /// of another value, or `None` when absent.
    pub kind_shown: String,
    pub statement: Option<String>,
    pub status: Option<String>,
    /// `status` as a message shows it, like `kind_shown`.
    pub status_shown: String,
    /// The `satisfied_by` paths: one string, a list (a non-string item in
    /// its TOML rendering), or `Null` when absent or of another type.
    pub satisfied_by: Citation,
    /// For each `satisfied_by` path in order, whether it resolves (as a
    /// path, or else as a glob) under the repository root.
    pub resolved: Vec<bool>,
    pub tracking: Option<String>,
    pub exempt_until: Option<String>,
    pub exempt_reason: Option<String>,
}

/// What one audit run finds.
#[derive(Debug)]
pub struct Outcome {
    pub missing: Vec<String>,
    pub orphan: Vec<String>,
    pub expired: Vec<String>,
    pub pending: Vec<String>,
    pub feeder: Vec<FeederRow>,
    pub total: usize,
    pub in_force: usize,
}

/// The row's id, or `<no-id>`.
pub open spec fn row_id(r: ObligationRow) -> Seq<char> {
    match r.id {
        Some(s) => s@,
        None => "<no-id>"@,
    }
}

/// Present and non-empty.
pub open spec fn filled(o: Option<String>) -> bool {
    match o {
        Some(s) => s@.len() > 0,
        None => false,
    }
}

/// Present and equal to `t`.
pub open spec fn is_text(o: Option<String>, t: Seq<char>) -> bool {
    match o {
        Some(s) => s@ == t,
        None => false,
    }
}

/// One of the recognised obligation kinds.
pub open spec fn valid_kind(k: Option<String>) -> bool {
    ||| is_text(k, "artifact"@)
    ||| is_text(k, "ci"@)
    ||| is_text(k, "crate"@)
    ||| is_text(k, "doc"@)
    ||| is_text(k, "gate"@)
    ||| is_text(k, "issue"@)
    ||| is_text(k, "test"@)
}

/// The recognised kinds, as the messages list them.
pub open spec fn kind_list() -> Seq<char> {
    "['artifact', 'ci', 'crate', 'doc', 'gate', 'issue', 'test']"@
}

/// The recognised statuses, as the messages list them.
pub open spec fn status_list() -> Seq<char> {
    "['exempt', 'pending', 'satisfied']"@
}

/// The paths a `satisfied_by` value names.
pub open spec fn sb_paths(c: Citation) -> Seq<Seq<char>> {
    match c {
        Citation::Null => Seq::empty(),
        Citation::Str(s) => seq![s@],
        Citation::List(v) => texts(v@),
    }
}

/// The first `k` paths whose flag is false, in order.
pub open spec fn unresolved(paths: Seq<Seq<char>>, ok: Seq<bool>, k: int) -> Seq<Seq<char>>
    decreases k,
{
    if k <= 0 {
        Seq::empty()
    } else {
        unresolved(paths, ok, k - 1) + (if ok[k - 1] { Seq::empty() } else { seq![paths[k - 1]] })
    }
}

/// The row's `satisfied_by` paths that do not resolve.
pub open spec fn unresolved_of(r: ObligationRow) -> Seq<Seq<char>> {
    unresolved(sb_paths(r.satisfied_by), r.resolved@, sb_paths(r.satisfied_by).len() as int)
}

/// One character of a Python string repr in single quotes.
pub open spec fn py_char(c: char) -> Seq<char> {
    if c == '\\' {
        seq!['\\', '\\']
    } else if c == '\'' {
        seq!['\\', '\'']
    } else {
        seq![c]
    }
}

/// The escaped body of a single-quoted Python string repr.
pub open spec fn py_escape(s: Seq<char>) -> Seq<char>
    decreases s.len(),
{
    if s.len() == 0 {
        Seq::empty()
    } else {
        py_escape(s.drop_last()) + py_char(s.last())
    }
}

/// The first `k` items, quoted and comma-separated.
pub open spec fn py_items(items: Seq<Seq<char>>, k: int) -> Seq<char>
    decreases k,
{
    if k <= 0 {
        Seq::empty()
    } else {
        py_items(items, k - 1) + (if k > 1 { ", "@ } else { Seq::empty() }) + seq!['\'']
            + py_escape(items[k - 1]) + seq!['\'']
    }
}

/// Python's repr of a list of strings: `['a', 'b']`.
pub open spec fn py_list(items: Seq<Seq<char>>) -> Seq<char> {
    seq!['['] + py_items(items, items.len() as int) + seq![']']
}

/// What a row's status is missing, if anything.
pub open spec fn status_problem(r: ObligationRow) -> Seq<Seq<char>> {
    let id = row_id(r);
    if is_text(r.status, "satisfied"@) {
        if sb_paths(r.satisfied_by).len() == 0 {
            seq![id + ": status=satisfied requires 'satisfied_by'"@]
        } else if unresolved_of(r).len() > 0 {
            seq![id + ": satisfied_by does not resolve: "@ + py_list(unresolved_of(r))]
        } else {
            Seq::empty()
        }
    } else if is_text(r.status, "pending"@) {
        if filled(r.tracking) {
            Seq::empty()
        } else {
            seq![id + ": status=pending requires 'tracking'"@]
        }
    } else if is_text(r.status, "exempt"@) {
        if filled(r.exempt_until) && filled(r.exempt_reason) {
            Seq::empty()
        } else {
            seq![id + ": status=exempt requires 'exempt_until' + 'exempt_reason'"@]
        }
    } else {
        seq![id + ": status '"@ + r.status_shown@ + "' not in "@ + status_list()]
    }
}

/// The schema problems of one row, in the order the audit reports them;
/// `dup` says whether an earlier row has the same id.
pub open spec fn row_missing(r: ObligationRow, dup: bool) -> Seq<Seq<char>> {
    let id = row_id(r);
    (if dup { seq![id + ": duplicate id"@] } else { Seq::empty() })
        + (if r.adr is None { seq![id + ": missing 'adr'"@] } else { Seq::empty() })
        + (if !valid_kind(r.kind) {
            seq![id + ": kind '"@ + r.kind_shown@ + "' not in "@ + kind_list()]
        } else {
            Seq::empty()
        })
        + (if !filled(r.statement) { seq![id + ": missing 'statement'"@] } else { Seq::empty() })
        + status_problem(r)
}

/// A row naming an ADR that has no file.
pub open spec fn row_orphan(r: ObligationRow, on_disk: Seq<Seq<char>>) -> Seq<Seq<char>> {
    match r.adr {
        Some(a) => if on_disk.contains(a@) {
            Seq::empty()
        } else {
            seq![row_id(r) + ": references "@ + a@ + " but no decisions/"@ + a@ + "-*.md exists"@]
        },
        None => Seq::empty(),
    }
}

/// A complete exemption whose date lies before `today` (ISO dates order as
/// texts).
pub open spec fn row_expired(r: ObligationRow, today: Seq<char>) -> Seq<Seq<char>> {
    if is_text(r.status, "exempt"@) && filled(r.exempt_until) && filled(r.exempt_reason)
        && text_lt(r.exempt_until->0@, today) {
        seq![row_id(r) + ": exemption expired "@ + r.exempt_until->0@ + " ("@ + r.exempt_reason->0@ + ")"@]
    } else {
        Seq::empty()
    }
}

/// A tracked pending row.
pub open spec fn row_pending(r: ObligationRow) -> Seq<Seq<char>> {
    if is_text(r.status, "pending"@) && filled(r.tracking) {
        seq![row_id(r) + ": "@ + r.tracking->0@]
    } else {
        Seq::empty()
    }
}

/// What the row's feeder entry cites.
pub open spec fn row_citation(r: ObligationRow) -> CitationV {
    if is_text(r.status, "satisfied"@) {
        r.satisfied_by@
    } else if is_text(r.status, "pending"@) {
        if filled(r.tracking) { CitationV::Str(r.tracking->0@) } else { CitationV::Null }
    } else if is_text(r.status, "exempt"@) {
        CitationV::Str("exempt until "@ + match r.exempt_until {
            Some(u) => u@,
            None => "None"@,
        })
    } else {
        CitationV::Null
    }
}

/// A satisfied row whose paths all resolve.
pub open spec fn row_satisfied(r: ObligationRow) -> bool {
    is_text(r.status, "satisfied"@) && sb_paths(r.satisfied_by).len() > 0 && unresolved_of(r).len() == 0
}

/// The row's feeder entry.
pub open spec fn row_feeder(r: ObligationRow) -> FeederV {
    FeederV {
        obligation: row_id(r),
        satisfied: row_satisfied(r),
        citation: row_citation(r),
        exempt_until: ov(r.exempt_until),
    }
}

/// An earlier row has the same id.
pub open spec fn is_dup(rows: Seq<ObligationRow>, i: int) -> bool {
    exists|j: int| 0 <= j < i && #[trigger] row_id(rows[j]) == row_id(rows[i])
}

/// Schema problems of the first `k` rows.
pub open spec fn missing_upto(rows: Seq<ObligationRow>, k: int) -> Seq<Seq<char>>
    decreases k,
{
    if k <= 0 {
        Seq::empty()
    } else {
        missing_upto(rows, k - 1) + row_missing(rows[k - 1], is_dup(rows, k - 1))
    }
}

/// Orphan references of the first `k` rows.
pub open spec fn orphans_upto(rows: Seq<ObligationRow>, k: int, on_disk: Seq<Seq<char>>) -> Seq<Seq<char>>
    decreases k,
{
    if k <= 0 {
        Seq::empty()
    } else {
        orphans_upto(rows, k - 1, on_disk) + row_orphan(rows[k - 1], on_disk)
    }
}

/// Expired exemptions among the first `k` rows.
pub open spec fn expired_upto(rows: Seq<ObligationRow>, k: int, today: Seq<char>) -> Seq<Seq<char>>
    decreases k,
{
    if k <= 0 {
        Seq::empty()
    } else {
        expired_upto(rows, k - 1, today) + row_expired(rows[k - 1], today)
    }
}

/// Pending rows among the first `k`.
pub open spec fn pending_upto(rows: Seq<ObligationRow>, k: int) -> Seq<Seq<char>>
    decreases k,
{
    if k <= 0 {
        Seq::empty()
    } else {
        pending_upto(rows, k - 1) + row_pending(rows[k - 1])
    }
}

/// Feeder entries of the first `k` rows.
pub open spec fn feeder_upto(rows: Seq<ObligationRow>, k: int) -> Seq<FeederV>
    decreases k,
{
    if k <= 0 {
        Seq::empty()
    } else {
        feeder_upto(rows, k - 1).push(row_feeder(rows[k - 1]))
    }
}

/// Some row references ADR `a`.
pub open spec fn covered(rows: Seq<ObligationRow>, a: Seq<char>) -> bool {
    exists|j: int| 0 <= j < rows.len() && #[trigger] is_text(rows[j].adr, a)
}

/// Among the first `k` ADRs on disk, those neither excluded nor referenced.
pub open spec fn uncovered_upto(
    on_disk: Seq<Seq<char>>,
    k: int,
    excluded: Seq<Seq<char>>,
    rows: Seq<ObligationRow>,
) -> Seq<Seq<char>>
    decreases k,
{
    if k <= 0 {
        Seq::empty()
    } else {
        let a = on_disk[k - 1];
        uncovered_upto(on_disk, k - 1, excluded, rows) + (if !excluded.contains(a) && !covered(rows, a) {
            seq![uncovered_msg(a)]
        } else {
            Seq::empty()
        })
    }
}

/// Among the first `k` excluded ADRs, those with no file.
pub open spec fn stale_upto(excluded: Seq<Seq<char>>, k: int, on_disk: Seq<Seq<char>>) -> Seq<Seq<char>>
    decreases k,
{
    if k <= 0 {
        Seq::empty()
    } else {
        let a = excluded[k - 1];
        stale_upto(excluded, k - 1, on_disk) + (if !on_disk.contains(a) {
            seq!["[meta].excluded "@ + a + ": no such ADR file"@]
        } else {
            Seq::empty()
        })
    }
}

// --- executable pieces ---

fn is_lit(o: &Option<String>, lit: &str) -> (r: bool)
    ensures
        r == is_text(*o, lit@),
{
    match o {
        Some(s) => eq_lit(&to_chars(s.as_str()), lit),
        None => false,
    }
}

fn is_filled(o: &Option<String>) -> (r: bool)
    ensures
        r == filled(*o),
{
    match o {
        Some(s) => s.as_str().unicode_len() > 0,
        None => false,
    }
}

pub(crate) fn copy_opt(o: &Option<String>) -> (r: Option<String>)
    ensures
        ov(r) == ov(*o),
{
    match o {
        Some(s) => Some(s.clone()),
        None => None,
    }
}

pub(crate) fn copy_texts(v: &Vec<String>) -> (r: Vec<String>)
    ensures
        texts(r@) == texts(v@),
{
    let mut out: Vec<String> = Vec::new();
    let mut i: usize = 0;
    while i < v.len()
        invariant
            i <= v@.len(),
            texts(out@) == texts(v@).take(i as int),
        decreases v.len() - i,
    {
        let ghost before = out@;
        let c = v[i].clone();
        out.push(c);
        proof {
            crate::textset::lemma_texts_push(before, c);
        }
        assert(texts(out@) =~= texts(v@).take(i + 1));
        i = i + 1;
    }
    assert(texts(v@).take(i as int) =~= texts(v@));
    out
}

/// Whether `v` holds a string equal to `s`.
pub(crate) fn holds(v: &Vec<String>, s: &String) -> (r: bool)
    ensures
        r == texts(v@).contains(s@),
{
    let mut i: usize = 0;
    while i < v.len()
        invariant
            i <= v@.len(),
            forall|j: int| 0 <= j < i ==> texts(v@)[j] != s@,
        decreases v.len() - i,
    {
        if v[i] == *s {
            assert(texts(v@)[i as int] == s@);
            return true;
        }
        i = i + 1;
    }
    false
}

/// Appends every string of `src` to `dst`.
pub(crate) fn extend(dst: &mut Vec<String>, src: &Vec<String>)
    ensures
        texts(final(dst)@) == texts(old(dst)@) + texts(src@),
{
    let ghost d0 = texts(dst@);
    let mut i: usize = 0;
    while i < src.len()
        invariant
            i <= src@.len(),
            texts(dst@) == d0 + texts(src@).take(i as int),
        decreases src.len() - i,
    {
        let ghost before = dst@;
        let c = src[i].clone();
        dst.push(c);
        proof {
            crate::textset::lemma_texts_push(before, c);
        }
        assert(texts(dst@) =~= d0 + texts(src@).take(i + 1));
        i = i + 1;
    }
    assert(texts(src@).take(i as int) =~= texts(src@));
}

pub(crate) fn one(s: String) -> (r: Vec<String>)
    ensures
        texts(r@) == seq![s@],
{
    let mut v = Vec::new();
    v.push(s);
    assert(texts(v@) =~= seq![s@]);
    v
}

pub(crate) fn none() -> (r: Vec<String>)
    ensures
        texts(r@) == Seq::<Seq<char>>::empty(),
{
    let v = Vec::new();
    assert(texts(v@) =~= Seq::<Seq<char>>::empty());
    v
}

pub(crate) fn cat2(a: &str, b: &str) -> (r: String)
    ensures
        r@ == a@ + b@,
{
    let mut s = String::new();
    push_str(&mut s, a);
    push_str(&mut s, b);
    assert(s@ =~= a@ + b@);
    s
}

/// Python's repr of a list of strings, `['a', 'b']`, quoting each item in
/// single quotes with `\` and `'` escaped.
pub fn py_list_repr(items: &[String]) -> (r: String)
    ensures
        r@ == py_list(texts(items@)),
{
    let ghost its = texts(items@);
    let mut out = String::new();
    push_char(&mut out, '[');
    let mut i: usize = 0;
    while i < items.len()
        invariant
            i <= items@.len(),
            its == texts(items@),
            out@ == seq!['['] + py_items(its, i as int),
        decreases items.len() - i,
    {
        let ghost before = out@;
        if i > 0 {
            push_str(&mut out, ", ");
        }
        push_char(&mut out, '\'');
        let cs = to_chars(items[i].as_str());
        let ghost mid = out@;
        let mut j: usize = 0;
        while j < cs.len()
            invariant
                j <= cs@.len(),
                cs@ == its[i as int],
                out@ == mid + py_escape(cs@.take(j as int)),
            decreases cs.len() - j,
        {
            let c = cs[j];
            if c == '\\' {
                push_char(&mut out, '\\');
                push_char(&mut out, '\\');
            } else if c == '\'' {
                push_char(&mut out, '\\');
                push_char(&mut out, '\'');
            } else {
                push_char(&mut out, c);
            }
            assert(cs@.take(j + 1).drop_last() =~= cs@.take(j as int));
            assert(out@ =~= mid + py_escape(cs@.take(j + 1)));
            j = j + 1;
        }
        assert(cs@.take(j as int) =~= its[i as int]);
        push_char(&mut out, '\'');
        proof {
            let k = i + 1;
            if k > 1 {
                assert(py_items(its, k as int) == py_items(its, i as int) + ", "@ + seq!['\'']
                    + py_escape(its[i as int]) + seq!['\'']);
            } else {
                assert(py_items(its, k as int) == py_items(its, i as int) + Seq::<char>::empty() + seq!['\'']
                    + py_escape(its[i as int]) + seq!['\'']);
            }
        }
        assert(out@ =~= seq!['['] + py_items(its, i + 1));
        i = i + 1;
    }
    push_char(&mut out, ']');
    out
}

fn path_list(c: &Citation) -> (r: Vec<String>)
    ensures
        texts(r@) == sb_paths(*c),
{
    match c {
        Citation::Null => none(),
        Citation::Str(s) => one(s.clone()),
        Citation::List(v) => copy_texts(v),
    }
}

fn unresolved_list(paths: &Vec<String>, ok: &Vec<bool>) -> (r: Vec<String>)
    requires
        ok@.len() == paths@.len(),
    ensures
        texts(r@) == unresolved(texts(paths@), ok@, paths@.len() as int),
{
    let mut out: Vec<String> = Vec::new();
    let mut i: usize = 0;
    while i < paths.len()
        invariant
            i <= paths@.len(),
            ok@.len() == paths@.len(),
            texts(out@) == unresolved(texts(paths@), ok@, i as int),
        decreases paths.len() - i,
    {
        if !ok[i] {
            out.push(paths[i].clone());
        }
        assert(texts(out@) =~= unresolved(texts(paths@), ok@, i + 1));
        i = i + 1;
    }
    out
}

fn status_msgs(r: &ObligationRow, id: &String) -> (m: Vec<String>)
    requires
        id@ == row_id(*r),
        r.resolved@.len() == sb_paths(r.satisfied_by).len(),
    ensures
        texts(m@) == status_problem(*r),
{
    if is_lit(&r.status, "satisfied") {
        let paths = path_list(&r.satisfied_by);
        if paths.len() == 0 {
            one(cat2(id.as_str(), ": status=satisfied requires 'satisfied_by'"))
        } else {
            let bad = unresolved_list(&paths, &r.resolved);
            if bad.len() > 0 {
                let mut s = cat2(id.as_str(), ": satisfied_by does not resolve: ");
                let l = py_list_repr(bad.as_slice());
                push_string(&mut s, &l);
                one(s)
            } else {
                none()
            }
        }
    } else if is_lit(&r.status, "pending") {
        if is_filled(&r.tracking) {
            none()
        } else {
            one(cat2(id.as_str(), ": status=pending requires 'tracking'"))
        }
    } else if is_lit(&r.status, "exempt") {
        if is_filled(&r.exempt_until) && is_filled(&r.exempt_reason) {
            none()
        } else {
            one(cat2(id.as_str(), ": status=exempt requires 'exempt_until' + 'exempt_reason'"))
        }
    } else {
        let mut s = cat2(id.as_str(), ": status '");
        push_string(&mut s, &r.status_shown);
        push_str(&mut s, "' not in ");
        push_str(&mut s, "['exempt', 'pending', 'satisfied']");
        assert(s@ =~= id@ + ": status '"@ + r.status_shown@ + "' not in "@ + status_list());
        one(s)
    }
}

fn kind_ok(k: &Option<String>) -> (r: bool)
    ensures
        r == valid_kind(*k),
{
    is_lit(k, "artifact") || is_lit(k, "ci") || is_lit(k, "crate") || is_lit(k, "doc")
        || is_lit(k, "gate") || is_lit(k, "issue") || is_lit(k, "test")
}

fn missing_msgs(r: &ObligationRow, id: &String, dup: bool) -> (m: Vec<String>)
    requires
        id@ == row_id(*r),
        r.resolved@.len() == sb_paths(r.satisfied_by).len(),
    ensures
        texts(m@) == row_missing(*r, dup),
{
    let mut m: Vec<String> = Vec::new();
    let ghost e = Seq::<Seq<char>>::empty();
    let ghost p1 = if dup { seq![id@ + ": duplicate id"@] } else { e };
    let ghost p2 = if r.adr is None { seq![id@ + ": missing 'adr'"@] } else { e };
    let ghost p3 = if !valid_kind(r.kind) { seq![id@ + ": kind '"@ + r.kind_shown@ + "' not in "@ + kind_list()] } else { e };
    let ghost p4 = if !filled(r.statement) { seq![id@ + ": missing 'statement'"@] } else { e };
    if dup {
        m.push(cat2(id.as_str(), ": duplicate id"));
    }
    assert(texts(m@) =~= p1);
    if r.adr.is_none() {
        m.push(cat2(id.as_str(), ": missing 'adr'"));
    }
    assert(texts(m@) =~= p1 + p2);
    if !kind_ok(&r.kind) {
        let mut s = cat2(id.as_str(), ": kind '");
        push_string(&mut s, &r.kind_shown);
        push_str(&mut s, "' not in ");
        push_str(&mut s, "['artifact', 'ci', 'crate', 'doc', 'gate', 'issue', 'test']");
        assert(s@ =~= id@ + ": kind '"@ + r.kind_shown@ + "' not in "@ + kind_list());
        m.push(s);
    }
    assert(texts(m@) =~= p1 + p2 + p3);
    if !is_filled(&r.statement) {
        m.push(cat2(id.as_str(), ": missing 'statement'"));
    }
    assert(texts(m@) =~= p1 + p2 + p3 + p4);
    let rest = status_msgs(r, id);
    extend(&mut m, &rest);
    m
}

fn orphan_msgs(r: &ObligationRow, id: &String, on_disk: &TextSet) -> (m: Vec<String>)
    requires
        id@ == row_id(*r),
    ensures
        texts(m@) == row_orphan(*r, on_disk@),
{
    match &r.adr {
        Some(a) => {
            if on_disk.contains(a.as_str()) {
                none()
            } else {
                let mut s = cat2(id.as_str(), ": references ");
                push_string(&mut s, a);
                push_str(&mut s, " but no decisions/");
                push_string(&mut s, a);
                push_str(&mut s, "-*.md exists");
                assert(s@ =~= id@ + ": references "@ + a@ + " but no decisions/"@ + a@ + "-*.md exists"@);
                one(s)
            }
        },
        None => none(),
    }
}

fn expired_msgs(r: &ObligationRow, id: &String, today: &str) -> (m: Vec<String>)
    requires
        id@ == row_id(*r),
    ensures
        texts(m@) == row_expired(*r, today@),
{
    if is_lit(&r.status, "exempt") && is_filled(&r.exempt_until) && is_filled(&r.exempt_reason) {
        match (&r.exempt_until, &r.exempt_reason) {
            (Some(until), Some(reason)) => {
                if text_less(until.as_str(), today) {
                    let mut s = cat2(id.as_str(), ": exemption expired ");
                    push_string(&mut s, until);
                    push_str(&mut s, " (");
                    push_string(&mut s, reason);
                    push_str(&mut s, ")");
                    assert(s@ =~= id@ + ": exemption expired "@ + until@ + " ("@ + reason@ + ")"@);
                    one(s)
                } else {
                    none()
                }
            },
            _ => none(),
        }
    } else {
        none()
    }
}

fn pending_msgs(r: &ObligationRow, id: &String) -> (m: Vec<String>)
    requires
        id@ == row_id(*r),
    ensures
        texts(m@) == row_pending(*r),
{
    if is_lit(&r.status, "pending") && is_filled(&r.tracking) {
        match &r.tracking {
            Some(t) => {
                let mut s = cat2(id.as_str(), ": ");
                push_string(&mut s, t);
                one(s)
            },
            None => none(),
        }
    } else {
        none()
    }
}

fn citation_of(r: &ObligationRow) -> (c: Citation)
    ensures
        c@ == row_citation(*r),
{
    if is_lit(&r.status, "satisfied") {
        match &r.satisfied_by {
            Citation::Null => Citation::Null,
            Citation::Str(s) => Citation::Str(s.clone()),
            Citation::List(v) => Citation::List(copy_texts(v)),
        }
    } else if is_lit(&r.status, "pending") {
        if is_filled(&r.tracking) {
            match &r.tracking {
                Some(t) => Citation::Str(t.clone()),
                None => Citation::Null,
            }
        } else {
            Citation::Null
        }
    } else if is_lit(&r.status, "exempt") {
        let mut s = "exempt until ".to_owned();
        match &r.exempt_until {
            Some(u) => push_string(&mut s, u),
            None => push_str(&mut s, "None"),
        }
        Citation::Str(s)
    } else {
        Citation::Null
    }
}

fn feeder_of(r: &ObligationRow, id: &String) -> (f: FeederRow)
    requires
        id@ == row_id(*r),
        r.resolved@.len() == sb_paths(r.satisfied_by).len(),
    ensures
        f@ == row_feeder(*r),
{
    let mut satisfied = false;
    if is_lit(&r.status, "satisfied") {
        let paths = path_list(&r.satisfied_by);
        if paths.len() > 0 {
            let bad = unresolved_list(&paths, &r.resolved);
            satisfied = bad.len() == 0;
        }
    }
    FeederRow {
        obligation: id.clone(),
        satisfied,
        citation: citation_of(r),
        exempt_until: copy_opt(&r.exempt_until),
    }
}

/// Every row carries one resolution flag per `satisfied_by` path.
pub open spec fn rows_ok(rows: Seq<ObligationRow>) -> bool {
    forall|i: int| 0 <= i < rows.len() ==> #[trigger] rows[i].resolved@.len() == sb_paths(rows[i].satisfied_by).len()
}

/// The ids of the first `k` rows.
pub open spec fn ids_upto(rows: Seq<ObligationRow>, k: int) -> Seq<Seq<char>> {
    Seq::new(k as nat, |j: int| row_id(rows[j]))
}

/// How many of the first `k` ids of `d` are not in `ex`.
pub open spec fn in_force_upto(d: Seq<Seq<char>>, ex: Seq<Seq<char>>, k: int) -> nat
    decreases k,
{
    if k <= 0 {
        0
    } else {
        in_force_upto(d, ex, k - 1) + (if ex.contains(d[k - 1]) { 0nat } else { 1nat })
    }
}

proof fn lemma_in_force_set(d: Seq<Seq<char>>, ex: Seq<Seq<char>>, k: int)
    requires
        d.no_duplicates(),
        0 <= k <= d.len(),
    ensures
        d.take(k).to_set().difference(ex.to_set()).finite(),
        in_force_upto(d, ex, k) == d.take(k).to_set().difference(ex.to_set()).len(),
    decreases k,
{
    broadcast use {vstd::set::group_set_axioms, vstd::seq_lib::seq_to_set_is_finite};
    if k == 0 {
        assert(d.take(0).to_set() =~= Set::<Seq<char>>::empty());
        assert(d.take(0).to_set().difference(ex.to_set()) =~= Set::<Seq<char>>::empty());
    } else {
        lemma_in_force_set(d, ex, k - 1);
        let x = d[k - 1];
        let a = d.take(k - 1).to_set();
        assert(d.take(k).to_set() =~= a.insert(x)) by {
            assert forall|y: Seq<char>| d.take(k).contains(y) <==> d.take(k - 1).contains(y) || y == x by {
                if d.take(k).contains(y) {
                    let i = choose|i: int| 0 <= i < k && #[trigger] d.take(k)[i] == y;
                    if i < k - 1 {
                        assert(d.take(k - 1)[i] == y);
                    }
                }
                if d.take(k - 1).contains(y) {
                    let i = choose|i: int| 0 <= i < k - 1 && #[trigger] d.take(k - 1)[i] == y;
                    assert(d.take(k)[i] == y);
                }
                if y == x {
                    assert(d.take(k)[k - 1] == y);
                }
            }
        }
        assert(!a.contains(x)) by {
            if d.take(k - 1).contains(x) {
                let i = choose|i: int| 0 <= i < k - 1 && #[trigger] d.take(k - 1)[i] == x;
                assert(d[i] == d[k - 1]);
            }
        }
        let e = ex.to_set();
        if ex.contains(x) {
            assert(a.insert(x).difference(e) =~= a.difference(e));
        } else {
            assert(a.insert(x).difference(e) =~= a.difference(e).insert(x));
            assert(!a.difference(e).contains(x));
        }
    }
}

fn count_in_force(on_disk: &TextSet, excluded: &TextSet) -> (n: usize)
    ensures
        n == in_force_upto(on_disk@, excluded@, on_disk@.len() as int),
{
    let mut n: usize = 0;
    let mut i: usize = 0;
    while i < on_disk.len()
        invariant
            i <= on_disk@.len(),
            n == in_force_upto(on_disk@, excluded@, i as int),
            n <= i,
        decreases on_disk@.len() - i,
    {
        if !excluded.contains(on_disk.get(i).as_str()) {
            n = n + 1;
        }
        i = i + 1;
    }
    n
}

/// Checks the registry `rows` against the ADR ids found on disk and the
/// ids `[meta].excluded` lists, on date `today` (ISO `YYYY-MM-DD`).
///
/// - `missing`: per row, in row order, its schema problems (duplicate id,
///   missing `adr`, unknown `kind`, missing `statement`, what its status
///   requires); then each ADR on disk, in order, that is neither excluded
///   nor referenced by a row.
/// - `orphan`: rows naming an ADR with no file, then excluded ids with no
///   file.
/// - `expired`: complete exemptions dated before `today`.
/// - `pending`: tracked pending rows.
/// - `feeder`: one entry per row.
/// - `total`: the number of rows; `in_force`: the ADRs on disk that are
///   not excluded.
pub fn evaluate(rows: &Vec<ObligationRow>, excluded: &TextSet, on_disk: &TextSet, today: &str) -> (out: Outcome)
    requires
        rows_ok(rows@),
        on_disk.wf(),
    ensures
        out.total == rows@.len(),
        out.in_force == on_disk@.to_set().difference(excluded@.to_set()).len(),
        texts(out.missing@) == missing_upto(rows@, rows@.len() as int)
            + uncovered_upto(on_disk@, on_disk@.len() as int, excluded@, rows@),
        texts(out.orphan@) == orphans_upto(rows@, rows@.len() as int, on_disk@)
            + stale_upto(excluded@, excluded@.len() as int, on_disk@),
        texts(out.expired@) == expired_upto(rows@, rows@.len() as int, today@),
        texts(out.pending@) == pending_upto(rows@, rows@.len() as int),
        feeder_views(out.feeder@) == feeder_upto(rows@, rows@.len() as int),
{
    let in_force = count_in_force(on_disk, excluded);
    proof {
        let d = on_disk@;
        assert(d.no_duplicates()) by {
            assert forall|i: int, j: int| 0 <= i < d.len() && 0 <= j < d.len() && i != j implies d[i] != d[j] by {
                crate::textset::lemma_text_lt_irreflexive(d[i]);
                if i > j {
                    crate::textset::lemma_text_lt_irreflexive(d[j]);
                }
            }
        }
        lemma_in_force_set(d, excluded@, d.len() as int);
        assert(d.take(d.len() as int) =~= d);
    }
    let mut missing: Vec<String> = Vec::new();
    let mut orphan: Vec<String> = Vec::new();
    let mut expired: Vec<String> = Vec::new();
    let mut pending: Vec<String> = Vec::new();
    let mut feeder: Vec<FeederRow> = Vec::new();
    let mut seen: Vec<String> = Vec::new();
    let mut cov: Vec<String> = Vec::new();
    let n = rows.len();
    let mut i: usize = 0;
    while i < n
        invariant
            n == rows@.len(),
            i <= n,
            rows_ok(rows@),
            texts(missing@) == missing_upto(rows@, i as int),
            texts(orphan@) == orphans_upto(rows@, i as int, on_disk@),
            texts(expired@) == expired_upto(rows@, i as int, today@),
            texts(pending@) == pending_upto(rows@, i as int),
            feeder_views(feeder@) == feeder_upto(rows@, i as int),
            texts(seen@) == ids_upto(rows@, i as int),
            forall|a: Seq<char>| #[trigger] texts(cov@).contains(a)
                <==> exists|j: int| 0 <= j < i && #[trigger] is_text(rows@[j].adr, a),
        decreases n - i,
    {
        let r = &rows[i];
        assert(r.resolved@.len() == sb_paths(r.satisfied_by).len());
        let id = match &r.id {
            Some(s) => s.clone(),
            None => "<no-id>".to_owned(),
        };
        let dup = holds(&seen, &id);
        assert(dup == is_dup(rows@, i as int)) by {
            if dup {
                let k = choose|k: int| 0 <= k < texts(seen@).len() && texts(seen@)[k] == id@;
                assert(row_id(rows@[k]) == row_id(rows@[i as int]));
            }
            if is_dup(rows@, i as int) {
                let k = choose|k: int| 0 <= k < i && #[trigger] row_id(rows@[k]) == row_id(rows@[i as int]);
                assert(texts(seen@)[k] == id@);
            }
        }
        let ms = missing_msgs(r, &id, dup);
        extend(&mut missing, &ms);
        let os = orphan_msgs(r, &id, on_disk);
        extend(&mut orphan, &os);
        let es = expired_msgs(r, &id, today);
        extend(&mut expired, &es);
        let ps = pending_msgs(r, &id);
        extend(&mut pending, &ps);
        let f = feeder_of(r, &id);
        let ghost fb = feeder@;
        feeder.push(f);
        assert(feeder_views(feeder@) =~= feeder_views(fb).push(f@));
        let ghost sb = seen@;
        seen.push(id);
        proof {
            crate::textset::lemma_texts_push(sb, id);
            assert(texts(seen@) =~= ids_upto(rows@, i + 1));
        }
        let ghost cb = cov@;
        match &r.adr {
            Some(a) => {
                let c = a.clone();
                cov.push(c);
                proof {
                    crate::textset::lemma_texts_push(cb, c);
                    assert forall|x: Seq<char>| #[trigger] texts(cov@).contains(x)
                        <==> exists|j: int| 0 <= j < i + 1 && #[trigger] is_text(rows@[j].adr, x) by {
                        if texts(cb).contains(x) {
                            let j = choose|j: int| 0 <= j < i && #[trigger] is_text(rows@[j].adr, x);
                        }
                        if x == c@ {
                            assert(is_text(rows@[i as int].adr, x));
                        }
                        if exists|j: int| 0 <= j < i + 1 && #[trigger] is_text(rows@[j].adr, x) {
                            let j = choose|j: int| 0 <= j < i + 1 && #[trigger] is_text(rows@[j].adr, x);
                            if j < i {
                                assert(texts(cb).contains(x));
                                let k = choose|k: int| 0 <= k < texts(cb).len() && texts(cb)[k] == x;
                                assert(texts(cov@)[k] == x);
                            } else {
                                assert(texts(cov@)[cb.len() as int] == x);
                            }
                        }
                        if texts(cov@).contains(x) {
                            let k = choose|k: int| 0 <= k < texts(cov@).len() && texts(cov@)[k] == x;
                            if k < cb.len() {
                                assert(texts(cb)[k] == x);
                            }
                        }
                    }
                }
            },
            None => {
                proof {
                    assert forall|x: Seq<char>| #[trigger] texts(cov@).contains(x)
                        <==> exists|j: int| 0 <= j < i + 1 && #[trigger] is_text(rows@[j].adr, x) by {
                        if exists|j: int| 0 <= j < i + 1 && #[trigger] is_text(rows@[j].adr, x) {
                            let j = choose|j: int| 0 <= j < i + 1 && #[trigger] is_text(rows@[j].adr, x);
                            assert(j < i);
                        }
                    }
                }
            },
        }
        i = i + 1;
    }
    let ghost rv = rows@;
    assert forall|a: Seq<char>| #[trigger] texts(cov@).contains(a) <==> covered(rv, a) by {
        if texts(cov@).contains(a) {
            let j = choose|j: int| 0 <= j < n && #[trigger] is_text(rows@[j].adr, a);
        }
        if covered(rv, a) {
            let j = choose|j: int| 0 <= j < rv.len() && #[trigger] is_text(rv[j].adr, a);
            assert(exists|j: int| 0 <= j < n && #[trigger] is_text(rows@[j].adr, a));
        }
    }
    let ghost m0 = texts(missing@);
    let m = on_disk.len();
    let mut k: usize = 0;
    while k < m
        invariant
            m == on_disk@.len(),
            k <= m,
            rv == rows@,
            forall|a: Seq<char>| #[trigger] texts(cov@).contains(a) <==> covered(rv, a),
            texts(missing@) == m0 + uncovered_upto(on_disk@, k as int, excluded@, rv),
        decreases m - k,
    {
        let a = on_disk.get(k);
        if !excluded.contains(a.as_str()) && !holds(&cov, a) {
            let s = cat2(a.as_str(), ": no obligation row references this ADR — something fell out (add a row or exclude it in [meta])");
            let ghost mb = missing@;
            missing.push(s);
            proof {
                crate::textset::lemma_texts_push(mb, s);
            }
        }
        assert(texts(missing@) =~= m0 + uncovered_upto(on_disk@, k + 1, excluded@, rv));
        k = k + 1;
    }
    let ghost o0 = texts(orphan@);
    let x = excluded.len();
    let mut k: usize = 0;
    while k < x
        invariant
            x == excluded@.len(),
            k <= x,
            texts(orphan@) == o0 + stale_upto(excluded@, k as int, on_disk@),
        decreases x - k,
    {
        let a = excluded.get(k);
        if !on_disk.contains(a.as_str()) {
            let s = cat2("[meta].excluded ", a.as_str());
            let mut s = s;
            push_str(&mut s, ": no such ADR file");
            let ghost ob = orphan@;
            let ghost sv = s@;
            orphan.push(s);
            proof {
                crate::textset::lemma_texts_push(ob, s);
                assert(sv =~= "[meta].excluded "@ + excluded@[k as int] + ": no such ADR file"@);
            }
        }
        assert(texts(orphan@) =~= o0 + stale_upto(excluded@, k + 1, on_disk@));
        k = k + 1;
    }
    Outcome { missing, orphan, expired, pending, feeder, total: n, in_force }
}

/// How many feeder entries are satisfied.
pub open spec fn count_satisfied(f: Seq<FeederV>) -> nat
    decreases f.len(),
{
    if f.len() == 0 {
        0
    } else {
        count_satisfied(f.drop_last()) + (if f.last().satisfied { 1nat } else { 0nat })
    }
}

impl Outcome {
    /// The number of satisfied rows.
    pub fn satisfied_count(&self) -> (r: usize)
        ensures
            r == count_satisfied(feeder_views(self.feeder@)),
    {
        let ghost fv = feeder_views(self.feeder@);
        let mut c: usize = 0;
        let mut i: usize = 0;
        while i < self.feeder.len()
            invariant
                i <= self.feeder@.len(),
                fv == feeder_views(self.feeder@),
                c == count_satisfied(fv.take(i as int)),
                c <= i,
            decreases self.feeder.len() - i,
        {
            assert(fv.take(i + 1).drop_last() =~= fv.take(i as int));
            if self.feeder[i].satisfied {
                c = c + 1;
            }
            i = i + 1;
        }
        assert(fv.take(i as int) =~= fv);
        c
    }

    /// The audit's exit code: 3 for an expired exemption, else 2 for an
    /// orphan, else 1 for a missing or unsatisfied obligation, else 0.
    pub fn exit_code(&self) -> (r: u8)
        ensures
            r == (if self.expired@.len() > 0 { 3u8 } else if self.orphan@.len() > 0 { 2u8 }
                else if self.missing@.len() > 0 { 1u8 } else { 0u8 }),
    {
        if self.expired.len() > 0 {
            3
        } else if self.orphan.len() > 0 {
            2
        } else if self.missing.len() > 0 {
            1
        } else {
            0
        }
    }
}

// ---------------------------------------------------------------------
// ADR ids from file names
// ---------------------------------------------------------------------

/// The length of the run of ASCII digits `s` starts with.
pub open spec fn digit_run(s: Seq<char>) -> nat
    decreases s.len(),
{
    if s.len() > 0 && crate::text::is_digit(s[0]) {
        1 + digit_run(s.drop_first())
    } else {
        0
    }
}

/// The ADR id a file name declares, as `^(ADR-\d+)-.*\.md$` captures it.
pub open spec fn adr_id_of(name: Seq<char>) -> Option<Seq<char>> {
    let pre = seq!['A', 'D', 'R', '-'];
    if name.len() >= 4 && name.take(4) == pre && name.len() >= 3
        && name.skip(name.len() - 3) == seq!['.', 'm', 'd'] {
        let rest = name.skip(4);
        let d = digit_run(rest);
        let after = rest.skip(d as int);
        if d > 0 && after.len() >= 4 && after[0] == '-' {
            Some(pre + rest.take(d as int))
        } else {
            None
        }
    } else {
        None
    }
}

/// The leading digit run: its chars are digits and the next one is not.
pub proof fn lemma_digit_run(s: Seq<char>, i: int)
    requires
        0 <= i <= digit_run(s),
    ensures
        digit_run(s) <= s.len(),
        i < digit_run(s) ==> crate::text::is_digit(s[i]),
        i == digit_run(s) ==> !(i < s.len() && crate::text::is_digit(s[i])),
    decreases s.len(),
{
    if s.len() > 0 && crate::text::is_digit(s[0]) {
        if i > 0 {
            lemma_digit_run(s.drop_first(), i - 1);
        } else {
            lemma_digit_run(s.drop_first(), 0);
        }
    }
}

/// The ADR id `ADR-<digits>` of a file named `ADR-<digits>-<anything>.md`,
/// or `None` (so `ADR-template.md` declares none).
pub fn adr_id_from_filename(name: &str) -> (r: Option<String>)
    ensures
        match r {
            Some(s) => adr_id_of(name@) == Some(s@),
            None => adr_id_of(name@) is None,
        },
{
    let cs = to_chars(name);
    let n = cs.len();
    if n < 4 || cs[0] != 'A' || cs[1] != 'D' || cs[2] != 'R' || cs[3] != '-' {
        proof {
            if n >= 4 {
                assert(cs@.take(4) != seq!['A', 'D', 'R', '-']) by {
                    let t = cs@.take(4);
                    assert(t[0] == cs@[0] && t[1] == cs@[1] && t[2] == cs@[2] && t[3] == cs@[3]);
                }
            }
        }
        return None;
    }
    assert(cs@.take(4) =~= seq!['A', 'D', 'R', '-']);
    if n < 3 || cs[n - 3] != '.' || cs[n - 2] != 'm' || cs[n - 1] != 'd' {
        proof {
            let t = cs@.skip(n - 3);
            assert(t[0] == cs@[n - 3] && t[1] == cs@[n - 2] && t[2] == cs@[n - 1]);
        }
        return None;
    }
    assert(cs@.skip(n - 3) =~= seq!['.', 'm', 'd']);
    let ghost rest = cs@.skip(4);
    let mut d: usize = 4;
    while d < n && '0' <= cs[d] && cs[d] <= '9'
        invariant
            4 <= d <= n,
            n == cs@.len(),
            rest == cs@.skip(4),
            forall|j: int| 4 <= j < d ==> crate::text::is_digit(#[trigger] cs@[j]),
        decreases n - d,
    {
        d = d + 1;
    }
    proof {
        let run = digit_run(rest);
        // the scanned digits are exactly the leading run
        assert(run == d - 4) by {
            lemma_digit_run(rest, 0);
            if run < d - 4 {
                lemma_digit_run(rest, run as int);
                assert(rest[run as int] == cs@[4 + run as int]);
            } else if run > d - 4 {
                lemma_digit_run(rest, (d - 4) as int);
                assert(rest[(d - 4) as int] == cs@[d as int]);
            }
        }
    }
    if d == 4 || n - d < 4 || cs[d] != '-' {
        proof {
            let after = rest.skip((d - 4) as int);
            if d > 4 && n - d >= 4 {
                assert(after[0] == cs@[d as int]);
            }
        }
        return None;
    }
    let id = crate::text::string_of(&cs, 0, d);
    proof {
        let after = rest.skip((d - 4) as int);
        assert(after[0] == cs@[d as int]);
        assert(cs@.subrange(0, d as int) =~= seq!['A', 'D', 'R', '-'] + rest.take((d - 4) as int));
    }
    Some(id)
}

/// The set of ADR ids the file `names` declare.
pub fn adr_ids_on_disk(names: &Vec<String>) -> (r: TextSet)
    ensures
        r.wf(),
        forall|x: Seq<char>| #[trigger] r@.contains(x)
            <==> exists|j: int| 0 <= j < names@.len() && adr_id_of(#[trigger] names@[j]@) == Some(x),
{
    let mut ids = TextSet::new();
    let mut i: usize = 0;
    while i < names.len()
        invariant
            i <= names@.len(),
            ids.wf(),
            forall|x: Seq<char>| #[trigger] ids@.contains(x)
                <==> exists|j: int| 0 <= j < i && adr_id_of(#[trigger] names@[j]@) == Some(x),
        decreases names.len() - i,
    {
        let ghost before = ids@;
        match adr_id_from_filename(names[i].as_str()) {
            Some(id) => {
                let ghost v = id@;
                ids.insert(id);
                assert forall|x: Seq<char>| #[trigger] ids@.contains(x)
                    <==> exists|j: int| 0 <= j < i + 1 && adr_id_of(#[trigger] names@[j]@) == Some(x) by {
                    if ids@.contains(x) && x != v {
                        assert(before.contains(x));
                    }
                    if exists|j: int| 0 <= j < i + 1 && adr_id_of(#[trigger] names@[j]@) == Some(x) {
                        let j = choose|j: int| 0 <= j < i + 1 && adr_id_of(#[trigger] names@[j]@) == Some(x);
                        if j < i {
                            assert(before.contains(x));
                        }
                    }
                    if x == v {
                        assert(adr_id_of(names@[i as int]@) == Some(x));
                    }
                }
            },
            None => {
                assert forall|x: Seq<char>| #[trigger] ids@.contains(x)
                    <==> exists|j: int| 0 <= j < i + 1 && adr_id_of(#[trigger] names@[j]@) == Some(x) by {
                    if exists|j: int| 0 <= j < i + 1 && adr_id_of(#[trigger] names@[j]@) == Some(x) {
                        let j = choose|j: int| 0 <= j < i + 1 && adr_id_of(#[trigger] names@[j]@) == Some(x);
                        assert(j < i);
                    }
                }
            },
        }
        i = i + 1;
    }
    ids
}

// ---------------------------------------------------------------------
// Laws
// ---------------------------------------------------------------------

/// A pending row that carries a tracking pointer never fails the audit on
/// its status: its status adds no problem and it never expires.
pub proof fn law_pending_never_fails(r: ObligationRow, today: Seq<char>)
    requires
        is_text(r.status, "pending"@),
        filled(r.tracking),
    ensures
        status_problem(r) == Seq::<Seq<char>>::empty(),
        row_expired(r, today) == Seq::<Seq<char>>::empty(),
        row_pending(r).len() == 1,
{
    reveal_strlit("pending");
    reveal_strlit("satisfied");
    reveal_strlit("exempt");
    assert(!is_text(r.status, "satisfied"@)) by {
        if is_text(r.status, "satisfied"@) {
            assert("pending"@.len() != "satisfied"@.len());
        }
    }
    assert(!is_text(r.status, "exempt"@)) by {
        if is_text(r.status, "exempt"@) {
            assert("pending"@[0] != "exempt"@[0]);
        }
    }
}

/// A complete exemption expires exactly when its date lies before
/// `today`; one dated `today` has not expired yet.
pub proof fn law_exemption_expires_after_its_day(r: ObligationRow, today: Seq<char>)
    requires
        is_text(r.status, "exempt"@),
        filled(r.exempt_until),
        filled(r.exempt_reason),
    ensures
        row_expired(r, today).len() == 1 <==> text_lt(r.exempt_until->0@, today),
        row_expired(r, r.exempt_until->0@).len() == 0,
{
    crate::textset::lemma_text_lt_irreflexive(r.exempt_until->0@);
}

proof fn lemma_missing_keeps(rows: Seq<ObligationRow>, a: int, b: int, x: Seq<char>)
    requires
        0 <= a <= b,
        missing_upto(rows, a).contains(x),
    ensures
        missing_upto(rows, b).contains(x),
    decreases b - a,
{
    if a < b {
        lemma_missing_keeps(rows, a, b - 1, x);
        let pre = missing_upto(rows, b - 1);
        let j = choose|j: int| 0 <= j < pre.len() && pre[j] == x;
        let all = missing_upto(rows, b);
        assert(all == pre + row_missing(rows[b - 1], is_dup(rows, b - 1)));
        assert(all[j] == x);
    }
}

/// An exemption is complete only with both a date and a reason: a row whose
/// status is `exempt` but whose `exempt_until` or `exempt_reason` is absent
/// or empty is always reported missing, with the message naming both
/// fields, whatever the other field holds.
pub proof fn law_incomplete_exemption_is_missing(rows: Seq<ObligationRow>, k: int)
    requires
        0 <= k < rows.len(),
        rows[k].status matches Some(s) && s@ == "exempt"@,
        (rows[k].exempt_reason matches Some(s) ==> s@.len() == 0)
            || (rows[k].exempt_until matches Some(s) ==> s@.len() == 0),
    ensures
        missing_upto(rows, rows.len() as int).contains(
            row_id(rows[k]) + ": status=exempt requires 'exempt_until' + 'exempt_reason'"@),
{
    reveal_strlit("pending");
    reveal_strlit("satisfied");
    reveal_strlit("exempt");
    let r = rows[k];
    let msg = row_id(r) + ": status=exempt requires 'exempt_until' + 'exempt_reason'"@;
    assert(!is_text(r.status, "satisfied"@)) by {
        assert("exempt"@.len() != "satisfied"@.len());
    }
    assert(!is_text(r.status, "pending"@)) by {
        assert("exempt"@[0] != "pending"@[0]);
    }
    assert(!(filled(r.exempt_until) && filled(r.exempt_reason)));
    assert(status_problem(r) == seq![msg]);
    let rm = row_missing(r, is_dup(rows, k));
    assert(rm.len() >= 1 && rm[rm.len() - 1] == msg);
    let m1 = missing_upto(rows, k + 1);
    assert(m1 == missing_upto(rows, k) + rm);
    assert(m1[m1.len() - 1] == msg);
    assert(m1.contains(msg));
    lemma_missing_keeps(rows, k + 1, rows.len() as int, msg);
}

/// The message for an ADR that no row references.
pub open spec fn uncovered_msg(a: Seq<char>) -> Seq<char> {
    a + ": no obligation row references this ADR — something fell out (add a row or exclude it in [meta])"@
}

/// No ADR falls out silently: every ADR on disk that is neither
/// excluded nor referenced by a row is reported as missing, and every
/// such report names one.
pub proof fn law_uncovered_adrs_are_reported(
    on_disk: Seq<Seq<char>>,
    excluded: Seq<Seq<char>>,
    rows: Seq<ObligationRow>,
    a: Seq<char>,
)
    ensures
        (on_disk.contains(a) && !excluded.contains(a) && !covered(rows, a))
            ==> uncovered_upto(on_disk, on_disk.len() as int, excluded, rows).contains(uncovered_msg(a)),
        uncovered_upto(on_disk, on_disk.len() as int, excluded, rows).contains(uncovered_msg(a))
            ==> (on_disk.contains(a) && !excluded.contains(a) && !covered(rows, a)),
{
    lemma_uncovered(on_disk, on_disk.len() as int, excluded, rows, a);
    assert(on_disk.take(on_disk.len() as int) =~= on_disk);
}

proof fn lemma_uncovered(on_disk: Seq<Seq<char>>, k: int, excluded: Seq<Seq<char>>, rows: Seq<ObligationRow>, a: Seq<char>)
    requires
        0 <= k <= on_disk.len(),
    ensures
        (on_disk.take(k).contains(a) && !excluded.contains(a) && !covered(rows, a))
            <==> uncovered_upto(on_disk, k, excluded, rows).contains(uncovered_msg(a)),
    decreases k,
{
    if k > 0 {
        lemma_uncovered(on_disk, k - 1, excluded, rows, a);
        let b = on_disk[k - 1];
        let prev = uncovered_upto(on_disk, k - 1, excluded, rows);
        let step = if !excluded.contains(b) && !covered(rows, b) { seq![uncovered_msg(b)] } else { Seq::<Seq<char>>::empty() };
        assert(uncovered_upto(on_disk, k, excluded, rows) == prev + step);
        assert(on_disk.take(k) =~= on_disk.take(k - 1).push(b));
        // the message determines the ADR it names
        assert(uncovered_msg(a) == uncovered_msg(b) ==> a == b) by {
            if uncovered_msg(a) == uncovered_msg(b) {
                let tail = ": no obligation row references this ADR — something fell out (add a row or exclude it in [meta])"@;
                assert(uncovered_msg(a).len() == a.len() + tail.len());
                assert(uncovered_msg(b).len() == b.len() + tail.len());
                assert(a.len() == b.len());
                assert(a =~= uncovered_msg(a).take(a.len() as int));
                assert(b =~= uncovered_msg(b).take(b.len() as int));
            }
        }
        if (prev + step).contains(uncovered_msg(a)) {
            let i = choose|i: int| 0 <= i < (prev + step).len() && (prev + step)[i] == uncovered_msg(a);
            if i < prev.len() {
                assert(prev[i] == uncovered_msg(a));
            }
        }
        if prev.contains(uncovered_msg(a)) {
            let i = choose|i: int| 0 <= i < prev.len() && prev[i] == uncovered_msg(a);
            assert((prev + step)[i] == uncovered_msg(a));
        }
        if on_disk.take(k).contains(a) {
            let t = on_disk.take(k);
            let i = choose|i: int| 0 <= i < t.len() && t[i] == a;
            if i < k - 1 {
                assert(on_disk.take(k - 1)[i] == a);
            }
        }
        if on_disk.take(k - 1).contains(a) {
            let t = on_disk.take(k - 1);
            let i = choose|i: int| 0 <= i < t.len() && t[i] == a;
            assert(on_disk.take(k)[i] == a);
        }
        if a == b && !excluded.contains(a) && !covered(rows, a) {
            assert((prev + step)[prev.len() as int] == uncovered_msg(a));
            assert(on_disk.take(k)[k - 1] == a);
        }
    } else {
        assert(on_disk.take(0) =~= Seq::<Seq<char>>::empty());
    }
}

} // verus!
