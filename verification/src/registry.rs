//! Reading the obligations registry (`decisions/obligations.toml`): the
//! TOML document as the audit sees it, the `[meta].excluded` ADR ids and
//! the `[[obligation]]` rows with their fields.
//!
//! The `toml` crate parses the text; everything read out of the parsed
//! document afterwards is decided here.

use crate::obligations::{ov, Citation, CitationV, ObligationRow};
use crate::text::{eq_lit, push_str, push_string, to_chars};
use crate::textset::{texts, TextSet};
use vstd::prelude::*;

verus! {

#[verifier::external_type_specification]
#[verifier::external_body]
pub struct ExTomlValue(toml::Value);

/// A parsed TOML value, as the audit reads it: a string by its text, an
/// array item by item, a table entry by entry (in the parser's order,
/// keys unique), and every non-string value also by its TOML rendering.
#[derive(Debug)]
pub enum TomlValue {
    Str(String),
    Array(Vec<TomlValue>, String),
    Table(Vec<TomlEntry>, String),
    Other(String),
}

/// One `key = value` of a table.
#[derive(Debug)]
pub struct TomlEntry {
    pub key: String,
    pub value: TomlValue,
}

/// The model of a [`TomlValue`].
pub enum TomlV {
    Str(Seq<char>),
    Array(Seq<TomlV>, Seq<char>),
    Table(Seq<(Seq<char>, TomlV)>, Seq<char>),
    Other(Seq<char>),
}

pub open spec fn toml_view(v: TomlValue) -> TomlV
    decreases v, 0int,
{
    match v {
        TomlValue::Str(s) => TomlV::Str(s@),
        TomlValue::Array(items, r) => TomlV::Array(items_view(items@, items@.len() as int), r@),
        TomlValue::Table(es, r) => TomlV::Table(entries_view(es@, es@.len() as int), r@),
        TomlValue::Other(r) => TomlV::Other(r@),
    }
}

/// The first `k` items of an array, as plain values.
pub open spec fn items_view(s: Seq<TomlValue>, k: int) -> Seq<TomlV>
    decreases s, k,
{
    if k <= 0 || k > s.len() {
        Seq::empty()
    } else {
        items_view(s, k - 1).push(toml_view(s[k - 1]))
    }
}

/// The first `k` entries of a table, as plain values.
pub open spec fn entries_view(s: Seq<TomlEntry>, k: int) -> Seq<(Seq<char>, TomlV)>
    decreases s, k,
{
    if k <= 0 || k > s.len() {
        Seq::empty()
    } else {
        entries_view(s, k - 1).push((s[k - 1].key@, toml_view(s[k - 1].value)))
    }
}

impl View for TomlValue {
    type V = TomlV;

    open spec fn view(&self) -> TomlV {
        toml_view(*self)
    }
}

proof fn lemma_items_view(s: Seq<TomlValue>, k: int)
    requires
        0 <= k <= s.len(),
    ensures
        items_view(s, k).len() == k,
        forall|i: int| 0 <= i < k ==> #[trigger] items_view(s, k)[i] == toml_view(s[i]),
    decreases k,
{
    if k > 0 {
        lemma_items_view(s, k - 1);
    }
}

proof fn lemma_entries_view(s: Seq<TomlEntry>, k: int)
    requires
        0 <= k <= s.len(),
    ensures
        entries_view(s, k).len() == k,
        forall|i: int| 0 <= i < k ==> #[trigger] entries_view(s, k)[i] == (s[i].key@, toml_view(s[i].value)),
    decreases k,
{
    if k > 0 {
        lemma_entries_view(s, k - 1);
    }
}

// ---------------------------------------------------------------------
// Parsing, by the `toml` crate
// ---------------------------------------------------------------------

/// What `toml` makes of a document's text: the document (a table), or the
/// `Display` text of its parse error.
pub uninterp spec fn toml_doc(text: Seq<char>) -> Result<TomlV, Seq<char>>;

/// `toml::Value` read into a [`TomlValue`], node for node: a string as
/// itself, an array item by item and a table entry by entry, each
/// non-string value with its `Display` rendering. It claims nothing: the
/// contract of [`parse_toml`] covers the whole document.
#[verifier::external_body]
fn toml_node(v: &toml::Value) -> TomlValue {
    match v {
        toml::Value::String(s) => TomlValue::Str(s.clone()),
        toml::Value::Array(a) => TomlValue::Array(a.iter().map(toml_node).collect(), v.to_string()),
        toml::Value::Table(t) => TomlValue::Table(
            t.iter().map(|(k, x)| TomlEntry { key: k.clone(), value: toml_node(x) }).collect(),
            v.to_string(),
        ),
        _ => TomlValue::Other(v.to_string()),
    }
}

/// `text.parse::<toml::Table>()` (the crate's `from_str`), the document
/// read node for node into a [`TomlValue`], or the `Display` text of the
/// parse error. Claims: the outcome is `toml_doc` of the text.
#[verifier::external_body]
fn parse_toml(text: &str) -> (r: Result<TomlValue, String>)
    ensures
        match r {
            Ok(v) => toml_doc(text@) == Ok::<TomlV, Seq<char>>(v@),
            Err(e) => toml_doc(text@) == Err::<TomlV, Seq<char>>(e@),
        },
{
    match text.parse::<toml::Table>() {
        Ok(t) => Ok(toml_node(&toml::Value::Table(t))),
        Err(e) => Err(e.to_string()),
    }
}

/// The prefix of every refusal to read the registry.
pub open spec fn read_error_prefix() -> Seq<char> {
    "cannot read decisions/obligations.toml: "@
}

/// Parse the registry's text: the document, or the parse error behind
/// [`read_error_prefix`].
pub fn read_registry(text: &str) -> (r: Result<TomlValue, String>)
    ensures
        match toml_doc(text@) {
            Ok(d) => r matches Ok(v) && v@ == d,
            Err(m) => r matches Err(e) && e@ == read_error_prefix() + m,
        },
{
    match parse_toml(text) {
        Ok(v) => Ok(v),
        Err(m) => {
            let mut e = String::new();
            push_str(&mut e, "cannot read decisions/obligations.toml: ");
            push_string(&mut e, &m);
            Err(e)
        },
    }
}

// ---------------------------------------------------------------------
// Reading values
// ---------------------------------------------------------------------

/// The value under `key` among a table's entries.
pub open spec fn entry_of(es: Seq<(Seq<char>, TomlV)>, key: Seq<char>) -> Option<TomlV>
    decreases es.len(),
{
    if es.len() == 0 {
        None
    } else if es[0].0 == key {
        Some(es[0].1)
    } else {
        entry_of(es.drop_first(), key)
    }
}

/// `value.get(key)`: the entry of a table, nothing for any other value.
pub open spec fn get_v(v: TomlV, key: Seq<char>) -> Option<TomlV> {
    match v {
        TomlV::Table(es, _) => entry_of(es, key),
        _ => None,
    }
}

/// `get` on a value that may be absent.
pub open spec fn get_opt(v: Option<TomlV>, key: Seq<char>) -> Option<TomlV> {
    match v {
        Some(x) => get_v(x, key),
        None => None,
    }
}

/// The text of a string value; nothing for any other value.
pub open spec fn as_str_v(v: Option<TomlV>) -> Option<Seq<char>> {
    match v {
        Some(TomlV::Str(s)) => Some(s),
        _ => None,
    }
}

/// A value as a message shows it: a string as itself, anything else in
/// its TOML rendering.
pub open spec fn text_v(v: TomlV) -> Seq<char> {
    match v {
        TomlV::Str(s) => s,
        TomlV::Array(_, r) => r,
        TomlV::Table(_, r) => r,
        TomlV::Other(r) => r,
    }
}

/// A value that may be absent as a message shows it (`None` when absent).
pub open spec fn shown_v(v: Option<TomlV>) -> Seq<char> {
    match v {
        Some(x) => text_v(x),
        None => "None"@,
    }
}

/// The `satisfied_by` citation: one string, a list (each item as a
/// message shows it), or nothing for an absent value or one of another type.
pub open spec fn citation_v(v: Option<TomlV>) -> CitationV {
    match v {
        Some(TomlV::Str(s)) => CitationV::Str(s),
        Some(TomlV::Array(items, _)) => CitationV::List(items.map_values(|x: TomlV| text_v(x))),
        _ => CitationV::Null,
    }
}

/// An optional borrowed value by its model.
pub open spec fn opt_tv(v: Option<&TomlValue>) -> Option<TomlV> {
    match v {
        Some(x) => Some(x@),
        None => None,
    }
}

proof fn lemma_entry_of(es: Seq<(Seq<char>, TomlV)>, key: Seq<char>, i: int)
    requires
        0 <= i <= es.len(),
        forall|k: int| 0 <= k < i ==> (#[trigger] es[k]).0 != key,
    ensures
        i < es.len() && es[i].0 == key ==> entry_of(es, key) == Some(es[i].1),
        i == es.len() ==> entry_of(es, key) is None,
    decreases i,
{
    if i > 0 {
        let t = es.drop_first();
        assert forall|k: int| 0 <= k < i - 1 implies (#[trigger] t[k]).0 != key by {
            assert(t[k] == es[k + 1]);
        }
        lemma_entry_of(t, key, i - 1);
        assert(es[0].0 != key);
    }
}

/// `value.get(key)`.
pub fn get<'a>(v: &'a TomlValue, key: &str) -> (r: Option<&'a TomlValue>)
    ensures
        opt_tv(r) == get_v(v@, key@),
{
    match v {
        TomlValue::Table(es, rend) => {
            let ghost ev = entries_view(es@, es@.len() as int);
            assert(v@ == TomlV::Table(ev, rend@));
            proof { lemma_entries_view(es@, es@.len() as int); }
            let mut i: usize = 0;
            while i < es.len()
                invariant
                    i <= es@.len(),
                    ev == entries_view(es@, es@.len() as int),
                    v@ == TomlV::Table(ev, rend@),
                    ev.len() == es@.len(),
                    forall|j: int| 0 <= j < es@.len() ==> #[trigger] ev[j] == (es@[j].key@, toml_view(es@[j].value)),
                    forall|k: int| 0 <= k < i ==> (#[trigger] ev[k]).0 != key@,
                decreases es.len() - i,
            {
                let kc = to_chars(es[i].key.as_str());
                if eq_lit(&kc, key) {
                    let x = &es[i].value;
                    proof {
                        assert(ev[i as int].0 == key@);
                        lemma_entry_of(ev, key@, i as int);
                        assert(x@ == ev[i as int].1);
                    }
                    return Some(x);
                }
                assert(ev[i as int].0 != key@);
                i = i + 1;
            }
            proof { lemma_entry_of(ev, key@, i as int); }
            None
        },
        _ => None,
    }
}

/// `get` on a value that may be absent.
pub fn get_in<'a>(v: Option<&'a TomlValue>, key: &str) -> (r: Option<&'a TomlValue>)
    ensures
        opt_tv(r) == get_opt(opt_tv(v), key@),
{
    match v {
        Some(x) => get(x, key),
        None => None,
    }
}

/// The text of a string value.
pub fn as_str(v: Option<&TomlValue>) -> (r: Option<String>)
    ensures
        ov(r) == as_str_v(opt_tv(v)),
{
    match v {
        Some(TomlValue::Str(s)) => Some(s.clone()),
        _ => None,
    }
}

/// A value as a message shows it.
pub fn text_of(v: &TomlValue) -> (r: String)
    ensures
        r@ == text_v(v@),
{
    match v {
        TomlValue::Str(s) => s.clone(),
        TomlValue::Array(_, r) => r.clone(),
        TomlValue::Table(_, r) => r.clone(),
        TomlValue::Other(r) => r.clone(),
    }
}

/// A value that may be absent as a message shows it.
pub fn shown(v: Option<&TomlValue>) -> (r: String)
    ensures
        r@ == shown_v(opt_tv(v)),
{
    match v {
        Some(x) => text_of(x),
        None => {
            proof { reveal_strlit("None"); }
            "None".to_string()
        },
    }
}

/// The `satisfied_by` citation of a row.
pub fn citation(v: Option<&TomlValue>) -> (r: Citation)
    ensures
        r@ == citation_v(opt_tv(v)),
{
    match v {
        Some(TomlValue::Str(s)) => Citation::Str(s.clone()),
        Some(TomlValue::Array(items, _)) => {
            let ghost iv = items_view(items@, items@.len() as int);
            proof { lemma_items_view(items@, items@.len() as int); }
            let mut out: Vec<String> = Vec::new();
            let mut i: usize = 0;
            while i < items.len()
                invariant
                    i <= items@.len(),
                    iv == items_view(items@, items@.len() as int),
                    iv.len() == items@.len(),
                    forall|j: int| 0 <= j < items@.len() ==> #[trigger] iv[j] == toml_view(items@[j]),
                    texts(out@) =~= iv.take(i as int).map_values(|x: TomlV| text_v(x)),
                decreases items.len() - i,
            {
                let t = text_of(&items[i]);
                proof { crate::textset::lemma_texts_push(out@, t); }
                out.push(t);
                assert(iv.take(i + 1) =~= iv.take(i as int).push(iv[i as int]));
                i = i + 1;
            }
            assert(iv.take(i as int) =~= iv);
            Citation::List(out)
        },
        _ => Citation::Null,
    }
}

// ---------------------------------------------------------------------
// The registry's rows and exclusions
// ---------------------------------------------------------------------

/// One `[[obligation]]` row as read from the registry, before its cited
/// paths are resolved on disk. A field that is absent or not a string
/// reads `None`; a row that is not a table reads as an empty one.
#[derive(Debug, Clone)]
pub struct RegistryRow {
    pub id: Option<String>,
    pub adr: Option<String>,
    pub kind: Option<String>,
    pub kind_shown: String,
    pub statement: Option<String>,
    pub status: Option<String>,
    pub status_shown: String,
    pub satisfied_by: Citation,
    pub tracking: Option<String>,
    pub exempt_until: Option<String>,
    pub exempt_reason: Option<String>,
}

/// The string field `key` of a row.
pub open spec fn field_v(t: TomlV, key: Seq<char>) -> Option<Seq<char>> {
    as_str_v(get_v(t, key))
}

/// `r` is what reading the row `t` gives.
pub open spec fn row_read(r: RegistryRow, t: TomlV) -> bool {
    &&& ov(r.id) == field_v(t, "id"@)
    &&& ov(r.adr) == field_v(t, "adr"@)
    &&& ov(r.kind) == field_v(t, "kind"@)
    &&& r.kind_shown@ == shown_v(get_v(t, "kind"@))
    &&& ov(r.statement) == field_v(t, "statement"@)
    &&& ov(r.status) == field_v(t, "status"@)
    &&& r.status_shown@ == shown_v(get_v(t, "status"@))
    &&& r.satisfied_by@ == citation_v(get_v(t, "satisfied_by"@))
    &&& ov(r.tracking) == field_v(t, "tracking"@)
    &&& ov(r.exempt_until) == field_v(t, "exempt_until"@)
    &&& ov(r.exempt_reason) == field_v(t, "exempt_reason"@)
}

/// The `[[obligation]]` rows of a document: the items of its `obligation`
/// array, none when that is absent or not an array.
pub open spec fn registry_rows(doc: TomlV) -> Seq<TomlV> {
    match get_v(doc, "obligation"@) {
        Some(TomlV::Array(items, _)) => items,
        _ => Seq::empty(),
    }
}

/// The `[meta].excluded` entries of a document, none when absent or not
/// an array.
pub open spec fn excluded_entries(doc: TomlV) -> Seq<TomlV> {
    match get_opt(get_v(doc, "meta"@), "excluded"@) {
        Some(TomlV::Array(items, _)) => items,
        _ => Seq::empty(),
    }
}

/// `x` is the `adr` string of some `[meta].excluded` entry.
pub open spec fn is_excluded(doc: TomlV, x: Seq<char>) -> bool {
    exists|j: int| 0 <= j < excluded_entries(doc).len()
        && as_str_v(get_v(#[trigger] excluded_entries(doc)[j], "adr"@)) == Some(x)
}

/// Read one row.
pub fn registry_row(t: &TomlValue) -> (r: RegistryRow)
    ensures
        row_read(r, t@),
{
    RegistryRow {
        id: as_str(get(t, "id")),
        adr: as_str(get(t, "adr")),
        kind: as_str(get(t, "kind")),
        kind_shown: shown(get(t, "kind")),
        statement: as_str(get(t, "statement")),
        status: as_str(get(t, "status")),
        status_shown: shown(get(t, "status")),
        satisfied_by: citation(get(t, "satisfied_by")),
        tracking: as_str(get(t, "tracking")),
        exempt_until: as_str(get(t, "exempt_until")),
        exempt_reason: as_str(get(t, "exempt_reason")),
    }
}

/// The ADR ids `[meta].excluded` names (entries without a string `adr`
/// are skipped).
pub fn excluded_ids(doc: &TomlValue) -> (r: TextSet)
    ensures
        r.wf(),
        forall|x: Seq<char>| #[trigger] r@.contains(x) <==> is_excluded(doc@, x),
{
    let mut ids = TextSet::new();
    let meta = get(doc, "meta");
    let ex = get_in(meta, "excluded");
    match ex {
        Some(TomlValue::Array(items, _)) => {
            let ghost iv = items_view(items@, items@.len() as int);
            proof {
                lemma_items_view(items@, items@.len() as int);
                assert(excluded_entries(doc@) == iv);
            }
            let mut i: usize = 0;
            while i < items.len()
                invariant
                    i <= items@.len(),
                    iv == excluded_entries(doc@),
                    iv.len() == items@.len(),
                    forall|j: int| 0 <= j < items@.len() ==> #[trigger] iv[j] == toml_view(items@[j]),
                    ids.wf(),
                    forall|x: Seq<char>| #[trigger] ids@.contains(x)
                        <==> exists|j: int| 0 <= j < i && as_str_v(get_v(#[trigger] iv[j], "adr"@)) == Some(x),
                decreases items.len() - i,
            {
                let ghost before = ids@;
                let adr = as_str(get(&items[i], "adr"));
                assert(iv[i as int] == items@[i as int]@);
                match adr {
                    Some(a) => {
                        let ghost av = a@;
                        ids.insert(a);
                        assert forall|x: Seq<char>| #[trigger] ids@.contains(x)
                            <==> exists|j: int| 0 <= j < i + 1 && as_str_v(get_v(#[trigger] iv[j], "adr"@)) == Some(x) by {
                            if ids@.contains(x) && x != av {
                                assert(before.contains(x));
                            }
                            if exists|j: int| 0 <= j < i + 1 && as_str_v(get_v(#[trigger] iv[j], "adr"@)) == Some(x) {
                                let j = choose|j: int| 0 <= j < i + 1 && as_str_v(get_v(#[trigger] iv[j], "adr"@)) == Some(x);
                                if j < i {
                                    assert(before.contains(x));
                                }
                            }
                        }
                    },
                    None => {
                        assert forall|x: Seq<char>| #[trigger] ids@.contains(x)
                            <==> exists|j: int| 0 <= j < i + 1 && as_str_v(get_v(#[trigger] iv[j], "adr"@)) == Some(x) by {
                            if exists|j: int| 0 <= j < i + 1 && as_str_v(get_v(#[trigger] iv[j], "adr"@)) == Some(x) {
                                let j = choose|j: int| 0 <= j < i + 1 && as_str_v(get_v(#[trigger] iv[j], "adr"@)) == Some(x);
                                assert(j < i);
                            }
                        }
                    },
                }
                i = i + 1;
            }
        },
        _ => {
            assert(excluded_entries(doc@).len() == 0);
        },
    }
    ids
}

/// The `[[obligation]]` rows, read in order.
pub fn registry_rows_of(doc: &TomlValue) -> (r: Vec<RegistryRow>)
    ensures
        r@.len() == registry_rows(doc@).len(),
        forall|i: int| 0 <= i < r@.len() ==> row_read(#[trigger] r@[i], registry_rows(doc@)[i]),
{
    let mut out: Vec<RegistryRow> = Vec::new();
    match get(doc, "obligation") {
        Some(TomlValue::Array(items, _)) => {
            let ghost iv = items_view(items@, items@.len() as int);
            proof {
                lemma_items_view(items@, items@.len() as int);
                assert(registry_rows(doc@) == iv);
            }
            let mut i: usize = 0;
            while i < items.len()
                invariant
                    i <= items@.len(),
                    iv == registry_rows(doc@),
                    iv.len() == items@.len(),
                    forall|j: int| 0 <= j < items@.len() ==> #[trigger] iv[j] == toml_view(items@[j]),
                    out@.len() == i,
                    forall|j: int| 0 <= j < i ==> row_read(#[trigger] out@[j], iv[j]),
                decreases items.len() - i,
            {
                let row = registry_row(&items[i]);
                assert(iv[i as int] == items@[i as int]@);
                out.push(row);
                i = i + 1;
            }
        },
        _ => {},
    }
    out
}

/// The excluded ADR ids and the rows of a registry document.
pub fn registry_of(doc: &TomlValue) -> (r: (TextSet, Vec<RegistryRow>))
    ensures
        r.0.wf(),
        forall|x: Seq<char>| #[trigger] r.0@.contains(x) <==> is_excluded(doc@, x),
        r.1@.len() == registry_rows(doc@).len(),
        forall|i: int| 0 <= i < r.1@.len() ==> row_read(#[trigger] r.1@[i], registry_rows(doc@)[i]),
{
    (excluded_ids(doc), registry_rows_of(doc))
}

/// The paths a citation names, in order.
pub fn citation_paths(c: &Citation) -> (r: Vec<String>)
    ensures
        texts(r@) == crate::obligations::sb_paths(*c),
{
    match c {
        Citation::Null => Vec::new(),
        Citation::Str(s) => {
            let v = vec![s.clone()];
            assert(texts(v@) =~= seq![s@]);
            v
        },
        Citation::List(v) => {
            let w = v.clone();
            assert(texts(w@) =~= texts(v@)) by {
                assert forall|i: int| 0 <= i < v@.len() implies w@[i] == v@[i] by {
                    assert(cloned::<String>(v@[i], w@[i]));
                }
            }
            w
        },
    }
}

/// A read row with whether each of its cited paths resolved.
pub fn obligation_row(row: RegistryRow, resolved: Vec<bool>) -> (r: ObligationRow)
    ensures
        r.id == row.id,
        r.adr == row.adr,
        r.kind == row.kind,
        r.kind_shown == row.kind_shown,
        r.statement == row.statement,
        r.status == row.status,
        r.status_shown == row.status_shown,
        r.satisfied_by == row.satisfied_by,
        r.resolved == resolved,
        r.tracking == row.tracking,
        r.exempt_until == row.exempt_until,
        r.exempt_reason == row.exempt_reason,
{
    ObligationRow {
        id: row.id,
        adr: row.adr,
        kind: row.kind,
        kind_shown: row.kind_shown,
        statement: row.statement,
        status: row.status,
        status_shown: row.status_shown,
        satisfied_by: row.satisfied_by,
        resolved,
        tracking: row.tracking,
        exempt_until: row.exempt_until,
        exempt_reason: row.exempt_reason,
    }
}

} // verus!
