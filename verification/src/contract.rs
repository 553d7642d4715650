//! The registry contract: the typed canonical form of `contract.json` and
//! the structural checks a JSON Schema cannot express (internal foreign
//! keys, lifecycle integrity, facet presence, uniqueness).
//!
//! Parsing the JSON bytes into these types is serde's work, outside this
//! module; here a parsed contract is checked and queried.

use crate::obligations::{cat2, extend, holds, none, one};
use crate::text::{dec, push_dec, push_str, push_string};
use crate::textset::texts;
use vstd::prelude::*;

verus! {

/// `serde_json`'s error type, carried by [`ContractError::Parse`].
#[verifier::external_type_specification]
#[verifier::external_body]
pub struct ExJsonError(serde_json::Error);

/// A raw JSON value, as a forward-declared relations block holds it.
#[verifier::external_type_specification]
#[verifier::external_body]
pub struct ExJsonValue(serde_json::Value);

/// Lowest `format_version` this build understands.
pub const TOOL_FORMAT_MIN: u32 = 1;
/// Highest `format_version` this build understands.
pub const TOOL_FORMAT_MAX: u32 = 1;

/// A registry's contract: a format generation and the collection roster.
#[derive(Debug)]
pub struct Contract {
    /// Engine/contract parse capability, the only in-file version.
    pub format_version: u32,
    /// The collection roster.
    pub collections: Vec<Collection>,
}

/// One collection descriptor: a generic entity kind.
#[derive(Debug)]
pub struct Collection {
    pub name: String,
    pub id: IdScheme,
    pub lifecycle: Option<Lifecycle>,
    pub fields: Vec<Field>,
    /// Typed relations, kept as raw JSON until their vocabulary lands.
    pub relations: Vec<serde_json::Value>,
    pub open_properties: bool,
    pub render: Option<RenderCollection>,
}

/// Identity scheme of a collection.
#[derive(Debug, Clone, PartialEq, Eq)]
pub struct IdScheme {
    pub scheme: String,
    /// One default scheme per registry.
    pub default: bool,
    pub mintable: bool,
    pub prefix_length: Option<u32>,
}

/// Status machine of a collection.
#[derive(Debug, Clone, PartialEq, Eq)]
pub struct Lifecycle {
    pub statuses: Vec<String>,
    /// from-status and its allowed to-statuses, in from-status order.
    pub transitions: Vec<(String, Vec<String>)>,
    pub initial: String,
}

/// The scalar type of a field (the data shape, not the widget).
#[derive(Clone, Copy, Debug, PartialEq, Eq, Structural)]
pub enum FieldType {
    String,
    Enum,
    Integer,
    Number,
    Decimal,
    Date,
    Timestamp,
    Bool,
    Reference,
    Attachment,
    Object,
}

/// Policy for a value outside the source set.
#[derive(Clone, Copy, Debug, PartialEq, Eq, Structural)]
pub enum OnUnknown {
    Create,
    Warn,
    Reject,
}

/// The enum facet `closed`: `true`, `false` or `"warn"`.
#[derive(Clone, Debug, PartialEq, Eq)]
pub enum Closed {
    /// `true` rejects unknowns; `false` accepts them.
    Flag(bool),
    /// `"warn"`: accept, with a warning.
    Mode(String),
}

impl Closed {
    /// Whether the facet rejects values outside the field's `values`:
    /// only `true` does.
    pub fn rejects_unknown(&self) -> (r: bool)
        ensures
            r == (*self == Closed::Flag(true)),
    {
        match self {
            Closed::Flag(b) => *b,
            Closed::Mode(_) => false,
        }
    }
}

/// The object facet `schema`: nested fields, or a reference to a shape.
#[derive(Debug)]
pub enum ObjectSchema {
    Fields(Vec<Field>),
    Ref(SchemaRef),
}

/// `{ "$ref": ... }` to a shared shape.
#[derive(Clone, Debug, PartialEq, Eq)]
pub struct SchemaRef {
    pub ref_: String,
}

/// One field descriptor, flat: the facets sit beside the type.
#[derive(Debug)]
pub struct Field {
    pub key: String,
    pub type_: FieldType,
    pub label: String,
    pub editable: bool,
    pub required: Option<bool>,
    pub required_to_enter: Option<String>,
    pub meaningful_from: Option<String>,
    pub on_unknown: Option<OnUnknown>,
    pub render: Option<RenderField>,
    pub pattern: Option<String>,
    pub max_length: Option<u64>,
    pub values: Option<Vec<String>>,
    pub closed: Option<Closed>,
    /// The numeric lower bound, by the bits of its IEEE 754 double.
    pub min_bits: Option<u64>,
    /// The numeric upper bound, by the bits of its IEEE 754 double.
    pub max_bits: Option<u64>,
    pub unit: Option<String>,
    pub precision: Option<u32>,
    pub scale: Option<u32>,
    pub collection: Option<String>,
    pub key_field: Option<String>,
    pub display: Option<String>,
    pub constraint: Option<String>,
    pub schema: Option<ObjectSchema>,
}

/// The widget a shell draws for a field.
#[derive(Clone, Debug, PartialEq, Eq)]
pub struct RenderField {
    pub widget: Option<Widget>,
    pub group: Option<String>,
    pub order: Option<i64>,
    pub suggest_from: Option<String>,
}

/// Widgets a shell can draw.
#[derive(Clone, Copy, Debug, PartialEq, Eq, Structural)]
pub enum Widget {
    Text,
    Textarea,
    Dropdown,
    Combobox,
    Toggle,
    Picker,
    Date,
    Number,
    File,
}

/// Collection-level rendering.
#[derive(Clone, Debug, PartialEq, Eq)]
pub struct RenderCollection {
    pub label_fields: Vec<String>,
}

/// Why bytes are not a usable contract.
#[derive(Debug)]
pub enum ContractError {
    /// The bytes are not the canonical shape.
    Parse(serde_json::Error),
    /// The contract parsed but is internally inconsistent: every problem
    /// found, in one pass.
    Invalid(Vec<String>),
}

/// Whether this build understands the contract's format generation.
pub fn is_compatible(contract: &Contract) -> (r: bool)
    ensures
        r == (TOOL_FORMAT_MIN <= contract.format_version <= TOOL_FORMAT_MAX),
{
    TOOL_FORMAT_MIN <= contract.format_version && contract.format_version <= TOOL_FORMAT_MAX
}

// ---------------------------------------------------------------------
// The structural checks, as specifications
// ---------------------------------------------------------------------

/// The names of the collections.
pub open spec fn names(cs: Seq<Collection>) -> Seq<Seq<char>> {
    cs.map_values(|c: Collection| c.name@)
}

/// How many of the first `k` collections claim the default id scheme.
pub open spec fn count_defaults(cs: Seq<Collection>, k: int) -> nat
    decreases k,
{
    if k <= 0 {
        0
    } else {
        count_defaults(cs, k - 1) + (if cs[k - 1].id.default { 1nat } else { 0nat })
    }
}

/// Duplicate-name complaints for the first `k` collections.
pub open spec fn dup_names(cs: Seq<Collection>, k: int) -> Seq<Seq<char>>
    decreases k,
{
    if k <= 0 {
        Seq::empty()
    } else {
        dup_names(cs, k - 1) + (if names(cs).take(k - 1).contains(cs[k - 1].name@) {
            seq!["collections: duplicate collection name `"@ + cs[k - 1].name@ + "`"@]
        } else {
            Seq::empty()
        })
    }
}

/// Complaints about undeclared targets among the first `k` to-statuses.
pub open spec fn to_errs(w: Seq<char>, st: Seq<Seq<char>>, from: Seq<char>, tos: Seq<Seq<char>>, k: int) -> Seq<Seq<char>>
    decreases k,
{
    if k <= 0 {
        Seq::empty()
    } else {
        to_errs(w, st, from, tos, k - 1) + (if !st.contains(tos[k - 1]) {
            seq![w + ".lifecycle.transitions: `"@ + from + "` -> `"@ + tos[k - 1] + "` targets undeclared status"@]
        } else {
            Seq::empty()
        })
    }
}

/// Complaints about the first `k` transitions.
pub open spec fn trans_errs(w: Seq<char>, st: Seq<Seq<char>>, tr: Seq<(String, Vec<String>)>, k: int) -> Seq<Seq<char>>
    decreases k,
{
    if k <= 0 {
        Seq::empty()
    } else {
        let from = tr[k - 1].0@;
        let tos = texts(tr[k - 1].1@);
        trans_errs(w, st, tr, k - 1) + (if !st.contains(from) {
            seq![w + ".lifecycle.transitions: from-status `"@ + from + "` is not declared"@]
        } else {
            Seq::empty()
        }) + to_errs(w, st, from, tos, tos.len() as int)
    }
}

/// Lifecycle integrity: statuses non-empty, initial and every transition
/// endpoint declared.
pub open spec fn lifecycle_errs(w: Seq<char>, lc: Option<Lifecycle>) -> Seq<Seq<char>> {
    match lc {
        None => Seq::empty(),
        Some(l) => {
            let st = texts(l.statuses@);
            (if st.len() == 0 { seq![w + ".lifecycle.statuses: must be non-empty"@] } else { Seq::empty() })
                + (if !st.contains(l.initial@) {
                    seq![w + ".lifecycle.initial `"@ + l.initial@ + "` is not a declared status"@]
                } else {
                    Seq::empty()
                })
                + trans_errs(w, st, l.transitions@, l.transitions@.len() as int)
        },
    }
}

/// The keys of fields.
pub open spec fn keys(fs: Seq<Field>) -> Seq<Seq<char>> {
    fs.map_values(|f: Field| f.key@)
}

/// Duplicate-key complaints for the first `k` fields, each `pre + key + "`"`.
pub open spec fn dup_keys(pre: Seq<char>, fs: Seq<Field>, k: int) -> Seq<Seq<char>>
    decreases k,
{
    if k <= 0 {
        Seq::empty()
    } else {
        dup_keys(pre, fs, k - 1) + (if keys(fs).take(k - 1).contains(fs[k - 1].key@) {
            seq![pre + fs[k - 1].key@ + "`"@]
        } else {
            Seq::empty()
        })
    }
}

/// A lifecycle-coupled flag must name a status of a collection that has
/// a lifecycle.
pub open spec fn flag_errs(
    at: Seq<char>,
    flag: Seq<char>,
    val: Option<String>,
    coll: Seq<char>,
    statuses: Seq<Seq<char>>,
    has_lc: bool,
) -> Seq<Seq<char>> {
    match val {
        None => Seq::empty(),
        Some(s) => if !has_lc {
            seq![at + "."@ + flag + " names `"@ + s@ + "` but `"@ + coll + "` has no lifecycle"@]
        } else if !statuses.contains(s@) {
            seq![at + "."@ + flag + " `"@ + s@ + "` is not a declared status"@]
        } else {
            Seq::empty()
        },
    }
}

/// The facets a field's type requires, outside nested object fields.
pub open spec fn facet_errs(f: Field, at: Seq<char>, declared: Seq<Seq<char>>) -> Seq<Seq<char>> {
    match f.type_ {
        FieldType::Reference => match f.collection {
            None => seq![at + ": reference field requires `collection`"@],
            Some(t) => if !declared.contains(t@) {
                seq![at + ": reference targets undeclared collection `"@ + t@ + "`"@]
            } else {
                Seq::empty()
            },
        },
        FieldType::Object => match f.schema {
            None => seq![at + ": object field requires `schema` (no freeform-json backdoor)"@],
            Some(_) => Seq::empty(),
        },
        FieldType::Enum => match f.values {
            Some(v) => if v@.len() == 0 {
                seq![at + ": enum field requires a non-empty `values` set"@]
            } else {
                Seq::empty()
            },
            None => seq![at + ": enum field requires a non-empty `values` set"@],
        },
        FieldType::Decimal => match (f.precision, f.scale) {
            (Some(p), Some(s)) => if s > p {
                seq![at + ": decimal scale ("@ + dec(s as nat) + ") cannot exceed precision ("@ + dec(p as nat) + ")"@]
            } else {
                Seq::empty()
            },
            _ => seq![at + ": decimal field requires `precision` and `scale`"@],
        },
        _ => Seq::empty(),
    }
}

/// An empty key, then an empty label.
pub open spec fn head_errs(f: Field, coll: Seq<char>) -> Seq<Seq<char>> {
    let at = coll + "."@ + f.key@;
    (if f.key@.len() == 0 { seq![coll + ".fields[]: empty field key"@] } else { Seq::empty() })
        + (if f.label@.len() == 0 {
            seq![at + ".label: must be non-empty (descriptor owns display)"@]
        } else {
            Seq::empty()
        })
}

/// Every complaint about one field of collection (or object) `coll`:
/// empty key, empty label, missing or dangling facets, nested object
/// fields (which carry no lifecycle), then the lifecycle-coupled flags.
pub open spec fn field_errs(
    f: Field,
    coll: Seq<char>,
    declared: Seq<Seq<char>>,
    statuses: Seq<Seq<char>>,
    has_lc: bool,
) -> Seq<Seq<char>>
    decreases f, 1int,
{
    let at = coll + "."@ + f.key@;
    head_errs(f, coll)
        + facet_errs(f, at, declared)
        + object_errs(f, at, declared)
        + flag_errs(at, "required_to_enter"@, f.required_to_enter, coll, statuses, has_lc)
        + flag_errs(at, "meaningful_from"@, f.meaningful_from, coll, statuses, has_lc)
}

/// The complaints about an object field's nested fields.
pub open spec fn object_errs(f: Field, at: Seq<char>, declared: Seq<Seq<char>>) -> Seq<Seq<char>>
    decreases f, 0int,
{
    if f.type_ == FieldType::Object {
        match f.schema {
            Some(ObjectSchema::Fields(v)) => nested_errs(v@, v@.len() as int, at, declared),
            _ => Seq::empty(),
        }
    } else {
        Seq::empty()
    }
}

/// Complaints about the first `k` nested fields of object `at`: a
/// duplicate key, then the nested field's own complaints.
pub open spec fn nested_errs(nested: Seq<Field>, k: int, at: Seq<char>, declared: Seq<Seq<char>>) -> Seq<Seq<char>>
    decreases nested, k,
{
    if k <= 0 || k > nested.len() {
        Seq::empty()
    } else {
        nested_errs(nested, k - 1, at, declared) + (if keys(nested).take(k - 1).contains(nested[k - 1].key@) {
            seq![at + ".schema: duplicate nested key `"@ + nested[k - 1].key@ + "`"@]
        } else {
            Seq::empty()
        }) + field_errs(nested[k - 1], at, declared, Seq::empty(), false)
    }
}

/// Complaints about the first `k` fields of a collection.
pub open spec fn fields_errs(
    fs: Seq<Field>,
    k: int,
    coll: Seq<char>,
    declared: Seq<Seq<char>>,
    statuses: Seq<Seq<char>>,
    has_lc: bool,
) -> Seq<Seq<char>>
    decreases k,
{
    if k <= 0 {
        Seq::empty()
    } else {
        fields_errs(fs, k - 1, coll, declared, statuses, has_lc) + field_errs(fs[k - 1], coll, declared, statuses, has_lc)
    }
}

/// The statuses a collection's fields may name.
pub open spec fn statuses_of(c: Collection) -> Seq<Seq<char>> {
    match c.lifecycle {
        Some(l) => texts(l.statuses@),
        None => Seq::empty(),
    }
}

/// Every complaint about one collection.
pub open spec fn collection_errs(c: Collection, declared: Seq<Seq<char>>) -> Seq<Seq<char>> {
    let w = c.name@;
    (if w.len() == 0 { seq!["collections[]: empty collection name"@] } else { Seq::empty() })
        + lifecycle_errs(w, c.lifecycle)
        + dup_keys(w + ".fields: duplicate field key `"@, c.fields@, c.fields@.len() as int)
        + fields_errs(c.fields@, c.fields@.len() as int, w, declared, statuses_of(c), c.lifecycle is Some)
}

/// Complaints about the first `k` collections.
pub open spec fn collections_errs(cs: Seq<Collection>, k: int, declared: Seq<Seq<char>>) -> Seq<Seq<char>>
    decreases k,
{
    if k <= 0 {
        Seq::empty()
    } else {
        collections_errs(cs, k - 1, declared) + collection_errs(cs[k - 1], declared)
    }
}

/// Every structural complaint about a contract, in the order they are
/// reported.
pub open spec fn contract_errs(c: Contract) -> Seq<Seq<char>> {
    let cs = c.collections@;
    (if cs.len() == 0 { seq!["collections: must declare at least one collection"@] } else { Seq::empty() })
        + (if count_defaults(cs, cs.len() as int) != 1 {
            seq!["id.default: exactly one collection must be the default id scheme, found "@
                + dec(count_defaults(cs, cs.len() as int))]
        } else {
            Seq::empty()
        })
        + dup_names(cs, cs.len() as int)
        + collections_errs(cs, cs.len() as int, names(cs))
}

// ---------------------------------------------------------------------
// The structural checks, executable
// ---------------------------------------------------------------------

fn flag_check(
    at: &String,
    flag: &str,
    val: &Option<String>,
    coll: &str,
    statuses: &Vec<String>,
    has_lifecycle: bool,
    errs: &mut Vec<String>,
)
    ensures
        texts(final(errs)@) == texts(old(errs)@) + flag_errs(at@, flag@, *val, coll@, texts(statuses@), has_lifecycle),
{
    match val {
        None => {
            assert(texts(errs@) =~= texts(errs@) + Seq::<Seq<char>>::empty());
        },
        Some(st) => {
            if !has_lifecycle {
                let mut m = at.clone();
                push_str(&mut m, ".");
                push_str(&mut m, flag);
                push_str(&mut m, " names `");
                push_string(&mut m, st);
                push_str(&mut m, "` but `");
                push_str(&mut m, coll);
                push_str(&mut m, "` has no lifecycle");
                assert(m@ =~= at@ + "."@ + flag@ + " names `"@ + st@ + "` but `"@ + coll@ + "` has no lifecycle"@);
                extend(errs, &one(m));
            } else if !holds(statuses, st) {
                let mut m = at.clone();
                push_str(&mut m, ".");
                push_str(&mut m, flag);
                push_str(&mut m, " `");
                push_string(&mut m, st);
                push_str(&mut m, "` is not a declared status");
                assert(m@ =~= at@ + "."@ + flag@ + " `"@ + st@ + "` is not a declared status"@);
                extend(errs, &one(m));
            } else {
                assert(texts(errs@) =~= texts(errs@) + Seq::<Seq<char>>::empty());
            }
        },
    }
}

fn facet_check(f: &Field, at: &String, declared: &Vec<String>, errs: &mut Vec<String>)
    ensures
        texts(final(errs)@) == texts(old(errs)@) + facet_errs(*f, at@, texts(declared@)),
{
    let mut m: Vec<String> = none();
    match f.type_ {
        FieldType::Reference => match &f.collection {
            None => {
                m = one(cat2(at.as_str(), ": reference field requires `collection`"));
            },
            Some(t) => {
                if !holds(declared, t) {
                    let mut s = cat2(at.as_str(), ": reference targets undeclared collection `");
                    push_string(&mut s, t);
                    push_str(&mut s, "`");
                    assert(s@ =~= at@ + ": reference targets undeclared collection `"@ + t@ + "`"@);
                    m = one(s);
                }
            },
        },
        FieldType::Object => {
            if f.schema.is_none() {
                m = one(cat2(at.as_str(), ": object field requires `schema` (no freeform-json backdoor)"));
            }
        },
        FieldType::Enum => {
            let empty = match &f.values {
                Some(v) => v.len() == 0,
                None => true,
            };
            if empty {
                m = one(cat2(at.as_str(), ": enum field requires a non-empty `values` set"));
            }
        },
        FieldType::Decimal => match (f.precision, f.scale) {
            (Some(p), Some(sc)) => {
                if sc > p {
                    let mut s = cat2(at.as_str(), ": decimal scale (");
                    push_dec(&mut s, sc as u128);
                    push_str(&mut s, ") cannot exceed precision (");
                    push_dec(&mut s, p as u128);
                    push_str(&mut s, ")");
                    assert(s@ =~= at@ + ": decimal scale ("@ + dec(sc as nat) + ") cannot exceed precision ("@ + dec(p as nat) + ")"@);
                    m = one(s);
                }
            },
            _ => {
                m = one(cat2(at.as_str(), ": decimal field requires `precision` and `scale`"));
            },
        },
        _ => {},
    }
    extend(errs, &m);
}

/// Appends the complaints about the nested fields `v` of object `at`.
fn nested_check(v: &Vec<Field>, at: &String, declared: &Vec<String>, errs: &mut Vec<String>)
    ensures
        texts(final(errs)@) == texts(old(errs)@) + nested_errs(v@, v@.len() as int, at@, texts(declared@)),
    decreases v, 0int,
{
    let ghost e3 = texts(errs@);
    let ghost dv = texts(declared@);
    let no_statuses: Vec<String> = Vec::new();
    assert(texts(no_statuses@) =~= Seq::<Seq<char>>::empty());
    let mut seen: Vec<String> = Vec::new();
    let mut i: usize = 0;
    while i < v.len()
        invariant
            i <= v@.len(),
            texts(no_statuses@) == Seq::<Seq<char>>::empty(),
            texts(seen@) == keys(v@).take(i as int),
            dv == texts(declared@),
            texts(errs@) == e3 + nested_errs(v@, i as int, at@, dv),
        decreases v.len() - i,
    {
        let nf = &v[i];
        if holds(&seen, &nf.key) {
            let mut s = cat2(at.as_str(), ".schema: duplicate nested key `");
            push_string(&mut s, &nf.key);
            push_str(&mut s, "`");
            assert(s@ =~= at@ + ".schema: duplicate nested key `"@ + nf.key@ + "`"@);
            extend(errs, &one(s));
        } else {
            extend(errs, &none());
        }
        proof {
            assert(decreases_to!(*v => v@));
            assert(decreases_to!(v@ => v@[i as int]));
        }
        nf.validate_into(at.as_str(), declared, &no_statuses, false, errs);
        let ghost sb = seen@;
        let k = nf.key.clone();
        seen.push(k);
        proof {
            crate::textset::lemma_texts_push(sb, k);
            assert(keys(v@).take(i + 1) =~= keys(v@).take(i as int).push(nf.key@));
        }
        assert(texts(errs@) =~= e3 + nested_errs(v@, i + 1, at@, dv));
        i = i + 1;
    }
}

/// Appends the complaints about an object field's nested fields.
fn object_check(f: &Field, at: &String, declared: &Vec<String>, errs: &mut Vec<String>)
    ensures
        texts(final(errs)@) == texts(old(errs)@) + object_errs(*f, at@, texts(declared@)),
    decreases f, 0int,
{
    if f.type_ == FieldType::Object {
        match &f.schema {
            Some(os) => {
                match os {
                    ObjectSchema::Fields(v) => {
                        proof {
                            assert(decreases_to!(*f => f.schema));
                            assert(decreases_to!(f.schema => *os));
                            assert(decreases_to!(*os => *v));
                        }
                        nested_check(v, at, declared, errs);
                    },
                    _ => {
                        extend(errs, &none());
                    },
                }
            },
            None => {
                extend(errs, &none());
            },
        }
    } else {
        extend(errs, &none());
    }
}

fn head_check(f: &Field, coll: &str, at: &String, errs: &mut Vec<String>)
    requires
        at@ == coll@ + "."@ + f.key@,
    ensures
        texts(final(errs)@) == texts(old(errs)@) + head_errs(*f, coll@),
{
    let mut m: Vec<String> = Vec::new();
    if f.key.as_str().unicode_len() == 0 {
        m.push(cat2(coll, ".fields[]: empty field key"));
    }
    if f.label.as_str().unicode_len() == 0 {
        m.push(cat2(at.as_str(), ".label: must be non-empty (descriptor owns display)"));
    }
    assert(texts(m@) =~= head_errs(*f, coll@));
    extend(errs, &m);
}

impl Field {
    /// Appends every complaint about this field of collection (or object)
    /// `coll` to `errs`: an empty key or label, the facets its type
    /// requires, its nested object fields, and lifecycle flags that name
    /// no status of `statuses` (or of a collection without a lifecycle).
    #[verifier::spinoff_prover]
    pub fn validate_into(
        &self,
        coll: &str,
        declared: &Vec<String>,
        statuses: &Vec<String>,
        has_lifecycle: bool,
        errs: &mut Vec<String>,
    )
        ensures
            texts(final(errs)@) == texts(old(errs)@)
                + field_errs(*self, coll@, texts(declared@), texts(statuses@), has_lifecycle),
        decreases self, 1int,
    {
        let ghost e0 = texts(errs@);
        let ghost dv = texts(declared@);
        let ghost sv = texts(statuses@);
        let mut at = coll.to_owned();
        push_str(&mut at, ".");
        push_string(&mut at, &self.key);
        assert(at@ =~= coll@ + "."@ + self.key@);
        head_check(self, coll, &at, errs);
        let ghost e1 = texts(errs@);
        facet_check(self, &at, declared, errs);
        let ghost e2 = texts(errs@);
        object_check(self, &at, declared, errs);
        let ghost e3 = texts(errs@);
        flag_check(&at, "required_to_enter", &self.required_to_enter, coll, statuses, has_lifecycle, errs);
        let ghost e4 = texts(errs@);
        flag_check(&at, "meaningful_from", &self.meaningful_from, coll, statuses, has_lifecycle, errs);
        proof {
            let pa = head_errs(*self, coll@);
            let pc = facet_errs(*self, at@, dv);
            let pd = object_errs(*self, at@, dv);
            let pe = flag_errs(at@, "required_to_enter"@, self.required_to_enter, coll@, sv, has_lifecycle);
            let pf = flag_errs(at@, "meaningful_from"@, self.meaningful_from, coll@, sv, has_lifecycle);
            assert(field_errs(*self, coll@, dv, sv, has_lifecycle) == pa + pc + pd + pe + pf);
            assert(texts(errs@) =~= e0 + (pa + pc + pd + pe + pf));
        }
    }
}

fn lifecycle_check(w: &String, lc: &Option<Lifecycle>, errs: &mut Vec<String>)
    ensures
        texts(final(errs)@) == texts(old(errs)@) + lifecycle_errs(w@, *lc),
{
    match lc {
        None => {
            extend(errs, &none());
        },
        Some(l) => {
            let ghost e0 = texts(errs@);
            let ghost st = texts(l.statuses@);
            let mut m: Vec<String> = Vec::new();
            if l.statuses.len() == 0 {
                m.push(cat2(w.as_str(), ".lifecycle.statuses: must be non-empty"));
            }
            if !holds(&l.statuses, &l.initial) {
                let mut s = cat2(w.as_str(), ".lifecycle.initial `");
                push_string(&mut s, &l.initial);
                push_str(&mut s, "` is not a declared status");
                assert(s@ =~= w@ + ".lifecycle.initial `"@ + l.initial@ + "` is not a declared status"@);
                m.push(s);
            }
            assert(texts(m@) =~= (if st.len() == 0 { seq![w@ + ".lifecycle.statuses: must be non-empty"@] } else { Seq::empty() })
                + (if !st.contains(l.initial@) {
                    seq![w@ + ".lifecycle.initial `"@ + l.initial@ + "` is not a declared status"@]
                } else {
                    Seq::empty()
                }));
            extend(errs, &m);
            let ghost e1 = texts(errs@);
            let tr = &l.transitions;
            let mut i: usize = 0;
            while i < tr.len()
                invariant
                    i <= tr@.len(),
                    st == texts(l.statuses@),
                    texts(errs@) == e1 + trans_errs(w@, st, tr@, i as int),
                decreases tr.len() - i,
            {
                let from = &tr[i].0;
                let tos = &tr[i].1;
                let ghost eb = texts(errs@);
                if !holds(&l.statuses, from) {
                    let mut s = cat2(w.as_str(), ".lifecycle.transitions: from-status `");
                    push_string(&mut s, from);
                    push_str(&mut s, "` is not declared");
                    assert(s@ =~= w@ + ".lifecycle.transitions: from-status `"@ + from@ + "` is not declared"@);
                    extend(errs, &one(s));
                } else {
                    extend(errs, &none());
                }
                let ghost em = texts(errs@);
                let mut j: usize = 0;
                while j < tos.len()
                    invariant
                        j <= tos@.len(),
                        st == texts(l.statuses@),
                        texts(errs@) == em + to_errs(w@, st, from@, texts(tos@), j as int),
                    decreases tos.len() - j,
                {
                    if !holds(&l.statuses, &tos[j]) {
                        let mut s = cat2(w.as_str(), ".lifecycle.transitions: `");
                        push_string(&mut s, from);
                        push_str(&mut s, "` -> `");
                        push_string(&mut s, &tos[j]);
                        push_str(&mut s, "` targets undeclared status");
                        assert(s@ =~= w@ + ".lifecycle.transitions: `"@ + from@ + "` -> `"@ + tos@[j as int]@ + "` targets undeclared status"@);
                        extend(errs, &one(s));
                    } else {
                        extend(errs, &none());
                    }
                    assert(texts(errs@) =~= em + to_errs(w@, st, from@, texts(tos@), j + 1));
                    j = j + 1;
                }
                assert(texts(errs@) =~= e1 + trans_errs(w@, st, tr@, i + 1));
                i = i + 1;
            }
            assert(texts(errs@) =~= e0 + lifecycle_errs(w@, *lc));
        },
    }
}

fn dup_key_check(pre: &String, fs: &Vec<Field>, errs: &mut Vec<String>)
    ensures
        texts(final(errs)@) == texts(old(errs)@) + dup_keys(pre@, fs@, fs@.len() as int),
{
    let ghost e0 = texts(errs@);
    let mut seen: Vec<String> = Vec::new();
    let mut i: usize = 0;
    while i < fs.len()
        invariant
            i <= fs@.len(),
            texts(seen@) == keys(fs@).take(i as int),
            texts(errs@) == e0 + dup_keys(pre@, fs@, i as int),
        decreases fs.len() - i,
    {
        if holds(&seen, &fs[i].key) {
            let mut s = pre.clone();
            push_string(&mut s, &fs[i].key);
            push_str(&mut s, "`");
            extend(errs, &one(s));
        } else {
            extend(errs, &none());
        }
        let ghost sb = seen@;
        let k = fs[i].key.clone();
        seen.push(k);
        proof {
            crate::textset::lemma_texts_push(sb, k);
            assert(keys(fs@).take(i + 1) =~= keys(fs@).take(i as int).push(fs@[i as int].key@));
        }
        assert(texts(errs@) =~= e0 + dup_keys(pre@, fs@, i + 1));
        i = i + 1;
    }
}

impl Collection {
    /// Appends every complaint about this collection to `errs`: an empty
    /// name, lifecycle integrity, duplicate field keys, then each field's
    /// own complaints (`declared` is the roster of collection names).
    pub fn validate_into(&self, declared: &Vec<String>, errs: &mut Vec<String>)
        ensures
            texts(final(errs)@) == texts(old(errs)@) + collection_errs(*self, texts(declared@)),
    {
        let ghost e0 = texts(errs@);
        let ghost dv = texts(declared@);
        let w = &self.name;
        if w.as_str().unicode_len() == 0 {
            extend(errs, &one("collections[]: empty collection name".to_owned()));
        } else {
            extend(errs, &none());
        }
        let ghost e1 = texts(errs@);
        lifecycle_check(w, &self.lifecycle, errs);
        let ghost e2 = texts(errs@);
        let pre = cat2(w.as_str(), ".fields: duplicate field key `");
        dup_key_check(&pre, &self.fields, errs);
        let ghost e3 = texts(errs@);
        let statuses: Vec<String> = match &self.lifecycle {
            Some(l) => crate::obligations::copy_texts(&l.statuses),
            None => Vec::new(),
        };
        assert(texts(statuses@) =~= statuses_of(*self));
        let has_lc = self.lifecycle.is_some();
        let mut i: usize = 0;
        while i < self.fields.len()
            invariant
                i <= self.fields@.len(),
                dv == texts(declared@),
                texts(statuses@) == statuses_of(*self),
                has_lc == self.lifecycle is Some,
                texts(errs@) == e3 + fields_errs(self.fields@, i as int, w@, dv, statuses_of(*self), has_lc),
            decreases self.fields.len() - i,
        {
            self.fields[i].validate_into(w.as_str(), declared, &statuses, has_lc, errs);
            assert(texts(errs@) =~= e3 + fields_errs(self.fields@, i + 1, w@, dv, statuses_of(*self), has_lc));
            i = i + 1;
        }
        assert(texts(errs@) =~= e0 + collection_errs(*self, dv));
    }
}

impl Contract {
    /// Runs the structural checks, collecting every failure: an empty
    /// roster, not exactly one default id scheme, duplicate collection
    /// names, then each collection's complaints. `Ok` exactly when there
    /// is none.
    pub fn validate(&self) -> (r: Result<(), ContractError>)
        ensures
            r is Ok <==> contract_errs(*self).len() == 0,
            r matches Err(e) ==> (e matches ContractError::Invalid(v) && texts(v@) == contract_errs(*self)),
    {
        let cs = &self.collections;
        let ghost csv = cs@;
        let mut errs: Vec<String> = Vec::new();
        if cs.len() == 0 {
            errs.push("collections: must declare at least one collection".to_owned());
        }
        let ghost e0 = texts(errs@);
        assert(e0 =~= (if csv.len() == 0 { seq!["collections: must declare at least one collection"@] } else { Seq::<Seq<char>>::empty() }));
        let mut declared: Vec<String> = Vec::new();
        let mut defaults: usize = 0;
        let mut i: usize = 0;
        while i < cs.len()
            invariant
                i <= csv.len(),
                csv == cs@,
                texts(declared@) == names(csv).take(i as int),
                defaults == count_defaults(csv, i as int),
                defaults <= i,
            decreases cs.len() - i,
        {
            let ghost db = declared@;
            let n = cs[i].name.clone();
            declared.push(n);
            proof {
                crate::textset::lemma_texts_push(db, n);
                assert(names(csv).take(i + 1) =~= names(csv).take(i as int).push(csv[i as int].name@));
            }
            if cs[i].id.default {
                defaults = defaults + 1;
            }
            i = i + 1;
        }
        assert(names(csv).take(i as int) =~= names(csv));
        if defaults != 1 {
            let mut s = "id.default: exactly one collection must be the default id scheme, found ".to_owned();
            push_dec(&mut s, defaults as u128);
            extend(&mut errs, &one(s));
        } else {
            extend(&mut errs, &none());
        }
        let ghost e1 = texts(errs@);
        // duplicate names, in roster order
        let mut k: usize = 0;
        while k < cs.len()
            invariant
                k <= csv.len(),
                csv == cs@,
                texts(declared@) == names(csv),
                texts(errs@) == e1 + dup_names(csv, k as int),
            decreases cs.len() - k,
        {
            let ghost eb = texts(errs@);
            assert(declared@.len() == texts(declared@).len());
            let mut seen_before = false;
            let mut j: usize = 0;
            while j < k
                invariant
                    j <= k < csv.len(),
                    csv == cs@,
                    texts(declared@) == names(csv),
                    declared@.len() == csv.len(),
                    seen_before == names(csv).take(j as int).contains(csv[k as int].name@),
                decreases k - j,
            {
                assert(names(csv).take(j + 1) =~= names(csv).take(j as int).push(csv[j as int].name@));
                assert(texts(declared@)[j as int] == declared@[j as int]@);
                assert(names(csv)[j as int] == csv[j as int].name@);
                assert(names(csv)[k as int] == csv[k as int].name@);
                let ghost prev = seen_before;
                if declared[j] == cs[k].name {
                    seen_before = true;
                }
                proof {
                    let y = csv[k as int].name@;
                    let t0 = names(csv).take(j as int);
                    let t1 = names(csv).take(j + 1);
                    if t1.contains(y) {
                        let idx = choose|idx: int| 0 <= idx < t1.len() && t1[idx] == y;
                        if idx < j {
                            assert(t0[idx] == y);
                        }
                    }
                    if t0.contains(y) {
                        let idx = choose|idx: int| 0 <= idx < t0.len() && t0[idx] == y;
                        assert(t1[idx] == y);
                    }
                    if names(csv)[j as int] == y {
                        assert(t1[j as int] == y);
                    }
                }
                j = j + 1;
            }
            if seen_before {
                let mut s = "collections: duplicate collection name `".to_owned();
                push_string(&mut s, &cs[k].name);
                push_str(&mut s, "`");
                extend(&mut errs, &one(s));
            } else {
                extend(&mut errs, &none());
            }
            assert(texts(errs@) =~= e1 + dup_names(csv, k + 1));
            k = k + 1;
        }
        let ghost e2 = texts(errs@);
        let mut k: usize = 0;
        while k < cs.len()
            invariant
                k <= csv.len(),
                csv == cs@,
                texts(declared@) == names(csv),
                texts(errs@) == e2 + collections_errs(csv, k as int, names(csv)),
            decreases cs.len() - k,
        {
            cs[k].validate_into(&declared, &mut errs);
            assert(texts(errs@) =~= e2 + collections_errs(csv, k + 1, names(csv)));
            k = k + 1;
        }
        assert(texts(errs@) =~= contract_errs(*self));
        if errs.len() == 0 {
            Ok(())
        } else {
            Err(ContractError::Invalid(errs))
        }
    }

    /// The first collection named `name`.
    pub fn collection(&self, name: &str) -> (r: Option<&Collection>)
        ensures
            match r {
                Some(c) => exists|i: int| 0 <= i < self.collections@.len() && self.collections@[i] == *c
                    && c.name@ == name@ && !names(self.collections@).take(i).contains(name@),
                None => !names(self.collections@).contains(name@),
            },
    {
        let cs = &self.collections;
        let ghost nm = names(cs@);
        let mut i: usize = 0;
        while i < cs.len()
            invariant
                i <= cs@.len(),
                *cs == self.collections,
                nm == names(cs@),
                !nm.take(i as int).contains(name@),
            decreases cs.len() - i,
        {
            if crate::text::eq_lit(&crate::text::to_chars(cs[i].name.as_str()), name) {
                assert(0 <= i < self.collections@.len() && self.collections@[i as int] == cs@[i as int]
                    && cs@[i as int].name@ == name@ && !names(self.collections@).take(i as int).contains(name@));
                return Some(&cs[i]);
            }
            assert(nm.take(i + 1) =~= nm.take(i as int).push(cs@[i as int].name@));
            i = i + 1;
        }
        assert(nm.take(i as int) =~= nm);
        None
    }

    /// The first collection that claims the default id scheme.
    pub fn default_collection(&self) -> (r: Option<&Collection>)
        ensures
            match r {
                Some(c) => exists|i: int| 0 <= i < self.collections@.len() && self.collections@[i] == *c
                    && c.id.default && forall|j: int| 0 <= j < i ==> !(#[trigger] self.collections@[j]).id.default,
                None => forall|j: int| 0 <= j < self.collections@.len() ==> !(#[trigger] self.collections@[j]).id.default,
            },
    {
        let cs = &self.collections;
        let mut i: usize = 0;
        while i < cs.len()
            invariant
                i <= cs@.len(),
                *cs == self.collections,
                forall|j: int| 0 <= j < i ==> !(#[trigger] cs@[j]).id.default,
            decreases cs.len() - i,
        {
            if cs[i].id.default {
                assert(0 <= i < self.collections@.len() && self.collections@[i as int] == cs@[i as int]
                    && cs@[i as int].id.default
                    && forall|j: int| 0 <= j < i ==> !(#[trigger] self.collections@[j]).id.default);
                return Some(&cs[i]);
            }
            i = i + 1;
        }
        None
    }
}

// ---------------------------------------------------------------------
// Laws
// ---------------------------------------------------------------------

/// A field whose required facets are present, whose reference names a
/// declared collection, and whose lifecycle flags name declared statuses.
pub open spec fn field_consistent(f: Field, declared: Seq<Seq<char>>, statuses: Seq<Seq<char>>, has_lc: bool) -> bool {
    &&& f.type_ == FieldType::Reference ==> (f.collection matches Some(t) && declared.contains(t@))
    &&& f.type_ == FieldType::Object ==> f.schema is Some
    &&& f.type_ == FieldType::Enum ==> (f.values matches Some(v) && v@.len() > 0)
    &&& f.type_ == FieldType::Decimal ==> (f.precision matches Some(p) && f.scale matches Some(s) && s <= p)
    &&& f.required_to_enter matches Some(s) ==> (has_lc && statuses.contains(s@))
    &&& f.meaningful_from matches Some(s) ==> (has_lc && statuses.contains(s@))
}

proof fn lemma_field_clean(f: Field, coll: Seq<char>, declared: Seq<Seq<char>>, statuses: Seq<Seq<char>>, has_lc: bool)
    requires
        field_errs(f, coll, declared, statuses, has_lc).len() == 0,
    ensures
        field_consistent(f, declared, statuses, has_lc),
{
    let at = coll + "."@ + f.key@;
    assert(facet_errs(f, at, declared).len() == 0);
    assert(flag_errs(at, "required_to_enter"@, f.required_to_enter, coll, statuses, has_lc).len() == 0);
    assert(flag_errs(at, "meaningful_from"@, f.meaningful_from, coll, statuses, has_lc).len() == 0);
}

proof fn lemma_fields_clean(
    fs: Seq<Field>,
    k: int,
    coll: Seq<char>,
    declared: Seq<Seq<char>>,
    statuses: Seq<Seq<char>>,
    has_lc: bool,
)
    requires
        0 <= k <= fs.len(),
        fields_errs(fs, k, coll, declared, statuses, has_lc).len() == 0,
    ensures
        forall|j: int| 0 <= j < k ==> field_consistent(#[trigger] fs[j], declared, statuses, has_lc),
    decreases k,
{
    if k > 0 {
        lemma_fields_clean(fs, k - 1, coll, declared, statuses, has_lc);
        lemma_field_clean(fs[k - 1], coll, declared, statuses, has_lc);
    }
}

proof fn lemma_collections_clean(cs: Seq<Collection>, k: int, declared: Seq<Seq<char>>)
    requires
        0 <= k <= cs.len(),
        collections_errs(cs, k, declared).len() == 0,
    ensures
        forall|j: int| 0 <= j < k ==> (#[trigger] collection_errs(cs[j], declared)).len() == 0,
    decreases k,
{
    if k > 0 {
        lemma_collections_clean(cs, k - 1, declared);
    }
}

proof fn lemma_names_distinct(cs: Seq<Collection>, k: int)
    requires
        0 <= k <= cs.len(),
        dup_names(cs, k).len() == 0,
    ensures
        forall|i: int, j: int| 0 <= i < j < k ==> (#[trigger] cs[i]).name@ != (#[trigger] cs[j]).name@,
    decreases k,
{
    if k > 0 {
        lemma_names_distinct(cs, k - 1);
        assert forall|i: int| 0 <= i < k - 1 implies (#[trigger] cs[i]).name@ != cs[k - 1].name@ by {
            if cs[i].name@ == cs[k - 1].name@ {
                assert(names(cs).take(k - 1)[i] == cs[i].name@);
            }
        }
    }
}

/// A contract that passes the structural checks is internally consistent:
/// it declares at least one collection, exactly one default id scheme and
/// no name twice; every lifecycle has statuses and a declared initial
/// status; and every field of a collection has the facets its type
/// requires, references only declared collections and gates only on
/// declared statuses of a collection that has a lifecycle.
pub proof fn law_valid_contract_is_consistent(c: Contract)
    requires
        contract_errs(c).len() == 0,
    ensures
        c.collections@.len() > 0,
        count_defaults(c.collections@, c.collections@.len() as int) == 1,
        forall|i: int, j: int| 0 <= i < j < c.collections@.len()
            ==> (#[trigger] c.collections@[i]).name@ != (#[trigger] c.collections@[j]).name@,
        forall|i: int| 0 <= i < c.collections@.len() ==> ((#[trigger] c.collections@[i]).lifecycle matches Some(l)
            ==> (l.statuses@.len() > 0 && texts(l.statuses@).contains(l.initial@))),
        forall|i: int, k: int| 0 <= i < c.collections@.len() && 0 <= k < c.collections@[i].fields@.len()
            ==> field_consistent(#[trigger] c.collections@[i].fields@[k], names(c.collections@),
                statuses_of(c.collections@[i]), c.collections@[i].lifecycle is Some),
{
    let cs = c.collections@;
    let n = cs.len() as int;
    lemma_names_distinct(cs, n);
    lemma_collections_clean(cs, n, names(cs));
    assert forall|i: int| 0 <= i < n implies ((#[trigger] cs[i]).lifecycle matches Some(l)
        ==> (l.statuses@.len() > 0 && texts(l.statuses@).contains(l.initial@))) by {
        assert(collection_errs(cs[i], names(cs)).len() == 0);
        assert(lifecycle_errs(cs[i].name@, cs[i].lifecycle).len() == 0);
    }
    assert forall|i: int, k: int| 0 <= i < n && 0 <= k < cs[i].fields@.len()
        implies field_consistent(#[trigger] cs[i].fields@[k], names(cs), statuses_of(cs[i]), cs[i].lifecycle is Some) by {
        let col = cs[i];
        assert(collection_errs(col, names(cs)).len() == 0);
        assert(fields_errs(col.fields@, col.fields@.len() as int, col.name@, names(cs), statuses_of(col), col.lifecycle is Some).len() == 0);
        lemma_fields_clean(col.fields@, col.fields@.len() as int, col.name@, names(cs), statuses_of(col), col.lifecycle is Some);
    }
}


// ---------- the structural checks, stated positively ----------

/// No text of the first `k` repeats an earlier one.
pub open spec fn all_distinct(t: Seq<Seq<char>>, k: int) -> bool {
    forall|i: int, j: int| 0 <= i < j < k ==> t[i] != t[j]
}

proof fn lemma_distinct_step(t: Seq<Seq<char>>, k: int)
    requires
        0 < k <= t.len(),
    ensures
        all_distinct(t, k) <==> (all_distinct(t, k - 1) && !t.take(k - 1).contains(t[k - 1])),
{
    if all_distinct(t, k) {
        if t.take(k - 1).contains(t[k - 1]) {
            let i = choose|i: int| 0 <= i < t.take(k - 1).len() && #[trigger] t.take(k - 1)[i] == t[k - 1];
            assert(t[i] == t[k - 1]);
        }
    }
    if all_distinct(t, k - 1) && !t.take(k - 1).contains(t[k - 1]) {
        assert forall|i: int, j: int| 0 <= i < j < k implies t[i] != t[j] by {
            if j == k - 1 {
                assert(t.take(k - 1)[i] == t[i]);
            }
        }
    }
}

/// A lifecycle-coupled flag names a declared status of a collection that
/// has a lifecycle.
pub open spec fn flag_ok(val: Option<String>, statuses: Seq<Seq<char>>, has_lc: bool) -> bool {
    val matches Some(s) ==> (has_lc && statuses.contains(s@))
}

/// The facets a field's type requires are present and consistent.
pub open spec fn facets_ok(f: Field, declared: Seq<Seq<char>>) -> bool {
    &&& f.type_ == FieldType::Reference ==> (f.collection matches Some(t) && declared.contains(t@))
    &&& f.type_ == FieldType::Object ==> f.schema is Some
    &&& f.type_ == FieldType::Enum ==> (f.values matches Some(v) && v@.len() > 0)
    &&& f.type_ == FieldType::Decimal ==> (f.precision matches Some(p) && f.scale matches Some(s) && s <= p)
}

/// One field is sound: a key, a label, its facets, sound nested fields
/// when it is an object with inline fields, and its flags.
pub open spec fn field_ok(f: Field, coll: Seq<char>, declared: Seq<Seq<char>>, statuses: Seq<Seq<char>>, has_lc: bool) -> bool
    decreases f, 1int,
{
    &&& f.key@.len() > 0
    &&& f.label@.len() > 0
    &&& facets_ok(f, declared)
    &&& object_ok(f, coll + "."@ + f.key@, declared)
    &&& flag_ok(f.required_to_enter, statuses, has_lc)
    &&& flag_ok(f.meaningful_from, statuses, has_lc)
}

/// An object field's inline fields are sound.
pub open spec fn object_ok(f: Field, at: Seq<char>, declared: Seq<Seq<char>>) -> bool
    decreases f, 0int,
{
    if f.type_ == FieldType::Object {
        match f.schema {
            Some(ObjectSchema::Fields(v)) => nested_ok(v@, v@.len() as int, at, declared),
            _ => true,
        }
    } else {
        true
    }
}

/// The first `k` inline fields have distinct keys and are sound (with no
/// lifecycle of their own).
pub open spec fn nested_ok(nested: Seq<Field>, k: int, at: Seq<char>, declared: Seq<Seq<char>>) -> bool
    decreases nested, k,
{
    if k <= 0 || k > nested.len() {
        true
    } else {
        &&& nested_ok(nested, k - 1, at, declared)
        &&& !keys(nested).take(k - 1).contains(nested[k - 1].key@)
        &&& field_ok(nested[k - 1], at, declared, Seq::empty(), false)
    }
}

proof fn lemma_field_iff(f: Field, coll: Seq<char>, declared: Seq<Seq<char>>, statuses: Seq<Seq<char>>, has_lc: bool)
    ensures
        field_errs(f, coll, declared, statuses, has_lc).len() == 0 <==> field_ok(f, coll, declared, statuses, has_lc),
    decreases f, 1int,
{
    let at = coll + "."@ + f.key@;
    lemma_object_iff(f, at, declared);
    assert(head_errs(f, coll).len() == 0 <==> (f.key@.len() > 0 && f.label@.len() > 0));
    assert(facet_errs(f, at, declared).len() == 0 <==> facets_ok(f, declared));
    assert(flag_errs(at, "required_to_enter"@, f.required_to_enter, coll, statuses, has_lc).len() == 0
        <==> flag_ok(f.required_to_enter, statuses, has_lc));
    assert(flag_errs(at, "meaningful_from"@, f.meaningful_from, coll, statuses, has_lc).len() == 0
        <==> flag_ok(f.meaningful_from, statuses, has_lc));
}

proof fn lemma_object_iff(f: Field, at: Seq<char>, declared: Seq<Seq<char>>)
    ensures
        object_errs(f, at, declared).len() == 0 <==> object_ok(f, at, declared),
    decreases f, 0int,
{
    if f.type_ == FieldType::Object {
        match f.schema {
            Some(ObjectSchema::Fields(v)) => {
                lemma_nested_iff(v@, v@.len() as int, at, declared);
            },
            _ => {},
        }
    }
}

proof fn lemma_nested_iff(nested: Seq<Field>, k: int, at: Seq<char>, declared: Seq<Seq<char>>)
    ensures
        nested_errs(nested, k, at, declared).len() == 0 <==> nested_ok(nested, k, at, declared),
    decreases nested, k,
{
    if 0 < k <= nested.len() {
        lemma_nested_iff(nested, k - 1, at, declared);
        lemma_field_iff(nested[k - 1], at, declared, Seq::empty(), false);
    }
}

/// Every field of the first `k` is sound.
pub open spec fn fields_ok(fs: Seq<Field>, k: int, coll: Seq<char>, declared: Seq<Seq<char>>, statuses: Seq<Seq<char>>, has_lc: bool) -> bool {
    forall|j: int| 0 <= j < k ==> field_ok(#[trigger] fs[j], coll, declared, statuses, has_lc)
}

proof fn lemma_fields_iff(fs: Seq<Field>, k: int, coll: Seq<char>, declared: Seq<Seq<char>>, statuses: Seq<Seq<char>>, has_lc: bool)
    requires
        0 <= k <= fs.len(),
    ensures
        fields_errs(fs, k, coll, declared, statuses, has_lc).len() == 0 <==> fields_ok(fs, k, coll, declared, statuses, has_lc),
    decreases k,
{
    if k > 0 {
        lemma_fields_iff(fs, k - 1, coll, declared, statuses, has_lc);
        lemma_field_iff(fs[k - 1], coll, declared, statuses, has_lc);
        if fields_ok(fs, k, coll, declared, statuses, has_lc) {
            assert(field_ok(fs[k - 1], coll, declared, statuses, has_lc));
        }
    }
}

proof fn lemma_dup_keys_iff(pre: Seq<char>, fs: Seq<Field>, k: int)
    requires
        0 <= k <= fs.len(),
    ensures
        dup_keys(pre, fs, k).len() == 0 <==> all_distinct(keys(fs), k),
    decreases k,
{
    if k > 0 {
        lemma_dup_keys_iff(pre, fs, k - 1);
        lemma_distinct_step(keys(fs), k);
        assert(keys(fs)[k - 1] == fs[k - 1].key@);
    }
}

proof fn lemma_dup_names_iff(cs: Seq<Collection>, k: int)
    requires
        0 <= k <= cs.len(),
    ensures
        dup_names(cs, k).len() == 0 <==> all_distinct(names(cs), k),
    decreases k,
{
    if k > 0 {
        lemma_dup_names_iff(cs, k - 1);
        lemma_distinct_step(names(cs), k);
        assert(names(cs)[k - 1] == cs[k - 1].name@);
    }
}

/// The to-statuses of the first `k` transitions are declared.
pub open spec fn tos_ok(st: Seq<Seq<char>>, tos: Seq<Seq<char>>, k: int) -> bool {
    forall|u: int| 0 <= u < k ==> st.contains(#[trigger] tos[u])
}

proof fn lemma_to_iff(w: Seq<char>, st: Seq<Seq<char>>, from: Seq<char>, tos: Seq<Seq<char>>, k: int)
    requires
        0 <= k <= tos.len(),
    ensures
        to_errs(w, st, from, tos, k).len() == 0 <==> tos_ok(st, tos, k),
    decreases k,
{
    if k > 0 {
        lemma_to_iff(w, st, from, tos, k - 1);
        if tos_ok(st, tos, k) {
            assert(st.contains(tos[k - 1]));
        }
    }
}

/// Every transition of the first `k` starts and ends at declared statuses.
pub open spec fn transitions_ok(st: Seq<Seq<char>>, tr: Seq<(String, Vec<String>)>, k: int) -> bool {
    forall|t: int| 0 <= t < k ==> st.contains((#[trigger] tr[t]).0@) && tos_ok(st, texts(tr[t].1@), texts(tr[t].1@).len() as int)
}

proof fn lemma_trans_iff(w: Seq<char>, st: Seq<Seq<char>>, tr: Seq<(String, Vec<String>)>, k: int)
    requires
        0 <= k <= tr.len(),
    ensures
        trans_errs(w, st, tr, k).len() == 0 <==> transitions_ok(st, tr, k),
    decreases k,
{
    if k > 0 {
        lemma_trans_iff(w, st, tr, k - 1);
        let from = tr[k - 1].0@;
        let tos = texts(tr[k - 1].1@);
        lemma_to_iff(w, st, from, tos, tos.len() as int);
        if transitions_ok(st, tr, k) {
            assert(st.contains(tr[k - 1].0@));
        }
    }
}

/// A lifecycle, if any, has statuses, a declared initial status and
/// transitions between declared statuses only.
pub open spec fn lifecycle_ok(lc: Option<Lifecycle>) -> bool {
    match lc {
        None => true,
        Some(l) => {
            let st = texts(l.statuses@);
            &&& st.len() > 0
            &&& st.contains(l.initial@)
            &&& transitions_ok(st, l.transitions@, l.transitions@.len() as int)
        },
    }
}

/// One collection is sound: a name, a sound lifecycle, distinct field
/// keys and sound fields.
pub open spec fn collection_ok(c: Collection, declared: Seq<Seq<char>>) -> bool {
    &&& c.name@.len() > 0
    &&& lifecycle_ok(c.lifecycle)
    &&& all_distinct(keys(c.fields@), c.fields@.len() as int)
    &&& fields_ok(c.fields@, c.fields@.len() as int, c.name@, declared, statuses_of(c), c.lifecycle is Some)
}

/// A contract is consistent: at least one collection, exactly one
/// default id scheme, distinct collection names, every collection sound
/// against the declared names.
pub open spec fn consistent(c: Contract) -> bool {
    let cs = c.collections@;
    &&& cs.len() > 0
    &&& count_defaults(cs, cs.len() as int) == 1
    &&& all_distinct(names(cs), cs.len() as int)
    &&& forall|i: int| 0 <= i < cs.len() ==> collection_ok(#[trigger] cs[i], names(cs))
}

proof fn lemma_collection_iff(c: Collection, declared: Seq<Seq<char>>)
    ensures
        collection_errs(c, declared).len() == 0 <==> collection_ok(c, declared),
{
    match c.lifecycle {
        Some(l) => {
            lemma_trans_iff(c.name@, texts(l.statuses@), l.transitions@, l.transitions@.len() as int);
        },
        None => {},
    }
    lemma_dup_keys_iff(c.name@ + ".fields: duplicate field key `"@, c.fields@, c.fields@.len() as int);
    lemma_fields_iff(c.fields@, c.fields@.len() as int, c.name@, declared, statuses_of(c), c.lifecycle is Some);
}

proof fn lemma_collections_iff(cs: Seq<Collection>, k: int, declared: Seq<Seq<char>>)
    requires
        0 <= k <= cs.len(),
    ensures
        collections_errs(cs, k, declared).len() == 0 <==> (forall|i: int| 0 <= i < k ==> collection_ok(#[trigger] cs[i], declared)),
    decreases k,
{
    if k > 0 {
        lemma_collections_iff(cs, k - 1, declared);
        lemma_collection_iff(cs[k - 1], declared);
        if forall|i: int| 0 <= i < k ==> collection_ok(#[trigger] cs[i], declared) {
            assert(collection_ok(cs[k - 1], declared));
        }
    }
}

/// Law: a contract passes the structural checks exactly when it is
/// consistent, so `validate` returns `Ok` exactly then.
pub proof fn law_valid_iff_consistent(c: Contract)
    ensures
        contract_errs(c).len() == 0 <==> consistent(c),
{
    let cs = c.collections@;
    lemma_dup_names_iff(cs, cs.len() as int);
    lemma_collections_iff(cs, cs.len() as int, names(cs));
}

} // verus!
