use part_registry::contract::{
    is_compatible, Closed, Collection, Contract, ContractError, Field, FieldType, IdScheme, Lifecycle,
    ObjectSchema, SchemaRef,
};

#[test]
fn closed_facet_rejects_unknown_semantics() {
    assert!(Closed::Flag(true).rejects_unknown());
    assert!(!Closed::Flag(false).rejects_unknown());
    assert!(!Closed::Mode("warn".into()).rejects_unknown());
}

// ---------- own cases: the structural checks on built contracts ----------

fn field(key: &str, type_: FieldType, label: &str) -> Field {
    Field {
        key: key.into(),
        type_,
        label: label.into(),
        editable: true,
        required: None,
        required_to_enter: None,
        meaningful_from: None,
        on_unknown: None,
        render: None,
        pattern: None,
        max_length: None,
        values: None,
        closed: None,
        min_bits: None,
        max_bits: None,
        unit: None,
        precision: None,
        scale: None,
        collection: None,
        key_field: None,
        display: None,
        constraint: None,
        schema: None,
    }
}

fn collection(name: &str, default: bool, fields: Vec<Field>) -> Collection {
    Collection {
        name: name.into(),
        id: IdScheme { scheme: "nano14".into(), default, mintable: true, prefix_length: None },
        lifecycle: None,
        fields,
        relations: vec![],
        open_properties: false,
        render: None,
    }
}

fn contract(collections: Vec<Collection>) -> Contract {
    Contract { format_version: 1, collections }
}

fn errors(c: &Contract) -> Vec<String> {
    match c.validate() {
        Ok(()) => vec![],
        Err(ContractError::Invalid(v)) => v,
        Err(other) => panic!("expected Invalid, got {other:?}"),
    }
}

#[test]
fn a_minimal_contract_is_valid_and_compatible() {
    let c = contract(vec![collection("parts", true, vec![field("name", FieldType::String, "Name")])]);
    assert!(c.validate().is_ok());
    assert!(is_compatible(&c));
    assert!(!is_compatible(&Contract { format_version: 99, collections: vec![] }));
    assert_eq!(c.default_collection().map(|c| c.name.as_str()), Some("parts"));
    assert_eq!(c.collection("parts").map(|c| c.name.as_str()), Some("parts"));
    assert!(c.collection("ghosts").is_none());
}

#[test]
fn reference_and_facet_rules() {
    let mut r = field("v", FieldType::Reference, "V");
    let mut r2 = field("w", FieldType::Reference, "W");
    r2.collection = Some("ghosts".into());
    let mut d = field("d", FieldType::Decimal, "D");
    d.precision = Some(2);
    d.scale = Some(4);
    let d2 = field("e", FieldType::Decimal, "E");
    let en = field("f", FieldType::Enum, "F");
    let o = field("o", FieldType::Object, "O");
    r.collection = None;
    let c = contract(vec![collection("parts", true, vec![r, r2, d, d2, en, o])]);
    assert_eq!(
        errors(&c),
        vec![
            "parts.v: reference field requires `collection`",
            "parts.w: reference targets undeclared collection `ghosts`",
            "parts.d: decimal scale (4) cannot exceed precision (2)",
            "parts.e: decimal field requires `precision` and `scale`",
            "parts.f: enum field requires a non-empty `values` set",
            "parts.o: object field requires `schema` (no freeform-json backdoor)",
        ]
    );
}

#[test]
fn roster_rules_collect_every_problem() {
    let c = contract(vec![]);
    assert_eq!(
        errors(&c),
        vec![
            "collections: must declare at least one collection",
            "id.default: exactly one collection must be the default id scheme, found 0",
        ]
    );
    let c = contract(vec![
        collection("parts", true, vec![]),
        collection("parts", true, vec![field("", FieldType::String, "")]),
    ]);
    assert_eq!(
        errors(&c),
        vec![
            "id.default: exactly one collection must be the default id scheme, found 2",
            "collections: duplicate collection name `parts`",
            "parts.fields[]: empty field key",
            "parts..label: must be non-empty (descriptor owns display)",
        ]
    );
}

#[test]
fn lifecycle_and_flag_rules() {
    let mut parts = collection("parts", true, vec![]);
    parts.lifecycle = Some(Lifecycle {
        statuses: vec!["draft".into(), "bound".into()],
        transitions: vec![
            ("draft".into(), vec!["bound".into(), "gone".into()]),
            ("limbo".into(), vec![]),
        ],
        initial: "z".into(),
    });
    let mut x = field("x", FieldType::String, "X");
    x.required_to_enter = Some("bound".into());
    x.meaningful_from = Some("later".into());
    let mut dup = field("x", FieldType::String, "X2");
    dup.required_to_enter = None;
    parts.fields = vec![x, dup];
    let mut vendors = collection("vendors", false, vec![]);
    let mut y = field("y", FieldType::String, "Y");
    y.required_to_enter = Some("bound".into());
    vendors.fields = vec![y];
    let c = contract(vec![parts, vendors]);
    assert_eq!(
        errors(&c),
        vec![
            "parts.lifecycle.initial `z` is not a declared status",
            "parts.lifecycle.transitions: `draft` -> `gone` targets undeclared status",
            "parts.lifecycle.transitions: from-status `limbo` is not declared",
            "parts.fields: duplicate field key `x`",
            "parts.x.meaningful_from `later` is not a declared status",
            "vendors.y.required_to_enter names `bound` but `vendors` has no lifecycle",
        ]
    );
}

#[test]
fn nested_object_fields_are_checked_without_a_lifecycle() {
    let mut inner_a = field("a", FieldType::Reference, "A");
    inner_a.collection = Some("parts".into());
    let mut inner_b = field("a", FieldType::String, "B");
    inner_b.required_to_enter = Some("draft".into());
    let mut o = field("o", FieldType::Object, "O");
    o.schema = Some(ObjectSchema::Fields(vec![inner_a, inner_b]));
    let mut r = field("r", FieldType::Object, "R");
    r.schema = Some(ObjectSchema::Ref(SchemaRef { ref_: "#/shapes/x".into() }));
    let c = contract(vec![collection("parts", true, vec![o, r])]);
    assert_eq!(
        errors(&c),
        vec![
            "parts.o.schema: duplicate nested key `a`",
            "parts.o.a.required_to_enter names `draft` but `parts.o` has no lifecycle",
        ]
    );
}

// ---------- the structural cases, each contract built by calls ----------

fn parts_with(fields: Vec<Field>) -> Contract {
    contract(vec![collection("parts", true, fields)])
}

fn invalid_with(c: &Contract, needle: &str) -> bool {
    match c.validate() {
        Err(ContractError::Invalid(v)) => v.iter().any(|m| m.contains(needle)),
        _ => false,
    }
}

fn lifecycle(statuses: &[&str], transitions: Vec<(&str, Vec<&str>)>, initial: &str) -> Lifecycle {
    Lifecycle {
        statuses: statuses.iter().map(|s| s.to_string()).collect(),
        transitions: transitions
            .into_iter()
            .map(|(from, to)| (from.to_string(), to.into_iter().map(|s| s.to_string()).collect()))
            .collect(),
        initial: initial.into(),
    }
}

#[test]
fn future_format_version_parses_but_is_incompatible() {
    let mut c = parts_with(vec![]);
    c.format_version = 99;
    assert!(!is_compatible(&c), "format 99 is beyond TOOL_SUPPORTED_FORMAT");
}

#[test]
fn reference_without_collection_is_invalid() {
    let c = parts_with(vec![field("v", FieldType::Reference, "V")]);
    assert!(invalid_with(&c, "requires `collection`"));
}

#[test]
fn reference_to_undeclared_collection_is_invalid() {
    let mut v = field("v", FieldType::Reference, "V");
    v.collection = Some("ghosts".into());
    let c = parts_with(vec![v]);
    assert!(invalid_with(&c, "undeclared collection `ghosts`"));
}

#[test]
fn object_without_schema_is_invalid() {
    let c = parts_with(vec![field("o", FieldType::Object, "O")]);
    assert!(invalid_with(&c, "no freeform-json backdoor"));
}

#[test]
fn enum_without_values_is_invalid() {
    let c = parts_with(vec![field("e", FieldType::Enum, "E")]);
    assert!(invalid_with(&c, "non-empty `values`"));
}

#[test]
fn decimal_scale_exceeding_precision_is_invalid() {
    let mut d = field("d", FieldType::Decimal, "D");
    d.precision = Some(2);
    d.scale = Some(4);
    let c = parts_with(vec![d]);
    assert!(invalid_with(&c, "cannot exceed precision"));
}

#[test]
fn decimal_without_precision_is_invalid() {
    let c = parts_with(vec![field("d", FieldType::Decimal, "D")]);
    assert!(invalid_with(&c, "requires `precision` and `scale`"));
}

#[test]
fn lifecycle_initial_not_a_status_is_invalid() {
    let mut parts = collection("parts", true, vec![]);
    parts.lifecycle = Some(lifecycle(&["a", "b"], vec![], "z"));
    let c = contract(vec![parts]);
    assert!(invalid_with(&c, "initial `z` is not a declared status"));
}

#[test]
fn transition_to_undeclared_status_is_invalid() {
    let mut parts = collection("parts", true, vec![]);
    parts.lifecycle = Some(lifecycle(&["a", "b"], vec![("a", vec!["q"])], "a"));
    let c = contract(vec![parts]);
    assert!(invalid_with(&c, "targets undeclared status"));
}

#[test]
fn required_to_enter_unknown_status_is_invalid() {
    let mut x = field("x", FieldType::String, "X");
    x.required_to_enter = Some("z".into());
    let mut parts = collection("parts", true, vec![x]);
    parts.lifecycle = Some(lifecycle(&["a", "b"], vec![], "a"));
    let c = contract(vec![parts]);
    assert!(invalid_with(&c, "required_to_enter `z` is not a declared status"));
}

#[test]
fn required_to_enter_without_lifecycle_is_invalid() {
    let mut x = field("x", FieldType::String, "X");
    x.required_to_enter = Some("bound".into());
    let c = parts_with(vec![x]);
    assert!(invalid_with(&c, "has no lifecycle"));
}

#[test]
fn duplicate_collection_names_invalid() {
    let c = contract(vec![collection("parts", true, vec![]), collection("parts", false, vec![])]);
    assert!(invalid_with(&c, "duplicate collection name"));
}

#[test]
fn duplicate_field_keys_invalid() {
    let c = parts_with(vec![field("x", FieldType::String, "X"), field("x", FieldType::String, "X2")]);
    assert!(invalid_with(&c, "duplicate field key `x`"));
}

#[test]
fn zero_default_schemes_invalid() {
    let c = contract(vec![collection("parts", false, vec![])]);
    assert!(invalid_with(&c, "exactly one collection must be the default"));
}

#[test]
fn two_default_schemes_invalid() {
    let c = contract(vec![collection("parts", true, vec![]), collection("vendors", true, vec![])]);
    assert!(invalid_with(&c, "exactly one collection"));
}

#[test]
fn all_structural_errors_collected_in_one_pass() {
    let c = contract(vec![collection("parts", false, vec![field("v", FieldType::Reference, "V")])]);
    match c.validate() {
        Err(ContractError::Invalid(v)) => assert!(v.len() >= 2, "expected ≥2 errors, got {v:?}"),
        other => panic!("expected Invalid, got {other:?}"),
    }
}
