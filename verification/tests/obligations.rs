use part_registry::obligations::{
    adr_id_from_filename, adr_ids_on_disk, evaluate, feeder_json, json_str, py_list_repr, Citation,
    FeederRow, ObligationRow,
};
use part_registry::textset::TextSet;

/// A row as the registry reader hands it over: every listed field a
/// string, `satisfied_by` as given, each path's resolution flag.
fn row(fields: &[(&str, &str)], satisfied_by: Citation, resolved: Vec<bool>) -> ObligationRow {
    let get = |k: &str| fields.iter().find(|(key, _)| *key == k).map(|(_, v)| v.to_string());
    let shown = |k: &str| get(k).unwrap_or_else(|| "None".to_string());
    ObligationRow {
        id: get("id"),
        adr: get("adr"),
        kind: get("kind"),
        kind_shown: shown("kind"),
        statement: get("statement"),
        status: get("status"),
        status_shown: shown("status"),
        satisfied_by,
        resolved,
        tracking: get("tracking"),
        exempt_until: get("exempt_until"),
        exempt_reason: get("exempt_reason"),
    }
}

fn set(items: &[&str]) -> TextSet {
    let mut s = TextSet::new();
    for i in items {
        s.insert(i.to_string());
    }
    s
}

fn disk(files: &[&str]) -> TextSet {
    adr_ids_on_disk(&files.iter().map(|f| f.to_string()).collect())
}

#[test]
fn parses_fixture_and_classifies_rows() {
    // The BASIC registry over decisions/{ADR-001-first.md, ADR-template.md},
    // with marker.txt present at the repository root.
    let rows = vec![
        row(
            &[
                ("id", "row-satisfied"),
                ("adr", "ADR-001"),
                ("statement", "a satisfied thing"),
                ("kind", "artifact"),
                ("status", "satisfied"),
            ],
            Citation::Str("marker.txt".into()),
            vec![true],
        ),
        row(
            &[
                ("id", "row-pending"),
                ("adr", "ADR-001"),
                ("statement", "an open thing"),
                ("kind", "issue"),
                ("status", "pending"),
                ("tracking", "issue #1"),
            ],
            Citation::Null,
            vec![],
        ),
    ];
    let out = evaluate(&rows, &set(&[]), &disk(&["ADR-001-first.md", "ADR-template.md"]), "2026-06-12");
    assert_eq!(out.total, 2);
    assert_eq!(out.satisfied_count(), 1);
    assert_eq!(out.pending, vec!["row-pending: issue #1"]);
    assert!(out.missing.is_empty(), "missing: {:?}", out.missing);
    assert!(out.orphan.is_empty());
    assert!(out.expired.is_empty());
    assert_eq!(out.in_force, 1, "ADR-template.md is not an ADR id");
    assert_eq!(out.exit_code(), 0);
    assert_eq!(
        out.feeder[0].citation,
        Citation::Str("marker.txt".into()),
        "satisfied citation cites satisfied_by"
    );
}

#[test]
fn expired_exemption_wins_exit_3_over_missing() {
    let rows = vec![
        row(
            &[
                ("id", "row-exempt"),
                ("adr", "ADR-001"),
                ("statement", "temporarily waived"),
                ("kind", "gate"),
                ("status", "exempt"),
                ("exempt_until", "2026-01-01"),
                ("exempt_reason", "tooling gap"),
            ],
            Citation::Null,
            vec![],
        ),
        row(
            &[
                ("id", "row-broken"),
                ("adr", "ADR-001"),
                ("statement", "claims satisfied but cites nothing real"),
                ("kind", "test"),
                ("status", "satisfied"),
            ],
            Citation::Str("does/not/exist".into()),
            vec![false],
        ),
    ];
    let on_disk = disk(&["ADR-001-first.md"]);
    let out = evaluate(&rows, &set(&[]), &on_disk, "2026-06-12");
    assert_eq!(
        out.expired,
        vec!["row-exempt: exemption expired 2026-01-01 (tooling gap)"]
    );
    assert_eq!(
        out.missing,
        vec!["row-broken: satisfied_by does not resolve: ['does/not/exist']"]
    );
    assert_eq!(out.exit_code(), 3, "expired exemption outranks unsatisfied");
    // Boundary day: an exemption expiring today has not yet expired
    let out_on_day = evaluate(&rows, &set(&[]), &on_disk, "2026-01-01");
    assert!(out_on_day.expired.is_empty());
}

#[test]
fn uncovered_adr_and_orphan_reference_are_caught() {
    let rows = vec![row(
        &[
            ("id", "row-orphan"),
            ("adr", "ADR-042"),
            ("statement", "points nowhere"),
            ("kind", "ci"),
            ("status", "pending"),
            ("tracking", "todo"),
        ],
        Citation::Null,
        vec![],
    )];
    let out = evaluate(&rows, &set(&["ADR-099"]), &disk(&["ADR-001-first.md"]), "2026-06-12");
    assert_eq!(out.exit_code(), 2);
    assert_eq!(
        out.orphan,
        vec![
            "row-orphan: references ADR-042 but no decisions/ADR-042-*.md exists",
            "[meta].excluded ADR-099: no such ADR file",
        ]
    );
    assert!(out
        .missing
        .iter()
        .any(|m| m.contains("ADR-001: no obligation row references this ADR")));
    assert_eq!(out.in_force, 1, "an excluded id with no file leaves the ADR files in force");
}

#[test]
fn feeder_json_matches_python_dumps_shape() {
    let feeder = vec![
        FeederRow {
            obligation: "row-a".into(),
            satisfied: true,
            citation: Citation::List(vec!["x.rs".into(), "y.rs".into()]),
            exempt_until: None,
        },
        FeederRow {
            obligation: "row-b".into(),
            satisfied: false,
            citation: Citation::Str("exempt until 2026-01-01 — über".into()),
            exempt_until: Some("2026-01-01".into()),
        },
    ];
    let expected = "[\n  {\n    \"dimension\": \"adr-obligation\",\n    \"obligation\": \"row-a\",\n    \"satisfied\": true,\n    \"citation\": [\n      \"x.rs\",\n      \"y.rs\"\n    ],\n    \"exempt_until\": null\n  },\n  {\n    \"dimension\": \"adr-obligation\",\n    \"obligation\": \"row-b\",\n    \"satisfied\": false,\n    \"citation\": \"exempt until 2026-01-01 \\u2014 \\u00fcber\",\n    \"exempt_until\": \"2026-01-01\"\n  }\n]";
    assert_eq!(feeder_json(&feeder), expected);
}

// ---------- own cases ----------

#[test]
fn feeder_json_of_nothing_is_an_empty_list() {
    assert_eq!(feeder_json(&[]), "[]");
}

#[test]
fn feeder_json_writes_null_and_empty_citations() {
    let feeder = vec![
        FeederRow { obligation: "a".into(), satisfied: false, citation: Citation::Null, exempt_until: None },
        FeederRow { obligation: "b".into(), satisfied: false, citation: Citation::List(vec![]), exempt_until: None },
    ];
    let out = feeder_json(&feeder);
    assert!(out.contains("    \"citation\": null,\n"));
    assert!(out.contains("    \"citation\": [],\n"));
    assert!(out.ends_with("  }\n]"));
}

#[test]
fn json_str_escapes_like_ensure_ascii() {
    assert_eq!(json_str("a\"b\\c"), "\"a\\\"b\\\\c\"");
    assert_eq!(json_str("\n\r\t\u{8}\u{c}"), "\"\\n\\r\\t\\b\\f\"");
    assert_eq!(json_str("\u{1}"), "\"\\u0001\"");
    assert_eq!(json_str("\u{7f}"), "\"\u{7f}\"");
    assert_eq!(json_str("é"), "\"\\u00e9\"");
    // beyond the basic plane: a UTF-16 surrogate pair
    assert_eq!(json_str("😀"), "\"\\ud83d\\ude00\"");
}

#[test]
fn py_list_repr_quotes_and_escapes() {
    assert_eq!(py_list_repr(&[]), "[]");
    assert_eq!(py_list_repr(&["a".into()]), "['a']");
    assert_eq!(py_list_repr(&["a".into(), "it's\\".into()]), "['a', 'it\\'s\\\\']");
}

#[test]
fn adr_ids_come_from_adr_file_names_only() {
    assert_eq!(adr_id_from_filename("ADR-001-first.md").as_deref(), Some("ADR-001"));
    assert_eq!(adr_id_from_filename("ADR-12-.md").as_deref(), Some("ADR-12"));
    assert_eq!(adr_id_from_filename("ADR-template.md"), None);
    assert_eq!(adr_id_from_filename("ADR-001.md"), None);
    assert_eq!(adr_id_from_filename("ADR-001-first.txt"), None);
    assert_eq!(adr_id_from_filename("adr-001-first.md"), None);
    let ids = disk(&["ADR-010-b.md", "ADR-002-a.md", "ADR-010-again.md", "README.md"]);
    assert_eq!(ids.len(), 2);
    assert_eq!(ids.get(0), "ADR-002");
    assert_eq!(ids.get(1), "ADR-010");
}

#[test]
fn schema_problems_are_reported_in_row_order() {
    let rows = vec![
        row(&[("id", "dup"), ("adr", "ADR-001"), ("statement", "s"), ("kind", "doc"), ("status", "pending"), ("tracking", "t")], Citation::Null, vec![]),
        row(&[("id", "dup"), ("kind", "nonsense"), ("status", "weird")], Citation::Null, vec![]),
        row(&[("adr", "ADR-001"), ("statement", "s"), ("kind", "doc"), ("status", "exempt")], Citation::Null, vec![]),
        row(&[("id", "sat"), ("adr", "ADR-001"), ("statement", "s"), ("kind", "doc"), ("status", "satisfied")], Citation::Null, vec![]),
        row(&[("id", "pend"), ("adr", "ADR-001"), ("statement", "s"), ("kind", "doc"), ("status", "pending")], Citation::Null, vec![]),
    ];
    let out = evaluate(&rows, &set(&[]), &disk(&["ADR-001-x.md"]), "2026-06-12");
    assert_eq!(
        out.missing,
        vec![
            "dup: duplicate id",
            "dup: missing 'adr'",
            "dup: kind 'nonsense' not in ['artifact', 'ci', 'crate', 'doc', 'gate', 'issue', 'test']",
            "dup: missing 'statement'",
            "dup: status 'weird' not in ['exempt', 'pending', 'satisfied']",
            "<no-id>: status=exempt requires 'exempt_until' + 'exempt_reason'",
            "sat: status=satisfied requires 'satisfied_by'",
            "pend: status=pending requires 'tracking'",
        ]
    );
    assert_eq!(out.exit_code(), 1);
    // the exempt row cites its (absent) date
    assert_eq!(out.feeder[2].citation, Citation::Str("exempt until None".into()));
    assert_eq!(out.satisfied_count(), 0);
}

#[test]
fn excluded_adrs_need_no_row_and_leave_the_in_force_count() {
    let out = evaluate(&vec![], &set(&["ADR-002"]), &disk(&["ADR-001-a.md", "ADR-002-b.md"]), "2026-06-12");
    assert_eq!(out.in_force, 1);
    assert_eq!(
        out.missing,
        vec!["ADR-001: no obligation row references this ADR — something fell out (add a row or exclude it in [meta])"]
    );
    assert!(out.orphan.is_empty());
}

#[test]
fn a_list_citation_keeps_every_path() {
    let rows = vec![row(
        &[("id", "r"), ("adr", "ADR-001"), ("statement", "s"), ("kind", "test"), ("status", "satisfied")],
        Citation::List(vec!["a".into(), "b".into(), "c".into()]),
        vec![true, false, false],
    )];
    let out = evaluate(&rows, &set(&[]), &disk(&["ADR-001-x.md"]), "2026-06-12");
    assert_eq!(out.missing, vec!["r: satisfied_by does not resolve: ['b', 'c']"]);
    assert_eq!(out.feeder[0].citation, Citation::List(vec!["a".into(), "b".into(), "c".into()]));
    assert!(!out.feeder[0].satisfied);
}
