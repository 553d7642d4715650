use part_registry::obligations::{adr_ids_on_disk, evaluate, Citation, ObligationRow};
use part_registry::registry::{
    citation_paths, get, obligation_row, read_registry, registry_of, shown, RegistryRow, TomlValue,
};

const ORPHAN_REGISTRY: &str = "[meta]
excluded = [{ adr = 'ADR-099', reason = 'gone' }]

[[obligation]]
id = 'row-orphan'
adr = 'ADR-042'
statement = 'points nowhere'
kind = 'ci'
status = 'pending'
tracking = 'todo'
";

fn resolved_all(row: RegistryRow, ok: bool) -> ObligationRow {
    let n = citation_paths(&row.satisfied_by).len();
    obligation_row(row, vec![ok; n])
}

#[test]
fn registry_text_reads_into_rows_and_exclusions() {
    let doc = read_registry(ORPHAN_REGISTRY).expect("valid TOML");
    let (excluded, rows) = registry_of(&doc);
    assert_eq!(excluded.len(), 1);
    assert!(excluded.contains("ADR-099"));
    assert_eq!(rows.len(), 1);
    let r = &rows[0];
    assert_eq!(r.id.as_deref(), Some("row-orphan"));
    assert_eq!(r.adr.as_deref(), Some("ADR-042"));
    assert_eq!(r.kind.as_deref(), Some("ci"));
    assert_eq!(r.kind_shown, "ci");
    assert_eq!(r.status_shown, "pending");
    assert_eq!(r.tracking.as_deref(), Some("todo"));
    assert_eq!(r.exempt_until, None);
    assert_eq!(r.satisfied_by, Citation::Null);
}

#[test]
fn uncovered_adr_and_orphan_reference_are_caught_from_the_registry_text() {
    let doc = read_registry(ORPHAN_REGISTRY).expect("valid TOML");
    let (excluded, rows) = registry_of(&doc);
    let rows: Vec<ObligationRow> = rows.into_iter().map(|r| resolved_all(r, true)).collect();
    let on_disk = adr_ids_on_disk(&vec!["ADR-001-first.md".to_string()]);
    let out = evaluate(&rows, &excluded, &on_disk, "2026-06-12");
    assert_eq!(out.exit_code(), 2);
    assert_eq!(
        out.orphan,
        vec![
            "row-orphan: references ADR-042 but no decisions/ADR-042-*.md exists",
            "[meta].excluded ADR-099: no such ADR file",
        ]
    );
    assert!(out
        .missing
        .iter()
        .any(|m| m.contains("ADR-001: no obligation row references this ADR")));
    assert_eq!(out.in_force, 1);
}

#[test]
fn malformed_registry_is_refused_with_the_read_prefix() {
    let err = read_registry("[[obligation]\nid = 'x'").expect_err("unclosed header");
    assert!(err.starts_with("cannot read decisions/obligations.toml: "), "got: {err}");
    assert!(err.len() > "cannot read decisions/obligations.toml: ".len());
}

#[test]
fn non_string_fields_show_their_toml_rendering() {
    let doc = read_registry(
        "[[obligation]]\nid = 'r'\nkind = 5\nstatus = true\nsatisfied_by = ['a.rs', 3]\n",
    )
    .expect("valid TOML");
    let (excluded, rows) = registry_of(&doc);
    assert!(excluded.is_empty());
    let r = &rows[0];
    assert_eq!(r.kind, None);
    assert_eq!(r.kind_shown, "5");
    assert_eq!(r.status, None);
    assert_eq!(r.status_shown, "true");
    assert_eq!(r.statement, None);
    assert_eq!(r.satisfied_by, Citation::List(vec!["a.rs".into(), "3".into()]));
    assert_eq!(citation_paths(&r.satisfied_by), vec!["a.rs".to_string(), "3".to_string()]);
}

#[test]
fn absent_sections_read_as_empty() {
    let doc = read_registry("title = 'x'\n[meta]\nexcluded = 'not a list'\n").expect("valid TOML");
    let (excluded, rows) = registry_of(&doc);
    assert!(excluded.is_empty());
    assert!(rows.is_empty());
    assert_eq!(shown(get(&doc, "nothing")), "None");
    assert!(matches!(get(&doc, "title"), Some(TomlValue::Str(s)) if s == "x"));
}

#[test]
fn excluded_entries_without_a_string_adr_are_skipped() {
    let doc = read_registry(
        "[meta]\nexcluded = [{ adr = 'ADR-007' }, { reason = 'no id' }, { adr = 9 }, 'bare']\n",
    )
    .expect("valid TOML");
    let (excluded, _) = registry_of(&doc);
    assert_eq!(excluded.len(), 1);
    assert!(excluded.contains("ADR-007"));
}

#[test]
fn obligation_row_keeps_the_fields_and_takes_the_resolution() {
    let doc = read_registry("[[obligation]]\nid = 'r'\nstatus = 'satisfied'\nsatisfied_by = 'marker.txt'\n")
        .expect("valid TOML");
    let (_, rows) = registry_of(&doc);
    let row = rows.into_iter().next().unwrap();
    assert_eq!(citation_paths(&row.satisfied_by), vec!["marker.txt".to_string()]);
    let o = obligation_row(row, vec![false]);
    assert_eq!(o.id.as_deref(), Some("r"));
    assert_eq!(o.status.as_deref(), Some("satisfied"));
    assert_eq!(o.satisfied_by, Citation::Str("marker.txt".into()));
    assert_eq!(o.resolved, vec![false]);
}
