use part_registry::triggers::{adr_trigger_ids, survey, TriggerRow};

#[test]
fn adr_trigger_ids_extracts_t1_through_t6() {
    let adr = "## Re-open triggers\n\
               - **T1 — A.** ...\n\
               - **T2 — B.** ...\n\
               - **T6 — F.** ...\n\
               - not a trigger line\n";
    let ids = adr_trigger_ids(adr);
    assert!(ids.contains("T1") && ids.contains("T2") && ids.contains("T6"));
    assert_eq!(ids.len(), 3);
}

// ---------- own cases ----------

fn reg(rows: &[(&str, &str)]) -> Vec<TriggerRow> {
    rows.iter()
        .map(|(id, status)| TriggerRow { id: id.to_string(), status: status.to_string() })
        .collect()
}

const ADR: &str = "intro\n  - **T2 — two**\n- **T10 — ten**\n- **T1 — one**\n- **T — none**\n- **T1 again**\n";

#[test]
fn trigger_ids_are_sorted_and_unique() {
    let ids = adr_trigger_ids(ADR);
    assert_eq!(ids.len(), 3);
    // texts sort character by character: T1 < T10 < T2
    assert_eq!(ids.get(0), "T1");
    assert_eq!(ids.get(1), "T10");
    assert_eq!(ids.get(2), "T2");
    assert!(!ids.contains("T"));
}

#[test]
fn a_clean_survey_reports_every_trigger_watched() {
    let rep = survey(ADR, &reg(&[("T2", "watching"), ("T1", "watching"), ("T10", "watching")])).expect("survey");
    assert!(!rep.drifted());
    assert_eq!(rep.exit_code(), 0);
    assert_eq!(
        rep.render(),
        "crypto re-open triggers: 3 watched\n  T1: watching\n  T10: watching\n  T2: watching\nOK: every ADR-023 re-open trigger is watched.\n"
    );
}

#[test]
fn drift_and_fired_triggers_are_reported() {
    let rep = survey(
        ADR,
        &reg(&[("T1", "fired"), ("T7", "watching"), ("T2", "sleeping"), ("T2", "watching")]),
    )
    .expect("survey");
    assert!(rep.drifted());
    assert_eq!(rep.exit_code(), 1);
    assert_eq!(rep.missing.len(), 1);
    assert_eq!(rep.missing.get(0), "T10");
    assert_eq!(rep.orphan.len(), 1);
    assert_eq!(rep.orphan.get(0), "T7");
    assert_eq!(rep.bad_status, vec!["T2 has unrecognised status `sleeping`"]);
    assert_eq!(rep.fired, vec!["T1"]);
    // the last row for an id gives its status
    assert_eq!(rep.watched.len(), 2);
    assert_eq!((rep.watched[1].id.as_str(), rep.watched[1].status.as_str()), ("T2", "watching"));
    let text = rep.render();
    assert!(text.contains("  DRIFT: T10 is defined in ADR-023 but has no watcher row (silently resolved?)\n"));
    assert!(text.contains("  DRIFT: T7 has a watcher row but is not defined in ADR-023 (orphan)\n"));
    assert!(text.contains("  DRIFT: T2 has unrecognised status `sleeping`\n"));
    assert!(text.contains("  FIRED: T1 — its deferred control(s) owe activation (see LOG.md)\n"));
    assert!(!text.contains("OK:"));
}

#[test]
fn a_fired_trigger_without_drift_exits_2() {
    let rep = survey("- **T1 x**\n", &reg(&[("T1", "fired")])).expect("survey");
    assert!(!rep.drifted());
    assert_eq!(rep.exit_code(), 2);
}

#[test]
fn an_adr_without_triggers_is_a_parser_drift_error() {
    let err = survey("no triggers here\n", &reg(&[])).err().expect("no triggers");
    assert_eq!(err, "no T<n> triggers found in ADR-023 (parser drift?)");
}
