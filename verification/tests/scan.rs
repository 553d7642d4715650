use part_registry::scan::{resolve, RollingAccumulator};

#[test]
fn resolve_strips_wrappers() {
    assert_eq!(
        resolve("  ABCDEFGHJKMNPQ  ").as_deref(),
        Some("ABCDEFGHJKMNPQ")
    );
    assert_eq!(
        resolve("qx:ABCDEFGHJKMNPQ").as_deref(),
        Some("ABCDEFGHJKMNPQ")
    );
    assert_eq!(
        resolve("https://reg.example/p/ABCDEFGHJKMNPQ").as_deref(),
        Some("ABCDEFGHJKMNPQ")
    );
    assert_eq!(resolve("   "), None);
}

#[test]
fn accumulator_debounces_within_window_and_re_emits_after() {
    let mut acc = RollingAccumulator::new(2);
    assert!(acc.accept("A")); // new
    assert!(!acc.accept("A")); // still in window → suppressed
    assert!(acc.accept("B")); // new
    assert!(acc.accept("C")); // new — evicts A (window=2)
    assert!(acc.accept("A")); // A aged out → emits again
}
