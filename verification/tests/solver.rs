use part_registry::solver::{solve, IdBlock, Inputs};

fn inputs(c: Option<u32>, r: Option<u32>, g: Option<u32>) -> Inputs {
    Inputs {
        chars: c,
        rows: r,
        glyph_px: g,
        glyph_px_cap: None,
        chars_max: 14,
    }
}

#[test]
fn validate_triple_ok() {
    // 14 chars, 3 rows, g=3 -> 3·(8·3 - 1) px? No, (8·3 - 1)·3 = 69
    let b = solve(inputs(Some(14), Some(3), Some(2)), 60).unwrap();
    assert_eq!(
        b,
        IdBlock {
            chars: 14,
            rows: 3,
            glyph_px: 2
        }
    );
    assert_eq!(b.grouping_str(), "554");
}

#[test]
fn derive_g_from_chars_rows() {
    // 14 chars / 2 rows / budget 51px: budget/units = 51/15 = 3.
    let b = solve(inputs(Some(14), Some(2), None), 51).unwrap();
    assert_eq!(
        b,
        IdBlock {
            chars: 14,
            rows: 2,
            glyph_px: 3
        }
    );
    assert_eq!(b.grouping_str(), "77");
}

#[test]
fn derive_rows_from_chars_g_takes_smallest_rows() {
    // 14 chars / g=2 / budget 60px: rows=1 needs 7·2 = 14 ≤ 60 ok.
    let b = solve(inputs(Some(14), None, Some(2)), 60).unwrap();
    assert_eq!(b.rows, 1);
}

#[test]
fn derive_chars_fills_to_id_max() {
    // rows=2, g=3, budget 60 — chars not given -> chars = chars_max.
    let b = solve(inputs(None, Some(2), Some(3)), 60).unwrap();
    assert_eq!(b.chars, 14);
}

#[test]
fn auto_maximizes_g_then_minimizes_rows() {
    // Budget 60 yields g per rows: rows=1 g=8, rows=2 g=4,
    // rows=3 g=2 — max g at rows=1.
    let b = solve(inputs(None, None, None), 60).unwrap();
    assert_eq!(b.rows, 1);
    assert_eq!(b.glyph_px, 8);
    assert_eq!(b.chars, 14);
}

#[test]
fn auto_respects_g_cap() {
    // module_px caps glyph_px at 3 even though raw budget could
    // host bigger g.
    let mut inp = inputs(None, None, None);
    inp.glyph_px_cap = Some(3);
    let b = solve(inp, 60).unwrap();
    assert_eq!(b.glyph_px, 3);
}

#[test]
fn infeasible_validate_quotes_nearest_triple() {
    // rows 2 @ 28px needs 15·28 = 420; have 60. Same-rows feasible
    // g = 60/15 = 4. Same-g feasible rows: 8·r - 1 ≤ 60/28 = 2 →
    // no r ≥ 1 with 8r - 1 ≤ 2. Only one hint.
    let err = solve(inputs(Some(14), Some(2), Some(28)), 60).expect_err("infeasible");
    let m = err.message;
    assert!(
        m.contains("rows 2 @ 28px needs"),
        "expected need-quote: {m}"
    );
    assert!(m.contains("rows 2 @ 4px"), "expected nearest: {m}");
}

#[test]
fn infeasible_with_both_hints() {
    // Clean two-hint case used by the assertion below:
    //   rows 2 @ 10 needs 150 px, budget 100
    //   same-rows nearest g  = floor(100/15) = 6
    //   same-g nearest rows  = floor((100/10 + 1) / 8) = r=1
    // (worked-out commentary kept terse so it doesn't terminate
    // in punctuation per the comment gate).
    let err = solve(inputs(Some(14), Some(2), Some(10)), 100).expect_err("infeasible");
    let m = err.message;
    assert!(m.contains("rows 2 @ 6px"), "nearest g: {m}");
    assert!(m.contains("rows 1 @ 10px"), "nearest rows: {m}");
}

#[test]
fn grouping_balanced_14_3_is_554() {
    let b = IdBlock {
        chars: 14,
        rows: 3,
        glyph_px: 2,
    };
    assert_eq!(b.grouping(), vec![5, 5, 4]);
    assert_eq!(b.grouping_str(), "554");
}

#[test]
fn grouping_balanced_8_2_is_44() {
    let b = IdBlock {
        chars: 8,
        rows: 2,
        glyph_px: 2,
    };
    assert_eq!(b.grouping(), vec![4, 4]);
    assert_eq!(b.grouping_str(), "44");
}

#[test]
fn auto_never_renders_more_chars_than_the_id_supplies() {
    let b = solve(inputs(Some(20), None, None), 100).expect("auto resolves");
    assert_eq!(b.chars, 14);
    assert_eq!(b.rows, 1);
    let err = solve(inputs(None, None, None), 6).expect_err("no room at all");
    assert_eq!(
        err.to_string(),
        "id solver: chars 14 cannot fit budget 6px even at 1 row, 1px/glyph dot — increase the size: rows 1 @ 1px needs 7px"
    );
}
