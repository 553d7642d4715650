use part_registry::px::{Padding, PaddingMode, PxLabel};
use part_registry::receipt::Receipt;
use part_registry::repeat::{compose, ExcessAt, Orient, RepeatAxis, RepeatCount, RepeatOpts, Rotate, Spacing};


fn fake_label(w: u32, h: u32) -> PxLabel {
    // A minimal PxLabel for repeat-composition tests — the source
    // SVG is a single black square the size of the label.
    let svg = format!(
        "<svg xmlns=\"http://www.w3.org/2000/svg\" width=\"{w}\" height=\"{h}\" \
viewBox=\"0 0 {w} {h}\"><rect width=\"{w}\" height=\"{h}\" fill=\"white\"/>\
<g fill=\"black\" shape-rendering=\"crispEdges\"><rect x=\"0\" y=\"0\" width=\"{w}\" height=\"{h}\"/></g></svg>"
    );
    let receipt = Receipt {
        id: "TESTID".into(),
        payload: "qr".into(),
        symbology: "micro-m4-m".into(),
        size_px: w,
        padding: [0, 0, 0, 0],
        padding_mode: "overlap".into(),
        size_mode: "exact".into(),
        qr_px: w,
        module_px: 1,
        glyph_px: 0,
        fg: "black".into(),
        bg: "white".into(),
        font: "nx75".into(),
        generator: "test".into(),
        repeat: None,
    };
    PxLabel {
        svg,
        width_px: w,
        height_px: h,
        qr_px: w,
        module_px: 1,
        modules: w,
        data_px: w,
        glyph_px: 0,
        glyph_cell: 7,
        white: Padding::uniform(0),
        padding_mode: PaddingMode::Overlap,
        symbology: "micro-m4-m".into(),
        receipt,
    }
}

// ---------- math table ----------

#[test]
fn linear_n_with_explicit_gap() {
    let l = fake_label(20, 10);
    let opts = RepeatOpts {
        count: RepeatCount::N(3),
        gap_px: Some(5),
        length_px: Some(100),
        ..Default::default()
    };
    let c = compose(&l, &opts).expect("composes");
    // 3·20 + 2·5 = 70; canvas length = max(70, 100) = 100
    assert_eq!(c.width_px, 100);
    assert_eq!(c.height_px, 10);
    assert_eq!(c.resolved.n, 3);
    assert_eq!(c.resolved.gap_px, 5);
    assert_eq!(c.resolved.spacing, "linear");
}

#[test]
fn cyclic_n_derived_gap_from_length() {
    let l = fake_label(20, 10);
    let opts = RepeatOpts {
        count: RepeatCount::N(4),
        spacing: Spacing::Cyclic,
        length_px: Some(100),
        gap_px: None,
        ..Default::default()
    };
    let c = compose(&l, &opts).expect("composes");
    // cyclic: 4·20 + 4·g = 100 -> g = 5
    assert_eq!(c.resolved.n, 4);
    assert_eq!(c.resolved.gap_px, 5);
    assert_eq!(c.resolved.spacing, "cyclic");
}

#[test]
fn linear_n_derived_gap_from_length() {
    let l = fake_label(20, 10);
    let opts = RepeatOpts {
        count: RepeatCount::N(3),
        spacing: Spacing::Linear,
        length_px: Some(100),
        gap_px: None,
        ..Default::default()
    };
    let c = compose(&l, &opts).expect("composes");
    // linear: 3·20 + 2·g = 100 -> g = 20
    assert_eq!(c.resolved.gap_px, 20);
}

#[test]
fn fill_count_resolved_from_length() {
    let l = fake_label(20, 10);
    let opts = RepeatOpts {
        count: RepeatCount::Fill,
        spacing: Spacing::Linear,
        length_px: Some(100),
        gap_px: Some(5),
        ..Default::default()
    };
    let c = compose(&l, &opts).expect("composes");
    // (100 + 5) / (20 + 5) = 4
    assert_eq!(c.resolved.n, 4);
    assert_eq!(c.resolved.gap_px, 5);
}

#[test]
fn fill_cyclic_count() {
    let l = fake_label(20, 10);
    let opts = RepeatOpts {
        count: RepeatCount::Fill,
        spacing: Spacing::Cyclic,
        length_px: Some(100),
        gap_px: Some(5),
        ..Default::default()
    };
    let c = compose(&l, &opts).expect("composes");
    // cyclic fill: 100 / (20+5) = 4
    assert_eq!(c.resolved.n, 4);
}

#[test]
fn excess_at_end() {
    let l = fake_label(20, 10);
    let opts = RepeatOpts {
        count: RepeatCount::N(2),
        spacing: Spacing::Linear,
        gap_px: Some(5),
        excess_px: 30,
        excess_at: ExcessAt::End,
        ..Default::default()
    };
    let c = compose(&l, &opts).expect("composes");
    // content = 2·20+5 = 45; +excess 30 = 75
    assert_eq!(c.width_px, 75);
    assert_eq!(c.resolved.excess_at, "end");
    // first copy at x=0
    assert!(c.svg.contains("translate(0,0)"));
}

#[test]
fn excess_at_start_shifts_first_copy() {
    let l = fake_label(20, 10);
    let opts = RepeatOpts {
        count: RepeatCount::N(1),
        excess_px: 30,
        excess_at: ExcessAt::Start,
        ..Default::default()
    };
    let c = compose(&l, &opts).expect("composes");
    // First copy starts at x=30
    assert!(c.svg.contains("translate(30,0)"));
    assert_eq!(c.resolved.excess_at, "start");
}

#[test]
fn rotate_90_swaps_dims() {
    let l = fake_label(20, 10);
    let opts = RepeatOpts {
        count: RepeatCount::N(1),
        rotate: Rotate::R90,
        ..Default::default()
    };
    let c = compose(&l, &opts).expect("composes");
    // 90 rotation: 20x10 -> 10x20
    assert_eq!(c.width_px, 10);
    assert_eq!(c.height_px, 20);
    assert_eq!(c.resolved.rotate, 90);
}

#[test]
fn rotate_270_swaps_dims() {
    let l = fake_label(20, 10);
    let opts = RepeatOpts {
        count: RepeatCount::N(1),
        rotate: Rotate::R270,
        ..Default::default()
    };
    let c = compose(&l, &opts).expect("composes");
    assert_eq!((c.width_px, c.height_px), (10, 20));
    assert_eq!(c.resolved.rotate, 270);
}

#[test]
fn rotate_180_keeps_dims() {
    let l = fake_label(20, 10);
    let opts = RepeatOpts {
        count: RepeatCount::N(1),
        rotate: Rotate::R180,
        ..Default::default()
    };
    let c = compose(&l, &opts).expect("composes");
    assert_eq!((c.width_px, c.height_px), (20, 10));
}

#[test]
fn across_axis_repeats_vertically_on_horz_label() {
    let l = fake_label(20, 10);
    let opts = RepeatOpts {
        count: RepeatCount::N(3),
        axis: RepeatAxis::Across,
        gap_px: Some(2),
        ..Default::default()
    };
    let c = compose(&l, &opts).expect("composes");
    // along-axis = width unchanged (20); across-axis = height
    assert_eq!(c.width_px, 20);
    // 3·10 + 2·2 = 34
    assert_eq!(c.height_px, 34);
}

#[test]
fn alternate_orient_rotates_odd_copies_180() {
    let l = fake_label(20, 10);
    let opts = RepeatOpts {
        count: RepeatCount::N(2),
        gap_px: Some(0),
        orient: Orient::Alternate,
        ..Default::default()
    };
    let c = compose(&l, &opts).expect("composes");
    assert!(c.svg.contains("rotate(180)"));
    assert_eq!(c.resolved.orient, "alternate");
}

#[test]
fn n_eq_1_no_gap_no_alternate() {
    let l = fake_label(20, 10);
    let opts = RepeatOpts {
        count: RepeatCount::N(1),
        ..Default::default()
    };
    let c = compose(&l, &opts).expect("composes");
    assert_eq!(c.resolved.n, 1);
    assert_eq!(c.width_px, 20);
    assert_eq!(c.height_px, 10);
}

// ---------- error paths ----------

#[test]
fn infeasible_n_quotes_feasible_alternatives() {
    let l = fake_label(20, 10);
    let opts = RepeatOpts {
        count: RepeatCount::N(10),
        gap_px: Some(5),
        length_px: Some(100),
        ..Default::default()
    };
    let err = compose(&l, &opts).expect_err("infeasible");
    let msg = err.to_string();
    assert!(msg.contains("Feasible"), "got: {msg}");
    // (100 + 5) / 25 = 4 copies at gap 5
    assert!(msg.contains("fit 4 copies"), "got: {msg}");
}

#[test]
fn fill_without_length_errors() {
    let l = fake_label(20, 10);
    let opts = RepeatOpts {
        count: RepeatCount::Fill,
        length_px: None,
        ..Default::default()
    };
    let err = compose(&l, &opts).expect_err("fill needs length");
    assert!(err.to_string().contains("--length"), "got: {err:?}");
}

#[test]
fn n_gt_1_no_gap_no_length_errors() {
    let l = fake_label(20, 10);
    let opts = RepeatOpts {
        count: RepeatCount::N(3),
        gap_px: None,
        length_px: None,
        ..Default::default()
    };
    let err = compose(&l, &opts).expect_err("need gap or length");
    assert!(err.to_string().contains("--repeat-gap"), "got: {err:?}");
}

// ---------- deprecated flag sugar ----------

// ---------- Rotate parsing ----------

#[test]
fn rotate_from_deg_valid_angles() {
    assert!(Rotate::from_deg(0).is_ok());
    assert!(Rotate::from_deg(90).is_ok());
    assert!(Rotate::from_deg(180).is_ok());
    assert!(Rotate::from_deg(270).is_ok());
}

#[test]
fn rotate_from_deg_rejects_non_right_angles() {
    for d in [45_u32, 89, 91, 360] {
        let err = Rotate::from_deg(d).expect_err("not right");
        assert!(err.contains("right angles"), "got: {err:?}");
    }
}

#[test]
fn one_copy_longer_than_the_length_errors() {
    let l = fake_label(20, 10);
    let opts = RepeatOpts {
        count: RepeatCount::N(1),
        length_px: Some(10),
        ..Default::default()
    };
    let err = compose(&l, &opts).expect_err("one copy does not fit");
    let msg = err.to_string();
    assert!(msg.contains("1 copies @ 20px need 20px"), "got: {msg}");
    assert!(msg.contains("at most 0 copies fit"), "got: {msg}");
    let opts = RepeatOpts {
        count: RepeatCount::N(1),
        gap_px: Some(2),
        length_px: Some(10),
        ..Default::default()
    };
    let err = compose(&l, &opts).expect_err("one copy does not fit");
    assert!(err.to_string().contains("Feasible: fit 0 copies"), "got: {}", err.to_string());
    let opts = RepeatOpts {
        count: RepeatCount::N(1),
        length_px: Some(20),
        ..Default::default()
    };
    let c = compose(&l, &opts).expect("one copy fits exactly");
    assert_eq!(c.width_px, 20);
}
