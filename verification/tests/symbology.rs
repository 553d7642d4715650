use part_registry::symbology::{Ec, Family, Symbology};
use part_registry::CodecError;

/// Fixed nano14 fixture (14 alphanumeric chars).
const FIXED_ID: &str = "K7M3PQ9RT5VAXY";

fn sym(s: &str) -> Symbology {
    s.parse().expect("parses")
}

fn resolved(s: &str, payload: &str) -> String {
    sym(s).resolve(payload).expect("resolves").0.compact()
}

// ---------- the one parser: valid forms ----------

#[test]
fn parser_accepts_the_canonical_compact_grammar() {
    let cases = [
        ("micro", Family::Micro, None, None),
        ("micro-m4", Family::Micro, Some(4), None),
        ("micro-m3-l", Family::Micro, Some(3), Some(Ec::L)),
        ("micro-m4-q", Family::Micro, Some(4), Some(Ec::Q)),
        ("micro-l", Family::Micro, None, Some(Ec::L)),
        ("micro-m", Family::Micro, None, Some(Ec::M)),
        ("qr", Family::Qr, None, None),
        ("qr-v1", Family::Qr, Some(1), None),
        ("qr-v1-m", Family::Qr, Some(1), Some(Ec::M)),
        ("qr-v40-h", Family::Qr, Some(40), Some(Ec::H)),
        ("QR-V1-M", Family::Qr, Some(1), Some(Ec::M)), // case-insensitive
    ];
    for (input, family, version, ec) in cases {
        assert_eq!(
            sym(input),
            Symbology {
                family,
                version,
                ec
            },
            "input {input:?}"
        );
    }
}

#[test]
fn parser_rejects_malformed_and_unknown_inputs() {
    let cases = [
        ("datamatrix", "unknown symbology family"),
        ("", "unknown symbology family"),
        ("micro-x9", "micro versions are written m1..m4"),
        ("micro-m5", "out of range"),
        ("micro-v1", "micro versions are written m1..m4"),
        ("qr-m4", "qr versions are written v1..v40"),
        ("qr-v0", "out of range"),
        ("qr-v41", "out of range"),
        ("micro-l-m4", "must come last"),
        ("micro-m4-l-q", "expected <family>[-<version>][-<ec>]"),
        ("micro-m4-x", "not an EC level"),
        ("micro-m4-h", "micro QR has no EC level h"),
        ("micro-h", "micro QR has no EC level h"),
        ("micro-m1-l", "micro-m1 has no selectable EC level"),
        ("micro-m3-q", "EC level q requires micro-m4"),
    ];
    for (input, expected) in cases {
        let err = input.parse::<Symbology>().expect_err(input);
        assert!(err.contains(expected), "{input:?}: got {err:?}");
    }
}

#[test]
fn future_families_get_a_documented_hint() {
    for input in ["dm", "code128"] {
        let err = input.parse::<Symbology>().expect_err(input);
        assert!(err.contains("not implemented yet"), "got {err:?}");
        assert!(err.contains("micro, qr"), "got {err:?}");
    }
}

// ---------- auto-fit: strongest exposed EC, smallest version ----------

#[test]
fn auto_fit_preserves_the_pre_contract_defaults() {
    // micro=true used to mean M4/EC-M; bare qr meant V1/EC-M.
    assert_eq!(resolved("micro", FIXED_ID), "micro-m4-m");
    assert_eq!(resolved("qr", FIXED_ID), "qr-v1-m");
}

#[test]
fn auto_fit_with_pinned_version_or_ec() {
    // M3 pinned: M caps at 11 alnum, so EC auto-falls to L.
    assert_eq!(resolved("micro-m3", FIXED_ID), "micro-m3-l");
    assert_eq!(resolved("micro-m4", FIXED_ID), "micro-m4-m");
    // EC pinned, version auto: smallest version that fits at L is M3.
    assert_eq!(resolved("micro-l", FIXED_ID), "micro-m3-l");
    // q is pin-only: 13 alnum chars fit M4-Q.
    assert_eq!(resolved("micro-q", "K7M3PQ9RT5VAX"), "micro-m4-q");
    assert_eq!(resolved("qr-v1", FIXED_ID), "qr-v1-m");
}

#[test]
fn m3_l_encodes_exactly_14_alnum_chars() {
    // The ADR-031 §8 claim: M3-L caps at exactly 14 — the nano14
    // payload fits, 15 chars do not.
    let (r, matrix) = sym("micro-m3-l").resolve(FIXED_ID).expect("14 fits M3-L");
    assert_eq!(r.compact(), "micro-m3-l");
    assert_eq!(matrix.size, 15, "M3 is 15 data modules");
    assert_eq!(r.quiet_modules(), 2);
    let err = sym("micro-m3-l")
        .resolve("K7M3PQ9RT5VAXYZ")
        .expect_err("15 alnum chars exceed M3-L");
    assert!(
        err.to_string().contains("M3-L caps at 14 alnum chars"),
        "got: {err:?}"
    );
}

#[test]
fn resolved_matrix_sizes_match_the_symbology() {
    let cases = [
        ("micro", 17, 2), // M4
        ("micro-m3-l", 15, 2),
        ("qr", 21, 4), // V1
        ("qr-v2", 25, 4),
    ];
    for (input, data, quiet) in cases {
        let (r, matrix) = sym(input).resolve(FIXED_ID).expect(input);
        assert_eq!(matrix.size, data, "{input}: data modules");
        assert_eq!(r.quiet_modules(), quiet, "{input}: quiet modules");
    }
}

// ---------- infeasible pins: the feasibility list ----------

#[test]
fn infeasible_pin_errors_with_the_feasible_space() {
    let err = sym("micro-m4-q")
        .resolve(FIXED_ID)
        .expect_err("M4-Q caps at 13");
    let msg = err.to_string();
    assert!(matches!(err, CodecError::Encode(_)), "got {err:?}");
    assert!(
        msg.contains("M4-Q caps at 13 alnum chars"),
        "cap named, got: {msg}"
    );
    assert!(
        msg.contains("feasible for this payload: micro-m4-l, micro-m4-m, micro-m3-l"),
        "feasible space listed, got: {msg}"
    );
}

#[test]
fn infeasible_version_pin_names_the_feasible_space() {
    // M2 caps far below 14 at every EC.
    let err = sym("micro-m2").resolve(FIXED_ID).expect_err("M2 too small");
    let msg = err.to_string();
    assert!(msg.contains("micro-m2"), "pin named, got: {msg}");
    assert!(msg.contains("micro-m3-l"), "feasible space, got: {msg}");
}

#[test]
fn payload_too_big_for_the_whole_family_points_at_qr() {
    // 22 alnum chars exceed even M4-L (21).
    let err = sym("micro")
        .resolve("K7M3PQ9RT5VAXYK7M3PQ9R")
        .expect_err("exceeds micro entirely");
    let msg = err.to_string();
    assert!(msg.contains("try qr"), "escape hint, got: {msg}");
}

#[test]
fn compact_text_parses_back_to_the_pinned_symbology() {
    for spec in ["micro", "micro-m3-l", "qr", "qr-v2-q", "micro-m"] {
        let sym: Symbology = spec.parse().expect("parses");
        let (resolved, _) = sym.resolve("K7M3PQ9RT5VAXY").expect("resolves");
        let back: Symbology = resolved.compact().parse().expect("compact text parses");
        assert_eq!(back.family, resolved.family);
        assert_eq!(back.version, Some(resolved.version));
        assert_eq!(back.ec, Some(resolved.ec));
    }
}

#[test]
fn parse_errors_name_what_is_wrong() {
    let err = |s: &str| s.parse::<Symbology>().expect_err("refused");
    assert_eq!(err("micro-m5"), "micro version m5 out of range (m1..m4)");
    assert_eq!(err("qr-x1"), "qr versions are written v1..v40 (got \"x1\")");
    assert_eq!(err("micro-l-m4"), "malformed symbology \"micro-l-m4\": the EC level must come last (<family>[-<version>][-<ec>])");
    assert_eq!(err("micro-m3-q"), "EC level q requires micro-m4 (got micro-m3-q); m2/m3 levels: l, m");
    assert_eq!(err("code128"), "symbology family \"code128\" is documented but not implemented yet; implemented families: micro, qr (dm and code128 are documented future families, ADR-031 §8)");
}
