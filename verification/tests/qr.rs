use part_registry::qr::{decode_qr, encode, encode_pinned};
use part_registry::symbology::{Ec, Family};
use part_registry::CodecError;

#[test]
fn encode_builds_the_default_symbols() {
    let m = encode("K7M3PQ9RT5VAXY", true).expect("micro M4 holds 14 alnum chars");
    assert_eq!(m.size, 17);
    assert_eq!(m.quiet_zone(), 2);
    assert_eq!(m.total_modules(), 21);
    let dark = (0..m.size).map(|r| (0..m.size).filter(|&c| m.get(r, c)).count()).sum::<usize>();
    assert!(dark > 0 && dark < 17 * 17);
    // the finder pattern's corner module is dark
    assert!(m.get(0, 0));
    let s = encode("K7M3PQ9RT5VAXY", false).expect("standard V1");
    assert_eq!(s.size, 21);
    assert_eq!(s.quiet_zone(), 4);
    assert_eq!(s.as_rows().len(), 21);
}

#[test]
fn undecodable_bytes_are_a_decode_error() {
    match decode_qr(&[0u8; 16]) {
        Err(CodecError::Decode(m)) => assert!(m.starts_with("rxing: "), "got: {m}"),
        other => panic!("expected a decode error, got {other:?}"),
    }
}

const FIXED_ID: &str = "K7M3PQ9RT5VAXY";

/// The matrix with its quiet zone, `module_px` pixels per module, as a
/// binary greyscale PNM image (dark modules black).
fn rasterise_matrix(matrix: &part_registry::qr::QrMatrix, module_px: usize) -> Vec<u8> {
    let qz = matrix.quiet_zone();
    let dim = matrix.total_modules() * module_px;
    let mut out = format!("P5\n{dim} {dim}\n255\n").into_bytes();
    for y in 0..dim {
        for x in 0..dim {
            let (r, c) = (y / module_px, x / module_px);
            let dark = r >= qz && c >= qz && r - qz < matrix.size && c - qz < matrix.size && matrix.get(r - qz, c - qz);
            out.push(if dark { 0 } else { 255 });
        }
    }
    out
}

#[test]
fn standard_qr_roundtrip() {
    let matrix = encode(FIXED_ID, false).unwrap();
    assert_eq!(matrix.size, 21);
    assert!(!matrix.micro);
    let img = rasterise_matrix(&matrix, 12);
    let decoded = decode_qr(&img).expect("rxing decodes standard QR");
    assert_eq!(decoded, FIXED_ID);
}

#[test]
fn micro_qr_roundtrip() {
    let matrix = encode(FIXED_ID, true).unwrap();
    assert_eq!(matrix.size, 17);
    assert!(matrix.micro);
    let img = rasterise_matrix(&matrix, 16);
    let decoded = decode_qr(&img).expect("rxing decodes micro QR");
    assert_eq!(decoded, FIXED_ID);
}

#[test]
fn micro_version_zero_is_refused_before_encoding() {
    match encode_pinned("HELLO", Family::Micro, 0, Ec::L) {
        Err(CodecError::Encode(m)) => assert_eq!(m, "InvalidVersion"),
        other => panic!("got {other:?}"),
    }
}

#[test]
fn undefined_versions_get_the_encoders_own_refusal() {
    // The data fits the length fields, so the encoder's table lookup refuses.
    match encode_pinned("HELLO", Family::Qr, 41, Ec::M) {
        Err(CodecError::Encode(m)) => assert_eq!(m, "InvalidVersion"),
        other => panic!("got {other:?}"),
    }
    match encode_pinned("HELLO", Family::Micro, 5, Ec::L) {
        Err(CodecError::Encode(m)) => assert_eq!(m, "InvalidVersion"),
        other => panic!("got {other:?}"),
    }
    // A 19-bit mode indicator does not fit the encoder's 16-bit field.
    match encode_pinned("HELLO", Family::Micro, 20, Ec::L) {
        Err(CodecError::Encode(m)) => assert_eq!(m, "UnsupportedCharacterSet"),
        other => panic!("got {other:?}"),
    }
}
