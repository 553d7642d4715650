use part_registry::glyphs::{glyph, ink_bits, write_glyph_rects, ALPHABET, GLYPH_COLS};
use part_registry::CodecError;

#[test]
fn table_covers_exactly_the_nano14_alphabet() {
    assert_eq!(ALPHABET.chars().count(), 31);
    for c in ALPHABET.chars() {
        assert!(glyph(c).is_some(), "glyph for {c}");
    }
    for c in ['0', 'O', '1', 'I', 'L', ' ', '-', 'a'] {
        assert!(glyph(c).is_none(), "{c} is outside the alphabet");
    }
}

#[test]
fn rows_fit_five_columns_and_match_the_validated_checksum() {
    // 472 total ink dots — computed from the hardware-validated
    // prototype table, so a transliteration slip cannot pass.
    let mut total = 0;
    for c in ALPHABET.chars() {
        for row in glyph(c).expect("in alphabet").iter() {
            assert!(*row < 1 << GLYPH_COLS, "{c} row {row:#07b} fits 5 cols");
        }
        total += ink_bits(c).expect("in alphabet");
    }
    assert_eq!(total, 472, "table checksum");
    // Spot anchors on the tunable lookalike pairs.
    assert_eq!(ink_bits('8'), Some(17));
    assert_eq!(ink_bits('B'), Some(20));
    assert_eq!(ink_bits('5'), Some(17));
    assert_eq!(ink_bits('S'), Some(15));
}

#[test]
fn rects_land_on_the_g_lattice() {
    // T: row 0 fully inked, then the center column — 11 dots.
    let mut out = String::new();
    write_glyph_rects(&mut out, 'T', 10, 20, 3).expect("T renders");
    assert_eq!(out.matches("<rect").count(), 11);
    assert!(out.starts_with("<rect x=\"10\" y=\"20\" width=\"3\" height=\"3\"/>"));
    // Center column, bottom row: x = 10 + 2·3, y = 20 + 6·3.
    assert!(out.ends_with("<rect x=\"16\" y=\"38\" width=\"3\" height=\"3\"/>"));
}

#[test]
fn unknown_char_names_the_char_and_the_alphabet() {
    let mut out = String::new();
    let err = write_glyph_rects(&mut out, 'O', 0, 0, 1).expect_err("O has no glyph");
    let msg = err.to_string();
    assert!(matches!(err, CodecError::Render(_)));
    assert!(msg.contains("'O'"), "char named: {msg}");
    assert!(msg.contains(ALPHABET), "alphabet listed: {msg}");
    assert!(out.is_empty(), "nothing emitted on error");
}
