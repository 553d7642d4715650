use part_registry::CodecError;

#[test]
fn codec_errors_name_their_phase() {
    assert_eq!(CodecError::Encode("x".into()).to_string(), "encode failed: x");
    assert_eq!(CodecError::Decode("y".into()).to_string(), "decode failed: y");
    assert_eq!(CodecError::Render("z".into()).to_string(), "render failed: z");
    assert_eq!(CodecError::Unsupported("w".into()).to_string(), "unsupported: w");
}
