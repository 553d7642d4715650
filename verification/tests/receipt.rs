use part_registry::receipt::{cdata_escape, generator, metadata_frame, metadata_json};

#[test]
fn cdata_escape_handles_embedded_terminator() {
    // The terminator "]]>" appearing in user data would prematurely
    // close the CDATA section. The escape splits it across two
    // sections — the result contains the open marker `<![CDATA[`
    // so the parser sees two CDATA chunks instead of one.
    let escaped = cdata_escape("ok ]]> still");
    assert!(
        escaped.contains("<![CDATA["),
        "escape must split via new CDATA: {escaped}"
    );
    // The roundtrip through a wrapping CDATA element preserves
    // the original payload exactly.
    let wrapped = format!("<![CDATA[{escaped}]]>");
    // Strip alternating CDATA wrappers — emulates a parser.
    let mut s = wrapped.as_str();
    let mut joined = String::new();
    while let Some(start) = s.find("<![CDATA[") {
        joined.push_str(&s[..start]);
        s = &s[start + "<![CDATA[".len()..];
        let end = s.find("]]>").unwrap();
        joined.push_str(&s[..end]);
        s = &s[end + "]]>".len()..];
    }
    joined.push_str(s);
    assert_eq!(joined, "ok ]]> still");
}

// ---------- own cases ----------

#[test]
fn metadata_frame_reads_back_its_json() {
    let json = r#"{"id":"K7M3PQ9RT5VAXY","payload":"qr ]]> id","font":"nx75"}"#;
    let element = metadata_frame(json);
    assert!(element.starts_with("<metadata type=\"application/json\"><![CDATA["));
    assert!(element.ends_with("]]></metadata>"));
    let svg = format!("<svg xmlns=\"http://www.w3.org/2000/svg\"><rect/>{element}<g/></svg>");
    assert_eq!(metadata_json(&svg).as_deref(), Some(json));
}

#[test]
fn a_document_without_metadata_has_no_receipt() {
    assert_eq!(metadata_json("<svg><rect/></svg>"), None);
    // a section that never closes
    assert_eq!(metadata_json("<svg><metadata><![CDATA[open</metadata></svg>"), None);
}

#[test]
fn generator_stamps_the_codec_version() {
    assert_eq!(generator(), "qx 0.1.0");
}
