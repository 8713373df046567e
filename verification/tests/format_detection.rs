use std::path::Path;

use tise::format::{
    detect_format, detect_line_ending, format_for_extension, load_payload, read_text, store_text,
    LineEnding, LoadError, SaveFormat,
};
use tise::save::decode_save;

fn extension(path: &Path) -> Option<&str> {
    path.extension().and_then(|e| e.to_str())
}

#[test]
fn detect_format_uses_extension_and_magic() {
    let gz_magic = [0x1F_u8, 0x8B_u8, 0x08_u8, 0x00_u8];
    let plain = b"{ a: 1 }\n";

    assert_eq!(
        detect_format(extension(Path::new("save.json.gz")), plain),
        SaveFormat::GzipJson5
    );
    assert_eq!(
        detect_format(extension(Path::new("save.json")), &gz_magic),
        SaveFormat::GzipJson5
    );
    assert_eq!(
        detect_format(extension(Path::new("save.json5")), plain),
        SaveFormat::Json5
    );
}

#[test]
fn detect_line_ending_uses_majority() {
    let mostly_lf = b"{\n  a: 1,\n  b: 2,\r\n  c: 3,\n}\n";
    assert_eq!(detect_line_ending(mostly_lf), LineEnding::Lf);

    let mostly_crlf = b"{\r\n  a: 1,\r\n  b: 2,\n  c: 3,\r\n}\r\n";
    assert_eq!(detect_line_ending(mostly_crlf), LineEnding::CrLf);
}

#[test]
fn detect_format_needs_both_magic_bytes() {
    assert_eq!(detect_format(None, &[0x1F]), SaveFormat::Json5);
    assert_eq!(detect_format(None, &[0x1F, 0x8A]), SaveFormat::Json5);
    assert_eq!(detect_format(None, &[0x8B, 0x1F]), SaveFormat::Json5);
    assert_eq!(detect_format(None, &[]), SaveFormat::Json5);
    assert_eq!(detect_format(None, &[0x1F, 0x8B]), SaveFormat::GzipJson5);
    assert_eq!(detect_format(Some("gz"), &[]), SaveFormat::GzipJson5);
    assert_eq!(detect_format(Some("GZ"), b"{}"), SaveFormat::Json5);
    assert_eq!(detect_format(Some("json"), b"{}"), SaveFormat::Json5);
}

#[test]
fn format_for_extension_picks_gzip_only_for_gz() {
    assert_eq!(format_for_extension(Some("gz")), SaveFormat::GzipJson5);
    assert_eq!(format_for_extension(Some("json")), SaveFormat::Json5);
    assert_eq!(format_for_extension(Some("")), SaveFormat::Json5);
    assert_eq!(format_for_extension(None), SaveFormat::Json5);
}

#[test]
fn line_ending_ties_and_empty_text_are_lf() {
    assert_eq!(detect_line_ending(b""), LineEnding::Lf);
    assert_eq!(detect_line_ending(b"no terminator"), LineEnding::Lf);
    assert_eq!(detect_line_ending(b"a\r\nb\n"), LineEnding::Lf);
    assert_eq!(detect_line_ending(b"a\r\nb\nc\r\n"), LineEnding::CrLf);
    assert_eq!(detect_line_ending(b"\n"), LineEnding::Lf);
    assert_eq!(detect_line_ending(b"\r\n"), LineEnding::CrLf);
}

#[test]
fn stray_carriage_returns_do_not_count() {
    assert_eq!(detect_line_ending(b"a\rb\rc\n"), LineEnding::Lf);
    assert_eq!(detect_line_ending(b"\r\r\r"), LineEnding::Lf);
    assert_eq!(detect_line_ending(b"a\n\rb\n"), LineEnding::Lf);
}

#[test]
fn line_ending_text_matches_variant() {
    assert_eq!(LineEnding::Lf.as_str(), "\n");
    assert_eq!(LineEnding::CrLf.as_str(), "\r\n");
}

#[test]
fn read_text_decodes_utf8_and_detects_line_ending() {
    let (line_ending, text) = read_text("caf\u{e9}\r\n".as_bytes()).unwrap();
    assert_eq!(line_ending, LineEnding::CrLf);
    assert_eq!(text, "caf\u{e9}\r\n");
}

#[test]
fn read_text_rejects_invalid_utf8() {
    let err = read_text(&[b'a', 0xFF, b'b']).unwrap_err();
    assert!(matches!(err, LoadError::InvalidUtf8(_)));
}

#[test]
fn store_text_plain_is_identity() {
    let bytes = store_text(SaveFormat::Json5, b"{ a: 1 }\n".to_vec()).unwrap();
    assert_eq!(bytes, b"{ a: 1 }\n");
}

#[test]
fn store_text_gzip_compresses_and_load_payload_restores() {
    let text = b"{ value: Infinity }\n".to_vec();
    let stored = store_text(SaveFormat::GzipJson5, text.clone()).unwrap();
    assert_ne!(stored, text);
    assert_eq!(&stored[..2], &[0x1F, 0x8B]);
    // Modification time zero, no header flags, unknown operating system.
    assert_eq!(&stored[3..8], &[0, 0, 0, 0, 0]);
    assert_eq!(stored[9], 255);
    let restored = load_payload(SaveFormat::GzipJson5, &stored).unwrap();
    assert_eq!(restored, text);
}

#[test]
fn store_text_gzip_is_reproducible() {
    let text = b"{\n    \"a\": 1\n}".to_vec();
    let first = store_text(SaveFormat::GzipJson5, text.clone()).unwrap();
    let second = store_text(SaveFormat::GzipJson5, text).unwrap();
    assert_eq!(first, second);
}

#[test]
fn load_payload_plain_is_identity() {
    let bytes = b"{ a: 1 }\n".to_vec();
    assert_eq!(load_payload(SaveFormat::Json5, &bytes).unwrap(), bytes);
}

#[test]
fn load_payload_rejects_malformed_gzip() {
    let err = load_payload(SaveFormat::GzipJson5, &b"not gzip at all".to_vec()).unwrap_err();
    assert!(matches!(err, LoadError::Decompress(_)));
}

#[test]
fn decode_save_plain_text() {
    let input = b"{\r\n    a: 1,\r\n}\r\n".to_vec();
    let decoded = decode_save(Some("json"), input.clone()).unwrap();
    assert_eq!(decoded.format, SaveFormat::Json5);
    assert_eq!(decoded.line_ending, LineEnding::CrLf);
    assert_eq!(decoded.original_bytes, input);
    assert_eq!(decoded.text, "{\r\n    a: 1,\r\n}\r\n");
}

#[test]
fn decode_save_gzip_by_magic() {
    let text = b"{ value: Infinity }\n".to_vec();
    let stored = store_text(SaveFormat::GzipJson5, text).unwrap();
    let decoded = decode_save(Some("json"), stored.clone()).unwrap();
    assert_eq!(decoded.format, SaveFormat::GzipJson5);
    assert_eq!(decoded.line_ending, LineEnding::Lf);
    assert_eq!(decoded.original_bytes, stored);
    assert_eq!(decoded.text, "{ value: Infinity }\n");
}

#[test]
fn decode_save_reports_each_failure() {
    let err = decode_save(Some("gz"), b"{ a: 1 }\n".to_vec()).unwrap_err();
    assert!(matches!(err, LoadError::Decompress(_)));
    let err = decode_save(None, vec![b'{', 0xC3, b'}']).unwrap_err();
    assert!(matches!(err, LoadError::InvalidUtf8(_)));
}
