use std::fmt;
use std::io::{Read, Write};

use serde::de::{Deserialize, Deserializer, Error, MapAccess, SeqAccess, Visitor};
use tise::format::{LineEnding, SaveFormat};
use tise::number::{TiFloat, TiNumber};
use tise::save::{decode_save, LoadedSave};
use tise::statics;
use tise::value::{ObjectMap, TiValue};

fn float(v: f64) -> TiNumber {
    TiNumber::F64(TiFloat::new(
        v.to_bits(),
        ryu::Buffer::new().format(v).to_string(),
        format!("{:e}", v),
    ))
}

/// A value as the JSON5 reader hands it over.
struct Parsed(TiValue);

struct ValueVisitor;

impl<'de> Visitor<'de> for ValueVisitor {
    type Value = Parsed;

    fn expecting(&self, f: &mut fmt::Formatter) -> fmt::Result {
        f.write_str("a JSON5 value")
    }

    fn visit_unit<E: Error>(self) -> Result<Parsed, E> {
        Ok(Parsed(TiValue::Null))
    }

    fn visit_none<E: Error>(self) -> Result<Parsed, E> {
        Ok(Parsed(TiValue::Null))
    }

    fn visit_bool<E: Error>(self, v: bool) -> Result<Parsed, E> {
        Ok(Parsed(TiValue::Bool(v)))
    }

    fn visit_i64<E: Error>(self, v: i64) -> Result<Parsed, E> {
        self.visit_i128(i128::from(v))
    }

    fn visit_u64<E: Error>(self, v: u64) -> Result<Parsed, E> {
        self.visit_i128(i128::from(v))
    }

    fn visit_i128<E: Error>(self, v: i128) -> Result<Parsed, E> {
        let number = TiNumber::from_integer(v).unwrap_or_else(|| float(v as f64));
        Ok(Parsed(TiValue::Number(number)))
    }

    fn visit_u128<E: Error>(self, v: u128) -> Result<Parsed, E> {
        match i128::try_from(v) {
            Ok(v) => self.visit_i128(v),
            Err(_) => Ok(Parsed(TiValue::Number(float(v as f64)))),
        }
    }

    fn visit_f64<E: Error>(self, v: f64) -> Result<Parsed, E> {
        Ok(Parsed(TiValue::Number(float(v))))
    }

    fn visit_str<E: Error>(self, v: &str) -> Result<Parsed, E> {
        Ok(Parsed(TiValue::String(v.to_owned())))
    }

    fn visit_string<E: Error>(self, v: String) -> Result<Parsed, E> {
        Ok(Parsed(TiValue::String(v)))
    }

    fn visit_seq<A: SeqAccess<'de>>(self, mut seq: A) -> Result<Parsed, A::Error> {
        let mut values = Vec::new();
        while let Some(Parsed(value)) = seq.next_element::<Parsed>()? {
            values.push(value);
        }
        Ok(Parsed(TiValue::Array(values)))
    }

    fn visit_map<A: MapAccess<'de>>(self, mut map: A) -> Result<Parsed, A::Error> {
        let mut values = ObjectMap::new();
        while let Some((key, Parsed(value))) = map.next_entry::<String, Parsed>()? {
            values.insert(key, value);
        }
        Ok(Parsed(TiValue::Object(values)))
    }
}

impl<'de> Deserialize<'de> for Parsed {
    fn deserialize<D: Deserializer<'de>>(deserializer: D) -> Result<Self, D::Error> {
        deserializer.deserialize_any(ValueVisitor)
    }
}

fn parse_json5(text: &str) -> Result<TiValue, json5::Error> {
    json5::from_str::<Parsed>(text).map(|p| p.0)
}

fn load(extension: Option<&str>, bytes: &[u8]) -> LoadedSave {
    let decoded = decode_save(extension, bytes.to_vec()).expect("decode");
    let root = parse_json5(&decoded.text).expect("parse");
    LoadedSave::from_decoded(decoded, root)
}

fn gzip(bytes: &[u8]) -> Vec<u8> {
    let mut encoder = flate2::GzBuilder::new()
        .mtime(0)
        .write(Vec::new(), flate2::Compression::default());
    encoder.write_all(bytes).expect("gz write");
    encoder.finish().expect("gz finish")
}

fn gunzip(bytes: &[u8]) -> Vec<u8> {
    let mut decoder = flate2::read::GzDecoder::new(bytes);
    let mut out = Vec::new();
    decoder.read_to_end(&mut out).expect("decompress");
    out
}

fn assert_all_lf_are_crlf(bytes: &[u8]) {
    for (i, b) in bytes.iter().enumerate() {
        if *b == b'\n' {
            assert!(i > 0 && bytes[i - 1] == b'\r', "found bare LF at {i}");
        }
    }
}

const SAMPLE: &str = r#"{
  currentID: { value: 4242 },
  gamestates: {
    "PavonisInteractive.TerraInvicta.TITest": [
      {
        Key: { value: 123 },
        Value: {
          displayName: "Hello",
        },
      },
      {
        Key: { value: 456 },
        Value: {
          displayName: "World",
        },
      },
    ],
  },
}
"#;

#[test]
fn parse_json5_supports_infinity_and_nan() {
    let v = parse_json5("{ a: Infinity, b: -Infinity, c: NaN }").unwrap();
    let obj = v.as_object().unwrap();

    let a = obj.get("a").unwrap();
    let b = obj.get("b").unwrap();
    let c = obj.get("c").unwrap();

    match a {
        TiValue::Number(TiNumber::F64(x)) => assert!(x.is_infinite() && x.is_sign_positive()),
        _ => panic!("expected Infinity"),
    }
    match b {
        TiValue::Number(TiNumber::F64(x)) => assert!(x.is_infinite() && x.is_sign_negative()),
        _ => panic!("expected -Infinity"),
    }
    match c {
        TiValue::Number(TiNumber::F64(x)) => assert!(x.is_nan()),
        _ => panic!("expected NaN"),
    }
}

#[test]
fn is_relational_ref_requires_integer_value_field() {
    let v = parse_json5("{ value: 42 }").unwrap();
    assert_eq!(v.is_relational_ref(), Some(42));

    // Optional $type is ignored by the detector, but should still parse.
    let v = parse_json5("{ $type: 'X', value: 7 }").unwrap();
    assert_eq!(v.is_relational_ref(), Some(7));

    // Floating-point values are not treated as relational refs.
    let v = parse_json5("{ value: 1.25 }").unwrap();
    assert_eq!(v.is_relational_ref(), None);

    // Validate we are using the shared constant.
    assert_eq!(statics::TI_REF_FIELD_VALUE, "value");
}

#[test]
fn relational_ref_needs_the_shape() {
    assert_eq!(parse_json5("{ value: -3 }").unwrap().is_relational_ref(), Some(-3));
    assert_eq!(parse_json5("{ value: 1.0 }").unwrap().is_relational_ref(), None);
    assert_eq!(parse_json5("{ value: '42' }").unwrap().is_relational_ref(), None);
    assert_eq!(parse_json5("{ Value: 42 }").unwrap().is_relational_ref(), None);
    assert_eq!(parse_json5("[42]").unwrap().is_relational_ref(), None);
    assert_eq!(parse_json5("42").unwrap().is_relational_ref(), None);
    assert_eq!(
        parse_json5("{ value: 9223372036854775807 }").unwrap().is_relational_ref(),
        Some(i64::MAX)
    );
    assert_eq!(
        parse_json5("{ value: 9223372036854775808 }").unwrap().is_relational_ref(),
        None
    );
}

#[test]
fn numeric_subtypes_are_preserved() {
    let v = parse_json5("{a: 1, b: 18446744073709551615, c: 1.5}").unwrap();
    assert!(matches!(v.get("a"), Some(TiValue::Number(TiNumber::I64(1)))));
    assert!(matches!(
        v.get("b"),
        Some(TiValue::Number(TiNumber::U64(18446744073709551615)))
    ));
    match v.get("c") {
        Some(TiValue::Number(TiNumber::F64(f))) => assert_eq!(f.to_bits(), 1.5_f64.to_bits()),
        other => panic!("expected a float, got {other:?}"),
    }
    assert_eq!(v.get("a").unwrap().to_ti_save_pretty(), "1");
    assert_eq!(v.get("b").unwrap().to_ti_save_pretty(), "18446744073709551615");
    assert_eq!(v.get("c").unwrap().to_ti_save_pretty(), "1.5");
    assert_eq!(
        v.to_ti_save_pretty(),
        "{\n    \"a\": 1,\n    \"b\": 18446744073709551615,\n    \"c\": 1.5\n}"
    );

    let w = parse_json5("[1.0, -1, 1e3, 18446744073709551616]").unwrap();
    assert_eq!(w.to_json5_compact(), "[1.0, -1, 1000.0, 1.8446744073709552E19]");
}

#[test]
fn game_id_and_indexing_work() {
    let mut save = load(Some("json5"), SAMPLE.as_bytes());
    assert_eq!(save.game_id(), Some(4242));

    // Index contains our group.
    assert!(save
        .index
        .groups
        .iter()
        .any(|g| g == "PavonisInteractive.TerraInvicta.TITest"));

    // Can fetch object value by ID.
    let obj_123 = save
        .get_object_value("PavonisInteractive.TerraInvicta.TITest", 123)
        .unwrap();
    assert_eq!(
        obj_123
            .get(statics::TI_PROP_DISPLAY_NAME)
            .and_then(|v| v.as_str()),
        Some("Hello")
    );

    // Mutate a field using the mutable accessor.
    {
        let obj_456 = save
            .get_object_value_mut("PavonisInteractive.TerraInvicta.TITest", 456)
            .unwrap();
        obj_456.insert(
            statics::TI_PROP_DISPLAY_NAME.to_string(),
            TiValue::String("Changed".to_string()),
        );
    }
    save.mark_dirty();
    save.rebuild_index();

    let obj_456 = save
        .get_object_value("PavonisInteractive.TerraInvicta.TITest", 456)
        .unwrap();
    assert_eq!(
        obj_456
            .get(statics::TI_PROP_DISPLAY_NAME)
            .and_then(|v| v.as_str()),
        Some("Changed")
    );
    assert_eq!(save.index.id_to_display_name.get(&456).unwrap(), "Changed");
    assert_eq!(save.index.id_to_display_name.get(&123).unwrap(), "Hello");
}

#[test]
fn object_lookup_is_guarded_by_group_and_shape() {
    let mut save = load(None, SAMPLE.as_bytes());
    let group = "PavonisInteractive.TerraInvicta.TITest";
    assert!(save.get_object_value(group, 999).is_none());
    assert!(save.get_object_value("OtherGroup", 123).is_none());
    assert!(save.get_object_value_mut(group, 999).is_none());
    assert!(save.get_object_value_mut("OtherGroup", 123).is_none());

    // A stale index is answered with `None` where the document no longer fits.
    save.root = parse_json5("{ gamestates: { 'PavonisInteractive.TerraInvicta.TITest': [] } }")
        .unwrap();
    assert!(save.get_object_value(group, 123).is_none());
    assert!(save.get_object_value_mut(group, 123).is_none());
    save.root = parse_json5("{ gamestates: 7 }").unwrap();
    assert!(save.get_object_value(group, 123).is_none());
    save.root = parse_json5(
        "{ gamestates: { 'PavonisInteractive.TerraInvicta.TITest': [ { Key: {value: 123}, Value: 5 } ] } }",
    )
    .unwrap();
    assert!(save.get_object_value(group, 123).is_none());
    assert!(save.get_object_value_mut(group, 123).is_none());
    save.rebuild_index();
    assert!(save.get_object_value(group, 123).is_none());
    assert!(save.get_object_value(group, 456).is_none());
}

#[test]
fn mutable_lookup_changes_only_the_entity() {
    let mut save = load(None, SAMPLE.as_bytes());
    let group = "PavonisInteractive.TerraInvicta.TITest";
    let before = save.root.to_ti_save_pretty();
    save.get_object_value_mut(group, 123)
        .unwrap()
        .insert("added".to_string(), TiValue::Bool(true));
    let after = save.root.to_ti_save_pretty();
    assert_eq!(
        after,
        before.replace(
            "\"displayName\": \"Hello\"\n",
            "\"displayName\": \"Hello\",\n                    \"added\": true\n"
        )
    );
    assert!(!save.dirty);
    assert_eq!(save.original_bytes, SAMPLE.as_bytes());
}

#[test]
fn roundtrip_unmodified_json5_bytes_identical() {
    let input = r#"{
  currentID: { value: 42 },
  gamestates: {
    "PavonisInteractive.TerraInvicta.TITest": [
      {
        Key: { value: 123 },
        Value: {
          ID: { value: 123 },
          $type: "PavonisInteractive.TerraInvicta.TITest",
          displayName: "Hello",
          maxStrength: Infinity,
          distance: -Infinity,
          empty: {},
          ref: { value: 999 },
        },
      },
    ],
  },
}
"#;

    let save = load(Some("json"), input.as_bytes());
    let out_bytes = save.save_bytes_for_format(SaveFormat::Json5).unwrap();
    assert_eq!(out_bytes, input.as_bytes());
}

#[test]
fn roundtrip_unmodified_gz_bytes_identical() {
    let input = b"{ value: Infinity }\n";

    // A gzip stream with a deterministic header.
    let gz = gzip(input);

    let save = load(Some("gz"), &gz);
    let out_bytes = save.save_bytes_for_format(SaveFormat::GzipJson5).unwrap();
    assert_eq!(out_bytes, gz);
}

#[test]
fn unmodified_plain_file_with_infinity_round_trips() {
    let input = b"{ value: Infinity }\n";
    let save = load(Some("json"), input);
    assert_eq!(save.format, SaveFormat::Json5);
    assert!(!save.dirty);
    assert_eq!(save.save_bytes_for_format(SaveFormat::Json5).unwrap(), input);
}

#[test]
fn generated_bytes_are_the_rendering_whatever_the_flag() {
    let save = load(Some("json"), b"{ value: Infinity }\n");
    let generated = save.generate_bytes_for_format(SaveFormat::Json5).unwrap();
    assert_eq!(generated, b"{\n    \"value\": Infinity\n}");
    let generated = save.generate_bytes_for_format(SaveFormat::GzipJson5).unwrap();
    assert_eq!(generated, gzip(b"{\n    \"value\": Infinity\n}"));
    assert_eq!(gunzip(&generated), b"{\n    \"value\": Infinity\n}");
}

#[test]
fn saving_in_another_format_renders_anew() {
    let save = load(Some("json"), b"{ value: Infinity }\n");
    let out = save.save_bytes_for_format(SaveFormat::GzipJson5).unwrap();
    assert_eq!(gunzip(&out), b"{\n    \"value\": Infinity\n}");

    let gz = gzip(b"{ value: 1 }\r\n");
    let save = load(Some("gz"), &gz);
    assert_eq!(save.line_ending, LineEnding::CrLf);
    let out = save.save_bytes_for_format(SaveFormat::Json5).unwrap();
    assert_eq!(out, b"{\r\n    \"value\": 1\r\n}");
}

#[test]
fn dirty_save_is_valid_json5() {
    let mut save = load(Some("json"), b"{ a: 1 }\n");

    // Mutate then ensure we can serialize and re-parse.
    save.root = parse_json5("{ a: 2, b: Infinity }").unwrap();
    save.mark_dirty();

    let out = save.save_bytes_for_format(SaveFormat::Json5).unwrap();
    assert_eq!(out, b"{\n    \"a\": 2,\n    \"b\": Infinity\n}");
    let parsed = parse_json5(std::str::from_utf8(&out).unwrap()).unwrap();
    assert_eq!(parsed, save.root);
}

#[test]
fn modified_json5_preserves_crlf() {
    let input = b"{\r\n    a: 1,\r\n}\r\n";

    let mut save = load(None, input);
    *save.root.get_mut("a").expect("a exists") = TiValue::String("changed".to_string());
    save.mark_dirty();

    let bytes = save
        .save_bytes_for_format(SaveFormat::Json5)
        .expect("bytes");

    assert_all_lf_are_crlf(&bytes);
    assert_eq!(bytes, b"{\r\n    \"a\": \"changed\"\r\n}");
}

#[test]
fn modified_json5_preserves_lf() {
    let input = b"{\n    a: 1,\n}\n";

    let mut save = load(None, input);
    *save.root.get_mut("a").expect("a exists") = TiValue::String("changed".to_string());
    save.mark_dirty();

    let bytes = save
        .save_bytes_for_format(SaveFormat::Json5)
        .expect("bytes");

    assert!(
        !bytes.contains(&b'\r'),
        "expected no CR characters in LF output"
    );
}

#[test]
fn modified_gz_preserves_crlf_inside() {
    // A gzip file that holds CRLF JSON5; the name ends in .gz.
    let gz_bytes = {
        let bytes = b"{\r\n    a: 1,\r\n}\r\n";
        let mut encoder =
            flate2::write::GzEncoder::new(Vec::new(), flate2::Compression::default());
        encoder.write_all(bytes).expect("gz write");
        encoder.finish().expect("gz finish")
    };

    let mut save = load(Some("gz"), &gz_bytes);
    *save.root.get_mut("a").expect("a exists") = TiValue::String("changed".to_string());
    save.mark_dirty();

    let gz_bytes = save
        .save_bytes_for_format(SaveFormat::GzipJson5)
        .expect("bytes");

    let out = gunzip(&gz_bytes);

    assert_all_lf_are_crlf(&out);
}

#[test]
fn reverting_an_edit_clears_the_dirty_flag() {
    let input = b"{\n    \"a\": 1,\n    \"b\": {\n\n    }\n}";
    let mut save = load(Some("json"), input);
    save.refresh_dirty();
    assert!(!save.dirty);

    *save.root.get_mut("a").unwrap() = TiValue::Number(TiNumber::I64(2));
    save.refresh_dirty();
    assert!(save.dirty);
    assert_ne!(save.save_bytes_for_format(SaveFormat::Json5).unwrap(), input);

    *save.root.get_mut("a").unwrap() = TiValue::Number(TiNumber::I64(1));
    save.refresh_dirty();
    assert!(!save.dirty);
    assert_eq!(save.save_bytes_for_format(SaveFormat::Json5).unwrap(), input);
}

#[test]
fn reverting_an_edit_clears_the_dirty_flag_of_a_gzip_file() {
    let gz = gzip(b"{\r\n    \"a\": 1\r\n}");
    let mut save = load(None, &gz);
    assert_eq!(save.format, SaveFormat::GzipJson5);
    save.refresh_dirty();
    assert!(!save.dirty);
    *save.root.get_mut("a").unwrap() = TiValue::Null;
    save.refresh_dirty();
    assert!(save.dirty);
    *save.root.get_mut("a").unwrap() = TiValue::Number(TiNumber::I64(1));
    save.refresh_dirty();
    assert!(!save.dirty);
}

#[test]
fn a_file_in_another_layout_is_dirty_once_compared() {
    // Loading makes no comparison; the first refresh finds that rendering differs.
    let mut save = load(Some("json"), b"{ a: 1 }\n");
    assert!(!save.dirty);
    save.refresh_dirty();
    assert!(save.dirty);
}

#[test]
fn record_saved_makes_the_bytes_the_original() {
    let mut save = load(Some("json"), b"{ a: 1 }\n");
    save.mark_dirty();
    let bytes = save.save_bytes_for_format(SaveFormat::GzipJson5).unwrap();
    save.record_saved(SaveFormat::GzipJson5, bytes.clone());
    assert_eq!(save.format, SaveFormat::GzipJson5);
    assert_eq!(save.original_bytes, bytes);
    assert!(!save.dirty);
    assert_eq!(save.save_bytes_for_format(SaveFormat::GzipJson5).unwrap(), bytes);
    save.refresh_dirty();
    assert!(!save.dirty);
}

#[test]
fn game_id_needs_a_reference() {
    assert_eq!(load(None, b"{ currentID: { value: 7 } }").game_id(), Some(7));
    assert_eq!(load(None, b"{ currentID: { value: 7.5 } }").game_id(), None);
    assert_eq!(load(None, b"{ currentID: 7 }").game_id(), None);
    assert_eq!(load(None, b"{ }").game_id(), None);
    assert_eq!(load(None, b"[]").game_id(), None);
}

#[test]
fn duplicate_keys_keep_the_first_place_and_the_last_value() {
    let v = parse_json5("{ a: 1, b: 2, a: 3 }").unwrap();
    assert_eq!(v.to_json5_compact(), "{\"a\":3, \"b\":2}");
}

#[test]
fn reading_accepts_the_dialect_of_the_game() {
    let v = parse_json5(
        "{ unquoted: 'single', \"quoted\": \"double\", list: [1, 2,], esc: 'a\\nb\\u00e9', t: true, f: false, n: null, }",
    )
    .unwrap();
    assert_eq!(
        v.to_json5_compact(),
        "{\"unquoted\":\"single\", \"quoted\":\"double\", \"list\":[1, 2], \"esc\":\"a\\nb\u{e9}\", \"t\":true, \"f\":false, \"n\":null}"
    );
    assert!(parse_json5("{ a: }").is_err());
    assert!(parse_json5("{ a: 1 } x").is_err());
}
