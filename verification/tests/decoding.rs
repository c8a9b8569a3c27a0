use wallace::export::export_rows;
use wallace::framer::{extract_messages, FrameError};
use wallace::group::group_by_type;
use wallace::keys::type_id_of_key;
use wallace::parser::{parse_fields, ParsedMessage};
use wallace::registry::{FieldDef, MessageDef, MessageRegistry};
use wallace::stream::{Framer, Phase};
use wallace::text::{render_hex, render_signed, render_text, render_unsigned, trim_trailing_nul};
use wallace::typecode::{get_type_size, resolve_type, FieldKind};

fn field(name: &str, code: &str) -> FieldDef {
    FieldDef { name: name.to_string(), type_code: code.to_string() }
}

fn pair(name: &str, value: &str) -> (String, String) {
    (name.to_string(), value.to_string())
}

fn hello_registry() -> MessageRegistry {
    let mut registry = MessageRegistry::new();
    registry.insert(
        1,
        MessageDef { name: "HELLO".to_string(), fields: vec![field("A", "H"), field("B", "B")] },
    );
    registry
}

#[test]
fn end_to_end_hello() {
    let stream = vec![0xAA, 0xBB, 0xCC, 0xDD, 0x01, 0x00, 0x03, 0x00, 0x2A, 0x00, 0x05];
    let (messages, warnings, skipped) = extract_messages(&stream, &hello_registry()).unwrap();
    assert_eq!(messages.len(), 1);
    assert_eq!(messages[0].log_type, 1);
    assert_eq!(messages[0].name, "HELLO");
    assert_eq!(messages[0].fields, vec![pair("A", "42"), pair("B", "5")]);
    assert!(warnings.is_empty());
    assert_eq!(skipped, 0);
}

#[test]
fn unknown_type_is_dropped_silently() {
    let stream = vec![
        0, 0, 0, 0, // header
        0x02, 0x00, 0x02, 0x00, 0xFF, 0xFF, // unknown type 2
        0x01, 0x00, 0x03, 0x00, 0x2A, 0x00, 0x05, // HELLO
        0x02, 0x00, 0x00, 0x00, // unknown type 2, empty
    ];
    let (messages, warnings, skipped) = extract_messages(&stream, &hello_registry()).unwrap();
    assert_eq!(messages.len(), 1);
    assert_eq!(messages[0].name, "HELLO");
    assert_eq!(messages[0].fields, vec![pair("A", "42"), pair("B", "5")]);
    assert!(warnings.is_empty());
    assert_eq!(skipped, 0);
}

#[test]
fn only_unknown_types_give_nothing() {
    let stream = vec![0, 0, 0, 0, 0x02, 0x00, 0x01, 0x00, 0x07];
    let (messages, warnings, skipped) = extract_messages(&stream, &hello_registry()).unwrap();
    assert!(messages.is_empty());
    assert!(warnings.is_empty());
    assert_eq!(skipped, 0);
}

#[test]
fn header_alone_is_an_empty_run() {
    let (messages, warnings, skipped) =
        extract_messages(&[1, 2, 3, 4], &hello_registry()).unwrap();
    assert!(messages.is_empty());
    assert!(warnings.is_empty());
    assert_eq!(skipped, 0);
}

#[test]
fn truncated_streams_fail() {
    let registry = hello_registry();
    assert_eq!(extract_messages(&[], &registry).unwrap_err(), FrameError::TruncatedHeader);
    assert_eq!(extract_messages(&[0, 0, 0], &registry).unwrap_err(), FrameError::TruncatedHeader);
    assert_eq!(
        extract_messages(&[0, 0, 0, 0, 1], &registry).unwrap_err(),
        FrameError::TruncatedTypeId
    );
    assert_eq!(
        extract_messages(&[0, 0, 0, 0, 1, 0], &registry).unwrap_err(),
        FrameError::TruncatedLength
    );
    assert_eq!(
        extract_messages(&[0, 0, 0, 0, 1, 0, 3], &registry).unwrap_err(),
        FrameError::TruncatedLength
    );
    assert_eq!(
        extract_messages(&[0, 0, 0, 0, 1, 0, 3, 0, 0x2A, 0x00], &registry).unwrap_err(),
        FrameError::TruncatedPayload
    );
    assert_eq!(
        extract_messages(&[0, 0, 0, 0, 9, 0, 1, 0], &registry).unwrap_err(),
        FrameError::TruncatedPayload
    );
}

#[test]
fn warnings_carry_type_and_name() {
    let stream = vec![0, 0, 0, 0, 0x01, 0x00, 0x04, 0x00, 0x2A, 0x00, 0x05, 0x09];
    let (messages, warnings, _) = extract_messages(&stream, &hello_registry()).unwrap();
    assert_eq!(messages.len(), 1);
    assert_eq!(
        warnings,
        vec![
            "log_type 1 (HELLO): Payload not fully consumed. Expected length 4, read 3. Remaining 1 bytes."
                .to_string()
        ]
    );
}

#[test]
fn skipped_fields_are_counted_over_the_run() {
    let mut registry = MessageRegistry::new();
    registry.insert(
        300,
        MessageDef {
            name: "PAD".to_string(),
            fields: vec![field("TRASH", "H"), field("V", "B"), field("PADDING", "cc")],
        },
    );
    assert_eq!(registry.len(), 1);
    assert!(registry.get(300).is_some());
    assert!(registry.get(1).is_none());
    let stream = vec![
        0, 0, 0, 0, //
        0x2C, 0x01, 0x05, 0x00, 1, 2, 7, 0, 0, //
        0x2C, 0x01, 0x05, 0x00, 3, 4, 8, 0, 0,
    ];
    let (messages, warnings, skipped) = extract_messages(&stream, &registry).unwrap();
    assert_eq!(messages.len(), 2);
    assert_eq!(messages[0].log_type, 300);
    assert_eq!(messages[0].fields, vec![pair("V", "7")]);
    assert_eq!(messages[1].fields, vec![pair("V", "8")]);
    assert!(warnings.is_empty());
    assert_eq!(skipped, 4);
}

#[test]
fn type_sizes() {
    assert_eq!(get_type_size("Q"), Some(8));
    assert_eq!(get_type_size("q"), Some(8));
    assert_eq!(get_type_size("d"), Some(8));
    assert_eq!(get_type_size("I"), Some(4));
    assert_eq!(get_type_size("i"), Some(4));
    assert_eq!(get_type_size("f"), Some(4));
    assert_eq!(get_type_size("H"), Some(2));
    assert_eq!(get_type_size("h"), Some(2));
    assert_eq!(get_type_size("B"), Some(1));
    assert_eq!(get_type_size("b"), Some(1));
    assert_eq!(get_type_size("c"), Some(1));
    assert_eq!(get_type_size("cccc"), Some(4));
    assert_eq!(get_type_size(""), Some(0));
    assert_eq!(get_type_size("16s"), Some(16));
    assert_eq!(get_type_size("007s"), Some(7));
    assert_eq!(get_type_size("0s"), Some(0));
    assert_eq!(get_type_size("BBB"), Some(3));
    assert_eq!(get_type_size("bb"), Some(2));
    assert_eq!(get_type_size("s"), None);
    assert_eq!(get_type_size("x"), None);
    assert_eq!(get_type_size("QQ"), None);
    assert_eq!(get_type_size("Bb"), None);
    assert_eq!(get_type_size("cB"), None);
    assert_eq!(get_type_size("-1s"), None);
    assert_eq!(get_type_size("1 s"), None);
    assert_eq!(get_type_size("12"), None);
    assert_eq!(get_type_size("99999999999999999999999999s"), None);
}

#[test]
fn type_kinds() {
    assert_eq!(resolve_type("Q").unwrap().kind, FieldKind::U64);
    assert_eq!(resolve_type("q").unwrap().kind, FieldKind::I64);
    assert_eq!(resolve_type("I").unwrap().kind, FieldKind::U32);
    assert_eq!(resolve_type("i").unwrap().kind, FieldKind::I32);
    assert_eq!(resolve_type("H").unwrap().kind, FieldKind::U16);
    assert_eq!(resolve_type("h").unwrap().kind, FieldKind::I16);
    assert_eq!(resolve_type("B").unwrap().kind, FieldKind::U8);
    assert_eq!(resolve_type("b").unwrap().kind, FieldKind::I8);
    assert_eq!(resolve_type("f").unwrap().kind, FieldKind::F32);
    assert_eq!(resolve_type("d").unwrap().kind, FieldKind::F64);
    assert_eq!(resolve_type("ccc").unwrap().kind, FieldKind::Text);
    assert_eq!(resolve_type("3s").unwrap().kind, FieldKind::Text);
    assert_eq!(resolve_type("BB").unwrap().kind, FieldKind::Bytes);
    assert_eq!(resolve_type("bbbb").unwrap().kind, FieldKind::Bytes);
    assert!(resolve_type("z").is_none());
}

#[test]
fn exact_payload_gives_every_value_and_no_warning() {
    let schema = vec![
        field("U64", "Q"),
        field("I64", "q"),
        field("U32", "I"),
        field("I32", "i"),
        field("U16", "H"),
        field("I16", "h"),
        field("U8", "B"),
        field("I8", "b"),
        field("TXT", "cccc"),
        field("RAW", "BBB"),
        field("CNT", "3s"),
    ];
    let mut payload: Vec<u8> = Vec::new();
    payload.extend_from_slice(&u64::MAX.to_le_bytes());
    payload.extend_from_slice(&i64::MIN.to_le_bytes());
    payload.extend_from_slice(&4_000_000_000u32.to_le_bytes());
    payload.extend_from_slice(&(-123_456i32).to_le_bytes());
    payload.extend_from_slice(&65_535u16.to_le_bytes());
    payload.extend_from_slice(&(-2i16).to_le_bytes());
    payload.push(200);
    payload.push(0x80);
    payload.extend_from_slice(b"ab\0\0");
    payload.extend_from_slice(&[0x00, 0xAB, 0x0F]);
    payload.extend_from_slice(b"xyz");
    let (fields, warnings, skipped) = parse_fields(&payload, &schema);
    assert_eq!(
        fields,
        vec![
            pair("U64", "18446744073709551615"),
            pair("I64", "-9223372036854775808"),
            pair("U32", "4000000000"),
            pair("I32", "-123456"),
            pair("U16", "65535"),
            pair("I16", "-2"),
            pair("U8", "200"),
            pair("I8", "-128"),
            pair("TXT", "ab"),
            pair("RAW", "00 AB 0F"),
            pair("CNT", "xyz"),
        ]
    );
    assert!(warnings.is_empty());
    assert_eq!(skipped, 0);
}

#[test]
fn floats_are_displayed() {
    let schema = vec![field("F", "f"), field("D", "d")];
    let mut payload: Vec<u8> = Vec::new();
    payload.extend_from_slice(&1.5f32.to_le_bytes());
    payload.extend_from_slice(&(-0.25f64).to_le_bytes());
    let (fields, warnings, _) = parse_fields(&payload, &schema);
    assert_eq!(fields, vec![pair("F", "1.5"), pair("D", "-0.25")]);
    assert!(warnings.is_empty());
}

#[test]
fn skip_fields_emit_nothing_and_advance() {
    let schema = vec![
        field("TRASH", "I"),
        field("A", "B"),
        field("PADDING", "2s"),
        field("RESERVED", "BB"),
        field("B", "B"),
    ];
    let payload = [9, 9, 9, 9, 1, 8, 8, 7, 7, 2];
    let (fields, warnings, skipped) = parse_fields(&payload, &schema);
    assert_eq!(fields, vec![pair("A", "1"), pair("B", "2")]);
    assert!(warnings.is_empty());
    assert_eq!(skipped, 3);
}

#[test]
fn skip_field_without_width_warns_and_stays() {
    let schema = vec![field("TRASH", "?"), field("A", "B")];
    let (fields, warnings, skipped) = parse_fields(&[5], &schema);
    assert_eq!(fields, vec![pair("A", "5")]);
    assert_eq!(
        warnings,
        vec![
            "Cannot determine size for skippable field 'TRASH' with unknown type '?'. Parsing may be incorrect."
                .to_string()
        ]
    );
    assert_eq!(skipped, 0);
}

#[test]
fn skip_field_past_the_end_is_clamped() {
    let schema = vec![field("A", "B"), field("PADDING", "Q"), field("B", "B")];
    let (fields, warnings, skipped) = parse_fields(&[5, 1, 2], &schema);
    assert_eq!(fields, vec![pair("A", "5")]);
    assert_eq!(
        warnings,
        vec![
            "Attempted to skip field 'PADDING' (Q) of size 8, but it exceeds payload length 3. Skipping remaining 2 bytes."
                .to_string(),
            "Attempted to read field 'B' (B) of size 1, but it exceeds payload length 3. Stopping parse for this message."
                .to_string(),
        ]
    );
    assert_eq!(skipped, 1);
}

#[test]
fn short_payload_stops_at_the_first_overrun() {
    let schema = vec![field("A", "H"), field("B", "I"), field("C", "B")];
    let (fields, warnings, skipped) = parse_fields(&[0x2A, 0x00, 0x01], &schema);
    assert_eq!(fields, vec![pair("A", "42")]);
    assert_eq!(
        warnings,
        vec![
            "Attempted to read field 'B' (I) of size 4, but it exceeds payload length 3. Stopping parse for this message."
                .to_string(),
            "Payload not fully consumed. Expected length 3, read 2. Remaining 1 bytes."
                .to_string(),
        ]
    );
    assert_eq!(skipped, 0);
}

#[test]
fn unknown_type_code_stops_the_message() {
    let schema = vec![field("A", "B"), field("B", "nope"), field("C", "B")];
    let (fields, warnings, _) = parse_fields(&[1, 2], &schema);
    assert_eq!(fields, vec![pair("A", "1")]);
    assert_eq!(
        warnings,
        vec![
            "Cannot determine size for field 'B' with unknown type 'nope'. Stopping parse for this message."
                .to_string(),
            "Payload not fully consumed. Expected length 2, read 1. Remaining 1 bytes."
                .to_string(),
        ]
    );
}

#[test]
fn long_payload_gives_one_leftover_warning() {
    let schema = vec![field("A", "H")];
    let (fields, warnings, _) = parse_fields(&[1, 1, 0, 0, 0], &schema);
    assert_eq!(fields, vec![pair("A", "257")]);
    assert_eq!(
        warnings,
        vec!["Payload not fully consumed. Expected length 5, read 2. Remaining 3 bytes."
            .to_string()]
    );
}

#[test]
fn tail_field_takes_the_rest() {
    let schema = vec![field("N", "B"), field("FILE_CONTENTS", "c")];
    let (fields, warnings, _) = parse_fields(b"\x03hello world\0\0\0", &schema);
    assert_eq!(fields, vec![pair("N", "3"), pair("FILE_CONTENTS", "hello world")]);
    assert!(warnings.is_empty());
}

#[test]
fn tail_field_needs_one_byte() {
    let schema = vec![field("N", "B"), field("FILE_CONTENTS", "c")];
    let (fields, warnings, _) = parse_fields(&[3], &schema);
    assert_eq!(fields, vec![pair("N", "3")]);
    assert_eq!(
        warnings,
        vec![
            "Attempted to read field 'FILE_CONTENTS' (c) of size 1, but it exceeds payload length 1. Stopping parse for this message."
                .to_string()
        ]
    );
}

#[test]
fn tail_name_with_a_longer_code_is_fixed_text() {
    let schema = vec![field("FILE_CONTENTS", "cc"), field("Z", "B")];
    let (fields, warnings, _) = parse_fields(b"hi\x07", &schema);
    assert_eq!(fields, vec![pair("FILE_CONTENTS", "hi"), pair("Z", "7")]);
    assert!(warnings.is_empty());
}

#[test]
fn empty_schema_and_payload() {
    let (fields, warnings, skipped) = parse_fields(&[], &[]);
    assert!(fields.is_empty());
    assert!(warnings.is_empty());
    assert_eq!(skipped, 0);
}

#[test]
fn round_trip_of_numbers_and_text() {
    let schema =
        vec![field("a", "H"), field("b", "q"), field("c", "I"), field("d", "cccccc"), field("e", "b")];
    let a: u16 = 513;
    let b: i64 = -42;
    let c: u32 = 0;
    let d = "abc";
    let e: i8 = -1;
    let mut payload: Vec<u8> = Vec::new();
    payload.extend_from_slice(&a.to_le_bytes());
    payload.extend_from_slice(&b.to_le_bytes());
    payload.extend_from_slice(&c.to_le_bytes());
    payload.extend_from_slice(d.as_bytes());
    payload.extend_from_slice(&[0, 0, 0]);
    payload.extend_from_slice(&e.to_le_bytes());
    let (fields, warnings, _) = parse_fields(&payload, &schema);
    assert_eq!(
        fields,
        vec![
            pair("a", &a.to_string()),
            pair("b", &b.to_string()),
            pair("c", &c.to_string()),
            pair("d", d),
            pair("e", &e.to_string()),
        ]
    );
    assert!(warnings.is_empty());
}

#[test]
fn renderings() {
    assert_eq!(render_unsigned(0), "0");
    assert_eq!(render_unsigned(10), "10");
    assert_eq!(render_unsigned(9_007_199_254_740_993), "9007199254740993");
    assert_eq!(render_signed(0), "0");
    assert_eq!(render_signed(-1), "-1");
    assert_eq!(render_signed(i64::MAX), "9223372036854775807");
    assert_eq!(render_hex(&[]), "");
    assert_eq!(render_hex(&[0x0A]), "0A");
    assert_eq!(render_hex(&[0xDE, 0xAD, 0xBE, 0xEF]), "DE AD BE EF");
    assert_eq!(render_text(b"ok\0"), "ok");
    assert_eq!(render_text(b"a\0b\0\0"), "a\0b");
    assert_eq!(render_text(&[0x68, 0xFF, 0x69]), "h\u{FFFD}i");
    assert_eq!(render_text(&[0, 0]), "");
    assert_eq!(trim_trailing_nul("\0x\0"), "\0x");
    assert_eq!(trim_trailing_nul(""), "");
}

fn message(log_type: u16, name: &str, value: &str) -> ParsedMessage {
    ParsedMessage { log_type, name: name.to_string(), fields: vec![pair("v", value)] }
}

#[test]
fn groups_keep_order_of_first_appearance() {
    let messages =
        vec![message(1, "A", "1"), message(2, "B", "2"), message(1, "A", "3"), message(3, "C", "4")];
    let groups = group_by_type(&messages);
    assert_eq!(groups.len(), 3);
    assert_eq!(groups[0].name, "A");
    assert_eq!(groups[1].name, "B");
    assert_eq!(groups[2].name, "C");
    assert_eq!(groups[0].messages.len(), 2);
    assert_eq!(groups[0].messages[0].fields, vec![pair("v", "1")]);
    assert_eq!(groups[0].messages[1].fields, vec![pair("v", "3")]);
    assert_eq!(groups[0].messages[1].log_type, 1);
    assert_eq!(groups[1].messages.len(), 1);
    assert_eq!(groups[2].messages[0].fields, vec![pair("v", "4")]);
    assert!(group_by_type(&[]).is_empty());
}

#[test]
fn keys_in_text() {
    assert_eq!(type_id_of_key("0"), Some(0));
    assert_eq!(type_id_of_key("1"), Some(1));
    assert_eq!(type_id_of_key("300"), Some(300));
    assert_eq!(type_id_of_key("65535"), Some(65535));
    assert_eq!(type_id_of_key("65536"), None);
    assert_eq!(type_id_of_key("01"), None);
    assert_eq!(type_id_of_key("00"), None);
    assert_eq!(type_id_of_key("+1"), None);
    assert_eq!(type_id_of_key(""), None);
    assert_eq!(type_id_of_key("1a"), None);
    assert_eq!(type_id_of_key(" 1"), None);
    assert_eq!(type_id_of_key("99999999999999999999"), None);
}

#[test]
fn registry_by_text_keys() {
    let mut registry = MessageRegistry::new();
    assert!(registry.insert_keyed("1", MessageDef { name: "ONE".to_string(), fields: vec![] }));
    assert!(!registry.insert_keyed("two", MessageDef { name: "TWO".to_string(), fields: vec![] }));
    assert!(!registry.insert_keyed("01", MessageDef { name: "ALSO".to_string(), fields: vec![] }));
    assert!(registry.insert_keyed("1", MessageDef { name: "UNO".to_string(), fields: vec![] }));
    assert_eq!(registry.len(), 1);
    assert_eq!(registry.get(1).unwrap().name, "UNO");
    let stream = [0, 0, 0, 0, 1, 0, 0, 0];
    let (messages, warnings, _) = extract_messages(&stream, &registry).unwrap();
    assert_eq!(messages.len(), 1);
    assert_eq!(messages[0].name, "UNO");
    assert!(messages[0].fields.is_empty());
    assert!(warnings.is_empty());
}

#[test]
fn table_of_a_group() {
    let messages = vec![
        ParsedMessage {
            log_type: 1,
            name: "A".to_string(),
            fields: vec![pair("x", "1"), pair("y", "2")],
        },
        ParsedMessage { log_type: 1, name: "A".to_string(), fields: vec![pair("x", "3")] },
    ];
    let rows = export_rows(&messages);
    assert_eq!(
        rows,
        vec![
            vec!["x".to_string(), "y".to_string()],
            vec!["1".to_string(), "2".to_string()],
            vec!["3".to_string()],
        ]
    );
    assert!(export_rows(&[]).is_empty());
    let bare = vec![ParsedMessage { log_type: 1, name: "A".to_string(), fields: vec![] }];
    assert!(export_rows(&bare).is_empty());
}

#[test]
fn errors_in_words() {
    assert_eq!(FrameError::TruncatedHeader.describe(), "stream ends inside the header");
    assert_eq!(FrameError::TruncatedTypeId.describe(), "stream ends inside a type id");
    assert_eq!(FrameError::TruncatedLength.describe(), "stream ends inside a payload length");
    assert_eq!(FrameError::TruncatedPayload.describe(), "stream ends inside a payload");
    assert_eq!(FrameError::SkipCountOverflow.describe(), "too many skipped fields to count");
    assert!(FrameError::TruncatedPayload.is_truncation());
    assert!(!FrameError::SkipCountOverflow.is_truncation());
}

fn feed_all(stream: &[u8], registry: &MessageRegistry) -> Framer {
    let mut framer = Framer::new();
    let mut pos = 0;
    while let Some(count) = framer.wants() {
        let end = if stream.len() - pos < count { stream.len() } else { pos + count };
        framer.feed(&stream[pos..end], registry);
        pos = end;
    }
    framer
}

#[test]
fn framer_fed_in_pieces_gives_the_same() {
    let registry = hello_registry();
    let stream = vec![
        0, 0, 0, 0, //
        0x02, 0x00, 0x02, 0x00, 0xFF, 0xFF, //
        0x01, 0x00, 0x04, 0x00, 0x2A, 0x00, 0x05, 0x09, //
        0x01, 0x00, 0x03, 0x00, 0x01, 0x01, 0x02,
    ];
    let framer = feed_all(&stream, &registry);
    let (messages, warnings, skipped) = extract_messages(&stream, &registry).unwrap();
    assert_eq!(framer.phase, Phase::Done);
    assert_eq!(framer.messages.len(), 2);
    assert_eq!(framer.messages.len(), messages.len());
    assert_eq!(framer.messages[0].fields, messages[0].fields);
    assert_eq!(framer.messages[1].fields, vec![pair("A", "257"), pair("B", "2")]);
    assert_eq!(framer.warnings, warnings);
    assert_eq!(framer.warnings.len(), 1);
    assert_eq!(framer.skipped, skipped);
}

#[test]
fn framer_phases() {
    let registry = hello_registry();
    let mut framer = Framer::new();
    assert_eq!(framer.phase, Phase::Header);
    assert_eq!(framer.wants(), Some(4));
    framer.feed(&[9, 9, 9, 9], &registry);
    assert_eq!(framer.phase, Phase::TypeId);
    assert_eq!(framer.wants(), Some(2));
    framer.feed(&[0x01, 0x00], &registry);
    assert_eq!(framer.phase, Phase::Length(1));
    assert_eq!(framer.wants(), Some(2));
    framer.feed(&[0x03, 0x00], &registry);
    assert_eq!(framer.phase, Phase::Payload(1, 3));
    assert_eq!(framer.wants(), Some(3));
    framer.feed(&[0x2A, 0x00, 0x05], &registry);
    assert_eq!(framer.phase, Phase::TypeId);
    assert_eq!(framer.messages.len(), 1);
    assert_eq!(framer.messages[0].fields, vec![pair("A", "42"), pair("B", "5")]);
    framer.feed(&[], &registry);
    assert_eq!(framer.phase, Phase::Done);
    assert_eq!(framer.wants(), None);
    framer.feed(&[1, 2], &registry);
    assert_eq!(framer.phase, Phase::Done);
    assert_eq!(framer.messages.len(), 1);
}

#[test]
fn framer_fails_where_the_stream_breaks_off() {
    let registry = hello_registry();
    assert_eq!(feed_all(&[0, 0], &registry).phase, Phase::Failed(FrameError::TruncatedHeader));
    assert_eq!(
        feed_all(&[0, 0, 0, 0, 1], &registry).phase,
        Phase::Failed(FrameError::TruncatedTypeId)
    );
    assert_eq!(
        feed_all(&[0, 0, 0, 0, 1, 0, 3], &registry).phase,
        Phase::Failed(FrameError::TruncatedLength)
    );
    assert_eq!(
        feed_all(&[0, 0, 0, 0, 1, 0, 3, 0, 1, 2], &registry).phase,
        Phase::Failed(FrameError::TruncatedPayload)
    );
    let failed = feed_all(&[0, 0, 0, 0, 1, 0], &registry);
    assert_eq!(failed.wants(), None);
    assert!(failed.messages.is_empty());
}

#[test]
fn text_fields_hold_utf8() {
    let schema = vec![field("T", "cccc"), field("U", "3s")];
    let mut payload: Vec<u8> = Vec::new();
    payload.extend_from_slice("é".as_bytes());
    payload.extend_from_slice(&[0, 0]);
    payload.extend_from_slice("€".as_bytes());
    let (fields, warnings, _) = parse_fields(&payload, &schema);
    assert_eq!(fields, vec![pair("T", "é"), pair("U", "€")]);
    assert!(warnings.is_empty());
    let (broken, _, _) = parse_fields(&[0xC3, 0x00], &[field("T", "cc")]);
    assert_eq!(broken, vec![pair("T", "\u{FFFD}")]);
}

#[test]
fn tail_field_before_the_end_starves_what_follows() {
    let schema = vec![field("FILE_CONTENTS", "c"), field("Z", "B")];
    let (fields, warnings, skipped) = parse_fields(b"hi\x07", &schema);
    assert_eq!(fields, vec![pair("FILE_CONTENTS", "hi\u{7}")]);
    assert_eq!(
        warnings,
        vec![
            "Attempted to read field 'Z' (B) of size 1, but it exceeds payload length 3. Stopping parse for this message."
                .to_string()
        ]
    );
    assert_eq!(skipped, 0);
}
