use ultralog::speeduino::{
    FieldType, MlgError, MlgLog, RawValue, Speeduino, SpeeduinoChannel, F32_ONE_BITS,
    WRAP_THRESHOLD,
};

// ============================================
// Builders for small MLG files
// ============================================

fn padded(text: &[u8], len: usize) -> Vec<u8> {
    let mut v = text.to_vec();
    v.resize(len, 0);
    v
}

/// A version 1 header (22 bytes).
fn header_v1(info_start: u16, data_begin: u32, num_fields: u16) -> Vec<u8> {
    let mut d = Vec::new();
    d.extend_from_slice(b"MLVLG\x00");
    d.extend_from_slice(&1_i16.to_be_bytes());
    d.extend_from_slice(&0_i32.to_be_bytes());
    d.extend_from_slice(&info_start.to_be_bytes());
    d.extend_from_slice(&data_begin.to_be_bytes());
    d.extend_from_slice(&0_u16.to_be_bytes());
    d.extend_from_slice(&num_fields.to_be_bytes());
    d
}

/// A version 2 header (24 bytes).
fn header_v2(info_start: u32, data_begin: u32, num_fields: u16) -> Vec<u8> {
    let mut d = Vec::new();
    d.extend_from_slice(b"MLVLG\x00");
    d.extend_from_slice(&2_i16.to_be_bytes());
    d.extend_from_slice(&0_i32.to_be_bytes());
    d.extend_from_slice(&info_start.to_be_bytes());
    d.extend_from_slice(&data_begin.to_be_bytes());
    d.extend_from_slice(&0_u16.to_be_bytes());
    d.extend_from_slice(&num_fields.to_be_bytes());
    d
}

/// A field definition: 55 bytes (version 1) or 89 bytes (version 2).
fn field(ft: u8, name: &[u8], unit: &[u8], scale: f32, transform: f32, v2: bool) -> Vec<u8> {
    let mut d = vec![ft];
    d.extend(padded(name, 34));
    d.extend(padded(unit, 10));
    d.push(0); // display style
    d.extend_from_slice(&scale.to_be_bytes());
    d.extend_from_slice(&transform.to_be_bytes());
    d.push(2); // digits
    if v2 {
        d.extend(padded(b"Engine", 34));
    }
    d
}

fn block_header(block_type: u8, timestamp: u16) -> Vec<u8> {
    let mut d = vec![block_type, 0];
    d.extend_from_slice(&timestamp.to_be_bytes());
    d
}

/// A version 1 file with an RPM (U16) and a TPS (S08) channel, an info
/// section, three data records (the last after a timestamp wraparound), a
/// marker, and a truncated record at the end.
fn sample_v1() -> Vec<u8> {
    let info = b"x\"speeduino 202310\"Capture Date: 2024-05-01\"".to_vec();
    let fields_end = 22 + 2 * 55;
    let data_begin = fields_end + info.len();
    let mut d = header_v1(fields_end as u16, data_begin as u32, 2);
    d.extend(field(2, b"RPM", b"rpm", 1.0, 0.0, false));
    d.extend(field(1, b"  TPS ", b" % ", 0.5, 0.0, false));
    d.extend(info);
    // record: ts 1000, rpm 3000, tps -10
    d.extend(block_header(0, 1000));
    d.extend_from_slice(&3000_u16.to_be_bytes());
    d.push(0xF6);
    d.push(0xAA); // CRC
    // marker: ts 2000, 50 bytes of message
    d.extend(block_header(1, 2000));
    d.extend(padded(b"marker", 50));
    // record: ts 60000, rpm 65535, tps 127
    d.extend(block_header(0, 60000));
    d.extend_from_slice(&65535_u16.to_be_bytes());
    d.push(0x7F);
    d.push(0x00);
    // record after wraparound: ts 100, rpm 1, tps 0
    d.extend(block_header(0, 100));
    d.extend_from_slice(&1_u16.to_be_bytes());
    d.push(0x00);
    d.push(0x00);
    // a record that does not fit
    d.extend(block_header(0, 200));
    d.push(0x01);
    d
}

fn parse_ok(data: &[u8]) -> MlgLog {
    match Speeduino::parse_binary(data) {
        Ok(log) => log,
        Err(e) => panic!("parse failed: {}", e.message()),
    }
}

// ============================================
// FieldType Tests
// ============================================

#[test]
fn test_field_type_from_u8() {
    assert!(matches!(FieldType::from_u8(0), Some(FieldType::U08)));
    assert!(matches!(FieldType::from_u8(1), Some(FieldType::S08)));
    assert!(matches!(FieldType::from_u8(2), Some(FieldType::U16)));
    assert!(matches!(FieldType::from_u8(3), Some(FieldType::S16)));
    assert!(matches!(FieldType::from_u8(4), Some(FieldType::U32)));
    assert!(matches!(FieldType::from_u8(5), Some(FieldType::S32)));
    assert!(matches!(FieldType::from_u8(6), Some(FieldType::S64)));
    assert!(matches!(FieldType::from_u8(7), Some(FieldType::F32)));
    assert!(matches!(
        FieldType::from_u8(10),
        Some(FieldType::U08Bitfield)
    ));
    assert!(matches!(
        FieldType::from_u8(11),
        Some(FieldType::U16Bitfield)
    ));
    assert!(matches!(
        FieldType::from_u8(12),
        Some(FieldType::U32Bitfield)
    ));
    // Invalid types
    assert!(FieldType::from_u8(8).is_none());
    assert!(FieldType::from_u8(9).is_none());
    assert!(FieldType::from_u8(13).is_none());
    assert!(FieldType::from_u8(255).is_none());
}

#[test]
fn test_field_type_byte_size() {
    assert_eq!(FieldType::U08.byte_size(), 1);
    assert_eq!(FieldType::S08.byte_size(), 1);
    assert_eq!(FieldType::U08Bitfield.byte_size(), 1);
    assert_eq!(FieldType::U16.byte_size(), 2);
    assert_eq!(FieldType::S16.byte_size(), 2);
    assert_eq!(FieldType::U16Bitfield.byte_size(), 2);
    assert_eq!(FieldType::U32.byte_size(), 4);
    assert_eq!(FieldType::S32.byte_size(), 4);
    assert_eq!(FieldType::F32.byte_size(), 4);
    assert_eq!(FieldType::U32Bitfield.byte_size(), 4);
    assert_eq!(FieldType::S64.byte_size(), 8);
}

// ============================================
// Detection Tests
// ============================================

#[test]
fn test_detect_valid_mlg_header() {
    let valid_header = b"MLVLG\x00\x00\x01";
    assert!(Speeduino::detect(valid_header));
}

#[test]
fn test_detect_invalid_header() {
    // Wrong magic bytes
    assert!(!Speeduino::detect(b"WRONG"));
    assert!(!Speeduino::detect(b"MLV"));
    assert!(!Speeduino::detect(b""));
    // Too short
    assert!(!Speeduino::detect(b"MLVL"));
    // Completely different format
    assert!(!Speeduino::detect(b"DataLog"));
    assert!(!Speeduino::detect(b"%DataLog%"));
}

#[test]
fn test_detect_exact_header_length() {
    // Exactly 5 bytes with correct header should work
    assert!(Speeduino::detect(b"MLVLG"));
}

// ============================================
// SpeeduinoChannel Tests
// ============================================

#[test]
fn test_speeduino_channel_unit() {
    let channel = SpeeduinoChannel {
        name: "RPM".to_string(),
        unit: "rpm".to_string(),
        scale_bits: 1.0f32.to_bits(),
        transform_bits: 0.0f32.to_bits(),
        field_type: 2,
    };
    assert_eq!(channel.unit(), "rpm");
}

// ============================================
// Binary Parsing Error Tests
// ============================================

#[test]
fn test_parse_binary_invalid_header() {
    let invalid_data = b"NOT_MLG_FORMAT";
    let result = Speeduino::parse_binary(invalid_data);
    assert!(result.is_err());
    assert!(result
        .unwrap_err()
        .message()
        .contains("Invalid MLG file header"));
}

#[test]
fn test_parse_binary_too_short() {
    // Valid header but truncated
    let short_data = b"MLVLG";
    let result = Speeduino::parse_binary(short_data);
    assert!(result.is_err());
}

#[test]
fn test_parse_binary_unreasonable_field_count() {
    // Create a minimal header with unreasonable field count
    let mut data = Vec::new();
    data.extend_from_slice(b"MLVLG\x00"); // Header (6 bytes)
    data.extend_from_slice(&1_i16.to_be_bytes()); // Format version
    data.extend_from_slice(&0_i32.to_be_bytes()); // Timestamp
    data.extend_from_slice(&100_u16.to_be_bytes()); // info_data_start
    data.extend_from_slice(&200_u32.to_be_bytes()); // data_begin_index
    data.extend_from_slice(&10_u16.to_be_bytes()); // record_length
    data.extend_from_slice(&5000_u16.to_be_bytes()); // num_fields (unreasonable)

    let result = Speeduino::parse_binary(&data);
    assert!(result.is_err());
    assert!(result
        .unwrap_err()
        .message()
        .contains("Unreasonable field count"));
}

// ============================================
// Text Parser Error Test
// ============================================

#[test]
fn test_text_parser_returns_error() {
    let parser = Speeduino;
    let result = parser.parse("some text data");
    assert!(result.is_err());
    assert!(result.unwrap_err().message().contains("binary format"));
}

// ============================================
// Parsing hand-built files
// ============================================

#[test]
fn parses_v1_channels() {
    let log = parse_ok(&sample_v1());
    assert_eq!(log.channels.len(), 2);
    assert_eq!(log.channels[0].name, "RPM");
    assert_eq!(log.channels[0].unit(), "rpm");
    assert_eq!(log.channels[0].field_type, 2);
    assert_eq!(log.channels[0].scale_bits, 1.0f32.to_bits());
    assert_eq!(log.channels[0].transform_bits, 0.0f32.to_bits());
    // names and units are trimmed of padding and white space
    assert_eq!(log.channels[1].name, "TPS");
    assert_eq!(log.channels[1].unit, "%");
    assert_eq!(log.channels[1].scale_bits, 0.5f32.to_bits());
}

#[test]
fn parses_v1_metadata() {
    let log = parse_ok(&sample_v1());
    assert_eq!(log.meta.version, "speeduino 202310");
    assert_eq!(log.meta.capture_date, "Capture Date: 2024-05-01");
}

#[test]
fn parses_v1_records_and_wraparound() {
    let log = parse_ok(&sample_v1());
    // the marker is skipped, the truncated last record is dropped
    assert_eq!(log.ticks, vec![1000, 60000, 100 + 65536]);
    assert_eq!(log.data.len(), 3);
    assert_eq!(log.data[0], vec![RawValue::Int(3000), RawValue::Int(-10)]);
    assert_eq!(log.data[1], vec![RawValue::Int(65535), RawValue::Int(127)]);
    assert_eq!(log.data[2], vec![RawValue::Int(1), RawValue::Int(0)]);
}

#[test]
fn parsed_log_has_one_value_per_channel() {
    let log = parse_ok(&sample_v1());
    assert_eq!(log.ticks.len(), log.data.len());
    for record in &log.data {
        assert_eq!(record.len(), log.channels.len());
    }
}

#[test]
fn parsed_file_is_detected() {
    let data = sample_v1();
    assert!(Speeduino::parse_binary(&data).is_ok());
    assert!(Speeduino::detect(&data));
}

#[test]
fn wraparound_at_a_marker_counts() {
    let mut d = header_v1(22, 22, 0);
    d.extend(block_header(0, 60000));
    d.push(0);
    d.extend(block_header(1, 100));
    d.extend(padded(b"", 50));
    d.extend(block_header(0, 200));
    d.push(0);
    let log = parse_ok(&d);
    assert_eq!(log.ticks, vec![60000, 65536 + 200]);
}

#[test]
fn small_drop_is_not_a_wraparound() {
    // no fields; a drop of exactly WRAP_THRESHOLD ticks is jitter, a drop
    // of one more is a wraparound
    let mut d = header_v1(22, 22, 0);
    d.extend(block_header(0, 40000));
    d.push(0);
    d.extend(block_header(0, 40000 - WRAP_THRESHOLD));
    d.push(0);
    d.extend(block_header(0, 40000));
    d.push(0);
    d.extend(block_header(0, 40000 - WRAP_THRESHOLD - 1));
    d.push(0);
    let log = parse_ok(&d);
    assert_eq!(
        log.ticks,
        vec![40000, 10000, 40000, 65536 + 9999]
    );
    assert_eq!(log.data, vec![Vec::<RawValue>::new(); 4]);
}

#[test]
fn parses_v2_with_bitfield_and_float() {
    let fields_end = 24 + 2 * 89;
    let mut d = header_v2(fields_end as u32, fields_end as u32, 2);
    d.extend(field(7, b"AFR", b"afr", 0.1, 0.0, true));
    d.extend(field(10, b"Status", b"", 3.0, 9.0, true));
    d.extend(block_header(0, 5));
    d.extend_from_slice(&1.5f32.to_be_bytes());
    d.push(0xFF);
    d.push(0x00);
    let log = parse_ok(&d);
    assert_eq!(log.channels.len(), 2);
    assert_eq!(log.channels[0].name, "AFR");
    assert_eq!(log.channels[0].scale_bits, 0.1f32.to_bits());
    // a bitfield has scale 1 and transform 0 whatever the file says
    assert_eq!(log.channels[1].field_type, 10);
    assert_eq!(log.channels[1].scale_bits, F32_ONE_BITS);
    assert_eq!(log.channels[1].transform_bits, 0);
    assert_eq!(log.ticks, vec![5]);
    assert_eq!(
        log.data,
        vec![vec![RawValue::F32Bits(1.5f32.to_bits()), RawValue::Bitfield]]
    );
    // no info section
    assert_eq!(log.meta.version, "");
    assert_eq!(log.meta.capture_date, "");
}

#[test]
fn parses_wide_integer_fields() {
    let fields_end = 22 + 4 * 55;
    let mut d = header_v1(fields_end as u16, fields_end as u32, 4);
    d.extend(field(3, b"a", b"", 1.0, 0.0, false));
    d.extend(field(4, b"b", b"", 1.0, 0.0, false));
    d.extend(field(5, b"c", b"", 1.0, 0.0, false));
    d.extend(field(6, b"d", b"", 1.0, 0.0, false));
    d.extend(block_header(0, 7));
    d.extend_from_slice(&(-2_i16).to_be_bytes());
    d.extend_from_slice(&4_000_000_000_u32.to_be_bytes());
    d.extend_from_slice(&(-70000_i32).to_be_bytes());
    d.extend_from_slice(&(-5_000_000_000_i64).to_be_bytes());
    d.push(0);
    let log = parse_ok(&d);
    assert_eq!(
        log.data,
        vec![vec![
            RawValue::Int(-2),
            RawValue::Int(4_000_000_000),
            RawValue::Int(-70000),
            RawValue::Int(-5_000_000_000),
        ]]
    );
}

#[test]
fn unknown_block_type_stops_reading() {
    let mut d = header_v1(22, 22, 0);
    d.extend(block_header(0, 1));
    d.push(0);
    d.extend(block_header(7, 2));
    d.extend(block_header(0, 3));
    d.push(0);
    let log = parse_ok(&d);
    assert_eq!(log.ticks, vec![1]);
}

#[test]
fn truncated_marker_stops_reading() {
    let mut d = header_v1(22, 22, 0);
    d.extend(block_header(1, 1));
    d.extend(padded(b"short", 20));
    let log = parse_ok(&d);
    assert!(log.ticks.is_empty());
    assert!(log.data.is_empty());
}

// ============================================
// Errors
// ============================================

#[test]
fn header_shorter_than_v1_is_truncated() {
    let data = padded(b"MLVLG\x00", 16);
    let err = Speeduino::parse_binary(&data).unwrap_err();
    assert_eq!(err, MlgError::HeaderTruncated);
    assert_eq!(err.message(), "MLG file header truncated");
}

#[test]
fn five_byte_magic_alone_is_invalid() {
    assert_eq!(
        Speeduino::parse_binary(b"MLVLG").unwrap_err(),
        MlgError::InvalidHeader
    );
}

#[test]
fn unreasonable_field_count_message() {
    let data = header_v1(100, 200, 5000);
    let err = Speeduino::parse_binary(&data).unwrap_err();
    assert_eq!(err, MlgError::UnreasonableFieldCount(5000));
    assert_eq!(err.message(), "Unreasonable field count: 5000");
}

#[test]
fn thousand_fields_are_not_unreasonable() {
    let data = header_v1(22, 22, 1000);
    let err = Speeduino::parse_binary(&data).unwrap_err();
    assert!(matches!(err, MlgError::FieldTruncated { index: 0, .. }));
}

#[test]
fn data_begin_past_end() {
    let data = header_v1(22, 500, 0);
    let err = Speeduino::parse_binary(&data).unwrap_err();
    assert_eq!(
        err,
        MlgError::DataBeginOutOfRange {
            data_begin_index: 500,
            file_size: 22
        }
    );
    assert_eq!(err.message(), "data_begin_index 500 exceeds file size 22");
}

#[test]
fn field_definition_past_end() {
    let mut d = header_v1(22, 22, 2);
    d.extend(field(2, b"RPM", b"rpm", 1.0, 0.0, false));
    d.extend(padded(b"x", 10));
    let err = Speeduino::parse_binary(&d).unwrap_err();
    assert_eq!(
        err,
        MlgError::FieldTruncated {
            index: 1,
            offset: 77,
            need: 55,
            have: 10
        }
    );
    assert_eq!(
        err.message(),
        "Not enough data for field 1 at offset 77 (need 55, have 10)"
    );
}

#[test]
fn unknown_field_type_in_record() {
    let fields_end = 22 + 55;
    let mut d = header_v1(fields_end as u16, fields_end as u32, 1);
    d.extend(field(8, b"odd", b"", 1.0, 0.0, false));
    d.extend(block_header(0, 1));
    d.push(0);
    let err = Speeduino::parse_binary(&d).unwrap_err();
    assert_eq!(err, MlgError::UnknownFieldType(8));
    assert_eq!(err.message(), "Unknown field type: 8");
}

#[test]
fn unknown_field_type_without_records_parses() {
    let fields_end = 22 + 55;
    let mut d = header_v1(fields_end as u16, fields_end as u32, 1);
    d.extend(field(9, b"odd", b"", 1.0, 0.0, false));
    let log = parse_ok(&d);
    assert_eq!(log.channels.len(), 1);
    assert!(log.data.is_empty());
}

#[test]
fn binary_format_only_message() {
    let err = Speeduino.parse("").unwrap_err();
    assert_eq!(err, MlgError::BinaryFormatOnly);
    assert_eq!(
        err.message(),
        "Speeduino/rusEFI MLG files are binary format. Use parse_binary() instead."
    );
}

#[test]
fn invalid_utf8_in_names_is_replaced() {
    let fields_end = 22 + 55;
    let mut d = header_v1(fields_end as u16, fields_end as u32, 1);
    d.extend(field(0, b"A\xFFB", b"", 1.0, 0.0, false));
    let log = parse_ok(&d);
    assert_eq!(log.channels[0].name, "A\u{FFFD}B");
}
