use ultralog::channel_list::{channel_matches_search, search_matches};
use ultralog::indices::{
    contains_index, count_distinct_below, drop_ref_exec, drop_refs_exec, sort_descending,
    without_exec,
};
use ultralog::loader::{
    decode_log_text, detect_proprietary_format, ProprietaryFormat, TextDecodeError,
};
use ultralog::text::{
    char_is_white_space, chars_of, decimal_string, find_chars, text_quoted_after,
    trimmed_field_text,
};

// ============================================
// Text decoding
// ============================================

#[test]
fn utf8_text_is_decoded() {
    assert_eq!(decode_log_text(b"Time,RPM\n0,900\n").unwrap(), "Time,RPM\n0,900\n");
}

#[test]
fn malformed_utf8_is_replaced() {
    assert_eq!(decode_log_text(b"a\xFFb").unwrap(), "a\u{FFFD}b");
}

#[test]
fn utf16le_with_bom_is_decoded() {
    let mut data = vec![0xFF, 0xFE];
    for u in "Time,RPM".encode_utf16() {
        data.extend_from_slice(&u.to_le_bytes());
    }
    assert_eq!(decode_log_text(&data).unwrap(), "Time,RPM");
}

#[test]
fn utf16be_with_bom_is_decoded() {
    let mut data = vec![0xFE, 0xFF];
    for u in "Zeit;Drehzahl".encode_utf16() {
        data.extend_from_slice(&u.to_be_bytes());
    }
    assert_eq!(decode_log_text(&data).unwrap(), "Zeit;Drehzahl");
}

#[test]
fn malformed_utf16le_is_an_error() {
    // a lone high surrogate
    let data = [0xFF, 0xFE, 0x00, 0xD8, 0x41, 0x00];
    let err = decode_log_text(&data).unwrap_err();
    assert_eq!(err, TextDecodeError::Utf16LeMalformed);
    assert_eq!(
        err.message(),
        "File appears to be UTF-16 LE but has decoding errors"
    );
}

#[test]
fn malformed_utf16be_is_an_error() {
    let data = [0xFE, 0xFF, 0xD8, 0x00, 0x00, 0x41];
    let err = decode_log_text(&data).unwrap_err();
    assert_eq!(err, TextDecodeError::Utf16BeMalformed);
    assert_eq!(
        err.message(),
        "File appears to be UTF-16 BE but has decoding errors"
    );
}

// ============================================
// Formats that cannot be read
// ============================================

#[test]
fn haltech_hlgzip_is_recognized() {
    let f = detect_proprietary_format(b"HEPS\x01\x02");
    assert_eq!(f, Some(ProprietaryFormat::HaltechHlgzip));
    assert!(f.unwrap().message().starts_with("This is a Haltech .hlgzip file"));
}

#[test]
fn aem_daq_is_recognized() {
    let f = detect_proprietary_format(b"EMERALD data");
    assert_eq!(f, Some(ProprietaryFormat::AemDaq));
    assert!(f.unwrap().message().starts_with("This is an AEM .daq file"));
}

#[test]
fn other_data_is_not_proprietary() {
    assert_eq!(detect_proprietary_format(b"HEP"), None);
    assert_eq!(detect_proprietary_format(b"EMERAL"), None);
    assert_eq!(detect_proprietary_format(b"MLVLG\x00"), None);
    assert_eq!(detect_proprietary_format(b""), None);
}

// ============================================
// Text helpers
// ============================================

#[test]
fn field_text_is_trimmed() {
    assert_eq!(trimmed_field_text(" RPM \0\0\0"), "RPM");
    assert_eq!(trimmed_field_text("\0\0"), "");
    assert_eq!(trimmed_field_text("\u{3000}kPa\t"), "kPa");
    // a NUL inside the text stays
    assert_eq!(trimmed_field_text("a\0b"), "a\0b");
}

#[test]
fn white_space_follows_unicode() {
    assert!(char_is_white_space(' '));
    assert!(char_is_white_space('\u{A0}'));
    assert!(char_is_white_space('\u{2029}'));
    assert!(!char_is_white_space('\0'));
    assert!(!char_is_white_space('x'));
    for c in ['\t', '\n', ' ', '\u{85}', '\u{1680}', '\u{2000}', '\u{205F}', 'a', '\0', '\u{200B}'] {
        assert_eq!(char_is_white_space(c), c.is_whitespace());
    }
}

#[test]
fn quoted_text_after_a_tag() {
    let text = "x \"speeduino 2023\" y".to_string();
    assert_eq!(text_quoted_after(&text, "speeduino"), "speeduino 2023");
    assert_eq!(text_quoted_after(&text, "rusefi"), "");
    assert_eq!(text_quoted_after(&"speeduino no quote".to_string(), "speeduino"), "");
}

#[test]
fn finding_characters() {
    let hay = chars_of("abcabc");
    assert_eq!(hay, vec!['a', 'b', 'c', 'a', 'b', 'c']);
    assert_eq!(find_chars(&hay, &chars_of("bc"), 0), Some(1));
    assert_eq!(find_chars(&hay, &chars_of("bc"), 2), Some(4));
    assert_eq!(find_chars(&hay, &chars_of("cb"), 0), None);
    assert_eq!(find_chars(&hay, &chars_of(""), 3), Some(3));
}

#[test]
fn decimal_strings() {
    assert_eq!(decimal_string(0), "0");
    assert_eq!(decimal_string(7), "7");
    assert_eq!(decimal_string(1000), "1000");
    assert_eq!(decimal_string(usize::MAX), usize::MAX.to_string());
}

// ============================================
// Index lists
// ============================================

#[test]
fn dropping_one_reference() {
    assert_eq!(drop_ref_exec(&vec![0, 2, 1, 3], 1), vec![0, 1, 2]);
    assert_eq!(drop_ref_exec(&vec![], 0), Vec::<usize>::new());
}

#[test]
fn dropping_several_references() {
    assert_eq!(drop_refs_exec(&vec![0, 2, 4, 5], &vec![1, 4, 1]), vec![0, 1, 3]);
    assert_eq!(count_distinct_below(&vec![1, 4, 1], 5), 2);
    assert_eq!(count_distinct_below(&vec![1, 4, 1], 1), 0);
}

#[test]
fn removing_and_finding_entries() {
    assert_eq!(without_exec(&vec![3, 1, 3, 2], 3), vec![1, 2]);
    assert!(contains_index(&vec![3, 1], 1));
    assert!(!contains_index(&vec![3, 1], 2));
}

#[test]
fn sorting_descending() {
    assert_eq!(sort_descending(&vec![2, 5, 1, 5, 0]), vec![5, 5, 2, 1, 0]);
    assert_eq!(sort_descending(&vec![]), Vec::<usize>::new());
}

// ============================================
// Channel search
// ============================================

#[test]
fn empty_search_shows_every_channel() {
    assert!(channel_matches_search("RPM", "Engine Speed", ""));
    assert!(search_matches("rpm", "engine speed", ""));
}

#[test]
fn search_ignores_case() {
    assert!(channel_matches_search("RPM", "RPM", "rp"));
    assert!(channel_matches_search("Coolant Temp", "CLT", "TEMP"));
    assert!(channel_matches_search("x", "Engine Speed", "SPEED"));
    assert!(!channel_matches_search("RPM", "Engine Speed", "map"));
    assert!(channel_matches_search("ÖLDRUCK", "oil", "öl"));
}

#[test]
fn search_on_lowercase_texts() {
    assert!(search_matches("rpm", "engine speed", "speed"));
    assert!(search_matches("rpm", "engine speed", "rpm"));
    assert!(!search_matches("rpm", "engine speed", "RPM"));
    assert!(!search_matches("rpm", "engine speed", "tps"));
}
