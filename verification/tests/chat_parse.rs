use chrono::{TimeZone, Utc};
use incfleetchat::encoding::decode_chatlog_bytes;
use incfleetchat::parse::{parse_listener, parse_site_candidates};

const SAMPLE: &str = "\u{feff}---------------------------------------------------------------\n\
\n\
  Channel ID:      fleet_1200000000001\n\
  Channel Name:    Fleet\n\
  Listener:        Estemaire Saissore Orlenard\n\
  Session started: 2026.08.01 18:23:19\n\
---------------------------------------------------------------\n\
\n\
[ 2026.08.01 19:42:09 ] Hamilton Norris > 1\n\
[ 2026.08.01 19:43:10 ] Hamilton Norris > 1\n\
[ 2026.08.01 19:44:00 ] tomar norris > cleared 1\n\
[ 2026.08.01 19:45:00 ] Hamilton Norris > 2\n\
[ 2026.08.01 19:46:00 ] Hamilton Norris > 3\n\
[ 2026.08.01 19:47:00 ] tomar norris > anyone for 3?\n\
[ 2026.08.01 19:48:00 ] Hamilton Norris > a\n\
[ 2026.08.01 19:49:00 ] Hamilton Norris > B\n\
[ 2026.08.01 19:50:00 ] Hamilton Norris > c\n\
[ 2026.08.01 19:51:00 ] Hamilton Norris > 12\n\
[ 2026.08.01 19:52:00 ] Hamilton Norris > 1\n";

fn utf16le_with_bom(text: &str) -> Vec<u8> {
    let mut bytes = vec![0xFF, 0xFE];
    for u in text.encode_utf16() {
        bytes.extend_from_slice(&u.to_le_bytes());
    }
    bytes
}

#[test]
fn decodes_utf8_fixture() {
    let decoded = decode_chatlog_bytes(SAMPLE.as_bytes()).unwrap();
    assert!(decoded.contains("Listener:"));
    assert!(decoded.contains("Hamilton Norris > 1"));
}

#[test]
fn decodes_utf16le_bom() {
    let bytes = utf16le_with_bom("Listener:        Test Pilot\n[ 2026.08.01 12:00:00 ] Pilot > 1\n");
    let decoded = decode_chatlog_bytes(&bytes).unwrap();
    assert!(decoded.contains("Test Pilot"));
    assert!(decoded.contains("> 1"));
}

#[test]
fn decodes_utf16_with_bom_on_each_message_line() {
    let body = "\u{feff}[ 2026.08.02 18:33:11 ] Hamilton Norris > 1\r\n\
\u{feff}[ 2026.08.02 18:34:13 ] Hamilton Norris > 1\r\n";
    let bytes = utf16le_with_bom(body);
    let decoded = decode_chatlog_bytes(&bytes).unwrap();
    let sites = parse_site_candidates(&decoded);
    assert_eq!(sites.len(), 2);
}

#[test]
fn decodes_utf16be_bom() {
    let mut bytes = vec![0xFE, 0xFF];
    for u in "Pilot > 1".encode_utf16() {
        bytes.extend_from_slice(&u.to_be_bytes());
    }
    assert_eq!(decode_chatlog_bytes(&bytes).unwrap(), "Pilot > 1");
}

#[test]
fn decodes_utf16le_without_bom_by_zero_bytes() {
    // Not UTF-8 (0xFF); three of the four even-position bytes are zero.
    let bytes = [0x00, 0x41, 0x00, 0x42, 0xFF, 0x00, 0x00, 0x43];
    let decoded = decode_chatlog_bytes(&bytes).unwrap();
    assert_eq!(decoded, "\u{4100}\u{4200}\u{ff}\u{4300}");
}

#[test]
fn rejects_bytes_that_are_not_text() {
    let err = decode_chatlog_bytes(&[0xC3, 0x28, 0xA0, 0xA1, 0xFF]).unwrap_err();
    assert_eq!(err.message(), "chatlog is not valid UTF-8 or UTF-16");
}

#[test]
fn utf8_bom_is_dropped() {
    let decoded = decode_chatlog_bytes(&[0xEF, 0xBB, 0xBF, b'h', b'i']).unwrap();
    assert_eq!(decoded, "hi");
}

#[test]
fn parses_listener_from_header() {
    assert_eq!(parse_listener(SAMPLE).as_deref(), Some("Estemaire Saissore Orlenard"));
}

#[test]
fn extracts_only_exact_single_char_tags() {
    let sites = parse_site_candidates(SAMPLE);
    let tags: Vec<&str> = sites.iter().map(|s| s.tag.as_str()).collect();
    assert_eq!(tags, vec!["1", "1", "2", "3", "a", "b", "c", "1"]);
}

#[test]
fn ignores_non_tag_messages_including_cleared() {
    let sites = parse_site_candidates(SAMPLE);
    assert!(sites.iter().all(|s| s.tag.len() == 1));
    assert!(!sites.iter().any(|s| s.speaker == "tomar norris"));
}

#[test]
fn stacks_duplicate_tags_with_distinct_ordinals() {
    let sites = parse_site_candidates(SAMPLE);
    let ones: Vec<_> = sites.iter().filter(|s| s.tag == "1").collect();
    assert_eq!(ones.len(), 3);
    assert_eq!(ones[0].line_ordinal, 0);
    assert_eq!(ones[1].line_ordinal, 1);
    assert_eq!(ones[2].line_ordinal, 7);
    assert_eq!(ones[0].posted_at, Utc.with_ymd_and_hms(2026, 8, 1, 19, 42, 9).unwrap().timestamp());
}

#[test]
fn normalizes_tag_case() {
    let text = "[ 2026.08.01 12:00:00 ] Pilot > A\n";
    let sites = parse_site_candidates(text);
    assert_eq!(sites.len(), 1);
    assert_eq!(sites[0].tag, "a");
}

#[test]
fn listener_absent_without_header() {
    assert_eq!(parse_listener("[ 2026.08.01 12:00:00 ] Pilot > 1\n"), None);
    assert_eq!(parse_listener("Listener:   \n"), None);
}

#[test]
fn byte_order_mark_alone_decodes_to_empty_text() {
    assert_eq!(decode_chatlog_bytes(&[0xFF, 0xFE]).unwrap(), "");
    assert_eq!(decode_chatlog_bytes(&[0xFE, 0xFF]).unwrap(), "");
}

#[test]
fn utf8_text_with_accents_decodes_exactly() {
    assert_eq!(decode_chatlog_bytes("Pilöt > é".as_bytes()).unwrap(), "Pilöt > é");
}

#[test]
fn utf16_pairs_decode_and_lone_surrogates_become_replacement_characters() {
    let bytes = [0xFF, 0xFE, 0x41, 0x00, 0x3D, 0xD8, 0x00, 0xDE, 0x00, 0xDC, 0x42, 0x00];
    assert_eq!(decode_chatlog_bytes(&bytes).unwrap(), "A\u{1F600}\u{FFFD}B");
}
