use chat_parser::ParseError;
use chat_parser::classify::{MessageType, detect_message_type};
use chat_parser::segment::{ChatParser, default_system_pattern_vec};
use chat_parser::text::{contains_str, starts_with_str, trim_str};
use chat_parser::timestamp::{Normalizer, check_fields, days_in_month_exec};

fn fixed_parser() -> ChatParser {
    ChatParser::with_config(Normalizer::with_offset(0), default_system_pattern_vec(), None)
}

fn lines(v: &[&str]) -> Vec<String> {
    v.iter().map(|s| s.to_string()).collect()
}

#[test]
fn scenario_two_messages_with_continuation() {
    let p = fixed_parser();
    let input = lines(&[
        "[01/02/2023, 14:30:05] Alice: Hello there",
        "how are you?",
        "[01/02/2023, 14:31:00] Bob: <Media omitted>",
    ]);
    let ms = p.parse_chat(&input).unwrap();
    assert_eq!(ms.len(), 2);
    assert_eq!(ms[0].id, 1);
    assert_eq!(ms[0].sender, "Alice");
    assert_eq!(ms[0].content, "Hello there\nhow are you?");
    assert!(matches!(ms[0].message_type, MessageType::Text));
    assert_eq!(ms[0].timestamp.fields.day, 1);
    assert_eq!(ms[0].timestamp.fields.month, 2);
    assert_eq!(ms[0].timestamp.fields.year, 2023);
    assert_eq!(ms[0].timestamp.fields.hour, 14);
    assert_eq!(ms[0].timestamp.fields.minute, 30);
    assert_eq!(ms[0].timestamp.fields.second, 5);
    assert_eq!(ms[1].id, 2);
    assert_eq!(ms[1].sender, "Bob");
    assert_eq!(ms[1].content, "<Media omitted>");
    assert!(matches!(ms[1].message_type, MessageType::Media));
}

#[test]
fn scenario_twelve_hour_link() {
    let p = fixed_parser();
    let input = lines(&["01/02/23, 2:30 PM - Alice: check https://example.com"]);
    let ms = p.parse_chat(&input).unwrap();
    assert_eq!(ms.len(), 1);
    assert_eq!(ms[0].sender, "Alice");
    assert!(matches!(ms[0].message_type, MessageType::Link));
    assert_eq!(ms[0].timestamp.fields.year, 2023);
    assert_eq!(ms[0].timestamp.fields.hour, 14);
    assert_eq!(ms[0].timestamp.fields.minute, 30);
}

#[test]
fn scenario_system_line_emits_nothing() {
    let p = fixed_parser();
    let input = lines(&["01/02/2023, 09:00:00 AM - Security code changed"]);
    let ms = p.parse_chat(&input).unwrap();
    assert_eq!(ms.len(), 0);
}

#[test]
fn scenario_malformed_header_fails() {
    let p = fixed_parser();
    let input = lines(&["[99/99/2023, 10:00:00] Alice: bad date"]);
    match p.parse_chat(&input) {
        Err(ParseError::InvalidTimestamp { text, line }) => {
            assert_eq!(text, "99/99/2023, 10:00:00");
            assert_eq!(line, 1);
        },
        Ok(_) => panic!("a malformed header must fail the parse"),
    }
}

#[test]
fn scenario_detect_senders() {
    let p = fixed_parser();
    let input = lines(&[
        "[01/02/2023, 14:30:05] Alice: Hello there",
        "how are you?",
        "[01/02/2023, 14:31:00] Bob: <Media omitted>",
    ]);
    let senders = p.detect_senders(&input);
    assert_eq!(senders.len(), 2);
    assert!(senders.contains(&"Alice".to_string()));
    assert!(senders.contains(&"Bob".to_string()));
}

#[test]
fn detect_senders_ignores_message_validity() {
    let p = fixed_parser();
    let input = lines(&[
        "[99/99/2023, 10:00:00] Carol: bad date but a header",
        "[01/02/2023, 14:30:05] Carol: fine",
    ]);
    let senders = p.detect_senders(&input);
    assert_eq!(senders, vec!["Carol".to_string()]);
}

#[test]
fn normalize_day_slash_seconds() {
    let n = Normalizer::with_offset(3600);
    let t = n.normalize("01/02/2023, 14:30:05").unwrap();
    assert_eq!(t.fields.day, 1);
    assert_eq!(t.fields.month, 2);
    assert_eq!(t.fields.year, 2023);
    assert_eq!(t.fields.hour, 14);
    assert_eq!(t.fields.minute, 30);
    assert_eq!(t.fields.second, 5);
    assert_eq!(t.offset_seconds, 3600);
}

#[test]
fn normalize_twelve_hour_meridiem_mapping() {
    let n = Normalizer::with_offset(0);
    assert_eq!(n.normalize("01/02/23, 2:30 PM").unwrap().fields.hour, 14);
    assert_eq!(n.normalize("01/02/23, 12:30 PM").unwrap().fields.hour, 12);
    assert_eq!(n.normalize("01/02/23, 12:30 AM").unwrap().fields.hour, 0);
    assert_eq!(n.normalize("01/02/23, 2:30 am").unwrap().fields.hour, 2);
    let t = n.normalize("01/02/2023, 09:00:00 AM").unwrap();
    assert_eq!(t.fields.hour, 9);
    assert_eq!(t.fields.second, 0);
}

#[test]
fn normalize_two_digit_year_window() {
    let n = Normalizer::with_offset(0);
    assert_eq!(n.normalize("01/02/23, 14:30").unwrap().fields.year, 2023);
    assert_eq!(n.normalize("01/02/99, 14:30").unwrap().fields.year, 1999);
}

#[test]
fn normalize_twenty_four_hour_short() {
    let n = Normalizer::with_offset(0);
    let t = n.normalize("01/02/2023, 09:05").unwrap();
    assert_eq!(t.fields.hour, 9);
    assert_eq!(t.fields.minute, 5);
    assert_eq!(t.fields.second, 0);
}

#[test]
fn normalize_iso() {
    let n = Normalizer::with_offset(0);
    let t = n.normalize("2023-02-01 14:30:05").unwrap();
    assert_eq!(t.fields.year, 2023);
    assert_eq!(t.fields.month, 2);
    assert_eq!(t.fields.day, 1);
    assert_eq!(t.fields.hour, 14);
}

#[test]
fn normalize_rejects_bad_calendar() {
    let n = Normalizer::with_offset(0);
    match n.normalize("99/99/2023, 10:00:00") {
        Err(ParseError::InvalidTimestamp { text, line }) => {
            assert_eq!(text, "99/99/2023, 10:00:00");
            assert_eq!(line, 0);
        },
        Ok(_) => panic!("month 99 must not validate"),
    }
    assert!(n.normalize("29/02/2023, 10:00:00").is_err());
    assert!(n.normalize("29/02/2024, 10:00:00").is_ok());
    assert!(n.normalize("31/04/2023, 10:00:00").is_err());
    assert!(n.normalize("01/02/2023, 24:00:00").is_err());
    assert!(n.normalize("01/02/2023, 10:60:00").is_err());
    assert!(n.normalize("nonsense").is_err());
}

#[test]
fn classify_priorities() {
    assert!(matches!(detect_message_type("<Media omitted>"), MessageType::Media));
    assert!(matches!(
        detect_message_type("caption <Media omitted> with https://x.org"),
        MessageType::Media
    ));
    assert!(matches!(detect_message_type("see http://example.org"), MessageType::Link));
    assert!(matches!(detect_message_type("see https://example.org"), MessageType::Link));
    assert!(matches!(detect_message_type("Voice note (0:12)"), MessageType::VoiceNote));
    assert!(matches!(detect_message_type("Contact card attached"), MessageType::Card));
    assert!(matches!(detect_message_type("just words"), MessageType::Text));
}

#[test]
fn classify_is_idempotent_on_emitted_messages() {
    let p = fixed_parser();
    let input = lines(&[
        "[01/02/2023, 14:30:05] Alice: see https://example.org",
        "[01/02/2023, 14:31:00] Bob: plain words",
    ]);
    let ms = p.parse_chat(&input).unwrap();
    for m in &ms {
        let again = detect_message_type(&m.content);
        assert_eq!(again, m.message_type);
    }
}

#[test]
fn continuation_lines_kept_verbatim() {
    let p = fixed_parser();
    let input = lines(&[
        "[01/02/2023, 14:30:05] Alice:   padded first segment  ",
        "  indented line",
        "",
        "last",
    ]);
    let ms = p.parse_chat(&input).unwrap();
    assert_eq!(ms.len(), 1);
    assert_eq!(ms[0].content, "padded first segment\n  indented line\n\nlast");
}

#[test]
fn header_system_content_seals_and_drops() {
    let p = fixed_parser();
    let input = lines(&[
        "[01/02/2023, 14:30:05] Alice: Hello",
        "[01/02/2023, 14:31:00] Bob: Security code changed",
        "orphan continuation is dropped",
        "[01/02/2023, 14:32:00] Bob: back again",
    ]);
    let ms = p.parse_chat(&input).unwrap();
    assert_eq!(ms.len(), 2);
    assert_eq!(ms[0].sender, "Alice");
    assert_eq!(ms[0].content, "Hello");
    assert_eq!(ms[1].id, 2);
    assert_eq!(ms[1].sender, "Bob");
    assert_eq!(ms[1].content, "back again");
}

#[test]
fn non_header_lines_without_pending_are_dropped() {
    let p = fixed_parser();
    let input = lines(&["no header here", "still nothing"]);
    let ms = p.parse_chat(&input).unwrap();
    assert_eq!(ms.len(), 0);
}

#[test]
fn ids_are_gap_free() {
    let p = fixed_parser();
    let input = lines(&[
        "[01/02/2023, 14:30:05] A: one",
        "[01/02/2023, 14:31:00] B: two",
        "[01/02/2023, 14:32:00] C: three",
    ]);
    let ms = p.parse_chat(&input).unwrap();
    assert_eq!(ms.len(), 3);
    for (i, m) in ms.iter().enumerate() {
        assert_eq!(m.id, (i + 1) as u64);
    }
}

#[test]
fn failure_returns_no_partial_result() {
    let p = fixed_parser();
    let input = lines(&[
        "[01/02/2023, 14:30:05] Alice: fine so far",
        "[99/99/2023, 10:00:00] Bob: bad date",
    ]);
    match p.parse_chat(&input) {
        Err(ParseError::InvalidTimestamp { line, .. }) => assert_eq!(line, 2),
        Ok(_) => panic!("the parse must fail as a whole"),
    }
}

#[test]
fn empty_pattern_set_reproduces_non_filtering_variant() {
    let p = ChatParser::with_config(Normalizer::with_offset(0), Vec::new(), None);
    let input = lines(&["[01/02/2023, 14:30:05] Alice: Security code changed"]);
    let ms = p.parse_chat(&input).unwrap();
    assert_eq!(ms.len(), 1);
    assert!(matches!(ms[0].message_type, MessageType::Text));
}

#[test]
fn parser_with_local_offset_runs() {
    let p = ChatParser::new();
    let input = lines(&["[01/02/2023, 14:30:05] Alice: Hello"]);
    let ms = p.parse_chat(&input).unwrap();
    assert_eq!(ms.len(), 1);
    assert!(ms[0].timestamp.offset_seconds > -86400);
    assert!(ms[0].timestamp.offset_seconds < 86400);
}

#[test]
fn text_helpers() {
    assert_eq!(trim_str("  a b  "), "a b");
    assert_eq!(trim_str("\t x \r\n"), "x");
    assert_eq!(trim_str("   "), "");
    assert!(contains_str("hay needle stack", "needle"));
    assert!(!contains_str("hay", "needle"));
    assert!(contains_str("anything", ""));
    assert!(starts_with_str("https://x", "https://"));
    assert!(!starts_with_str("x https://", "https://"));
}

#[test]
fn calendar_helpers() {
    assert_eq!(days_in_month_exec(2023, 2), 28);
    assert_eq!(days_in_month_exec(2024, 2), 29);
    assert_eq!(days_in_month_exec(2000, 2), 29);
    assert_eq!(days_in_month_exec(1900, 2), 28);
    assert_eq!(days_in_month_exec(2023, 4), 30);
    assert_eq!(days_in_month_exec(2023, 1), 31);
    assert_eq!(days_in_month_exec(2023, 13), 0);
    let f = chat_parser::timestamp::TimeFields {
        year: 2023,
        month: 2,
        day: 28,
        hour: 23,
        minute: 59,
        second: 59,
    };
    assert!(check_fields(&f));
    let g = chat_parser::timestamp::TimeFields { day: 29, ..f };
    assert!(!check_fields(&g));
}
