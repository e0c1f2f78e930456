use mqtt_analyzer::format::{
    format_message, format_notification, format_payload, MessageFormat, PayloadFormat,
};
use mqtt_analyzer::notification::{Notification, Publish};

#[test]
fn format_payload_hex_non_empty() {
    assert_eq!(format_payload(PayloadFormat::Hex, b"ciao").1, "6369616f");
}

#[test]
fn format_payload_text_non_empty() {
    assert_eq!(format_payload(PayloadFormat::Text, b"ciao").1, "ciao");
}

#[test]
fn format_payload_text_with_special_chars_non_empty() {
    assert_eq!(format_payload(PayloadFormat::Text, b"{ciao?").1, "{ciao?");
    println!(
        "{} == {}",
        format_payload(PayloadFormat::Text, b"{ciao?").1,
        "{ciao?"
    );
}

#[test]
fn format_payload_text_with_unicode_non_empty() {
    assert_eq!(
        format_payload(PayloadFormat::Text, "ciao❤".as_bytes()).1,
        "ciao❤"
    );
}

#[test]
fn format_payload_text_non_utf8() {
    assert_eq!(
        format_payload(PayloadFormat::Text, b"\xf1\xf2\xf4\xf7").1,
        "f1f2f4f7"
    );
}

#[test]
fn format_payload_text_non_printable() {
    assert_eq!(
        format_payload(PayloadFormat::Text, b"\tc\ni\0a\ro").1,
        "\\tc\\ni\\u{0}a\\ro"
    );
}

#[test]
fn format_payload_base64_non_empty() {
    assert_eq!(format_payload(PayloadFormat::Base64, b"ciao").1, "Y2lhbw==");
}

#[test]
fn format_payload_ascii_non_empty() {
    assert_eq!(
        format_payload(PayloadFormat::Escape, "ciao❤".as_bytes()).1,
        "ciao\\u{2764}"
    );
}

#[test]
fn format_format_payload_hex_non_empty() {
    assert_eq!(format_payload(PayloadFormat::Hex, b"ciao").1, "6369616f");
}

#[test]
fn format_format_payload_text_non_empty() {
    assert_eq!(format_payload(PayloadFormat::Text, b"ciao").1, "ciao");
}

#[test]
fn format_format_payload_text_with_special_chars_non_empty() {
    assert_eq!(format_payload(PayloadFormat::Text, b"{ciao?").1, "{ciao?");
}

#[test]
fn format_format_payload_text_with_unicode_non_empty() {
    assert_eq!(
        format_payload(PayloadFormat::Text, "ciao❤".as_bytes()).1,
        "ciao❤"
    );
}

#[test]
fn format_format_payload_text_non_utf8() {
    assert_eq!(
        format_payload(PayloadFormat::Text, b"\xf1\xf2\xf4\xf7").1,
        "f1f2f4f7"
    );
}

#[test]
fn format_format_payload_text_non_printable() {
    assert_eq!(
        format_payload(PayloadFormat::Text, b"\tc\ni\0a\ro").1,
        "\\tc\\ni\\u{0}a\\ro"
    );
}

#[test]
fn format_format_payload_base64_non_empty() {
    assert_eq!(format_payload(PayloadFormat::Base64, b"ciao").1, "Y2lhbw==");
}

#[test]
fn format_format_payload_ascii_non_empty() {
    assert_eq!(
        format_payload(PayloadFormat::Escape, "ciao❤".as_bytes()).1,
        "ciao\\u{2764}"
    );
}

#[test]
fn format_payload_auto_printable_resolves_to_text() {
    let (resolved, text) = format_payload(PayloadFormat::Auto, b"ciao");
    assert_eq!(resolved, PayloadFormat::Text);
    assert_eq!(text, "ciao");
}

#[test]
fn format_payload_auto_non_printable_resolves_to_escape() {
    let (resolved, text) = format_payload(PayloadFormat::Auto, b"a\tb");
    assert_eq!(resolved, PayloadFormat::Escape);
    assert_eq!(text, "a\\tb");
}

#[test]
fn format_payload_hex_empty_payload() {
    assert_eq!(format_payload(PayloadFormat::Hex, b"").1, "");
}

#[test]
fn format_payload_base64_padding_lengths() {
    assert_eq!(format_payload(PayloadFormat::Base64, b"c").1, "Yw==");
    assert_eq!(format_payload(PayloadFormat::Base64, b"ci").1, "Y2k=");
    assert_eq!(format_payload(PayloadFormat::Base64, b"cia").1, "Y2lh");
}

#[test]
fn payload_format_from_str_known_selectors() {
    assert!(matches!(PayloadFormat::from_str("hex"), Ok(PayloadFormat::Hex)));
    assert!(matches!(PayloadFormat::from_str("HEX"), Ok(PayloadFormat::Hex)));
    assert!(matches!(PayloadFormat::from_str("text"), Ok(PayloadFormat::Text)));
    assert!(matches!(PayloadFormat::from_str("txt"), Ok(PayloadFormat::Text)));
    assert!(matches!(PayloadFormat::from_str("base64"), Ok(PayloadFormat::Base64)));
    assert!(matches!(PayloadFormat::from_str("B64"), Ok(PayloadFormat::Base64)));
    assert!(matches!(PayloadFormat::from_str("escape"), Ok(PayloadFormat::Escape)));
    assert!(matches!(PayloadFormat::from_str("esc"), Ok(PayloadFormat::Escape)));
    assert!(matches!(PayloadFormat::from_str("Auto"), Ok(PayloadFormat::Auto)));
}

#[test]
fn payload_format_from_str_rejects_unknown() {
    assert!(PayloadFormat::from_str("binary").is_err());
    assert!(PayloadFormat::from_str("").is_err());
}

#[test]
fn payload_format_display_names() {
    assert_eq!(PayloadFormat::Hex.to_string(), "HEX");
    assert_eq!(PayloadFormat::Text.to_string(), "TXT");
    assert_eq!(PayloadFormat::Base64.to_string(), "B64");
    assert_eq!(PayloadFormat::Escape.to_string(), "ESC");
}

#[test]
fn format_message_joins_tag_topic_and_payload() {
    let msg = Publish {
        topic: "a/b".to_string(),
        payload: b"ciao".to_vec(),
    };
    let line = format_message(MessageFormat::default(), &msg);
    assert_eq!(line.to_string(), "TXT a/b ciao");
}

#[test]
fn format_notification_publish_and_lifecycle() {
    let msg = Publish {
        topic: "a".to_string(),
        payload: b"x".to_vec(),
    };
    let format = MessageFormat::default();
    assert_eq!(
        format_notification(format, &Notification::Publish(msg)).to_string(),
        "TXT a x"
    );
    assert_eq!(
        format_notification(format, &Notification::Disconnected).to_string(),
        "Disconnected"
    );
    assert_eq!(
        format_notification(format, &Notification::Reconnected).to_string(),
        "Reconnected"
    );
    assert_eq!(
        format_notification(format, &Notification::Lifecycle("PubAck(42)".to_string()))
            .to_string(),
        "PubAck(42)"
    );
}

#[test]
fn to_color_string_keeps_the_contents() {
    let msg = Publish {
        topic: "a/b".to_string(),
        payload: b"ciao".to_vec(),
    };
    let line = format_message(MessageFormat::default(), &msg);
    let colored_line = line.to_color_string();
    assert!(colored_line.contains("TXT"));
    assert!(colored_line.contains("a/b"));
    assert!(colored_line.contains("ciao"));
}
