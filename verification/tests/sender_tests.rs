//! Message splitting and concatenated-part reassembly.

use sms_irc::sender::{split_message, reassemble_parts, SmsPart, MESSAGE_MAX_LEN};

#[test]
fn short_text_is_one_fragment() {
    let frags = split_message("hello");
    assert_eq!(frags, vec!["hello".to_string()]);
}

#[test]
fn long_line_splits_at_the_wire_limit() {
    let text: String = std::iter::repeat('x').take(MESSAGE_MAX_LEN * 2 + 5).collect();
    let frags = split_message(text.as_str());
    assert_eq!(frags.len(), 3);
    assert_eq!(frags[0].chars().count(), MESSAGE_MAX_LEN);
    assert_eq!(frags[1].chars().count(), MESSAGE_MAX_LEN);
    assert_eq!(frags[2].chars().count(), 5);
    assert_eq!(frags.concat(), text);
}

#[test]
fn newlines_split_fragments() {
    let frags = split_message("one\ntwo\nthree");
    assert_eq!(frags, vec!["one".to_string(), "two".to_string(), "three".to_string()]);
}

#[test]
fn carriage_returns_are_stripped_before_breaks() {
    let frags = split_message("one\r\ntwo");
    assert_eq!(frags, vec!["one".to_string(), "two".to_string()]);
}

#[test]
fn empty_lines_send_nothing() {
    let frags = split_message("a\n\nb\n");
    assert_eq!(frags, vec!["a".to_string(), "b".to_string()]);
}

#[test]
fn multibyte_text_splits_between_characters() {
    let text: String = std::iter::repeat('\u{00e9}').take(MESSAGE_MAX_LEN + 1).collect();
    let frags = split_message(text.as_str());
    assert_eq!(frags.len(), 2);
    assert_eq!(frags[0].chars().count(), MESSAGE_MAX_LEN);
    assert_eq!(frags[1].chars().count(), 1);
}

#[test]
fn reassembly_orders_by_sequence_number() {
    let parts = vec![
        SmsPart { sequence: 3, text: "tail".to_string() },
        SmsPart { sequence: 1, text: "head ".to_string() },
        SmsPart { sequence: 2, text: "middle ".to_string() },
    ];
    assert_eq!(reassemble_parts(parts), "head middle tail");
}

#[test]
fn reassembly_ignores_storage_order() {
    let a = vec![
        SmsPart { sequence: 2, text: "B".to_string() },
        SmsPart { sequence: 1, text: "A".to_string() },
    ];
    let b = vec![
        SmsPart { sequence: 1, text: "A".to_string() },
        SmsPart { sequence: 2, text: "B".to_string() },
    ];
    assert_eq!(reassemble_parts(a), reassemble_parts(b));
}
