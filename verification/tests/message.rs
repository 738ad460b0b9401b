use dropzone::message::collect_notes;
use dropzone::message::handle_message;
use dropzone::message::part_note;
use dropzone::message::MessagePart;
use dropzone::Status;

fn msg(name: &str, text: &str) -> MessagePart {
    MessagePart { name: Some(name.to_string()), text: Some(text.to_string()) }
}

#[test]
fn blank_message_yields_nothing() {
    let notes = collect_notes(&vec![msg("message", "   ")]);
    assert!(notes.is_empty());
}

#[test]
fn padded_message_is_trimmed() {
    let notes = collect_notes(&vec![msg("message", "  hello  ")]);
    assert_eq!(notes, vec!["hello".to_string()]);
}

#[test]
fn other_fields_are_ignored() {
    let notes = collect_notes(&vec![msg("subject", "hello"), msg("message2", "hello")]);
    assert!(notes.is_empty());
}

#[test]
fn nameless_part_is_ignored() {
    let p = MessagePart { name: None, text: Some("hello".to_string()) };
    assert!(part_note(&p).is_none());
}

#[test]
fn undecodable_text_is_ignored() {
    let p = MessagePart { name: Some("message".to_string()), text: None };
    assert!(part_note(&p).is_none());
    let notes = collect_notes(&vec![p, msg("message", "still here")]);
    assert_eq!(notes, vec!["still here".to_string()]);
}

#[test]
fn several_messages_keep_order() {
    let notes = collect_notes(&vec![
        msg("message", " one "),
        msg("other", "two"),
        msg("message", "three"),
    ]);
    assert_eq!(notes, vec!["one".to_string(), "three".to_string()]);
}

#[test]
fn unicode_space_is_trimmed() {
    let notes = collect_notes(&vec![msg("message", "\u{3000}\thallo\r\n")]);
    assert_eq!(notes, vec!["hallo".to_string()]);
}

#[test]
fn inner_space_is_kept() {
    let notes = collect_notes(&vec![msg("message", "  a  b  ")]);
    assert_eq!(notes, vec!["a  b".to_string()]);
}

#[test]
fn message_request_always_succeeds() {
    let out = handle_message(None, 0, &vec![msg("message", "   ")]);
    assert_eq!(out.status, Status::Success);
    assert!(out.notes.is_empty());
    let out = handle_message(None, 0, &Vec::new());
    assert_eq!(out.status, Status::Success);
    assert!(out.notes.is_empty());
}

#[test]
fn oversized_message_body_rejected() {
    let out = handle_message(Some(5), 6, &vec![msg("message", "hello")]);
    assert_eq!(out.status, Status::PayloadTooLarge);
    assert!(out.notes.is_empty());
}
