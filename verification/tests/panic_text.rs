use ratex_canvas::panic_text::panic_message;

#[test]
fn panic_message_prefers_literal_text() {
    let owned = "owned".to_string();
    assert_eq!(panic_message(Some("literal"), Some(&owned)), "literal");
}

#[test]
fn panic_message_falls_back_to_owned_text() {
    let owned = "boom at 3".to_string();
    assert_eq!(panic_message(None, Some(&owned)), "boom at 3");
}

#[test]
fn panic_message_without_text_is_unknown() {
    assert_eq!(panic_message(None, None), "unknown panic");
}
