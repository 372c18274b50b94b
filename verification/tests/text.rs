use bluebubbles::text::{decimal_text, joined, same_text, sorts_before};

#[test]
fn joined_joins_in_order() {
    assert_eq!(joined("ab", "cd"), "abcd");
}

#[test]
fn decimal_text_of_a_status() {
    assert_eq!(decimal_text(0), "0");
    assert_eq!(decimal_text(404), "404");
    assert_eq!(decimal_text(65535), "65535");
}

#[test]
fn sorts_before_is_the_byte_order() {
    assert!(sorts_before("Alice", "Bob"));
    assert!(!sorts_before("Bob", "Alice"));
    assert!(!sorts_before("Bob", "Bob"));
    assert!(sorts_before("", "a"));
    assert!(sorts_before("Z", "a"));
}

#[test]
fn same_text_compares_the_characters() {
    assert!(same_text("", ""));
    assert!(same_text("chats", "chats"));
    assert!(!same_text("chats", "chat"));
    assert!(!same_text("chats", "charts"));
    assert!(!same_text("data", "datA"));
    assert!(same_text("g\u{fc}nther \u{1f600}", "g\u{fc}nther \u{1f600}"));
    assert!(!same_text("\u{e9}", "e\u{301}"));
}
