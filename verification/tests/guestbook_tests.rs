use homepage_core::guestbook::{post_message_action, PostAction};
use homepage_core::messages::is_long_message;

#[test]
fn posts_are_gated_then_validated() {
    let pairs = vec![
        ("author".to_string(), "Ada".to_string()),
        ("content".to_string(), "hello".to_string()),
    ];
    assert!(matches!(post_message_action(false, &pairs), PostAction::RateLimited));
    match post_message_action(true, &pairs) {
        PostAction::Accept { author, content } => {
            assert_eq!(author, "Ada");
            assert_eq!(content, "hello");
        },
        _ => panic!("expected the post to be accepted"),
    }
}

#[test]
fn missing_author_becomes_anonymous() {
    let pairs = vec![("content".to_string(), "hi".to_string())];
    match post_message_action(true, &pairs) {
        PostAction::Accept { author, content } => {
            assert_eq!(author, "Anonymous");
            assert_eq!(content, "hi");
        },
        _ => panic!("expected the post to be accepted"),
    }
}

#[test]
fn empty_or_whitespace_content_is_rejected() {
    let no_content = vec![("author".to_string(), "Ada".to_string())];
    assert!(matches!(post_message_action(true, &no_content), PostAction::EmptyContent));
    let blank = vec![
        ("author".to_string(), "Ada".to_string()),
        ("content".to_string(), "  \t ".to_string()),
    ];
    assert!(matches!(post_message_action(true, &blank), PostAction::EmptyContent));
}

#[test]
fn long_messages_collapse_behind_show_more() {
    assert!(!is_long_message(""));
    assert!(!is_long_message(&"x".repeat(200)));
    assert!(is_long_message(&"x".repeat(201)));
    // Character count, not byte count: 150 two-byte characters stay short.
    assert!(!is_long_message(&"é".repeat(150)));
    assert!(is_long_message(&"é".repeat(201)));
}
