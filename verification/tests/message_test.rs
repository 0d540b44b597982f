use jj_spr::message::{MessageSection, MessageSectionsMap};

#[test]
fn message_get_missing_section() {
    let message = MessageSectionsMap::new();
    assert!(message.get(&MessageSection::Title).is_none());
}

#[test]
fn message_insert_then_get() {
    let mut message = MessageSectionsMap::new();
    assert_eq!(message.insert(MessageSection::Title, "T".to_string()), None);
    assert_eq!(message.insert(MessageSection::Summary, "S".to_string()), None);
    assert_eq!(message.get(&MessageSection::Title).map(|s| s.as_str()), Some("T"));
    assert_eq!(message.get(&MessageSection::Summary).map(|s| s.as_str()), Some("S"));
    assert!(message.get(&MessageSection::TestPlan).is_none());
}

#[test]
fn message_insert_replaces_and_returns_old_text() {
    let mut message = MessageSectionsMap::new();
    message.insert(MessageSection::Title, "old".to_string());
    message.insert(MessageSection::Reviewers, "alice".to_string());
    let previous = message.insert(MessageSection::Title, "new".to_string());
    assert_eq!(previous, Some("old".to_string()));
    assert_eq!(message.get(&MessageSection::Title).map(|s| s.as_str()), Some("new"));
    assert_eq!(message.get(&MessageSection::Reviewers).map(|s| s.as_str()), Some("alice"));
}
