use statmm::models::{same_text, BookData, BookEvent};

fn empty_push() -> BookData {
    BookData {
        asks: Vec::new(),
        bids: Vec::new(),
        ts: "0".to_string(),
        checksum: None,
        seqId: Some(7),
        prevSeqId: None,
    }
}

#[test]
fn action_names_the_kind_of_event() {
    assert!(matches!(BookEvent::from_action("snapshot", empty_push()), Some(BookEvent::Snapshot(_))));
    assert!(matches!(BookEvent::from_action("update", empty_push()), Some(BookEvent::Update(_))));
    assert!(BookEvent::from_action("subscribe", empty_push()).is_none());
    assert!(BookEvent::from_action("", empty_push()).is_none());
    assert!(BookEvent::from_action("Snapshot", empty_push()).is_none());
    assert!(BookEvent::from_action("updates", empty_push()).is_none());
}

#[test]
fn event_hands_out_its_data() {
    let e = BookEvent::from_action("update", empty_push()).unwrap();
    assert_eq!(e.data().seqId, Some(7));
    let e = BookEvent::Snapshot(empty_push());
    assert_eq!(e.data().ts, "0");
}

#[test]
fn same_text_compares_characters() {
    assert!(same_text("", ""));
    assert!(same_text("abc", "abc"));
    assert!(!same_text("abc", "abd"));
    assert!(!same_text("abc", "ab"));
    assert!(same_text("é", "é"));
    assert!(!same_text("é", "e"));
}
