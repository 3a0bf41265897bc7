use wager_rounds::snipe::{CachedMessage, SnipeContent, SnipeData, SnipeEntry, SnipeState};

fn message(id: u64, text: &str) -> CachedMessage {
    CachedMessage {
        id,
        author: ("someone#0001".to_string(), "https://cdn.example/a.png".to_string()),
        content: text.to_string(),
    }
}

#[test]
fn entry_is_fresh_for_thirty_seconds() {
    let mut e = SnipeEntry::new();
    assert!(e.get_at(0).is_none());
    e.set(SnipeData {
        author: ("x".to_string(), "y".to_string()),
        content: SnipeContent::Delete("gone".to_string()),
        timestamp: 1_000,
    });
    assert!(e.get_at(1_000).is_some());
    assert!(e.get_at(31_000).is_some());
    assert!(e.get_at(31_001).is_none());
}

#[test]
fn entry_reads_the_clock() {
    let mut e = SnipeEntry::default();
    e.set(SnipeData {
        author: ("x".to_string(), "y".to_string()),
        content: SnipeContent::Delete("old".to_string()),
        timestamp: 0,
    });
    assert!(e.get().is_none());
    e.set(SnipeData {
        author: ("x".to_string(), "y".to_string()),
        content: SnipeContent::Delete("new".to_string()),
        timestamp: chrono::Utc::now().timestamp_millis(),
    });
    assert!(e.get().is_some());
}

#[test]
fn channel_log_is_bounded_and_newest_first() {
    let mut s = SnipeState::new();
    for id in 0..60u64 {
        s.recv_msg(7, message(id, "hi"));
    }
    let log = s.log(7).unwrap();
    assert_eq!(log.len(), 51);
    assert_eq!(log[0].id, 59);
    assert_eq!(log[50].id, 9);
    assert!(s.log(8).is_none());
}

#[test]
fn edit_is_sniped_and_log_updated() {
    let mut s = SnipeState::default();
    s.recv_msg(7, message(1, "first"));
    s.recv_msg_update(7, 1, "second".to_string(), 5_000);
    let d = s.snipe_at(7, 6_000).unwrap();
    assert_eq!(d.author.0, "someone#0001");
    assert_eq!(d.timestamp, 5_000);
    match &d.content {
        SnipeContent::Edit(before, after) => {
            assert_eq!(before, "first");
            assert_eq!(after, "second");
        }
        SnipeContent::Delete(_) => panic!("expected an edit"),
    }
    assert_eq!(s.log(7).unwrap()[0].content, "second");
    assert!(s.snipe_at(7, 40_000).is_none());
    assert!(s.snipe_at(8, 6_000).is_none());
}

#[test]
fn deletion_is_sniped() {
    let mut s = SnipeState::new();
    s.recv_msg(3, message(4, "secret"));
    s.recv_msg_delete(3, 99, 100);
    assert!(s.snipe_at(3, 100).is_none());
    s.recv_msg_delete(3, 4, 100);
    match &s.snipe_at(3, 200).unwrap().content {
        SnipeContent::Delete(text) => assert_eq!(text, "secret"),
        SnipeContent::Edit(_, _) => panic!("expected a deletion"),
    }
    assert!(s.snipe(3).is_none());
}
