use chat_server::{LogEntry, RaftMessage, Registry};

#[test]
fn registry_keeps_insertion_order_without_duplicates() {
    let mut r = Registry::new();
    assert_eq!(r.len(), 0);
    assert!(r.add(5));
    assert!(r.add(2));
    assert!(!r.add(5));
    assert!(r.add(9));
    assert_eq!(r.snapshot(), vec![5, 2, 9]);
    assert!(r.contains(2));
    assert!(!r.contains(3));
}

#[test]
fn registry_remove() {
    let mut r = Registry::new();
    for id in [1, 2, 3, 4] {
        r.add(id);
    }
    assert!(r.remove(3));
    assert!(!r.remove(3));
    assert!(!r.remove(10));
    assert_eq!(r.snapshot(), vec![1, 2, 4]);
    assert_eq!(r.len(), 3);
    assert!(r.remove(1));
    assert!(r.remove(4));
    assert!(r.remove(2));
    assert_eq!(r.snapshot(), Vec::<u64>::new());
}

#[test]
fn raft_messages_compare_by_fields() {
    let m: RaftMessage<u32> = RaftMessage::AppendEntriesRequest {
        src: 1,
        dest: 2,
        term: 3,
        prev_index: 0,
        prev_term: 0,
        entries: vec![LogEntry { term: 3, value: 7 }],
    };
    assert_eq!(m.clone(), m);
    assert_ne!(m, RaftMessage::ClientRequest { dest: 2, value: 7 });
}
