use chat_server::{Action, Event, Hub, Round};

fn connect(hub: &mut Hub) -> u64 {
    match hub.handle(Event::Accepted) {
        Action::Register(id) => id,
        other => panic!("connection not registered: {:?}", other),
    }
}

fn send(hub: &mut Hub, id: u64, text: &str) {
    assert_eq!(hub.handle(Event::Received(id, text.to_string())), Action::Continue);
}

#[test]
fn hello_reaches_both_clients_once() {
    let mut hub = Hub::new();
    let a = connect(&mut hub);
    let b = connect(&mut hub);
    send(&mut hub, a, "hello");
    send(&mut hub, b, "later");
    let first = hub.next_round().unwrap();
    assert_eq!(first, Round { message: "hello".to_string(), targets: vec![a, b] });
    hub.finish_round(&vec![]);
    let second = hub.next_round().unwrap();
    assert_eq!(second.message, "later");
    assert_eq!(second.targets, vec![a, b]);
    hub.finish_round(&vec![]);
    assert_eq!(hub.next_round(), None);
}

#[test]
fn early_disconnect_does_not_block_ping() {
    let mut hub = Hub::new();
    let a = connect(&mut hub);
    assert_eq!(hub.handle(Event::ReadFailed(a)), Action::Retire(a));
    let b = connect(&mut hub);
    assert_ne!(a, b);
    send(&mut hub, b, "ping");
    let round = hub.next_round().unwrap();
    assert_eq!(round.message, "ping");
    assert_eq!(round.targets, vec![b]);
    hub.finish_round(&vec![]);
    assert_eq!(hub.next_round(), None);
}

#[test]
fn fifty_clients_each_receive_all_fifty() {
    let mut hub = Hub::new();
    let mut ids = Vec::new();
    for _ in 0..50 {
        ids.push(connect(&mut hub));
    }
    for (k, id) in ids.iter().enumerate() {
        send(&mut hub, *id, &format!("message {}", k));
    }
    let mut got: Vec<Vec<String>> = vec![Vec::new(); 50];
    while let Some(round) = hub.next_round() {
        for t in &round.targets {
            let pos = ids.iter().position(|x| x == t).unwrap();
            got[pos].push(round.message.clone());
        }
        hub.finish_round(&vec![]);
    }
    let mut expected: Vec<String> = (0..50).map(|k| format!("message {}", k)).collect();
    expected.sort();
    for received in got.iter_mut() {
        received.sort();
        assert_eq!(*received, expected);
    }
}

#[test]
fn every_connection_gets_one_copy() {
    let mut hub = Hub::new();
    let ids: Vec<u64> = (0..5).map(|_| connect(&mut hub)).collect();
    assert_eq!(ids, vec![0, 1, 2, 3, 4]);
    send(&mut hub, 3, "m");
    let round = hub.next_round().unwrap();
    assert_eq!(round.message, "m");
    assert_eq!(round.targets, ids);
}

#[test]
fn per_sender_order_is_kept() {
    let mut hub = Hub::new();
    let a = connect(&mut hub);
    let b = connect(&mut hub);
    send(&mut hub, a, "a1");
    send(&mut hub, b, "b1");
    send(&mut hub, a, "a2");
    let order: Vec<String> = std::iter::from_fn(|| hub.next_round().map(|r| r.message)).collect();
    assert_eq!(order, vec!["a1", "b1", "a2"]);
}

#[test]
fn failed_write_evicts_only_that_connection() {
    let mut hub = Hub::new();
    let a = connect(&mut hub);
    let b = connect(&mut hub);
    let c = connect(&mut hub);
    send(&mut hub, a, "one");
    send(&mut hub, c, "two");
    let round = hub.next_round().unwrap();
    assert_eq!(round.targets, vec![a, b, c]);
    hub.finish_round(&vec![b]);
    let round = hub.next_round().unwrap();
    assert_eq!(round.message, "two");
    assert_eq!(round.targets, vec![a, c]);
}

#[test]
fn message_from_retired_connection_is_refused() {
    let mut hub = Hub::new();
    let a = connect(&mut hub);
    let b = connect(&mut hub);
    hub.finish_round(&vec![a]);
    assert_eq!(hub.handle(Event::Received(a, "late".to_string())), Action::Retire(a));
    assert_eq!(hub.handle(Event::Received(99, "stranger".to_string())), Action::Retire(99));
    assert_eq!(hub.next_round(), None);
    send(&mut hub, b, "ok");
    assert_eq!(hub.next_round().unwrap().targets, vec![b]);
}

#[test]
fn accept_failure_changes_nothing() {
    let mut hub = Hub::new();
    assert_eq!(hub.handle(Event::AcceptFailed), Action::Continue);
    assert_eq!(connect(&mut hub), 0);
    assert_eq!(hub.next_round(), None);
}

#[test]
fn read_failure_of_unknown_connection_is_harmless() {
    let mut hub = Hub::new();
    let a = connect(&mut hub);
    assert_eq!(hub.handle(Event::ReadFailed(7)), Action::Retire(7));
    send(&mut hub, a, "still here");
    assert_eq!(hub.next_round().unwrap().targets, vec![a]);
}
