use gossip::{Heartbeat, HeartbeatError, NodeHeartbeatData, Storage};

fn beat(id: &str, address: &str, timestamp: u64) -> Heartbeat {
    Heartbeat { id: id.to_string(), address: address.to_string(), timestamp }
}

fn held(table: &Storage, id: &str) -> NodeHeartbeatData {
    table.get(&id.to_string()).expect("the peer is known").clone()
}

#[test]
fn new_table_knows_nobody() {
    let table = Storage::new();
    assert_eq!(table.len(), 0);
    assert!(table.data().is_empty());
    assert!(table.get(&"a".to_string()).is_none());
}

#[test]
fn first_heartbeat_of_a_peer_is_adopted_and_counted_once() {
    let mut table = Storage::new();
    assert_eq!(table.insert(beat("a", "0.0.0.0:9001", 7)).unwrap(), 1);
    assert_eq!(table.len(), 1);
    assert_eq!(
        held(&table, "a"),
        NodeHeartbeatData { heartbeat: beat("a", "0.0.0.0:9001", 7), received_count: 1 }
    );
}

#[test]
fn freshness_wins() {
    let mut table = Storage::new();
    assert_eq!(table.insert(beat("y", "0.0.0.0:9002", 100)).unwrap(), 1);
    assert_eq!(table.insert(beat("y", "0.0.0.0:9002", 105)).unwrap(), 1);
    let entry = held(&table, "y");
    assert_eq!(entry.heartbeat.timestamp, 105);
    assert_eq!(entry.received_count, 1);
}

#[test]
fn staleness_ignored() {
    let mut table = Storage::new();
    assert_eq!(table.insert(beat("y", "0.0.0.0:9002", 100)).unwrap(), 1);
    assert_eq!(table.insert(beat("y", "0.0.0.0:9002", 95)).unwrap(), 2);
    let entry = held(&table, "y");
    assert_eq!(entry.heartbeat.timestamp, 100);
    assert_eq!(entry.received_count, 2);
}

#[test]
fn stale_heartbeat_does_not_replace_the_held_address() {
    let mut table = Storage::new();
    table.insert(beat("y", "0.0.0.0:9002", 100)).unwrap();
    table.insert(beat("y", "10.0.0.1:1", 95)).unwrap();
    assert_eq!(held(&table, "y").heartbeat, beat("y", "0.0.0.0:9002", 100));
}

#[test]
fn equal_timestamp_is_not_newer() {
    let mut table = Storage::new();
    table.insert(beat("y", "0.0.0.0:9002", 100)).unwrap();
    assert_eq!(table.insert(beat("y", "10.0.0.1:1", 100)).unwrap(), 2);
    assert_eq!(
        held(&table, "y"),
        NodeHeartbeatData { heartbeat: beat("y", "0.0.0.0:9002", 100), received_count: 2 }
    );
}

#[test]
fn count_rises_by_one_until_the_next_refresh() {
    let mut table = Storage::new();
    assert_eq!(table.insert(beat("y", "y:1", 50)).unwrap(), 1);
    for expected in 2..=6u64 {
        assert_eq!(table.insert(beat("y", "y:1", 50)).unwrap(), expected);
        assert_eq!(held(&table, "y").received_count, expected);
    }
    assert_eq!(table.insert(beat("y", "y:1", 51)).unwrap(), 1);
    assert_eq!(held(&table, "y").received_count, 1);
    assert_eq!(table.insert(beat("y", "y:1", 40)).unwrap(), 2);
}

#[test]
fn heartbeats_of_other_peers_do_not_touch_a_count() {
    let mut table = Storage::new();
    table.insert(beat("y", "y:1", 50)).unwrap();
    table.insert(beat("z", "z:1", 60)).unwrap();
    table.insert(beat("z", "z:1", 60)).unwrap();
    assert_eq!(table.insert(beat("y", "y:1", 50)).unwrap(), 2);
    assert_eq!(held(&table, "z").received_count, 2);
    assert_eq!(table.len(), 2);
}

#[test]
fn timestamps_never_go_back() {
    let mut table = Storage::new();
    let stamps = [10u64, 4, 12, 12, 11, 30, 0, 29, 31];
    let mut highest = 0;
    for stamp in stamps {
        table.insert(beat("y", "y:1", stamp)).unwrap();
        let now_held = held(&table, "y").heartbeat.timestamp;
        assert!(now_held >= highest);
        highest = highest.max(stamp);
        assert_eq!(now_held, highest);
    }
}

#[test]
fn second_receipt_of_the_same_heartbeat_changes_only_the_count() {
    let mut table = Storage::new();
    table.insert(beat("x", "x:1", 5)).unwrap();
    table.insert(beat("y", "y:1", 9)).unwrap();
    let once = table.clone();
    table.insert(beat("y", "y:1", 9)).unwrap();
    assert_eq!(table.len(), once.len());
    assert_eq!(held(&table, "x"), held(&once, "x"));
    assert_eq!(held(&table, "y").heartbeat, held(&once, "y").heartbeat);
    assert_eq!(held(&table, "y").received_count, held(&once, "y").received_count + 1);
}

#[test]
fn peers_stand_in_the_order_in_which_they_became_known() {
    let mut table = Storage::new();
    table.insert(beat("c", "c:1", 1)).unwrap();
    table.insert(beat("a", "a:1", 1)).unwrap();
    table.insert(beat("c", "c:1", 2)).unwrap();
    table.insert(beat("b", "b:1", 1)).unwrap();
    let ids: Vec<String> = table.data().iter().map(|e| e.heartbeat.id.clone()).collect();
    assert_eq!(ids, vec!["c".to_string(), "a".to_string(), "b".to_string()]);
}

#[test]
fn exhausted_count_is_refused_and_the_table_is_left_alone() {
    let full = NodeHeartbeatData { heartbeat: beat("y", "y:1", 100), received_count: u64::MAX };
    let mut table = Storage::from_entries(vec![full.clone()]);
    let refused = table.insert(beat("y", "y:1", 100));
    match refused {
        Err(HeartbeatError::Other(text)) => assert_eq!(text, "received count exhausted"),
        other => panic!("expected a refusal, got {:?}", other),
    }
    assert_eq!(held(&table, "y"), full);
    assert_eq!(table.insert(beat("y", "y:1", 101)).unwrap(), 1);
    assert_eq!(held(&table, "y").received_count, 1);
}

#[test]
fn count_just_below_the_limit_still_rises() {
    let nearly = NodeHeartbeatData { heartbeat: beat("y", "y:1", 100), received_count: u64::MAX - 1 };
    let mut table = Storage::from_entries(vec![nearly]);
    assert_eq!(table.insert(beat("y", "y:1", 99)).unwrap(), u64::MAX);
}

#[test]
fn from_entries_lets_a_later_entry_take_the_place_of_an_earlier() {
    let table = Storage::from_entries(vec![
        NodeHeartbeatData { heartbeat: beat("a", "a:1", 9), received_count: 3 },
        NodeHeartbeatData { heartbeat: beat("b", "b:1", 2), received_count: 1 },
        NodeHeartbeatData { heartbeat: beat("a", "a:2", 1), received_count: 7 },
    ]);
    assert_eq!(table.len(), 2);
    assert_eq!(
        table.data(),
        &vec![
            NodeHeartbeatData { heartbeat: beat("a", "a:2", 1), received_count: 7 },
            NodeHeartbeatData { heartbeat: beat("b", "b:1", 2), received_count: 1 },
        ]
    );
}

#[test]
fn clone_of_a_table_holds_the_same_entries() {
    let mut table = Storage::new();
    table.insert(beat("a", "a:1", 1)).unwrap();
    table.insert(beat("b", "b:1", 2)).unwrap();
    let copy = table.clone();
    table.insert(beat("a", "a:1", 3)).unwrap();
    assert_eq!(copy.len(), 2);
    assert_eq!(held(&copy, "a").heartbeat.timestamp, 1);
    assert_eq!(held(&table, "a").heartbeat.timestamp, 3);
}

#[test]
fn heartbeats_are_equal_when_all_their_fields_are() {
    assert_eq!(beat("a", "a:1", 1), beat("a", "a:1", 1));
    assert_ne!(beat("a", "a:1", 1), beat("b", "a:1", 1));
    assert_ne!(beat("a", "a:1", 1), beat("a", "a:2", 1));
    assert_ne!(beat("a", "a:1", 1), beat("a", "a:1", 2));
    assert_eq!(beat("a", "a:1", 1).clone(), beat("a", "a:1", 1));
}
