use gossip::clock::seconds_since_epoch;
use gossip::{now_unix, setup_storage, setup_storage_at, Heartbeat, NodeHeartbeatData};
use std::time::{Duration, SystemTime, UNIX_EPOCH};

fn unheard(id: &str, address: &str, now: u64) -> NodeHeartbeatData {
    NodeHeartbeatData {
        heartbeat: Heartbeat { id: id.to_string(), address: address.to_string(), timestamp: now },
        received_count: 0,
    }
}

fn pairs(seeds: &[(&str, &str)]) -> Vec<(String, String)> {
    seeds.iter().map(|(id, address)| (id.to_string(), address.to_string())).collect()
}

#[test]
fn startup_table_knows_the_seeds_and_the_node() {
    let table = setup_storage_at(
        "7".to_string(),
        "0.0.0.0:8007".to_string(),
        pairs(&[("0", "0.0.0.0:8000"), ("1", "0.0.0.0:8001")]),
        500,
    );
    assert_eq!(
        table.data(),
        &vec![
            unheard("0", "0.0.0.0:8000", 500),
            unheard("1", "0.0.0.0:8001", 500),
            unheard("7", "0.0.0.0:8007", 500),
        ]
    );
}

#[test]
fn startup_table_without_seeds_knows_only_the_node() {
    let table = setup_storage_at("a".to_string(), "a:1".to_string(), vec![], 0);
    assert_eq!(table.data(), &vec![unheard("a", "a:1", 0)]);
}

#[test]
fn the_node_counts_over_a_seed_of_its_own_id() {
    let table = setup_storage_at(
        "0".to_string(),
        "127.0.0.1:8000".to_string(),
        pairs(&[("0", "0.0.0.0:8000"), ("1", "0.0.0.0:8001")]),
        42,
    );
    assert_eq!(
        table.data(),
        &vec![unheard("0", "127.0.0.1:8000", 42), unheard("1", "0.0.0.0:8001", 42)]
    );
}

#[test]
fn the_later_of_two_seeds_with_one_id_counts() {
    let table = setup_storage_at(
        "n".to_string(),
        "n:1".to_string(),
        pairs(&[("s", "old:1"), ("t", "t:1"), ("s", "new:1")]),
        9,
    );
    assert_eq!(
        table.data(),
        &vec![unheard("s", "new:1", 9), unheard("t", "t:1", 9), unheard("n", "n:1", 9)]
    );
}

#[test]
fn first_heartbeat_for_a_seed_is_counted_once() {
    let mut table =
        setup_storage_at("n".to_string(), "n:1".to_string(), pairs(&[("s", "s:1")]), 100);
    let newer = Heartbeat { id: "s".to_string(), address: "s:1".to_string(), timestamp: 101 };
    assert_eq!(table.insert(newer).unwrap(), 1);
    let mut table =
        setup_storage_at("n".to_string(), "n:1".to_string(), pairs(&[("s", "s:1")]), 100);
    let older = Heartbeat { id: "s".to_string(), address: "s:1".to_string(), timestamp: 99 };
    assert_eq!(table.insert(older).unwrap(), 1);
    assert_eq!(table.get(&"s".to_string()).unwrap().heartbeat.timestamp, 100);
}

#[test]
fn startup_now_dates_every_entry_alike() {
    let before = now_unix();
    let table = setup_storage(
        "n".to_string(),
        "n:1".to_string(),
        pairs(&[("s", "s:1"), ("t", "t:1")]),
    );
    let after = now_unix();
    assert!(before <= after);
    assert_eq!(table.len(), 3);
    let stamp = table.data()[0].heartbeat.timestamp;
    assert!(before <= stamp && stamp <= after);
    assert_eq!(
        table.data(),
        &vec![unheard("s", "s:1", stamp), unheard("t", "t:1", stamp), unheard("n", "n:1", stamp)]
    );
}

#[test]
fn seconds_since_epoch_counts_whole_seconds() {
    assert_eq!(seconds_since_epoch(&UNIX_EPOCH), 0);
    assert_eq!(seconds_since_epoch(&(UNIX_EPOCH + Duration::from_secs(5))), 5);
    assert_eq!(
        seconds_since_epoch(&(UNIX_EPOCH + Duration::new(1_700_000_000, 999_999_999))),
        1_700_000_000
    );
    assert_eq!(seconds_since_epoch(&(UNIX_EPOCH + Duration::from_millis(999))), 0);
}

#[test]
fn a_reading_before_the_epoch_counts_as_the_epoch() {
    assert_eq!(seconds_since_epoch(&(UNIX_EPOCH - Duration::from_secs(1))), 0);
    assert_eq!(seconds_since_epoch(&(UNIX_EPOCH - Duration::from_secs(86_400))), 0);
}

#[test]
fn now_unix_agrees_with_the_clock() {
    let before = seconds_since_epoch(&SystemTime::now());
    let now = now_unix();
    let after = seconds_since_epoch(&SystemTime::now());
    assert!(before <= now && now <= after);
}
