use shard_kv::apply::ShardState;
use shard_kv::command::{ParsedCommand, WalCommand, WalEntry};
use shard_kv::engine::{on_event, EngineAction, EngineEvent};
use shard_kv::snapshot::{choose_image, load_snapshot, recover, restore, snapshot, SnapshotImage};
use shard_kv::wal::encode_entry;

fn wire(shard: &mut ShardState, cmd: ParsedCommand, now: u64) -> String {
    shard.handle(cmd, now).0.to_wire()
}

fn get(k: &str) -> ParsedCommand {
    ParsedCommand::Get { key: k.to_string() }
}

fn ttl(k: &str) -> ParsedCommand {
    ParsedCommand::Ttl { key: k.to_string() }
}

fn image(data: &[(&str, &str)], ttl: &[(&str, u64)]) -> SnapshotImage {
    SnapshotImage {
        data: data.iter().map(|(k, v)| (k.to_string(), v.to_string())).collect(),
        ttl: ttl.iter().map(|(k, e)| (k.to_string(), *e)).collect(),
    }
}

fn sorted(img: &SnapshotImage) -> (Vec<(String, String)>, Vec<(String, u64)>) {
    let mut data = img.data.clone();
    let mut ttl = img.ttl.clone();
    data.sort();
    ttl.sort();
    (data, ttl)
}

#[test]
fn restore_installs_values_and_expiries() {
    let mut shard = restore(&image(&[("a", "1"), ("b", "2")], &[("b", 5_000)]));
    assert_eq!(wire(&mut shard, get("a"), 0), "1");
    assert_eq!(wire(&mut shard, ttl("a"), 0), "-1");
    assert_eq!(wire(&mut shard, ttl("b"), 1_000), "4");
    assert_eq!(shard.pending(), 1);
    assert_eq!(wire(&mut shard, get("b"), 5_000), "nil\n");
}

#[test]
fn restore_holds_one_hint_per_expiry() {
    let shard = restore(&image(
        &[("a", "1"), ("b", "2"), ("c", "3")],
        &[("a", 10), ("c", 30), ("c", 31), ("ghost", 5)],
    ));
    assert_eq!(shard.pending(), 2);
    let mut shard = shard;
    assert_eq!(shard.expire_due(30), 1);
    assert_eq!(shard.expire_due(31), 1);
    assert_eq!(shard.pending(), 0);
    assert_eq!(wire(&mut shard, get("b"), 31), "2");
    assert_eq!(wire(&mut shard, get("c"), 0), "nil\n");
}

#[test]
fn later_pair_of_an_image_wins() {
    let mut shard = restore(&image(&[("a", "old"), ("a", "new")], &[]));
    assert_eq!(wire(&mut shard, get("a"), 0), "new");
    assert_eq!(shard.len(), 1);
}

#[test]
fn snapshot_of_a_state_restores_to_it() {
    let mut shard = ShardState::new();
    for (i, k) in ["a", "b", "c", "d"].iter().enumerate() {
        shard.handle(
            ParsedCommand::SetValue { key: k.to_string(), value: format!("v{}", i) },
            0,
        );
    }
    shard.handle(ParsedCommand::Expire { key: "b".to_string(), ttl: 9 }, 1_000);
    shard.handle(ParsedCommand::SetEx { key: "e".to_string(), value: "x".to_string(), ttl: 2 }, 0);
    shard.handle(ParsedCommand::Del { key: "a".to_string() }, 0);
    let img = snapshot(&shard);
    let (data, ttl) = sorted(&img);
    let want_data: Vec<(String, String)> = [("b", "v1"), ("c", "v2"), ("d", "v3"), ("e", "x")]
        .iter()
        .map(|(k, v)| (k.to_string(), v.to_string()))
        .collect();
    assert_eq!(data, want_data);
    assert_eq!(ttl, vec![("b".to_string(), 10_000), ("e".to_string(), 2_000)]);
    let back = restore(&img);
    assert_eq!(sorted(&snapshot(&back)), (data, ttl));
    assert_eq!(back.pending(), 2);
}

#[test]
fn snapshot_text_as_pair_as_single_map_and_as_neither() {
    let img = load_snapshot(Some(r#"[{"a":"1","b":"2"},{"a":1234}]"#));
    let (data, ttl) = sorted(&img);
    assert_eq!(data, vec![("a".to_string(), "1".to_string()), ("b".to_string(), "2".to_string())]);
    assert_eq!(ttl, vec![("a".to_string(), 1234)]);

    let img = load_snapshot(Some(r#"{"k":"v"}"#));
    assert_eq!(img.data, vec![("k".to_string(), "v".to_string())]);
    assert!(img.ttl.is_empty());

    for text in ["", "nonsense", "[1,2]", r#"{"k":1}"#, r#"[{"a":"1"}]"#, r#"[{"a":"1"},{"a":"x"}]"#,
        r#"[{"a":"1"},{"a":-1}]"#, r#"[{"a":"1"},{},{}]"#] {
        let img = load_snapshot(Some(text));
        assert!(img.data.is_empty() && img.ttl.is_empty(), "text {:?}", text);
    }
    let img = load_snapshot(None);
    assert!(img.data.is_empty() && img.ttl.is_empty());
}

#[test]
fn snapshot_text_written_by_serde_json_reads_back() {
    let mut shard = ShardState::new();
    shard.handle(ParsedCommand::SetValue { key: "k\"ey".to_string(), value: "v\\al\né".to_string() }, 0);
    shard.handle(ParsedCommand::SetEx { key: "t".to_string(), value: "x".to_string(), ttl: 5 }, 7);
    let img = snapshot(&shard);
    let data: std::collections::HashMap<String, String> = img.data.iter().cloned().collect();
    let ttl: std::collections::HashMap<String, u64> = img.ttl.iter().cloned().collect();
    let text = serde_json::to_string(&(data, ttl)).unwrap();
    let back = load_snapshot(Some(&text));
    assert_eq!(sorted(&back), sorted(&img));
    let mut shard = restore(&back);
    assert_eq!(wire(&mut shard, get("k\"ey"), 0), "v\\al\né");
    assert_eq!(wire(&mut shard, ttl_of("t"), 7), "5");
}

fn ttl_of(k: &str) -> ParsedCommand {
    ttl(k)
}

#[test]
fn choose_image_prefers_the_pair() {
    let pair = image(&[("a", "1")], &[("a", 5)]);
    let single = vec![("b".to_string(), "2".to_string())];
    let img = choose_image(Some(pair), Some(single.clone()));
    assert_eq!(img.data, vec![("a".to_string(), "1".to_string())]);
    assert_eq!(img.ttl, vec![("a".to_string(), 5)]);
    let img = choose_image(None, Some(single));
    assert_eq!(img.data, vec![("b".to_string(), "2".to_string())]);
    assert!(img.ttl.is_empty());
    let img = choose_image(None, None);
    assert!(img.data.is_empty() && img.ttl.is_empty());
}

#[test]
fn recovery_replays_the_log_over_the_snapshot() {
    let mut wal = Vec::new();
    for e in [
        WalEntry::SetValue { key: "k".to_string(), value: "v".to_string() },
        WalEntry::SetEx { key: "t".to_string(), value: "x".to_string(), ttl: 10 },
        WalEntry::Del { key: "old".to_string() },
        WalEntry::Expire { key: "kept".to_string(), ttl: 3 },
        WalEntry::Expire { key: "nobody".to_string(), ttl: 3 },
    ] {
        wal.extend_from_slice(&encode_entry(&e));
    }
    let img = image(&[("old", "1"), ("kept", "2")], &[("old", 99)]);
    let mut shard = recover(&img, &wal, 50_000);
    assert_eq!(wire(&mut shard, get("k"), 50_000), "v");
    assert_eq!(wire(&mut shard, get("old"), 50_000), "nil\n");
    assert_eq!(wire(&mut shard, ttl("t"), 50_000), "10");
    assert_eq!(wire(&mut shard, ttl("kept"), 50_000), "3");
    assert_eq!(wire(&mut shard, ttl("nobody"), 50_000), "-2");
    assert_eq!(shard.pending(), 3);
}

#[test]
fn recovery_stops_at_a_torn_record() {
    let mut wal = encode_entry(&WalEntry::SetValue { key: "k".to_string(), value: "v".to_string() });
    let torn = encode_entry(&WalEntry::SetValue { key: "lost".to_string(), value: "x".to_string() });
    wal.extend_from_slice(&torn[..torn.len() - 1]);
    let mut shard = recover(&image(&[], &[]), &wal, 0);
    assert_eq!(wire(&mut shard, get("k"), 0), "v");
    assert_eq!(wire(&mut shard, get("lost"), 0), "nil\n");
}

#[test]
fn log_written_by_the_engine_recovers_what_was_acknowledged() {
    let mut live = ShardState::new();
    let mut wal = Vec::new();
    let requests = vec![
        ParsedCommand::SetValue { key: "k".to_string(), value: "v".to_string() },
        ParsedCommand::SetValue { key: "gone".to_string(), value: "1".to_string() },
        ParsedCommand::Get { key: "k".to_string() },
        ParsedCommand::Del { key: "gone".to_string() },
        ParsedCommand::Expire { key: "absent".to_string(), ttl: 4 },
        ParsedCommand::SetValue { key: "k".to_string(), value: "w".to_string() },
    ];
    for cmd in requests {
        match on_event(&mut live, EngineEvent::Request(cmd), 100) {
            EngineAction::Respond { log, reply: _ } => {
                if let Some(WalCommand::Write(bytes)) = log {
                    wal.extend_from_slice(&bytes);
                }
            }
            _ => panic!("a request is answered"),
        }
    }
    let mut back = recover(&image(&[], &[]), &wal, 900);
    assert_eq!(wire(&mut back, get("k"), 900), "w");
    assert_eq!(wire(&mut back, get("gone"), 900), "nil\n");
    assert_eq!(back.len(), live.len());
}

#[test]
fn engine_answers_each_event_with_its_action() {
    let mut shard = ShardState::new();
    match on_event(
        &mut shard,
        EngineEvent::Request(ParsedCommand::SetEx {
            key: "k".to_string(),
            value: "v".to_string(),
            ttl: 1,
        }),
        0,
    ) {
        EngineAction::Respond { log: Some(WalCommand::Write(bytes)), reply } => {
            assert_eq!(reply.to_wire(), "OK\n");
            assert_eq!(
                bytes,
                encode_entry(&WalEntry::SetEx {
                    key: "k".to_string(),
                    value: "v".to_string(),
                    ttl: 1
                })
            );
        }
        _ => panic!("a write is logged and answered"),
    }
    match on_event(&mut shard, EngineEvent::Request(ParsedCommand::Ping), 0) {
        EngineAction::Respond { log: None, reply } => assert_eq!(reply.to_wire(), "PONG\n"),
        _ => panic!("a read is answered without a log record"),
    }
    match on_event(&mut shard, EngineEvent::SnapshotTick, 0) {
        EngineAction::SaveSnapshot(img) => {
            assert_eq!(img.data, vec![("k".to_string(), "v".to_string())]);
            assert_eq!(img.ttl, vec![("k".to_string(), 1_000)]);
        }
        _ => panic!("a snapshot tick asks for a snapshot"),
    }
    assert!(matches!(
        on_event(&mut shard, EngineEvent::SnapshotDone(true), 0),
        EngineAction::Log(WalCommand::Truncate)
    ));
    assert!(matches!(on_event(&mut shard, EngineEvent::SnapshotDone(false), 0), EngineAction::Idle));
    assert!(matches!(on_event(&mut shard, EngineEvent::CleanupTick, 999), EngineAction::Idle));
    assert_eq!(shard.len(), 1);
    assert!(matches!(on_event(&mut shard, EngineEvent::CleanupTick, 1_000), EngineAction::Idle));
    assert_eq!(shard.len(), 0);
}
