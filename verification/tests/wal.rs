use shard_kv::command::{WalCommand, WalEntry};
use shard_kv::wal::{decode_entry, decode_log, encode_entry, WalAction, WalBatch, FLUSH_THRESHOLD};

fn show(e: &WalEntry) -> String {
    match e {
        WalEntry::SetValue { key, value } => format!("set {} {}", key, value),
        WalEntry::SetEx { key, value, ttl } => format!("setex {} {} {}", key, value, ttl),
        WalEntry::Del { key } => format!("del {}", key),
        WalEntry::Expire { key, ttl } => format!("expire {} {}", key, ttl),
    }
}

fn samples() -> Vec<WalEntry> {
    vec![
        WalEntry::SetValue { key: "a".to_string(), value: "1".to_string() },
        WalEntry::SetEx { key: "t".to_string(), value: "hello".to_string(), ttl: 1 },
        WalEntry::Del { key: "missing".to_string() },
        WalEntry::Expire { key: "x".to_string(), ttl: 60 },
        WalEntry::SetValue { key: String::new(), value: String::new() },
        WalEntry::SetEx { key: "clé".to_string(), value: "値".to_string(), ttl: u64::MAX },
    ]
}

#[test]
fn record_layout_is_tag_then_fields() {
    let bytes = encode_entry(&WalEntry::SetValue { key: "ab".to_string(), value: "xyz".to_string() });
    assert_eq!(
        bytes,
        vec![0, 0, 0, 0, 2, 0, 0, 0, 0, 0, 0, 0, b'a', b'b', 3, 0, 0, 0, 0, 0, 0, 0, b'x', b'y',
            b'z']
    );
    let bytes = encode_entry(&WalEntry::Expire { key: "k".to_string(), ttl: 258 });
    assert_eq!(bytes, vec![3, 0, 0, 0, 1, 0, 0, 0, 0, 0, 0, 0, b'k', 2, 1, 0, 0, 0, 0, 0, 0]);
    let bytes = encode_entry(&WalEntry::Del { key: "k".to_string() });
    assert_eq!(bytes, vec![2, 0, 0, 0, 1, 0, 0, 0, 0, 0, 0, 0, b'k']);
    let bytes = encode_entry(&WalEntry::SetEx { key: "k".to_string(), value: "v".to_string(), ttl: 1 });
    assert_eq!(
        bytes,
        vec![1, 0, 0, 0, 1, 0, 0, 0, 0, 0, 0, 0, b'k', 1, 0, 0, 0, 0, 0, 0, 0, b'v', 1, 0, 0, 0,
            0, 0, 0, 0]
    );
}

#[test]
fn record_layout_is_that_of_bincode() {
    for e in samples() {
        let want = match &e {
            WalEntry::SetValue { key, value } => bincode::serialize(&(0u32, key, value)),
            WalEntry::SetEx { key, value, ttl } => bincode::serialize(&(1u32, key, value, ttl)),
            WalEntry::Del { key } => bincode::serialize(&(2u32, key)),
            WalEntry::Expire { key, ttl } => bincode::serialize(&(3u32, key, ttl)),
        }
        .unwrap();
        assert_eq!(encode_entry(&e), want);
    }
}

#[test]
fn records_read_back_as_written() {
    for e in samples() {
        let bytes = encode_entry(&e);
        let (back, next) = decode_entry(&bytes, 0).unwrap();
        assert_eq!(show(&back), show(&e));
        assert_eq!(next, bytes.len());
    }
}

#[test]
fn record_in_the_middle_of_a_log_reads_back() {
    let first = encode_entry(&samples()[0]);
    let second = encode_entry(&samples()[1]);
    let mut log = first.clone();
    log.extend_from_slice(&second);
    log.extend_from_slice(&[9, 9, 9]);
    let (back, next) = decode_entry(&log, first.len()).unwrap();
    assert_eq!(show(&back), show(&samples()[1]));
    assert_eq!(next, first.len() + second.len());
    assert!(decode_entry(&log, next).is_none());
}

#[test]
fn log_reads_back_in_order() {
    let mut log = Vec::new();
    for e in samples() {
        log.extend_from_slice(&encode_entry(&e));
    }
    let back: Vec<String> = decode_log(&log).iter().map(show).collect();
    let want: Vec<String> = samples().iter().map(show).collect();
    assert_eq!(back, want);
    assert!(decode_log(&[]).is_empty());
}

#[test]
fn torn_tail_ends_the_log_without_error() {
    let mut whole = Vec::new();
    let mut ends = Vec::new();
    for e in samples() {
        whole.extend_from_slice(&encode_entry(&e));
        ends.push(whole.len());
    }
    for cut in 0..=whole.len() {
        let got = decode_log(&whole[..cut]).len();
        let want = ends.iter().filter(|end| **end <= cut).count();
        assert_eq!(got, want, "log cut at {}", cut);
    }
}

#[test]
fn unknown_tag_and_bad_text_end_the_log() {
    let good = encode_entry(&samples()[0]);
    let mut log = good.clone();
    log.extend_from_slice(&[4, 0, 0, 0, 0, 0, 0, 0, 0, 0, 0, 0]);
    assert_eq!(decode_log(&log).len(), 1);
    let mut log = good.clone();
    log.extend_from_slice(&[2, 0, 0, 0, 1, 0, 0, 0, 0, 0, 0, 0, 0xff]);
    assert_eq!(decode_log(&log).len(), 1);
    let mut log = good.clone();
    log.extend_from_slice(&[2, 0, 0, 0, 0xff, 0xff, 0xff, 0xff, 0xff, 0xff, 0xff, 0xff, b'k']);
    assert_eq!(decode_log(&log).len(), 1);
    let mut log = good;
    log.extend_from_slice(&[2, 0, 1, 0, 1, 0, 0, 0, 0, 0, 0, 0, b'k']);
    assert_eq!(decode_log(&log).len(), 1);
}

#[test]
fn decoding_agrees_with_bincode() {
    let bytes = bincode::serialize(&(1u32, "key", "value", 77u64)).unwrap();
    let (back, next) = decode_entry(&bytes, 0).unwrap();
    assert_eq!(show(&back), "setex key value 77");
    assert_eq!(next, bytes.len());
    let (tag, key, value, ttl): (u32, String, String, u64) =
        bincode::deserialize(&encode_entry(&samples()[5])).unwrap();
    assert_eq!((tag, key.as_str(), value.as_str(), ttl), (1, "clé", "値", u64::MAX));
}

fn bytes_of(action: WalAction) -> (String, Vec<u8>) {
    match action {
        WalAction::Idle => ("idle".to_string(), Vec::new()),
        WalAction::Flush(b) => ("flush".to_string(), b),
        WalAction::Truncate(b) => ("truncate".to_string(), b),
        WalAction::Close(b) => ("close".to_string(), b),
    }
}

#[test]
fn tick_flushes_only_a_buffer_that_holds_something() {
    let mut batch = WalBatch::new();
    assert_eq!(bytes_of(batch.on_tick()), ("idle".to_string(), vec![]));
    assert_eq!(
        bytes_of(batch.on_message(Some(WalCommand::Write(vec![1, 2])))),
        ("idle".to_string(), vec![])
    );
    assert_eq!(batch.pending(), 2);
    batch.on_message(Some(WalCommand::Write(vec![3])));
    assert_eq!(bytes_of(batch.on_tick()), ("flush".to_string(), vec![1, 2, 3]));
    assert_eq!(batch.pending(), 0);
    assert_eq!(bytes_of(batch.on_tick()), ("idle".to_string(), vec![]));
}

#[test]
fn full_buffer_is_flushed_at_once() {
    let mut batch = WalBatch::new();
    assert_eq!(FLUSH_THRESHOLD, 128 * 1024);
    let (what, _) = bytes_of(batch.on_message(Some(WalCommand::Write(vec![7; FLUSH_THRESHOLD - 1]))));
    assert_eq!(what, "idle");
    let (what, bytes) = bytes_of(batch.on_message(Some(WalCommand::Write(vec![8]))));
    assert_eq!(what, "flush");
    assert_eq!(bytes.len(), FLUSH_THRESHOLD);
    assert_eq!(bytes[FLUSH_THRESHOLD - 1], 8);
    assert_eq!(batch.pending(), 0);
    let (what, bytes) = bytes_of(batch.on_message(Some(WalCommand::Write(vec![1; FLUSH_THRESHOLD + 5]))));
    assert_eq!(what, "flush");
    assert_eq!(bytes.len(), FLUSH_THRESHOLD + 5);
}

#[test]
fn truncate_and_close_send_the_buffer_ahead() {
    let mut batch = WalBatch::new();
    batch.on_message(Some(WalCommand::Write(vec![1, 2, 3])));
    assert_eq!(
        bytes_of(batch.on_message(Some(WalCommand::Truncate))),
        ("truncate".to_string(), vec![1, 2, 3])
    );
    assert_eq!(batch.pending(), 0);
    assert_eq!(
        bytes_of(batch.on_message(Some(WalCommand::Truncate))),
        ("truncate".to_string(), vec![])
    );
    batch.on_message(Some(WalCommand::Write(vec![4])));
    assert_eq!(bytes_of(batch.on_message(None)), ("close".to_string(), vec![4]));
    assert_eq!(batch.pending(), 0);
}
