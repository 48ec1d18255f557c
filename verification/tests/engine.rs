use shard_kv::apply::{apply_db, deadline_at, millis_to_instant, now_ms, ShardState};
use shard_kv::command::{ParsedCommand, Reply, WalEntry};

fn set(k: &str, v: &str) -> ParsedCommand {
    ParsedCommand::SetValue { key: k.to_string(), value: v.to_string() }
}

fn setex(k: &str, v: &str, ttl: u64) -> ParsedCommand {
    ParsedCommand::SetEx { key: k.to_string(), value: v.to_string(), ttl }
}

fn get(k: &str) -> ParsedCommand {
    ParsedCommand::Get { key: k.to_string() }
}

fn del(k: &str) -> ParsedCommand {
    ParsedCommand::Del { key: k.to_string() }
}

fn ex(k: &str) -> ParsedCommand {
    ParsedCommand::Ex { key: k.to_string() }
}

fn expire(k: &str, ttl: u64) -> ParsedCommand {
    ParsedCommand::Expire { key: k.to_string(), ttl }
}

fn ttl(k: &str) -> ParsedCommand {
    ParsedCommand::Ttl { key: k.to_string() }
}

fn wire(shard: &mut ShardState, cmd: ParsedCommand, now: u64) -> String {
    shard.handle(cmd, now).0.to_wire()
}

#[test]
fn set_then_get_returns_value() {
    let mut shard = ShardState::new();
    assert_eq!(wire(&mut shard, set("a", "1"), 1_000), "OK\n");
    assert_eq!(wire(&mut shard, get("a"), 1_000), "1");
    assert_eq!(wire(&mut shard, get("a"), 9_999_999), "1");
}

#[test]
fn get_of_unknown_key_is_nil() {
    let mut shard = ShardState::new();
    assert_eq!(wire(&mut shard, get("nope"), 5), "nil\n");
}

#[test]
fn setex_expires_after_its_ttl() {
    let mut shard = ShardState::new();
    assert_eq!(wire(&mut shard, setex("t", "hello", 1), 10_000), "OK\n");
    assert_eq!(wire(&mut shard, get("t"), 10_999), "hello");
    assert_eq!(wire(&mut shard, get("t"), 11_200), "nil\n");
    assert_eq!(wire(&mut shard, ex("t"), 11_200), "0");
}

#[test]
fn setex_is_due_at_exactly_its_deadline() {
    let mut shard = ShardState::new();
    wire(&mut shard, setex("t", "v", 1), 10_000);
    assert_eq!(wire(&mut shard, get("t"), 11_000), "nil\n");
}

#[test]
fn expire_then_ttl_counts_whole_seconds() {
    let mut shard = ShardState::new();
    assert_eq!(wire(&mut shard, set("x", "y"), 0), "OK\n");
    assert_eq!(wire(&mut shard, expire("x", 60), 0), "1");
    assert_eq!(wire(&mut shard, ttl("x"), 0), "60");
    assert_eq!(wire(&mut shard, ttl("x"), 1), "59");
    assert_eq!(wire(&mut shard, ttl("x"), 59_999), "0");
    assert_eq!(wire(&mut shard, ttl("x"), 60_000), "-2");
    assert_eq!(wire(&mut shard, ex("x"), 60_000), "0");
}

#[test]
fn del_reports_whether_a_key_was_removed() {
    let mut shard = ShardState::new();
    assert_eq!(wire(&mut shard, del("missing"), 0), "0");
    assert_eq!(wire(&mut shard, set("missing", "v"), 0), "OK\n");
    assert_eq!(wire(&mut shard, del("missing"), 0), "1");
    assert_eq!(wire(&mut shard, get("missing"), 0), "nil\n");
    assert_eq!(wire(&mut shard, ex("missing"), 0), "0");
}

#[test]
fn ping_answers_pong_and_logs_nothing() {
    let mut shard = ShardState::new();
    let (reply, record) = shard.handle(ParsedCommand::Ping, 0);
    assert_eq!(reply.to_wire(), "PONG\n");
    assert!(record.is_none());
}

#[test]
fn ttl_of_missing_key_is_minus_two_and_of_plain_key_minus_one() {
    let mut shard = ShardState::new();
    assert_eq!(wire(&mut shard, ttl("k"), 0), "-2");
    wire(&mut shard, set("k", "v"), 0);
    assert_eq!(wire(&mut shard, ttl("k"), 0), "-1");
}

#[test]
fn expire_on_missing_key_is_a_no_op() {
    let mut shard = ShardState::new();
    let (reply, record) = shard.handle(expire("k", 5), 0);
    assert_eq!(reply.to_wire(), "0");
    assert!(record.is_none());
    assert_eq!(shard.pending(), 0);
    assert_eq!(wire(&mut shard, ttl("k"), 0), "-2");
}

#[test]
fn set_clears_an_expiry() {
    let mut shard = ShardState::new();
    wire(&mut shard, setex("k", "v", 1), 0);
    wire(&mut shard, set("k", "w"), 10);
    assert_eq!(wire(&mut shard, ttl("k"), 10), "-1");
    assert_eq!(wire(&mut shard, get("k"), 5_000), "w");
}

#[test]
fn ex_does_not_expire_lazily() {
    let mut shard = ShardState::new();
    wire(&mut shard, setex("k", "v", 1), 0);
    assert_eq!(wire(&mut shard, ex("k"), 5_000), "1");
    assert_eq!(wire(&mut shard, ttl("k"), 5_000), "-2");
    assert_eq!(wire(&mut shard, ex("k"), 5_000), "0");
}

#[test]
fn writes_leave_their_record() {
    let mut shard = ShardState::new();
    match shard.handle(set("k", "v"), 0).1 {
        Some(WalEntry::SetValue { key, value }) => {
            assert_eq!(key, "k");
            assert_eq!(value, "v");
        }
        _ => panic!("expected a SetValue record"),
    }
    match shard.handle(setex("k", "v", 7), 0).1 {
        Some(WalEntry::SetEx { key, value, ttl }) => {
            assert_eq!((key.as_str(), value.as_str(), ttl), ("k", "v", 7));
        }
        _ => panic!("expected a SetEx record"),
    }
    match shard.handle(expire("k", 9), 0).1 {
        Some(WalEntry::Expire { key, ttl }) => assert_eq!((key.as_str(), ttl), ("k", 9)),
        _ => panic!("expected an Expire record"),
    }
    match shard.handle(del("absent"), 0).1 {
        Some(WalEntry::Del { key }) => assert_eq!(key, "absent"),
        _ => panic!("expected a Del record"),
    }
    assert!(shard.handle(get("k"), 0).1.is_none());
    assert!(shard.handle(ex("k"), 0).1.is_none());
    assert!(shard.handle(ttl("k"), 0).1.is_none());
}

#[test]
fn sweep_removes_due_keys_and_spares_the_rest() {
    let mut shard = ShardState::new();
    wire(&mut shard, setex("a", "1", 1), 0);
    wire(&mut shard, setex("b", "2", 5), 0);
    wire(&mut shard, set("c", "3"), 0);
    assert_eq!(shard.expire_due(999), 0);
    assert_eq!(shard.expire_due(1_000), 1);
    assert_eq!(wire(&mut shard, ex("a"), 1_000), "0");
    assert_eq!(wire(&mut shard, ex("b"), 1_000), "1");
    assert_eq!(wire(&mut shard, ex("c"), 1_000), "1");
    assert_eq!(shard.pending(), 1);
}

#[test]
fn sweep_discards_a_stale_hint_without_removing_the_key() {
    let mut shard = ShardState::new();
    wire(&mut shard, setex("k", "old", 1), 0);
    wire(&mut shard, setex("k", "new", 100), 0);
    assert_eq!(shard.pending(), 2);
    assert_eq!(shard.expire_due(2_000), 1);
    assert_eq!(wire(&mut shard, get("k"), 2_000), "new");
    assert_eq!(wire(&mut shard, ttl("k"), 2_000), "98");
}

#[test]
fn sweep_takes_at_most_two_hundred_hints() {
    let mut shard = ShardState::new();
    for i in 0..250u32 {
        wire(&mut shard, setex(&format!("k{:03}", i), "v", 1), 0);
    }
    assert_eq!(shard.expire_due(5_000), 200);
    assert_eq!(shard.pending(), 50);
    assert_eq!(wire(&mut shard, ex("k000"), 5_000), "0");
    assert_eq!(wire(&mut shard, ex("k199"), 5_000), "0");
    assert_eq!(wire(&mut shard, ex("k200"), 5_000), "1");
    assert_eq!(shard.expire_due(5_000), 50);
    assert_eq!(shard.expire_due(5_000), 0);
}

#[test]
fn sweep_takes_hints_in_order_of_instant_then_key() {
    let mut shard = ShardState::new();
    wire(&mut shard, setex("late", "v", 3), 0);
    wire(&mut shard, setex("zeta", "v", 1), 0);
    wire(&mut shard, setex("alpha", "v", 1), 0);
    wire(&mut shard, setex("mid", "v", 2), 0);
    assert_eq!(shard.expire_due(1_500), 2);
    assert_eq!(wire(&mut shard, ex("alpha"), 0), "0");
    assert_eq!(wire(&mut shard, ex("zeta"), 0), "0");
    assert_eq!(wire(&mut shard, ex("mid"), 0), "1");
    assert_eq!(shard.expire_due(2_500), 1);
    assert_eq!(wire(&mut shard, ex("mid"), 0), "0");
    assert_eq!(wire(&mut shard, ex("late"), 0), "1");
}

#[test]
fn deadline_is_now_plus_ttl_thousand_and_saturates() {
    assert_eq!(deadline_at(10, 3), 3_010);
    assert_eq!(deadline_at(0, 0), 0);
    assert_eq!(deadline_at(u64::MAX - 5, 1), u64::MAX);
    assert_eq!(deadline_at(0, u64::MAX), u64::MAX);
    assert_eq!(deadline_at(0, u64::MAX / 1000), (u64::MAX / 1000) * 1000);
}

#[test]
fn huge_ttl_never_expires() {
    let mut shard = ShardState::new();
    wire(&mut shard, setex("k", "v", u64::MAX), 5);
    assert_eq!(wire(&mut shard, get("k"), u64::MAX - 1), "v");
}

#[test]
fn clock_reading_becomes_an_instant() {
    assert_eq!(millis_to_instant(None), 0);
    assert_eq!(millis_to_instant(Some(1_234)), 1_234);
    assert_eq!(millis_to_instant(Some(u64::MAX as u128)), u64::MAX);
    assert_eq!(millis_to_instant(Some((1u128 << 64) + 7)), 7);
}

#[test]
fn wall_clock_is_past_the_year_2020() {
    assert!(now_ms() > 1_577_836_800_000);
}

#[test]
fn apply_db_performs_writes_and_ignores_reads() {
    let mut shard = ShardState::new();
    apply_db(&mut shard, set("a", "1"));
    apply_db(&mut shard, get("a"));
    apply_db(&mut shard, setex("b", "2", 1000));
    apply_db(&mut shard, expire("a", 1000));
    apply_db(&mut shard, del("b"));
    let now = now_ms();
    assert_eq!(wire(&mut shard, get("a"), now), "1");
    assert_eq!(wire(&mut shard, get("b"), now), "nil\n");
    let left = wire(&mut shard, ttl("a"), now);
    assert!(left == "1000" || left == "999");
    assert_eq!(shard.pending(), 2);
}

#[test]
fn replies_are_written_as_the_protocol_says() {
    assert_eq!(Reply::Done.to_wire(), "OK\n");
    assert_eq!(Reply::Pong.to_wire(), "PONG\n");
    assert_eq!(Reply::Nil.to_wire(), "nil\n");
    assert_eq!(Reply::Value("some value".to_string()).to_wire(), "some value");
    assert_eq!(Reply::Integer(0).to_wire(), "0");
    assert_eq!(Reply::Integer(-2).to_wire(), "-2");
    assert_eq!(Reply::Integer(1234567890).to_wire(), "1234567890");
    assert_eq!(Reply::Integer(i64::MAX).to_wire(), "9223372036854775807");
    assert_eq!(Reply::Integer(i64::MIN).to_wire(), "-9223372036854775808");
}
