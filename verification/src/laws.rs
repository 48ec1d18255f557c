//! What holds of every shard state and every request, stated over the
//! model and proved from its definitions.
use vstd::prelude::*;
use crate::command::{CommandView, ReplyView, WalEntryView};
use crate::expiry::{is_least, least};
use crate::model::ShardModel;
use crate::order::Hint;
use crate::snapshot::hints_match;

verus! {

/// A read that follows a `SetValue` of the same key returns the value that
/// was set, whenever the two are served.
pub proof fn law_get_after_set(m: ShardModel, k: Seq<char>, v: Seq<char>, at: u64, later: u64)
    ensures
        m.step(CommandView::SetValue { key: k, value: v }, at).reply(
            CommandView::Get { key: k },
            later,
        ) == ReplyView::Value(v),
{
}

/// A key set with a TTL of `ttl` seconds reads as absent once `ttl`
/// thousand milliseconds or more have passed.
pub proof fn law_get_after_setex_expired(
    m: ShardModel,
    k: Seq<char>,
    v: Seq<char>,
    ttl: u64,
    at: u64,
    later: u64,
)
    requires
        later - at >= ttl * 1000,
    ensures
        m.step(CommandView::SetEx { key: k, value: v, ttl }, at).reply(
            CommandView::Get { key: k },
            later,
        ) == ReplyView::Nil,
{
}

/// A key set with a TTL reads as its value for as long as less than the
/// TTL has passed, where its expiry instant fits the clock.
pub proof fn law_get_after_setex_live(
    m: ShardModel,
    k: Seq<char>,
    v: Seq<char>,
    ttl: u64,
    at: u64,
    later: u64,
)
    requires
        at + ttl * 1000 <= u64::MAX,
        at <= later,
        later - at < ttl * 1000,
    ensures
        m.step(CommandView::SetEx { key: k, value: v, ttl }, at).reply(
            CommandView::Get { key: k },
            later,
        ) == ReplyView::Value(v),
{
}

/// After `Del`, the key reads as absent and does not exist.
pub proof fn law_absent_after_del(m: ShardModel, k: Seq<char>, at: u64, later: u64)
    ensures
        m.step(CommandView::Del { key: k }, at).reply(CommandView::Get { key: k }, later)
            == ReplyView::Nil,
        m.step(CommandView::Del { key: k }, at).reply(CommandView::Ex { key: k }, later)
            == ReplyView::Integer(0),
{
}

/// For a key whose expiry has not passed, `Ttl` answers -2 exactly when
/// `Ex` answers 0 at the same instant.
pub proof fn law_ttl_agrees_with_ex(m: ShardModel, k: Seq<char>, now: u64)
    requires
        !m.is_due(k, now),
    ensures
        m.reply(CommandView::Ttl { key: k }, now) == ReplyView::Integer(-2) <==> m.reply(
            CommandView::Ex { key: k },
            now,
        ) == ReplyView::Integer(0),
{
}

/// For every key, `Ttl` answers -2 exactly when an `Ex` served right after
/// it at the same instant answers 0; and where `Ex` answers 0, `Ttl`
/// answers -2.
pub proof fn law_ttl_then_ex(m: ShardModel, k: Seq<char>, now: u64)
    ensures
        m.reply(CommandView::Ttl { key: k }, now) == ReplyView::Integer(-2) <==> m.step(
            CommandView::Ttl { key: k },
            now,
        ).reply(CommandView::Ex { key: k }, now) == ReplyView::Integer(0),
        m.reply(CommandView::Ex { key: k }, now) == ReplyView::Integer(0) ==> m.reply(
            CommandView::Ttl { key: k },
            now,
        ) == ReplyView::Integer(-2),
{
}

/// `Expire` on a key that holds no value changes nothing, answers 0 and
/// leaves no log record.
pub proof fn law_expire_missing(m: ShardModel, k: Seq<char>, ttl: u64, now: u64)
    requires
        !m.data.contains_key(k),
    ensures
        m.step(CommandView::Expire { key: k, ttl }, now) == m,
        m.reply(CommandView::Expire { key: k, ttl }, now) == ReplyView::Integer(0),
        m.record(CommandView::Expire { key: k, ttl }) is None,
{
}

/// `Expire` on a key that holds a value answers 1, and a `Ttl` served up
/// to a second later, and before the key is due, answers `ttl` or one less.
pub proof fn law_ttl_after_expire(m: ShardModel, k: Seq<char>, ttl: u64, now: u64, later: u64)
    requires
        m.data.contains_key(k),
        now + ttl * 1000 <= u64::MAX,
        now <= later,
        later - now <= 1000,
        later - now < ttl * 1000,
    ensures
        m.reply(CommandView::Expire { key: k, ttl }, now) == ReplyView::Integer(1),
        m.step(CommandView::Expire { key: k, ttl }, now).reply(CommandView::Ttl { key: k }, later)
            matches ReplyView::Integer(n) && ttl - 1 <= n <= ttl,
{
}

/// A hint that leaves the index takes with it no key but its own, and its
/// own only if the TTL map still states the instant of the hint. What stays
/// keeps its value and its expiry.
pub proof fn law_reap_spares(m: ShardModel, h: Hint, k: Seq<char>)
    requires
        m.data.contains_key(k),
        !(h.1 == k && m.bears_out(h)),
    ensures
        m.reap(h).data.contains_key(k),
        m.reap(h).data[k] == m.data[k],
        m.reap(h).ttl.contains_key(k) == m.ttl.contains_key(k),
        m.ttl.contains_key(k) ==> m.reap(h).ttl[k] == m.ttl[k],
{
}

/// A stale hint changes nothing but the index.
pub proof fn law_reap_stale(m: ShardModel, h: Hint)
    requires
        !m.bears_out(h),
    ensures
        m.reap(h).data == m.data,
        m.reap(h).ttl == m.ttl,
{
}

/// A sweep removes no key whose expiry has not passed: such a key keeps its
/// value and its expiry, whatever the index holds.
pub proof fn law_sweep_spares(m: ShardModel, now: u64, budget: nat, k: Seq<char>)
    requires
        m.data.contains_key(k),
        !m.is_due(k, now),
    ensures
        m.sweep(now, budget).data.contains_key(k),
        m.sweep(now, budget).data[k] == m.data[k],
        m.sweep(now, budget).ttl.contains_key(k) == m.ttl.contains_key(k),
        m.ttl.contains_key(k) ==> m.sweep(now, budget).ttl[k] == m.ttl[k],
    decreases budget,
{
    if budget == 0 || m.hints.len() == 0 || least(m.hints).0 > now {
    } else {
        let h = least(m.hints);
        law_reap_spares(m, h, k);
        law_sweep_spares(m.reap(h), now, (budget - 1) as nat, k);
    }
}

/// A sweep takes no more hints out of the index than its budget, and
/// changes nothing where the least hint is not yet due.
pub proof fn law_sweep_bounded(m: ShardModel, now: u64, budget: nat)
    ensures
        m.sweep(now, budget).hints.len() + budget >= m.hints.len(),
        m.sweep(now, budget).hints.len() <= m.hints.len(),
        m.hints.len() > 0 && least(m.hints).0 > now ==> m.sweep(now, budget) == m,
    decreases budget,
{
    broadcast use vstd::multiset::group_multiset_axioms;

    if budget == 0 || m.hints.len() == 0 || least(m.hints).0 > now {
    } else {
        let h = least(m.hints);
        assert(m.hints.count(h) > 0) by {
            lemma_least_exists(m.hints);
        }
        law_sweep_bounded(m.reap(h), now, (budget - 1) as nat);
    }
}

/// A multiset that is not empty has a least hint.
pub proof fn lemma_least_exists(hints: vstd::multiset::Multiset<Hint>)
    requires
        hints.len() > 0,
    ensures
        is_least(hints, least(hints)),
    decreases hints.len(),
{
    broadcast use vstd::multiset::group_multiset_axioms;

    let x = hints.choose();
    let rest = hints.remove(x);
    if rest.len() == 0 {
        assert forall|y: Hint| hints.count(y) > 0 implies crate::order::hint_le(x, y) by {
            if y != x {
                assert(rest.count(y) > 0);
                assert(rest.len() > 0);
            }
            crate::order::lemma_hint_le_refl(x);
        }
        assert(is_least(hints, x));
    } else {
        lemma_least_exists(rest);
        let g = least(rest);
        crate::order::lemma_hint_le_total(x, g);
        let w = if crate::order::hint_le(x, g) {
            x
        } else {
            g
        };
        assert forall|y: Hint| hints.count(y) > 0 implies crate::order::hint_le(w, y) by {
            crate::order::lemma_hint_le_refl(x);
            if y == x {
            } else {
                assert(rest.count(y) > 0);
                crate::order::lemma_hint_le_trans(w, g, y);
            }
        }
        assert(hints.count(w) > 0);
        assert(is_least(hints, w));
    }
}

/// Replaying a log that ends in a `SetValue` of `k` leaves `k` reading as
/// the value of that record, whatever came before it.
pub proof fn law_replay_ends_in_set(
    m: ShardModel,
    log: Seq<WalEntryView>,
    k: Seq<char>,
    v: Seq<char>,
    now: u64,
    later: u64,
)
    ensures
        m.replay(log.push(WalEntryView::SetValue { key: k, value: v }), now).reply(
            CommandView::Get { key: k },
            later,
        ) == ReplyView::Value(v),
{
    lemma_replay_push(m, log, WalEntryView::SetValue { key: k, value: v }, now);
}

/// Replaying a log with one more record is replaying the log and then
/// applying the record.
pub proof fn lemma_replay_push(m: ShardModel, log: Seq<WalEntryView>, e: WalEntryView, now: u64)
    ensures
        m.replay(log.push(e), now) == m.replay(log, now).apply(e.command(), now),
    decreases log.len(),
{
    if log.len() == 0 {
        assert(log.push(e).drop_first() =~= Seq::<WalEntryView>::empty());
        assert(m.apply(e.command(), now).replay(Seq::<WalEntryView>::empty(), now) == m.apply(
            e.command(),
            now,
        ));
    } else {
        assert(log.push(e).drop_first() =~= log.drop_first().push(e));
        lemma_replay_push(m.apply(log[0].command(), now), log.drop_first(), e, now);
    }
}

/// The record that a write leaves does, on replay at the same instant, what
/// the write did; a request that leaves no record changed nothing that
/// replay would have to restore, but for keys that a read found expired.
pub proof fn law_record_replays_write(m: ShardModel, cmd: CommandView, now: u64)
    ensures
        m.record(cmd) matches Some(e) ==> m.apply(e.command(), now) == m.step(cmd, now),
        m.record(cmd) is None ==> m.apply(cmd, now) == m,
{
}

/// The index holds one hint for every expiry that is set, and no other.
pub open spec fn exact(m: ShardModel) -> bool {
    hints_match(m.hints, m.ttl)
}

/// The write `cmd` falls on a key that has an expiry: it drops or replaces
/// the expiry, and the hint for it stays behind in the index.
pub open spec fn touches_armed(m: ShardModel, cmd: CommandView) -> bool {
    match cmd {
        CommandView::SetValue { key, .. } => m.ttl.contains_key(key),
        CommandView::SetEx { key, .. } => m.ttl.contains_key(key),
        CommandView::Del { key } => m.ttl.contains_key(key),
        CommandView::Expire { key, .. } => m.ttl.contains_key(key),
        _ => false,
    }
}

/// No record of `log`, replayed in order from `m` at `now`, falls on a key
/// that has an expiry at that point.
pub open spec fn calm(m: ShardModel, log: Seq<WalEntryView>, now: u64) -> bool
    decreases log.len(),
{
    log.len() == 0 || (!touches_armed(m, log[0].command()) && calm(
        m.apply(log[0].command(), now),
        log.drop_first(),
        now,
    ))
}

/// The index holds some hint more often than the TTL map bears out.
pub open spec fn surplus(m: ShardModel) -> bool {
    exists|h: Hint| #[trigger]
        m.hints.count(h) > if m.bears_out(h) {
            1nat
        } else {
            0nat
        }
}

/// A write keeps the index exact if and only if it falls on no key that
/// has an expiry; and a surplus, once there, stays.
pub proof fn lemma_apply_exact(m: ShardModel, cmd: CommandView, now: u64)
    requires
        m.inv(),
    ensures
        exact(m) && !touches_armed(m, cmd) ==> exact(m.apply(cmd, now)),
        exact(m) && touches_armed(m, cmd) ==> surplus(m.apply(cmd, now)),
        surplus(m) ==> surplus(m.apply(cmd, now)),
        surplus(m) ==> !exact(m),
{
    broadcast use vstd::multiset::group_multiset_axioms;

    let a = m.apply(cmd, now);
    if exact(m) && !touches_armed(m, cmd) {
        assert forall|h: Hint|
            #[trigger] a.hints.count(h) == if a.ttl.contains_key(h.1) && a.ttl[h.1] == h.0 {
                1nat
            } else {
                0nat
            } by {
            assert(m.hints.count(h) == if m.ttl.contains_key(h.1) && m.ttl[h.1] == h.0 {
                1nat
            } else {
                0nat
            });
        }
    }
    if exact(m) && touches_armed(m, cmd) {
        let k = cmd.key();
        let old: Hint = (m.ttl[k], k);
        assert(m.hints.count(old) == 1);
        assert(a.hints.count(old) > if a.bears_out(old) {
            1nat
        } else {
            0nat
        });
    }
    if surplus(m) {
        let h = choose|h: Hint| #[trigger]
            m.hints.count(h) > if m.bears_out(h) {
                1nat
            } else {
                0nat
            };
        assert(a.hints.count(h) > if a.bears_out(h) {
            1nat
        } else {
            0nat
        });
        assert(m.hints.count(h) != if m.ttl.contains_key(h.1) && m.ttl[h.1] == h.0 {
            1nat
        } else {
            0nat
        });
    }
}

/// After a replay that began with an exact index, the index holds exactly
/// one hint per expiry if and only if no record fell on a key that had an
/// expiry when its turn came. A log of records for keys without expiry, and
/// the empty log before all, leave the index exact.
pub proof fn law_replay_exact(m: ShardModel, log: Seq<WalEntryView>, now: u64)
    requires
        m.inv(),
        exact(m) || surplus(m),
    ensures
        exact(m) ==> (exact(m.replay(log, now)) <==> calm(m, log, now)),
        surplus(m) ==> surplus(m.replay(log, now)) && !exact(m.replay(log, now)),
    decreases log.len(),
{
    lemma_apply_exact(m, CommandView::Ping, now);
    if log.len() > 0 {
        let cmd = log[0].command();
        let next = m.apply(cmd, now);
        lemma_apply_exact(m, cmd, now);
        crate::model::lemma_step_keeps_inv(m, cmd, now);
        law_replay_exact(next, log.drop_first(), now);
    }
}

} // verus!
