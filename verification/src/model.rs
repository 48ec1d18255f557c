//! What a shard is, mathematically: two maps and a multiset of hints, and
//! the transitions that requests, replay and the periodic sweep perform on
//! them.
use vstd::prelude::*;
use vstd::multiset::Multiset;
use crate::command::{CommandView, ReplyView, WalEntryView};
use crate::expiry::least;
use crate::order::Hint;

verus! {

/// At most this many hints leave the index in one sweep.
pub const SWEEP_CAP: usize = 200;

/// The instant at which a key set at `now` with `ttl` seconds expires. An
/// instant past the largest one that a `u64` holds is that largest one.
pub open spec fn deadline(now: u64, ttl: u64) -> u64 {
    if now + ttl * 1000 <= u64::MAX {
        (now + ttl * 1000) as u64
    } else {
        u64::MAX
    }
}

/// The state of one shard.
pub struct ShardModel {
    /// The value of every key that holds one.
    pub data: Map<Seq<char>, Seq<char>>,
    /// The expiry instant of every key that has one.
    pub ttl: Map<Seq<char>, u64>,
    /// The expiry index. It may hold hints that `ttl` no longer bears out.
    pub hints: Multiset<Hint>,
}

impl ShardModel {
    /// The state of a shard that has seen nothing.
    pub open spec fn empty() -> ShardModel {
        ShardModel { data: Map::empty(), ttl: Map::empty(), hints: Multiset::empty() }
    }

    /// Only keys that hold a value have an expiry, and the index holds a
    /// hint for every expiry that is set.
    pub open spec fn inv(self) -> bool {
        &&& self.ttl.dom().subset_of(self.data.dom())
        &&& forall|k: Seq<char>| #[trigger]
            self.ttl.contains_key(k) ==> self.hints.count((self.ttl[k], k)) > 0
    }

    /// The expiry of `k` has passed at `now`.
    pub open spec fn is_due(self, k: Seq<char>, now: u64) -> bool {
        self.ttl.contains_key(k) && self.ttl[k] <= now
    }

    /// The state without `k`. The index is left as it is.
    pub open spec fn purge(self, k: Seq<char>) -> ShardModel {
        ShardModel { data: self.data.remove(k), ttl: self.ttl.remove(k), hints: self.hints }
    }

    /// Lazy expiration: the state as a read of `k` at `now` leaves it.
    pub open spec fn settle(self, k: Seq<char>, now: u64) -> ShardModel {
        if self.is_due(k, now) {
            self.purge(k)
        } else {
            self
        }
    }

    /// The state with `k` expiring at `at`, and a hint for it in the index.
    pub open spec fn arm(self, k: Seq<char>, at: u64) -> ShardModel {
        ShardModel { data: self.data, ttl: self.ttl.insert(k, at), hints: self.hints.insert((at, k)) }
    }

    /// The effect of a write at `now`; a read leaves the state as it is. This
    /// is what replaying a log record does.
    pub open spec fn apply(self, cmd: CommandView, now: u64) -> ShardModel {
        match cmd {
            CommandView::SetValue { key, value } => ShardModel {
                data: self.data.insert(key, value),
                ttl: self.ttl.remove(key),
                hints: self.hints,
            },
            CommandView::SetEx { key, value, ttl } => ShardModel {
                data: self.data.insert(key, value),
                ttl: self.ttl,
                hints: self.hints,
            }.arm(key, deadline(now, ttl)),
            CommandView::Expire { key, ttl } => if self.data.contains_key(key) {
                self.arm(key, deadline(now, ttl))
            } else {
                self
            },
            CommandView::Del { key } => self.purge(key),
            _ => self,
        }
    }

    /// The state after the request `cmd` was served at `now`: a write is
    /// applied, `Get` and `Ttl` expire their key lazily, `Ex` and `Ping`
    /// change nothing.
    pub open spec fn step(self, cmd: CommandView, now: u64) -> ShardModel {
        match cmd {
            CommandView::Get { key } => self.settle(key, now),
            CommandView::Ttl { key } => self.settle(key, now),
            _ => self.apply(cmd, now),
        }
    }

    /// The reply to the request `cmd` served at `now`.
    pub open spec fn reply(self, cmd: CommandView, now: u64) -> ReplyView {
        match cmd {
            CommandView::Ping => ReplyView::Pong,
            CommandView::SetValue { .. } => ReplyView::Done,
            CommandView::SetEx { .. } => ReplyView::Done,
            CommandView::Get { key } => if self.data.contains_key(key) && !self.is_due(key, now) {
                ReplyView::Value(self.data[key])
            } else {
                ReplyView::Nil
            },
            CommandView::Del { key } => if self.data.contains_key(key) {
                ReplyView::Integer(1)
            } else {
                ReplyView::Integer(0)
            },
            CommandView::Ex { key } => if self.data.contains_key(key) {
                ReplyView::Integer(1)
            } else {
                ReplyView::Integer(0)
            },
            CommandView::Expire { key, .. } => if self.data.contains_key(key) {
                ReplyView::Integer(1)
            } else {
                ReplyView::Integer(0)
            },
            CommandView::Ttl { key } => if !self.data.contains_key(key) || self.is_due(key, now) {
                ReplyView::Integer(-2)
            } else if self.ttl.contains_key(key) {
                ReplyView::Integer((self.ttl[key] - now) / 1000)
            } else {
                ReplyView::Integer(-1)
            },
        }
    }

    /// The log record that the request `cmd` must leave before it is
    /// answered, if it must leave one.
    pub open spec fn record(self, cmd: CommandView) -> Option<WalEntryView> {
        match cmd {
            CommandView::SetValue { key, value } => Some(WalEntryView::SetValue { key, value }),
            CommandView::SetEx { key, value, ttl } => Some(WalEntryView::SetEx { key, value, ttl }),
            CommandView::Del { key } => Some(WalEntryView::Del { key }),
            CommandView::Expire { key, ttl } => if self.data.contains_key(key) {
                Some(WalEntryView::Expire { key, ttl })
            } else {
                None
            },
            _ => None,
        }
    }

    /// The hint `h` still says when its key expires.
    pub open spec fn bears_out(self, h: Hint) -> bool {
        self.ttl.contains_key(h.1) && self.ttl[h.1] == h.0
    }

    /// The state after the hint `h` left the index: its key is gone if the
    /// hint still held, and nothing but the index changed if it was stale.
    pub open spec fn reap(self, h: Hint) -> ShardModel {
        let rest = ShardModel { data: self.data, ttl: self.ttl, hints: self.hints.remove(h) };
        if self.bears_out(h) {
            rest.purge(h.1)
        } else {
            rest
        }
    }

    /// Active expiration: the state after a sweep at `now` that takes at most
    /// `budget` hints out of the index, least first, and stops at the first
    /// one that is not yet due.
    pub open spec fn sweep(self, now: u64, budget: nat) -> ShardModel
        decreases budget,
    {
        if budget == 0 || self.hints.len() == 0 || least(self.hints).0 > now {
            self
        } else {
            self.reap(least(self.hints)).sweep(now, (budget - 1) as nat)
        }
    }

    /// The state after the log records `log` were replayed in order at `now`.
    pub open spec fn replay(self, log: Seq<WalEntryView>, now: u64) -> ShardModel
        decreases log.len(),
    {
        if log.len() == 0 {
            self
        } else {
            self.apply(log[0].command(), now).replay(log.drop_first(), now)
        }
    }
}

/// A request keeps the invariant of the state, served or replayed.
pub proof fn lemma_step_keeps_inv(m: ShardModel, cmd: CommandView, now: u64)
    requires
        m.inv(),
    ensures
        m.apply(cmd, now).inv(),
        m.step(cmd, now).inv(),
{
    broadcast use vstd::multiset::group_multiset_axioms;

    let a = m.apply(cmd, now);
    assert forall|k: Seq<char>| #[trigger] a.ttl.contains_key(k) implies a.hints.count(
        (a.ttl[k], k),
    ) > 0 by {
        if m.ttl.contains_key(k) {
            assert(m.hints.count((m.ttl[k], k)) > 0);
        }
    }
}

/// A hint that leaves the index keeps the invariant of the state.
pub proof fn lemma_reap_keeps_inv(m: ShardModel, h: Hint)
    requires
        m.inv(),
    ensures
        m.reap(h).inv(),
{
    broadcast use vstd::multiset::group_multiset_axioms;

    let r = m.reap(h);
    assert forall|k: Seq<char>| #[trigger] r.ttl.contains_key(k) implies r.hints.count(
        (r.ttl[k], k),
    ) > 0 by {
        assert(m.ttl.contains_key(k));
        assert(m.hints.count((m.ttl[k], k)) > 0);
        assert((m.ttl[k], k) != h);
    }
}

/// A sweep keeps the invariant of the state.
pub proof fn lemma_sweep_keeps_inv(m: ShardModel, now: u64, budget: nat)
    requires
        m.inv(),
    ensures
        m.sweep(now, budget).inv(),
    decreases budget,
{
    if budget == 0 || m.hints.len() == 0 || least(m.hints).0 > now {
    } else {
        let h = least(m.hints);
        lemma_reap_keeps_inv(m, h);
        lemma_sweep_keeps_inv(m.reap(h), now, (budget - 1) as nat);
    }
}

/// Replay keeps the invariant of the state.
pub proof fn lemma_replay_keeps_inv(m: ShardModel, log: Seq<WalEntryView>, now: u64)
    requires
        m.inv(),
    ensures
        m.replay(log, now).inv(),
    decreases log.len(),
{
    if log.len() > 0 {
        lemma_step_keeps_inv(m, log[0].command(), now);
        lemma_replay_keeps_inv(m.apply(log[0].command(), now), log.drop_first(), now);
    }
}

} // verus!
