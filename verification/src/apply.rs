//! The state of a shard and the transitions on it: serving a request,
//! replaying a write, and the periodic sweep of expired keys.
use vstd::prelude::*;
use std::time::{Duration, SystemTime, SystemTimeError, UNIX_EPOCH};
use crate::command::{CommandView, ParsedCommand, Reply, WalEntry, WalEntryView};
use crate::expiry::ExpiryIndex;
use crate::model::{
    deadline,
    lemma_reap_keeps_inv,
    lemma_step_keeps_inv,
    ShardModel,
    SWEEP_CAP,
};
use crate::table::KeyTable;

verus! {

/// `std::time::SystemTime`: a clock reading, carried as it is. Nothing is
/// known of what it holds.
#[verifier::external_type_specification]
#[verifier::external_body]
pub struct ExSystemTime(SystemTime);

/// `std::time::SystemTimeError`: what a clock reading before the epoch
/// gives. Nothing is known of what it holds.
#[verifier::external_type_specification]
#[verifier::external_body]
pub struct ExSystemTimeError(SystemTimeError);

/// `SystemTime::now`: the reading of the wall clock. Nothing is claimed of
/// it.
#[verifier::external_body]
fn wall_clock() -> SystemTime {
    SystemTime::now()
}

/// `SystemTime::duration_since`, taken from the Unix epoch: the time that
/// has passed since then, or an error for a reading that lies before it.
/// Nothing is claimed of either.
#[verifier::external_body]
fn since_epoch(reading: &SystemTime) -> Result<Duration, SystemTimeError> {
    reading.duration_since(UNIX_EPOCH)
}

/// `Duration::as_millis`: the whole milliseconds in a duration. Nothing is
/// claimed of their number.
#[verifier::external_body]
fn whole_millis(d: &Duration) -> u128 {
    d.as_millis()
}

/// The instant that a clock reading stands for: the low 64 bits of the
/// milliseconds since the epoch, and 0 for a reading before the epoch.
pub open spec fn instant_of(elapsed: Option<u128>) -> u64 {
    match elapsed {
        Some(ms) => (ms % 0x1_0000_0000_0000_0000) as u64,
        None => 0,
    }
}

/// Turns the milliseconds since the epoch, where the clock gave any, into
/// an instant.
pub fn millis_to_instant(elapsed: Option<u128>) -> (at: u64)
    ensures
        at == instant_of(elapsed),
{
    match elapsed {
        Some(ms) => {
            let low: u128 = ms % 0x1_0000_0000_0000_0000;
            low as u64
        },
        None => 0,
    }
}

/// The wall clock in milliseconds since the Unix epoch.
pub fn now_ms() -> u64 {
    let reading = wall_clock();
    let elapsed: Option<u128> = match since_epoch(&reading) {
        Ok(d) => Some(whole_millis(&d)),
        Err(_) => None,
    };
    millis_to_instant(elapsed)
}

/// Computes [`deadline`].
pub fn deadline_at(now: u64, ttl: u64) -> (at: u64)
    ensures
        at == deadline(now, ttl),
{
    match ttl.checked_mul(1000) {
        Some(ms) => now.saturating_add(ms),
        None => u64::MAX,
    }
}

/// The view of a log record that may be absent.
pub open spec fn record_view(r: Option<WalEntry>) -> Option<WalEntryView> {
    match r {
        Some(e) => Some(e@),
        None => None,
    }
}

/// What one shard holds: its keys and its expiry index.
pub struct ShardState {
    table: KeyTable,
    index: ExpiryIndex,
}

impl View for ShardState {
    type V = ShardModel;

    closed spec fn view(&self) -> ShardModel {
        ShardModel { data: self.table.data(), ttl: self.table.ttl(), hints: self.index@ }
    }
}

impl ShardState {
    /// The parts are well formed and the invariant of the model holds.
    pub closed spec fn wf(&self) -> bool {
        &&& self.table.wf()
        &&& self.index.wf()
        &&& self@.inv()
    }

    /// A well-formed state satisfies the invariant of its model.
    pub proof fn lemma_wf_inv(&self)
        requires
            self.wf(),
        ensures
            self@.inv(),
    {
    }

    /// The state of a shard that has seen nothing.
    pub fn new() -> (r: Self)
        ensures
            r.wf(),
            r@ == ShardModel::empty(),
    {
        ShardState { table: KeyTable::new(), index: ExpiryIndex::new() }
    }

    /// Puts a table and an index together, where the index holds a hint
    /// for every expiry that the table states.
    pub fn from_parts(table: KeyTable, index: ExpiryIndex) -> (r: Self)
        requires
            table.wf(),
            index.wf(),
            forall|k: Seq<char>| #[trigger]
                table.ttl().contains_key(k) ==> index@.count((table.ttl()[k], k)) > 0,
        ensures
            r.wf(),
            r@ == (ShardModel { data: table.data(), ttl: table.ttl(), hints: index@ }),
    {
        proof {
            table.lemma_ttl_within_data();
        }
        ShardState { table, index }
    }

    /// The keys with their values and expiry instants.
    pub fn table(&self) -> (t: &KeyTable)
        requires
            self.wf(),
        ensures
            t.wf(),
            t.data() == self@.data,
            t.ttl() == self@.ttl,
    {
        &self.table
    }

    /// How many keys hold a value.
    pub fn len(&self) -> (n: usize)
        requires
            self.wf(),
        ensures
            n == self@.data.dom().len(),
    {
        self.table.len()
    }

    /// How many hints the expiry index holds.
    pub fn pending(&self) -> (n: usize)
        ensures
            n == self@.hints.len(),
    {
        self.index.len()
    }

    /// Lazy expiration of `key` at `now`.
    fn settle(&mut self, key: &str, now: u64)
        requires
            old(self).wf(),
        ensures
            final(self).wf(),
            final(self)@ == old(self)@.settle(key@, now),
    {
        let due = match self.table.expiry(key) {
            Some(at) => at <= now,
            None => false,
        };
        if due {
            self.table.remove(key);
        }
        proof {
            lemma_step_keeps_inv(old(self)@, CommandView::Get { key: key@ }, now);
        }
    }

    /// Performs the write `cmd` at `now`, as replay of a log record does. A
    /// read changes nothing.
    pub fn apply(&mut self, cmd: ParsedCommand, now: u64)
        requires
            old(self).wf(),
        ensures
            final(self).wf(),
            final(self)@ == old(self)@.apply(cmd@, now),
    {
        proof {
            lemma_step_keeps_inv(old(self)@, cmd@, now);
        }
        match cmd {
            ParsedCommand::SetValue { key, value } => {
                self.table.put(key, value, None);
            },
            ParsedCommand::SetEx { key, value, ttl } => {
                let at = deadline_at(now, ttl);
                let hint_key = key.clone();
                self.table.put(key, value, Some(at));
                self.index.push(at, hint_key);
            },
            ParsedCommand::Expire { key, ttl } => {
                let at = deadline_at(now, ttl);
                if self.table.set_expiry(key.as_str(), at) {
                    self.index.push(at, key);
                }
            },
            ParsedCommand::Del { key } => {
                self.table.remove(key.as_str());
            },
            _ => {},
        }
    }

    /// Serves the request `cmd` at `now`: changes the state, and returns the
    /// reply together with the log record that has to reach the log writer
    /// before the reply is sent.
    pub fn handle(&mut self, cmd: ParsedCommand, now: u64) -> (r: (Reply, Option<WalEntry>))
        requires
            old(self).wf(),
        ensures
            final(self).wf(),
            final(self)@ == old(self)@.step(cmd@, now),
            r.0@ == old(self)@.reply(cmd@, now),
            record_view(r.1) == old(self)@.record(cmd@),
    {
        match cmd {
            ParsedCommand::Ping => (Reply::Pong, None),
            ParsedCommand::SetValue { key, value } => {
                let entry = WalEntry::SetValue { key: key.clone(), value: value.clone() };
                self.apply(ParsedCommand::SetValue { key, value }, now);
                (Reply::Done, Some(entry))
            },
            ParsedCommand::SetEx { key, value, ttl } => {
                let entry = WalEntry::SetEx { key: key.clone(), value: value.clone(), ttl };
                self.apply(ParsedCommand::SetEx { key, value, ttl }, now);
                (Reply::Done, Some(entry))
            },
            ParsedCommand::Get { key } => {
                self.settle(key.as_str(), now);
                match self.table.get(key.as_str()) {
                    Some(v) => (Reply::Value(v.clone()), None),
                    None => (Reply::Nil, None),
                }
            },
            ParsedCommand::Del { key } => {
                let entry = WalEntry::Del { key: key.clone() };
                let held = self.table.contains(key.as_str());
                self.apply(ParsedCommand::Del { key }, now);
                (Reply::Integer(if held { 1 } else { 0 }), Some(entry))
            },
            ParsedCommand::Ex { key } => {
                let held = self.table.contains(key.as_str());
                (Reply::Integer(if held { 1 } else { 0 }), None)
            },
            ParsedCommand::Expire { key, ttl } => {
                if self.table.contains(key.as_str()) {
                    let entry = WalEntry::Expire { key: key.clone(), ttl };
                    self.apply(ParsedCommand::Expire { key, ttl }, now);
                    (Reply::Integer(1), Some(entry))
                } else {
                    (Reply::Integer(0), None)
                }
            },
            ParsedCommand::Ttl { key } => {
                let held = self.table.contains(key.as_str());
                let at = self.table.expiry(key.as_str());
                self.settle(key.as_str(), now);
                if !held {
                    (Reply::Integer(-2), None)
                } else {
                    match at {
                        Some(at) => if at <= now {
                            (Reply::Integer(-2), None)
                        } else {
                            (Reply::Integer(((at - now) / 1000) as i64), None)
                        },
                        None => (Reply::Integer(-1), None),
                    }
                }
            },
        }
    }

    /// Active expiration at `now`: takes at most [`SWEEP_CAP`] due hints out
    /// of the index and removes the keys whose expiry they still state.
    /// Returns how many hints were taken out.
    pub fn expire_due(&mut self, now: u64) -> (taken: usize)
        requires
            old(self).wf(),
        ensures
            final(self).wf(),
            final(self)@ == old(self)@.sweep(now, SWEEP_CAP as nat),
            taken <= SWEEP_CAP,
            taken == old(self)@.hints.len() - final(self)@.hints.len(),
    {
        let mut taken: usize = 0;
        while taken < SWEEP_CAP
            invariant
                self.wf(),
                taken <= SWEEP_CAP,
                self@.sweep(now, (SWEEP_CAP - taken) as nat) == old(self)@.sweep(
                    now,
                    SWEEP_CAP as nat,
                ),
                taken == old(self)@.hints.len() - self@.hints.len(),
            ensures
                self.wf(),
                taken <= SWEEP_CAP,
                self@ == old(self)@.sweep(now, SWEEP_CAP as nat),
                taken == old(self)@.hints.len() - self@.hints.len(),
            decreases SWEEP_CAP - taken,
        {
            let due = match self.index.peek() {
                Some(at) => at <= now,
                None => false,
            };
            if !due {
                break ;
            }
            let ghost before = self@;
            let popped = self.index.pop();
            let (at, key) = popped.unwrap();
            proof {
                broadcast use vstd::multiset::group_multiset_axioms;

                lemma_reap_keeps_inv(before, (at, key@));
            }
            let live = match self.table.expiry(key.as_str()) {
                Some(e) => e == at,
                None => false,
            };
            if live {
                self.table.remove(key.as_str());
            }
            assert(self@ == before.reap((at, key@)));
            taken = taken + 1;
        }
        taken
    }
}

/// Performs the write `cmd` on `state` at the instant that the wall clock
/// shows. A read changes nothing.
pub fn apply_db(state: &mut ShardState, cmd: ParsedCommand)
    requires
        old(state).wf(),
    ensures
        final(state).wf(),
        exists|now: u64| final(state)@ == #[trigger] old(state)@.apply(cmd@, now),
{
    let now = now_ms();
    state.apply(cmd, now);
}

} // verus!
