//! The decisions of a shard's engine: what each thing that can happen to it
//! does to the state, and what the engine has to do next.
//!
//! The loop that waits for the events and carries out the actions lies
//! outside this crate. It owns the timers, the request channel, the channel
//! to the log writer and the snapshot writer.
use vstd::prelude::*;
use crate::apply::ShardState;
use crate::command::{CommandView, ParsedCommand, Reply, WalCommand};
use crate::model::{ShardModel, SWEEP_CAP};
use crate::snapshot::{pairs_map, snapshot, SnapshotImage};
use crate::wal::{encode_entry, entry_bytes};

verus! {

/// Something that happens to a running shard.
pub enum EngineEvent {
    /// The cleanup timer fired.
    CleanupTick,
    /// The snapshot timer fired.
    SnapshotTick,
    /// A request arrived.
    Request(ParsedCommand),
    /// The snapshot writer finished; the flag says whether the snapshot is
    /// in place.
    SnapshotDone(bool),
}

/// What the engine has to do after an event.
pub enum EngineAction {
    /// Nothing.
    Idle,
    /// Hand this image to the snapshot writer, wait for it, and report the
    /// outcome as [`EngineEvent::SnapshotDone`].
    SaveSnapshot(SnapshotImage),
    /// Send `log`, if there is one, to the log writer, and only then send
    /// `reply` to whoever asked.
    Respond { log: Option<WalCommand>, reply: Reply },
    /// Send this message to the log writer.
    Log(WalCommand),
}

/// What an [`EngineEvent`] means.
pub enum EngineEventView {
    CleanupTick,
    SnapshotTick,
    Request(CommandView),
    SnapshotDone(bool),
}

impl View for EngineEvent {
    type V = EngineEventView;

    open spec fn view(&self) -> EngineEventView {
        match *self {
            EngineEvent::CleanupTick => EngineEventView::CleanupTick,
            EngineEvent::SnapshotTick => EngineEventView::SnapshotTick,
            EngineEvent::Request(cmd) => EngineEventView::Request(cmd@),
            EngineEvent::SnapshotDone(saved) => EngineEventView::SnapshotDone(saved),
        }
    }
}

/// The state after `event` at `now`: a cleanup tick sweeps, a request is
/// served, and the snapshot events leave the state as it is.
pub open spec fn state_after(m: ShardModel, event: EngineEventView, now: u64) -> ShardModel {
    match event {
        EngineEventView::CleanupTick => m.sweep(now, SWEEP_CAP as nat),
        EngineEventView::Request(cmd) => m.step(cmd, now),
        _ => m,
    }
}

/// The bytes that have to reach the log writer before the reply to `cmd`
/// is sent, if any have to.
pub open spec fn logged_bytes(m: ShardModel, cmd: CommandView) -> Option<Seq<u8>> {
    match m.record(cmd) {
        Some(e) => Some(entry_bytes(e)),
        None => None,
    }
}

/// `action` is what the engine has to do after `event` at `now` in the
/// state `m`.
pub open spec fn action_fits(
    m: ShardModel,
    event: EngineEventView,
    now: u64,
    action: EngineAction,
) -> bool {
    match event {
        EngineEventView::CleanupTick => action is Idle,
        EngineEventView::SnapshotTick => {
            &&& action matches EngineAction::SaveSnapshot(img)
            &&& pairs_map(img.data_pairs()) == m.data
            &&& pairs_map(img.ttl_pairs()) == m.ttl
        },
        EngineEventView::Request(cmd) => {
            &&& action matches EngineAction::Respond { log, reply }
            &&& reply@ == m.reply(cmd, now)
            &&& match logged_bytes(m, cmd) {
                Some(bytes) => log matches Some(WalCommand::Write(b)) && b@ == bytes,
                None => log is None,
            }
        },
        EngineEventView::SnapshotDone(saved) => if saved {
            action matches EngineAction::Log(WalCommand::Truncate)
        } else {
            action is Idle
        },
    }
}

/// Takes one event: changes the state and says what to do next. The log is
/// cut back only after a snapshot that is in place; a snapshot that failed
/// leaves the log as it is, so that replay still covers what the snapshot
/// lacks.
pub fn on_event(state: &mut ShardState, event: EngineEvent, now: u64) -> (action: EngineAction)
    requires
        old(state).wf(),
    ensures
        final(state).wf(),
        final(state)@ == state_after(old(state)@, event@, now),
        action_fits(old(state)@, event@, now, action),
{
    match event {
        EngineEvent::CleanupTick => {
            state.expire_due(now);
            EngineAction::Idle
        },
        EngineEvent::SnapshotTick => EngineAction::SaveSnapshot(snapshot(state)),
        EngineEvent::Request(cmd) => {
            let (reply, record) = state.handle(cmd, now);
            let log = match record {
                Some(e) => Some(WalCommand::Write(encode_entry(&e))),
                None => None,
            };
            EngineAction::Respond { log, reply }
        },
        EngineEvent::SnapshotDone(saved) => {
            if saved {
                EngineAction::Log(WalCommand::Truncate)
            } else {
                EngineAction::Idle
            }
        },
    }
}

} // verus!
