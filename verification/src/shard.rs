//! The handle on a running shard.
use vstd::prelude::*;
use tokio::sync::mpsc::Sender;
use crate::command::Command;

verus! {

/// `tokio::sync::mpsc::Sender`: the bounded sink of a shard's requests. The
/// crate holds it for the router's callers and never looks into it.
#[verifier::external_type_specification]
#[verifier::external_body]
#[verifier::reject_recursive_types(T)]
pub struct ExRequestSink<T>(Sender<T>);

/// A shard as the router sees it: its number and the sink for its requests.
pub struct Shard {
    id: usize,
    pub cmd_tx: Sender<Command>,
}

impl Shard {
    /// The number of the shard.
    pub closed spec fn spec_id(&self) -> usize {
        self.id
    }

    /// The sink for the requests of the shard.
    pub closed spec fn sink(&self) -> Sender<Command> {
        self.cmd_tx
    }

    /// The handle on shard `id` with the request sink `cmd_tx`.
    pub fn new(id: usize, cmd_tx: Sender<Command>) -> (r: Self)
        ensures
            r.spec_id() == id,
            r.sink() == cmd_tx,
    {
        Shard { id, cmd_tx }
    }

    /// The number of the shard.
    #[verifier::when_used_as_spec(spec_id)]
    pub fn id(&self) -> (id: usize)
        ensures
            id == self.spec_id(),
    {
        self.id
    }
}

} // verus!
