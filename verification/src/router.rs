//! Routing: which shard a key belongs to.
use vstd::prelude::*;
use vstd::string::StringSliceAdditionalSpecFns;
use vstd::utf8::encode_utf8;
use crate::command::Command;
use crate::shard::Shard;

verus! {

/// The 64-bit Fx hash of a byte string, as `fxhash` computes it for a slice
/// of bytes on the machine that runs the shard. It reads the bytes in words
/// of the machine's byte order, so it is one function per kind of machine;
/// nothing in this crate compares its values across machines.
pub uninterp spec fn fx_hash64(bytes: Seq<u8>) -> u64;

/// `fxhash::hash64` on the UTF-8 bytes of a key: a function of those bytes
/// alone, with no seed and no state. Which number it is, is not stated.
#[verifier::external_body]
fn key_hash(key: &str) -> (h: u64)
    ensures
        h == fx_hash64(key.spec_bytes()),
{
    fxhash::hash64(key.as_bytes())
}

/// The shard, out of `shard_count`, that a key with the hash `hash` belongs
/// to: the hash, cut to the width of an index, modulo the number of shards.
pub open spec fn shard_of_hash(hash: u64, shard_count: usize) -> int {
    ((hash as usize) as int) % (shard_count as int)
}

/// The shard, out of `shard_count`, that `key` belongs to.
pub open spec fn shard_of_key(key: Seq<char>, shard_count: usize) -> int {
    shard_of_hash(fx_hash64(encode_utf8(key)), shard_count)
}

/// Computes [`shard_of_hash`].
pub fn shard_for_hash(hash: u64, shard_count: usize) -> (id: usize)
    requires
        shard_count > 0,
    ensures
        id == shard_of_hash(hash, shard_count),
        id < shard_count,
{
    (#[verifier::truncate] (hash as usize)) % shard_count
}

/// Dispatches requests to shards by the hash of their key.
pub struct ShardRouter {
    shards: Vec<Shard>,
    shard_count: usize,
}

impl ShardRouter {
    /// The shards, in the order of their numbers.
    pub closed spec fn shards(&self) -> Seq<Shard> {
        self.shards@
    }

    /// The number of shards is the one that was recorded.
    pub closed spec fn wf(&self) -> bool {
        self.shard_count == self.shards@.len()
    }

    /// A router over `shards`.
    pub fn new(shards: Vec<Shard>) -> (r: Self)
        ensures
            r.wf(),
            r.shards() == shards@,
    {
        let shard_count = shards.len();
        ShardRouter { shards, shard_count }
    }

    /// How many shards there are.
    pub fn shard_count(&self) -> (n: usize)
        requires
            self.wf(),
        ensures
            n == self.shards().len(),
    {
        self.shard_count
    }

    /// The number of the shard that `key` belongs to.
    pub fn compute_shard_id(&self, key: &str) -> (id: usize)
        requires
            self.wf(),
            self.shards().len() > 0,
        ensures
            id == shard_of_key(key@, self.shards().len() as usize),
            id < self.shards().len(),
    {
        shard_for_hash(key_hash(key), self.shard_count)
    }

    /// The shard that has to serve `cmd`: the one its key belongs to, and
    /// the one that the empty key belongs to for a request without a key.
    pub fn shard_for(&self, cmd: &Command) -> (shard: &Shard)
        requires
            self.wf(),
            self.shards().len() > 0,
        ensures
            *shard == self.shards()[shard_of_key(cmd@.key(), self.shards().len() as usize)],
    {
        let id = self.compute_shard_id(cmd.primary_key());
        &self.shards[id]
    }
}

/// Requests with the same key go to the same shard, whatever else they
/// say or ask for.
pub proof fn law_same_key_same_shard(
    a: crate::command::CommandView,
    b: crate::command::CommandView,
    shard_count: usize,
)
    requires
        a.key() == b.key(),
    ensures
        shard_of_key(a.key(), shard_count) == shard_of_key(b.key(), shard_count),
{
}

} // verus!
