//! Snapshots: the image of a shard that is written to disk, how a shard is
//! rebuilt from one, and recovery from a snapshot and the log that was
//! written after it.
use vstd::prelude::*;
use vstd::multiset::Multiset;
use std::collections::HashMap;
use crate::apply::ShardState;
use crate::expiry::ExpiryIndex;
use crate::model::ShardModel;
use crate::order::Hint;
use crate::table::{KeyTable, Slot};
use crate::wal::{decode_entry, read_log};

verus! {

/// The map that a list of pairs stands for: a later pair replaces an
/// earlier one with the same key.
pub open spec fn pairs_map<V>(s: Seq<(Seq<char>, V)>) -> Map<Seq<char>, V>
    decreases s.len(),
{
    if s.len() == 0 {
        Map::empty()
    } else {
        pairs_map(s.drop_last()).insert(s.last().0, s.last().1)
    }
}

/// The hints of a shard whose index holds one hint for every expiry that
/// is set, and no other.
pub open spec fn fresh_hints(ttl: Map<Seq<char>, u64>) -> Multiset<Hint> {
    choose|m: Multiset<Hint>| hints_match(m, ttl)
}

/// `m` holds `(at, k)` once where `ttl` gives `k` the expiry `at`, and holds
/// nothing else.
pub open spec fn hints_match(m: Multiset<Hint>, ttl: Map<Seq<char>, u64>) -> bool {
    forall|h: Hint|
        #[trigger] m.count(h) == if ttl.contains_key(h.1) && ttl[h.1] == h.0 {
            1nat
        } else {
            0nat
        }
}

/// A point-in-time copy of what a shard holds: its values, and its expiry
/// instants as they stood.
pub struct SnapshotImage {
    pub data: Vec<(String, String)>,
    pub ttl: Vec<(String, u64)>,
}

impl SnapshotImage {
    /// The pairs of key and value.
    pub open spec fn data_pairs(&self) -> Seq<(Seq<char>, Seq<char>)> {
        self.data@.map_values(|p: (String, String)| (p.0@, p.1@))
    }

    /// The pairs of key and expiry instant.
    pub open spec fn ttl_pairs(&self) -> Seq<(Seq<char>, u64)> {
        self.ttl@.map_values(|p: (String, u64)| (p.0@, p.1))
    }

    /// The state that the image stands for: its values, the expiry instants
    /// of the keys that hold a value, and one hint per expiry.
    pub open spec fn model(&self) -> ShardModel {
        let data = pairs_map(self.data_pairs());
        let ttl = pairs_map(self.ttl_pairs()).restrict(data.dom());
        ShardModel { data, ttl, hints: fresh_hints(ttl) }
    }
}

/// What parsing a snapshot text as a pair of JSON objects gives: the map
/// from key to value and the map from key to expiry instant, or nothing for
/// a text of another shape.
pub uninterp spec fn json_pair(text: Seq<char>) -> Option<
    (Map<Seq<char>, Seq<char>>, Map<Seq<char>, u64>),
>;

/// What parsing a snapshot text as one JSON object gives: the map from key
/// to value, or nothing for a text of another shape.
pub uninterp spec fn json_map(text: Seq<char>) -> Option<Map<Seq<char>, Seq<char>>>;

/// `serde_json::from_str` at the type of a pair of string-keyed maps, the
/// first with string values and the second with `u64` values. The two maps
/// come back as lists of their entries, every key once, in no stated order.
#[verifier::external_body]
fn decode_pair(text: &str) -> (r: Option<SnapshotImage>)
    ensures
        r is Some == json_pair(text@) is Some,
        r matches Some(img) ==> json_pair(text@) == Some(
            (pairs_map(img.data_pairs()), pairs_map(img.ttl_pairs())),
        ),
{
    match serde_json::from_str::<(HashMap<String, String>, HashMap<String, u64>)>(text) {
        Ok((data, ttl)) => Some(
            SnapshotImage { data: data.into_iter().collect(), ttl: ttl.into_iter().collect() },
        ),
        Err(_) => None,
    }
}

/// `serde_json::from_str` at the type of a string-keyed map with string
/// values. The map comes back as the list of its entries, every key once,
/// in no stated order.
#[verifier::external_body]
fn decode_map(text: &str) -> (r: Option<Vec<(String, String)>>)
    ensures
        r is Some == json_map(text@) is Some,
        r matches Some(data) ==> json_map(text@) == Some(
            pairs_map(data@.map_values(|p: (String, String)| (p.0@, p.1@))),
        ),
{
    match serde_json::from_str::<HashMap<String, String>>(text) {
        Ok(data) => Some(data.into_iter().collect()),
        Err(_) => None,
    }
}

/// The state that a snapshot text stands for, given what parsing it as a
/// pair and as a single map gives: both maps where it is a pair; the values
/// alone, with no expiry, where it is a single map; nothing at all where it
/// is neither or where there is no text.
pub open spec fn decoded_model(
    pair: Option<(Map<Seq<char>, Seq<char>>, Map<Seq<char>, u64>)>,
    single: Option<Map<Seq<char>, Seq<char>>>,
) -> ShardModel {
    match pair {
        Some((data, ttl)) => {
            let within = ttl.restrict(data.dom());
            ShardModel { data, ttl: within, hints: fresh_hints(within) }
        },
        None => match single {
            Some(data) => ShardModel {
                data,
                ttl: Map::empty(),
                hints: fresh_hints(Map::empty()),
            },
            None => ShardModel {
                data: Map::empty(),
                ttl: Map::empty(),
                hints: fresh_hints(Map::empty()),
            },
        },
    }
}

/// The state that the snapshot text `text` stands for; `None` is a
/// snapshot that is not there.
pub open spec fn text_model(text: Option<Seq<char>>) -> ShardModel {
    match text {
        Some(t) => decoded_model(json_pair(t), json_map(t)),
        None => decoded_model(None, None),
    }
}

/// Chooses what to install from the two readings of a snapshot: the pair
/// if the text is one, else the single map with no expiry, else nothing.
pub fn choose_image(pair: Option<SnapshotImage>, single: Option<Vec<(String, String)>>) -> (img:
    SnapshotImage)
    ensures
        img.data_pairs() == match pair {
            Some(p) => p.data_pairs(),
            None => match single {
                Some(d) => d@.map_values(|p: (String, String)| (p.0@, p.1@)),
                None => Seq::empty(),
            },
        },
        img.ttl_pairs() == match pair {
            Some(p) => p.ttl_pairs(),
            None => Seq::empty(),
        },
{
    match pair {
        Some(p) => p,
        None => match single {
            Some(d) => {
                let img = SnapshotImage { data: d, ttl: Vec::new() };
                assert(img.ttl_pairs() =~= Seq::empty());
                img
            },
            None => {
                let img = SnapshotImage { data: Vec::new(), ttl: Vec::new() };
                assert(img.ttl_pairs() =~= Seq::empty());
                assert(img.data_pairs() =~= Seq::empty());
                img
            },
        },
    }
}

/// Reads a snapshot text. A text that is a pair of maps gives both; a text
/// that is a single map gives the values alone; any other text, and no
/// text, gives an empty image.
pub fn load_snapshot(text: Option<&str>) -> (img: SnapshotImage)
    ensures
        img.model() == text_model(
            match text {
                Some(t) => Some(t@),
                None => None,
            },
        ),
{
    let img = match text {
        None => choose_image(None, None),
        Some(t) => {
            let pair = decode_pair(t);
            if pair.is_some() {
                choose_image(pair, None)
            } else {
                let single = decode_map(t);
                choose_image(None, single)
            }
        },
    };
    proof {
        let data = pairs_map(img.data_pairs());
        let none = Map::<Seq<char>, u64>::empty();
        if img.ttl_pairs().len() == 0 {
            assert(pairs_map(img.ttl_pairs()).restrict(data.dom()) =~= none);
        }
    }
    img
}

/// The hint that slot `j` of a listing calls for, if it calls for one.
pub open spec fn hint_at(listing: Seq<Slot>, j: int) -> Option<Hint> {
    match listing[j].expiry {
        Some(at) => Some((at, listing[j].key@)),
        None => None,
    }
}

/// One of the first `i` slots of the listing calls for the hint `h`.
pub open spec fn listed_before(listing: Seq<Slot>, i: int, h: Hint) -> bool {
    exists|j: int| 0 <= j < i && #[trigger] hint_at(listing, j) == Some(h)
}

/// An index with one hint for every expiry that `table` states.
fn index_of(table: &KeyTable) -> (index: ExpiryIndex)
    requires
        table.wf(),
    ensures
        index.wf(),
        hints_match(index@, table.ttl()),
{
    broadcast use vstd::multiset::group_multiset_axioms;

    let mut index = ExpiryIndex::new();
    let n: usize = table.len();
    let mut i: usize = 0;
    proof {
        table.lemma_listing();
    }
    while i < n
        invariant
            i <= n,
            n == table.listing().len(),
            table.wf(),
            index.wf(),
            forall|h: Hint|
                #[trigger] index@.count(h) == if listed_before(table.listing(), i as int, h) {
                    1nat
                } else {
                    0nat
                },
        decreases n - i,
    {
        let slot = table.slot(i);
        let ghost before = index@;
        let ghost listing = table.listing();
        proof {
            table.lemma_listing();
        }
        match slot.expiry {
            Some(at) => {
                index.push(at, slot.key.clone());
                proof {
                    let new: Hint = (at, slot.key@);
                    assert(hint_at(listing, i as int) == Some(new));
                    assert(!listed_before(listing, i as int, new)) by {
                        if listed_before(listing, i as int, new) {
                            let j = choose|j: int|
                                0 <= j < i && #[trigger] hint_at(listing, j) == Some(new);
                            assert(listing[j].key@ == listing[i as int].key@);
                        }
                    }
                    assert forall|h: Hint|
                        #[trigger] index@.count(h) == if listed_before(listing, i + 1, h) {
                            1nat
                        } else {
                            0nat
                        } by {
                        if listed_before(listing, i as int, h) {
                            let j = choose|j: int|
                                0 <= j < i && #[trigger] hint_at(listing, j) == Some(h);
                            assert(0 <= j < i + 1 && hint_at(listing, j) == Some(h));
                            assert(h != new);
                        } else if h == new {
                            assert(listed_before(listing, i + 1, h));
                        } else {
                            if listed_before(listing, i + 1, h) {
                                let j = choose|j: int|
                                    0 <= j < i + 1 && #[trigger] hint_at(listing, j) == Some(h);
                                assert(j < i);
                            }
                        }
                    }
                }
            },
            None => {
                proof {
                    assert(hint_at(listing, i as int) is None);
                    assert forall|h: Hint|
                        listed_before(listing, i + 1, h) == listed_before(listing, i as int, h) by {
                        if listed_before(listing, i + 1, h) {
                            let j = choose|j: int|
                                0 <= j < i + 1 && #[trigger] hint_at(listing, j) == Some(h);
                            assert(j < i);
                        }
                        if listed_before(listing, i as int, h) {
                            let j = choose|j: int|
                                0 <= j < i && #[trigger] hint_at(listing, j) == Some(h);
                            assert(0 <= j < i + 1 && hint_at(listing, j) == Some(h));
                        }
                    }
                }
            },
        }
        i = i + 1;
    }
    proof {
        table.lemma_listing();
        let listing = table.listing();
        let ttl = table.ttl();
        assert forall|h: Hint|
            listed_before(listing, n as int, h) == (ttl.contains_key(h.1) && ttl[h.1] == h.0) by {
            if listed_before(listing, n as int, h) {
                let j = choose|j: int| 0 <= j < n && #[trigger] hint_at(listing, j) == Some(h);
                assert(listing[j].key@ == h.1);
            }
            if ttl.contains_key(h.1) && ttl[h.1] == h.0 {
                table.lemma_ttl_within_data();
                assert(table.data().contains_key(h.1));
                let j = choose|j: int| 0 <= j < listing.len() && (#[trigger] listing[j]).key@ == h.1;
                assert(hint_at(listing, j) == Some(h));
            }
        }
    }
    index
}

/// A multiset of hints is fixed by what it has to hold.
pub proof fn lemma_fresh_hints(m: Multiset<Hint>, ttl: Map<Seq<char>, u64>)
    requires
        hints_match(m, ttl),
    ensures
        m == fresh_hints(ttl),
{
    let f = fresh_hints(ttl);
    assert(hints_match(f, ttl));
    assert forall|h: Hint| m.count(h) == f.count(h) by {
        assert(m.count(h) == if ttl.contains_key(h.1) && ttl[h.1] == h.0 {
            1nat
        } else {
            0nat
        });
        assert(f.count(h) == if ttl.contains_key(h.1) && ttl[h.1] == h.0 {
            1nat
        } else {
            0nat
        });
    }
    assert(m =~= f);
}

/// Builds the state that an image stands for: the values, then the expiry
/// instants of the keys that hold a value, then one hint for each of those.
pub fn restore(img: &SnapshotImage) -> (state: ShardState)
    ensures
        state.wf(),
        state@ == img.model(),
        hints_match(state@.hints, state@.ttl),
{
    let mut table = KeyTable::new();
    let mut i: usize = 0;
    let ghost pairs = img.data_pairs();
    assert(pairs.take(0) =~= Seq::empty());
    while i < img.data.len()
        invariant
            i <= img.data.len(),
            pairs == img.data_pairs(),
            table.wf(),
            table.data() == pairs_map(pairs.take(i as int)),
            table.ttl() == Map::<Seq<char>, u64>::empty(),
        decreases img.data.len() - i,
    {
        let key = img.data[i].0.clone();
        let value = img.data[i].1.clone();
        table.put(key, value, None);
        proof {
            assert(pairs.take(i + 1).drop_last() =~= pairs.take(i as int));
            assert(table.ttl() =~= Map::<Seq<char>, u64>::empty());
        }
        i = i + 1;
    }
    assert(pairs.take(i as int) =~= pairs);
    let ghost data = table.data();
    let ghost stamps = img.ttl_pairs();
    let mut j: usize = 0;
    assert(stamps.take(0) =~= Seq::empty());
    assert(table.ttl() =~= pairs_map(stamps.take(0)).restrict(data.dom()));
    while j < img.ttl.len()
        invariant
            j <= img.ttl.len(),
            stamps == img.ttl_pairs(),
            table.wf(),
            table.data() == data,
            table.ttl() == pairs_map(stamps.take(j as int)).restrict(data.dom()),
        decreases img.ttl.len() - j,
    {
        let ghost before = table.ttl();
        let at: u64 = img.ttl[j].1;
        table.set_expiry(img.ttl[j].0.as_str(), at);
        proof {
            assert(stamps.take(j + 1).drop_last() =~= stamps.take(j as int));
            assert(table.ttl() =~= pairs_map(stamps.take(j + 1)).restrict(data.dom()));
        }
        j = j + 1;
    }
    assert(stamps.take(j as int) =~= stamps);
    let index = index_of(&table);
    proof {
        lemma_fresh_hints(index@, table.ttl());
    }
    ShardState::from_parts(table, index)
}

/// Takes the image of a state: every key with its value, and every expiry
/// instant with its key.
pub fn snapshot(state: &ShardState) -> (img: SnapshotImage)
    requires
        state.wf(),
    ensures
        pairs_map(img.data_pairs()) == state@.data,
        pairs_map(img.ttl_pairs()) == state@.ttl,
{
    let table = state.table();
    let mut img = SnapshotImage { data: Vec::new(), ttl: Vec::new() };
    let n: usize = table.len();
    let mut i: usize = 0;
    let ghost listing = table.listing();
    proof {
        table.lemma_listing();
        assert(img.data_pairs() =~= Seq::empty());
        assert(img.ttl_pairs() =~= Seq::empty());
    }
    while i < n
        invariant
            i <= n,
            n == listing.len(),
            listing == table.listing(),
            table.wf(),
            forall|k: Seq<char>|
                pairs_map(img.data_pairs()).contains_key(k) <==> exists|j: int|
                    0 <= j < i && (#[trigger] listing[j]).key@ == k,
            forall|j: int|
                0 <= j < i ==> pairs_map(img.data_pairs())[(#[trigger] listing[j]).key@]
                    == listing[j].value@,
            forall|k: Seq<char>|
                pairs_map(img.ttl_pairs()).contains_key(k) <==> exists|j: int|
                    0 <= j < i && (#[trigger] listing[j]).key@ == k && listing[j].expiry is Some,
            forall|j: int|
                0 <= j < i && (#[trigger] listing[j]).expiry is Some ==> pairs_map(
                    img.ttl_pairs(),
                )[listing[j].key@] == listing[j].expiry->0,
        decreases n - i,
    {
        let slot = table.slot(i);
        let ghost data_before = img.data_pairs();
        let ghost ttl_before = img.ttl_pairs();
        let ghost d0 = pairs_map(data_before);
        let ghost t0 = pairs_map(ttl_before);
        proof {
            table.lemma_listing();
        }
        img.data.push((slot.key.clone(), slot.value.clone()));
        proof {
            assert(img.data_pairs() =~= data_before.push((slot.key@, slot.value@)));
            assert(img.data_pairs().drop_last() =~= data_before);
        }
        match slot.expiry {
            Some(at) => {
                img.ttl.push((slot.key.clone(), at));
                proof {
                    assert(img.ttl_pairs() =~= ttl_before.push((slot.key@, at)));
                    assert(img.ttl_pairs().drop_last() =~= ttl_before);
                }
            },
            None => {},
        }
        proof {
            let d = pairs_map(img.data_pairs());
            let t = pairs_map(img.ttl_pairs());
            assert(d == d0.insert(slot.key@, slot.value@));
            assert(t == if slot.expiry is Some {
                t0.insert(slot.key@, slot.expiry->0)
            } else {
                t0
            });
            assert(listing[i as int] == *slot);
            assert forall|k: Seq<char>| d.contains_key(k) <==> exists|j: int|
                0 <= j < i + 1 && (#[trigger] listing[j]).key@ == k by {
                if d.contains_key(k) {
                    if k == slot.key@ {
                        assert(listing[i as int].key@ == k);
                    } else {
                        assert(d0.contains_key(k));
                        let j = choose|j: int| 0 <= j < i && (#[trigger] listing[j]).key@ == k;
                        assert(0 <= j < i + 1 && listing[j].key@ == k);
                    }
                }
                if exists|j: int| 0 <= j < i + 1 && (#[trigger] listing[j]).key@ == k {
                    let j = choose|j: int| 0 <= j < i + 1 && (#[trigger] listing[j]).key@ == k;
                    if j < i {
                        assert(d0.contains_key(k));
                    }
                }
            }
            assert forall|k: Seq<char>| t.contains_key(k) <==> exists|j: int|
                0 <= j < i + 1 && (#[trigger] listing[j]).key@ == k && listing[j].expiry is Some by {
                if t.contains_key(k) {
                    if k == slot.key@ && slot.expiry is Some {
                        assert(listing[i as int].key@ == k);
                    } else {
                        assert(t0.contains_key(k));
                        let j = choose|j: int|
                            0 <= j < i && (#[trigger] listing[j]).key@ == k && listing[j].expiry
                                is Some;
                        assert(0 <= j < i + 1 && listing[j].key@ == k && listing[j].expiry is Some);
                    }
                }
                if exists|j: int|
                    0 <= j < i + 1 && (#[trigger] listing[j]).key@ == k && listing[j].expiry
                        is Some {
                    let j = choose|j: int|
                        0 <= j < i + 1 && (#[trigger] listing[j]).key@ == k && listing[j].expiry
                            is Some;
                    if j < i {
                        assert(t0.contains_key(k));
                    }
                }
            }
            assert forall|j: int| 0 <= j < i + 1 implies d[(#[trigger] listing[j]).key@]
                == listing[j].value@ by {
                if j < i {
                    assert(listing[j].key@ != listing[i as int].key@);
                }
            }
            assert forall|j: int| 0 <= j < i + 1 && (#[trigger] listing[j]).expiry is Some implies t[
                listing[j].key@
            ] == listing[j].expiry->0 by {
                if j < i {
                    assert(listing[j].key@ != listing[i as int].key@);
                }
            }
        }
        i = i + 1;
    }
    proof {
        table.lemma_listing();
        let d = pairs_map(img.data_pairs());
        let t = pairs_map(img.ttl_pairs());
        assert forall|k: Seq<char>| d.contains_key(k) == state@.data.contains_key(k) by {
            if d.contains_key(k) {
                let j = choose|j: int| 0 <= j < i && (#[trigger] listing[j]).key@ == k;
            }
        }
        assert forall|k: Seq<char>| d.contains_key(k) implies d[k] == state@.data[k] by {
            let j = choose|j: int| 0 <= j < i && (#[trigger] listing[j]).key@ == k;
        }
        assert(d =~= state@.data);
        assert forall|k: Seq<char>| t.contains_key(k) == state@.ttl.contains_key(k) by {
            if t.contains_key(k) {
                let j = choose|j: int|
                    0 <= j < i && (#[trigger] listing[j]).key@ == k && listing[j].expiry is Some;
            }
            if state@.ttl.contains_key(k) {
                table.lemma_ttl_within_data();
                assert(table.data().contains_key(k));
                let j = choose|j: int| 0 <= j < listing.len() && (#[trigger] listing[j]).key@ == k;
                assert(listing[j].expiry is Some);
            }
        }
        assert forall|k: Seq<char>| t.contains_key(k) implies t[k] == state@.ttl[k] by {
            let j = choose|j: int|
                0 <= j < i && (#[trigger] listing[j]).key@ == k && listing[j].expiry is Some;
        }
        assert(t =~= state@.ttl);
    }
    img
}

/// Rebuilds a shard at startup: installs the image, then replays the log
/// `wal` at `now`, up to the first place where no whole record lies.
pub fn recover(img: &SnapshotImage, wal: &[u8], now: u64) -> (state: ShardState)
    ensures
        state.wf(),
        state@ == img.model().replay(read_log(wal@, 0), now),
        hints_match(img.model().hints, img.model().ttl),
{
    let mut state = restore(img);
    let ghost start = state@;
    let mut at: usize = 0;
    loop
        invariant
            at <= wal.len(),
            state.wf(),
            state@.replay(read_log(wal@, at as int), now) == start.replay(read_log(wal@, 0), now),
        ensures
            state.wf(),
            state@ == start.replay(read_log(wal@, 0), now),
        decreases wal.len() - at,
    {
        match decode_entry(wal, at) {
            None => {
                break ;
            },
            Some((e, next)) => {
                proof {
                    let log = read_log(wal@, at as int);
                    assert(log.drop_first() =~= read_log(wal@, next as int));
                }
                state.apply(e.into_command(), now);
                at = next;
            },
        }
    }
    state
}

/// A state that is rebuilt from its own image holds the values and expiry
/// instants that it held.
pub proof fn law_image_restores(state: ShardModel, img: SnapshotImage)
    requires
        state.inv(),
        pairs_map(img.data_pairs()) == state.data,
        pairs_map(img.ttl_pairs()) == state.ttl,
    ensures
        img.model().data == state.data,
        img.model().ttl == state.ttl,
{
    assert(state.ttl.restrict(state.data.dom()) =~= state.ttl);
}

} // verus!
