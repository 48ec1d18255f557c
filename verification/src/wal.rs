//! The write-ahead log: how a record is laid out in bytes, how a log is
//! read back, and when the log writer hands its buffer to the disk.
//!
//! A record is a variant number, four bytes little-endian, then its fields
//! in order. A string is its length in bytes, eight bytes little-endian,
//! then its UTF-8 bytes; a TTL is eight bytes little-endian. Records follow
//! one another with nothing between them.
use vstd::prelude::*;
use vstd::bytes::{
    lemma_auto_spec_u32_to_from_le_bytes,
    lemma_auto_spec_u64_to_from_le_bytes,
    spec_u32_from_le_bytes,
    spec_u32_to_le_bytes,
    spec_u64_from_le_bytes,
    spec_u64_to_le_bytes,
    u32_from_le_bytes,
    u32_to_le_bytes,
    u64_from_le_bytes,
    u64_to_le_bytes,
};
use vstd::string::{StringExecFns, StringSliceAdditionalSpecFns};
use vstd::utf8::{decode_utf8, encode_utf8, encode_utf8_decode_utf8, encode_utf8_valid_utf8, valid_utf8};
use crate::command::{WalCommand, WalEntry, WalEntryView};
use crate::text::utf8_text;

verus! {

/// The variant numbers of the four records.
pub const TAG_SET: u32 = 0;

pub const TAG_SETEX: u32 = 1;

pub const TAG_DEL: u32 = 2;

pub const TAG_EXPIRE: u32 = 3;

/// The bytes of a string field.
pub open spec fn str_bytes(s: Seq<char>) -> Seq<u8> {
    spec_u64_to_le_bytes(encode_utf8(s).len() as u64) + encode_utf8(s)
}

/// The bytes of a record.
pub open spec fn entry_bytes(e: WalEntryView) -> Seq<u8> {
    match e {
        WalEntryView::SetValue { key, value } => spec_u32_to_le_bytes(TAG_SET) + str_bytes(key)
            + str_bytes(value),
        WalEntryView::SetEx { key, value, ttl } => spec_u32_to_le_bytes(TAG_SETEX) + str_bytes(key)
            + str_bytes(value) + spec_u64_to_le_bytes(ttl),
        WalEntryView::Del { key } => spec_u32_to_le_bytes(TAG_DEL) + str_bytes(key),
        WalEntryView::Expire { key, ttl } => spec_u32_to_le_bytes(TAG_EXPIRE) + str_bytes(key)
            + spec_u64_to_le_bytes(ttl),
    }
}

/// The bytes of a log: those of its records, one after the other.
pub open spec fn log_bytes(log: Seq<WalEntryView>) -> Seq<u8>
    decreases log.len(),
{
    if log.len() == 0 {
        Seq::empty()
    } else {
        entry_bytes(log[0]) + log_bytes(log.drop_first())
    }
}

/// The strings of a record are short enough for their length fields.
pub open spec fn entry_fits(e: WalEntryView) -> bool {
    match e {
        WalEntryView::SetValue { key, value } => encode_utf8(key).len() <= u64::MAX && encode_utf8(
            value,
        ).len() <= u64::MAX,
        WalEntryView::SetEx { key, value, .. } => encode_utf8(key).len() <= u64::MAX && encode_utf8(
            value,
        ).len() <= u64::MAX,
        WalEntryView::Del { key } => encode_utf8(key).len() <= u64::MAX,
        WalEntryView::Expire { key, .. } => encode_utf8(key).len() <= u64::MAX,
    }
}

/// The four-byte number at `at`, and where what follows it begins.
pub open spec fn read_u32(b: Seq<u8>, at: int) -> Option<(u32, int)> {
    if 0 <= at && at + 4 <= b.len() {
        Some((spec_u32_from_le_bytes(b.subrange(at, at + 4)), at + 4))
    } else {
        None
    }
}

/// The eight-byte number at `at`, and where what follows it begins.
pub open spec fn read_u64(b: Seq<u8>, at: int) -> Option<(u64, int)> {
    if 0 <= at && at + 8 <= b.len() {
        Some((spec_u64_from_le_bytes(b.subrange(at, at + 8)), at + 8))
    } else {
        None
    }
}

/// The string field at `at`, and where what follows it begins: nothing if
/// the field runs past the end or does not hold well-formed UTF-8.
pub open spec fn read_str(b: Seq<u8>, at: int) -> Option<(Seq<char>, int)> {
    match read_u64(b, at) {
        Some((n, p)) => if n <= b.len() - p && valid_utf8(b.subrange(p, p + n)) {
            Some((decode_utf8(b.subrange(p, p + n)), p + n))
        } else {
            None
        },
        None => None,
    }
}

/// The record at `at`, and where what follows it begins: nothing if no
/// whole record lies there.
pub open spec fn read_entry(b: Seq<u8>, at: int) -> Option<(WalEntryView, int)> {
    match read_u32(b, at) {
        None => None,
        Some((tag, p)) => if tag == TAG_SET {
            match read_str(b, p) {
                None => None,
                Some((key, q)) => match read_str(b, q) {
                    None => None,
                    Some((value, r)) => Some((WalEntryView::SetValue { key, value }, r)),
                },
            }
        } else if tag == TAG_SETEX {
            match read_str(b, p) {
                None => None,
                Some((key, q)) => match read_str(b, q) {
                    None => None,
                    Some((value, r)) => match read_u64(b, r) {
                        None => None,
                        Some((ttl, t)) => Some((WalEntryView::SetEx { key, value, ttl }, t)),
                    },
                },
            }
        } else if tag == TAG_DEL {
            match read_str(b, p) {
                None => None,
                Some((key, q)) => Some((WalEntryView::Del { key }, q)),
            }
        } else if tag == TAG_EXPIRE {
            match read_str(b, p) {
                None => None,
                Some((key, q)) => match read_u64(b, q) {
                    None => None,
                    Some((ttl, t)) => Some((WalEntryView::Expire { key, ttl }, t)),
                },
            }
        } else {
            None
        },
    }
}

/// The records of the log `b` from `at` on, up to the first place where no
/// whole record lies: a torn tail ends the log without being part of it.
pub open spec fn read_log(b: Seq<u8>, at: int) -> Seq<WalEntryView>
    decreases b.len() - at,
{
    match read_entry(b, at) {
        Some((e, next)) => if at < next <= b.len() {
            seq![e] + read_log(b, next)
        } else {
            Seq::empty()
        },
        None => Seq::empty(),
    }
}

/// The views of a vector of records.
pub open spec fn entries_view(v: Seq<WalEntry>) -> Seq<WalEntryView> {
    v.map_values(|e: WalEntry| e@)
}

/// Appends the four bytes of `x` to `out`.
fn put_u32(out: &mut Vec<u8>, x: u32)
    ensures
        final(out)@ == old(out)@ + spec_u32_to_le_bytes(x),
{
    let mut b = u32_to_le_bytes(x);
    out.append(&mut b);
}

/// Appends the eight bytes of `x` to `out`.
fn put_u64(out: &mut Vec<u8>, x: u64)
    ensures
        final(out)@ == old(out)@ + spec_u64_to_le_bytes(x),
{
    let mut b = u64_to_le_bytes(x);
    out.append(&mut b);
}

/// Appends the string field `s` to `out`.
fn put_str(out: &mut Vec<u8>, s: &str)
    ensures
        final(out)@ == old(out)@ + str_bytes(s@),
{
    let raw = s.as_bytes();
    put_u64(out, raw.len() as u64);
    let ghost mid = out@;
    let mut i: usize = 0;
    while i < raw.len()
        invariant
            i <= raw.len(),
            out@ == mid + raw@.take(i as int),
        decreases raw.len() - i,
    {
        out.push(raw[i]);
        assert(raw@.take(i + 1) =~= raw@.take(i as int).push(raw@[i as int]));
        i = i + 1;
    }
    assert(raw@.take(i as int) =~= raw@);
    assert(out@ =~= old(out)@ + str_bytes(s@));
}

/// The bytes of the record `e`.
pub fn encode_entry(e: &WalEntry) -> (out: Vec<u8>)
    ensures
        out@ == entry_bytes(e@),
{
    let mut out: Vec<u8> = Vec::new();
    match e {
        WalEntry::SetValue { key, value } => {
            put_u32(&mut out, TAG_SET);
            put_str(&mut out, key.as_str());
            put_str(&mut out, value.as_str());
        },
        WalEntry::SetEx { key, value, ttl } => {
            put_u32(&mut out, TAG_SETEX);
            put_str(&mut out, key.as_str());
            put_str(&mut out, value.as_str());
            put_u64(&mut out, *ttl);
        },
        WalEntry::Del { key } => {
            put_u32(&mut out, TAG_DEL);
            put_str(&mut out, key.as_str());
        },
        WalEntry::Expire { key, ttl } => {
            put_u32(&mut out, TAG_EXPIRE);
            put_str(&mut out, key.as_str());
            put_u64(&mut out, *ttl);
        },
    }
    assert(out@ =~= entry_bytes(e@));
    out
}

/// Computes [`read_u32`].
fn take_u32(b: &[u8], at: usize) -> (r: Option<(u32, usize)>)
    requires
        at <= b.len(),
    ensures
        r is Some == read_u32(b@, at as int) is Some,
        r matches Some(p) ==> read_u32(b@, at as int) == Some((p.0, p.1 as int)) && p.1 <= b.len(),
{
    if b.len() - at < 4 {
        None
    } else {
        let x = u32_from_le_bytes(&b[at..at + 4]);
        Some((x, at + 4))
    }
}

/// Computes [`read_u64`].
fn take_u64(b: &[u8], at: usize) -> (r: Option<(u64, usize)>)
    requires
        at <= b.len(),
    ensures
        r is Some == read_u64(b@, at as int) is Some,
        r matches Some(p) ==> read_u64(b@, at as int) == Some((p.0, p.1 as int)) && p.1 <= b.len(),
{
    if b.len() - at < 8 {
        None
    } else {
        let x = u64_from_le_bytes(&b[at..at + 8]);
        Some((x, at + 8))
    }
}

/// Computes [`read_str`].
fn take_str(b: &[u8], at: usize) -> (r: Option<(String, usize)>)
    requires
        at <= b.len(),
    ensures
        r is Some == read_str(b@, at as int) is Some,
        r matches Some(p) ==> read_str(b@, at as int) == Some((p.0@, p.1 as int)) && p.1
            <= b.len(),
{
    match take_u64(b, at) {
        None => None,
        Some((n, p)) => {
            if n > (b.len() - p) as u64 {
                None
            } else {
                let end: usize = p + n as usize;
                match utf8_text(&b[p..end]) {
                    None => None,
                    Some(s) => Some((String::from_str(s), end)),
                }
            }
        },
    }
}

/// Reads the record that begins at `at`. Returns it with the place where
/// the next one begins, or `None` where no whole record lies at `at`.
pub fn decode_entry(b: &[u8], at: usize) -> (r: Option<(WalEntry, usize)>)
    requires
        at <= b.len(),
    ensures
        r is Some == read_entry(b@, at as int) is Some,
        r matches Some(p) ==> read_entry(b@, at as int) == Some((p.0@, p.1 as int)) && at < p.1
            <= b.len(),
{
    let (tag, p) = match take_u32(b, at) {
        None => {
            return None;
        },
        Some(x) => x,
    };
    if tag > TAG_EXPIRE {
        return None;
    }
    let (key, q) = match take_str(b, p) {
        None => {
            return None;
        },
        Some(x) => x,
    };
    if tag == TAG_DEL {
        return Some((WalEntry::Del { key }, q));
    }
    if tag == TAG_EXPIRE {
        return match take_u64(b, q) {
            None => None,
            Some((ttl, t)) => Some((WalEntry::Expire { key, ttl }, t)),
        };
    }
    let (value, r) = match take_str(b, q) {
        None => {
            return None;
        },
        Some(x) => x,
    };
    if tag == TAG_SET {
        return Some((WalEntry::SetValue { key, value }, r));
    }
    match take_u64(b, r) {
        None => None,
        Some((ttl, t)) => Some((WalEntry::SetEx { key, value, ttl }, t)),
    }
}

/// Reads a log: its records in order, up to the first place where no whole
/// record lies.
pub fn decode_log(b: &[u8]) -> (log: Vec<WalEntry>)
    ensures
        entries_view(log@) == read_log(b@, 0),
{
    let mut log: Vec<WalEntry> = Vec::new();
    let mut at: usize = 0;
    assert(entries_view(log@) =~= Seq::<WalEntryView>::empty());
    loop
        invariant
            at <= b.len(),
            read_log(b@, 0) == entries_view(log@) + read_log(b@, at as int),
        ensures
            entries_view(log@) == read_log(b@, 0),
        decreases b.len() - at,
    {
        match decode_entry(b, at) {
            None => {
                assert(entries_view(log@) + Seq::<WalEntryView>::empty() =~= entries_view(log@));
                break ;
            },
            Some((e, next)) => {
                let ghost before = entries_view(log@);
                let ghost ev = e@;
                log.push(e);
                proof {
                    assert(entries_view(log@) =~= before.push(ev));
                    assert(before + (seq![ev] + read_log(b@, next as int)) =~= entries_view(log@)
                        + read_log(b@, next as int));
                }
                at = next;
            },
        }
    }
    log
}

/// A string field that lies at `at` is read back as it was written.
proof fn lemma_read_str_at(b: Seq<u8>, at: int, s: Seq<char>)
    requires
        0 <= at,
        encode_utf8(s).len() <= u64::MAX,
        at + str_bytes(s).len() <= b.len(),
        b.subrange(at, at + str_bytes(s).len()) == str_bytes(s),
    ensures
        str_bytes(s).len() == 8 + encode_utf8(s).len(),
        read_str(b, at) == Some((s, at + str_bytes(s).len())),
{
    lemma_auto_spec_u64_to_from_le_bytes();
    let raw = encode_utf8(s);
    let head = spec_u64_to_le_bytes(raw.len() as u64);
    let field = str_bytes(s);
    assert(head.len() == 8);
    assert(b.subrange(at, at + 8) =~= field.subrange(0, 8));
    assert(field.subrange(0, 8) =~= head);
    let n = raw.len() as int;
    assert(b.subrange(at + 8, at + 8 + n) =~= field.subrange(8, 8 + n));
    assert(field.subrange(8, 8 + n) =~= raw);
    encode_utf8_valid_utf8(s);
    encode_utf8_decode_utf8(s);
}

/// An eight-byte number that lies at `at` is read back as it was written.
proof fn lemma_read_u64_at(b: Seq<u8>, at: int, x: u64)
    requires
        0 <= at,
        at + 8 <= b.len(),
        b.subrange(at, at + 8) == spec_u64_to_le_bytes(x),
    ensures
        read_u64(b, at) == Some((x, at + 8)),
{
    lemma_auto_spec_u64_to_from_le_bytes();
}

/// A record is at least twelve bytes long.
pub proof fn lemma_entry_bytes_len(e: WalEntryView)
    ensures
        entry_bytes(e).len() >= 12,
{
    lemma_auto_spec_u32_to_from_le_bytes();
    lemma_auto_spec_u64_to_from_le_bytes();
}

/// A record that lies at `at` is read back as it was written, whatever
/// stands before and after it.
pub proof fn law_entry_round_trip(b: Seq<u8>, at: int, e: WalEntryView)
    requires
        entry_fits(e),
        0 <= at,
        at + entry_bytes(e).len() <= b.len(),
        b.subrange(at, at + entry_bytes(e).len()) == entry_bytes(e),
    ensures
        read_entry(b, at) == Some((e, at + entry_bytes(e).len())),
{
    lemma_auto_spec_u32_to_from_le_bytes();
    lemma_auto_spec_u64_to_from_le_bytes();
    let whole = entry_bytes(e);
    let p = at + 4;
    match e {
        WalEntryView::SetValue { key, value } => {
            let k = str_bytes(key);
            let v = str_bytes(value);
            let kl = k.len() as int;
            let vl = v.len() as int;
            assert(b.subrange(at, at + 4) =~= whole.subrange(0, 4));
            assert(whole.subrange(0, 4) =~= spec_u32_to_le_bytes(TAG_SET));
            assert(b.subrange(p, p + kl) =~= whole.subrange(4, 4 + kl));
            assert(whole.subrange(4, 4 + kl) =~= k);
            lemma_read_str_at(b, p, key);
            let q = p + kl;
            assert(b.subrange(q, q + vl) =~= whole.subrange(4 + kl, 4 + kl + vl));
            assert(whole.subrange(4 + kl, 4 + kl + vl) =~= v);
            lemma_read_str_at(b, q, value);
        },
        WalEntryView::SetEx { key, value, ttl } => {
            let k = str_bytes(key);
            let v = str_bytes(value);
            let kl = k.len() as int;
            let vl = v.len() as int;
            let t = spec_u64_to_le_bytes(ttl);
            assert(b.subrange(at, at + 4) =~= whole.subrange(0, 4));
            assert(whole.subrange(0, 4) =~= spec_u32_to_le_bytes(TAG_SETEX));
            assert(b.subrange(p, p + kl) =~= whole.subrange(4, 4 + kl));
            assert(whole.subrange(4, 4 + kl) =~= k);
            lemma_read_str_at(b, p, key);
            let q = p + kl;
            assert(b.subrange(q, q + vl) =~= whole.subrange(4 + kl, 4 + kl + vl));
            assert(whole.subrange(4 + kl, 4 + kl + vl) =~= v);
            lemma_read_str_at(b, q, value);
            let r = q + vl;
            assert(b.subrange(r, r + 8) =~= whole.subrange(
                4 + kl + vl,
                4 + kl + vl + 8,
            ));
            assert(whole.subrange(4 + kl + vl, 4 + kl + vl + 8) =~= t);
            lemma_read_u64_at(b, r, ttl);
        },
        WalEntryView::Del { key } => {
            let k = str_bytes(key);
            let kl = k.len() as int;
            assert(b.subrange(at, at + 4) =~= whole.subrange(0, 4));
            assert(whole.subrange(0, 4) =~= spec_u32_to_le_bytes(TAG_DEL));
            assert(b.subrange(p, p + kl) =~= whole.subrange(4, 4 + kl));
            assert(whole.subrange(4, 4 + kl) =~= k);
            lemma_read_str_at(b, p, key);
        },
        WalEntryView::Expire { key, ttl } => {
            let k = str_bytes(key);
            let kl = k.len() as int;
            let t = spec_u64_to_le_bytes(ttl);
            assert(b.subrange(at, at + 4) =~= whole.subrange(0, 4));
            assert(whole.subrange(0, 4) =~= spec_u32_to_le_bytes(TAG_EXPIRE));
            assert(b.subrange(p, p + kl) =~= whole.subrange(4, 4 + kl));
            assert(whole.subrange(4, 4 + kl) =~= k);
            lemma_read_str_at(b, p, key);
            let q = p + kl;
            assert(b.subrange(q, q + 8) =~= whole.subrange(4 + kl, 4 + kl + 8));
            assert(whole.subrange(4 + kl, 4 + kl + 8) =~= t);
            lemma_read_u64_at(b, q, ttl);
        },
    }
}

/// Every record of `log` fits its length fields.
pub open spec fn log_fits(log: Seq<WalEntryView>) -> bool {
    forall|i: int| 0 <= i < log.len() ==> entry_fits(#[trigger] log[i])
}

/// A log that was written record by record is read back as it was written,
/// where what follows it is no whole record.
pub proof fn law_log_round_trip(b: Seq<u8>, at: int, log: Seq<WalEntryView>)
    requires
        log_fits(log),
        0 <= at,
        at + log_bytes(log).len() <= b.len(),
        b.subrange(at, at + log_bytes(log).len()) == log_bytes(log),
        read_entry(b, at + log_bytes(log).len()) is None,
    ensures
        read_log(b, at) == log,
    decreases log.len(),
{
    if log.len() == 0 {
        assert(read_log(b, at) =~= log);
    } else {
        let e = log[0];
        let rest = log.drop_first();
        let head = entry_bytes(e);
        let whole = log_bytes(log);
        lemma_entry_bytes_len(e);
        assert(b.subrange(at, at + head.len()) =~= whole.subrange(0, head.len() as int));
        assert(whole.subrange(0, head.len() as int) =~= head);
        law_entry_round_trip(b, at, e);
        let next = at + head.len();
        assert(b.subrange(next, next + log_bytes(rest).len()) =~= whole.subrange(
            head.len() as int,
            whole.len() as int,
        ));
        assert(whole.subrange(head.len() as int, whole.len() as int) =~= log_bytes(rest));
        law_log_round_trip(b, next, rest);
        assert(seq![e] + rest =~= log);
    }
}

/// What reading a string field from a log cut off at `n` gives: the field,
/// if it ends at or before `n`, and nothing otherwise.
proof fn lemma_read_str_cut(b: Seq<u8>, n: int, at: int)
    requires
        0 <= at <= n <= b.len(),
    ensures
        read_str(b.take(n), at) == match read_str(b, at) {
            Some((s, q)) => if q <= n {
                Some((s, q))
            } else {
                None
            },
            None => None,
        },
{
    let c = b.take(n);
    if at + 8 <= n {
        assert(c.subrange(at, at + 8) =~= b.subrange(at, at + 8));
        let len = spec_u64_from_le_bytes(b.subrange(at, at + 8));
        let p = at + 8;
        if len <= n - p {
            assert(c.subrange(p, p + len) =~= b.subrange(p, p + len));
        }
    }
}

/// What reading a number from a log cut off at `n` gives.
proof fn lemma_read_u64_cut(b: Seq<u8>, n: int, at: int)
    requires
        0 <= at <= n <= b.len(),
    ensures
        read_u64(b.take(n), at) == match read_u64(b, at) {
            Some((x, q)) => if q <= n {
                Some((x, q))
            } else {
                None
            },
            None => None,
        },
{
    let c = b.take(n);
    if at + 8 <= n {
        assert(c.subrange(at, at + 8) =~= b.subrange(at, at + 8));
    }
}

/// What reading a record from a log cut off at `n` gives: the record, if
/// it ends at or before `n`, and nothing otherwise.
pub proof fn lemma_read_entry_cut(b: Seq<u8>, n: int, at: int)
    requires
        0 <= at <= n <= b.len(),
    ensures
        read_entry(b.take(n), at) == match read_entry(b, at) {
            Some((e, q)) => if q <= n {
                Some((e, q))
            } else {
                None
            },
            None => None,
        },
        read_entry(b, at) matches Some((e, q)) ==> at < q <= b.len(),
{
    let c = b.take(n);
    if at + 4 <= n {
        assert(c.subrange(at, at + 4) =~= b.subrange(at, at + 4));
    }
    match read_u32(b, at) {
        None => {},
        Some((tag, p)) => {
            if p <= n {
                lemma_read_str_cut(b, n, p);
                match read_str(b, p) {
                    None => {},
                    Some((key, q)) => {
                        if q <= n {
                            lemma_read_str_cut(b, n, q);
                            lemma_read_u64_cut(b, n, q);
                            match read_str(b, q) {
                                None => {},
                                Some((value, r)) => {
                                    if r <= n {
                                        lemma_read_u64_cut(b, n, r);
                                    }
                                },
                            }
                        }
                    },
                }
            }
        },
    }
}

/// A log that was cut off anywhere reads as a prefix of what the whole log
/// reads as: a crash loses records at the end and nothing else.
pub proof fn law_cut_log_is_prefix(b: Seq<u8>, n: int, at: int)
    requires
        0 <= at <= n <= b.len(),
    ensures
        read_log(b.take(n), at).is_prefix_of(read_log(b, at)),
    decreases b.len() - at,
{
    lemma_read_entry_cut(b, n, at);
    let c = b.take(n);
    match read_entry(c, at) {
        None => {
            assert(read_log(c, at) =~= Seq::<WalEntryView>::empty());
        },
        Some((e, next)) => {
            assert(read_entry(b, at) == Some((e, next)));
            law_cut_log_is_prefix(b, n, next);
            let short = read_log(c, next);
            let long = read_log(b, next);
            assert(read_log(c, at) =~= seq![e] + short);
            assert(read_log(b, at) =~= seq![e] + long);
            assert((seq![e] + short).is_prefix_of(seq![e] + long)) by {
                assert(short.len() <= long.len());
                assert forall|i: int| 0 <= i < (seq![e] + short).len() implies (seq![e] + short)[i]
                    == (seq![e] + long)[i] by {
                    if i > 0 {
                        assert(short[i - 1] == long[i - 1]);
                    }
                }
                assert((seq![e] + short) =~= (seq![e] + long).subrange(
                    0,
                    (seq![e] + short).len() as int,
                ));
            }
        },
    }
}

/// The log writer hands its buffer to the disk as soon as it holds this
/// many bytes.
pub const FLUSH_THRESHOLD: usize = 131072;

/// What the log writer has to do with its file.
pub enum WalAction {
    /// Nothing.
    Idle,
    /// Append these bytes and flush them to the disk.
    Flush(Vec<u8>),
    /// Append these bytes and flush them; then cut the file back to length
    /// zero, rewind, and commit that to the disk.
    Truncate(Vec<u8>),
    /// Append these bytes, flush them, and stop.
    Close(Vec<u8>),
}

/// What a [`WalAction`] means.
pub enum WalActionView {
    Idle,
    Flush(Seq<u8>),
    Truncate(Seq<u8>),
    Close(Seq<u8>),
}

impl View for WalAction {
    type V = WalActionView;

    open spec fn view(&self) -> WalActionView {
        match *self {
            WalAction::Idle => WalActionView::Idle,
            WalAction::Flush(b) => WalActionView::Flush(b@),
            WalAction::Truncate(b) => WalActionView::Truncate(b@),
            WalAction::Close(b) => WalActionView::Close(b@),
        }
    }
}

impl WalActionView {
    /// The bytes that the action sends to the file.
    pub open spec fn bytes(self) -> Seq<u8> {
        match self {
            WalActionView::Idle => Seq::empty(),
            WalActionView::Flush(b) => b,
            WalActionView::Truncate(b) => b,
            WalActionView::Close(b) => b,
        }
    }
}

/// What a message to the log writer means; `None` stands for the end of
/// the messages.
pub enum WalMessageView {
    Write(Seq<u8>),
    Truncate,
    Closed,
}

/// The view of a message that may be the end of the messages.
pub open spec fn message_view(msg: Option<WalCommand>) -> WalMessageView {
    match msg {
        Some(WalCommand::Write(b)) => WalMessageView::Write(b@),
        Some(WalCommand::Truncate) => WalMessageView::Truncate,
        None => WalMessageView::Closed,
    }
}

/// What the writer does on its periodic tick with `pending` bytes in its
/// buffer, and what stays in the buffer.
pub open spec fn tick_step(pending: Seq<u8>) -> (WalActionView, Seq<u8>) {
    if pending.len() > 0 {
        (WalActionView::Flush(pending), Seq::empty())
    } else {
        (WalActionView::Idle, pending)
    }
}

/// What the writer does on a message with `pending` bytes in its buffer,
/// and what stays in the buffer.
pub open spec fn message_step(pending: Seq<u8>, msg: WalMessageView) -> (WalActionView, Seq<u8>) {
    match msg {
        WalMessageView::Write(b) => if (pending + b).len() >= FLUSH_THRESHOLD {
            (WalActionView::Flush(pending + b), Seq::empty())
        } else {
            (WalActionView::Idle, pending + b)
        },
        WalMessageView::Truncate => (WalActionView::Truncate(pending), Seq::empty()),
        WalMessageView::Closed => (WalActionView::Close(pending), Seq::empty()),
    }
}

/// No step of the writer loses, repeats or reorders a byte: what it sends
/// to the file, followed by what it keeps, is what it held followed by what
/// it was given.
pub proof fn law_writer_keeps_order(pending: Seq<u8>, msg: WalMessageView)
    ensures
        tick_step(pending).0.bytes() + tick_step(pending).1 == pending,
        message_step(pending, msg).0.bytes() + message_step(pending, msg).1 == pending + match msg {
            WalMessageView::Write(b) => b,
            _ => Seq::empty(),
        },
        message_step(pending, msg).1.len() < FLUSH_THRESHOLD,
{
    assert(tick_step(pending).0.bytes() + tick_step(pending).1 =~= pending);
    assert(message_step(pending, msg).0.bytes() + message_step(pending, msg).1 =~= pending
        + match msg {
        WalMessageView::Write(b) => b,
        _ => Seq::empty(),
    });
}

/// The buffer of a log writer.
pub struct WalBatch {
    buffer: Vec<u8>,
}

impl View for WalBatch {
    type V = Seq<u8>;

    /// The bytes that were accepted and not yet handed to the disk.
    closed spec fn view(&self) -> Seq<u8> {
        self.buffer@
    }
}

impl WalBatch {
    /// An empty buffer.
    pub fn new() -> (r: Self)
        ensures
            r@ == Seq::<u8>::empty(),
    {
        WalBatch { buffer: Vec::new() }
    }

    /// How many bytes wait in the buffer.
    pub fn pending(&self) -> (n: usize)
        ensures
            n == self@.len(),
    {
        self.buffer.len()
    }

    /// Empties the buffer and returns what it held.
    fn take(&mut self) -> (b: Vec<u8>)
        ensures
            b@ == old(self)@,
            final(self)@ == Seq::<u8>::empty(),
    {
        let mut out: Vec<u8> = Vec::new();
        core::mem::swap(&mut self.buffer, &mut out);
        out
    }

    /// The periodic tick: a buffer that holds anything goes to the disk.
    pub fn on_tick(&mut self) -> (action: WalAction)
        ensures
            (action@, final(self)@) == tick_step(old(self)@),
    {
        if self.buffer.len() > 0 {
            WalAction::Flush(self.take())
        } else {
            WalAction::Idle
        }
    }

    /// One message, or the end of the messages: bytes are appended to the
    /// buffer, which goes to the disk once it is full; a truncation or the
    /// end of the messages sends what is buffered ahead of itself.
    pub fn on_message(&mut self, msg: Option<WalCommand>) -> (action: WalAction)
        ensures
            (action@, final(self)@) == message_step(old(self)@, message_view(msg)),
    {
        match msg {
            Some(WalCommand::Write(bytes)) => {
                let mut bytes = bytes;
                self.buffer.append(&mut bytes);
                if self.buffer.len() >= FLUSH_THRESHOLD {
                    WalAction::Flush(self.take())
                } else {
                    WalAction::Idle
                }
            },
            Some(WalCommand::Truncate) => WalAction::Truncate(self.take()),
            None => WalAction::Close(self.take()),
        }
    }
}

} // verus!
