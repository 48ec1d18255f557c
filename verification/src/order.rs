//! The order in which expiry hints leave the index: by instant first, then
//! by key, keys compared byte by byte in their UTF-8 form.
use vstd::prelude::*;
use vstd::string::StringSliceAdditionalSpecFns;
use vstd::utf8::{encode_utf8, encode_utf8_decode_utf8};

verus! {

/// An expiry hint: an instant in milliseconds and the key it was set for.
pub type Hint = (u64, Seq<char>);

/// Lexicographic `a <= b` on the parts of `a` and `b` from index `i` on,
/// given that the parts before `i` agree.
pub open spec fn lex_le_from(a: Seq<u8>, b: Seq<u8>, i: int) -> bool
    decreases a.len() - i,
{
    if i >= a.len() {
        true
    } else if i >= b.len() {
        false
    } else if a[i] != b[i] {
        a[i] < b[i]
    } else {
        lex_le_from(a, b, i + 1)
    }
}

/// `a <= b` for keys.
pub open spec fn key_le(a: Seq<char>, b: Seq<char>) -> bool {
    lex_le_from(encode_utf8(a), encode_utf8(b), 0)
}

/// `a <= b` for hints.
pub open spec fn hint_le(a: Hint, b: Hint) -> bool {
    a.0 < b.0 || (a.0 == b.0 && key_le(a.1, b.1))
}

proof fn lemma_lex_total(a: Seq<u8>, b: Seq<u8>, i: int)
    requires
        0 <= i,
    ensures
        lex_le_from(a, b, i) || lex_le_from(b, a, i),
    decreases a.len() - i,
{
    if i < a.len() && i < b.len() && a[i] == b[i] {
        lemma_lex_total(a, b, i + 1);
    }
}

proof fn lemma_lex_refl(a: Seq<u8>, i: int)
    requires
        0 <= i,
    ensures
        lex_le_from(a, a, i),
    decreases a.len() - i,
{
    if i < a.len() {
        lemma_lex_refl(a, i + 1);
    }
}

proof fn lemma_lex_trans(a: Seq<u8>, b: Seq<u8>, c: Seq<u8>, i: int)
    requires
        0 <= i,
        lex_le_from(a, b, i),
        lex_le_from(b, c, i),
    ensures
        lex_le_from(a, c, i),
    decreases a.len() - i,
{
    if i < a.len() && i < b.len() && i < c.len() && a[i] == b[i] && b[i] == c[i] {
        lemma_lex_trans(a, b, c, i + 1);
    }
}

/// Two sequences that are below each other from `i` on agree from `i` on.
proof fn lemma_lex_antisym(a: Seq<u8>, b: Seq<u8>, i: int)
    requires
        0 <= i <= a.len(),
        i <= b.len(),
        lex_le_from(a, b, i),
        lex_le_from(b, a, i),
    ensures
        a.len() == b.len(),
        forall|j: int| i <= j < a.len() ==> a[j] == b[j],
    decreases a.len() - i,
{
    if i < a.len() {
        lemma_lex_antisym(a, b, i + 1);
    }
}

/// Any two hints are comparable.
pub proof fn lemma_hint_le_total(a: Hint, b: Hint)
    ensures
        hint_le(a, b) || hint_le(b, a),
{
    lemma_lex_total(encode_utf8(a.1), encode_utf8(b.1), 0);
}

/// Every hint is below itself.
pub proof fn lemma_hint_le_refl(a: Hint)
    ensures
        hint_le(a, a),
{
    lemma_lex_refl(encode_utf8(a.1), 0);
}

/// The order on hints is transitive.
pub proof fn lemma_hint_le_trans(a: Hint, b: Hint, c: Hint)
    requires
        hint_le(a, b),
        hint_le(b, c),
    ensures
        hint_le(a, c),
{
    if a.0 == b.0 && b.0 == c.0 {
        lemma_lex_trans(encode_utf8(a.1), encode_utf8(b.1), encode_utf8(c.1), 0);
    }
}

/// Two hints that are below each other are the same hint.
pub proof fn lemma_hint_le_antisym(a: Hint, b: Hint)
    requires
        hint_le(a, b),
        hint_le(b, a),
    ensures
        a == b,
{
    let x = encode_utf8(a.1);
    let y = encode_utf8(b.1);
    lemma_lex_antisym(x, y, 0);
    assert(x =~= y);
    encode_utf8_decode_utf8(a.1);
    encode_utf8_decode_utf8(b.1);
}

/// Decides `key_le` on two keys.
pub fn key_le_exec(a: &str, b: &str) -> (r: bool)
    ensures
        r == key_le(a@, b@),
{
    let x = a.as_bytes();
    let y = b.as_bytes();
    let mut i: usize = 0;
    while i < x.len() && i < y.len()
        invariant
            i <= x.len(),
            i <= y.len(),
            x@ == a.spec_bytes(),
            y@ == b.spec_bytes(),
            key_le(a@, b@) == lex_le_from(x@, y@, i as int),
        decreases x.len() - i,
    {
        if x[i] != y[i] {
            return x[i] < y[i];
        }
        i = i + 1;
    }
    x.len() <= y.len()
}

/// Decides `hint_le` on two hints.
pub fn hint_le_exec(a_at: u64, a_key: &str, b_at: u64, b_key: &str) -> (r: bool)
    ensures
        r == hint_le((a_at, a_key@), (b_at, b_key@)),
{
    if a_at != b_at {
        a_at < b_at
    } else {
        key_le_exec(a_key, b_key)
    }
}

} // verus!
