//! The request grammar: one line, split at white space into tokens, the
//! first of which is a keyword.
//!
//! ```text
//! PING
//! SET <key> <value>
//! SETEX <key> <value> <ttl_seconds>
//! GET <key>
//! DEL <key>
//! EX <key>
//! EXPIRE <key> <ttl_seconds>
//! TTL <key>
//! ```
//!
//! Keywords are case-sensitive. A line of any other shape, or with a TTL
//! that is no number a `u64` can hold, is no request.
use vstd::prelude::*;
use vstd::string::{StrSliceExecFns, StringExecFns};
use crate::command::{CommandView, ParsedCommand};
use crate::text::{is_space, is_space_exec, numeral_value, read_numeral};

verus! {

/// The tokens of `s` from index `i` on, where `start` is the index at which
/// the token began that `i` lies in, if it lies in one.
pub open spec fn scan(s: Seq<char>, i: int, start: Option<int>) -> Seq<Seq<char>>
    decreases s.len() - i,
{
    if i >= s.len() {
        match start {
            Some(b) => seq![s.subrange(b, s.len() as int)],
            None => Seq::empty(),
        }
    } else if is_space(s[i]) {
        match start {
            Some(b) => seq![s.subrange(b, i)] + scan(s, i + 1, None),
            None => scan(s, i + 1, None),
        }
    } else {
        scan(
            s,
            i + 1,
            if start is None {
                Some(i)
            } else {
                start
            },
        )
    }
}

/// The tokens of a line: its maximal runs of characters that are not white
/// space, in order.
pub open spec fn tokens(s: Seq<char>) -> Seq<Seq<char>> {
    scan(s, 0, None)
}

pub open spec fn word_ping() -> Seq<char> {
    seq!['P', 'I', 'N', 'G']
}

pub open spec fn word_set() -> Seq<char> {
    seq!['S', 'E', 'T']
}

pub open spec fn word_setex() -> Seq<char> {
    seq!['S', 'E', 'T', 'E', 'X']
}

pub open spec fn word_get() -> Seq<char> {
    seq!['G', 'E', 'T']
}

pub open spec fn word_del() -> Seq<char> {
    seq!['D', 'E', 'L']
}

pub open spec fn word_ex() -> Seq<char> {
    seq!['E', 'X']
}

pub open spec fn word_expire() -> Seq<char> {
    seq!['E', 'X', 'P', 'I', 'R', 'E']
}

pub open spec fn word_ttl() -> Seq<char> {
    seq!['T', 'T', 'L']
}

/// The request that a sequence of tokens spells, if it spells one.
pub open spec fn parse_tokens(t: Seq<Seq<char>>) -> Option<CommandView> {
    if t.len() == 1 && t[0] == word_ping() {
        Some(CommandView::Ping)
    } else if t.len() == 2 && t[0] == word_get() {
        Some(CommandView::Get { key: t[1] })
    } else if t.len() == 2 && t[0] == word_del() {
        Some(CommandView::Del { key: t[1] })
    } else if t.len() == 2 && t[0] == word_ex() {
        Some(CommandView::Ex { key: t[1] })
    } else if t.len() == 2 && t[0] == word_ttl() {
        Some(CommandView::Ttl { key: t[1] })
    } else if t.len() == 3 && t[0] == word_set() {
        Some(CommandView::SetValue { key: t[1], value: t[2] })
    } else if t.len() == 3 && t[0] == word_expire() {
        match numeral_value(t[2]) {
            Some(ttl) => Some(CommandView::Expire { key: t[1], ttl }),
            None => None,
        }
    } else if t.len() == 4 && t[0] == word_setex() {
        match numeral_value(t[3]) {
            Some(ttl) => Some(CommandView::SetEx { key: t[1], value: t[2], ttl }),
            None => None,
        }
    } else {
        None
    }
}

/// The request that a line spells, if it spells one.
pub open spec fn parse(s: Seq<char>) -> Option<CommandView> {
    parse_tokens(tokens(s))
}

/// The view of a request that may be absent.
pub open spec fn parsed_view(r: Option<ParsedCommand>) -> Option<CommandView> {
    match r {
        Some(c) => Some(c@),
        None => None,
    }
}

/// The parts of `s` that the index pairs `spans` cut out.
pub open spec fn cut(s: Seq<char>, spans: Seq<(usize, usize)>) -> Seq<Seq<char>> {
    spans.map_values(|p: (usize, usize)| s.subrange(p.0 as int, p.1 as int))
}

/// The characters of a string.
pub fn to_chars(s: &str) -> (v: Vec<char>)
    ensures
        v@ == s@,
{
    let mut v: Vec<char> = Vec::new();
    for c in iter: s.chars()
        invariant
            iter.seq() == s@,
            v@ == iter.seq().take(iter.index() as int),
    {
        v.push(c);
    }
    v
}

/// Where the tokens of `s` begin and end.
pub fn token_spans(s: &Vec<char>) -> (spans: Vec<(usize, usize)>)
    ensures
        cut(s@, spans@) == tokens(s@),
        forall|j: int| 0 <= j < spans.len() ==> (#[trigger] spans[j]).0 < spans[j].1 <= s.len(),
{
    let mut spans: Vec<(usize, usize)> = Vec::new();
    let mut start: Option<usize> = None;
    let mut i: usize = 0;
    assert(cut(s@, spans@) =~= Seq::<Seq<char>>::empty());
    while i < s.len()
        invariant
            i <= s.len(),
            start matches Some(b) ==> b < i,
            forall|j: int| 0 <= j < spans.len() ==> (#[trigger] spans[j]).0 < spans[j].1 <= s.len(),
            tokens(s@) == cut(s@, spans@) + scan(
                s@,
                i as int,
                match start {
                    Some(b) => Some(b as int),
                    None => None,
                },
            ),
        decreases s.len() - i,
    {
        let ghost before = spans@;
        if is_space_exec(s[i]) {
            match start {
                Some(b) => {
                    spans.push((b, i));
                    proof {
                        let piece = s@.subrange(b as int, i as int);
                        assert(cut(s@, spans@) =~= cut(s@, before).push(piece));
                        assert(cut(s@, before) + (seq![piece] + scan(s@, i + 1, None)) =~= cut(
                            s@,
                            spans@,
                        ) + scan(s@, i + 1, None));
                    }
                    start = None;
                },
                None => {},
            }
        } else {
            if start.is_none() {
                start = Some(i);
            }
        }
        i = i + 1;
    }
    match start {
        Some(b) => {
            let ghost before = spans@;
            spans.push((b, i));
            proof {
                let piece = s@.subrange(b as int, i as int);
                assert(cut(s@, spans@) =~= cut(s@, before).push(piece));
                assert(cut(s@, before) + seq![piece] =~= cut(s@, spans@));
            }
        },
        None => {
            assert(cut(s@, spans@) + Seq::<Seq<char>>::empty() =~= cut(s@, spans@));
        },
    }
    spans
}

/// Whether the characters of `s` from `from` to `to` spell `word`.
fn spells(s: &Vec<char>, from: usize, to: usize, word: &str) -> (r: bool)
    requires
        from <= to <= s.len(),
    ensures
        r == (s@.subrange(from as int, to as int) == word@),
{
    let n: usize = word.unicode_len();
    if to - from != n {
        return false;
    }
    let mut i: usize = 0;
    while i < n
        invariant
            i <= n,
            n == word@.len(),
            from + n == to,
            to <= s.len(),
            forall|j: int| 0 <= j < i ==> s@[from + j] == word@[j],
        decreases n - i,
    {
        if s[from + i] != word.get_char(i) {
            assert(s@.subrange(from as int, to as int)[i as int] != word@[i as int]);
            return false;
        }
        i = i + 1;
    }
    assert(s@.subrange(from as int, to as int) =~= word@);
    true
}

/// The part of `input` between the character indices `from` and `to`, as a
/// string of its own.
fn piece(input: &str, from: usize, to: usize) -> (r: String)
    requires
        from <= to <= input@.len(),
    ensures
        r@ == input@.subrange(from as int, to as int),
{
    String::from_str(input.substring_char(from, to))
}

/// Reads one line as a request. Returns `None` for a line that is no
/// request.
pub fn parse_command(input: &str) -> (r: Option<ParsedCommand>)
    ensures
        parsed_view(r) == parse(input@),
{
    let chars = to_chars(input);
    let spans = token_spans(&chars);
    let ghost t = tokens(input@);
    proof {
        reveal_strlit("PING");
        reveal_strlit("SET");
        reveal_strlit("SETEX");
        reveal_strlit("GET");
        reveal_strlit("DEL");
        reveal_strlit("EX");
        reveal_strlit("EXPIRE");
        reveal_strlit("TTL");
        assert("PING"@ =~= word_ping());
        assert("SET"@ =~= word_set());
        assert("SETEX"@ =~= word_setex());
        assert("GET"@ =~= word_get());
        assert("DEL"@ =~= word_del());
        assert("EX"@ =~= word_ex());
        assert("EXPIRE"@ =~= word_expire());
        assert("TTL"@ =~= word_ttl());
        assert(t.len() == spans.len());
        assert forall|j: int| 0 <= j < spans.len() implies #[trigger] t[j] == input@.subrange(
            spans[j].0 as int,
            spans[j].1 as int,
        ) by {
            assert(cut(chars@, spans@)[j] == t[j]);
        }
    }
    let n: usize = spans.len();
    if n == 0 || n > 4 {
        return None;
    }
    let (a, b) = spans[0];
    assert(t[0] == input@.subrange(a as int, b as int));
    if n == 1 {
        if spells(&chars, a, b, "PING") {
            Some(ParsedCommand::Ping)
        } else {
            None
        }
    } else if n == 2 {
        let (ka, kb) = spans[1];
        assert(t[1] == input@.subrange(ka as int, kb as int));
        if spells(&chars, a, b, "GET") {
            Some(ParsedCommand::Get { key: piece(input, ka, kb) })
        } else if spells(&chars, a, b, "DEL") {
            Some(ParsedCommand::Del { key: piece(input, ka, kb) })
        } else if spells(&chars, a, b, "EX") {
            Some(ParsedCommand::Ex { key: piece(input, ka, kb) })
        } else if spells(&chars, a, b, "TTL") {
            Some(ParsedCommand::Ttl { key: piece(input, ka, kb) })
        } else {
            None
        }
    } else if n == 3 {
        let (ka, kb) = spans[1];
        let (va, vb) = spans[2];
        assert(t[1] == input@.subrange(ka as int, kb as int));
        assert(t[2] == input@.subrange(va as int, vb as int));
        if spells(&chars, a, b, "SET") {
            Some(ParsedCommand::SetValue { key: piece(input, ka, kb), value: piece(input, va, vb) })
        } else if spells(&chars, a, b, "EXPIRE") {
            match read_numeral(&chars, va, vb) {
                Some(ttl) => Some(ParsedCommand::Expire { key: piece(input, ka, kb), ttl }),
                None => None,
            }
        } else {
            None
        }
    } else {
        let (ka, kb) = spans[1];
        let (va, vb) = spans[2];
        let (ta, tb) = spans[3];
        assert(t[1] == input@.subrange(ka as int, kb as int));
        assert(t[2] == input@.subrange(va as int, vb as int));
        assert(t[3] == input@.subrange(ta as int, tb as int));
        if spells(&chars, a, b, "SETEX") {
            match read_numeral(&chars, ta, tb) {
                Some(ttl) => Some(
                    ParsedCommand::SetEx {
                        key: piece(input, ka, kb),
                        value: piece(input, va, vb),
                        ttl,
                    },
                ),
                None => None,
            }
        } else {
            None
        }
    }
}

} // verus!
