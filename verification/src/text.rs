//! Characters and decimal numerals, as the wire protocol reads and writes
//! them.
use vstd::prelude::*;
use vstd::string::StringExecFns;
use vstd::utf8::{decode_utf8, valid_utf8};

verus! {

/// `core::str::from_utf8`: the string that `bytes` encode, where they are
/// well-formed UTF-8, and nothing where they are not.
#[verifier::external_body]
pub(crate) fn utf8_text(bytes: &[u8]) -> (r: Option<&str>)
    ensures
        r is Some <==> valid_utf8(bytes@),
        r matches Some(s) ==> s@ == decode_utf8(bytes@),
{
    match core::str::from_utf8(bytes) {
        Ok(s) => Some(s),
        Err(_) => None,
    }
}

/// Whether `c` separates tokens: the characters with the Unicode property
/// White_Space.
pub open spec fn is_space(c: char) -> bool {
    let u = c as u32;
    ||| 0x09 <= u <= 0x0D
    ||| u == 0x20
    ||| u == 0x85
    ||| u == 0xA0
    ||| u == 0x1680
    ||| 0x2000 <= u <= 0x200A
    ||| u == 0x2028
    ||| u == 0x2029
    ||| u == 0x202F
    ||| u == 0x205F
    ||| u == 0x3000
}

/// Decides [`is_space`].
pub fn is_space_exec(c: char) -> (r: bool)
    ensures
        r == is_space(c),
{
    let u: u32 = c as u32;
    (0x09 <= u && u <= 0x0D) || u == 0x20 || u == 0x85 || u == 0xA0 || u == 0x1680 || (0x2000 <= u
        && u <= 0x200A) || u == 0x2028 || u == 0x2029 || u == 0x202F || u == 0x205F || u == 0x3000
}

/// Whether `c` is one of `0` to `9`.
pub open spec fn is_digit(c: char) -> bool {
    0x30 <= c as u32 <= 0x39
}

/// The number that the digit `c` stands for.
pub open spec fn digit_value(c: char) -> nat {
    (c as u32 - 0x30) as nat
}

/// The character for the digit `d`.
pub open spec fn digit_char(d: nat) -> char {
    if d == 0 {
        '0'
    } else if d == 1 {
        '1'
    } else if d == 2 {
        '2'
    } else if d == 3 {
        '3'
    } else if d == 4 {
        '4'
    } else if d == 5 {
        '5'
    } else if d == 6 {
        '6'
    } else if d == 7 {
        '7'
    } else if d == 8 {
        '8'
    } else {
        '9'
    }
}

/// The number that a sequence of digits stands for in base ten; 0 for the
/// empty sequence.
pub open spec fn digits_value(s: Seq<char>) -> nat
    decreases s.len(),
{
    if s.len() == 0 {
        0
    } else {
        digits_value(s.drop_last()) * 10 + digit_value(s.last())
    }
}

/// Every character of `s` is a digit.
pub open spec fn all_digits(s: Seq<char>) -> bool {
    forall|i: int| 0 <= i < s.len() ==> is_digit(#[trigger] s[i])
}

/// A numeral without the `+` that may stand in front of it.
pub open spec fn unsigned_part(s: Seq<char>) -> Seq<char> {
    if s.len() > 0 && s[0] == '+' {
        s.drop_first()
    } else {
        s
    }
}

/// The number that `s` stands for as a TTL: one or more digits, after an
/// optional `+`, that make a number a `u64` can hold.
pub open spec fn numeral_value(s: Seq<char>) -> Option<u64> {
    let body = unsigned_part(s);
    if body.len() > 0 && all_digits(body) && digits_value(body) <= u64::MAX {
        Some(digits_value(body) as u64)
    } else {
        None
    }
}

/// The digits of `n` in base ten, without leading zeros.
pub open spec fn numeral(n: nat) -> Seq<char>
    decreases n,
{
    if n < 10 {
        seq![digit_char(n)]
    } else {
        numeral(n / 10).push(digit_char(n % 10))
    }
}

/// The decimal form of an integer: a `-` in front of a negative one.
pub open spec fn integer_text(n: int) -> Seq<char> {
    if n < 0 {
        seq!['-'] + numeral((-n) as nat)
    } else {
        numeral(n as nat)
    }
}

/// The numeral of `n` is made of digits and stands for `n`.
pub proof fn lemma_numeral_value(n: nat)
    ensures
        numeral(n).len() > 0,
        all_digits(numeral(n)),
        digits_value(numeral(n)) == n,
    decreases n,
{
    if n < 10 {
        let s = numeral(n);
        assert(s.drop_last() =~= Seq::<char>::empty());
        assert(digits_value(s.drop_last()) == 0);
    } else {
        lemma_numeral_value(n / 10);
        let s = numeral(n);
        assert(s.drop_last() =~= numeral(n / 10));
    }
}

/// A numeral that was written for a `u64` reads back as that number.
pub proof fn law_numeral_round_trip(n: u64)
    ensures
        numeral_value(numeral(n as nat)) == Some(n),
{
    lemma_numeral_value(n as nat);
    let s = numeral(n as nat);
    assert(s[0] != '+') by {
        assert(is_digit(s[0]));
    }
}

/// A longer run of digits stands for no smaller a number than its prefix.
pub proof fn lemma_digits_value_prefix(s: Seq<char>, i: int)
    requires
        0 <= i <= s.len(),
    ensures
        digits_value(s.take(i)) <= digits_value(s),
    decreases s.len() - i,
{
    if i < s.len() {
        lemma_digits_value_prefix(s, i + 1);
        assert(s.take(i + 1).drop_last() =~= s.take(i));
    } else {
        assert(s.take(i) =~= s);
    }
}

/// Reads the characters of `s` from `from` to `to` as a TTL.
pub fn read_numeral(s: &Vec<char>, from: usize, to: usize) -> (r: Option<u64>)
    requires
        from <= to <= s.len(),
    ensures
        r == numeral_value(s@.subrange(from as int, to as int)),
{
    let ghost whole = s@.subrange(from as int, to as int);
    let mut i: usize = from;
    if i < to && s[i] == '+' {
        i = i + 1;
    }
    let start: usize = i;
    let ghost body = s@.subrange(start as int, to as int);
    proof {
        if start > from {
            assert(whole[0] == '+');
            assert(body =~= whole.drop_first());
        } else {
            assert(whole.len() > 0 ==> whole[0] == s@[from as int]);
            assert(body =~= whole);
        }
    }
    if start == to {
        return None;
    }
    let mut acc: u64 = 0;
    while i < to
        invariant
            from <= start <= i <= to <= s.len(),
            start < to,
            whole == s@.subrange(from as int, to as int),
            body == s@.subrange(start as int, to as int),
            body == unsigned_part(whole),
            all_digits(body.take(i - start)),
            acc == digits_value(body.take(i - start)),
        decreases to - i,
    {
        let c: char = s[i];
        let u: u32 = c as u32;
        proof {
            assert(body[i - start] == c);
            assert(body.take(i - start + 1).drop_last() =~= body.take(i - start));
            lemma_digits_value_prefix(body, i - start + 1);
        }
        if u < 0x30 || u > 0x39 {
            assert(!is_digit(body[i - start]));
            return None;
        }
        let d: u64 = (u - 0x30) as u64;
        let next: Option<u64> = match acc.checked_mul(10) {
            Some(t) => t.checked_add(d),
            None => None,
        };
        match next {
            Some(v) => {
                acc = v;
            },
            None => {
                assert(digits_value(body.take(i - start + 1)) > u64::MAX);
                return None;
            },
        }
        i = i + 1;
    }
    proof {
        assert(body.take(i - start) =~= body);
    }
    Some(acc)
}

/// The one-character string of the digit `d`.
fn digit_str(d: u8) -> (s: &'static str)
    requires
        d < 10,
    ensures
        s@ == seq![digit_char(d as nat)],
{
    proof {
        reveal_strlit("0");
        reveal_strlit("1");
        reveal_strlit("2");
        reveal_strlit("3");
        reveal_strlit("4");
        reveal_strlit("5");
        reveal_strlit("6");
        reveal_strlit("7");
        reveal_strlit("8");
        reveal_strlit("9");
    }
    let s = if d == 0 {
        "0"
    } else if d == 1 {
        "1"
    } else if d == 2 {
        "2"
    } else if d == 3 {
        "3"
    } else if d == 4 {
        "4"
    } else if d == 5 {
        "5"
    } else if d == 6 {
        "6"
    } else if d == 7 {
        "7"
    } else if d == 8 {
        "8"
    } else {
        "9"
    };
    assert(s@ =~= seq![digit_char(d as nat)]);
    s
}

/// Appends the numeral of `n` to `out`.
pub fn push_numeral(out: &mut String, n: u64)
    ensures
        final(out)@ == old(out)@ + numeral(n as nat),
    decreases n,
{
    if n >= 10 {
        push_numeral(out, n / 10);
    }
    let d: u8 = (n % 10) as u8;
    out.append(digit_str(d));
    proof {
        if n >= 10 {
            assert(final(out)@ =~= old(out)@ + numeral(n as nat));
        } else {
            assert(final(out)@ =~= old(out)@ + numeral(n as nat));
        }
    }
}

/// The decimal form of `n`.
pub fn integer_to_string(n: i64) -> (s: String)
    ensures
        s@ == integer_text(n as int),
{
    let mut out = String::new();
    if n < 0 {
        proof {
            reveal_strlit("-");
        }
        out.append("-");
        let magnitude: u64 = ((-(n + 1)) as u64) + 1;
        push_numeral(&mut out, magnitude);
        assert(out@ =~= integer_text(n as int));
    } else {
        push_numeral(&mut out, n as u64);
        assert(out@ =~= integer_text(n as int));
    }
    out
}

} // verus!
