//! The bytes of a connection: cutting them into lines, and reading a line
//! as a request.
use vstd::prelude::*;
use vstd::utf8::{decode_utf8, valid_utf8};
use crate::command::{CommandView, ParsedCommand};
use crate::parser::{parse, parse_command, parsed_view};
use crate::text::utf8_text;

verus! {

/// The byte that ends a line.
pub const LINE_END: u8 = 10;

/// No byte of `s` ends a line.
pub open spec fn no_line_end(s: Seq<u8>) -> bool {
    forall|j: int| 0 <= j < s.len() ==> #[trigger] s[j] != LINE_END
}

/// The request that the bytes of a line spell: none, if they are not
/// well-formed UTF-8 or their text is no request. White space around the
/// request does not count.
pub open spec fn line_request(line: Seq<u8>) -> Option<CommandView> {
    if valid_utf8(line) {
        parse(decode_utf8(line))
    } else {
        None
    }
}

/// Reads the bytes of one line as a request.
pub fn parse_line(line: &[u8]) -> (r: Option<ParsedCommand>)
    ensures
        parsed_view(r) == line_request(line@),
{
    match utf8_text(line) {
        Some(text) => parse_command(text),
        None => None,
    }
}

/// The bytes that were read from a connection and not yet cut into lines.
pub struct LineBuffer {
    buf: Vec<u8>,
}

impl View for LineBuffer {
    type V = Seq<u8>;

    closed spec fn view(&self) -> Seq<u8> {
        self.buf@
    }
}

impl LineBuffer {
    /// A buffer that holds nothing.
    pub fn new() -> (r: Self)
        ensures
            r@ == Seq::<u8>::empty(),
    {
        LineBuffer { buf: Vec::new() }
    }

    /// Appends what was read.
    pub fn feed(&mut self, chunk: &[u8])
        ensures
            final(self)@ == old(self)@ + chunk@,
    {
        let mut i: usize = 0;
        while i < chunk.len()
            invariant
                i <= chunk.len(),
                self@ == old(self)@ + chunk@.take(i as int),
            decreases chunk.len() - i,
        {
            self.buf.push(chunk[i]);
            assert(chunk@.take(i + 1) =~= chunk@.take(i as int).push(chunk@[i as int]));
            i = i + 1;
        }
        assert(chunk@.take(i as int) =~= chunk@);
    }

    /// Takes the first line out of the buffer, without the byte that ends
    /// it. Returns `None`, and leaves the buffer as it is, while no line is
    /// complete.
    pub fn next_line(&mut self) -> (r: Option<Vec<u8>>)
        ensures
            r is None ==> no_line_end(old(self)@) && final(self)@ == old(self)@,
            r matches Some(line) ==> {
                &&& no_line_end(line@)
                &&& old(self)@ == line@.push(LINE_END) + final(self)@
            },
    {
        let mut i: usize = 0;
        while i < self.buf.len()
            invariant
                i <= self.buf.len(),
                self.buf@ == old(self).buf@,
                no_line_end(self.buf@.take(i as int)),
            decreases self.buf.len() - i,
        {
            if self.buf[i] == LINE_END {
                let mut rest = self.buf.split_off(i + 1);
                self.buf.pop();
                core::mem::swap(&mut self.buf, &mut rest);
                proof {
                    assert(rest@ =~= old(self)@.take(i as int));
                    assert(old(self)@ =~= rest@.push(LINE_END) + self@);
                }
                return Some(rest);
            }
            i = i + 1;
        }
        assert(self.buf@.take(i as int) =~= self.buf@);
        None
    }
}

} // verus!
