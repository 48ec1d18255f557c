//! The values a shard exchanges with its surroundings: requests, log
//! records, messages to the log writer, and replies.
//!
//! Every executable type has a view made of character sequences and
//! integers; the contracts of the crate are written over those views.
use vstd::prelude::*;
use vstd::string::StringExecFns;
use tokio::sync::oneshot;
use crate::text::{integer_text, integer_to_string};

verus! {

/// `tokio::sync::oneshot::Sender`: the single-use sink of a reply. The
/// crate carries it from a request to whoever answers and never looks into
/// it.
#[verifier::external_type_specification]
#[verifier::external_body]
#[verifier::reject_recursive_types(T)]
pub struct ExReplySink<T>(oneshot::Sender<T>);

/// A request together with the single-use sink that its reply goes to.
pub enum Command {
    SetValue { key: String, value: String, resp: oneshot::Sender<String> },
    SetEx { key: String, value: String, ttl: u64, resp: oneshot::Sender<String> },
    Get { key: String, resp: oneshot::Sender<String> },
    Del { key: String, resp: oneshot::Sender<String> },
    Ex { key: String, resp: oneshot::Sender<String> },
    Expire { key: String, ttl: u64, resp: oneshot::Sender<String> },
    Ttl { key: String, resp: oneshot::Sender<String> },
    Ping { resp: oneshot::Sender<String> },
}

impl View for Command {
    type V = CommandView;

    /// The request, without its sink.
    open spec fn view(&self) -> CommandView {
        match *self {
            Command::SetValue { key, value, .. } => CommandView::SetValue {
                key: key@,
                value: value@,
            },
            Command::SetEx { key, value, ttl, .. } => CommandView::SetEx {
                key: key@,
                value: value@,
                ttl,
            },
            Command::Get { key, .. } => CommandView::Get { key: key@ },
            Command::Del { key, .. } => CommandView::Del { key: key@ },
            Command::Ex { key, .. } => CommandView::Ex { key: key@ },
            Command::Expire { key, ttl, .. } => CommandView::Expire { key: key@, ttl },
            Command::Ttl { key, .. } => CommandView::Ttl { key: key@ },
            Command::Ping { .. } => CommandView::Ping,
        }
    }
}

impl Command {
    /// The sink that the reply goes to.
    pub open spec fn sink(&self) -> oneshot::Sender<String> {
        match *self {
            Command::SetValue { resp, .. } => resp,
            Command::SetEx { resp, .. } => resp,
            Command::Get { resp, .. } => resp,
            Command::Del { resp, .. } => resp,
            Command::Ex { resp, .. } => resp,
            Command::Expire { resp, .. } => resp,
            Command::Ttl { resp, .. } => resp,
            Command::Ping { resp } => resp,
        }
    }

    /// The key that the request is routed by: the empty string for `Ping`.
    pub fn primary_key(&self) -> (key: &str)
        ensures
            key@ == self@.key(),
    {
        match self {
            Command::SetValue { key, .. } => key.as_str(),
            Command::Get { key, .. } => key.as_str(),
            Command::Del { key, .. } => key.as_str(),
            Command::SetEx { key, .. } => key.as_str(),
            Command::Expire { key, .. } => key.as_str(),
            Command::Ex { key, .. } => key.as_str(),
            Command::Ttl { key, .. } => key.as_str(),
            Command::Ping { .. } => {
                proof {
                    reveal_strlit("");
                }
                assert(""@ =~= Seq::<char>::empty());
                ""
            },
        }
    }

    /// Pairs a parsed request with the sink for its reply.
    pub fn with_sink(parsed: ParsedCommand, resp: oneshot::Sender<String>) -> (cmd: Command)
        ensures
            cmd@ == parsed@,
            cmd.sink() == resp,
    {
        match parsed {
            ParsedCommand::SetValue { key, value } => Command::SetValue { key, value, resp },
            ParsedCommand::SetEx { key, value, ttl } => Command::SetEx { key, value, ttl, resp },
            ParsedCommand::Get { key } => Command::Get { key, resp },
            ParsedCommand::Del { key } => Command::Del { key, resp },
            ParsedCommand::Expire { key, ttl } => Command::Expire { key, ttl, resp },
            ParsedCommand::Ttl { key } => Command::Ttl { key, resp },
            ParsedCommand::Ex { key } => Command::Ex { key, resp },
            ParsedCommand::Ping => Command::Ping { resp },
        }
    }

    /// Takes a request apart into what it asks and where its reply goes.
    pub fn into_parts(self) -> (r: (ParsedCommand, oneshot::Sender<String>))
        ensures
            r.0@ == self@,
            r.1 == self.sink(),
    {
        match self {
            Command::SetValue { key, value, resp } => (ParsedCommand::SetValue { key, value }, resp),
            Command::SetEx { key, value, ttl, resp } => (
                ParsedCommand::SetEx { key, value, ttl },
                resp,
            ),
            Command::Get { key, resp } => (ParsedCommand::Get { key }, resp),
            Command::Del { key, resp } => (ParsedCommand::Del { key }, resp),
            Command::Ex { key, resp } => (ParsedCommand::Ex { key }, resp),
            Command::Expire { key, ttl, resp } => (ParsedCommand::Expire { key, ttl }, resp),
            Command::Ttl { key, resp } => (ParsedCommand::Ttl { key }, resp),
            Command::Ping { resp } => (ParsedCommand::Ping, resp),
        }
    }
}

/// A request as read off the wire, before it is paired with a reply sink.
pub enum ParsedCommand {
    SetValue { key: String, value: String },
    SetEx { key: String, value: String, ttl: u64 },
    Get { key: String },
    Del { key: String },
    Ex { key: String },
    Expire { key: String, ttl: u64 },
    Ttl { key: String },
    Ping,
}

/// What a [`ParsedCommand`] means, keys and values taken as character
/// sequences.
pub enum CommandView {
    SetValue { key: Seq<char>, value: Seq<char> },
    SetEx { key: Seq<char>, value: Seq<char>, ttl: u64 },
    Get { key: Seq<char> },
    Del { key: Seq<char> },
    Ex { key: Seq<char> },
    Expire { key: Seq<char>, ttl: u64 },
    Ttl { key: Seq<char> },
    Ping,
}

impl View for ParsedCommand {
    type V = CommandView;

    open spec fn view(&self) -> CommandView {
        match *self {
            ParsedCommand::SetValue { key, value } => CommandView::SetValue {
                key: key@,
                value: value@,
            },
            ParsedCommand::SetEx { key, value, ttl } => CommandView::SetEx {
                key: key@,
                value: value@,
                ttl,
            },
            ParsedCommand::Get { key } => CommandView::Get { key: key@ },
            ParsedCommand::Del { key } => CommandView::Del { key: key@ },
            ParsedCommand::Ex { key } => CommandView::Ex { key: key@ },
            ParsedCommand::Expire { key, ttl } => CommandView::Expire { key: key@, ttl },
            ParsedCommand::Ttl { key } => CommandView::Ttl { key: key@ },
            ParsedCommand::Ping => CommandView::Ping,
        }
    }
}

impl CommandView {
    /// The key a request is routed by; the empty sequence for `Ping`.
    pub open spec fn key(self) -> Seq<char> {
        match self {
            CommandView::SetValue { key, .. } => key,
            CommandView::SetEx { key, .. } => key,
            CommandView::Get { key } => key,
            CommandView::Del { key } => key,
            CommandView::Ex { key } => key,
            CommandView::Expire { key, .. } => key,
            CommandView::Ttl { key } => key,
            CommandView::Ping => Seq::empty(),
        }
    }
}

/// One record of the write-ahead log. A TTL record keeps the duration that
/// was asked for, not the instant it led to.
pub enum WalEntry {
    SetValue { key: String, value: String },
    SetEx { key: String, value: String, ttl: u64 },
    Del { key: String },
    Expire { key: String, ttl: u64 },
}

/// What a [`WalEntry`] means.
pub enum WalEntryView {
    SetValue { key: Seq<char>, value: Seq<char> },
    SetEx { key: Seq<char>, value: Seq<char>, ttl: u64 },
    Del { key: Seq<char> },
    Expire { key: Seq<char>, ttl: u64 },
}

impl View for WalEntry {
    type V = WalEntryView;

    open spec fn view(&self) -> WalEntryView {
        match *self {
            WalEntry::SetValue { key, value } => WalEntryView::SetValue {
                key: key@,
                value: value@,
            },
            WalEntry::SetEx { key, value, ttl } => WalEntryView::SetEx {
                key: key@,
                value: value@,
                ttl,
            },
            WalEntry::Del { key } => WalEntryView::Del { key: key@ },
            WalEntry::Expire { key, ttl } => WalEntryView::Expire { key: key@, ttl },
        }
    }
}

impl WalEntryView {
    /// The request whose effect the record stands for.
    pub open spec fn command(self) -> CommandView {
        match self {
            WalEntryView::SetValue { key, value } => CommandView::SetValue { key, value },
            WalEntryView::SetEx { key, value, ttl } => CommandView::SetEx { key, value, ttl },
            WalEntryView::Del { key } => CommandView::Del { key },
            WalEntryView::Expire { key, ttl } => CommandView::Expire { key, ttl },
        }
    }
}

impl WalEntry {
    /// Turns a record back into the request it was written for.
    pub fn into_command(self) -> (cmd: ParsedCommand)
        ensures
            cmd@ == self@.command(),
    {
        match self {
            WalEntry::SetValue { key, value } => ParsedCommand::SetValue { key, value },
            WalEntry::SetEx { key, value, ttl } => ParsedCommand::SetEx { key, value, ttl },
            WalEntry::Del { key } => ParsedCommand::Del { key },
            WalEntry::Expire { key, ttl } => ParsedCommand::Expire { key, ttl },
        }
    }
}

/// A message to a shard's log writer.
pub enum WalCommand {
    /// Append these bytes as they are.
    Write(Vec<u8>),
    /// Flush what is buffered, then cut the file back to length zero.
    Truncate,
}

/// What a shard answers to one request.
pub enum Reply {
    /// The request was carried out.
    Done,
    /// Answer to `Ping`.
    Pong,
    /// No value under that key.
    Nil,
    /// The value under the key.
    Value(String),
    /// A count, a flag or a number of seconds.
    Integer(i64),
}

impl Reply {
    /// The reply as it goes over the wire.
    pub fn to_wire(&self) -> (text: String)
        ensures
            text@ == self@.wire(),
    {
        match self {
            Reply::Done => {
                proof {
                    reveal_strlit("OK\n");
                }
                let text = String::from_str("OK\n");
                assert(text@ =~= self@.wire());
                text
            },
            Reply::Pong => {
                proof {
                    reveal_strlit("PONG\n");
                }
                let text = String::from_str("PONG\n");
                assert(text@ =~= self@.wire());
                text
            },
            Reply::Nil => {
                proof {
                    reveal_strlit("nil\n");
                }
                let text = String::from_str("nil\n");
                assert(text@ =~= self@.wire());
                text
            },
            Reply::Value(v) => v.clone(),
            Reply::Integer(n) => integer_to_string(*n),
        }
    }
}

/// What a [`Reply`] means.
pub enum ReplyView {
    Done,
    Pong,
    Nil,
    Value(Seq<char>),
    Integer(int),
}

impl ReplyView {
    /// The characters that go over the wire for a reply. A value goes as it
    /// is, a number in decimal, and neither is followed by a line break.
    pub open spec fn wire(self) -> Seq<char> {
        match self {
            ReplyView::Done => seq!['O', 'K', '\n'],
            ReplyView::Pong => seq!['P', 'O', 'N', 'G', '\n'],
            ReplyView::Nil => seq!['n', 'i', 'l', '\n'],
            ReplyView::Value(v) => v,
            ReplyView::Integer(n) => integer_text(n),
        }
    }
}

impl View for Reply {
    type V = ReplyView;

    open spec fn view(&self) -> ReplyView {
        match *self {
            Reply::Done => ReplyView::Done,
            Reply::Pong => ReplyView::Pong,
            Reply::Nil => ReplyView::Nil,
            Reply::Value(v) => ReplyView::Value(v@),
            Reply::Integer(n) => ReplyView::Integer(n as int),
        }
    }
}

} // verus!
