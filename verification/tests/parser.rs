use shard_kv::command::ParsedCommand;
use shard_kv::connection::{parse_line, LineBuffer};
use shard_kv::parser::{parse_command, to_chars, token_spans};

fn show(cmd: Option<ParsedCommand>) -> String {
    match cmd {
        None => "none".to_string(),
        Some(ParsedCommand::Ping) => "ping".to_string(),
        Some(ParsedCommand::SetValue { key, value }) => format!("set {} {}", key, value),
        Some(ParsedCommand::SetEx { key, value, ttl }) => format!("setex {} {} {}", key, value, ttl),
        Some(ParsedCommand::Get { key }) => format!("get {}", key),
        Some(ParsedCommand::Del { key }) => format!("del {}", key),
        Some(ParsedCommand::Ex { key }) => format!("ex {}", key),
        Some(ParsedCommand::Expire { key, ttl }) => format!("expire {} {}", key, ttl),
        Some(ParsedCommand::Ttl { key }) => format!("ttl {}", key),
    }
}

#[test]
fn parses_every_recognized_form() {
    assert_eq!(show(parse_command("PING")), "ping");
    assert_eq!(show(parse_command("SET a 1")), "set a 1");
    assert_eq!(show(parse_command("SETEX t hello 1")), "setex t hello 1");
    assert_eq!(show(parse_command("GET a")), "get a");
    assert_eq!(show(parse_command("DEL missing")), "del missing");
    assert_eq!(show(parse_command("EX a")), "ex a");
    assert_eq!(show(parse_command("EXPIRE x 60")), "expire x 60");
    assert_eq!(show(parse_command("TTL x")), "ttl x");
}

#[test]
fn white_space_around_and_between_tokens_does_not_count() {
    assert_eq!(show(parse_command("  SET \t a \r\n 1  ")), "set a 1");
    assert_eq!(show(parse_command("GET\u{a0}k\u{3000}")), "get k");
    assert_eq!(show(parse_command("\u{2003}PING\u{85}")), "ping");
}

#[test]
fn keywords_are_case_sensitive() {
    assert_eq!(show(parse_command("get a")), "none");
    assert_eq!(show(parse_command("Ping")), "none");
    assert_eq!(show(parse_command("SETX a b")), "none");
}

#[test]
fn wrong_number_of_tokens_is_no_request() {
    assert_eq!(show(parse_command("")), "none");
    assert_eq!(show(parse_command("   ")), "none");
    assert_eq!(show(parse_command("SET a")), "none");
    assert_eq!(show(parse_command("SET a b c")), "none");
    assert_eq!(show(parse_command("GET")), "none");
    assert_eq!(show(parse_command("GET a b")), "none");
    assert_eq!(show(parse_command("PING now")), "none");
    assert_eq!(show(parse_command("SETEX a b")), "none");
    assert_eq!(show(parse_command("SETEX a b 1 2")), "none");
    assert_eq!(show(parse_command("EXPIRE a")), "none");
}

#[test]
fn ttl_must_be_a_number_that_fits() {
    assert_eq!(show(parse_command("EXPIRE k 0")), "expire k 0");
    assert_eq!(show(parse_command("EXPIRE k +5")), "expire k 5");
    assert_eq!(show(parse_command("EXPIRE k 007")), "expire k 7");
    assert_eq!(
        show(parse_command("EXPIRE k 18446744073709551615")),
        "expire k 18446744073709551615"
    );
    assert_eq!(show(parse_command("EXPIRE k 18446744073709551616")), "none");
    assert_eq!(show(parse_command("EXPIRE k 99999999999999999999999")), "none");
    assert_eq!(show(parse_command("EXPIRE k -1")), "none");
    assert_eq!(show(parse_command("EXPIRE k +")), "none");
    assert_eq!(show(parse_command("EXPIRE k 1x")), "none");
    assert_eq!(show(parse_command("EXPIRE k x1")), "none");
    assert_eq!(show(parse_command("EXPIRE k 1.5")), "none");
    assert_eq!(show(parse_command("SETEX k v ten")), "none");
    assert_eq!(show(parse_command("SETEX k v ++1")), "none");
}

#[test]
fn ttl_agrees_with_the_standard_parser() {
    for text in ["0", "1", "+1", "00", "42", "+", "", "-0", "1e3", "18446744073709551615",
        "18446744073709551616", "０", "1 "] {
        let line = format!("EXPIRE k {}", text);
        let want = match text.parse::<u64>() {
            Ok(n) if !text.is_empty() && !text.contains(' ') => format!("expire k {}", n),
            _ => "none".to_string(),
        };
        let got = show(parse_command(&line));
        if text == "1 " {
            assert_eq!(got, "expire k 1");
        } else {
            assert_eq!(got, want, "ttl text {:?}", text);
        }
    }
}

#[test]
fn keys_and_values_keep_their_characters() {
    assert_eq!(show(parse_command("SET clé värde")), "set clé värde");
    assert_eq!(show(parse_command("SET 鍵 値")), "set 鍵 値");
    assert_eq!(show(parse_command("GET SET")), "get SET");
}

#[test]
fn tokens_are_the_runs_between_white_space() {
    let chars = to_chars(" ab  c\td ");
    assert_eq!(chars.len(), 9);
    assert_eq!(token_spans(&chars), vec![(1, 3), (5, 6), (7, 8)]);
    assert_eq!(token_spans(&to_chars("")), Vec::<(usize, usize)>::new());
    assert_eq!(token_spans(&to_chars("x")), vec![(0, 1)]);
}

#[test]
fn tokens_agree_with_split_whitespace() {
    for line in ["SET a 1", "  x  y ", "a\u{2028}b\u{205f}c", "\t", "é\u{a0}ü  z", "one"] {
        let chars = to_chars(line);
        let got: Vec<String> = token_spans(&chars)
            .into_iter()
            .map(|(a, b)| chars[a..b].iter().collect())
            .collect();
        let want: Vec<String> = line.split_whitespace().map(|t| t.to_string()).collect();
        assert_eq!(got, want);
    }
}

#[test]
fn line_that_is_not_utf8_is_no_request() {
    assert_eq!(show(parse_line(b"GET a")), "get a");
    assert_eq!(show(parse_line(b"  GET a \r")), "get a");
    assert_eq!(show(parse_line(&[b'G', b'E', b'T', b' ', 0xff])), "none");
    assert_eq!(show(parse_line(&[0xc3])), "none");
    assert_eq!(show(parse_line("SET k é".as_bytes())), "set k é");
    assert_eq!(show(parse_line(b"")), "none");
}

#[test]
fn buffer_hands_out_whole_lines_in_order() {
    let mut buf = LineBuffer::new();
    assert_eq!(buf.next_line(), None);
    buf.feed(b"GET a\nSET b");
    assert_eq!(buf.next_line(), Some(b"GET a".to_vec()));
    assert_eq!(buf.next_line(), None);
    buf.feed(b" 2\n\nPI");
    assert_eq!(buf.next_line(), Some(b"SET b 2".to_vec()));
    assert_eq!(buf.next_line(), Some(Vec::new()));
    assert_eq!(buf.next_line(), None);
    buf.feed(b"NG\n");
    assert_eq!(buf.next_line(), Some(b"PING".to_vec()));
    assert_eq!(buf.next_line(), None);
}

#[test]
fn buffer_keeps_carriage_returns() {
    let mut buf = LineBuffer::new();
    buf.feed(b"PING\r\n");
    let line = buf.next_line().unwrap();
    assert_eq!(line, b"PING\r".to_vec());
    assert_eq!(show(parse_line(&line)), "ping");
}
