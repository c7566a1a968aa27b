use miniredis::redis::commands::Command;
use miniredis::resp::resp_deserializer::{decode_command, DecodeResult};
use miniredis::resp::resp_serializer::{
    create_null_string, serialize_bulk_string, serialize_command, serialize_resp_data,
};
use miniredis::resp::RespType;
use miniredis::text::{parse_u64, u64_to_string, word_matches};

fn expect_complete(input: &str) -> (Command, usize) {
    match decode_command(input) {
        DecodeResult::Complete(c, nbytes, nchars) => {
            assert_eq!(nchars, input[..nbytes].chars().count());
            (c, nbytes)
        }
        DecodeResult::Incomplete => panic!("unexpected Incomplete for {:?}", input),
        DecodeResult::Invalid => panic!("unexpected Invalid for {:?}", input),
    }
}

fn round_trip(c: Command) {
    let wire = serialize_command(&c);
    let (back, n) = expect_complete(wire.as_str());
    assert_eq!(back, c);
    assert_eq!(n, wire.len());
}

#[test]
fn decode_ping_literal() {
    let (c, n) = expect_complete("*1\r\n$4\r\nPING\r\n");
    assert_eq!(c, Command::Ping);
    assert_eq!(n, 14);
}

#[test]
fn decode_echo_literal() {
    let (c, n) = expect_complete("*2\r\n$4\r\nECHO\r\n$3\r\nhey\r\n");
    assert_eq!(c, Command::Echo(String::from("hey")));
    assert_eq!(n, 23);
}

#[test]
fn decode_is_case_insensitive() {
    let (c, _) = expect_complete("*1\r\n$4\r\nping\r\n");
    assert_eq!(c, Command::Ping);
    let (c2, _) = expect_complete("*5\r\n$3\r\nset\r\n$3\r\nfoo\r\n$3\r\nbar\r\n$2\r\npx\r\n$3\r\n100\r\n");
    assert_eq!(
        c2,
        Command::SetVal(String::from("foo"), String::from("bar"), Some(100))
    );
}

#[test]
fn decode_set_with_px_literal() {
    let (c, n) = expect_complete("*5\r\n$3\r\nSET\r\n$3\r\nfoo\r\n$3\r\nbar\r\n$2\r\nPX\r\n$3\r\n100\r\n");
    assert_eq!(
        c,
        Command::SetVal(String::from("foo"), String::from("bar"), Some(100))
    );
    assert_eq!(n, 4 + 9 + 9 + 9 + 8 + 9);
}

#[test]
fn decode_reports_partial_frames() {
    assert!(matches!(decode_command(""), DecodeResult::Incomplete));
    assert!(matches!(decode_command("*1\r\n"), DecodeResult::Incomplete));
    assert!(matches!(
        decode_command("*1\r\n$4\r\nPI"),
        DecodeResult::Incomplete
    ));
    assert!(matches!(
        decode_command("*2\r\n$4\r\nECHO\r\n"),
        DecodeResult::Incomplete
    ));
}

#[test]
fn decode_rejects_garbage_and_unknown_names() {
    assert!(matches!(decode_command("PING\r\n"), DecodeResult::Invalid));
    assert!(matches!(
        decode_command("*1\r\n$4\r\nPONG\r\n"),
        DecodeResult::Invalid
    ));
    assert!(matches!(
        decode_command("*x\r\n$4\r\nPING\r\n"),
        DecodeResult::Invalid
    ));
    // wrong arity for a known name
    assert!(matches!(
        decode_command("*2\r\n$4\r\nPING\r\n$1\r\nx\r\n"),
        DecodeResult::Invalid
    ));
}

#[test]
fn decode_consumes_one_frame_of_a_pipelined_buffer() {
    let buf = "*1\r\n$4\r\nPING\r\n*2\r\n$4\r\nECHO\r\n$3\r\nhey\r\n";
    let (c, n) = expect_complete(buf);
    assert_eq!(c, Command::Ping);
    assert_eq!(n, 14);
    let (c2, n2) = expect_complete(&buf[n..]);
    assert_eq!(c2, Command::Echo(String::from("hey")));
    assert_eq!(n2, 23);
}

#[test]
fn round_trip_every_command() {
    round_trip(Command::Ping);
    round_trip(Command::Echo(String::from("hello world")));
    round_trip(Command::SetVal(String::from("k"), String::from("v"), None));
    round_trip(Command::SetVal(
        String::from("foo"),
        String::from("bar"),
        Some(100),
    ));
    round_trip(Command::Get(String::from("foo")));
    round_trip(Command::Info(String::from("replication")));
    round_trip(Command::ReplConf(String::from("GETACK"), Some(String::from("*"))));
    round_trip(Command::ReplConf(String::from("listening-port"), Some(String::from("6380"))));
    round_trip(Command::Psync(String::from("?"), String::from("-1")));
    round_trip(Command::Wait(1, 500));
    round_trip(Command::ConfigGet(String::from("dir")));
    round_trip(Command::Keys(String::from("*")));
}

#[test]
fn round_trip_keeps_payloads_with_terminators_inside() {
    // bulk strings are length-prefixed, so CRLF inside a value survives
    round_trip(Command::SetVal(
        String::from("k"),
        String::from("a\r\nb"),
        None,
    ));
    round_trip(Command::Echo(String::from("")));
}

#[test]
fn bulk_lengths_and_offsets_count_bytes_not_characters() {
    // a two-byte character makes the byte length exceed the character count
    assert_eq!(serialize_bulk_string(String::from("h\u{e9}")), "$3\r\nh\u{e9}\r\n");
    let wire = serialize_command(&Command::Echo(String::from("h\u{e9}")));
    assert_eq!(wire, "*2\r\n$4\r\nECHO\r\n$3\r\nh\u{e9}\r\n");
    match decode_command(&wire) {
        DecodeResult::Complete(c, nbytes, nchars) => {
            assert_eq!(c, Command::Echo(String::from("h\u{e9}")));
            assert_eq!(nbytes, wire.len());
            assert_eq!(nchars, wire.chars().count());
            assert_eq!(nbytes, nchars + 1);
        }
        _ => panic!("expected a complete frame"),
    }
    // a declared length that would split a character is malformed
    assert!(matches!(
        decode_command("*2\r\n$4\r\nECHO\r\n$2\r\nh\u{e9}\r\n"),
        DecodeResult::Invalid
    ));
}

#[test]
fn serializer_emits_exact_frames() {
    assert_eq!(
        serialize_command(&Command::Ping),
        "*1\r\n$4\r\nPING\r\n"
    );
    assert_eq!(
        serialize_command(&Command::SetVal(
            String::from("x"),
            String::from("1"),
            None
        )),
        "*3\r\n$3\r\nSET\r\n$1\r\nx\r\n$1\r\n1\r\n"
    );
    assert_eq!(serialize_bulk_string(String::from("hey")), "$3\r\nhey\r\n");
    assert_eq!(create_null_string(), "$-1\r\n");
    assert_eq!(
        serialize_resp_data(RespType::SimpleString(String::from("PONG"))),
        "+PONG\r\n"
    );
    assert_eq!(serialize_resp_data(RespType::Integer(3)), ":3\r\n");
    assert_eq!(serialize_resp_data(RespType::Integer(-5)), ":-5\r\n");
    assert_eq!(
        serialize_resp_data(RespType::Error(String::from("ERR oops"))),
        "-ERR oops\r\n"
    );
    assert_eq!(
        serialize_resp_data(RespType::Array(vec![
            RespType::BulkString(Some(String::from("a"))),
            RespType::BulkString(Some(String::from("bc"))),
        ])),
        "*2\r\n$1\r\na\r\n$2\r\nbc\r\n"
    );
}

#[test]
fn is_write_classifies_only_set() {
    assert!(Command::SetVal(String::from("k"), String::from("v"), None).is_write());
    assert!(Command::SetVal(String::from("k"), String::from("v"), Some(1)).is_write());
    assert!(!Command::Ping.is_write());
    assert!(!Command::Echo(String::from("x")).is_write());
    assert!(!Command::Get(String::from("k")).is_write());
    assert!(!Command::Info(String::from("replication")).is_write());
    assert!(!Command::ReplConf(String::from("GETACK"), Some(String::from("*"))).is_write());
    assert!(!Command::Psync(String::from("?"), String::from("-1")).is_write());
    assert!(!Command::Wait(0, 0).is_write());
    assert!(!Command::ConfigGet(String::from("dir")).is_write());
    assert!(!Command::Keys(String::from("*")).is_write());
}

#[test]
fn numbers_round_trip_as_text() {
    assert_eq!(u64_to_string(0), "0");
    assert_eq!(u64_to_string(42), "42");
    assert_eq!(u64_to_string(u64::MAX), "18446744073709551615");
    assert_eq!(parse_u64("0"), Some(0));
    assert_eq!(parse_u64("100"), Some(100));
    assert_eq!(parse_u64("18446744073709551615"), Some(u64::MAX));
    assert_eq!(parse_u64("18446744073709551616"), None);
    assert_eq!(parse_u64(""), None);
    assert_eq!(parse_u64("12a"), None);
    assert_eq!(parse_u64("-1"), None);
}

#[test]
fn word_matching_ignores_ascii_case_only() {
    assert!(word_matches("ping", "PING"));
    assert!(word_matches("PiNg", "PING"));
    assert!(!word_matches("PONG", "PING"));
    assert!(!word_matches("PIN", "PING"));
    assert!(word_matches("px", "PX"));
}
