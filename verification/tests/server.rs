use miniredis::config::Config;
use miniredis::redis::processing::{
    handle_config_get, handle_echo, handle_get, handle_info, handle_keys, handle_ping, handle_set,
};
use miniredis::redis::RedisState;
use miniredis::store::Store;

use miniredis::redis::commands::Command;
use miniredis::resp::resp_deserializer::{decode_command, DecodeResult};

fn args(list: &[&str]) -> Vec<String> {
    list.iter().map(|s| s.to_string()).collect()
}

fn decode(input: &str) -> Command {
    match decode_command(input) {
        DecodeResult::Complete(c, nbytes, _nchars) => {
            assert_eq!(nbytes, input.len());
            c
        }
        _ => panic!("expected a complete frame in {:?}", input),
    }
}

#[test]
fn ping_and_echo_over_the_wire() {
    assert_eq!(decode("*1\r\n$4\r\nPING\r\n"), Command::Ping);
    assert_eq!(handle_ping(RedisState::Master), Some(String::from("+PONG\r\n")));
    match decode("*2\r\n$4\r\nECHO\r\n$3\r\nhey\r\n") {
        Command::Echo(m) => {
            assert_eq!(handle_echo(m, RedisState::Master), Some(String::from("$3\r\nhey\r\n")))
        }
        other => panic!("expected ECHO, got {:?}", other),
    }
}

#[test]
fn set_with_px_then_get_over_the_wire() {
    let mut store = Store::new();
    let t_set: u64 = 10_000;
    match decode("*5\r\n$3\r\nSET\r\n$3\r\nfoo\r\n$3\r\nbar\r\n$2\r\nPX\r\n$3\r\n100\r\n") {
        Command::SetVal(k, v, l) => {
            assert_eq!(l, Some(100));
            let r = handle_set(k, v, l, &mut store, t_set, RedisState::Master);
            assert_eq!(r, Some(String::from("+OK\r\n")));
        }
        other => panic!("expected SET, got {:?}", other),
    }
    match decode("*2\r\n$3\r\nGET\r\n$3\r\nfoo\r\n") {
        Command::Get(k) => {
            // immediately: the value; 150 ms later: the null bulk
            assert_eq!(handle_get(k.clone(), &store, t_set), "$3\r\nbar\r\n");
            assert_eq!(handle_get(k, &store, t_set + 150), "$-1\r\n");
        }
        other => panic!("expected GET, got {:?}", other),
    }
}

#[test]
fn ping_and_echo_replies() {
    assert_eq!(handle_ping(RedisState::Master), Some(String::from("+PONG\r\n")));
    assert_eq!(handle_ping(RedisState::Replica), None);
    assert_eq!(
        handle_echo(String::from("hey"), RedisState::Master),
        Some(String::from("$3\r\nhey\r\n"))
    );
    assert_eq!(handle_echo(String::from("hey"), RedisState::Replica), None);
}

#[test]
fn set_get_and_lazy_expiry() {
    let mut store = Store::new();
    let r = handle_set(
        String::from("foo"),
        String::from("bar"),
        Some(100),
        &mut store,
        1_000,
        RedisState::Master,
    );
    assert_eq!(r, Some(String::from("+OK\r\n")));
    // fresh while now < t_set + d
    assert_eq!(handle_get(String::from("foo"), &store, 1_050), "$3\r\nbar\r\n");
    assert_eq!(handle_get(String::from("foo"), &store, 1_099), "$3\r\nbar\r\n");
    // expired from the deadline on
    assert_eq!(handle_get(String::from("foo"), &store, 1_100), "$-1\r\n");
    assert_eq!(handle_get(String::from("foo"), &store, 1_150), "$-1\r\n");
    // a fresh SET without a lifetime clears the old deadline
    handle_set(
        String::from("foo"),
        String::from("baz"),
        None,
        &mut store,
        2_000,
        RedisState::Master,
    );
    assert_eq!(handle_get(String::from("foo"), &store, u64::MAX), "$3\r\nbaz\r\n");
}

#[test]
fn get_of_missing_key_is_null_bulk() {
    let store = Store::new();
    assert_eq!(handle_get(String::from("nope"), &store, 0), "$-1\r\n");
}

#[test]
fn set_overwrites_unconditionally() {
    let mut store = Store::new();
    handle_set(String::from("k"), String::from("a"), None, &mut store, 0, RedisState::Master);
    handle_set(String::from("k"), String::from("b"), None, &mut store, 0, RedisState::Master);
    assert_eq!(handle_get(String::from("k"), &store, 0), "$1\r\nb\r\n");
    let keys = handle_keys(&store, String::from("*"));
    assert_eq!(keys, "*1\r\n$1\r\nk\r\n");
}

#[test]
fn keys_lists_every_entry() {
    let mut store = Store::new();
    handle_set(String::from("a"), String::from("1"), None, &mut store, 0, RedisState::Master);
    handle_set(String::from("b"), String::from("2"), None, &mut store, 0, RedisState::Master);
    assert_eq!(handle_keys(&store, String::from("*")), "*2\r\n$1\r\na\r\n$1\r\nb\r\n");
    assert_eq!(handle_keys(&Store::new(), String::from("*")), "*0\r\n");
}

#[test]
fn config_defaults_and_port_flag() {
    let cfg = Config::parse(&args(&["server"])).expect("defaults parse");
    assert_eq!(cfg.port, "6379");
    assert_eq!(cfg.role, RedisState::Master);
    assert_eq!(
        cfg.master_replid.as_deref(),
        Some("8371b4fb1155b71f4a04d3e1bc3e18c4a990aeeb")
    );
    assert_eq!(cfg.master_repl_offset.as_deref(), Some("0"));

    let cfg = Config::parse(&args(&["server", "--port", "6380"])).expect("port parses");
    assert_eq!(cfg.port, "6380");
}

#[test]
fn config_replicaof_switches_role_and_keeps_address() {
    let cfg = Config::parse(&args(&["server", "--replicaof", "localhost", "6379"]))
        .expect("replicaof parses");
    assert_eq!(cfg.role, RedisState::Replica);
    assert_eq!(cfg.master_host.as_deref(), Some("localhost"));
    assert_eq!(cfg.master_port.as_deref(), Some("6379"));
    assert_eq!(cfg.master_replid, None);
    assert_eq!(cfg.master_repl_offset, None);
}

#[test]
fn config_missing_value_is_fatal_and_unknown_flags_are_ignored() {
    assert!(Config::parse(&args(&["server", "--port"])).is_none());
    assert!(Config::parse(&args(&["server", "--replicaof", "localhost"])).is_none());
    assert!(Config::parse(&args(&["server", "--dbfilename"])).is_none());
    let cfg = Config::parse(&args(&["server", "--verbose", "--port", "6381"]))
        .expect("unknown flags are skipped");
    assert_eq!(cfg.port, "6381");
}

#[test]
fn config_get_reports_dir_and_dbfilename() {
    let cfg = Config::parse(&args(&[
        "server",
        "--dir",
        "/tmp/redis-data",
        "--dbfilename",
        "dump.rdb",
    ]))
    .expect("dir flags parse");
    assert_eq!(
        handle_config_get(&cfg, String::from("dir")),
        "*2\r\n$3\r\ndir\r\n$15\r\n/tmp/redis-data\r\n"
    );
    assert_eq!(
        handle_config_get(&cfg, String::from("dbfilename")),
        "*2\r\n$10\r\ndbfilename\r\n$8\r\ndump.rdb\r\n"
    );
}

#[test]
fn info_on_master_pins_the_replication_section() {
    let cfg = Config::parse(&args(&["server"])).expect("defaults parse");
    let expected_body =
        "role:master\nmaster_replid:8371b4fb1155b71f4a04d3e1bc3e18c4a990aeeb\nmaster_repl_offset:0\n";
    let expected = format!("${}\r\n{}\r\n", expected_body.len(), expected_body);
    assert_eq!(handle_info(String::from("replication"), &cfg), Some(expected));
}

#[test]
fn info_is_silent_on_a_replica() {
    let cfg = Config::parse(&args(&["server", "--replicaof", "localhost", "6379"]))
        .expect("replicaof parses");
    assert_eq!(handle_info(String::from("replication"), &cfg), None);
}
