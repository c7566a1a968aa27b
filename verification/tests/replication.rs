use miniredis::redis::commands::Command;
use miniredis::redis::processing::{
    ack_offset, handle_get, handle_set, handle_wait, wait_begin, WaitAction,
};
use miniredis::redis::replica::{
    check_handshake_reply, handle_replconf, handle_replconf_getack, handshake_messages,
};
use miniredis::redis::synchronize::{construct_rdb, fullresync_response, snapshot_envelope};
use miniredis::redis::{ConnCounters, RedisState, ReplicaRegistry};
use miniredis::resp::resp_deserializer::{
    decode_command, decode_snapshot_header, DecodeResult, SnapshotHeader,
};
use miniredis::store::Store;

const GETACK_FRAME: &str = "*3\r\n$8\r\nREPLCONF\r\n$6\r\nGETACK\r\n$1\r\n*\r\n";

fn decode(input: &str) -> (Command, usize) {
    match decode_command(input) {
        DecodeResult::Complete(c, nbytes, _nchars) => (c, nbytes),
        _ => panic!("expected a complete frame in {:?}", input),
    }
}

#[test]
fn replica_handshake_messages_are_exact() {
    let msgs = handshake_messages(&String::from("6380"));
    assert_eq!(msgs.len(), 4);
    assert_eq!(msgs[0], "*1\r\n$4\r\nPING\r\n");
    assert_eq!(
        msgs[1],
        "*3\r\n$8\r\nREPLCONF\r\n$14\r\nlistening-port\r\n$4\r\n6380\r\n"
    );
    assert_eq!(msgs[2], "*3\r\n$8\r\nREPLCONF\r\n$4\r\ncapa\r\n$6\r\npsync2\r\n");
    assert_eq!(msgs[3], "*3\r\n$5\r\nPSYNC\r\n$1\r\n?\r\n$2\r\n-1\r\n");
}

#[test]
fn replica_checks_each_handshake_reply() {
    assert!(check_handshake_reply(0, "+PONG\r\n"));
    assert!(!check_handshake_reply(0, "+OK\r\n"));
    assert!(check_handshake_reply(1, "+OK\r\n"));
    assert!(check_handshake_reply(2, "+OK\r\n"));
    assert!(!check_handshake_reply(2, "+PONG\r\n"));
    assert!(check_handshake_reply(
        3,
        "+FULLRESYNC 8371b4fb1155b71f4a04d3e1bc3e18c4a990aeeb 0\r\n"
    ));
    assert!(!check_handshake_reply(3, "+OK\r\n"));
}

#[test]
fn master_side_handshake_replies() {
    assert_eq!(handle_replconf(), "+OK\r\n");
    let id = String::from("8371b4fb1155b71f4a04d3e1bc3e18c4a990aeeb");
    assert_eq!(
        fullresync_response(&id),
        "+FULLRESYNC 8371b4fb1155b71f4a04d3e1bc3e18c4a990aeeb 0\r\n"
    );
    let rdb = construct_rdb();
    assert_eq!(rdb.len(), 88);
    let envelope = snapshot_envelope(&rdb);
    assert_eq!(&envelope[..5], b"$88\r\n");
    assert_eq!(&envelope[5..], &rdb[..]);
    // no trailing terminator after the snapshot payload
    assert_eq!(envelope.len(), 5 + 88);
}

#[test]
fn snapshot_envelope_header_decodes() {
    match decode_snapshot_header("$88\r\n") {
        SnapshotHeader::Complete(n, j) => {
            assert_eq!(n, 88);
            assert_eq!(j, 5);
        }
        _ => panic!("expected a complete envelope header"),
    }
    assert!(matches!(decode_snapshot_header("$8"), SnapshotHeader::Incomplete));
    assert!(matches!(decode_snapshot_header("$88\r"), SnapshotHeader::Incomplete));
    assert!(matches!(decode_snapshot_header("+OK\r\n"), SnapshotHeader::Invalid));
    assert!(matches!(decode_snapshot_header("$x\r\n"), SnapshotHeader::Invalid));
}

#[test]
fn propagation_applies_the_exact_frame_on_the_replica() {
    // a client writes on the master
    let frame = "*3\r\n$3\r\nSET\r\n$1\r\nx\r\n$1\r\n1\r\n";
    let (cmd, n) = decode(frame);
    assert_eq!(n, frame.len());
    assert!(cmd.is_write());
    let mut master_store = Store::new();
    let (key, value, life) = match cmd {
        Command::SetVal(k, v, l) => (k, v, l),
        _ => panic!("expected SET"),
    };
    let reply = handle_set(key, value, life, &mut master_store, 0, RedisState::Master);
    assert_eq!(reply, Some(String::from("+OK\r\n")));

    // the master forwards the raw frame bytes; the replica decodes the very
    // same bytes, applies them silently, and serves reads
    let propagated = &frame[..n];
    let (cmd2, n2) = decode(propagated);
    assert_eq!(n2, propagated.len());
    let mut replica_store = Store::new();
    let (key2, value2, life2) = match cmd2 {
        Command::SetVal(k, v, l) => (k, v, l),
        _ => panic!("expected SET"),
    };
    let silent = handle_set(key2, value2, life2, &mut replica_store, 0, RedisState::Replica);
    assert_eq!(silent, None);
    assert_eq!(handle_get(String::from("x"), &replica_store, 0), "$1\r\n1\r\n");
}

#[test]
fn offsets_accumulate_per_frame_on_a_replica() {
    let mut c = ConnCounters::new();
    c.record_frame(RedisState::Replica, true, 29);
    c.record_frame(RedisState::Replica, false, 14);
    c.record_frame(RedisState::Replica, false, 37);
    assert_eq!(c.total_bytes_processed, 80);
    assert_eq!(c.write_bytes_processed, 0);
    assert_eq!(c.write_commands_since_wait, 0);
}

#[test]
fn offsets_track_writes_on_a_master() {
    let mut c = ConnCounters::new();
    c.record_frame(RedisState::Master, true, 29);
    c.record_frame(RedisState::Master, false, 14);
    c.record_frame(RedisState::Master, true, 31);
    assert_eq!(c.write_bytes_processed, 60);
    assert_eq!(c.write_commands_since_wait, 2);
    assert_eq!(c.total_bytes_processed, 0);
    c.reset_wait();
    assert_eq!(c.write_commands_since_wait, 0);
    assert_eq!(c.write_bytes_processed, 60);
}

#[test]
fn getack_reply_subtracts_the_probe_frame_itself() {
    // the replica processed one 27-byte SET, then the 37-byte GETACK
    let mut c = ConnCounters::new();
    c.record_frame(RedisState::Replica, true, 27);
    let (probe, probe_len) = decode(GETACK_FRAME);
    assert_eq!(probe_len, 37);
    c.record_frame(RedisState::Replica, probe.is_write(), probe_len as u64);
    assert_eq!(c.total_bytes_processed, 64);
    let reply = handle_replconf_getack(c.total_bytes_processed, probe_len as u64);
    assert_eq!(reply, "*3\r\n$8\r\nREPLCONF\r\n$3\r\nACK\r\n$2\r\n27\r\n");
}

#[test]
fn wait_with_no_outstanding_writes_reports_registry_size() {
    match wait_begin(0, 2) {
        WaitAction::Immediate(r) => assert_eq!(r, ":2\r\n"),
        WaitAction::Probe(_) => panic!("expected an immediate reply"),
    }
    match wait_begin(0, 0) {
        WaitAction::Immediate(r) => assert_eq!(r, ":0\r\n"),
        WaitAction::Probe(_) => panic!("expected an immediate reply"),
    }
}

#[test]
fn wait_with_writes_probes_with_getack() {
    match wait_begin(1, 1) {
        WaitAction::Probe(g) => assert_eq!(g, GETACK_FRAME),
        WaitAction::Immediate(_) => panic!("expected a probe"),
    }
}

#[test]
fn wait_counts_replicas_that_reached_the_target() {
    // one replica acking in time: reply :1
    assert_eq!(handle_wait(&vec![Some(31)], 31), ":1\r\n");
    // no replica responding: reply :0
    assert_eq!(handle_wait(&vec![None], 31), ":0\r\n");
    // stale ack below the target does not count; timeouts are skipped
    assert_eq!(handle_wait(&vec![Some(30), Some(31), None, Some(40)], 31), ":2\r\n");
    // all of k replicas acking by the deadline: reply k
    assert_eq!(handle_wait(&vec![Some(64), Some(64), Some(99)], 64), ":3\r\n");
}

#[test]
fn ack_replies_parse_exactly() {
    let (c, _) = decode("*3\r\n$8\r\nREPLCONF\r\n$3\r\nACK\r\n$2\r\n27\r\n");
    assert_eq!(ack_offset(&c), Some(27));
    let (c2, _) = decode("*3\r\n$8\r\nREPLCONF\r\n$3\r\nACK\r\n$1\r\nx\r\n");
    assert_eq!(ack_offset(&c2), None);
    let (c3, _) = decode("*2\r\n$8\r\nREPLCONF\r\n$6\r\nGETACK\r\n");
    assert_eq!(ack_offset(&c3), None);
    assert_eq!(ack_offset(&Command::Ping), None);
}

#[test]
fn registry_keeps_handles_sorted_and_unique() {
    let mut reg = ReplicaRegistry::new();
    assert_eq!(reg.len(), 0);
    reg.register(7);
    reg.register(3);
    reg.register(11);
    reg.register(7);
    assert_eq!(reg.len(), 3);
    assert_eq!(reg.sorted_handles(), vec![3, 7, 11]);
    assert!(reg.contains_handle(7));
    assert!(!reg.contains_handle(8));
    reg.remove(7);
    assert_eq!(reg.len(), 2);
    assert!(!reg.contains_handle(7));
    assert_eq!(reg.sorted_handles(), vec![3, 11]);
    reg.remove(99);
    assert_eq!(reg.len(), 2);
}
