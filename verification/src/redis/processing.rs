//! Per-command handlers: pure computation of responses and store effects.
//!
//! On a replica the commands `PING`, `ECHO`, `SET` and `INFO` arrive on the
//! propagation stream and must be answered silently; those handlers return
//! a response only when the role is master. The caller writes whatever
//! response comes back to the connection.

use vstd::prelude::*;
use crate::config::{Config, ConfigV};
use crate::redis::commands::{is_u64_word, words_of, CmdV, Command};
use crate::redis::RedisState;
use crate::resp::{
    array_words, bulk_word, encode_words, spec_bulk, spec_integer, spec_simple, RespType,
};
use crate::resp::resp_serializer::{
    create_null_string, serialize_command, serialize_resp_data,
};
use crate::store::{fresh, Entry, Store};
use crate::text::{digits_val, eq_ignore_case, parse_u64, str_eq, word_matches};

verus! {

/// `PING`: `+PONG\r\n`, only on a master.
pub fn handle_ping(role: RedisState) -> (r: Option<String>)
    ensures
        role == RedisState::Master ==> (r matches Some(x) && x@ == spec_simple("PONG"@)),
        role == RedisState::Replica ==> r is None,
{
    if role == RedisState::Master {
        Some(serialize_resp_data(RespType::SimpleString(String::from_str("PONG"))))
    } else {
        None
    }
}

/// `ECHO`: the message back as a bulk string, only on a master.
pub fn handle_echo(message: String, role: RedisState) -> (r: Option<String>)
    ensures
        role == RedisState::Master ==> (r matches Some(x) && x@ == spec_bulk(message@)),
        role == RedisState::Replica ==> r is None,
{
    if role == RedisState::Master {
        Some(serialize_resp_data(RespType::BulkString(Some(message))))
    } else {
        None
    }
}

/// The absolute deadline a `SET` lifetime denotes at time `now`.
pub open spec fn spec_deadline(lifespan: Option<u64>, now: u64) -> Option<u64> {
    match lifespan {
        None => None,
        Some(d) => Some((now + d) as u64),
    }
}

/// `SET`: upserts the key; a `PX` lifetime becomes an absolute deadline,
/// and a write without one clears any earlier deadline. Replies `+OK` only
/// on a master.
pub fn handle_set(
    key: String,
    value: String,
    lifespan: Option<u64>,
    store: &mut Store,
    now: u64,
    role: RedisState,
) -> (r: Option<String>)
    requires
        old(store).wf(),
        lifespan matches Some(d) ==> now + d <= u64::MAX,
    ensures
        final(store).wf(),
        final(store)@ == old(store)@.insert(key@, (value@, spec_deadline(lifespan, now))),
        role == RedisState::Master ==> (r matches Some(x) && x@ == spec_simple("OK"@)),
        role == RedisState::Replica ==> r is None,
{
    let deadline: Option<u64> = match lifespan {
        Some(d) => Some(now + d),
        None => None,
    };
    store.set(key, value, deadline);
    if role == RedisState::Master {
        Some(serialize_resp_data(RespType::SimpleString(String::from_str("OK"))))
    } else {
        None
    }
}

/// `GET`: the value as a bulk string when the key is present and fresh at
/// `now`, the null bulk string otherwise.
pub fn handle_get(key: String, store: &Store, now: u64) -> (r: String)
    requires
        store.wf(),
    ensures
        store@.contains_key(key@) && fresh(store@[key@].1, now) ==> r@ == spec_bulk(
            store@[key@].0,
        ),
        !(store@.contains_key(key@) && fresh(store@[key@].1, now)) ==> r@ == seq![
            '$',
            '-',
            '1',
            '\r',
            '\n',
        ],
{
    match store.get(&key, now) {
        Some(v) => serialize_resp_data(RespType::BulkString(Some(v))),
        None => create_null_string(),
    }
}

/// What `INFO` reports on a master: the role line and the replication
/// identity lines.
pub open spec fn spec_info(c: ConfigV) -> Seq<char> {
    "role:master\nmaster_replid:"@ + (match c.master_replid {
        Some(x) => x,
        None => Seq::<char>::empty(),
    }) + "\nmaster_repl_offset:"@ + (match c.master_repl_offset {
        Some(x) => x,
        None => Seq::<char>::empty(),
    }) + "\n"@
}

/// `INFO`: a bulk string carrying the replication section, only on a
/// master; on a replica the command arrives on the propagation stream and
/// is answered silently. The section argument is ignored, as every section
/// reported is the same one.
pub fn handle_info(arg: String, config: &Config) -> (r: Option<String>)
    requires
        config.wf(),
    ensures
        config@.role == RedisState::Master ==> (r matches Some(x) && x@ == spec_bulk(
            spec_info(config@),
        )),
        config@.role == RedisState::Replica ==> r is None,
{
    match config.role {
        RedisState::Master => {
            let mut c = String::from_str("role:master\nmaster_replid:");
            match &config.master_replid {
                Some(x) => c.append(x.as_str()),
                None => {
                    proof {
                        assert(false);
                    }
                },
            }
            c.append("\nmaster_repl_offset:");
            match &config.master_repl_offset {
                Some(x) => c.append(x.as_str()),
                None => {
                    proof {
                        assert(false);
                    }
                },
            }
            c.append("\n");
            assert(c@ == spec_info(config@));
            Some(serialize_resp_data(RespType::BulkString(Some(c))))
        },
        RedisState::Replica => None,
    }
}

/// The value `CONFIG GET` reports for a parameter name.
pub open spec fn spec_config_value(c: ConfigV, path: Seq<char>) -> Seq<char> {
    if eq_ignore_case(path, "dir"@) {
        match c.rdb_dir {
            Some(d) => d,
            None => Seq::<char>::empty(),
        }
    } else {
        match c.rdb_filename {
            Some(f) => f,
            None => Seq::<char>::empty(),
        }
    }
}

/// `CONFIG GET`: a two-element array of the parameter name and its value.
/// Only `dir` and `dbfilename` are supported, and only when configured.
pub fn handle_config_get(config: &Config, path_type: String) -> (r: String)
    requires
        (eq_ignore_case(path_type@, "dir"@) && config@.rdb_dir is Some) || (eq_ignore_case(
            path_type@,
            "dbfilename"@,
        ) && config@.rdb_filename is Some),
    ensures
        r@ == encode_words(seq![path_type@, spec_config_value(config@, path_type@)]),
{
    proof {
        reveal_strlit("dir");
        reveal_strlit("dbfilename");
    }
    let value: String = if word_matches(path_type.as_str(), "dir") {
        match &config.rdb_dir {
            Some(d) => d.clone(),
            None => {
                proof {
                    assert(false);
                }
                String::new()
            },
        }
    } else {
        match &config.rdb_filename {
            Some(f) => f.clone(),
            None => {
                proof {
                    assert(false);
                }
                String::new()
            },
        }
    };
    let ghost pv = path_type@;
    let ghost vv = value@;
    let mut items: Vec<RespType> = Vec::new();
    items.push(RespType::BulkString(Some(path_type)));
    items.push(RespType::BulkString(Some(value)));
    proof {
        assert(array_words(items@) =~= seq![pv, vv]);
    }
    serialize_resp_data(RespType::Array(items))
}

/// The keys of the store, in entry order.
pub open spec fn spec_store_keys(s: &Store) -> Seq<Seq<char>> {
    s.entries@.map_values(|e: Entry| e.key@)
}

/// `KEYS`: an array of every key as a bulk string. Only the `*` pattern is
/// in scope, so the pattern argument is not consulted.
pub fn handle_keys(store: &Store, arg: String) -> (r: String)
    ensures
        r@ == encode_words(spec_store_keys(store)),
{
    let ks = store.keys();
    let n = ks.len();
    let mut items: Vec<RespType> = Vec::new();
    let mut i: usize = 0;
    while i < n
        invariant
            0 <= i <= n,
            n == ks@.len(),
            n == store.entries@.len(),
            forall|j: int| 0 <= j < n ==> (#[trigger] ks@[j])@ == store.entries@[j].key@,
            items@.len() == i,
            forall|j: int|
                0 <= j < i ==> (#[trigger] items@[j]) matches RespType::BulkString(Some(_)),
            forall|j: int| 0 <= j < i ==> bulk_word(#[trigger] items@[j]) == ks@[j]@,
        decreases n - i,
    {
        items.push(RespType::BulkString(Some(ks[i].clone())));
        i += 1;
    }
    proof {
        assert(array_words(items@) =~= spec_store_keys(store));
    }
    serialize_resp_data(RespType::Array(items))
}

/// What a `WAIT` does first: with no writes outstanding on this connection
/// it answers at once with the registry size, whatever the timeout; with
/// writes outstanding the replicas must be probed with `REPLCONF GETACK *`.
pub enum WaitAction {
    /// Reply immediately with this integer response.
    Immediate(String),
    /// Send this `GETACK` frame to each replica, then tally the acks.
    Probe(String),
}

/// Begins a `WAIT`: the immediate reply when no write has been seen on this
/// connection since its last `WAIT`, else the probe frame to send.
pub fn wait_begin(write_commands_since_wait: u64, n_replicas: usize) -> (r: WaitAction)
    requires
        n_replicas as int <= i64::MAX as int,
    ensures
        write_commands_since_wait == 0 ==> (r matches WaitAction::Immediate(x) && x@
            == spec_integer(n_replicas as int)),
        write_commands_since_wait > 0 ==> (r matches WaitAction::Probe(g) && g@ == encode_words(
            words_of(CmdV::ReplConf("GETACK"@, Some("*"@))),
        )),
{
    if write_commands_since_wait == 0 {
        WaitAction::Immediate(serialize_resp_data(RespType::Integer(n_replicas as i64)))
    } else {
        WaitAction::Probe(
            serialize_command(
                &Command::ReplConf(String::from_str("GETACK"), Some(String::from_str("*"))),
            ),
        )
    }
}

/// How many probed replicas acknowledged at least `target` bytes; a `None`
/// is a replica whose reply did not arrive in time and is skipped.
pub open spec fn wait_tally(acks: Seq<Option<u64>>, target: u64) -> nat
    decreases acks.len(),
{
    if acks.len() == 0 {
        0
    } else {
        wait_tally(acks.drop_last(), target) + (match acks.last() {
            Some(x) => if x >= target {
                1nat
            } else {
                0nat
            },
            None => 0nat,
        })
    }
}

/// Ends a `WAIT` after probing: the integer reply counting the replicas
/// whose acknowledged offset reached `target`.
pub fn handle_wait(acks: &Vec<Option<u64>>, target: u64) -> (r: String)
    requires
        acks@.len() as int <= i64::MAX as int,
    ensures
        r@ == spec_integer(wait_tally(acks@, target) as int),
{
    let n = acks.len();
    let mut count: usize = 0;
    let mut i: usize = 0;
    while i < n
        invariant
            0 <= i <= n,
            n == acks@.len(),
            count <= i,
            count as nat == wait_tally(acks@.take(i as int), target),
        decreases n - i,
    {
        proof {
            assert(acks@.take(i + 1).drop_last() =~= acks@.take(i as int));
            assert(acks@.take(i + 1).last() == acks@[i as int]);
        }
        match acks[i] {
            Some(x) => {
                if x >= target {
                    count += 1;
                }
            },
            None => {},
        }
        i += 1;
    }
    proof {
        assert(acks@.take(n as int) =~= acks@);
    }
    serialize_resp_data(RespType::Integer(count as i64))
}

/// With every replica acknowledging at least `target` in time, the `WAIT`
/// reply counts them all.
pub proof fn lemma_wait_all_acked(acks: Seq<Option<u64>>, target: u64)
    requires
        forall|i: int|
            0 <= i < acks.len() ==> ((#[trigger] acks[i]) matches Some(x) && x >= target),
    ensures
        wait_tally(acks, target) == acks.len(),
    decreases acks.len(),
{
    if acks.len() > 0 {
        lemma_wait_all_acked(acks.drop_last(), target);
    }
}

/// The role violations, which are fatal to the process: a `REPLCONF
/// GETACK` reaching a master (only masters send it), or a `PSYNC` or
/// `WAIT` reaching a replica (only masters serve them).
pub open spec fn spec_role_violation(c: CmdV, role: RedisState) -> bool {
    match c {
        CmdV::ReplConf(a, _) => role == RedisState::Master && eq_ignore_case(a, "GETACK"@),
        CmdV::Psync(_, _) => role == RedisState::Replica,
        CmdV::Wait(_, _) => role == RedisState::Replica,
        _ => false,
    }
}

/// Whether dispatching this command under this role is a protocol
/// violation that must abort the process.
pub fn role_violation(c: &Command, role: RedisState) -> (r: bool)
    ensures
        r == spec_role_violation(c@, role),
{
    match c {
        Command::ReplConf(a, _) => role == RedisState::Master && word_matches(
            a.as_str(),
            "GETACK",
        ),
        Command::Psync(_, _) => role == RedisState::Replica,
        Command::Wait(_, _) => role == RedisState::Replica,
        _ => false,
    }
}

/// The offset an acknowledgement carries: `REPLCONF ACK <n>` with a decimal
/// `n`, and nothing else, is a valid ack.
pub open spec fn spec_ack_offset(c: CmdV) -> Option<u64> {
    match c {
        CmdV::ReplConf(a, Some(x)) => if a == "ACK"@ && is_u64_word(x) {
            Some(digits_val(x) as u64)
        } else {
            None
        },
        _ => None,
    }
}

/// Reads the acknowledged offset out of a probe reply.
pub fn ack_offset(c: &Command) -> (r: Option<u64>)
    ensures
        r == spec_ack_offset(c@),
{
    match c {
        Command::ReplConf(a, Some(x)) => {
            if str_eq(a.as_str(), "ACK") {
                parse_u64(x.as_str())
            } else {
                None
            }
        },
        _ => None,
    }
}

} // verus!
