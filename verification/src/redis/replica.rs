//! The master-replica handshake and the replica's acknowledgements.

use vstd::prelude::*;
use crate::redis::commands::{words_of, CmdV, Command};
use crate::resp::{encode_words, spec_simple, RespType};
use crate::resp::resp_serializer::{serialize_command, serialize_resp_data};
use crate::text::{dec_nat, str_eq, str_starts_with, u64_to_string};

verus! {

/// `+OK\r\n`: the master's reply to each handshake `REPLCONF`.
pub fn handle_replconf() -> (r: String)
    ensures
        r@ == spec_simple("OK"@),
{
    serialize_resp_data(RespType::SimpleString(String::from_str("OK")))
}

/// The replica's `REPLCONF ACK <n>` reply to a `GETACK` probe. The counter
/// was already advanced past the probe frame itself, so the frame's length
/// is subtracted: `n` counts the bytes processed before the probe.
pub fn handle_replconf_getack(total_bytes_processed: u64, getack_frame_len: u64) -> (r: String)
    requires
        getack_frame_len <= total_bytes_processed,
    ensures
        r@ == encode_words(
            words_of(
                CmdV::ReplConf(
                    "ACK"@,
                    Some(dec_nat((total_bytes_processed - getack_frame_len) as nat)),
                ),
            ),
        ),
{
    let n: u64 = total_bytes_processed - getack_frame_len;
    serialize_command(&Command::ReplConf(String::from_str("ACK"), Some(u64_to_string(n))))
}

/// The four frames a replica sends its master at startup, in order: `PING`,
/// `REPLCONF listening-port <own port>`, `REPLCONF capa psync2`, and
/// `PSYNC ? -1`.
pub fn handshake_messages(own_port: &String) -> (r: Vec<String>)
    ensures
        r@.len() == 4,
        r@[0]@ == encode_words(words_of(CmdV::Ping)),
        r@[1]@ == encode_words(words_of(CmdV::ReplConf("listening-port"@, Some(own_port@)))),
        r@[2]@ == encode_words(words_of(CmdV::ReplConf("capa"@, Some("psync2"@)))),
        r@[3]@ == encode_words(words_of(CmdV::Psync("?"@, "-1"@))),
{
    let mut out: Vec<String> = Vec::new();
    out.push(serialize_command(&Command::Ping));
    out.push(
        serialize_command(
            &Command::ReplConf(String::from_str("listening-port"), Some(own_port.clone())),
        ),
    );
    out.push(
        serialize_command(
            &Command::ReplConf(String::from_str("capa"), Some(String::from_str("psync2"))),
        ),
    );
    out.push(serialize_command(&Command::Psync(String::from_str("?"), String::from_str("-1"))));
    out
}

/// What the replica must read back after each handshake step: `+PONG`, then
/// `+OK` twice, then a reply opening with `+FULLRESYNC`.
pub open spec fn expected_reply(step: int, reply: Seq<char>) -> bool {
    if step == 0 {
        reply == spec_simple("PONG"@)
    } else if step == 1 || step == 2 {
        reply == spec_simple("OK"@)
    } else {
        reply.len() >= "+FULLRESYNC"@.len() && reply.subrange(0, "+FULLRESYNC"@.len() as int)
            == "+FULLRESYNC"@
    }
}

/// Checks one handshake reply; a failed check is fatal to the handshake.
pub fn check_handshake_reply(step: usize, reply: &str) -> (r: bool)
    ensures
        r == expected_reply(step as int, reply@),
{
    if step == 0 {
        proof {
            reveal_strlit("+PONG\r\n");
            reveal_strlit("PONG");
            assert("+PONG\r\n"@ =~= spec_simple("PONG"@));
        }
        str_eq(reply, "+PONG\r\n")
    } else if step == 1 || step == 2 {
        proof {
            reveal_strlit("+OK\r\n");
            reveal_strlit("OK");
            assert("+OK\r\n"@ =~= spec_simple("OK"@));
        }
        str_eq(reply, "+OK\r\n")
    } else {
        str_starts_with(reply, "+FULLRESYNC")
    }
}

} // verus!
