//! Serialization of frames and commands to wire text.

use vstd::prelude::*;
use vstd::string::StringSliceAdditionalSpecFns;
use vstd::utf8::encode_utf8;
use crate::redis::commands::{words_of, Command};
use crate::resp::{
    array_words, bulk_word, crlf, dec_int, encode_words, lemma_bulks_snoc, serializable,
    spec_bulk, spec_bulks, spec_encode, RespType,
};
use crate::text::{dec_nat, u64_to_string};

verus! {

/// The null bulk string reply, `$-1\r\n`.
pub fn create_null_string() -> (r: String)
    ensures
        r@ == spec_encode(RespType::BulkString(None)),
{
    proof {
        reveal_strlit("$-1\r\n");
        assert("$-1\r\n"@ =~= seq!['$', '-', '1', '\r', '\n']);
    }
    String::from_str("$-1\r\n")
}

/// Signed decimal text of `i`.
fn i64_to_string(i: i64) -> (r: String)
    ensures
        r@ == dec_int(i as int),
{
    if i >= 0 {
        let r = u64_to_string(i as u64);
        r
    } else {
        let m: u64 = ((-(i + 1)) as u64) + 1;
        assert(m as nat == (-(i as int)) as nat);
        let mut r = String::from_str("-");
        r.append(u64_to_string(m).as_str());
        proof {
            reveal_strlit("-");
            assert(r@ =~= seq!['-'] + dec_nat((-(i as int)) as nat));
        }
        r
    }
}

/// Serializes one bulk string: `$<len>\r\n<payload>\r\n`.
pub fn serialize_bulk_string(data: String) -> (r: String)
    ensures
        r@ == spec_bulk(data@),
{
    let ds = data.as_str();
    let len: usize = ds.as_bytes().len();
    proof {
        assert(ds.spec_bytes() == encode_utf8(data@));
    }
    let len_str = u64_to_string(len as u64);
    let mut out = String::from_str("$");
    out.append(len_str.as_str());
    out.append("\r\n");
    out.append(data.as_str());
    out.append("\r\n");
    proof {
        reveal_strlit("$");
        reveal_strlit("\r\n");
        assert(out@ =~= spec_bulk(data@));
    }
    out
}

/// Serializes an array of present bulk strings: `*<k>\r\n` then each element.
pub fn serialize_array(data: Vec<RespType>) -> (r: String)
    requires
        forall|i: int|
            0 <= i < data@.len() ==> (#[trigger] data@[i]) matches RespType::BulkString(Some(_)),
    ensures
        r@ == encode_words(array_words(data@)),
{
    let ghost ws = array_words(data@);
    let mut out = String::from_str("*");
    out.append(u64_to_string(data.len() as u64).as_str());
    out.append("\r\n");
    proof {
        reveal_strlit("*");
        reveal_strlit("\r\n");
        assert(ws.take(0) =~= Seq::<Seq<char>>::empty());
        assert(out@ =~= seq!['*'] + dec_nat(data@.len() as nat) + crlf() + spec_bulks(ws.take(0)));
    }
    let mut i: usize = 0;
    while i < data.len()
        invariant
            0 <= i <= data@.len(),
            ws == array_words(data@),
            forall|j: int|
                0 <= j < data@.len() ==> (#[trigger] data@[j]) matches RespType::BulkString(
                    Some(_),
                ),
            out@ == seq!['*'] + dec_nat(data@.len() as nat) + crlf() + spec_bulks(
                ws.take(i as int),
            ),
        decreases data@.len() - i,
    {
        let piece = match &data[i] {
            RespType::BulkString(Some(s)) => serialize_bulk_string(s.clone()),
            _ => {
                proof {
                    assert(data@[i as int] matches RespType::BulkString(Some(_)));
                    assert(false);
                }
                String::new()
            },
        };
        proof {
            assert(ws[i as int] == bulk_word(data@[i as int]));
            assert(piece@ == spec_bulk(ws[i as int]));
            lemma_bulks_snoc(ws.take(i as int), ws[i as int]);
            assert(ws.take(i as int).push(ws[i as int]) =~= ws.take(i + 1));
        }
        out.append(piece.as_str());
        i += 1;
    }
    proof {
        assert(ws.take(data@.len() as int) =~= ws);
    }
    out
}

/// Serializes any supported frame to its wire text.
pub fn serialize_resp_data(data: RespType) -> (r: String)
    requires
        serializable(data),
    ensures
        r@ == spec_encode(data),
{
    match data {
        RespType::Integer(i) => {
            let mut out = String::from_str(":");
            out.append(i64_to_string(i).as_str());
            out.append("\r\n");
            proof {
                reveal_strlit(":");
                reveal_strlit("\r\n");
                assert(out@ =~= seq![':'] + dec_int(i as int) + crlf());
            }
            out
        },
        RespType::SimpleString(s) => {
            let mut out = String::from_str("+");
            out.append(s.as_str());
            out.append("\r\n");
            proof {
                reveal_strlit("+");
                reveal_strlit("\r\n");
                assert(out@ =~= seq!['+'] + s@ + crlf());
            }
            out
        },
        RespType::Error(s) => {
            let mut out = String::from_str("-");
            out.append(s.as_str());
            out.append("\r\n");
            proof {
                reveal_strlit("-");
                reveal_strlit("\r\n");
                assert(out@ =~= seq!['-'] + s@ + crlf());
            }
            out
        },
        RespType::BulkString(Some(x)) => serialize_bulk_string(x),
        RespType::BulkString(None) => create_null_string(),
        RespType::Array(v) => serialize_array(v),
    }
}

/// A present bulk string holding the given text.
fn bs(s: &str) -> (r: RespType)
    ensures
        r matches RespType::BulkString(Some(_)),
        bulk_word(r) == s@,
{
    RespType::BulkString(Some(String::from_str(s)))
}

/// Serializes a command as the array of bulk strings `words_of` describes.
pub fn serialize_command(command: &Command) -> (r: String)
    ensures
        r@ == encode_words(words_of(command@)),
{
    let mut items: Vec<RespType> = Vec::new();
    match command {
        Command::Ping => {
            items.push(bs("PING"));
            proof {
                assert(array_words(items@) =~= words_of(command@));
            }
        },
        Command::Echo(m) => {
            items.push(bs("ECHO"));
            items.push(RespType::BulkString(Some(m.clone())));
            proof {
                assert(array_words(items@) =~= words_of(command@));
            }
        },
        Command::SetVal(k, v, e) => {
            items.push(bs("SET"));
            items.push(RespType::BulkString(Some(k.clone())));
            items.push(RespType::BulkString(Some(v.clone())));
            match e {
                Some(ms) => {
                    items.push(bs("PX"));
                    items.push(RespType::BulkString(Some(u64_to_string(*ms))));
                    proof {
                        assert(array_words(items@) =~= words_of(command@));
                    }
                },
                None => {
                    proof {
                        assert(array_words(items@) =~= words_of(command@));
                    }
                },
            }
        },
        Command::Get(k) => {
            items.push(bs("GET"));
            items.push(RespType::BulkString(Some(k.clone())));
            proof {
                assert(array_words(items@) =~= words_of(command@));
            }
        },
        Command::Info(s) => {
            items.push(bs("INFO"));
            items.push(RespType::BulkString(Some(s.clone())));
            proof {
                assert(array_words(items@) =~= words_of(command@));
            }
        },
        Command::ReplConf(a, b) => {
            items.push(bs("REPLCONF"));
            items.push(RespType::BulkString(Some(a.clone())));
            match b {
                Some(x) => {
                    items.push(RespType::BulkString(Some(x.clone())));
                    proof {
                        assert(array_words(items@) =~= words_of(command@));
                    }
                },
                None => {
                    proof {
                        assert(array_words(items@) =~= words_of(command@));
                    }
                },
            }
        },
        Command::Psync(id, off) => {
            items.push(bs("PSYNC"));
            items.push(RespType::BulkString(Some(id.clone())));
            items.push(RespType::BulkString(Some(off.clone())));
            proof {
                assert(array_words(items@) =~= words_of(command@));
            }
        },
        Command::Wait(n, t) => {
            items.push(bs("WAIT"));
            items.push(RespType::BulkString(Some(u64_to_string(*n))));
            items.push(RespType::BulkString(Some(u64_to_string(*t))));
            proof {
                assert(array_words(items@) =~= words_of(command@));
            }
        },
        Command::ConfigGet(p) => {
            items.push(bs("CONFIG"));
            items.push(bs("GET"));
            items.push(RespType::BulkString(Some(p.clone())));
            proof {
                assert(array_words(items@) =~= words_of(command@));
            }
        },
        Command::Keys(p) => {
            items.push(bs("KEYS"));
            items.push(RespType::BulkString(Some(p.clone())));
            proof {
                assert(array_words(items@) =~= words_of(command@));
            }
        },
    }
    assert(forall|i: int|
        0 <= i < items@.len() ==> (#[trigger] items@[i]) matches RespType::BulkString(Some(_)));
    assert(array_words(items@) == words_of(command@));
    serialize_resp_data(RespType::Array(items))
}

} // verus!
