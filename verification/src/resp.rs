//! The RESP wire frames and their encoding, as a sequence of characters.

use vstd::prelude::*;
use vstd::utf8::encode_utf8;
use crate::text::dec_nat;

pub mod resp_deserializer;
pub mod resp_serializer;

verus! {

/// A single frame of the wire protocol.
#[derive(Debug, PartialEq)]
pub enum RespType {
    Integer(i64),
    SimpleString(String),
    Error(String),
    BulkString(Option<String>),
    Array(Vec<RespType>),
}

/// The frame terminator.
pub open spec fn crlf() -> Seq<char> {
    seq!['\r', '\n']
}

/// Encoding of a bulk string: `$<len>\r\n<payload>\r\n`, where the length
/// counts the bytes of the payload's UTF-8 encoding, as it does on the wire.
pub open spec fn spec_bulk(w: Seq<char>) -> Seq<char> {
    seq!['$'] + dec_nat(encode_utf8(w).len()) + crlf() + w + crlf()
}

/// Concatenated bulk-string encodings.
pub open spec fn spec_bulks(ws: Seq<Seq<char>>) -> Seq<char>
    decreases ws.len(),
{
    if ws.len() == 0 {
        Seq::empty()
    } else {
        spec_bulk(ws.first()) + spec_bulks(ws.drop_first())
    }
}

/// Encoding of an array of bulk strings: `*<k>\r\n` then each element.
pub open spec fn encode_words(ws: Seq<Seq<char>>) -> Seq<char> {
    seq!['*'] + dec_nat(ws.len()) + crlf() + spec_bulks(ws)
}

/// Signed decimal text.
pub open spec fn dec_int(i: int) -> Seq<char> {
    if i >= 0 {
        dec_nat(i as nat)
    } else {
        seq!['-'] + dec_nat((-i) as nat)
    }
}

/// Encoding of a simple-string reply, `+<text>\r\n`.
pub open spec fn spec_simple(t: Seq<char>) -> Seq<char> {
    seq!['+'] + t + crlf()
}

/// Encoding of an integer reply, `:<i>\r\n`.
pub open spec fn spec_integer(i: int) -> Seq<char> {
    seq![':'] + dec_int(i) + crlf()
}

/// The payload of a bulk-string frame; empty for any other frame.
pub open spec fn bulk_word(r: RespType) -> Seq<char> {
    match r {
        RespType::BulkString(Some(s)) => s@,
        _ => Seq::empty(),
    }
}

/// The payloads of a sequence of bulk-string frames.
pub open spec fn array_words(v: Seq<RespType>) -> Seq<Seq<char>> {
    v.map_values(|e: RespType| bulk_word(e))
}

/// Frames the serializer supports: every kind, with array elements
/// restricted to present bulk strings (the only arrays the server emits).
pub open spec fn serializable(r: RespType) -> bool {
    match r {
        RespType::Array(v) => forall|i: int|
            0 <= i < v@.len() ==> (#[trigger] v@[i]) matches RespType::BulkString(Some(_)),
        _ => true,
    }
}

/// The character encoding of a frame.
pub open spec fn spec_encode(r: RespType) -> Seq<char> {
    match r {
        RespType::Integer(i) => seq![':'] + dec_int(i as int) + crlf(),
        RespType::SimpleString(s) => seq!['+'] + s@ + crlf(),
        RespType::Error(s) => seq!['-'] + s@ + crlf(),
        RespType::BulkString(Some(s)) => spec_bulk(s@),
        RespType::BulkString(None) => seq!['$', '-', '1', '\r', '\n'],
        RespType::Array(v) => encode_words(array_words(v@)),
    }
}

pub proof fn lemma_bulks_snoc(ws: Seq<Seq<char>>, w: Seq<char>)
    ensures
        spec_bulks(ws.push(w)) == spec_bulks(ws) + spec_bulk(w),
    decreases ws.len(),
{
    let p = ws.push(w);
    if ws.len() == 0 {
        assert(p.first() == w);
        assert(p.drop_first() =~= Seq::<Seq<char>>::empty());
        assert(spec_bulks(p.drop_first()) == Seq::<char>::empty());
        assert(spec_bulks(p) == spec_bulk(w) + spec_bulks(p.drop_first()));
        assert(spec_bulk(w) + Seq::<char>::empty() =~= spec_bulk(w));
        assert(spec_bulks(ws) == Seq::<char>::empty());
        assert(Seq::<char>::empty() + spec_bulk(w) =~= spec_bulk(w));
    } else {
        lemma_bulks_snoc(ws.drop_first(), w);
        assert(p.first() == ws.first());
        assert(p.drop_first() =~= ws.drop_first().push(w));
        assert(spec_bulks(p) == spec_bulk(ws.first()) + spec_bulks(ws.drop_first().push(w)));
        assert(spec_bulks(p) == spec_bulk(ws.first()) + (spec_bulks(ws.drop_first()) + spec_bulk(
            w,
        )));
        assert(spec_bulks(ws) == spec_bulk(ws.first()) + spec_bulks(ws.drop_first()));
        assert(spec_bulks(p) =~= spec_bulks(ws) + spec_bulk(w));
    }
}

} // verus!
