//! Master-side synchronization: the full-resync reply, the snapshot
//! envelope, and the snapshot bytes themselves.

use vstd::prelude::*;
use crate::resp::crlf;
use crate::text::{dec_bytes, u64_to_dec_bytes};

verus! {

/// The bytes of an empty, valid on-disk snapshot, pushed to a replica right
/// after `+FULLRESYNC`. The store is empty at handshake time, so a fixed
/// empty snapshot represents its state.
pub open spec fn empty_rdb() -> Seq<u8> {
    seq![
        0x52u8, 0x45, 0x44, 0x49, 0x53, 0x30, 0x30, 0x31, 0x31, 0xfa,
        0x09, 0x72, 0x65, 0x64, 0x69, 0x73, 0x2d, 0x76, 0x65, 0x72,
        0x05, 0x37, 0x2e, 0x32, 0x2e, 0x30, 0xfa, 0x0a, 0x72, 0x65,
        0x64, 0x69, 0x73, 0x2d, 0x62, 0x69, 0x74, 0x73, 0xc0, 0x40,
        0xfa, 0x05, 0x63, 0x74, 0x69, 0x6d, 0x65, 0xc2, 0x6d, 0x08,
        0xbc, 0x65, 0xfa, 0x08, 0x75, 0x73, 0x65, 0x64, 0x2d, 0x6d,
        0x65, 0x6d, 0xc2, 0xb0, 0xc4, 0x10, 0x00, 0xfa, 0x08, 0x61,
        0x6f, 0x66, 0x2d, 0x62, 0x61, 0x73, 0x65, 0xc0, 0x00, 0xff,
        0xf0, 0x6e, 0x3b, 0xfe, 0xc0, 0xff, 0x5a, 0xa2,
    ]
}

/// Builds the empty snapshot.
pub fn construct_rdb() -> (r: Vec<u8>)
    ensures
        r@ == empty_rdb(),
{
    let mut v: Vec<u8> = Vec::new();
    v.push(0x52);
    v.push(0x45);
    v.push(0x44);
    v.push(0x49);
    v.push(0x53);
    v.push(0x30);
    v.push(0x30);
    v.push(0x31);
    v.push(0x31);
    v.push(0xfa);
    v.push(0x09);
    v.push(0x72);
    v.push(0x65);
    v.push(0x64);
    v.push(0x69);
    v.push(0x73);
    v.push(0x2d);
    v.push(0x76);
    v.push(0x65);
    v.push(0x72);
    v.push(0x05);
    v.push(0x37);
    v.push(0x2e);
    v.push(0x32);
    v.push(0x2e);
    v.push(0x30);
    v.push(0xfa);
    v.push(0x0a);
    v.push(0x72);
    v.push(0x65);
    v.push(0x64);
    v.push(0x69);
    v.push(0x73);
    v.push(0x2d);
    v.push(0x62);
    v.push(0x69);
    v.push(0x74);
    v.push(0x73);
    v.push(0xc0);
    v.push(0x40);
    v.push(0xfa);
    v.push(0x05);
    v.push(0x63);
    v.push(0x74);
    v.push(0x69);
    v.push(0x6d);
    v.push(0x65);
    v.push(0xc2);
    v.push(0x6d);
    v.push(0x08);
    v.push(0xbc);
    v.push(0x65);
    v.push(0xfa);
    v.push(0x08);
    v.push(0x75);
    v.push(0x73);
    v.push(0x65);
    v.push(0x64);
    v.push(0x2d);
    v.push(0x6d);
    v.push(0x65);
    v.push(0x6d);
    v.push(0xc2);
    v.push(0xb0);
    v.push(0xc4);
    v.push(0x10);
    v.push(0x00);
    v.push(0xfa);
    v.push(0x08);
    v.push(0x61);
    v.push(0x6f);
    v.push(0x66);
    v.push(0x2d);
    v.push(0x62);
    v.push(0x61);
    v.push(0x73);
    v.push(0x65);
    v.push(0xc0);
    v.push(0x00);
    v.push(0xff);
    v.push(0xf0);
    v.push(0x6e);
    v.push(0x3b);
    v.push(0xfe);
    v.push(0xc0);
    v.push(0xff);
    v.push(0x5a);
    v.push(0xa2);
    proof {
        assert(v@ =~= empty_rdb());
    }
    v
}

/// The snapshot envelope: `$<n>\r\n` then the payload bytes, with no
/// trailing terminator.
pub open spec fn spec_envelope(payload: Seq<u8>) -> Seq<u8> {
    seq![36u8] + dec_bytes(payload.len()) + seq![13u8, 10u8] + payload
}

/// Frames a snapshot for the wire.
pub fn snapshot_envelope(payload: &Vec<u8>) -> (r: Vec<u8>)
    ensures
        r@ == spec_envelope(payload@),
{
    let mut out: Vec<u8> = Vec::new();
    out.push(36);
    let mut digits = u64_to_dec_bytes(payload.len() as u64);
    out.append(&mut digits);
    out.push(13);
    out.push(10);
    let ghost head = out@;
    let n = payload.len();
    let mut i: usize = 0;
    while i < n
        invariant
            0 <= i <= n,
            n == payload@.len(),
            out@ == head + payload@.take(i as int),
        decreases n - i,
    {
        out.push(payload[i]);
        proof {
            assert(head + payload@.take(i as int).push(payload@[i as int]) =~= head
                + payload@.take(i + 1));
        }
        i += 1;
    }
    proof {
        assert(head + payload@.take(n as int) =~= spec_envelope(payload@));
    }
    out
}

/// The master's reply to `PSYNC ? -1`: `+FULLRESYNC <replid> 0\r\n`.
pub fn fullresync_response(replid: &String) -> (r: String)
    ensures
        r@ == "+FULLRESYNC "@ + replid@ + " 0"@ + crlf(),
{
    let mut out = String::from_str("+FULLRESYNC ");
    out.append(replid.as_str());
    out.append(" 0\r\n");
    proof {
        reveal_strlit(" 0\r\n");
        reveal_strlit(" 0");
        assert(out@ =~= "+FULLRESYNC "@ + replid@ + " 0"@ + crlf());
    }
    out
}

} // verus!
