//! The streaming command decoder: an array of bulk strings is read off the
//! front of a connection buffer, and the exact count of bytes the frame
//! occupies on the wire is reported for replication offset accounting.

use vstd::prelude::*;
use vstd::string::StringSliceAdditionalSpecFns;
use vstd::utf8::{encode_scalar, encode_utf8};
use crate::redis::commands::{command_from_words, lemma_parse_words_of, parse_words, views_of, words_of, CmdV, Command};
use crate::resp::{crlf, encode_words, spec_bulk, spec_bulks};
use crate::text::{
    dec_nat, digits_val, is_digit, lemma_dec_nat_digits, lemma_dec_nat_val, parse_u64,
};

verus! {

/// Outcome of scanning one element at a position: the element with the
/// position just past it, a request for more input, or a protocol error.
pub ghost enum Scan<T> {
    Found(T, int),
    More,
    Bad,
}

/// The first position at or after `i` that is past the run of digits.
pub open spec fn digit_run_end(s: Seq<char>, i: int) -> int
    decreases s.len() - i, when 0 <= i <= s.len()
{
    if i >= s.len() {
        i
    } else if is_digit(s[i]) {
        digit_run_end(s, i + 1)
    } else {
        i
    }
}

pub proof fn lemma_digit_run_end_bounds(s: Seq<char>, i: int)
    requires
        0 <= i <= s.len(),
    ensures
        i <= digit_run_end(s, i) <= s.len(),
        forall|m: int| i <= m < digit_run_end(s, i) ==> is_digit(#[trigger] s[m]),
        digit_run_end(s, i) < s.len() ==> !is_digit(s[digit_run_end(s, i)]),
    decreases s.len() - i,
{
    if i < s.len() && is_digit(s[i]) {
        lemma_digit_run_end_bounds(s, i + 1);
    }
}

pub proof fn lemma_digit_run_exact(s: Seq<char>, i: int, j: int)
    requires
        0 <= i <= j < s.len(),
        forall|m: int| i <= m < j ==> is_digit(#[trigger] s[m]),
        !is_digit(s[j]),
    ensures
        digit_run_end(s, i) == j,
    decreases j - i,
{
    if i < j {
        lemma_digit_run_exact(s, i + 1, j);
    }
}

/// A decimal number at `i`: its value and the position of the first
/// character past the digits. The digits must end inside the buffer and
/// the value must fit in a `u64`.
pub open spec fn scan_nat(s: Seq<char>, i: int) -> Scan<nat>
    recommends
        0 <= i <= s.len(),
{
    let j = digit_run_end(s, i);
    if j >= s.len() {
        Scan::More
    } else if j == i {
        Scan::Bad
    } else if digits_val(s.subrange(i, j)) > u64::MAX {
        Scan::Bad
    } else {
        Scan::Found(digits_val(s.subrange(i, j)), j)
    }
}

/// The frame terminator at `i`.
pub open spec fn scan_crlf(s: Seq<char>, i: int) -> Scan<bool> {
    if i >= s.len() {
        Scan::More
    } else if s[i] != '\r' {
        Scan::Bad
    } else if i + 1 >= s.len() {
        Scan::More
    } else if s[i + 1] != '\n' {
        Scan::Bad
    } else {
        Scan::Found(true, i + 2)
    }
}

/// How many bytes one character occupies in UTF-8.
pub open spec fn char_bytes(c: char) -> nat {
    if (c as u32) < 0x80 {
        1
    } else if (c as u32) < 0x800 {
        2
    } else if (c as u32) < 0x10000 {
        3
    } else {
        4
    }
}

pub proof fn lemma_char_bytes(c: char)
    ensures
        char_bytes(c) == encode_scalar(c as u32).len(),
{
}

/// The byte width of a character sequence's UTF-8 encoding, one character
/// at a time.
pub proof fn lemma_encode_utf8_first(w: Seq<char>)
    requires
        w.len() > 0,
    ensures
        encode_utf8(w).len() == char_bytes(w[0]) + encode_utf8(w.drop_first()).len(),
{
    lemma_char_bytes(w[0]);
}

/// The position just past the payload characters whose UTF-8 encoding
/// occupies exactly `n` bytes, starting at `i`. A length that would split
/// a character is an error.
pub open spec fn scan_payload(s: Seq<char>, i: int, n: nat) -> Scan<bool>
    decreases n,
{
    if n == 0 {
        Scan::Found(true, i)
    } else if i < 0 || i >= s.len() {
        Scan::More
    } else if char_bytes(s[i]) > n {
        Scan::Bad
    } else {
        scan_payload(s, i + 1, (n - char_bytes(s[i])) as nat)
    }
}

/// Scanning for exactly the byte width of `w` where `w` stands finds
/// exactly `w`'s extent.
pub proof fn lemma_scan_payload_of_word(s: Seq<char>, i: int, w: Seq<char>)
    requires
        0 <= i,
        i + w.len() <= s.len(),
        s.subrange(i, i + w.len()) == w,
    ensures
        scan_payload(s, i, encode_utf8(w).len()) == Scan::<bool>::Found(true, i + w.len()),
    decreases w.len(),
{
    if w.len() == 0 {
        assert(encode_utf8(w).len() == 0);
    } else {
        lemma_encode_utf8_first(w);
        assert(s[i] == s.subrange(i, i + w.len())[0]);
        let rest = w.drop_first();
        assert forall|m: int| 0 <= m < rest.len() implies s.subrange(
            i + 1,
            i + 1 + rest.len(),
        )[m] == rest[m] by {
            assert(s[i + 1 + m] == s.subrange(i, i + w.len())[1 + m]);
            assert(s.subrange(i + 1, i + 1 + rest.len())[m] == s[i + 1 + m]);
        }
        assert(s.subrange(i + 1, i + 1 + rest.len()) =~= rest);
        lemma_scan_payload_of_word(s, i + 1, rest);
    }
}

/// One bulk string at `i`: `$<len>\r\n<payload>\r\n`, the length counting
/// the payload's bytes on the wire.
pub open spec fn scan_bulk(s: Seq<char>, i: int) -> Scan<Seq<char>>
    recommends
        0 <= i <= s.len(),
{
    if i >= s.len() {
        Scan::More
    } else if s[i] != '$' {
        Scan::Bad
    } else {
        match scan_nat(s, i + 1) {
            Scan::Found(n, j) => match scan_crlf(s, j) {
                Scan::Found(_, j2) => match scan_payload(s, j2, n) {
                    Scan::Found(_, jp) => match scan_crlf(s, jp) {
                        Scan::Found(_, j3) => Scan::Found(s.subrange(j2, jp), j3),
                        Scan::More => Scan::More,
                        Scan::Bad => Scan::Bad,
                    },
                    Scan::More => Scan::More,
                    Scan::Bad => Scan::Bad,
                },
                Scan::More => Scan::More,
                Scan::Bad => Scan::Bad,
            },
            Scan::More => Scan::More,
            Scan::Bad => Scan::Bad,
        }
    }
}

/// `k` bulk strings in a row starting at `i`.
pub open spec fn scan_words(s: Seq<char>, i: int, k: nat) -> Scan<Seq<Seq<char>>>
    decreases k,
{
    if k == 0 {
        Scan::Found(Seq::empty(), i)
    } else {
        match scan_bulk(s, i) {
            Scan::Found(w, j) => match scan_words(s, j, (k - 1) as nat) {
                Scan::Found(ws, j2) => Scan::Found(seq![w] + ws, j2),
                Scan::More => Scan::More,
                Scan::Bad => Scan::Bad,
            },
            Scan::More => Scan::More,
            Scan::Bad => Scan::Bad,
        }
    }
}

/// One whole command frame at the front of the buffer: `*<k>\r\n` then `k`
/// bulk strings.
pub open spec fn scan_frame(s: Seq<char>) -> Scan<Seq<Seq<char>>> {
    if s.len() == 0 {
        Scan::More
    } else if s[0] != '*' {
        Scan::Bad
    } else {
        match scan_nat(s, 1) {
            Scan::Found(k, j) => match scan_crlf(s, j) {
                Scan::Found(_, j2) => scan_words(s, j2, k),
                Scan::More => Scan::More,
                Scan::Bad => Scan::Bad,
            },
            Scan::More => Scan::More,
            Scan::Bad => Scan::Bad,
        }
    }
}

/// What decoding yields on a buffer: a command with the exact count of
/// characters its frame occupies, a request for more input, or an error.
pub ghost enum SpecDecode {
    Cmd(CmdV, int),
    More,
    Bad,
}

/// The decoder's full meaning: scan one frame, then recognise the words.
pub open spec fn decode_spec(s: Seq<char>) -> SpecDecode {
    match scan_frame(s) {
        Scan::Found(ws, n) => match parse_words(ws) {
            Some(cv) => SpecDecode::Cmd(cv, n),
            None => SpecDecode::Bad,
        },
        Scan::More => SpecDecode::More,
        Scan::Bad => SpecDecode::Bad,
    }
}

/// Prepends already-scanned words to a scan outcome.
spec fn scan_push(acc: Seq<Seq<char>>, r: Scan<Seq<Seq<char>>>) -> Scan<Seq<Seq<char>>> {
    match r {
        Scan::Found(ws, j) => Scan::Found(acc + ws, j),
        Scan::More => Scan::More,
        Scan::Bad => Scan::Bad,
    }
}

/// Result of decoding the front of a connection buffer.
pub enum DecodeResult {
    /// A full frame was present: the command, the exact number of bytes the
    /// frame occupies on the wire (terminators included), and the number of
    /// characters to drop from the front of the buffer.
    Complete(Command, usize, usize),
    /// The buffer holds only part of a frame; read more and retry.
    Incomplete,
    /// The buffer does not hold a supported command frame.
    Invalid,
}

enum ScanStep<T> {
    Got(T, usize),
    Needs,
    Broken,
}

/// The snapshot envelope header at the front of the buffer: `$<n>\r\n`.
/// The `n` payload bytes follow it with no trailing terminator, so only
/// the header is scanned; the payload length and the header's extent are
/// reported.
pub open spec fn scan_envelope_header(s: Seq<char>) -> Scan<nat> {
    if s.len() == 0 {
        Scan::More
    } else if s[0] != '$' {
        Scan::Bad
    } else {
        match scan_nat(s, 1) {
            Scan::Found(n, j) => match scan_crlf(s, j) {
                Scan::Found(_, j2) => Scan::Found(n, j2),
                Scan::More => Scan::More,
                Scan::Bad => Scan::Bad,
            },
            Scan::More => Scan::More,
            Scan::Bad => Scan::Bad,
        }
    }
}

/// Result of decoding a snapshot envelope header.
pub enum SnapshotHeader {
    /// The payload length and the count of characters the header occupies.
    Complete(u64, usize),
    /// The buffer holds only part of the header; read more and retry.
    Incomplete,
    /// The buffer does not open with an envelope header.
    Invalid,
}

/// Decodes the envelope header off the front of `input`, exactly as
/// `scan_envelope_header` describes.
pub fn decode_snapshot_header(input: &str) -> (r: SnapshotHeader)
    ensures
        match r {
            SnapshotHeader::Complete(n, j) => scan_envelope_header(input@) == Scan::<nat>::Found(
                n as nat,
                j as int,
            ),
            SnapshotHeader::Incomplete => scan_envelope_header(input@) is More,
            SnapshotHeader::Invalid => scan_envelope_header(input@) is Bad,
        },
{
    let len = input.unicode_len();
    if len == 0 {
        return SnapshotHeader::Incomplete;
    }
    if input.get_char(0) != '$' {
        return SnapshotHeader::Invalid;
    }
    let (n, j) = match scan_nat_exec(input, 1) {
        ScanStep::Got(v, j) => (v, j),
        ScanStep::Needs => {
            return SnapshotHeader::Incomplete;
        },
        ScanStep::Broken => {
            return SnapshotHeader::Invalid;
        },
    };
    match scan_crlf_exec(input, j) {
        ScanStep::Got(_, j2) => SnapshotHeader::Complete(n, j2),
        ScanStep::Needs => SnapshotHeader::Incomplete,
        ScanStep::Broken => SnapshotHeader::Invalid,
    }
}

fn digit_run(input: &str, start: usize) -> (j: usize)
    requires
        start <= input@.len(),
    ensures
        start <= j <= input@.len(),
        j == digit_run_end(input@, start as int),
{
    let n = input.unicode_len();
    let mut j = start;
    while j < n
        invariant
            start <= j <= n,
            n == input@.len(),
            digit_run_end(input@, start as int) == digit_run_end(input@, j as int),
        decreases n - j,
    {
        let c = input.get_char(j);
        let cu = c as u32;
        if !(48 <= cu && cu <= 57) {
            assert(!is_digit(input@[j as int]));
            return j;
        }
        assert(is_digit(input@[j as int]));
        j += 1;
    }
    j
}

fn scan_nat_exec(input: &str, i: usize) -> (r: ScanStep<u64>)
    requires
        i <= input@.len(),
    ensures
        match r {
            ScanStep::Got(v, j) => scan_nat(input@, i as int) == Scan::<nat>::Found(
                v as nat,
                j as int,
            ) && i < j <= input@.len(),
            ScanStep::Needs => scan_nat(input@, i as int) is More,
            ScanStep::Broken => scan_nat(input@, i as int) is Bad,
        },
{
    let n = input.unicode_len();
    let j = digit_run(input, i);
    if j >= n {
        return ScanStep::Needs;
    }
    if j == i {
        return ScanStep::Broken;
    }
    let w = input.substring_char(i, j);
    proof {
        lemma_digit_run_end_bounds(input@, i as int);
        assert forall|m: int| 0 <= m < w@.len() implies is_digit(#[trigger] w@[m]) by {
            assert(w@[m] == input@[i + m]);
        }
    }
    match parse_u64(w) {
        Some(v) => ScanStep::Got(v, j),
        None => ScanStep::Broken,
    }
}

fn scan_crlf_exec(input: &str, i: usize) -> (r: ScanStep<bool>)
    requires
        i <= input@.len(),
    ensures
        match r {
            ScanStep::Got(_, j) => scan_crlf(input@, i as int) == Scan::<bool>::Found(
                true,
                j as int,
            ) && j == i + 2 && j <= input@.len(),
            ScanStep::Needs => scan_crlf(input@, i as int) is More,
            ScanStep::Broken => scan_crlf(input@, i as int) is Bad,
        },
{
    let n = input.unicode_len();
    if i >= n {
        return ScanStep::Needs;
    }
    if input.get_char(i) != '\r' {
        return ScanStep::Broken;
    }
    if i + 1 >= n {
        return ScanStep::Needs;
    }
    if input.get_char(i + 1) != '\n' {
        return ScanStep::Broken;
    }
    ScanStep::Got(true, i + 2)
}

fn char_width(c: char) -> (r: usize)
    ensures
        r == char_bytes(c),
{
    let u = c as u32;
    if u < 0x80 {
        1
    } else if u < 0x800 {
        2
    } else if u < 0x10000 {
        3
    } else {
        4
    }
}

fn scan_bulk_exec(input: &str, i: usize) -> (r: ScanStep<String>)
    requires
        i <= input@.len(),
    ensures
        match r {
            ScanStep::Got(w, j) => scan_bulk(input@, i as int) == Scan::<Seq<char>>::Found(
                w@,
                j as int,
            ) && i < j <= input@.len(),
            ScanStep::Needs => scan_bulk(input@, i as int) is More,
            ScanStep::Broken => scan_bulk(input@, i as int) is Bad,
        },
{
    let n = input.unicode_len();
    if i >= n {
        return ScanStep::Needs;
    }
    if input.get_char(i) != '$' {
        return ScanStep::Broken;
    }
    let (len_v, j) = match scan_nat_exec(input, i + 1) {
        ScanStep::Got(v, j) => (v, j),
        ScanStep::Needs => {
            return ScanStep::Needs;
        },
        ScanStep::Broken => {
            return ScanStep::Broken;
        },
    };
    let j2 = match scan_crlf_exec(input, j) {
        ScanStep::Got(_, x) => x,
        ScanStep::Needs => {
            return ScanStep::Needs;
        },
        ScanStep::Broken => {
            return ScanStep::Broken;
        },
    };
    let mut p: usize = j2;
    let mut rem: u64 = len_v;
    while rem > 0
        invariant
            n == input@.len(),
            i < n,
            input@[i as int] == '$',
            scan_nat(input@, i as int + 1) == Scan::<nat>::Found(len_v as nat, j as int),
            scan_crlf(input@, j as int) == Scan::<bool>::Found(true, j2 as int),
            j2 <= p <= n,
            scan_payload(input@, j2 as int, len_v as nat) == scan_payload(
                input@,
                p as int,
                rem as nat,
            ),
        decreases rem,
    {
        if p >= n {
            return ScanStep::Needs;
        }
        let c = input.get_char(p);
        let cw = char_width(c);
        if (cw as u64) > rem {
            return ScanStep::Broken;
        }
        rem = rem - (cw as u64);
        p = p + 1;
    }
    assert(scan_payload(input@, j2 as int, len_v as nat) == Scan::<bool>::Found(true, p as int));
    let w = input.substring_char(j2, p);
    match scan_crlf_exec(input, p) {
        ScanStep::Got(_, j3) => ScanStep::Got(w.to_owned(), j3),
        ScanStep::Needs => ScanStep::Needs,
        ScanStep::Broken => ScanStep::Broken,
    }
}

/// Decodes one command frame off the front of `input`, exactly as
/// `decode_spec` describes: the frame's extent in characters, and the exact
/// count of bytes it occupies on the wire, which is what replication
/// offsets account.
pub fn decode_command(input: &str) -> (r: DecodeResult)
    ensures
        match r {
            DecodeResult::Complete(c, nb, nc) => decode_spec(input@) == SpecDecode::Cmd(
                c@,
                nc as int,
            ) && nc <= input@.len() && nb == encode_utf8(
                input@.subrange(0, nc as int),
            ).len(),
            DecodeResult::Incomplete => decode_spec(input@) == SpecDecode::More,
            DecodeResult::Invalid => decode_spec(input@) == SpecDecode::Bad,
        },
{
    let n = input.unicode_len();
    if n == 0 {
        return DecodeResult::Incomplete;
    }
    if input.get_char(0) != '*' {
        return DecodeResult::Invalid;
    }
    let (k, j) = match scan_nat_exec(input, 1) {
        ScanStep::Got(v, j) => (v, j),
        ScanStep::Needs => {
            return DecodeResult::Incomplete;
        },
        ScanStep::Broken => {
            return DecodeResult::Invalid;
        },
    };
    let j2 = match scan_crlf_exec(input, j) {
        ScanStep::Got(_, x) => x,
        ScanStep::Needs => {
            return DecodeResult::Incomplete;
        },
        ScanStep::Broken => {
            return DecodeResult::Invalid;
        },
    };
    let mut words: Vec<String> = Vec::new();
    let mut cur: usize = j2;
    let mut cnt: u64 = 0;
    proof {
        assert(views_of(words@) =~= Seq::<Seq<char>>::empty());
        assert(scan_frame(input@) == scan_words(input@, j2 as int, k as nat));
        lemma_scan_push_empty(scan_words(input@, j2 as int, k as nat));
    }
    while cnt < k
        invariant
            cnt <= k,
            cur <= input@.len(),
            scan_frame(input@) == scan_push(
                views_of(words@),
                scan_words(input@, cur as int, (k - cnt) as nat),
            ),
        decreases k - cnt,
    {
        match scan_bulk_exec(input, cur) {
            ScanStep::Got(w, nx) => {
                proof {
                    lemma_scan_push_step(
                        input@,
                        views_of(words@),
                        cur as int,
                        (k - cnt) as nat,
                        w@,
                        nx as int,
                    );
                    assert(views_of(words@.push(w)) =~= views_of(words@).push(w@));
                }
                words.push(w);
                cur = nx;
                cnt = cnt + 1;
            },
            ScanStep::Needs => {
                return DecodeResult::Incomplete;
            },
            ScanStep::Broken => {
                return DecodeResult::Invalid;
            },
        }
    }
    proof {
        assert(scan_words(input@, cur as int, 0nat) == Scan::<Seq<Seq<char>>>::Found(
            Seq::empty(),
            cur as int,
        ));
        assert(views_of(words@) + Seq::<Seq<char>>::empty() =~= views_of(words@));
        assert(scan_frame(input@) == Scan::<Seq<Seq<char>>>::Found(views_of(words@), cur as int));
    }
    match command_from_words(&words) {
        Some(c) => {
            let consumed = input.substring_char(0, cur);
            let nb: usize = consumed.as_bytes().len();
            proof {
                assert(consumed.spec_bytes() == encode_utf8(input@.subrange(0, cur as int)));
            }
            DecodeResult::Complete(c, nb, cur)
        },
        None => DecodeResult::Invalid,
    }
}

/// Splits the first `n` characters off the front of a connection buffer:
/// the consumed frame, whose bytes the master propagates to replicas
/// bit-exact, and the remainder, which opens with the next frame.
pub fn split_frame(buf: &mut String, n: usize) -> (frame: String)
    requires
        n <= old(buf)@.len(),
    ensures
        frame@ == old(buf)@.subrange(0, n as int),
        final(buf)@ == old(buf)@.subrange(n as int, old(buf)@.len() as int),
{
    let total = buf.as_str().unicode_len();
    let frame = buf.as_str().substring_char(0, n).to_owned();
    let rest = buf.as_str().substring_char(n, total).to_owned();
    *buf = rest;
    frame
}

proof fn lemma_scan_push_empty(r: Scan<Seq<Seq<char>>>)
    ensures
        scan_push(Seq::empty(), r) == r,
{
    match r {
        Scan::Found(ws, j) => {
            assert(Seq::<Seq<char>>::empty() + ws =~= ws);
        },
        _ => {},
    }
}

pub proof fn lemma_scan_nat_of_dec(s: Seq<char>, i: int, n: nat)
    requires
        0 <= i,
        n <= u64::MAX,
        i + dec_nat(n).len() < s.len(),
        s.subrange(i, i + dec_nat(n).len()) == dec_nat(n),
        !is_digit(s[i + dec_nat(n).len()]),
    ensures
        scan_nat(s, i) == Scan::<nat>::Found(n, i + dec_nat(n).len()),
{
    let d = dec_nat(n);
    let j = i + d.len();
    lemma_dec_nat_digits(n);
    lemma_dec_nat_val(n);
    assert forall|m: int| i <= m < j implies is_digit(#[trigger] s[m]) by {
        assert(s[m] == s.subrange(i, j)[m - i]);
    }
    lemma_digit_run_exact(s, i, j);
    assert(digits_val(s.subrange(i, j)) == n);
}

pub proof fn lemma_scan_bulk_of_bulk(s: Seq<char>, i: int, w: Seq<char>)
    requires
        0 <= i,
        encode_utf8(w).len() <= u64::MAX,
        i + spec_bulk(w).len() <= s.len(),
        s.subrange(i, i + spec_bulk(w).len()) == spec_bulk(w),
    ensures
        scan_bulk(s, i) == Scan::<Seq<char>>::Found(w, i + spec_bulk(w).len()),
{
    let b = spec_bulk(w);
    let nb = encode_utf8(w).len();
    let d = dec_nat(nb);
    lemma_dec_nat_digits(nb);
    let p1: int = 1 + d.len() as int;
    let p2: int = p1 + 2;
    let p3: int = p2 + w.len() as int;
    let c1 = seq!['$'] + d;
    let c2 = c1 + crlf();
    let c3 = c2 + w;
    assert(b == c3 + crlf());
    assert(b.len() == p3 + 2);
    assert forall|off: int| 0 <= off < b.len() implies s[i + off] == #[trigger] b[off] by {
        assert(s.subrange(i, i + b.len())[off] == s[i + off]);
    }
    assert(b[0] == '$' && b[p1] == '\r' && b[p1 + 1] == '\n' && b[p3] == '\r' && b[p3 + 1]
        == '\n') by {
        assert(c1[0] == '$');
        assert(c2[p1] == crlf()[0]);
        assert(c2[p1 + 1] == crlf()[1]);
        assert(c3[0] == c2[0] && c3[p1] == c2[p1] && c3[p1 + 1] == c2[p1 + 1]);
        assert(b[0] == c3[0] && b[p1] == c3[p1] && b[p1 + 1] == c3[p1 + 1]);
        assert(b[p3] == crlf()[0]);
        assert(b[p3 + 1] == crlf()[1]);
    }
    assert(s[i] == '$');
    assert forall|m: int| 0 <= m < d.len() implies s.subrange(i + 1, i + 1 + d.len() as int)[m]
        == d[m] by {
        assert(c1[1 + m] == d[m]);
        assert(c2[1 + m] == c1[1 + m]);
        assert(c3[1 + m] == c2[1 + m]);
        assert(b[1 + m] == c3[1 + m]);
        assert(s[i + (1 + m)] == b[1 + m]);
        assert(s.subrange(i + 1, i + 1 + d.len() as int)[m] == s[i + (1 + m)]);
    }
    assert(s.subrange(i + 1, i + 1 + d.len() as int) =~= d);
    assert(s[i + p1] == '\r');
    assert(!is_digit('\r'));
    lemma_scan_nat_of_dec(s, i + 1, nb);
    assert(scan_nat(s, i + 1) == Scan::<nat>::Found(nb, i + p1));
    assert(s[i + (p1 + 1)] == '\n');
    assert(scan_crlf(s, i + p1) == Scan::<bool>::Found(true, i + p2));
    assert forall|m: int| 0 <= m < w.len() implies s.subrange(i + p2, i + p2 + w.len() as int)[m]
        == w[m] by {
        assert(c3[p2 + m] == w[m]);
        assert(b[p2 + m] == c3[p2 + m]);
        assert(s[i + (p2 + m)] == b[p2 + m]);
        assert(s.subrange(i + p2, i + p2 + w.len() as int)[m] == s[i + (p2 + m)]);
    }
    assert(s.subrange(i + p2, i + p2 + w.len() as int) =~= w);
    lemma_scan_payload_of_word(s, i + p2, w);
    assert(scan_payload(s, i + p2, nb) == Scan::<bool>::Found(true, i + p3));
    assert(s[i + p3] == '\r');
    assert(s[i + (p3 + 1)] == '\n');
    assert(scan_crlf(s, i + p3) == Scan::<bool>::Found(true, i + p3 + 2));
    assert(i + p2 + w.len() <= s.len());
}

pub proof fn lemma_scan_words_of_bulks(s: Seq<char>, i: int, ws: Seq<Seq<char>>)
    requires
        0 <= i,
        forall|t: int| 0 <= t < ws.len() ==> encode_utf8(#[trigger] ws[t]).len() <= u64::MAX,
        i + spec_bulks(ws).len() <= s.len(),
        s.subrange(i, i + spec_bulks(ws).len()) == spec_bulks(ws),
    ensures
        scan_words(s, i, ws.len()) == Scan::<Seq<Seq<char>>>::Found(
            ws,
            i + spec_bulks(ws).len(),
        ),
    decreases ws.len(),
{
    if ws.len() == 0 {
        assert(scan_words(s, i, 0nat) == Scan::<Seq<Seq<char>>>::Found(
            Seq::<Seq<char>>::empty(),
            i,
        ));
        assert(ws =~= Seq::<Seq<char>>::empty());
    } else {
        let w0 = ws.first();
        let rest = ws.drop_first();
        let bl = spec_bulks(ws);
        assert(bl == spec_bulk(w0) + spec_bulks(rest));
        assert forall|off: int| 0 <= off < bl.len() implies s[i + off] == #[trigger] bl[off] by {
            assert(s.subrange(i, i + bl.len())[off] == s[i + off]);
        }
        let b0 = spec_bulk(w0);
        assert forall|m: int| 0 <= m < b0.len() implies s.subrange(i, i + b0.len())[m]
            == b0[m] by {
            assert(bl[m] == b0[m]);
            assert(s[i + m] == bl[m]);
            assert(s.subrange(i, i + b0.len())[m] == s[i + m]);
        }
        assert(s.subrange(i, i + b0.len()) =~= b0);
        lemma_scan_bulk_of_bulk(s, i, w0);
        let i2: int = i + b0.len() as int;
        assert forall|t: int| 0 <= t < rest.len() implies encode_utf8(#[trigger] rest[t]).len()
            <= u64::MAX by {
            assert(rest[t] == ws[t + 1]);
            assert(encode_utf8(ws[t + 1]).len() <= u64::MAX);
        }
        let br = spec_bulks(rest);
        assert forall|m: int| 0 <= m < br.len() implies s.subrange(i2, i2 + br.len() as int)[m]
            == br[m] by {
            assert(bl[b0.len() + m] == br[m]);
            assert(s[i + (b0.len() + m)] == bl[b0.len() + m]);
            assert(s.subrange(i2, i2 + br.len() as int)[m] == s[i + (b0.len() + m)]);
        }
        assert(s.subrange(i2, i2 + br.len() as int) =~= br);
        lemma_scan_words_of_bulks(s, i2, rest);
        assert(scan_words(s, i2, rest.len()) == Scan::<Seq<Seq<char>>>::Found(
            rest,
            i + bl.len(),
        ));
        assert((ws.len() - 1) as nat == rest.len());
        assert(seq![w0] + rest =~= ws);
    }
}

/// Scanning the encoding of an array of words finds exactly those words and
/// consumes exactly the encoding's length.
pub proof fn lemma_scan_frame_of_encode(ws: Seq<Seq<char>>)
    requires
        ws.len() <= u64::MAX,
        forall|t: int| 0 <= t < ws.len() ==> encode_utf8(#[trigger] ws[t]).len() <= u64::MAX,
    ensures
        scan_frame(encode_words(ws)) == Scan::<Seq<Seq<char>>>::Found(
            ws,
            encode_words(ws).len() as int,
        ),
{
    let s = encode_words(ws);
    let d = dec_nat(ws.len());
    lemma_dec_nat_digits(ws.len());
    let p1: int = 1 + d.len() as int;
    let p2: int = p1 + 2;
    let c1 = seq!['*'] + d;
    let c2 = c1 + crlf();
    let bl = spec_bulks(ws);
    assert(s == c2 + bl);
    assert(s.len() == p2 + bl.len());
    assert(s[0] == '*' && s[p1] == '\r' && s[p1 + 1] == '\n') by {
        assert(c1[0] == '*');
        assert(c2[0] == c1[0]);
        assert(c2[p1] == crlf()[0]);
        assert(c2[p1 + 1] == crlf()[1]);
        assert(s[0] == c2[0] && s[p1] == c2[p1] && s[p1 + 1] == c2[p1 + 1]);
    }
    assert forall|m: int| 0 <= m < d.len() implies s.subrange(1, 1 + d.len() as int)[m]
        == d[m] by {
        assert(c1[1 + m] == d[m]);
        assert(c2[1 + m] == c1[1 + m]);
        assert(s[1 + m] == c2[1 + m]);
        assert(s.subrange(1, 1 + d.len() as int)[m] == s[1 + m]);
    }
    assert(s.subrange(1, 1 + d.len() as int) =~= d);
    assert(!is_digit('\r'));
    lemma_scan_nat_of_dec(s, 1, ws.len());
    assert(scan_nat(s, 1) == Scan::<nat>::Found(ws.len(), p1));
    assert(scan_crlf(s, p1) == Scan::<bool>::Found(true, p2));
    assert forall|m: int| 0 <= m < bl.len() implies s.subrange(p2, p2 + bl.len() as int)[m]
        == bl[m] by {
        assert(s[p2 + m] == bl[m]);
        assert(s.subrange(p2, p2 + bl.len() as int)[m] == s[p2 + m]);
    }
    assert(s.subrange(p2, p2 + bl.len() as int) =~= bl);
    lemma_scan_words_of_bulks(s, p2, ws);
}

/// Codec round trip: decoding the serialized form of any command yields
/// that command back, with the consumed count equal to the whole encoding.
pub proof fn lemma_command_round_trip(c: CmdV)
    requires
        forall|t: int|
            0 <= t < words_of(c).len() ==> encode_utf8(#[trigger] words_of(c)[t]).len()
                <= u64::MAX,
    ensures
        decode_spec(encode_words(words_of(c))) == SpecDecode::Cmd(
            c,
            encode_words(words_of(c)).len() as int,
        ),
{
    let ws = words_of(c);
    assert(ws.len() <= 5);
    lemma_scan_frame_of_encode(ws);
    lemma_parse_words_of(c);
}

proof fn lemma_scan_push_step(
    s: Seq<char>,
    acc: Seq<Seq<char>>,
    i: int,
    k: nat,
    w: Seq<char>,
    j: int,
)
    requires
        k >= 1,
        scan_bulk(s, i) == Scan::<Seq<char>>::Found(w, j),
    ensures
        scan_push(acc, scan_words(s, i, k)) == scan_push(
            acc.push(w),
            scan_words(s, j, (k - 1) as nat),
        ),
{
    match scan_words(s, j, (k - 1) as nat) {
        Scan::Found(ws2, j2) => {
            assert(acc + (seq![w] + ws2) =~= acc.push(w) + ws2);
        },
        _ => {},
    }
}

} // verus!
