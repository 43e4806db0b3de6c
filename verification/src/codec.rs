//! The persisted binary format of a feed, and its proof of fidelity.
//!
//! A feed file holds one encoded [`Feed`] value with a fixed field layout:
//! integers as base-128 varints (an `i32` through its two's-complement `u32`
//! bits), strings as a byte count followed by their UTF-8 bytes, optional
//! fields as a presence byte, and repeated fields as an element count followed
//! by the elements. Encoding is total; decoding accepts exactly what
//! [`spec_dec_feed`] accepts and loses no information
//! ([`lemma_feed_round_trip`]).

use vstd::prelude::*;
use vstd::utf8::{decode_utf8, encode_utf8, valid_utf8};
use vstd::utf8::{encode_utf8_decode_utf8, encode_utf8_valid_utf8};
use crate::model::{Feed, FeedError, FeedView, Link, LinkView, Timestamp, links_view, opt_view};

verus! {

/// Base-128 encoding of an unbounded natural, least-significant group first,
/// high bit of a byte marking a continuation.
pub open spec fn enc_varint(n: nat) -> Seq<u8>
    decreases n,
{
    if n < 128 {
        seq![n as u8]
    } else {
        seq![(128 + (n % 128)) as u8] + enc_varint(n / 128)
    }
}

/// Decodes a varint from the front of `s`; yields the value and the unread
/// suffix. Values of 2^64 and above are rejected.
pub open spec fn dec_varint(s: Seq<u8>) -> Option<(nat, Seq<u8>)>
    decreases s.len(),
{
    if s.len() == 0 {
        None
    } else if s[0] < 128 {
        Some((s[0] as nat, s.drop_first()))
    } else {
        match dec_varint(s.drop_first()) {
            Some(p) => {
                if p.0 < 0x0200_0000_0000_0000 {
                    Some(((s[0] - 128 + 128 * p.0) as nat, p.1))
                } else {
                    None
                }
            },
            None => None,
        }
    }
}

/// Decoding undoes encoding for every value below 2^64, whatever follows.
pub proof fn lemma_dec_enc_varint(n: nat, rest: Seq<u8>)
    requires
        n < 0x1_0000_0000_0000_0000,
    ensures
        dec_varint(enc_varint(n) + rest) == Some((n, rest)),
    decreases n,
{
    if n < 128 {
        assert((enc_varint(n) + rest)[0] == n as u8);
        assert((enc_varint(n) + rest).drop_first() =~= rest);
    } else {
        let b: u8 = (128 + (n % 128)) as u8;
        let s = enc_varint(n) + rest;
        assert(s =~= seq![b] + (enc_varint(n / 128) + rest));
        assert(s.drop_first() =~= enc_varint(n / 128) + rest);
        lemma_dec_enc_varint(n / 128, rest);
        assert(n / 128 < 0x0200_0000_0000_0000);
        assert(b - 128 + 128 * (n / 128) == n % 128 + 128 * (n / 128));
        assert(n % 128 + 128 * (n / 128) == n) by {
            vstd::arithmetic::div_mod::lemma_fundamental_div_mod(n as int, 128);
        }
    }
}

/// Appends the varint encoding of `n`.
pub fn write_varint(out: &mut Vec<u8>, n: u64)
    ensures
        final(out)@ == old(out)@ + enc_varint(n as nat),
    decreases n,
{
    if n < 128 {
        out.push(n as u8);
        assert(final(out)@ =~= old(out)@ + enc_varint(n as nat));
    } else {
        let b: u8 = (n % 128 + 128) as u8;
        out.push(b);
        let ghost mid = out@;
        write_varint(out, n / 128);
        assert(final(out)@ =~= old(out)@ + enc_varint(n as nat));
    }
}

/// Reads a varint at `pos`; yields the value and the position just past it.
pub fn read_varint(bytes: &Vec<u8>, pos: usize) -> (r: Option<(u64, usize)>)
    requires
        pos <= bytes@.len(),
    ensures
        match r {
            Some(p) => {
                &&& dec_varint(bytes@.skip(pos as int)) == Some(
                    (p.0 as nat, bytes@.skip(p.1 as int)),
                )
                &&& pos < p.1 <= bytes@.len()
            },
            None => dec_varint(bytes@.skip(pos as int)) is None,
        },
    decreases bytes@.len() - pos,
{
    if pos == bytes.len() {
        return None;
    }
    let b = bytes[pos];
    proof {
        assert(bytes@.skip(pos as int)[0] == b);
        assert(bytes@.skip(pos as int).drop_first() =~= bytes@.skip(pos as int + 1));
    }
    if b < 128 {
        Some((b as u64, pos + 1))
    } else {
        match read_varint(bytes, pos + 1) {
            None => None,
            Some((v, p2)) => {
                if v < 0x0200_0000_0000_0000u64 {
                    Some(((b - 128) as u64 + 128 * v, p2))
                } else {
                    None
                }
            },
        }
    }
}

/// An `i32` travels as the varint of its two's-complement 32-bit pattern.
pub open spec fn enc_i32(x: i32) -> Seq<u8> {
    enc_varint((x as u32) as nat)
}

/// Decodes an `i32`: a varint below 2^32, reinterpreted as two's complement.
pub open spec fn dec_i32(s: Seq<u8>) -> Option<(i32, Seq<u8>)> {
    match dec_varint(s) {
        Some(p) => {
            if p.0 < 0x1_0000_0000 {
                Some(((p.0 as u32) as i32, p.1))
            } else {
                None
            }
        },
        None => None,
    }
}

proof fn lemma_i32_bits_round_trip(x: i32)
    ensures
        ((x as u32) as i32) == x,
{
    assert(((x as u32) as i32) == x) by (bit_vector);
}

/// Decoding undoes encoding for every `i32`, whatever follows.
pub proof fn lemma_dec_enc_i32(x: i32, rest: Seq<u8>)
    ensures
        dec_i32(enc_i32(x) + rest) == Some((x, rest)),
{
    lemma_dec_enc_varint((x as u32) as nat, rest);
    lemma_i32_bits_round_trip(x);
}

/// Appends the encoding of an `i32`.
pub fn write_i32(out: &mut Vec<u8>, x: i32)
    ensures
        final(out)@ == old(out)@ + enc_i32(x),
{
    write_varint(out, (x as u32) as u64);
}

/// Reads an `i32` at `pos`.
pub fn read_i32(bytes: &Vec<u8>, pos: usize) -> (r: Option<(i32, usize)>)
    requires
        pos <= bytes@.len(),
    ensures
        match r {
            Some(p) => {
                &&& dec_i32(bytes@.skip(pos as int)) == Some((p.0, bytes@.skip(p.1 as int)))
                &&& pos < p.1 <= bytes@.len()
            },
            None => dec_i32(bytes@.skip(pos as int)) is None,
        },
{
    match read_varint(bytes, pos) {
        None => None,
        Some((v, p2)) => {
            if v < 0x1_0000_0000u64 {
                Some((
                    #[verifier::truncate]
                    ((v as u32) as i32),
                    p2,
                ))
            } else {
                None
            }
        },
    }
}

/// Decodes an element or byte count: a varint that fits a `usize`.
pub open spec fn dec_size(s: Seq<u8>) -> Option<(nat, Seq<u8>)> {
    match dec_varint(s) {
        Some(p) => {
            if p.0 <= usize::MAX as nat {
                Some(p)
            } else {
                None
            }
        },
        None => None,
    }
}

/// Decoding undoes encoding for every count that fits a `usize`.
pub proof fn lemma_dec_enc_size(n: nat, rest: Seq<u8>)
    requires
        n <= usize::MAX as nat,
    ensures
        dec_size(enc_varint(n) + rest) == Some((n, rest)),
{
    lemma_dec_enc_varint(n, rest);
}

/// Reads a count at `pos`.
pub fn read_size(bytes: &Vec<u8>, pos: usize) -> (r: Option<(usize, usize)>)
    requires
        pos <= bytes@.len(),
    ensures
        match r {
            Some(p) => {
                &&& dec_size(bytes@.skip(pos as int)) == Some(
                    (p.0 as nat, bytes@.skip(p.1 as int)),
                )
                &&& pos < p.1 <= bytes@.len()
            },
            None => dec_size(bytes@.skip(pos as int)) is None,
        },
{
    match read_varint(bytes, pos) {
        None => None,
        Some((v, p2)) => {
            if v <= usize::MAX as u64 {
                Some((v as usize, p2))
            } else {
                None
            }
        },
    }
}

/// A string travels as its UTF-8 byte count, then those bytes.
pub open spec fn enc_str(s: Seq<char>) -> Seq<u8> {
    enc_varint(encode_utf8(s).len()) + encode_utf8(s)
}

/// Decodes a string: a byte count, then that many bytes of valid UTF-8.
pub open spec fn dec_str(s: Seq<u8>) -> Option<(Seq<char>, Seq<u8>)> {
    match dec_size(s) {
        Some((n, r)) => {
            if n <= r.len() && valid_utf8(r.take(n as int)) {
                Some((decode_utf8(r.take(n as int)), r.skip(n as int)))
            } else {
                None
            }
        },
        None => None,
    }
}

/// True when the UTF-8 encoding of `s` fits a `usize` byte count; every
/// string held in memory satisfies it.
pub open spec fn str_fits(s: Seq<char>) -> bool {
    encode_utf8(s).len() <= usize::MAX as nat
}

/// Decoding undoes encoding for every string whose bytes fit a `usize`.
pub proof fn lemma_dec_enc_str(s: Seq<char>, rest: Seq<u8>)
    requires
        str_fits(s),
    ensures
        dec_str(enc_str(s) + rest) == Some((s, rest)),
{
    let b = encode_utf8(s);
    assert(enc_str(s) + rest =~= enc_varint(b.len()) + (b + rest));
    lemma_dec_enc_size(b.len(), b + rest);
    assert((b + rest).take(b.len() as int) =~= b);
    assert((b + rest).skip(b.len() as int) =~= rest);
    encode_utf8_valid_utf8(s);
    encode_utf8_decode_utf8(s);
}

/// Copies `bytes[from..to]` into a fresh vector.
fn copy_range(bytes: &Vec<u8>, from: usize, to: usize) -> (r: Vec<u8>)
    requires
        from <= to <= bytes@.len(),
    ensures
        r@ == bytes@.subrange(from as int, to as int),
{
    let mut r: Vec<u8> = Vec::new();
    let mut i: usize = from;
    while i < to
        invariant
            from <= i <= to <= bytes@.len(),
            r@ == bytes@.subrange(from as int, i as int),
        decreases to - i,
    {
        r.push(bytes[i]);
        assert(r@ =~= bytes@.subrange(from as int, i as int + 1));
        i = i + 1;
    }
    r
}

/// Relies on `String::from_utf8`: succeeds exactly on valid UTF-8, returning
/// the string those bytes encode.
#[verifier::external_body]
fn string_from_utf8(v: Vec<u8>) -> (r: Option<String>)
    ensures
        match r {
            Some(s) => valid_utf8(v@) && s@ == decode_utf8(v@),
            None => !valid_utf8(v@),
        },
{
    String::from_utf8(v).ok()
}

/// Appends the encoding of a string.
pub fn write_str(out: &mut Vec<u8>, s: &String)
    ensures
        final(out)@ == old(out)@ + enc_str(s@),
{
    let b = s.as_str().as_bytes_vec();
    write_varint(out, b.len() as u64);
    let mut b = b;
    out.append(&mut b);
    assert(final(out)@ =~= old(out)@ + enc_str(s@));
}

/// Reads a string at `pos`.
pub fn read_str(bytes: &Vec<u8>, pos: usize) -> (r: Option<(String, usize)>)
    requires
        pos <= bytes@.len(),
    ensures
        match r {
            Some(p) => {
                &&& dec_str(bytes@.skip(pos as int)) == Some((p.0@, bytes@.skip(p.1 as int)))
                &&& pos <= p.1 <= bytes@.len()
            },
            None => dec_str(bytes@.skip(pos as int)) is None,
        },
{
    match read_size(bytes, pos) {
        None => None,
        Some((n, p2)) => {
            if n <= bytes.len() - p2 {
                proof {
                    assert(bytes@.skip(p2 as int).take(n as int) =~= bytes@.subrange(
                        p2 as int,
                        p2 as int + n as int,
                    ));
                    assert(bytes@.skip(p2 as int).skip(n as int) =~= bytes@.skip(
                        p2 as int + n as int,
                    ));
                }
                let sub = copy_range(bytes, p2, p2 + n);
                match string_from_utf8(sub) {
                    Some(s) => Some((s, p2 + n)),
                    None => None,
                }
            } else {
                None
            }
        },
    }
}

/// An optional string travels as a presence byte, then the string if present.
pub open spec fn enc_opt_str(o: Option<Seq<char>>) -> Seq<u8> {
    match o {
        None => seq![0u8],
        Some(s) => seq![1u8] + enc_str(s),
    }
}

/// Decodes an optional string.
pub open spec fn dec_opt_str(s: Seq<u8>) -> Option<(Option<Seq<char>>, Seq<u8>)> {
    if s.len() == 0 {
        None
    } else if s[0] == 0 {
        Some((None, s.drop_first()))
    } else if s[0] == 1 {
        match dec_str(s.drop_first()) {
            Some((v, r)) => Some((Some(v), r)),
            None => None,
        }
    } else {
        None
    }
}

/// Decoding undoes encoding for every optional string that fits.
pub proof fn lemma_dec_enc_opt_str(o: Option<Seq<char>>, rest: Seq<u8>)
    requires
        o matches Some(s) ==> str_fits(s),
    ensures
        dec_opt_str(enc_opt_str(o) + rest) == Some((o, rest)),
{
    match o {
        None => {
            assert((enc_opt_str(o) + rest)[0] == 0u8);
            assert((enc_opt_str(o) + rest).drop_first() =~= rest);
        },
        Some(s) => {
            assert((enc_opt_str(o) + rest)[0] == 1u8);
            assert((enc_opt_str(o) + rest).drop_first() =~= enc_str(s) + rest);
            lemma_dec_enc_str(s, rest);
        },
    }
}

/// Appends the encoding of an optional string.
pub fn write_opt_str(out: &mut Vec<u8>, o: &Option<String>)
    ensures
        final(out)@ == old(out)@ + enc_opt_str(opt_view(*o)),
{
    match o {
        None => {
            out.push(0u8);
            assert(final(out)@ =~= old(out)@ + enc_opt_str(opt_view(*o)));
        },
        Some(s) => {
            out.push(1u8);
            write_str(out, s);
            assert(final(out)@ =~= old(out)@ + enc_opt_str(opt_view(*o)));
        },
    }
}

/// Reads an optional string at `pos`.
pub fn read_opt_str(bytes: &Vec<u8>, pos: usize) -> (r: Option<(Option<String>, usize)>)
    requires
        pos <= bytes@.len(),
    ensures
        match r {
            Some(p) => {
                &&& dec_opt_str(bytes@.skip(pos as int)) == Some(
                    (opt_view(p.0), bytes@.skip(p.1 as int)),
                )
                &&& pos <= p.1 <= bytes@.len()
            },
            None => dec_opt_str(bytes@.skip(pos as int)) is None,
        },
{
    if pos == bytes.len() {
        return None;
    }
    let b = bytes[pos];
    proof {
        assert(bytes@.skip(pos as int)[0] == b);
        assert(bytes@.skip(pos as int).drop_first() =~= bytes@.skip(pos as int + 1));
    }
    if b == 0 {
        Some((None, pos + 1))
    } else if b == 1 {
        match read_str(bytes, pos + 1) {
            Some((s, p2)) => Some((Some(s), p2)),
            None => None,
        }
    } else {
        None
    }
}

/// A timestamp travels as its seven fields in order.
pub open spec fn enc_ts(t: Timestamp) -> Seq<u8> {
    enc_i32(t.year) + enc_i32(t.month) + enc_i32(t.day) + enc_i32(t.hours) + enc_i32(t.minutes)
        + enc_i32(t.seconds) + enc_i32(t.nanos)
}

/// Decodes a timestamp: seven `i32` fields in order.
pub open spec fn dec_ts(s: Seq<u8>) -> Option<(Timestamp, Seq<u8>)> {
    match dec_i32(s) {
        Some((year, s1)) => match dec_i32(s1) {
            Some((month, s2)) => match dec_i32(s2) {
                Some((day, s3)) => match dec_i32(s3) {
                    Some((hours, s4)) => match dec_i32(s4) {
                        Some((minutes, s5)) => match dec_i32(s5) {
                            Some((seconds, s6)) => match dec_i32(s6) {
                                Some((nanos, s7)) => Some(
                                    (Timestamp { year, month, day, hours, minutes, seconds, nanos }, s7),
                                ),
                                None => None,
                            },
                            None => None,
                        },
                        None => None,
                    },
                    None => None,
                },
                None => None,
            },
            None => None,
        },
        None => None,
    }
}

/// Decoding undoes encoding for every timestamp, whatever follows.
#[verifier::rlimit(50)]
pub proof fn lemma_dec_enc_ts(t: Timestamp, rest: Seq<u8>)
    ensures
        dec_ts(enc_ts(t) + rest) == Some((t, rest)),
{
    let r6 = enc_i32(t.nanos) + rest;
    let r5 = enc_i32(t.seconds) + r6;
    let r4 = enc_i32(t.minutes) + r5;
    let r3 = enc_i32(t.hours) + r4;
    let r2 = enc_i32(t.day) + r3;
    let r1 = enc_i32(t.month) + r2;
    assert(enc_ts(t) + rest =~= enc_i32(t.year) + r1);
    lemma_dec_enc_i32(t.year, r1);
    lemma_dec_enc_i32(t.month, r2);
    lemma_dec_enc_i32(t.day, r3);
    lemma_dec_enc_i32(t.hours, r4);
    lemma_dec_enc_i32(t.minutes, r5);
    lemma_dec_enc_i32(t.seconds, r6);
    lemma_dec_enc_i32(t.nanos, rest);
}

/// Appends the encoding of a timestamp.
pub fn write_ts(out: &mut Vec<u8>, t: &Timestamp)
    ensures
        final(out)@ == old(out)@ + enc_ts(*t),
{
    write_i32(out, t.year);
    write_i32(out, t.month);
    write_i32(out, t.day);
    write_i32(out, t.hours);
    write_i32(out, t.minutes);
    write_i32(out, t.seconds);
    write_i32(out, t.nanos);
    assert(final(out)@ =~= old(out)@ + enc_ts(*t));
}

/// Reads a timestamp at `pos`.
pub fn read_ts(bytes: &Vec<u8>, pos: usize) -> (r: Option<(Timestamp, usize)>)
    requires
        pos <= bytes@.len(),
    ensures
        match r {
            Some(p) => {
                &&& dec_ts(bytes@.skip(pos as int)) == Some((p.0, bytes@.skip(p.1 as int)))
                &&& pos <= p.1 <= bytes@.len()
            },
            None => dec_ts(bytes@.skip(pos as int)) is None,
        },
{
    let (year, p1) = match read_i32(bytes, pos) {
        Some(v) => v,
        None => {
            return None;
        },
    };
    let (month, p2) = match read_i32(bytes, p1) {
        Some(v) => v,
        None => {
            return None;
        },
    };
    let (day, p3) = match read_i32(bytes, p2) {
        Some(v) => v,
        None => {
            return None;
        },
    };
    let (hours, p4) = match read_i32(bytes, p3) {
        Some(v) => v,
        None => {
            return None;
        },
    };
    let (minutes, p5) = match read_i32(bytes, p4) {
        Some(v) => v,
        None => {
            return None;
        },
    };
    let (seconds, p6) = match read_i32(bytes, p5) {
        Some(v) => v,
        None => {
            return None;
        },
    };
    let (nanos, p7) = match read_i32(bytes, p6) {
        Some(v) => v,
        None => {
            return None;
        },
    };
    Some((Timestamp { year, month, day, hours, minutes, seconds, nanos }, p7))
}

/// An optional timestamp travels as a presence byte, then the timestamp.
pub open spec fn enc_opt_ts(o: Option<Timestamp>) -> Seq<u8> {
    match o {
        None => seq![0u8],
        Some(t) => seq![1u8] + enc_ts(t),
    }
}

/// Decodes an optional timestamp.
pub open spec fn dec_opt_ts(s: Seq<u8>) -> Option<(Option<Timestamp>, Seq<u8>)> {
    if s.len() == 0 {
        None
    } else if s[0] == 0 {
        Some((None, s.drop_first()))
    } else if s[0] == 1 {
        match dec_ts(s.drop_first()) {
            Some((v, r)) => Some((Some(v), r)),
            None => None,
        }
    } else {
        None
    }
}

/// Decoding undoes encoding for every optional timestamp.
pub proof fn lemma_dec_enc_opt_ts(o: Option<Timestamp>, rest: Seq<u8>)
    ensures
        dec_opt_ts(enc_opt_ts(o) + rest) == Some((o, rest)),
{
    match o {
        None => {
            assert((enc_opt_ts(o) + rest)[0] == 0u8);
            assert((enc_opt_ts(o) + rest).drop_first() =~= rest);
        },
        Some(t) => {
            assert((enc_opt_ts(o) + rest)[0] == 1u8);
            assert((enc_opt_ts(o) + rest).drop_first() =~= enc_ts(t) + rest);
            lemma_dec_enc_ts(t, rest);
        },
    }
}

/// Appends the encoding of an optional timestamp.
pub fn write_opt_ts(out: &mut Vec<u8>, o: &Option<Timestamp>)
    ensures
        final(out)@ == old(out)@ + enc_opt_ts(*o),
{
    match o {
        None => {
            out.push(0u8);
            assert(final(out)@ =~= old(out)@ + enc_opt_ts(*o));
        },
        Some(t) => {
            out.push(1u8);
            write_ts(out, t);
            assert(final(out)@ =~= old(out)@ + enc_opt_ts(*o));
        },
    }
}

/// Reads an optional timestamp at `pos`.
pub fn read_opt_ts(bytes: &Vec<u8>, pos: usize) -> (r: Option<(Option<Timestamp>, usize)>)
    requires
        pos <= bytes@.len(),
    ensures
        match r {
            Some(p) => {
                &&& dec_opt_ts(bytes@.skip(pos as int)) == Some((p.0, bytes@.skip(p.1 as int)))
                &&& pos <= p.1 <= bytes@.len()
            },
            None => dec_opt_ts(bytes@.skip(pos as int)) is None,
        },
{
    if pos == bytes.len() {
        return None;
    }
    let b = bytes[pos];
    proof {
        assert(bytes@.skip(pos as int)[0] == b);
        assert(bytes@.skip(pos as int).drop_first() =~= bytes@.skip(pos as int + 1));
    }
    if b == 0 {
        Some((None, pos + 1))
    } else if b == 1 {
        match read_ts(bytes, pos + 1) {
            Some((t, p2)) => Some((Some(t), p2)),
            None => None,
        }
    } else {
        None
    }
}

/// Repeated strings travel back to back; their count travels separately.
pub open spec fn enc_str_seq(ts: Seq<Seq<char>>) -> Seq<u8>
    decreases ts.len(),
{
    if ts.len() == 0 {
        seq![]
    } else {
        enc_str(ts[0]) + enc_str_seq(ts.drop_first())
    }
}

/// Decodes exactly `n` strings back to back.
pub open spec fn dec_str_seq(s: Seq<u8>, n: nat) -> Option<(Seq<Seq<char>>, Seq<u8>)>
    decreases n,
{
    if n == 0 {
        Some((seq![], s))
    } else {
        match dec_str(s) {
            Some((v, r)) => match dec_str_seq(r, (n - 1) as nat) {
                Some((vs, r2)) => Some((seq![v] + vs, r2)),
                None => None,
            },
            None => None,
        }
    }
}

/// Decoding undoes encoding for every string sequence whose members fit.
pub proof fn lemma_dec_enc_str_seq(ts: Seq<Seq<char>>, rest: Seq<u8>)
    requires
        forall|i: int| 0 <= i < ts.len() ==> str_fits(#[trigger] ts[i]),
    ensures
        dec_str_seq(enc_str_seq(ts) + rest, ts.len()) == Some((ts, rest)),
    decreases ts.len(),
{
    if ts.len() == 0 {
        assert(enc_str_seq(ts) + rest =~= rest);
    } else {
        let tail = ts.drop_first();
        assert(enc_str_seq(ts) + rest =~= enc_str(ts[0]) + (enc_str_seq(tail) + rest));
        lemma_dec_enc_str(ts[0], enc_str_seq(tail) + rest);
        lemma_dec_enc_str_seq(tail, rest);
        assert(seq![ts[0]] + tail =~= ts);
    }
}

/// Appends the encodings of `tags[from..]`.
pub fn write_tags(out: &mut Vec<u8>, tags: &Vec<String>, from: usize)
    requires
        from <= tags@.len(),
    ensures
        final(out)@ == old(out)@ + enc_str_seq(tags.deep_view().skip(from as int)),
    decreases tags@.len() - from,
{
    let ghost dv = tags.deep_view();
    if from < tags.len() {
        write_str(out, &tags[from]);
        write_tags(out, tags, from + 1);
        proof {
            assert(dv.skip(from as int)[0] == tags@[from as int]@);
            assert(dv.skip(from as int).drop_first() =~= dv.skip(from as int + 1));
            assert(final(out)@ =~= old(out)@ + enc_str_seq(dv.skip(from as int)));
        }
    } else {
        proof {
            assert(dv.skip(from as int) =~= Seq::<Seq<char>>::empty());
            assert(final(out)@ =~= old(out)@ + enc_str_seq(dv.skip(from as int)));
        }
    }
}

/// Reads `n` strings at `pos`.
pub fn read_tags(bytes: &Vec<u8>, pos: usize, n: usize) -> (r: Option<(Vec<String>, usize)>)
    requires
        pos <= bytes@.len(),
    ensures
        match r {
            Some(p) => {
                &&& dec_str_seq(bytes@.skip(pos as int), n as nat) == Some(
                    (p.0.deep_view(), bytes@.skip(p.1 as int)),
                )
                &&& pos <= p.1 <= bytes@.len()
            },
            None => dec_str_seq(bytes@.skip(pos as int), n as nat) is None,
        },
    decreases n,
{
    if n == 0 {
        let vs: Vec<String> = Vec::new();
        proof {
            assert(vs.deep_view() =~= Seq::<Seq<char>>::empty());
        }
        Some((vs, pos))
    } else {
        match read_str(bytes, pos) {
            None => None,
            Some((s, p2)) => match read_tags(bytes, p2, n - 1) {
                None => None,
                Some((vs, p3)) => {
                    let ghost tail = vs.deep_view();
                    let mut vs = vs;
                    vs.insert(0, s);
                    proof {
                        assert(vs.deep_view() =~= seq![s@] + tail);
                    }
                    Some((vs, p3))
                },
            },
        }
    }
}

/// Whether a link's strings and tag count fit the machine's sizes; every link
/// held in memory satisfies it.
pub open spec fn link_fits(l: LinkView) -> bool {
    &&& str_fits(l.id)
    &&& str_fits(l.title)
    &&& str_fits(l.url)
    &&& (l.summary matches Some(s) ==> str_fits(s))
    &&& l.tags.len() <= usize::MAX as nat
    &&& (forall|i: int| 0 <= i < l.tags.len() ==> str_fits(#[trigger] l.tags[i]))
    &&& (l.via matches Some(s) ==> str_fits(s))
}

/// A link travels as id, title, url, optional timestamp, optional summary,
/// tag count, tags, optional attribution.
pub open spec fn enc_link(l: LinkView) -> Seq<u8> {
    enc_str(l.id) + enc_str(l.title) + enc_str(l.url) + enc_opt_ts(l.datetime) + enc_opt_str(
        l.summary,
    ) + enc_varint(l.tags.len()) + enc_str_seq(l.tags) + enc_opt_str(l.via)
}

/// Decodes one link.
pub open spec fn dec_link(s: Seq<u8>) -> Option<(LinkView, Seq<u8>)> {
    match dec_str(s) {
        Some((id, s1)) => match dec_str(s1) {
            Some((title, s2)) => match dec_str(s2) {
                Some((url, s3)) => match dec_opt_ts(s3) {
                    Some((datetime, s4)) => match dec_opt_str(s4) {
                        Some((summary, s5)) => match dec_size(s5) {
                            Some((n, s6)) => match dec_str_seq(s6, n) {
                                Some((tags, s7)) => match dec_opt_str(s7) {
                                    Some((via, s8)) => Some(
                                        (
                                            LinkView {
                                                id,
                                                title,
                                                url,
                                                datetime,
                                                summary,
                                                tags,
                                                via,
                                            },
                                            s8,
                                        ),
                                    ),
                                    None => None,
                                },
                                None => None,
                            },
                            None => None,
                        },
                        None => None,
                    },
                    None => None,
                },
                None => None,
            },
            None => None,
        },
        None => None,
    }
}

/// Concatenation of byte sequences is associative.
proof fn lemma_assoc(a: Seq<u8>, b: Seq<u8>, c: Seq<u8>)
    ensures
        (a + b) + c == a + (b + c),
{
    assert((a + b) + c =~= a + (b + c));
}

/// Decoding undoes encoding for every link that fits, whatever follows.
#[verifier::rlimit(50)]
pub proof fn lemma_dec_enc_link(l: LinkView, rest: Seq<u8>)
    requires
        link_fits(l),
    ensures
        dec_link(enc_link(l) + rest) == Some((l, rest)),
{
    let a1 = enc_str(l.id);
    let a2 = enc_str(l.title);
    let a3 = enc_str(l.url);
    let a4 = enc_opt_ts(l.datetime);
    let a5 = enc_opt_str(l.summary);
    let a6 = enc_varint(l.tags.len());
    let a7 = enc_str_seq(l.tags);
    let a8 = enc_opt_str(l.via);
    let r7 = a8 + rest;
    let r6 = a7 + r7;
    let r5 = a6 + r6;
    let r4 = a5 + r5;
    let r3 = a4 + r4;
    let r2 = a3 + r3;
    let r1 = a2 + r2;
    lemma_assoc(a1 + a2 + a3 + a4 + a5 + a6 + a7, a8, rest);
    lemma_assoc(a1 + a2 + a3 + a4 + a5 + a6, a7, r7);
    lemma_assoc(a1 + a2 + a3 + a4 + a5, a6, r6);
    lemma_assoc(a1 + a2 + a3 + a4, a5, r5);
    lemma_assoc(a1 + a2 + a3, a4, r4);
    lemma_assoc(a1 + a2, a3, r3);
    lemma_assoc(a1, a2, r2);
    assert(enc_link(l) + rest == a1 + r1);
    lemma_dec_enc_str(l.id, r1);
    lemma_dec_enc_str(l.title, r2);
    lemma_dec_enc_str(l.url, r3);
    lemma_dec_enc_opt_ts(l.datetime, r4);
    lemma_dec_enc_opt_str(l.summary, r5);
    lemma_dec_enc_size(l.tags.len(), r6);
    lemma_dec_enc_str_seq(l.tags, r7);
    lemma_dec_enc_opt_str(l.via, rest);
}

/// Appends the encoding of a link.
pub fn write_link(out: &mut Vec<u8>, l: &Link)
    ensures
        final(out)@ == old(out)@ + enc_link(l@),
{
    let ghost a1 = enc_str(l@.id);
    let ghost a2 = enc_str(l@.title);
    let ghost a3 = enc_str(l@.url);
    let ghost a4 = enc_opt_ts(l@.datetime);
    let ghost a5 = enc_opt_str(l@.summary);
    let ghost a6 = enc_varint(l@.tags.len());
    let ghost a7 = enc_str_seq(l@.tags);
    let ghost a8 = enc_opt_str(l@.via);
    write_str(out, &l.id);
    write_str(out, &l.title);
    write_str(out, &l.url);
    write_opt_ts(out, &l.datetime);
    write_opt_str(out, &l.summary);
    write_varint(out, l.tags.len() as u64);
    write_tags(out, &l.tags, 0);
    write_opt_str(out, &l.via);
    proof {
        let start = old(out)@;
        assert(l.tags.deep_view().skip(0) =~= l.tags.deep_view());
        lemma_assoc(start, a1, a2);
        lemma_assoc(start, a1 + a2, a3);
        lemma_assoc(start, a1 + a2 + a3, a4);
        lemma_assoc(start, a1 + a2 + a3 + a4, a5);
        lemma_assoc(start, a1 + a2 + a3 + a4 + a5, a6);
        lemma_assoc(start, a1 + a2 + a3 + a4 + a5 + a6, a7);
        lemma_assoc(start, a1 + a2 + a3 + a4 + a5 + a6 + a7, a8);
    }
}

/// Reads one link at `pos`.
pub fn read_link(bytes: &Vec<u8>, pos: usize) -> (r: Option<(Link, usize)>)
    requires
        pos <= bytes@.len(),
    ensures
        match r {
            Some(p) => {
                &&& dec_link(bytes@.skip(pos as int)) == Some((p.0@, bytes@.skip(p.1 as int)))
                &&& pos <= p.1 <= bytes@.len()
            },
            None => dec_link(bytes@.skip(pos as int)) is None,
        },
{
    let (id, p1) = match read_str(bytes, pos) {
        Some(v) => v,
        None => {
            return None;
        },
    };
    let (title, p2) = match read_str(bytes, p1) {
        Some(v) => v,
        None => {
            return None;
        },
    };
    let (url, p3) = match read_str(bytes, p2) {
        Some(v) => v,
        None => {
            return None;
        },
    };
    let (datetime, p4) = match read_opt_ts(bytes, p3) {
        Some(v) => v,
        None => {
            return None;
        },
    };
    let (summary, p5) = match read_opt_str(bytes, p4) {
        Some(v) => v,
        None => {
            return None;
        },
    };
    let (n, p6) = match read_size(bytes, p5) {
        Some(v) => v,
        None => {
            return None;
        },
    };
    let (tags, p7) = match read_tags(bytes, p6, n) {
        Some(v) => v,
        None => {
            return None;
        },
    };
    let (via, p8) = match read_opt_str(bytes, p7) {
        Some(v) => v,
        None => {
            return None;
        },
    };
    let l = Link { id, title, url, datetime, summary, tags, via };
    proof {
        assert(dec_link(bytes@.skip(pos as int)) matches Some(p) && p.0 =~= l@ && p.1 == bytes@.skip(
            p8 as int,
        ));
    }
    Some((l, p8))
}

/// Repeated links travel back to back; their count travels separately.
pub open spec fn enc_link_seq(ls: Seq<LinkView>) -> Seq<u8>
    decreases ls.len(),
{
    if ls.len() == 0 {
        seq![]
    } else {
        enc_link(ls[0]) + enc_link_seq(ls.drop_first())
    }
}

/// Decodes exactly `n` links back to back.
pub open spec fn dec_link_seq(s: Seq<u8>, n: nat) -> Option<(Seq<LinkView>, Seq<u8>)>
    decreases n,
{
    if n == 0 {
        Some((seq![], s))
    } else {
        match dec_link(s) {
            Some((v, r)) => match dec_link_seq(r, (n - 1) as nat) {
                Some((vs, r2)) => Some((seq![v] + vs, r2)),
                None => None,
            },
            None => None,
        }
    }
}

/// Decoding undoes encoding for every link sequence whose members fit.
pub proof fn lemma_dec_enc_link_seq(ls: Seq<LinkView>, rest: Seq<u8>)
    requires
        forall|i: int| 0 <= i < ls.len() ==> link_fits(#[trigger] ls[i]),
    ensures
        dec_link_seq(enc_link_seq(ls) + rest, ls.len()) == Some((ls, rest)),
    decreases ls.len(),
{
    if ls.len() == 0 {
        assert(enc_link_seq(ls) + rest =~= rest);
    } else {
        let tail = ls.drop_first();
        lemma_assoc(enc_link(ls[0]), enc_link_seq(tail), rest);
        lemma_dec_enc_link(ls[0], enc_link_seq(tail) + rest);
        lemma_dec_enc_link_seq(tail, rest);
        assert(seq![ls[0]] + tail =~= ls);
    }
}

/// Appends the encodings of `links[from..]`.
pub fn write_links(out: &mut Vec<u8>, links: &Vec<Link>, from: usize)
    requires
        from <= links@.len(),
    ensures
        final(out)@ == old(out)@ + enc_link_seq(links_view(links@).skip(from as int)),
    decreases links@.len() - from,
{
    let ghost lv = links_view(links@);
    if from < links.len() {
        write_link(out, &links[from]);
        write_links(out, links, from + 1);
        proof {
            assert(lv.skip(from as int)[0] == links@[from as int]@);
            assert(lv.skip(from as int).drop_first() =~= lv.skip(from as int + 1));
            assert(final(out)@ =~= old(out)@ + enc_link_seq(lv.skip(from as int)));
        }
    } else {
        proof {
            assert(lv.skip(from as int) =~= Seq::<LinkView>::empty());
            assert(final(out)@ =~= old(out)@ + enc_link_seq(lv.skip(from as int)));
        }
    }
}

/// Reads `n` links at `pos`.
pub fn read_links(bytes: &Vec<u8>, pos: usize, n: usize) -> (r: Option<(Vec<Link>, usize)>)
    requires
        pos <= bytes@.len(),
    ensures
        match r {
            Some(p) => {
                &&& dec_link_seq(bytes@.skip(pos as int), n as nat) == Some(
                    (links_view(p.0@), bytes@.skip(p.1 as int)),
                )
                &&& pos <= p.1 <= bytes@.len()
            },
            None => dec_link_seq(bytes@.skip(pos as int), n as nat) is None,
        },
    decreases n,
{
    if n == 0 {
        let vs: Vec<Link> = Vec::new();
        proof {
            assert(links_view(vs@) =~= Seq::<LinkView>::empty());
        }
        Some((vs, pos))
    } else {
        match read_link(bytes, pos) {
            None => None,
            Some((l, p2)) => match read_links(bytes, p2, n - 1) {
                None => None,
                Some((vs, p3)) => {
                    let ghost tail = links_view(vs@);
                    let mut vs = vs;
                    vs.insert(0, l);
                    proof {
                        assert(links_view(vs@) =~= seq![l@] + tail);
                    }
                    Some((vs, p3))
                },
            },
        }
    }
}

/// Whether a feed's strings and counts fit the machine's sizes; every feed
/// held in memory satisfies it.
pub open spec fn feed_fits(f: FeedView) -> bool {
    &&& str_fits(f.title)
    &&& f.links.len() <= usize::MAX as nat
    &&& (forall|i: int| 0 <= i < f.links.len() ==> link_fits(#[trigger] f.links[i]))
}

/// A feed travels as version, title, link count, links.
pub open spec fn enc_feed(f: FeedView) -> Seq<u8> {
    enc_i32(f.version) + enc_str(f.title) + enc_varint(f.links.len()) + enc_link_seq(f.links)
}

/// Decodes a whole feed; every byte must be consumed.
pub open spec fn spec_dec_feed(s: Seq<u8>) -> Option<FeedView> {
    match dec_i32(s) {
        Some((version, s1)) => match dec_str(s1) {
            Some((title, s2)) => match dec_size(s2) {
                Some((n, s3)) => match dec_link_seq(s3, n) {
                    Some((links, s4)) => {
                        if s4.len() == 0 {
                            Some(FeedView { version, title, links })
                        } else {
                            None
                        }
                    },
                    None => None,
                },
                None => None,
            },
            None => None,
        },
        None => None,
    }
}

/// Decoding an encoding of any feed yields a value equal to that feed: the
/// persisted format loses no information.
pub proof fn lemma_feed_round_trip(f: FeedView)
    requires
        feed_fits(f),
    ensures
        spec_dec_feed(enc_feed(f)) == Some(f),
{
    let a1 = enc_i32(f.version);
    let a2 = enc_str(f.title);
    let a3 = enc_varint(f.links.len());
    let a4 = enc_link_seq(f.links);
    let empty = Seq::<u8>::empty();
    let r3 = a4 + empty;
    let r2 = a3 + r3;
    let r1 = a2 + r2;
    lemma_assoc(a1 + a2 + a3, a4, empty);
    lemma_assoc(a1 + a2, a3, r3);
    lemma_assoc(a1, a2, r2);
    assert(enc_feed(f) + empty =~= enc_feed(f));
    assert(enc_feed(f) == a1 + r1);
    lemma_dec_enc_i32(f.version, r1);
    lemma_dec_enc_str(f.title, r2);
    lemma_dec_enc_size(f.links.len(), r3);
    lemma_dec_enc_link_seq(f.links, empty);
}

/// Serializes a feed; the result is exactly [`enc_feed`] of its value.
pub fn encode_feed(f: &Feed) -> (r: Vec<u8>)
    ensures
        r@ == enc_feed(f@),
{
    let mut out: Vec<u8> = Vec::new();
    write_i32(&mut out, f.version);
    write_str(&mut out, &f.title);
    write_varint(&mut out, f.links.len() as u64);
    write_links(&mut out, &f.links, 0);
    proof {
        assert(links_view(f.links@).skip(0) =~= links_view(f.links@));
        assert(out@ =~= Seq::<u8>::empty() + out@);
        assert(out@ =~= enc_feed(f@));
    }
    out
}

/// Parses a feed from bytes. Succeeds exactly on the encodings that
/// [`spec_dec_feed`] accepts, returning the encoded value; anything else is a
/// decode error.
pub fn decode_feed(bytes: &Vec<u8>) -> (r: Result<Feed, FeedError>)
    ensures
        match spec_dec_feed(bytes@) {
            Some(fv) => r matches Ok(f) && f@ == fv,
            None => r matches Err(e) && e == FeedError::DecodeError,
        },
{
    proof {
        assert(bytes@.skip(0) =~= bytes@);
    }
    let (version, p1) = match read_i32(bytes, 0) {
        Some(v) => v,
        None => {
            return Err(FeedError::DecodeError);
        },
    };
    let (title, p2) = match read_str(bytes, p1) {
        Some(v) => v,
        None => {
            return Err(FeedError::DecodeError);
        },
    };
    let (n, p3) = match read_size(bytes, p2) {
        Some(v) => v,
        None => {
            return Err(FeedError::DecodeError);
        },
    };
    let (links, p4) = match read_links(bytes, p3, n) {
        Some(v) => v,
        None => {
            return Err(FeedError::DecodeError);
        },
    };
    if p4 != bytes.len() {
        proof {
            assert(bytes@.skip(p4 as int).len() != 0);
        }
        return Err(FeedError::DecodeError);
    }
    let f = Feed { version, title, links };
    proof {
        assert(bytes@.skip(p4 as int).len() == 0);
        assert(spec_dec_feed(bytes@) matches Some(fv) && fv == f@);
    }
    Ok(f)
}

} // verus!
