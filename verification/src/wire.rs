//! The byte-level encoding of numbers and texts that the messages and files are made of.
//!
//! Numbers have a fixed width and go out least significant byte first. A text is its length in
//! bytes, as a 64-bit number, followed by its UTF-8 bytes.
use vstd::prelude::*;
use vstd::slice::slice_subrange;
use vstd::utf8::{decode_utf8, encode_utf8, valid_utf8};

verus! {

/// The error type of the `bincode` crate, carried through unread.
#[verifier::external_type_specification]
#[verifier::external_body]
pub struct ExErrorKind(bincode::ErrorKind);

/// The number as `width` bytes, least significant first.
pub open spec fn le_bytes(v: nat, width: nat) -> Seq<u8>
    decreases width,
{
    if width == 0 {
        Seq::empty()
    } else {
        seq![(v % 256) as u8] + le_bytes(v / 256, (width - 1) as nat)
    }
}

/// The number that the bytes stand for, least significant first.
pub open spec fn le_value(s: Seq<u8>) -> nat
    decreases s.len(),
{
    if s.len() == 0 {
        0
    } else {
        s[0] as nat + 256 * le_value(s.drop_first())
    }
}

/// How many values fit in `width` bytes.
pub open spec fn le_range(width: nat) -> nat
    decreases width,
{
    if width == 0 {
        1
    } else {
        256 * le_range((width - 1) as nat)
    }
}

/// A text on the wire.
pub open spec fn text_bytes(s: Seq<char>) -> Seq<u8> {
    le_bytes(encode_utf8(s).len(), 8) + encode_utf8(s)
}

/// A 32-bit number at the front of `b`, and what follows it.
pub open spec fn read_u32(b: Seq<u8>) -> Option<(u32, Seq<u8>)> {
    if b.len() >= 4 {
        Some((le_value(b.take(4)) as u32, b.skip(4)))
    } else {
        None
    }
}

/// A 64-bit number at the front of `b`, and what follows it.
pub open spec fn read_u64(b: Seq<u8>) -> Option<(u64, Seq<u8>)> {
    if b.len() >= 8 {
        Some((le_value(b.take(8)) as u64, b.skip(8)))
    } else {
        None
    }
}

/// A text at the front of `b`, and what follows it.
pub open spec fn read_text(b: Seq<u8>) -> Option<(Seq<char>, Seq<u8>)> {
    if b.len() < 8 {
        None
    } else {
        let n = le_value(b.take(8)) as int;
        let body = b.skip(8);
        if n <= body.len() && valid_utf8(body.take(n)) {
            Some((decode_utf8(body.take(n)), body.skip(n)))
        } else {
            None
        }
    }
}

/// The bytes of a number have the asked width.
pub proof fn lemma_le_len(v: nat, width: nat)
    ensures
        le_bytes(v, width).len() == width,
    decreases width,
{
    if width > 0 {
        lemma_le_len(v / 256, (width - 1) as nat);
    }
}

/// Reading the bytes of a number that fits gives the number back.
pub proof fn lemma_le_value(v: nat, width: nat)
    requires
        v < le_range(width),
    ensures
        le_value(le_bytes(v, width)) == v,
    decreases width,
{
    if width > 0 {
        let rest = (width - 1) as nat;
        assert(v / 256 < le_range(rest));
        lemma_le_value(v / 256, rest);
        assert(le_bytes(v, width).drop_first() == le_bytes(v / 256, rest));
    }
}

/// The value of `n` bytes fits in `n` bytes.
pub proof fn lemma_le_bound(s: Seq<u8>)
    ensures
        le_value(s) < le_range(s.len()),
    decreases s.len(),
{
    if s.len() > 0 {
        lemma_le_bound(s.drop_first());
    }
}

/// The ranges of the two widths in use.
pub proof fn lemma_le_ranges()
    ensures
        le_range(4) == 0x1_0000_0000,
        le_range(8) == 0x1_0000_0000_0000_0000,
{
    reveal_with_fuel(le_range, 9);
    assert(le_range(8) == 0x1_0000_0000_0000_0000);
}

/// A 32-bit number that was written is read back, whatever follows it.
pub proof fn u32_reads_back(v: u32, rest: Seq<u8>)
    ensures
        read_u32(le_bytes(v as nat, 4) + rest) == Some((v, rest)),
{
    lemma_le_ranges();
    lemma_le_len(v as nat, 4);
    lemma_le_value(v as nat, 4);
    let b = le_bytes(v as nat, 4) + rest;
    assert(b.take(4) == le_bytes(v as nat, 4));
    assert(b.skip(4) == rest);
}

/// A 64-bit number that was written is read back, whatever follows it.
pub proof fn u64_reads_back(v: u64, rest: Seq<u8>)
    ensures
        read_u64(le_bytes(v as nat, 8) + rest) == Some((v, rest)),
{
    lemma_le_ranges();
    lemma_le_len(v as nat, 8);
    lemma_le_value(v as nat, 8);
    let b = le_bytes(v as nat, 8) + rest;
    assert(b.take(8) == le_bytes(v as nat, 8));
    assert(b.skip(8) == rest);
}

/// A text that was written is read back, whatever follows it. A text in memory is shorter than
/// the bound.
pub proof fn text_reads_back(s: Seq<char>, rest: Seq<u8>)
    requires
        encode_utf8(s).len() <= u64::MAX,
    ensures
        read_text(text_bytes(s) + rest) == Some((s, rest)),
{
    let body = encode_utf8(s);
    lemma_le_ranges();
    lemma_le_len(body.len(), 8);
    lemma_le_value(body.len(), 8);
    vstd::utf8::encode_utf8_valid_utf8(s);
    vstd::utf8::encode_utf8_decode_utf8(s);
    let b = text_bytes(s) + rest;
    assert(b.take(8) == le_bytes(body.len(), 8));
    assert(b.skip(8) == body + rest);
    assert((body + rest).take(body.len() as int) == body);
    assert((body + rest).skip(body.len() as int) == rest);
}

/// `bincode::serialize` of a `u32`: four bytes, least significant first. It never fails.
#[verifier::external_body]
fn serialize_u32(v: u32) -> (r: Result<Vec<u8>, bincode::Error>)
    ensures
        r is Ok,
        r->Ok_0@ == le_bytes(v as nat, 4),
{
    bincode::serialize(&v)
}

/// `bincode::serialize` of a `u64`: eight bytes, least significant first. It never fails.
#[verifier::external_body]
fn serialize_u64(v: u64) -> (r: Result<Vec<u8>, bincode::Error>)
    ensures
        r is Ok,
        r->Ok_0@ == le_bytes(v as nat, 8),
{
    bincode::serialize(&v)
}

/// `bincode::serialize` of a `str`: the length in bytes as a 64-bit number, then the UTF-8
/// bytes. It never fails.
#[verifier::external_body]
fn serialize_str(v: &str) -> (r: Result<Vec<u8>, bincode::Error>)
    ensures
        r is Ok,
        r->Ok_0@ == text_bytes(v@),
{
    bincode::serialize(v)
}

/// `bincode::deserialize` to a `u32`: the value of the first four bytes, least significant
/// first. Bytes behind them are allowed, and fewer than four are an error.
#[verifier::external_body]
fn deserialize_u32(b: &[u8]) -> (r: Result<u32, bincode::Error>)
    ensures
        match r {
            Ok(v) => b@.len() >= 4 && v == le_value(b@.take(4)),
            Err(_) => b@.len() < 4,
        },
{
    bincode::deserialize(b)
}

/// `bincode::deserialize` to a `u64`: the value of the first eight bytes, least significant
/// first. Bytes behind them are allowed, and fewer than eight are an error.
#[verifier::external_body]
fn deserialize_u64(b: &[u8]) -> (r: Result<u64, bincode::Error>)
    ensures
        match r {
            Ok(v) => b@.len() >= 8 && v == le_value(b@.take(8)),
            Err(_) => b@.len() < 8,
        },
{
    bincode::deserialize(b)
}

/// `bincode::deserialize` to a `String`: a 64-bit length, then that many bytes, which must be
/// there and be valid UTF-8. Bytes behind them are allowed; anything else is an error.
#[verifier::external_body]
fn deserialize_string(b: &[u8]) -> (r: Result<String, bincode::Error>)
    ensures
        match r {
            Ok(s) => read_text(b@) matches Some((t, _)) && s@ == t,
            Err(_) => read_text(b@) is None,
        },
{
    bincode::deserialize(b)
}

/// Appends bytes that are encoded already.
pub fn put_bytes(out: &mut Vec<u8>, bytes: &Vec<u8>)
    ensures
        final(out)@ == old(out)@ + bytes@,
{
    let ghost start = out@;
    let mut i: usize = 0;
    while i < bytes.len()
        invariant
            i <= bytes.len(),
            out@ == start + bytes@.take(i as int),
        decreases bytes.len() - i,
    {
        out.push(bytes[i]);
        assert(bytes@.take(i + 1) == bytes@.take(i as int).push(bytes@[i as int]));
        i += 1;
    }
    assert(bytes@.take(bytes@.len() as int) == bytes@);
}

/// Appends a 32-bit number. Returns whether it could be encoded.
pub fn put_u32(out: &mut Vec<u8>, v: u32) -> (r: bool)
    ensures
        r,
        final(out)@ == old(out)@ + le_bytes(v as nat, 4),
{
    match serialize_u32(v) {
        Ok(b) => {
            put_bytes(out, &b);
            true
        },
        Err(_) => false,
    }
}

/// Appends a 64-bit number. Returns whether it could be encoded.
pub fn put_u64(out: &mut Vec<u8>, v: u64) -> (r: bool)
    ensures
        r,
        final(out)@ == old(out)@ + le_bytes(v as nat, 8),
{
    match serialize_u64(v) {
        Ok(b) => {
            put_bytes(out, &b);
            true
        },
        Err(_) => false,
    }
}

/// Appends a text. Returns whether it could be encoded.
pub fn put_text(out: &mut Vec<u8>, v: &str) -> (r: bool)
    ensures
        r,
        final(out)@ == old(out)@ + text_bytes(v@),
{
    match serialize_str(v) {
        Ok(b) => {
            put_bytes(out, &b);
            true
        },
        Err(_) => false,
    }
}

/// The 32-bit number at `pos`, and the position behind it.
pub fn take_u32(b: &[u8], pos: usize) -> (r: Option<(u32, usize)>)
    requires
        pos <= b@.len(),
    ensures
        match (r, read_u32(b@.skip(pos as int))) {
            (Some((v, p)), Some((w, rest))) => v == w && p <= b@.len() && rest == b@.skip(p as int),
            (None, None) => true,
            _ => false,
        },
{
    let tail = slice_subrange(b, pos, b.len());
    assert(tail@ == b@.skip(pos as int));
    match deserialize_u32(tail) {
        Ok(v) => {
            assert(tail@.skip(4) == b@.skip(pos + 4));
            Some((v, pos + 4))
        },
        Err(_) => None,
    }
}

/// The 64-bit number at `pos`, and the position behind it.
pub fn take_u64(b: &[u8], pos: usize) -> (r: Option<(u64, usize)>)
    requires
        pos <= b@.len(),
    ensures
        match (r, read_u64(b@.skip(pos as int))) {
            (Some((v, p)), Some((w, rest))) => v == w && p <= b@.len() && rest == b@.skip(p as int),
            (None, None) => true,
            _ => false,
        },
{
    let tail = slice_subrange(b, pos, b.len());
    assert(tail@ == b@.skip(pos as int));
    match deserialize_u64(tail) {
        Ok(v) => {
            assert(tail@.skip(8) == b@.skip(pos + 8));
            Some((v, pos + 8))
        },
        Err(_) => None,
    }
}

/// The text at `pos`, and the position behind it.
pub fn take_text(b: &[u8], pos: usize) -> (r: Option<(String, usize)>)
    requires
        pos <= b@.len(),
    ensures
        match (r, read_text(b@.skip(pos as int))) {
            (Some((v, p)), Some((w, rest))) => v@ == w && p <= b@.len() && rest == b@.skip(
                p as int,
            ),
            (None, None) => true,
            _ => false,
        },
{
    let tail = slice_subrange(b, pos, b.len());
    assert(tail@ == b@.skip(pos as int));
    match deserialize_string(tail) {
        Ok(s) => match deserialize_u64(tail) {
            Ok(n) => {
                proof {
                    lemma_le_ranges();
                    assert(tail@.skip(8).skip(n as int) == b@.skip(pos + 8 + n));
                }
                Some((s, pos + 8 + n as usize))
            },
            Err(_) => None,
        },
        Err(_) => None,
    }
}

} // verus!
