//! Messages in a byte stream: each goes out as its length in four bytes, least significant
//! first, followed by its encoding.
use crate::wire::{
    le_bytes, le_value, lemma_le_bound, lemma_le_len, lemma_le_ranges, lemma_le_value, put_bytes, put_u32,
    take_u32,
};
use vstd::prelude::*;
use vstd::slice::slice_subrange;

verus! {

/// A type that travels in frames.
pub trait Message: Sized + View {
    /// The encoding of a value.
    spec fn payload(v: Self::V) -> Seq<u8>;

    /// The value at the front of the bytes, where there is one. Bytes behind it do not matter.
    spec fn parse(b: Seq<u8>) -> Option<Self::V>;

    /// Whether the value is small enough for its lengths to be written.
    spec fn writable(v: Self::V) -> bool;

    /// Decoding gives back what was encoded, whatever follows it.
    proof fn parse_inverts_payload(v: Self::V, rest: Seq<u8>)
        requires
            Self::writable(v),
        ensures
            Self::parse(Self::payload(v) + rest) == Some(v),
    ;

    /// Encodes the value.
    fn encode(&self) -> (r: Option<Vec<u8>>)
        ensures
            r matches Some(b) && b@ == Self::payload(self@),
    ;

    /// Decodes the value at the front of the bytes.
    fn decode(b: &[u8]) -> (r: Option<Self>)
        ensures
            match (r, Self::parse(b@)) {
                (Some(m), Some(v)) => m@ == v,
                (None, None) => true,
                _ => false,
            },
    ;
}

/// Why a message could not be written or read.
#[derive(Debug, Clone, Copy, PartialEq, Eq, Structural)]
pub enum FrameError {
    /// The bytes end before the length or the message does.
    UnexpectedEof,
    /// The bytes of the message stand for no value.
    InvalidData,
}

/// A position in a run of bytes.
#[derive(Debug)]
pub struct Cursor {
    pub data: Vec<u8>,
    pub pos: usize,
}

impl Cursor {
    /// The bytes from the position on.
    pub open spec fn remaining(self) -> Seq<u8> {
        self.data@.skip(self.pos as int)
    }

    /// Whether the position lies within the bytes.
    pub open spec fn wf(self) -> bool {
        self.pos <= self.data@.len()
    }

    /// A cursor at the first byte.
    pub fn new(data: Vec<u8>) -> (r: Cursor)
        ensures
            r.wf(),
            r.data@ == data@,
            r.remaining() == data@,
    {
        assert(data@.skip(0) == data@);
        Cursor { data, pos: 0 }
    }
}

/// The four bytes in front of a message. Of the length they carry the low 32 bits.
pub open spec fn header(len: nat) -> Seq<u8> {
    le_bytes(len % 0x1_0000_0000, 4)
}

/// A message in its frame.
pub open spec fn frame<T: Message>(v: T::V) -> Seq<u8> {
    header(T::payload(v).len()) + T::payload(v)
}

/// What reading a message from `b` gives: the message and what follows its frame, or why there
/// is none.
pub open spec fn read_frame<T: Message>(b: Seq<u8>) -> Result<(T::V, Seq<u8>), FrameError> {
    if b.len() < 4 {
        Err(FrameError::UnexpectedEof)
    } else {
        let n = le_value(b.take(4)) as int;
        if b.len() < 4 + n {
            Err(FrameError::UnexpectedEof)
        } else {
            match T::parse(b.subrange(4, 4 + n)) {
                Some(v) => Ok((v, b.skip(4 + n))),
                None => Err(FrameError::InvalidData),
            }
        }
    }
}

/// What is left of `b` after an attempt to read a message from it: what follows the frame, be its
/// message good or bad, and nothing where `b` ends within the frame.
pub open spec fn after_frame(b: Seq<u8>) -> Seq<u8> {
    if b.len() < 4 || b.len() < 4 + le_value(b.take(4)) {
        Seq::empty()
    } else {
        b.skip(4 + le_value(b.take(4)) as int)
    }
}

/// The length that the four bytes in front of a message announce.
pub fn frame_length(head: &[u8]) -> (r: Option<u32>)
    ensures
        match r {
            Some(n) => head@.len() >= 4 && n == le_value(head@.take(4)),
            None => head@.len() < 4,
        },
{
    proof {
        assert(head@.skip(0) == head@);
        lemma_le_ranges();
        if head@.len() >= 4 {
            lemma_le_bound(head@.take(4));
        }
    }
    match take_u32(head, 0) {
        Some((n, _)) => Some(n),
        None => None,
    }
}

/// Decodes the bytes between one frame's length and the next frame.
pub fn decode_payload<T: Message>(payload: &[u8]) -> (r: Result<T, FrameError>)
    ensures
        match (r, T::parse(payload@)) {
            (Ok(m), Some(v)) => m@ == v,
            (Err(e), None) => e == FrameError::InvalidData,
            _ => false,
        },
{
    match T::decode(payload) {
        Some(m) => Ok(m),
        None => Err(FrameError::InvalidData),
    }
}

/// Appends the message in its frame to `writer`.
pub fn write_message<T: Message>(writer: &mut Vec<u8>, msg: &T) -> (r: Result<(), FrameError>)
    ensures
        r is Ok,
        final(writer)@ == old(writer)@ + frame::<T>(msg@),
{
    match msg.encode() {
        Some(payload) => {
            let len: u32 = (payload.len() as u64 % 0x1_0000_0000) as u32;
            let ok = put_u32(writer, len);
            put_bytes(writer, &payload);
            if ok {
                Ok(())
            } else {
                Err(FrameError::InvalidData)
            }
        },
        None => Err(FrameError::InvalidData),
    }
}

/// Reads the message at the cursor and moves the cursor behind its frame, even where the message
/// is bad. Where the bytes end too soon the cursor moves to their end.
pub fn read_message<T: Message>(reader: &mut Cursor) -> (r: Result<T, FrameError>)
    requires
        old(reader).wf(),
    ensures
        final(reader).wf(),
        final(reader).data@ == old(reader).data@,
        final(reader).remaining() == after_frame(old(reader).remaining()),
        match (r, read_frame::<T>(old(reader).remaining())) {
            (Ok(m), Ok((v, rest))) => m@ == v && final(reader).remaining() == rest,
            (Err(e), Err(f)) => e == f,
            _ => false,
        },
{
    let ghost rest = reader.remaining();
    let total: usize = reader.data.len();
    let (body, end) = {
        let bytes: &[u8] = reader.data.as_slice();
        let tail = slice_subrange(bytes, reader.pos, total);
        assert(tail@ == rest);
        match frame_length(tail) {
            Some(n) if n as u64 <= (tail.len() - 4) as u64 => {
                let body = slice_subrange(tail, 4, 4 + n as usize);
                assert(reader.data@.skip(reader.pos + 4 + n) == rest.skip(4 + n));
                (decode_payload::<T>(body), reader.pos + 4 + n as usize)
            },
            _ => {
                assert(reader.data@.skip(total as int) == Seq::<u8>::empty());
                (Err(FrameError::UnexpectedEof), total)
            },
        }
    };
    reader.pos = end;
    body
}

/// Reading gives back what was written, and leaves what follows it, for every message whose
/// encoding has a length that four bytes can carry.
pub proof fn read_gives_back_what_was_written<T: Message>(v: T::V, rest: Seq<u8>)
    requires
        T::writable(v),
        T::payload(v).len() < 0x1_0000_0000,
    ensures
        read_frame::<T>(frame::<T>(v) + rest) == Ok::<(T::V, Seq<u8>), FrameError>((v, rest)),
{
    let p = T::payload(v);
    let b = frame::<T>(v) + rest;
    lemma_le_ranges();
    lemma_le_len(p.len(), 4);
    lemma_le_value(p.len(), 4);
    assert(b.take(4) == header(p.len()));
    assert(b.subrange(4, (4 + p.len()) as int) == p);
    assert(b.skip((4 + p.len()) as int) == rest);
    T::parse_inverts_payload(v, Seq::empty());
    assert(p + Seq::<u8>::empty() == p);
}

/// A frame whose bytes stand for no message does not keep the next message from being read.
pub proof fn bad_message_is_skipped(bytes: Seq<u8>, rest: Seq<u8>)
    requires
        bytes.len() < 0x1_0000_0000,
    ensures
        after_frame(header(bytes.len()) + bytes + rest) == rest,
{
    let b = header(bytes.len()) + bytes + rest;
    lemma_le_ranges();
    lemma_le_len(bytes.len(), 4);
    lemma_le_value(bytes.len(), 4);
    assert(b.take(4) == header(bytes.len()));
    assert(b.skip((4 + bytes.len()) as int) == rest);
}

/// Two messages written one after the other are read back in that order.
pub proof fn messages_keep_their_order<T: Message>(first: T::V, second: T::V)
    requires
        T::writable(first),
        T::writable(second),
        T::payload(first).len() < 0x1_0000_0000,
        T::payload(second).len() < 0x1_0000_0000,
    ensures
        ({
            let stream = frame::<T>(first) + frame::<T>(second);
            &&& read_frame::<T>(stream) matches Ok((v, rest))
            &&& v == first
            &&& read_frame::<T>(rest) == Ok::<(T::V, Seq<u8>), FrameError>((second, Seq::empty()))
        }),
{
    read_gives_back_what_was_written::<T>(first, frame::<T>(second));
    read_gives_back_what_was_written::<T>(second, Seq::empty());
    assert(frame::<T>(second) + Seq::<u8>::empty() == frame::<T>(second));
}

/// Four bytes come before a message. They hold its length, least significant first.
pub proof fn frames_announce_their_length<T: Message>(v: T::V)
    requires
        T::payload(v).len() <= u32::MAX,
    ensures
        frame::<T>(v).len() == 4 + T::payload(v).len(),
        frame::<T>(v)[0] + 256 * frame::<T>(v)[1] + 65536 * frame::<T>(v)[2] + 16777216 * frame::<T>(
            v,
        )[3] == T::payload(v).len(),
        frame::<T>(v).skip(4) == T::payload(v),
{
    let n = T::payload(v).len();
    let h = header(n);
    let f = frame::<T>(v);
    lemma_le_len(n, 4);
    lemma_le_ranges();
    lemma_le_value(n, 4);
    reveal_with_fuel(le_value, 5);
    assert(h.len() == 4);
    assert(f.skip(4) =~= T::payload(v));
    assert(f[0] == h[0] && f[1] == h[1] && f[2] == h[2] && f[3] == h[3]);
    assert(h.drop_first()[0] == h[1]);
    assert(h.drop_first().drop_first()[0] == h[2]);
    assert(h.drop_first().drop_first().drop_first()[0] == h[3]);
}

/// Where the bytes end within a frame, wherever that is, there is no message and nothing is left.
pub proof fn cut_off_frame_is_the_end<T: Message>(bytes: Seq<u8>, k: int)
    requires
        bytes.len() < 0x1_0000_0000,
        0 <= k < 4 + bytes.len(),
    ensures
        read_frame::<T>((header(bytes.len()) + bytes).take(k)) == Err::<(T::V, Seq<u8>), FrameError>(
            FrameError::UnexpectedEof,
        ),
        after_frame((header(bytes.len()) + bytes).take(k)) == Seq::<u8>::empty(),
{
    let b = (header(bytes.len()) + bytes).take(k);
    lemma_le_ranges();
    lemma_le_len(bytes.len(), 4);
    lemma_le_value(bytes.len(), 4);
    if k >= 4 {
        assert(b.take(4) =~= header(bytes.len()));
    }
}

/// A whole frame whose bytes stand for no message is told as such.
pub proof fn unreadable_message_is_told<T: Message>(bytes: Seq<u8>, rest: Seq<u8>)
    requires
        bytes.len() < 0x1_0000_0000,
        T::parse(bytes) is None,
    ensures
        read_frame::<T>(header(bytes.len()) + bytes + rest) == Err::<(T::V, Seq<u8>), FrameError>(
            FrameError::InvalidData,
        ),
{
    let b = header(bytes.len()) + bytes + rest;
    lemma_le_ranges();
    lemma_le_len(bytes.len(), 4);
    lemma_le_value(bytes.len(), 4);
    assert(b.take(4) =~= header(bytes.len()));
    assert(b.subrange(4, (4 + bytes.len()) as int) =~= bytes);
}

} // verus!
