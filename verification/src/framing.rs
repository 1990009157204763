//! Messages on a byte stream: a length in four bytes, most significant
//! first, then that many bytes of UTF-8 text.

use vstd::prelude::*;
use vstd::string::StringSliceAdditionalSpecFns;
use vstd::utf8::{decode_utf8, valid_utf8};
use crate::networking::TransportError;
use crate::text::utf8_text;

verus! {

/// The four bytes of `n`, most significant first.
pub open spec fn be32(n: u32) -> Seq<u8> {
    seq![
        (n / 0x100_0000) as u8,
        ((n / 0x1_0000) % 0x100) as u8,
        ((n / 0x100) % 0x100) as u8,
        (n % 0x100) as u8,
    ]
}

/// The number that the first four bytes of `bytes` spell, most significant
/// first.
pub open spec fn header_value(bytes: Seq<u8>) -> int {
    bytes[0] as int * 0x100_0000 + bytes[1] as int * 0x1_0000 + bytes[2] as int * 0x100
        + bytes[3] as int
}

/// A message on the wire: the length of the body in four bytes, then the
/// body.
pub open spec fn frame_of(body: Seq<u8>) -> Seq<u8> {
    be32(body.len() as u32) + body
}

/// What the start of a byte stream holds.
#[derive(Debug)]
pub enum FrameStatus {
    /// No whole frame yet: at least `missing` more bytes are needed.
    Incomplete { missing: usize },
    /// A whole frame of `consumed` bytes, whose body is the text.
    Complete { text: String, consumed: usize },
    /// A whole frame whose body is not UTF-8.
    Malformed { consumed: usize },
}

/// The header of a frame is read back as the length it was written for.
pub proof fn lemma_header_round_trip(n: u32)
    ensures
        header_value(be32(n)) == n,
        be32(n).len() == 4,
{
}

/// The frame of the text `text`, or an error where its encoding is longer
/// than the length prefix can say.
pub fn encode_frame(text: &str) -> (r: Result<Vec<u8>, TransportError>)
    ensures
        match r {
            Ok(frame) => text.spec_bytes().len() <= u32::MAX && frame@ == frame_of(
                text.spec_bytes(),
            ),
            Err(e) => e == TransportError::MessageTooLong && text.spec_bytes().len() > u32::MAX,
        },
{
    let body = text.as_bytes();
    let len = body.len();
    if len > 0xFFFF_FFFF {
        return Err(TransportError::MessageTooLong);
    }
    let n: u32 = len as u32;
    let mut frame: Vec<u8> = Vec::new();
    frame.push((n / 0x100_0000) as u8);
    frame.push(((n / 0x1_0000) % 0x100) as u8);
    frame.push(((n / 0x100) % 0x100) as u8);
    frame.push((n % 0x100) as u8);
    let mut i: usize = 0;
    while i < len
        invariant
            i <= len,
            len == body@.len(),
            frame@ == be32(n) + body@.take(i as int),
        decreases len - i,
    {
        frame.push(body[i]);
        assert(body@.take(i + 1) =~= body@.take(i as int).push(body@[i as int]));
        assert(frame@ =~= be32(n) + body@.take(i + 1));
        i += 1;
    }
    assert(body@.take(len as int) =~= body@);
    Ok(frame)
}

/// The length that a frame header announces.
pub fn decode_header(header: &Vec<u8>) -> (n: u32)
    requires
        header.len() >= 4,
    ensures
        n == header_value(header@),
{
    (header[0] as u32) * 0x100_0000 + (header[1] as u32) * 0x1_0000 + (header[2] as u32) * 0x100
        + (header[3] as u32)
}

/// A [`FrameStatus`] as a mathematical value.
pub enum FrameView {
    Incomplete { missing: int },
    Complete { text: Seq<char>, consumed: int },
    Malformed { consumed: int },
}

impl View for FrameStatus {
    type V = FrameView;

    open spec fn view(&self) -> FrameView {
        match *self {
            FrameStatus::Incomplete { missing } => FrameView::Incomplete { missing: missing as int },
            FrameStatus::Complete { text, consumed } => FrameView::Complete {
                text: text@,
                consumed: consumed as int,
            },
            FrameStatus::Malformed { consumed } => FrameView::Malformed { consumed: consumed as int },
        }
    }
}

/// What `buffer` holds at its start: too little for the header or for the
/// body that the header announces, or a frame whose body is text or is not.
pub open spec fn frame_at(buffer: Seq<u8>) -> FrameView {
    if buffer.len() < 4 {
        FrameView::Incomplete { missing: 4 - buffer.len() }
    } else {
        let n = header_value(buffer);
        if buffer.len() < 4 + n {
            FrameView::Incomplete { missing: 4 + n - buffer.len() }
        } else {
            let body = buffer.subrange(4, 4 + n);
            if valid_utf8(body) {
                FrameView::Complete { text: decode_utf8(body), consumed: 4 + n }
            } else {
                FrameView::Malformed { consumed: 4 + n }
            }
        }
    }
}

/// Reads the frame at the start of `buffer`.
pub fn decode_frame(buffer: &Vec<u8>) -> (status: FrameStatus)
    ensures
        status@ == frame_at(buffer@),
{
    let len = buffer.len();
    if len < 4 {
        return FrameStatus::Incomplete { missing: 4 - len };
    }
    let n = decode_header(buffer) as usize;
    if len - 4 < n {
        return FrameStatus::Incomplete { missing: n - (len - 4) };
    }
    let mut body: Vec<u8> = Vec::new();
    let mut i: usize = 0;
    while i < n
        invariant
            i <= n,
            4 + n <= buffer.len(),
            body@ == buffer@.subrange(4, 4 + i),
        decreases n - i,
    {
        body.push(buffer[4 + i]);
        assert(body@ =~= buffer@.subrange(4, 4 + i + 1));
        i += 1;
    }
    match utf8_text(body) {
        Ok(text) => FrameStatus::Complete { text, consumed: 4 + n },
        Err(_) => FrameStatus::Malformed { consumed: 4 + n },
    }
}

/// A frame is read back as the text it was written for, whatever follows it
/// in the stream.
pub proof fn lemma_frame_round_trip(text: Seq<char>, rest: Seq<u8>)
    requires
        vstd::utf8::encode_utf8(text).len() <= u32::MAX,
    ensures
        frame_at(frame_of(vstd::utf8::encode_utf8(text)) + rest) == (FrameView::Complete {
            text,
            consumed: 4 + vstd::utf8::encode_utf8(text).len() as int,
        }),
{
    let body = vstd::utf8::encode_utf8(text);
    let buffer = frame_of(body) + rest;
    lemma_header_round_trip(body.len() as u32);
    assert(buffer[0] == be32(body.len() as u32)[0]);
    assert(buffer[1] == be32(body.len() as u32)[1]);
    assert(buffer[2] == be32(body.len() as u32)[2]);
    assert(buffer[3] == be32(body.len() as u32)[3]);
    assert(header_value(buffer) == body.len());
    assert(buffer.subrange(4, 4 + body.len() as int) =~= body);
    vstd::utf8::encode_utf8_valid_utf8(text);
    vstd::utf8::encode_utf8_decode_utf8(text);
}

} // verus!
