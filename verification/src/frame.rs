//! The wire format: a message is its UTF-8 bytes, preceded by one byte that
//! holds their number. Messages of more than 255 bytes cannot be framed.

use vstd::prelude::*;
use vstd::slice::slice_subrange;
use vstd::slice::slice_to_vec;
use vstd::utf8::*;
use crate::text::string_from_utf8;

verus! {

broadcast use vstd::string::group_string_axioms;

/// Why a message could not be written or read.
#[derive(Debug, Clone, Copy, PartialEq, Eq, Structural)]
pub enum ProtocolError {
    /// The message is longer than 255 bytes.
    MessageTooLong,
    /// The input ended before the whole frame was there.
    UnexpectedEof,
    /// The payload of a frame is not valid UTF-8.
    InvalidUtf8,
    /// The output buffer holds data and has no room left for the frame.
    BufferFull,
}

/// The largest number of payload bytes a frame can carry.
pub const MAX_MESSAGE_LEN: usize = 255;

/// The bytes of a frame that carries `msg`.
pub open spec fn frame(msg: Seq<char>) -> Seq<u8> {
    seq![encode_utf8(msg).len() as u8] + encode_utf8(msg)
}

/// Whether `msg` fits in a frame.
pub open spec fn fits_in_frame(msg: Seq<char>) -> bool {
    encode_utf8(msg).len() <= MAX_MESSAGE_LEN
}

/// The total length (header included) of the frame that starts `bytes`,
/// which must not be empty.
pub open spec fn frame_len(bytes: Seq<u8>) -> nat
    recommends
        bytes.len() > 0,
{
    bytes[0] as nat + 1
}

/// Whether `bytes` starts with a whole frame.
pub open spec fn has_frame(bytes: Seq<u8>) -> bool {
    bytes.len() > 0 && bytes.len() >= frame_len(bytes)
}

/// The payload of the frame that starts `bytes`.
pub open spec fn frame_payload(bytes: Seq<u8>) -> Seq<u8>
    recommends
        has_frame(bytes),
{
    bytes.subrange(1, frame_len(bytes) as int)
}

/// Appends the frame of `msg` to `writer`: one byte holding the number of
/// UTF-8 bytes of `msg`, then those bytes.
///
/// Fails with `MessageTooLong`, writing nothing, when `msg` has more than 255
/// bytes.
pub fn write_message(writer: &mut Vec<u8>, msg: &str) -> (r: Result<(), ProtocolError>)
    ensures
        r is Ok <==> encode_utf8(msg@).len() <= 255,
        r is Err ==> r == Err::<(), ProtocolError>(ProtocolError::MessageTooLong)
            && final(writer)@ == old(writer)@,
        r is Ok ==> final(writer)@ == old(writer)@.push(encode_utf8(msg@).len() as u8) + encode_utf8(
            msg@,
        ),
        r is Ok <==> fits_in_frame(msg@),
        r is Ok ==> final(writer)@ == old(writer)@ + frame(msg@),
{
    let bytes = msg.as_bytes();
    if bytes.len() > MAX_MESSAGE_LEN {
        return Err(ProtocolError::MessageTooLong);
    }
    let len = bytes.len() as u8;
    writer.push(len);
    writer.extend_from_slice(bytes);
    assert(writer@ == old(writer)@.push(len) + bytes@);
    assert(writer@ == old(writer)@ + frame(msg@));
    Ok(())
}

/// Reads one message from the front of `reader`, advancing it past what was
/// read. A frame is one byte `n`, then `n` bytes of payload.
///
/// Fails with `UnexpectedEof`, consuming all of `reader`, when it does not
/// start with a whole frame; fails with `InvalidUtf8`, having consumed the
/// frame, when the frame's payload is not UTF-8.
pub fn read_message<'a>(reader: &mut &'a [u8]) -> (r: Result<String, ProtocolError>)
    ensures
        old(reader)@.len() == 0 || old(reader)@.len() <= old(reader)@[0] ==> r == Err::<
            String,
            ProtocolError,
        >(ProtocolError::UnexpectedEof) && final(reader)@.len() == 0,
        old(reader)@.len() > 0 && old(reader)@.len() > old(reader)@[0] ==> final(reader)@ == old(
            reader,
        )@.skip(old(reader)@[0] + 1),
        old(reader)@.len() > 0 && old(reader)@.len() > old(reader)@[0] && valid_utf8(
            old(reader)@.subrange(1, old(reader)@[0] + 1),
        ) ==> (r matches Ok(s) && s@ == decode_utf8(old(reader)@.subrange(1, old(reader)@[0] + 1))),
        old(reader)@.len() > 0 && old(reader)@.len() > old(reader)@[0] && !valid_utf8(
            old(reader)@.subrange(1, old(reader)@[0] + 1),
        ) ==> r == Err::<String, ProtocolError>(ProtocolError::InvalidUtf8),
        !has_frame(old(reader)@) ==> r == Err::<String, ProtocolError>(
            ProtocolError::UnexpectedEof,
        ) && final(reader)@.len() == 0,
        has_frame(old(reader)@) ==> final(reader)@ == old(reader)@.skip(
            frame_len(old(reader)@) as int,
        ),
        has_frame(old(reader)@) && valid_utf8(frame_payload(old(reader)@)) ==> (r matches Ok(s)
            && s@ == decode_utf8(frame_payload(old(reader)@))),
        has_frame(old(reader)@) && !valid_utf8(frame_payload(old(reader)@)) ==> r
            == Err::<String, ProtocolError>(ProtocolError::InvalidUtf8),
{
    let available = reader.len();
    if available == 0 {
        return Err(ProtocolError::UnexpectedEof);
    }
    let len = reader[0] as usize;
    if available - 1 < len {
        *reader = slice_subrange(*reader, available, available);
        return Err(ProtocolError::UnexpectedEof);
    }
    let payload = slice_to_vec(slice_subrange(*reader, 1, len + 1));
    *reader = slice_subrange(*reader, len + 1, available);
    match string_from_utf8(payload) {
        Some(s) => Ok(s),
        None => Err(ProtocolError::InvalidUtf8),
    }
}

/// What a reader gets back of what a writer wrote: for any message of at
/// most 255 UTF-8 bytes, followed by any bytes `rest`, the bytes that
/// `write_message` appends (the length byte, then the message's bytes) start
/// with a whole frame whose length byte is the message's byte count, whose
/// payload is exactly the message's bytes, valid UTF-8 that decodes to the
/// message itself, and after which exactly `rest` is left. These are the
/// conditions under which `read_message` and `ChatCodec::decode` return the
/// message and leave `rest`.
pub proof fn lemma_frame_round_trip(msg: Seq<char>, rest: Seq<u8>)
    requires
        encode_utf8(msg).len() <= 255,
    ensures
        ({
            let bytes = seq![encode_utf8(msg).len() as u8] + encode_utf8(msg) + rest;
            &&& bytes.len() > 0
            &&& bytes.len() > bytes[0]
            &&& bytes[0] == encode_utf8(msg).len()
            &&& bytes.subrange(1, bytes[0] + 1) == encode_utf8(msg)
            &&& valid_utf8(bytes.subrange(1, bytes[0] + 1))
            &&& decode_utf8(bytes.subrange(1, bytes[0] + 1)) == msg
            &&& bytes.skip(bytes[0] + 1) == rest
        }),
{
    let enc = encode_utf8(msg);
    let bytes = seq![enc.len() as u8] + enc + rest;
    assert(bytes[0] == enc.len() as u8);
    assert(bytes.subrange(1, bytes[0] + 1) =~= enc);
    assert(bytes.skip(bytes[0] + 1) =~= rest);
    encode_utf8_valid_utf8(msg);
    encode_utf8_decode_utf8(msg);
}

/// A frame cut short is never taken for a whole one: no proper prefix of
/// the bytes written for a message of at most 255 bytes holds as many bytes
/// as its first byte announces plus one.
pub proof fn lemma_partial_frame_incomplete(msg: Seq<char>, k: int)
    requires
        encode_utf8(msg).len() <= 255,
        0 <= k < encode_utf8(msg).len() + 1,
    ensures
        ({
            let cut = (seq![encode_utf8(msg).len() as u8] + encode_utf8(msg)).take(k);
            cut.len() == 0 || cut.len() <= cut[0]
        }),
{
    let whole = seq![encode_utf8(msg).len() as u8] + encode_utf8(msg);
    if k > 0 {
        assert(whole.take(k)[0] == whole[0]);
    }
}

/// Messages written one after the other are read back in the same order:
/// from the bytes written for `first` and then `second`, a reader takes
/// `first`, is left at the bytes of `second`, takes `second`, and is left at
/// what followed.
pub proof fn lemma_frames_in_order(first: Seq<char>, second: Seq<char>, rest: Seq<u8>)
    requires
        encode_utf8(first).len() <= 255,
        encode_utf8(second).len() <= 255,
    ensures
        ({
            let f2 = seq![encode_utf8(second).len() as u8] + encode_utf8(second);
            let bytes = seq![encode_utf8(first).len() as u8] + encode_utf8(first) + f2 + rest;
            let after = bytes.skip(bytes[0] + 1);
            &&& bytes.len() > bytes[0]
            &&& decode_utf8(bytes.subrange(1, bytes[0] + 1)) == first
            &&& after == f2 + rest
            &&& after.len() > after[0]
            &&& decode_utf8(after.subrange(1, after[0] + 1)) == second
            &&& after.skip(after[0] + 1) == rest
        }),
{
    let f1 = seq![encode_utf8(first).len() as u8] + encode_utf8(first);
    let f2 = seq![encode_utf8(second).len() as u8] + encode_utf8(second);
    let tail = f2 + rest;
    assert(f1 + f2 + rest =~= f1 + tail);
    lemma_frame_round_trip(first, tail);
    lemma_frame_round_trip(second, rest);
}

/// Exactly the messages of at most 255 UTF-8 bytes fit in a frame, and the
/// frame of such a message is its byte count followed by all of its bytes.
pub proof fn lemma_what_fits(msg: Seq<char>)
    ensures
        fits_in_frame(msg) <==> encode_utf8(msg).len() <= 255,
        encode_utf8(msg).len() <= 255 ==> {
            &&& frame(msg).len() == encode_utf8(msg).len() + 1
            &&& frame(msg)[0] == encode_utf8(msg).len()
            &&& frame(msg).subrange(1, frame(msg).len() as int) == encode_utf8(msg)
        },
{
    if encode_utf8(msg).len() <= 255 {
        assert(frame(msg).subrange(1, frame(msg).len() as int) =~= encode_utf8(msg));
    }
}

/// A byte sequence starts with a whole frame exactly when it holds more bytes
/// than its first byte announces; the frame's payload is the bytes after the
/// first, as many as it announces.
pub proof fn lemma_what_a_frame_is(bytes: Seq<u8>)
    ensures
        has_frame(bytes) <==> (bytes.len() > 0 && bytes.len() > bytes[0]),
        has_frame(bytes) ==> frame_len(bytes) == bytes[0] + 1 && frame_payload(bytes)
            == bytes.subrange(1, bytes[0] + 1),
{
}

} // verus!
