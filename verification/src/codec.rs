//! The streaming codec: frames written to and read from a `BytesMut`, for a
//! connection that is read and written in chunks.

use vstd::prelude::*;
use vstd::utf8::*;
use bytes::BytesMut;
use crate::buffer::{
    buffer_as_slice, buffer_capacity, buffer_capacity_of, buffer_contents, buffer_len, buffer_put_u8, buffer_reserve,
    buffer_split_to, buffer_write_str,
};
use crate::frame::{
    fits_in_frame, frame, frame_len, frame_payload, has_frame, lemma_frame_round_trip,
    read_message, ProtocolError, MAX_MESSAGE_LEN,
};

verus! {

broadcast use vstd::string::group_string_axioms;

/// The codec of the chat protocol. It holds no state: each frame stands
/// alone.
pub struct ChatCodec;

/// Whether `ChatCodec::encode` of `msg` into `dst` runs without the buffer
/// overflowing: the buffer is empty (then it is grown to fit), or it has room
/// for the whole frame.
pub open spec fn encode_fits_buffer(msg: Seq<char>, dst: BytesMut) -> bool {
    ||| buffer_contents(dst).len() == 0
    ||| buffer_capacity(dst) >= buffer_contents(dst).len() + encode_utf8(msg).len() + 1
}

impl ChatCodec {
    /// Appends the frame of `msg` to `dst` (one byte holding the number of
    /// UTF-8 bytes of `msg`, then those bytes), first reserving room for a
    /// frame when `dst` holds fewer bytes than the frame.
    ///
    /// Fails with `MessageTooLong` when `msg` has more than 255 bytes; the
    /// contents of `dst` are then unchanged. The buffer must be empty (it is
    /// then grown to fit) or have room for the whole frame.
    pub fn encode(&mut self, msg: String, dst: &mut BytesMut) -> (r: Result<(), ProtocolError>)
        requires
            encode_utf8(msg@).len() < isize::MAX,
            encode_utf8(msg@).len() <= 255 ==> (buffer_contents(*old(dst)).len() == 0
                || buffer_capacity(*old(dst)) >= buffer_contents(*old(dst)).len() + encode_utf8(
                msg@,
            ).len() + 1),
        ensures
            r is Ok <==> encode_utf8(msg@).len() <= 255,
            r is Ok ==> buffer_contents(*final(dst)) == buffer_contents(*old(dst)).push(
                encode_utf8(msg@).len() as u8,
            ) + encode_utf8(msg@),
            r is Err ==> r == Err::<(), ProtocolError>(ProtocolError::MessageTooLong)
                && buffer_contents(*final(dst)) == buffer_contents(*old(dst)),
            r is Ok <==> fits_in_frame(msg@),
            r is Ok ==> buffer_contents(*final(dst)) == buffer_contents(*old(dst)) + frame(msg@),
    {
        let text = msg.as_str();
        let msg_len = text.as_bytes().len();
        let dst_len = buffer_len(dst);
        if dst_len < msg_len + 1 {
            let additional = msg_len + 1 - dst_len;
            buffer_reserve(dst, additional);
        }
        if msg_len > MAX_MESSAGE_LEN {
            return Err(ProtocolError::MessageTooLong);
        }
        let len = msg_len as u8;
        buffer_put_u8(dst, len);
        let ok = buffer_write_str(dst, text);
        assert(ok);
        Ok(())
    }

    /// `encode` for any buffer. Messages of at most 255 bytes always go into
    /// an empty buffer and into a buffer with room for the frame; only a
    /// non-empty buffer without that room gives `BufferFull`, and is then left
    /// as it is.
    pub fn try_encode(&mut self, msg: String, dst: &mut BytesMut) -> (r: Result<(), ProtocolError>)
        ensures
            encode_utf8(msg@).len() > 255 ==> r == Err::<(), ProtocolError>(
                ProtocolError::MessageTooLong,
            ) && buffer_contents(*final(dst)) == buffer_contents(*old(dst)),
            encode_utf8(msg@).len() <= 255 && buffer_contents(*old(dst)).len() == 0 ==> r == Ok::<
                (),
                ProtocolError,
            >(()) && buffer_contents(*final(dst)) == seq![encode_utf8(msg@).len() as u8]
                + encode_utf8(msg@),
            encode_utf8(msg@).len() <= 255 && buffer_capacity(*old(dst)) >= buffer_contents(
                *old(dst),
            ).len() + encode_utf8(msg@).len() + 1 ==> r == Ok::<(), ProtocolError>(())
                && buffer_contents(*final(dst)) == buffer_contents(*old(dst)).push(
                encode_utf8(msg@).len() as u8,
            ) + encode_utf8(msg@),
            encode_utf8(msg@).len() <= 255 && buffer_contents(*old(dst)).len() > 0
                && buffer_capacity(*old(dst)) < buffer_contents(*old(dst)).len() + encode_utf8(
                msg@,
            ).len() + 1 ==> r == Err::<(), ProtocolError>(ProtocolError::BufferFull) && *final(dst)
                == *old(dst),
            fits_in_frame(msg@) && encode_fits_buffer(msg@, *old(dst)) ==> r == Ok::<
                (),
                ProtocolError,
            >(()) && buffer_contents(*final(dst)) == buffer_contents(*old(dst)) + frame(msg@),
            fits_in_frame(msg@) && !encode_fits_buffer(msg@, *old(dst)) ==> r == Err::<
                (),
                ProtocolError,
            >(ProtocolError::BufferFull) && *final(dst) == *old(dst),
    {
        let msg_len = msg.as_str().as_bytes().len();
        if msg_len > MAX_MESSAGE_LEN {
            return Err(ProtocolError::MessageTooLong);
        }
        let dst_len = buffer_len(dst);
        let capacity = buffer_capacity_of(dst);
        if dst_len != 0 && (capacity < dst_len || capacity - dst_len < msg_len + 1) {
            return Err(ProtocolError::BufferFull);
        }
        let r = self.encode(msg, dst);
        assert(r is Ok);
        assert(seq![msg_len as u8] =~= Seq::<u8>::empty().push(msg_len as u8));
        Ok(())
    }

    /// Takes the first whole frame off the front of `buf`; a frame is one
    /// byte `n`, then `n` bytes of payload.
    ///
    /// Returns `Ok(None)`, leaving `buf` as it is, while `buf` does not hold
    /// a whole frame. Otherwise removes the frame from `buf` and returns its
    /// message, or fails with `InvalidUtf8` when the payload is not UTF-8.
    pub fn decode(&mut self, buf: &mut BytesMut) -> (r: Result<Option<String>, ProtocolError>)
        ensures
            buffer_contents(*old(buf)).len() == 0 || buffer_contents(*old(buf)).len()
                <= buffer_contents(*old(buf))[0] ==> r == Ok::<Option<String>, ProtocolError>(None)
                && *final(buf) == *old(buf),
            buffer_contents(*old(buf)).len() > 0 && buffer_contents(*old(buf)).len()
                > buffer_contents(*old(buf))[0] ==> buffer_contents(*final(buf)) == buffer_contents(
                *old(buf),
            ).skip(buffer_contents(*old(buf))[0] + 1),
            buffer_contents(*old(buf)).len() > 0 && buffer_contents(*old(buf)).len()
                > buffer_contents(*old(buf))[0] && valid_utf8(
                buffer_contents(*old(buf)).subrange(1, buffer_contents(*old(buf))[0] + 1),
            ) ==> (r matches Ok(Some(s)) && s@ == decode_utf8(
                buffer_contents(*old(buf)).subrange(1, buffer_contents(*old(buf))[0] + 1),
            )),
            buffer_contents(*old(buf)).len() > 0 && buffer_contents(*old(buf)).len()
                > buffer_contents(*old(buf))[0] && !valid_utf8(
                buffer_contents(*old(buf)).subrange(1, buffer_contents(*old(buf))[0] + 1),
            ) ==> r == Err::<Option<String>, ProtocolError>(ProtocolError::InvalidUtf8),
            !has_frame(buffer_contents(*old(buf))) ==> r == Ok::<Option<String>, ProtocolError>(None)
                && *final(buf) == *old(buf),
            has_frame(buffer_contents(*old(buf))) ==> buffer_contents(*final(buf))
                == buffer_contents(*old(buf)).skip(frame_len(buffer_contents(*old(buf))) as int),
            has_frame(buffer_contents(*old(buf))) && valid_utf8(
                frame_payload(buffer_contents(*old(buf))),
            ) ==> (r matches Ok(Some(s)) && s@ == decode_utf8(
                frame_payload(buffer_contents(*old(buf))),
            )),
            has_frame(buffer_contents(*old(buf))) && !valid_utf8(
                frame_payload(buffer_contents(*old(buf))),
            ) ==> r == Err::<Option<String>, ProtocolError>(ProtocolError::InvalidUtf8),
    {
        let available = buffer_len(buf);
        if available == 0 {
            return Ok(None);
        }
        let len = {
            let bytes = buffer_as_slice(buf);
            bytes[0] as usize + 1
        };
        if available < len {
            return Ok(None);
        }
        let msg = {
            let mut reader: &[u8] = buffer_as_slice(buf);
            read_message(&mut reader)
        };
        let _front = buffer_split_to(buf, len);
        match msg {
            Ok(s) => Ok(Some(s)),
            Err(e) => Err(e),
        }
    }
}

/// `decode` inverts `encode`: the contents that `encode` leaves in an empty
/// buffer for a message of at most 255 bytes, followed by any bytes `rest`,
/// start with a whole frame (more bytes than the first byte announces) whose
/// payload is valid UTF-8 and decodes to the message, and taking the frame
/// off leaves exactly `rest`. These are the conditions under which `decode`
/// returns `Ok(Some(s))` with `s@ == msg` and leaves `rest` in the buffer.
pub proof fn lemma_decode_after_encode(msg: Seq<char>, rest: Seq<u8>)
    requires
        encode_utf8(msg).len() <= 255,
    ensures
        ({
            let contents = Seq::<u8>::empty().push(encode_utf8(msg).len() as u8) + encode_utf8(msg)
                + rest;
            &&& contents.len() > 0
            &&& contents.len() > contents[0]
            &&& valid_utf8(contents.subrange(1, contents[0] + 1))
            &&& decode_utf8(contents.subrange(1, contents[0] + 1)) == msg
            &&& contents.skip(contents[0] + 1) == rest
        }),
{
    let n = encode_utf8(msg).len() as u8;
    assert(Seq::<u8>::empty().push(n) + encode_utf8(msg) + rest =~= seq![n] + encode_utf8(msg)
        + rest);
    lemma_frame_round_trip(msg, rest);
}

/// An empty buffer, whatever its capacity, and a buffer with room for the
/// whole frame always take the frame of a message; a non-empty buffer
/// without that room does not.
pub proof fn lemma_when_the_buffer_takes_the_frame(msg: Seq<char>, dst: BytesMut)
    ensures
        buffer_contents(dst).len() == 0 ==> encode_fits_buffer(msg, dst),
        buffer_capacity(dst) >= buffer_contents(dst).len() + encode_utf8(msg).len() + 1
            ==> encode_fits_buffer(msg, dst),
        buffer_contents(dst).len() > 0 && buffer_capacity(dst) < buffer_contents(dst).len()
            + encode_utf8(msg).len() + 1 ==> !encode_fits_buffer(msg, dst),
{
}

} // verus!
