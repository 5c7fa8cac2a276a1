//! Frame layer of the control-plane protocol: every message on the wire is
//! a big-endian 32-bit length, then one type byte, then the payload.
//!
//! When encryption is negotiated both the length prefix and the body are
//! enciphered; the cipher state advances by exactly the bytes observed, so a
//! receiver that refuses an oversize frame must still drain exactly the
//! advertised number of bytes before closing.

use vstd::prelude::*;
use vstd::slice::slice_subrange;
use crate::messages::{spec_parse_c2s, WorldHostC2SMessage};
use crate::s2c::WorldHostS2CMessage;
use crate::wire::{be_bytes, be_value, lemma_be_bytes_len, lemma_be_value_of_be_bytes,
    lemma_pow256_values, put_bytes, put_u32, put_u8, Reader, sp_u32};

verus! {

/// Frames longer than this many bytes are refused.
pub const MAX_FRAME_SIZE: u32 = 2 * 1024 * 1024;

/// A full frame: the length of the buffer, then the buffer itself.
pub open spec fn enc_frame(buf: Seq<u8>) -> Seq<u8> {
    be_bytes(buf.len(), 4) + buf
}

/// The size a frame header advertises.
pub open spec fn spec_frame_size(header: Seq<u8>) -> nat {
    be_value(header)
}

/// Reads the advertised size out of a 4-byte frame header.
pub fn frame_size(header: &[u8]) -> (r: u32)
    requires
        header@.len() == 4,
    ensures
        r == spec_frame_size(header@),
{
    let mut rd = Reader::new(header);
    proof {
        assert(header@.subrange(0, 4) =~= header@);
        crate::wire::lemma_be_value_bound(header@);
        lemma_pow256_values();
    }
    match rd.get_u32() {
        Ok(v) => v,
        Err(_) => {
            proof {
                assert(header@.subrange(0, 4) =~= header@);
                assert(false);
            }
            0
        },
    }
}

/// What a receiver must do after reading a frame header.
#[derive(Clone, Copy, Debug, PartialEq, Eq, Structural)]
pub enum FrameAction {
    /// A length of zero: refuse the message.
    Empty,
    /// An oversize length: drain exactly this many bytes, then refuse.
    Drain(u32),
    /// An acceptable length: read exactly this many bytes.
    Read(u32),
}

/// Classifies an advertised frame size: zero is refused, anything above
/// `MAX_FRAME_SIZE` must be drained in full before closing, and the rest is
/// read as the frame body.
pub fn classify_frame_size(size: u32) -> (r: FrameAction)
    ensures
        size == 0 ==> r == FrameAction::Empty,
        0 < size <= MAX_FRAME_SIZE ==> r == FrameAction::Read(size),
        size > MAX_FRAME_SIZE ==> r == FrameAction::Drain(size),
{
    if size == 0 {
        FrameAction::Empty
    } else if size > MAX_FRAME_SIZE {
        FrameAction::Drain(size)
    } else {
        FrameAction::Read(size)
    }
}

/// Parses the body of a frame — the type byte, then the payload — refusing
/// unknown types and types newer than the negotiated protocol version.
pub fn decode_frame_body(data: &[u8], max_protocol_version: Option<u32>) -> (r: Result<
    WorldHostC2SMessage,
    String,
>)
    ensures
        data@.len() == 0 ==> r is Err,
        data@.len() > 0 ==> {
            let id = data@[0];
            let payload = data@.subrange(1, data@.len() as int);
            &&& (crate::messages::spec_first_protocol_version(id) is None ==> r is Err)
            &&& (crate::messages::spec_first_protocol_version(id) matches Some(fp) ==> (
                (max_protocol_version matches Some(mp) && fp > mp) ==> r is Err
            ))
            &&& (crate::messages::spec_first_protocol_version(id) matches Some(fp) ==> (
                (max_protocol_version matches Some(mp) ==> fp <= mp) ==> {
                    &&& (r is Ok <==> spec_parse_c2s(id, payload) is Some)
                    &&& (r matches Ok(m) ==> Some(m@) == spec_parse_c2s(id, payload))
                }
            ))
        },
{
    if data.len() == 0 {
        return Err(String::from_str("Message is empty"));
    }
    let id = *vstd::slice::slice_index_get(data, 0);
    let payload = slice_subrange(data, 1, data.len());
    WorldHostC2SMessage::parse(id, payload, max_protocol_version)
}

impl WorldHostS2CMessage {
    /// Encodes the full frame for the message: length prefix, type byte,
    /// payload. The frame body parses back to this very message.
    pub fn encode(&self) -> (r: Vec<u8>)
        requires
            self.wf(),
        ensures
            r@.len() == 5 + crate::s2c::spec_payload_len(self@),
            ({
                let buf = r@.subrange(4, r@.len() as int);
                &&& r@.len() >= 5
                &&& r@ == enc_frame(buf)
                &&& buf[0] == self.spec_type_id()
                &&& crate::s2c::spec_parse_s2c(self.spec_type_id(), buf.subrange(1, buf.len() as int))
                    == Some(self@)
            }),
    {
        let payload = self.encode_payload();
        let mut buf: Vec<u8> = Vec::new();
        put_u8(&mut buf, self.type_id());
        put_bytes(&mut buf, payload.as_slice());
        let mut out: Vec<u8> = Vec::new();
        proof {
            assert(buf@.len() <= 0xffffff21);
        }
        put_u32(&mut out, buf.len() as u32);
        put_bytes(&mut out, buf.as_slice());
        proof {
            lemma_be_bytes_len(buf@.len(), 4);
            assert(out@.subrange(4, out@.len() as int) =~= buf@);
            assert(out@ =~= enc_frame(buf@));
            assert(buf@[0] == self.spec_type_id());
            assert(buf@.subrange(1, buf@.len() as int) =~= payload@);
        }
        out
    }

    /// Encodes the frame only when the peer's protocol version knows the
    /// message: for an older peer nothing is produced and no bytes are sent.
    pub fn encode_for_protocol(&self, protocol_version: u32) -> (r: Option<Vec<u8>>)
        requires
            self.wf(),
        ensures
            r is None <==> protocol_version < self.spec_first_protocol(),
            r matches Some(frame) ==> {
                let buf = frame@.subrange(4, frame@.len() as int);
                &&& frame@.len() >= 5
                &&& frame@ == enc_frame(buf)
                &&& buf[0] == self.spec_type_id()
                &&& crate::s2c::spec_parse_s2c(
                    self.spec_type_id(),
                    buf.subrange(1, buf.len() as int),
                ) == Some(self@)
            },
    {
        if protocol_version >= self.first_protocol() {
            Some(self.encode())
        } else {
            None
        }
    }
}

/// Framing a buffer and reading it back yields the same buffer: the header
/// advertises exactly the buffer's length, and the body that follows is the
/// buffer itself.
pub proof fn lemma_frame_round_trip(buf: Seq<u8>)
    requires
        buf.len() <= 0xffffffff,
    ensures
        enc_frame(buf).len() == 4 + buf.len(),
        spec_frame_size(enc_frame(buf).subrange(0, 4)) == buf.len(),
        enc_frame(buf).subrange(4, enc_frame(buf).len() as int) == buf,
{
    lemma_be_bytes_len(buf.len(), 4);
    lemma_pow256_values();
    lemma_be_value_of_be_bytes(buf.len(), 4);
    assert(enc_frame(buf).subrange(0, 4) =~= be_bytes(buf.len(), 4));
    assert(enc_frame(buf).subrange(4, enc_frame(buf).len() as int) =~= buf);
}

} // verus!
