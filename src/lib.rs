//! Core of an NMEA 2000 (N2K) protocol stack: the 29-bit identifier codec,
//! little-endian field codec, Fast Packet segmentation and reassembly, and the
//! ISO address-claim state machine that drives a device on the bus.
use vstd::prelude::*;

pub mod buf;
pub mod client;
pub mod fast_packet;
pub mod frame;
pub mod id;
pub mod well_known;

pub use buf::{Buf, BufMut, MessageBuf};
pub use fast_packet::FastPacket;
pub use frame::NmeaFrame;
pub use id::Id;

verus! {

/// A NMEA 2000 message: a PGN, an encoded length known per type, and the
/// encoding and decoding between a value and exactly that many bytes.
pub trait Message: Sized {
    /// Why a byte buffer does not hold a valid message.
    type DecodeError;

    // Models of the operations below. The default bodies are unspecified
    // values: a type that keeps them promises nothing about its messages,
    // while a verified implementation states its own.
    /// The PGN that identifies this message.
    closed spec fn pgn_spec() -> u32 {
        arbitrary()
    }

    /// Length of the encoded message in bytes.
    closed spec fn encoded_len_spec() -> nat {
        arbitrary()
    }

    /// The bytes that encode `self`.
    closed spec fn encoding(&self) -> Seq<u8> {
        arbitrary()
    }

    /// What decoding a buffer of the encoded length gives.
    closed spec fn decoding(data: Seq<u8>) -> Result<Self, Self::DecodeError> {
        arbitrary()
    }

    fn pgn() -> (r: u32)
        ensures
            r == Self::pgn_spec(),
    ;

    fn encoded_len() -> (r: usize)
        ensures
            r == Self::encoded_len_spec(),
    ;

    /// Appends exactly `encoded_len()` bytes that encode `self`.
    fn encode(&self, buf: &mut buf::MessageBuf)
        requires
            old(buf).free() >= Self::encoded_len_spec(),
        ensures
            final(buf).contents() == old(buf).contents() + self.encoding(),
            final(buf).free() == old(buf).free() - Self::encoded_len_spec(),
            self.encoding().len() == Self::encoded_len_spec(),
    ;

    /// Decodes a message from its encoded form.
    fn decode(data: &[u8]) -> (r: Result<Self, Self::DecodeError>)
        requires
            data@.len() == Self::encoded_len_spec(),
        ensures
            r == Self::decoding(data@),
    ;
}

} // verus!
