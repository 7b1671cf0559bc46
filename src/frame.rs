//! A frame on the bus: an identifier and up to eight payload bytes.
use vstd::prelude::*;

use crate::id::Id;
use crate::buf::MessageBuf;
use crate::Message;

verus! {

#[verifier::external_type_specification]
#[verifier::external_body]
#[verifier::reject_recursive_types(T)]
pub struct ExHeaplessVec<T, const N: usize>(heapless::Vec<T, N>);

/// Relies on `heapless::Vec`'s `Clone`, which the frame's derived `Clone`
/// calls; nothing is claimed of the copy.
pub assume_specification<T, const N: usize>[ <heapless::Vec<T, N> as core::clone::Clone>::clone ](
    v: &heapless::Vec<T, N>,
) -> heapless::Vec<T, N>
    where
        T: core::clone::Clone,
;

/// The bytes that a frame payload holds.
pub uninterp spec fn payload_bytes(v: heapless::Vec<u8, 8>) -> Seq<u8>;

/// Relies on `heapless::Vec::new`: the new vector is empty.
#[verifier::external_body]
fn empty_payload() -> (r: heapless::Vec<u8, 8>)
    ensures
        payload_bytes(r) == Seq::<u8>::empty(),
{
    heapless::Vec::new()
}

/// Relies on `heapless::Vec::from_slice`: it fails, changing nothing, when
/// the slice is longer than the capacity, and otherwise holds the slice.
#[verifier::external_body]
fn payload_from_slice(s: &[u8]) -> (r: Result<heapless::Vec<u8, 8>, ()>)
    ensures
        r is Ok <==> s@.len() <= 8,
        r matches Ok(v) ==> payload_bytes(v) == s@,
{
    heapless::Vec::from_slice(s)
}

/// Relies on `heapless::Vec::as_slice`: the slice holds the vector's
/// elements, no more than its capacity.
#[verifier::external_body]
fn payload_as_slice(v: &heapless::Vec<u8, 8>) -> (r: &[u8])
    ensures
        r@ == payload_bytes(*v),
        r@.len() <= 8,
{
    v.as_slice()
}

/// A NMEA 2000 frame.
#[derive(Debug, Clone, PartialEq, Eq)]
pub struct NmeaFrame {
    pub id: Id,
    pub data: heapless::Vec<u8, 8>,
}

impl NmeaFrame {
    /// The payload bytes.
    pub open spec fn bytes(&self) -> Seq<u8> {
        payload_bytes(self.data)
    }

    pub fn new(id: Id, data: heapless::Vec<u8, 8>) -> (r: Self)
        ensures
            r.id == id,
            r.data == data,
    {
        NmeaFrame { id, data }
    }

    /// A frame whose payload is a copy of `data`; `None` where `data` is
    /// longer than a frame holds.
    pub fn from_bytes(id: Id, data: &[u8]) -> (r: Option<Self>)
        ensures
            r is Some <==> data@.len() <= 8,
            r matches Some(f) ==> f.id == id && f.bytes() == data@,
    {
        match payload_from_slice(data) {
            Ok(v) => Some(NmeaFrame { id, data: v }),
            Err(_) => None,
        }
    }

    /// The payload bytes.
    pub fn payload(&self) -> (r: &[u8])
        ensures
            r@ == self.bytes(),
            r@.len() <= 8,
    {
        payload_as_slice(&self.data)
    }

    /// A single-frame message: its encoding becomes the payload.
    pub fn from_message<T: Message>(id: Id, msg: &T) -> (r: Self)
        requires
            T::encoded_len_spec() <= 8,
        ensures
            r.id == id,
            r.bytes() == msg.encoding(),
    {
        let mut buf = MessageBuf::new();
        msg.encode(&mut buf);
        assert(buf.contents() =~= msg.encoding());
        match payload_from_slice(buf.as_slice()) {
            Ok(v) => NmeaFrame { id, data: v },
            Err(_) => {
                // the encoding fits in a frame
                assert(false);
                NmeaFrame { id, data: empty_payload() }
            },
        }
    }
}

impl Default for NmeaFrame {
    /// The zero frame: identifier zero and no payload, for filling buffers.
    fn default() -> (r: Self)
        ensures
            r.id@ == 0,
            r.bytes() == Seq::<u8>::empty(),
    {
        assert(0u32 & 0xff == 0 && (0u32 >> 8u32) < 240) by (bit_vector);
        let id = Id::new(0, 0, 0, 0);
        proof {
            assert(crate::id::can_id_of(0, 0, 0, 0) == 0) by (bit_vector);
        }
        NmeaFrame { id, data: empty_payload() }
    }
}

} // verus!
