//! Messages that the stack itself consumes.
use vstd::prelude::*;

use crate::buf::{le_bytes, le_value, lemma_scalar_round_trip, Buf, BufMut, MessageBuf};
use crate::Message;

verus! {

/// PGN of the ISO Address Claim.
pub const ISO_ADDRESS_CLAIM_PGN: u32 = 60928;

/// A device's 64-bit name. Smaller names win address arbitration.
#[derive(Debug, Clone, Copy, PartialEq, Eq, PartialOrd, Ord, Hash, Structural)]
pub struct DeviceName(pub u64);

impl From<u64> for DeviceName {
    fn from(value: u64) -> (r: Self)
        ensures
            r.0 == value,
    {
        DeviceName(value)
    }
}

impl vstd::std_specs::convert::FromSpecImpl<u64> for DeviceName {
    open spec fn obeys_from_spec() -> bool {
        true
    }

    open spec fn from_spec(v: u64) -> Self {
        DeviceName(v)
    }
}

/// The ISO Address Claim: a device announces its name for the source
/// address it sends from.
#[derive(Debug, Clone, Copy, PartialEq, Eq, Structural)]
pub struct IsoAddressClaim {
    pub name: DeviceName,
}

impl Message for IsoAddressClaim {
    type DecodeError = ();

    open spec fn pgn_spec() -> u32 {
        ISO_ADDRESS_CLAIM_PGN
    }

    open spec fn encoded_len_spec() -> nat {
        8
    }

    open spec fn encoding(&self) -> Seq<u8> {
        le_bytes(self.name.0 as nat, 8)
    }

    open spec fn decoding(data: Seq<u8>) -> Result<Self, ()> {
        Ok(IsoAddressClaim { name: DeviceName(le_value(data) as u64) })
    }

    fn pgn() -> (r: u32) {
        ISO_ADDRESS_CLAIM_PGN
    }

    fn encoded_len() -> (r: usize) {
        8
    }

    fn encode(&self, buf: &mut MessageBuf) {
        buf.put_u64(self.name.0);
        proof {
            lemma_scalar_round_trip(self.name.0 as int, 8);
        }
    }

    fn decode(data: &[u8]) -> (r: Result<Self, ()>) {
        let mut cur = data;
        let v = cur.get_u64();
        assert(data@.take(8) =~= data@);
        Ok(IsoAddressClaim { name: DeviceName(v) })
    }
}

} // verus!
