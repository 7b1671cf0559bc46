//! The decisions of a device on the bus: ISO address claiming, what to do
//! with each frame received, the source stamping of each frame sent, and the
//! frames of a Fast Packet send. Whoever owns the transport and the claim
//! timer performs what these functions return.
use vstd::prelude::*;

use crate::buf::le_value;
use crate::buf::MessageBuf;
use crate::fast_packet::{encode_to_fast_packets, segments, Iter};
use crate::frame::NmeaFrame;
use crate::id::{can_id_of, source_of, pgn_of, valid_pgn, Id, CAN_ID_LIMIT, DESTINATION_BROADCAST};
use crate::well_known::{DeviceName, IsoAddressClaim, ISO_ADDRESS_CLAIM_PGN};
use crate::Message;

verus! {

/// Time after the latest claim before the address counts as owned.
pub const ADDRESS_CLAIM_TIMEOUT_MS: u64 = 250;

/// Lowest source address a device may take.
pub const MIN_SRC: u8 = 1;

/// Highest source address a device may take.
pub const MAX_SRC: u8 = 254;

/// Priority of address claim frames.
pub const ADDRESS_CLAIM_PRIORITY: u8 = 6;

/// The address after `src`, wrapping from the highest to the lowest.
pub open spec fn next_src(src: u8) -> u8 {
    if src >= MAX_SRC {
        MIN_SRC
    } else {
        (src + 1) as u8
    }
}

/// Whether `f` is the address claim of device `name` for address `src`.
pub open spec fn is_claim_frame(f: NmeaFrame, name: u64, src: u8) -> bool {
    &&& f.id@ == can_id_of(
        ADDRESS_CLAIM_PRIORITY,
        ISO_ADDRESS_CLAIM_PGN,
        src,
        DESTINATION_BROADCAST,
    )
    &&& f.bytes() == (IsoAddressClaim { name: DeviceName(name) }).encoding()
}

/// Progress of the address claim.
#[derive(Debug, Clone, Copy, PartialEq, Eq, Structural)]
pub enum AddressClaimState {
    /// No claim sent yet.
    Idle,
    /// A claim went out and its timer runs or has run out.
    Claiming,
}

/// What an incoming address claim calls for.
#[derive(Debug, Clone)]
pub enum ClaimAction {
    /// Nothing to send.
    Ignore,
    /// Announce our claim again, without re-arming the timer.
    Reclaim(NmeaFrame),
    /// We moved to a new address: announce it and re-arm the timer.
    Claim(NmeaFrame),
}

/// Device state as `(name, source address, claim started)`.
pub type LoopState = (u64, u8, bool);

/// The state after hearing device `name` claim address `src`. A claim for
/// another address changes nothing; a device with a smaller name takes our
/// address from us.
pub open spec fn claim_transition(st: LoopState, src: u8, name: u64) -> LoopState {
    if src == st.1 && st.0 > name {
        (st.0, next_src(st.1), st.2)
    } else {
        st
    }
}

/// Whether `a` is the right answer, from a device in state `st`, to device
/// `name` claiming address `src`.
pub open spec fn claim_response(st: LoopState, src: u8, name: u64, a: ClaimAction) -> bool {
    &&& src != st.1 || name == st.0 ==> a is Ignore
    &&& src == st.1 && st.0 < name ==> (a matches ClaimAction::Reclaim(f) && is_claim_frame(
        f,
        st.0,
        st.1,
    ))
    &&& src == st.1 && st.0 > name ==> (a matches ClaimAction::Claim(f) && is_claim_frame(
        f,
        st.0,
        next_src(st.1),
    ))
}

/// Two devices that start on the same address and hear each other's claims
/// end on different addresses: the smaller name keeps the address and the
/// larger one moves to the next. The claims in play are the first claims of
/// both, the smaller name's re-announcement (the same as its first claim) and
/// the larger name's claim for its new address; each device also hears its
/// own. Whatever order they arrive in, the smaller name never leaves its
/// address, the larger one leaves it exactly when it hears the smaller
/// name's claim, and neither final state changes on any of them.
pub proof fn lemma_arbitration(a: LoopState, b: LoopState)
    requires
        a.0 < b.0,
        a.1 == b.1,
    ensures
        ({
            let a2 = claim_transition(a, b.1, b.0);
            let b2 = claim_transition(b, a.1, a.0);
            &&& a2 == a
            &&& b2.1 != a.1
            &&& b2.1 == next_src(a.1)
            &&& claim_transition(a, a.1, a.0) == a
            &&& claim_transition(a, b2.1, b2.0) == a
            &&& claim_transition(b, b.1, b.0) == b
            &&& claim_transition(b2, a.1, a.0) == b2
            &&& claim_transition(b2, b.1, b.0) == b2
            &&& claim_transition(b2, b2.1, b2.0) == b2
        }),
{
}

/// The decision half of a device's event loop.
#[derive(Debug)]
pub struct EventLoop {
    name: DeviceName,
    src: u8,
    address_claim: AddressClaimState,
}

impl View for EventLoop {
    type V = LoopState;

    closed spec fn view(&self) -> LoopState {
        (self.name.0, self.src, self.address_claim == AddressClaimState::Claiming)
    }
}

impl EventLoop {
    /// The source address always stays in the device range.
    pub closed spec fn wf(&self) -> bool {
        MIN_SRC <= self.src <= MAX_SRC
    }

    /// A device named `name`, at the lowest address, with no claim sent.
    pub fn new(name: DeviceName) -> (r: Self)
        ensures
            r.wf(),
            r@ == (name.0, MIN_SRC, false),
    {
        EventLoop { name, src: MIN_SRC, address_claim: AddressClaimState::Idle }
    }

    /// The current source address.
    pub fn src(&self) -> (r: u8)
        requires
            self.wf(),
        ensures
            r == self@.1,
            MIN_SRC <= r <= MAX_SRC,
    {
        self.src
    }

    pub fn name(&self) -> (r: DeviceName)
        ensures
            r.0 == self@.0,
    {
        self.name
    }

    /// Whether a claim went out: its timer runs or has run out.
    pub fn is_started(&self) -> (r: bool)
        ensures
            r == self@.2,
    {
        self.address_claim == AddressClaimState::Claiming
    }

    /// Records that a claim went out; the caller arms the claim timer.
    pub fn start_address_claim(&mut self)
        ensures
            final(self)@ == (old(self)@.0, old(self)@.1, true),
            old(self).wf() ==> final(self).wf(),
    {
        self.address_claim = AddressClaimState::Claiming;
    }

    fn incr_src(&mut self)
        requires
            old(self).wf(),
        ensures
            final(self).wf(),
            final(self)@ == (old(self)@.0, next_src(old(self)@.1), old(self)@.2),
    {
        if self.src >= MAX_SRC {
            self.src = MIN_SRC;
        } else {
            self.src = self.src + 1;
        }
    }

    /// The address claim frame for the current address.
    pub fn address_claim_frame(&self) -> (r: NmeaFrame)
        ensures
            is_claim_frame(r, self@.0, self@.1),
    {
        assert(ISO_ADDRESS_CLAIM_PGN & 0xff == 0 && ISO_ADDRESS_CLAIM_PGN <= 0x3ffff) by (bit_vector);
        let id = Id::new(ADDRESS_CLAIM_PRIORITY, ISO_ADDRESS_CLAIM_PGN, self.src, DESTINATION_BROADCAST);
        NmeaFrame::from_message(id, &IsoAddressClaim { name: self.name })
    }

    /// Arbitration on a claim that device `claim.name` made for address
    /// `src`. Only a claim for our own address matters: against a larger
    /// name we re-announce, to a smaller name we cede and claim the next
    /// address, and a claim with our own name is ignored.
    pub fn handle_incoming_address_claim(&mut self, src: u8, claim: IsoAddressClaim) -> (r: ClaimAction)
        requires
            old(self).wf(),
        ensures
            final(self).wf(),
            final(self)@ == claim_transition(old(self)@, src, claim.name.0),
            claim_response(old(self)@, src, claim.name.0, r),
    {
        if src != self.src {
            return ClaimAction::Ignore;
        }
        if self.name.0 < claim.name.0 {
            ClaimAction::Reclaim(self.address_claim_frame())
        } else if self.name.0 == claim.name.0 {
            ClaimAction::Ignore
        } else {
            self.incr_src();
            ClaimAction::Claim(self.address_claim_frame())
        }
    }

    /// Takes a frame received from the bus. An ISO Address Claim is
    /// absorbed: the result is `Some` with what it calls for (nothing where
    /// its payload is not a name). Any other frame is the application's:
    /// the result is `None`.
    pub fn handle_system_message(&mut self, frame: &NmeaFrame) -> (r: Option<ClaimAction>)
        requires
            old(self).wf(),
        ensures
            final(self).wf(),
            pgn_of(frame.id@) != ISO_ADDRESS_CLAIM_PGN ==> r is None && final(self)@ == old(self)@,
            pgn_of(frame.id@) == ISO_ADDRESS_CLAIM_PGN && frame.bytes().len() != 8 ==> (r matches Some(
                ClaimAction::Ignore,
            ) && final(self)@ == old(self)@),
            pgn_of(frame.id@) == ISO_ADDRESS_CLAIM_PGN && frame.bytes().len() == 8 ==> ({
                let src = source_of(frame.id@);
                let name = le_value(frame.bytes()) as u64;
                &&& final(self)@ == claim_transition(old(self)@, src, name)
                &&& r matches Some(a) && claim_response(old(self)@, src, name, a)
            }),
    {
        if frame.id.pgn() != ISO_ADDRESS_CLAIM_PGN {
            return None;
        }
        let data = frame.payload();
        if data.len() != 8 {
            return Some(ClaimAction::Ignore);
        }
        match IsoAddressClaim::decode(data) {
            Ok(claim) => Some(self.handle_incoming_address_claim(frame.id.source(), claim)),
            Err(_) => Some(ClaimAction::Ignore),
        }
    }

    /// A frame from the application, ready for the bus: its source address
    /// becomes ours, every other bit and the payload stay.
    pub fn stamp_source(&self, frame: NmeaFrame) -> (r: NmeaFrame)
        requires
            self.wf(),
        ensures
            source_of(r.id@) == self@.1,
            r.id@ == frame.id@ - frame.id@ % 256 + self@.1,
            r.data == frame.data,
    {
        let mut f = frame;
        f.id.set_source(self.src);
        f
    }
}

/// A frame taken from the transport. Only extended (29-bit) identifiers
/// are N2K: a frame with a standard identifier gives `None`.
pub fn receive_n2k(extended: bool, raw_id: u32, data: &[u8]) -> (r: Option<NmeaFrame>)
    requires
        extended ==> raw_id < CAN_ID_LIMIT,
        data@.len() <= 8,
    ensures
        r is Some <==> extended,
        r matches Some(f) ==> f.id@ == raw_id && f.bytes() == data@,
{
    if !extended {
        return None;
    }
    let id = Id::from_can_id(raw_id);
    NmeaFrame::from_bytes(id, data)
}

/// Why a round of the event loop failed.
#[derive(Debug)]
pub enum Error<E> {
    /// The transport failed; its error is passed on unchanged.
    Can(E),
    /// A well-known message could not be decoded.
    Decode,
}

/// The application's side of a device: it numbers the Fast Packet groups
/// it sends.
#[derive(Debug)]
pub struct Client {
    group_no: u8,
}

impl Client {
    /// The group number of the latest Fast Packet send.
    pub closed spec fn group(&self) -> u8 {
        self.group_no
    }

    pub fn new() -> (r: Self)
        ensures
            r.group() == 0,
    {
        Client { group_no: 0 }
    }

    /// The group number of the latest Fast Packet send.
    pub fn group_no(&self) -> (r: u8)
        ensures
            r == self.group(),
    {
        self.group_no
    }

    /// Starts a Fast Packet send of `msg` with priority `prio` to `dest`:
    /// `msg` is encoded at the end of `buf`, and the result hands out its
    /// frames in the order they go out. The group number advances first,
    /// wrapping at eight bits; its low four bits tag the packets. The
    /// source address is left zero for the event loop to stamp.
    pub fn fast_packet_frames<'a, M: Message>(
        &mut self,
        msg: &M,
        buf: &'a mut MessageBuf,
        prio: u8,
        dest: u8,
    ) -> (r: FastPacketFrames<'a>)
        requires
            prio <= 7,
            valid_pgn(M::pgn_spec()),
            old(buf).free() >= M::encoded_len_spec(),
        ensures
            final(self).group() == (old(self).group() + 1) % 256,
            r.wf(),
            r.id() == can_id_of(prio, M::pgn_spec(), 0, dest),
            r.pending() == segments(msg.encoding(), final(self).group() % 16),
    {
        let id = Id::new(prio, M::pgn(), 0, dest);
        self.group_no = self.group_no.wrapping_add(1);
        let g = self.group_no % 16;
        let packets = encode_to_fast_packets(msg, buf, g);
        FastPacketFrames { packets, id }
    }
}

/// The frames of one Fast Packet send, produced one at a time.
pub struct FastPacketFrames<'a> {
    packets: Iter<'a>,
    id: Id,
}

impl<'a> FastPacketFrames<'a> {
    /// The identifier of every frame.
    pub closed spec fn id(&self) -> u32 {
        self.id@
    }

    /// The payloads of the frames still to come.
    pub closed spec fn pending(&self) -> Seq<Seq<u8>> {
        self.packets.pending()
    }

    pub closed spec fn wf(&self) -> bool {
        self.packets.wf()
    }

    /// The next frame, `None` once all are out.
    pub fn next(&mut self) -> (r: Option<NmeaFrame>)
        requires
            old(self).wf(),
        ensures
            final(self).wf(),
            final(self).id() == old(self).id(),
            old(self).pending().len() == 0 ==> r is None && final(self).pending().len() == 0,
            old(self).pending().len() > 0 ==> {
                &&& r matches Some(f)
                &&& f.id@ == old(self).id()
                &&& f.bytes() == old(self).pending()[0]
                &&& final(self).pending() == old(self).pending().skip(1)
            },
    {
        match self.packets.next() {
            Some(p) => NmeaFrame::from_bytes(self.id, p.0.as_slice()),
            None => None,
        }
    }
}

} // verus!
