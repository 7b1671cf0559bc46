use nmea2000::client::{receive_n2k, ClaimAction, Client, EventLoop, FastPacketFrames, MAX_SRC, MIN_SRC};
use nmea2000::id::Id;
use nmea2000::well_known::{DeviceName, IsoAddressClaim, ISO_ADDRESS_CLAIM_PGN};
use nmea2000::{Buf, BufMut, Message, MessageBuf, NmeaFrame};

const HELLO_PGN: u32 = 130_816;

struct HelloWorld {
    int: u64,
}

impl Message for HelloWorld {
    type DecodeError = ();

    fn pgn() -> u32 {
        HELLO_PGN
    }

    fn encoded_len() -> usize {
        8
    }

    fn encode(&self, buf: &mut MessageBuf) {
        buf.put_u64(self.int);
    }

    fn decode(data: &[u8]) -> Result<Self, Self::DecodeError> {
        let mut cur = data;
        Ok(HelloWorld { int: cur.get_u64() })
    }
}

fn claim_from(name: u64, src: u8) -> NmeaFrame {
    let id = Id::new(6, ISO_ADDRESS_CLAIM_PGN, src, 0xff);
    NmeaFrame::from_message(id, &IsoAddressClaim { name: DeviceName(name) })
}

/// Starts a device as the loop does on its first round.
fn started(name: u64) -> EventLoop {
    let mut lp = EventLoop::new(DeviceName(name));
    assert!(!lp.is_started());
    lp.start_address_claim();
    assert!(lp.is_started());
    lp
}

#[test]
fn claim_frame_layout() {
    let lp = EventLoop::new(DeviceName::from(0x0102_0304_0506_0708));
    let f = lp.address_claim_frame();
    assert_eq!(f.id.as_can_id(), 0x18EE_FF01);
    assert_eq!(f.payload(), &[8, 7, 6, 5, 4, 3, 2, 1]);
    assert_eq!(lp.src(), MIN_SRC);
    assert_eq!(lp.name(), DeviceName(0x0102_0304_0506_0708));
}

#[test]
fn two_devices_arbitrate_and_exchange() {
    let mut alice = started(0x1234_5678);
    let mut bob = started(0xdead_beef);
    let alice_claim = alice.address_claim_frame();
    let bob_claim = bob.address_claim_frame();

    // Alice has the smaller name: she re-announces and keeps her address.
    let a = alice.handle_system_message(&bob_claim);
    assert!(matches!(a, Some(ClaimAction::Reclaim(_))));
    // Bob cedes and claims the next address.
    let b = bob.handle_system_message(&alice_claim);
    let bob_new_claim = match b {
        Some(ClaimAction::Claim(f)) => f,
        _ => panic!("bob should claim a new address"),
    };
    assert_eq!(alice.src(), 1);
    assert_eq!(bob.src(), 2);
    assert_eq!(bob_new_claim.id.source(), 2);

    // The follow-up claims change nothing.
    let reclaim = alice.address_claim_frame();
    assert!(matches!(bob.handle_system_message(&reclaim), Some(ClaimAction::Ignore)));
    assert!(matches!(alice.handle_system_message(&bob_new_claim), Some(ClaimAction::Ignore)));
    assert_ne!(alice.src(), bob.src());

    // Each sends a hello; the peer gets it as an application frame.
    let hello_a = NmeaFrame::from_message(Id::new(4, HELLO_PGN, 0, 0), &HelloWorld { int: 37 });
    let hello_b = NmeaFrame::from_message(Id::new(4, HELLO_PGN, 0, 0), &HelloWorld { int: 19 });
    let on_wire_a = alice.stamp_source(hello_a);
    let on_wire_b = bob.stamp_source(hello_b);
    assert!(bob.handle_system_message(&on_wire_a).is_none());
    assert!(alice.handle_system_message(&on_wire_b).is_none());
    assert_eq!(HelloWorld::decode(on_wire_a.payload()).unwrap().int, 37);
    assert_eq!(HelloWorld::decode(on_wire_b.payload()).unwrap().int, 19);
    assert_eq!(on_wire_a.id.source(), 1);
    assert_eq!(on_wire_b.id.source(), 2);
}

#[test]
fn larger_name_on_our_address_keeps_it() {
    let mut lp = started(0x1000);
    let action = lp.handle_incoming_address_claim(MIN_SRC, IsoAddressClaim { name: DeviceName(0x2000) });
    match action {
        ClaimAction::Reclaim(f) => {
            assert_eq!(f.id.source(), MIN_SRC);
            assert_eq!(f.id.pgn(), ISO_ADDRESS_CLAIM_PGN);
            assert_eq!(f.id.priority(), 6);
            assert_eq!(f.id.destination(), 0xff);
        }
        _ => panic!("expected a re-announcement"),
    }
    assert_eq!(lp.src(), MIN_SRC);
    assert!(lp.is_started());
}

#[test]
fn smaller_name_on_our_address_moves_us() {
    let mut lp = started(0x2000);
    let action = lp.handle_incoming_address_claim(MIN_SRC, IsoAddressClaim { name: DeviceName(0x1000) });
    match action {
        ClaimAction::Claim(f) => {
            assert_eq!(f.id.source(), 2);
            let mut cur = f.payload();
            assert_eq!(cur.get_u64(), 0x2000);
        }
        _ => panic!("expected a new claim"),
    }
    assert_eq!(lp.src(), 2);
}

#[test]
fn address_wraps_from_highest_to_lowest() {
    let mut lp = started(0x2000);
    for expected in 2..=MAX_SRC {
        let src = lp.src();
        lp.handle_incoming_address_claim(src, IsoAddressClaim { name: DeviceName(0x1000) });
        assert_eq!(lp.src(), expected);
    }
    let action = lp.handle_incoming_address_claim(MAX_SRC, IsoAddressClaim { name: DeviceName(0x1000) });
    assert!(matches!(action, ClaimAction::Claim(_)));
    assert_eq!(lp.src(), MIN_SRC);
}

#[test]
fn claims_for_other_addresses_and_same_name_are_ignored() {
    let mut lp = started(0x2000);
    let other = lp.handle_incoming_address_claim(7, IsoAddressClaim { name: DeviceName(0x1000) });
    assert!(matches!(other, ClaimAction::Ignore));
    let same = lp.handle_incoming_address_claim(MIN_SRC, IsoAddressClaim { name: DeviceName(0x2000) });
    assert!(matches!(same, ClaimAction::Ignore));
    assert_eq!(lp.src(), MIN_SRC);
}

#[test]
fn short_claim_payload_is_absorbed() {
    let mut lp = started(0x2000);
    let id = Id::new(6, ISO_ADDRESS_CLAIM_PGN, MIN_SRC, 0xff);
    let frame = NmeaFrame::from_bytes(id, &[1, 2, 3]).unwrap();
    assert!(matches!(lp.handle_system_message(&frame), Some(ClaimAction::Ignore)));
    assert_eq!(lp.src(), MIN_SRC);
}

#[test]
fn outbound_frames_carry_our_source() {
    let mut lp = started(0x2000);
    lp.handle_incoming_address_claim(MIN_SRC, IsoAddressClaim { name: DeviceName(0x1000) });
    let frame = NmeaFrame::from_bytes(Id::new(3, 0x1_F801, 99, 0), &[1, 2, 3, 4]).unwrap();
    let out = lp.stamp_source(frame);
    assert_eq!(out.id.source(), 2);
    assert_eq!(out.id.pgn(), 0x1_F801);
    assert_eq!(out.id.priority(), 3);
    assert_eq!(out.payload(), &[1, 2, 3, 4]);
}

#[test]
fn standard_frames_are_dropped() {
    assert!(receive_n2k(false, 0x123, &[1, 2]).is_none());
    let f = receive_n2k(true, 0x09F8_0105, &[9, 8, 7]).unwrap();
    assert_eq!(f.id.as_can_id(), 0x09F8_0105);
    assert_eq!(f.payload(), &[9, 8, 7]);
    assert_eq!(f.id.source(), 5);
}

#[test]
fn frame_payload_limits() {
    let id = Id::new(2, HELLO_PGN, 1, 0);
    assert!(NmeaFrame::from_bytes(id, &[0; 9]).is_none());
    let f = NmeaFrame::from_bytes(id, &[5; 8]).unwrap();
    assert_eq!(f.payload(), &[5; 8]);
    let empty = NmeaFrame::default();
    assert_eq!(empty.id.as_can_id(), 0);
    assert!(empty.payload().is_empty());
    let copy = f.clone();
    assert_eq!(copy, f);
}

#[test]
fn address_claim_codec() {
    let claim = IsoAddressClaim { name: DeviceName(0x1122_3344_5566_7788) };
    let mut buf = MessageBuf::new();
    claim.encode(&mut buf);
    assert_eq!(buf.as_slice(), &[0x88, 0x77, 0x66, 0x55, 0x44, 0x33, 0x22, 0x11]);
    assert_eq!(IsoAddressClaim::decode(buf.as_slice()), Ok(claim));
    assert_eq!(IsoAddressClaim::pgn(), 60928);
    assert_eq!(IsoAddressClaim::encoded_len(), 8);
}

fn drain(mut frames: FastPacketFrames<'_>) -> Vec<NmeaFrame> {
    let mut out = Vec::new();
    while let Some(f) = frames.next() {
        out.push(f);
    }
    out
}

fn send(client: &mut Client, int: u64, prio: u8, dest: u8) -> Vec<NmeaFrame> {
    let mut buf = MessageBuf::new();
    drain(client.fast_packet_frames(&HelloWorld { int }, &mut buf, prio, dest))
}

#[test]
fn fast_packet_send_frames() {
    let mut client = Client::new();
    assert_eq!(client.group_no(), 0);
    let frames = send(&mut client, 0x0807_0605_0403_0201, 3, 0x20);
    assert_eq!(client.group_no(), 1);
    assert_eq!(frames.len(), 2);
    assert_eq!(frames[0].payload(), &[0x10, 8, 1, 2, 3, 4, 5, 6]);
    assert_eq!(frames[1].payload(), &[0x11, 7, 8, 0, 0, 0, 0, 0]);
    for f in &frames {
        assert_eq!(f.id.pgn(), HELLO_PGN);
        assert_eq!(f.id.priority(), 3);
        assert_eq!(f.id.source(), 0);
    }
}

#[test]
fn fast_packet_group_wraps() {
    let mut client = Client::new();
    for _ in 0..17 {
        send(&mut client, 1, 3, 0);
    }
    assert_eq!(client.group_no(), 17);
    let frames = send(&mut client, 1, 3, 0);
    // group 18 goes out as 2 in four bits
    assert_eq!(frames[0].payload()[0], 0x20);
    for _ in 18..255 {
        send(&mut client, 1, 3, 0);
    }
    assert_eq!(client.group_no(), 255);
    send(&mut client, 1, 3, 0);
    assert_eq!(client.group_no(), 0);
}
