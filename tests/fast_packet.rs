use nmea2000::fast_packet::{encode_to_fast_packets, FastPacket, Iter, Reader};
use nmea2000::{BufMut, Message, MessageBuf};

#[derive(Debug, PartialEq)]
struct TestMessage;

impl Message for TestMessage {
    type DecodeError = ();

    fn pgn() -> u32 {
        1234
    }

    fn encoded_len() -> usize {
        10
    }

    fn encode(&self, buf: &mut MessageBuf) {
        for b in [0xde, 0xad, 0xbe, 0xef, 0x00, 0x00, 0x42, 0x42, 0x42, 0x42] {
            buf.put_u8(b);
        }
    }

    fn decode(data: &[u8]) -> Result<Self, Self::DecodeError> {
        if *data == [0xde, 0xad, 0xbe, 0xef, 0x00, 0x00, 0x42, 0x42, 0x42, 0x42] {
            Ok(Self)
        } else {
            Err(())
        }
    }
}

/// A message of `N` bytes that decodes to the bytes themselves.
#[derive(Debug, PartialEq)]
struct Raw<const N: usize>(Vec<u8>);

impl<const N: usize> Message for Raw<N> {
    type DecodeError = ();

    fn pgn() -> u32 {
        130_816
    }

    fn encoded_len() -> usize {
        N
    }

    fn encode(&self, buf: &mut MessageBuf) {
        for &b in &self.0 {
            buf.put_u8(b);
        }
    }

    fn decode(data: &[u8]) -> Result<Self, Self::DecodeError> {
        Ok(Raw(data.to_vec()))
    }
}

const S2_FIRST: [u8; 8] = [0x20, 10, 0xde, 0xad, 0xbe, 0xef, 0x00, 0x00];
const S2_SECOND: [u8; 8] = [0x21, 0x42, 0x42, 0x42, 0x42, 0x00, 0x00, 0x00];
const S2_PAYLOAD: [u8; 10] = [0xde, 0xad, 0xbe, 0xef, 0x00, 0x00, 0x42, 0x42, 0x42, 0x42];

fn collect(mut it: Iter<'_>) -> Vec<[u8; 8]> {
    let mut out = Vec::new();
    while let Some(p) = it.next() {
        out.push(p.0);
    }
    out
}

fn payload(n: usize) -> Vec<u8> {
    (0..n).map(|i| (i * 37 + 11) as u8).collect()
}

#[test]
fn read_fast_packets() {
    let p1 = FastPacket([0b0010_0000, 10, 0xde, 0xad, 0xbe, 0xef, 0x00, 0x00]);
    let p2 = FastPacket([0b0010_0001, 0x42, 0x42, 0x42, 0x42, 0x00, 0x00, 0x00]);

    let mut reader = Reader::<TestMessage>::new();

    assert_eq!(reader.read(p1), None);
    assert_eq!(reader.read(p2), Some(Ok(TestMessage)));
}

#[test]
fn packet_accessors() {
    let first = FastPacket(S2_FIRST);
    assert_eq!(first.frame_no(), 0);
    assert_eq!(first.group_no(), 2);
    assert!(first.is_first());
    assert_eq!(first.total_len(), Some(10));
    assert_eq!(first.data(), &S2_FIRST[2..]);

    let second = FastPacket(S2_SECOND);
    assert_eq!(second.frame_no(), 1);
    assert_eq!(second.group_no(), 2);
    assert!(!second.is_first());
    assert_eq!(second.total_len(), None);
    assert_eq!(second.data(), &S2_SECOND[1..]);
}

#[test]
fn data_mut_fills_after_header() {
    let mut first = FastPacket([0x30, 3, 0, 0, 0, 0, 0, 0]);
    first.data_mut()[0] = 0xaa;
    assert_eq!(first.0, [0x30, 3, 0xaa, 0, 0, 0, 0, 0]);

    let mut later = FastPacket([0x31, 0, 0, 0, 0, 0, 0, 0]);
    assert_eq!(later.data_mut().len(), 7);
    later.data_mut()[0] = 0xbb;
    assert_eq!(later.0, [0x31, 0xbb, 0, 0, 0, 0, 0, 0]);
}

#[test]
fn reassembles_seed_frames() {
    let mut reader = Reader::<Raw<10>>::new();
    assert_eq!(reader.read(FastPacket(S2_FIRST)), None);
    assert_eq!(reader.read(FastPacket(S2_SECOND)), Some(Ok(Raw(S2_PAYLOAD.to_vec()))));
}

#[test]
fn segments_seed_payload() {
    let frames = collect(Iter::new(&S2_PAYLOAD, 2));
    assert_eq!(frames, vec![S2_FIRST, S2_SECOND]);
}

#[test]
fn segmenter_stops_after_last_frame() {
    let mut it = Iter::new(&S2_PAYLOAD, 2);
    assert!(it.next().is_some());
    assert!(it.next().is_some());
    assert!(it.next().is_none());
    assert!(it.next().is_none());
}

#[test]
fn empty_payload_still_sends_first_frame() {
    let frames = collect(Iter::new(&[], 5));
    assert_eq!(frames, vec![[0x50, 0, 0, 0, 0, 0, 0, 0]]);
}

#[test]
fn largest_payload_frame_count() {
    let data = payload(255);
    let frames = collect(Iter::new(&data, 1));
    // six bytes in the first frame, seven in each of the others
    assert_eq!(frames.len(), 1 + (255 - 6 + 6) / 7);
    assert_eq!(frames[0][1], 255);
}

#[test]
fn encode_then_segment() {
    let mut buf = MessageBuf::new();
    buf.put_u8(9);
    buf.put_u8(9);
    let frames = collect(encode_to_fast_packets(&TestMessage, &mut buf, 2));
    assert_eq!(frames, vec![S2_FIRST, S2_SECOND]);
    assert_eq!(&buf.as_slice()[2..], &S2_PAYLOAD);
}

fn round_trip<const N: usize>(group: u8) {
    let data = payload(N);
    let mut reader = Reader::<Raw<N>>::new();
    let frames = collect(Iter::new(&data, group));
    let last = frames.len() - 1;
    for (i, f) in frames.into_iter().enumerate() {
        let r = reader.read(FastPacket(f));
        if i == last {
            assert_eq!(r, Some(Ok(Raw(data.clone()))));
        } else {
            assert_eq!(r, None);
        }
    }
}

#[test]
fn segment_then_read_round_trips() {
    round_trip::<0>(0);
    round_trip::<1>(3);
    round_trip::<6>(15);
    round_trip::<7>(7);
    round_trip::<13>(2);
    round_trip::<14>(9);
    round_trip::<100>(4);
    round_trip::<111>(11);
}

#[test]
fn resyncs_on_new_first_frame() {
    let mut reader = Reader::<Raw<10>>::new();
    // a group cut short after its first frame
    assert_eq!(reader.read(FastPacket([0x70, 10, 1, 2, 3, 4, 5, 6])), None);
    // a new group of the right length takes over
    assert_eq!(reader.read(FastPacket(S2_FIRST)), None);
    assert_eq!(reader.read(FastPacket(S2_SECOND)), Some(Ok(Raw(S2_PAYLOAD.to_vec()))));
}

#[test]
fn drops_frames_of_other_groups() {
    let mut reader = Reader::<Raw<10>>::new();
    assert_eq!(reader.read(FastPacket(S2_FIRST)), None);
    // a later frame of group 3 while group 2 is being collected
    assert_eq!(reader.read(FastPacket([0x31, 9, 9, 9, 9, 9, 9, 9])), None);
    // the state is unchanged: group 2 completes as if nothing happened
    assert_eq!(reader.read(FastPacket(S2_SECOND)), Some(Ok(Raw(S2_PAYLOAD.to_vec()))));
}

#[test]
fn drops_first_frames_of_wrong_length() {
    let mut reader = Reader::<Raw<10>>::new();
    assert_eq!(reader.read(FastPacket(S2_FIRST)), None);
    // a first frame of group 4 announcing 9 bytes: dropped, no reset
    assert_eq!(reader.read(FastPacket([0x40, 9, 1, 1, 1, 1, 1, 1])), None);
    assert_eq!(reader.read(FastPacket(S2_SECOND)), Some(Ok(Raw(S2_PAYLOAD.to_vec()))));
}

#[test]
fn drops_out_of_order_frames() {
    let mut reader = Reader::<Raw<20>>::new();
    let data = payload(20);
    let frames = collect(Iter::new(&data, 6));
    assert_eq!(frames.len(), 3);
    assert_eq!(reader.read(FastPacket(frames[0])), None);
    // frame 2 before frame 1
    assert_eq!(reader.read(FastPacket(frames[2])), None);
    assert_eq!(reader.read(FastPacket(frames[1])), None);
    assert_eq!(reader.read(FastPacket(frames[2])), Some(Ok(Raw(data))));
}

#[test]
fn decode_error_is_passed_on() {
    let mut reader = Reader::<TestMessage>::new();
    assert_eq!(reader.read(FastPacket([0x10, 10, 0, 0, 0, 0, 0, 0])), None);
    assert_eq!(reader.read(FastPacket([0x11, 0, 0, 0, 0, 0, 0, 0])), Some(Err(())));
}

#[test]
fn ignores_non_first_frame_when_idle() {
    let mut reader = Reader::<Raw<10>>::default();
    assert_eq!(reader.read(FastPacket(S2_SECOND)), None);
    assert_eq!(reader.read(FastPacket(S2_FIRST)), None);
    assert_eq!(reader.read(FastPacket(S2_SECOND)), Some(Ok(Raw(S2_PAYLOAD.to_vec()))));
}
