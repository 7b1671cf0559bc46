//! Messages longer than one frame travel as a group of Fast Packets: each
//! 8-byte frame starts with a 4-bit group number and a 4-bit frame number; the
//! first frame then holds the total length and six data bytes, every later
//! frame seven data bytes.
use vstd::prelude::*;

use crate::buf::MessageBuf;
use crate::Message;

verus! {

/// Group number of a reader that has not accepted a group yet; senders use
/// four bits, so no packet carries it.
pub const NO_GROUP: u8 = 0xff;

/// The low four bits of the first byte.
pub open spec fn frame_no_of(p: Seq<u8>) -> u8 {
    p[0] % 16
}

/// The high four bits of the first byte.
pub open spec fn group_no_of(p: Seq<u8>) -> u8 {
    p[0] / 16
}

pub open spec fn is_first_of(p: Seq<u8>) -> bool {
    frame_no_of(p) == 0
}

pub open spec fn total_len_of(p: Seq<u8>) -> Option<u8> {
    if is_first_of(p) {
        Some(p[1])
    } else {
        None
    }
}

/// Offset of the data bytes in a packet.
pub open spec fn data_offset(first: bool) -> int {
    if first {
        2
    } else {
        1
    }
}

pub open spec fn data_of(p: Seq<u8>) -> Seq<u8> {
    p.subrange(data_offset(is_first_of(p)), 8)
}

/// A Fast Packet frame.
#[derive(Debug, Clone, Copy, PartialEq, Eq)]
pub struct FastPacket(pub [u8; 8]);

impl FastPacket {
    /// The sequence number of the frame within its group, from 0.
    pub fn frame_no(&self) -> (r: u8)
        ensures
            r == frame_no_of(self.0@),
    {
        let b = self.0[0];
        assert(b & 0xf == b % 16) by (bit_vector);
        b & 0b1111
    }

    /// The group number; all frames of one message share it.
    pub fn group_no(&self) -> (r: u8)
        ensures
            r == group_no_of(self.0@),
    {
        let b = self.0[0];
        assert(b >> 4 == b / 16) by (bit_vector);
        b >> 4
    }

    pub fn is_first(&self) -> (r: bool)
        ensures
            r == is_first_of(self.0@),
    {
        self.frame_no() == 0
    }

    /// The length of the whole message, which only the first frame carries.
    pub fn total_len(&self) -> (r: Option<u8>)
        ensures
            r == total_len_of(self.0@),
    {
        if self.is_first() {
            Some(self.0[1])
        } else {
            None
        }
    }

    /// The data bytes of the frame. The last frame of a group may be padded:
    /// only the first `total_len` bytes of a group are the message.
    pub fn data(&self) -> (r: &[u8])
        ensures
            r@ == data_of(self.0@),
    {
        let off: usize = if self.is_first() {
            2
        } else {
            1
        };
        let s: &[u8] = self.0.as_slice();
        let (_, t) = s.split_at(off);
        t
    }

    /// The data bytes of the frame, to fill in place.
    pub fn data_mut(&mut self) -> (r: &mut [u8])
        ensures
            r@ == data_of(old(self).0@),
            final(self).0@ == old(self).0@.subrange(0, data_offset(is_first_of(old(self).0@)))
                + final(r)@,
    {
        let off: usize = if self.is_first() {
            2
        } else {
            1
        };
        let s: &mut [u8] = &mut self.0;
        let (_, t) = s.split_at_mut(off);
        t
    }
}

/// `s` cut or padded with zeros to exactly `n` bytes.
pub open spec fn pad(s: Seq<u8>, n: nat) -> Seq<u8> {
    Seq::new(n, |i: int| if i < s.len() { s[i] } else { 0u8 })
}

/// Data bytes that frame number `f` carries.
pub open spec fn capacity(f: u8) -> nat {
    if f == 0 {
        6
    } else {
        7
    }
}

/// The packet that frame number `f` of group `g` holds when `rest` is the
/// payload not sent yet.
pub open spec fn packet_of(rest: Seq<u8>, g: u8, f: u8) -> Seq<u8> {
    if f == 0 {
        seq![(g << 4u8) | f, rest.len() as u8] + pad(rest, 6)
    } else {
        seq![(g << 4u8) | f] + pad(rest, 7)
    }
}

/// The packets still to come from frame number `f` on, with `rest` the
/// payload not sent yet. The first frame always goes out, even for an empty
/// payload; after it, the sequence ends once the payload is used up.
pub open spec fn packets_from(rest: Seq<u8>, g: u8, f: u8) -> Seq<Seq<u8>>
    decreases rest.len() + (if f == 0 { 1int } else { 0int }),
{
    if rest.len() == 0 && f > 0 {
        Seq::empty()
    } else if f == 255 {
        seq![packet_of(rest, g, f)]
    } else {
        let used = if rest.len() < capacity(f) { rest.len() } else { capacity(f) };
        seq![packet_of(rest, g, f)] + packets_from(rest.skip(used as int), g, (f + 1) as u8)
    }
}

/// The Fast Packets that carry `payload` as group `g`.
pub open spec fn segments(payload: Seq<u8>, g: u8) -> Seq<Seq<u8>> {
    packets_from(payload, g, 0)
}

/// Produces, one by one, the Fast Packets of a payload.
pub struct Iter<'a> {
    buf: &'a [u8],
    group_no: u8,
    frame_no: u8,
}

impl<'a> Iter<'a> {
    /// Payload not sent yet, group number and next frame number.
    pub closed spec fn state(&self) -> (Seq<u8>, u8, u8) {
        (self.buf@, self.group_no, self.frame_no)
    }

    /// The packets that the iterator still produces.
    pub open spec fn pending(&self) -> Seq<Seq<u8>> {
        packets_from(self.state().0, self.state().1, self.state().2)
    }

    pub closed spec fn wf(&self) -> bool {
        &&& self.buf@.len() <= 255
        &&& self.group_no < 16
        &&& self.frame_no > 0 ==> {
            &&& self.frame_no <= 37
            &&& self.buf@.len() == 0 || self.buf@.len() + 7 * self.frame_no <= 256
        }
    }

    /// Starts a group of packets for `buf` with group number `group_no`.
    pub fn new(buf: &'a [u8], group_no: u8) -> (r: Self)
        requires
            buf@.len() <= 255,
            group_no < 16,
        ensures
            r.wf(),
            r.pending() == segments(buf@, group_no),
    {
        Iter { buf, group_no, frame_no: 0 }
    }

    /// The next packet of the group, `None` once all are out.
    pub fn next(&mut self) -> (r: Option<FastPacket>)
        requires
            old(self).wf(),
        ensures
            final(self).wf(),
            old(self).pending().len() == 0 ==> r is None && final(self).pending().len() == 0,
            old(self).pending().len() > 0 ==> {
                &&& r matches Some(p)
                &&& p.0@ == old(self).pending()[0]
                &&& final(self).pending() == old(self).pending().skip(1)
            },
    {
        let ghost old_pending = self.pending();
        if self.buf.len() == 0 && self.frame_no > 0 {
            return None;
        }
        let f = self.frame_no;
        let g = self.group_no;
        let rest: &'a [u8] = self.buf;
        let mut p: [u8; 8] = [0u8; 8];
        p[0] = (g << 4) | f;
        let off: usize = if f == 0 {
            p[1] = rest.len() as u8;
            2
        } else {
            1
        };
        let cap: usize = 8 - off;
        let len: usize = if rest.len() < cap {
            rest.len()
        } else {
            cap
        };
        let mut i: usize = 0;
        while i < len
            invariant
                off + cap == 8,
                off == (if f == 0 { 2usize } else { 1usize }),
                rest@.len() <= 255,
                len == (if rest@.len() < cap { rest@.len() } else { cap as nat }),
                len <= cap,
                len <= rest@.len(),
                i <= len,
                p@.len() == 8,
                p@[0] == (g << 4u8) | f,
                f == 0 ==> p@[1] == rest@.len() as u8,
                forall|k: int| 0 <= k < i ==> #[trigger] p@[off + k] == rest@[k],
                forall|k: int| off + i <= k < 8 ==> #[trigger] p@[k] == 0u8,
            decreases len - i,
        {
            p[off + i] = rest[i];
            i = i + 1;
        }
        let (_, t) = rest.split_at(len);
        self.buf = t;
        self.frame_no = f + 1;
        proof {
            let want = packet_of(rest@, g, f);
            assert forall|k: int| 0 <= k < 8 implies p@[k] == want[k] by {
                if k >= off {
                    if k - off < len {
                        assert(p@[off + (k - off)] == rest@[k - off]);
                    }
                }
            }
            assert(p@ =~= want);
            assert(old_pending == seq![want] + packets_from(t@, g, (f + 1) as u8));
            assert(old_pending.skip(1) =~= packets_from(t@, g, (f + 1) as u8));
        }
        Some(FastPacket(p))
    }
}

/// One step of reassembly. The state is the group being collected and the
/// bytes received of it; the result is the next state and whether the
/// message is now complete.
pub open spec fn read_step(st: (u8, Seq<u8>), p: Seq<u8>, len: nat) -> (u8, Seq<u8>, bool) {
    let pg = group_no_of(p);
    if pg != st.0 && !(is_first_of(p) && p[1] as nat == len) {
        (st.0, st.1, false)
    } else {
        let g = if pg != st.0 { pg } else { st.0 };
        let rcv = if pg != st.0 { Seq::<u8>::empty() } else { st.1 };
        if frame_no_of(p) as nat != (rcv.len() + 1) / 7 {
            (g, rcv, false)
        } else {
            let d = data_of(p);
            let room: nat = if rcv.len() >= len { 0 } else { (len - rcv.len()) as nat };
            let n = if d.len() < room { d.len() } else { room };
            let next = rcv + d.take(n as int);
            (g, next, next.len() == len)
        }
    }
}

/// Feeds packets in order: the final state and, for each packet, whether it
/// completed the message.
pub open spec fn feed(st: (u8, Seq<u8>), ps: Seq<Seq<u8>>, len: nat) -> ((u8, Seq<u8>), Seq<bool>)
    decreases ps.len(),
{
    if ps.len() == 0 {
        (st, Seq::empty())
    } else {
        let s = read_step(st, ps[0], len);
        let rest = feed((s.0, s.1), ps.skip(1), len);
        (rest.0, seq![s.2] + rest.1)
    }
}

/// `n` flags of which only the last is set.
pub open spec fn last_only(n: nat) -> Seq<bool> {
    Seq::new(n, |i: int| i == n - 1)
}

/// A packet that does not start a group and belongs to another group than
/// the one being collected is dropped: nothing completes and the state stays.
pub proof fn lemma_group_mismatch_drop(st: (u8, Seq<u8>), p: Seq<u8>, len: nat)
    requires
        p.len() == 8,
        group_no_of(p) != st.0,
        !is_first_of(p),
    ensures
        read_step(st, p, len) == (st.0, st.1, false),
{
}

/// A first packet of another group whose announced length is not the
/// message's length is dropped: nothing completes and the state stays.
pub proof fn lemma_length_mismatch_drop(st: (u8, Seq<u8>), p: Seq<u8>, len: nat)
    requires
        p.len() == 8,
        group_no_of(p) != st.0,
        is_first_of(p),
        p[1] as nat != len,
    ensures
        read_step(st, p, len) == (st.0, st.1, false),
{
}

/// A first packet of a new group with the right length restarts
/// reassembly: from there on, what the reader yields for the packets that
/// follow does not depend on the group that was cut short.
pub proof fn lemma_resync(st: (u8, Seq<u8>), p: Seq<u8>, more: Seq<Seq<u8>>, len: nat)
    requires
        p.len() == 8,
        group_no_of(p) != st.0,
        is_first_of(p),
        p[1] as nat == len,
    ensures
        feed(st, seq![p] + more, len) == feed((NO_GROUP, Seq::<u8>::empty()), seq![p] + more, len),
{
    assert((seq![p] + more).skip(1) =~= more);
}

proof fn lemma_header_bits(g: u8, f: u8)
    requires
        g < 16,
        f < 16,
    ensures
        ((g << 4u8) | f) / 16 == g,
        ((g << 4u8) | f) % 16 == f,
{
    assert(((g << 4u8) | f) / 16 == g && ((g << 4u8) | f) % 16 == f) by (bit_vector)
        requires
            g < 16,
            f < 16,
    ;
}

/// Packets from frame number `f >= 1` on, fed to a reader that holds the
/// payload up to where frame `f` starts, complete the payload on the last one.
proof fn lemma_feed_tail(payload: Seq<u8>, g: u8, f: u8)
    requires
        payload.len() <= 111,
        g < 16,
        1 <= f <= 15,
        7 * f - 1 < payload.len(),
    ensures
        ({
            let c = 7 * f - 1;
            let ps = packets_from(payload.skip(c), g, f);
            &&& ps.len() >= 1
            &&& feed((g, payload.take(c)), ps, payload.len()) == ((g, payload), last_only(ps.len()))
        }),
    decreases payload.len() - 7 * f,
{
    let len = payload.len();
    let c = 7 * f - 1;
    let rest = payload.skip(c);
    let used: nat = if rest.len() < 7 { rest.len() } else { 7 };
    let pk = packet_of(rest, g, f);
    let tail = packets_from(rest.skip(used as int), g, (f + 1) as u8);
    let ps = packets_from(rest, g, f);
    assert(ps == seq![pk] + tail);
    lemma_header_bits(g, f);
    assert((c + 1) / 7 == f as int);
    let st = (g, payload.take(c));
    let step = read_step(st, pk, len);
    assert(data_of(pk) =~= pad(rest, 7));
    assert(pad(rest, 7).take(used as int) =~= rest.take(used as int));
    assert(payload.take(c) + rest.take(used as int) =~= payload.take(c + used));
    assert(step == (g, payload.take(c + used), c + used == len));
    assert(ps.skip(1) =~= tail);
    if rest.len() <= 7 {
        assert(rest.skip(used as int).len() == 0);
        assert(tail =~= Seq::<Seq<u8>>::empty());
        assert(payload.take(c + used) =~= payload);
        assert(ps.skip(1).len() == 0);
        assert(feed((step.0, step.1), ps.skip(1), len) == ((step.0, step.1), Seq::<bool>::empty()));
        assert(seq![true] + Seq::<bool>::empty() =~= seq![true]);
        assert(feed(st, ps, len) == ((g, payload), seq![true]));
        assert(last_only(1) =~= seq![true]);
    } else {
        let f2 = (f + 1) as u8;
        assert(rest.skip(7) =~= payload.skip(7 * f2 - 1));
        lemma_feed_tail(payload, g, f2);
        assert(feed(st, ps, len) == ((g, payload), seq![false] + last_only(tail.len())));
        assert(seq![false] + last_only(tail.len()) =~= last_only(ps.len()));
    }
}

/// Every packet that the segmenter makes of a payload, fed in order to a
/// fresh reader of that length, rebuilds the payload, and the message
/// completes on the last packet and on no earlier one. Frame numbers have
/// four bits, so this holds up to the 111 bytes that sixteen frames carry.
pub proof fn lemma_segment_then_read(payload: Seq<u8>, g: u8)
    requires
        payload.len() <= 111,
        g < 16,
    ensures
        segments(payload, g).len() >= 1,
        feed((NO_GROUP, Seq::<u8>::empty()), segments(payload, g), payload.len()) == (
            (g, payload),
            last_only(segments(payload, g).len()),
        ),
{
    let len = payload.len();
    let used: nat = if len < 6 { len } else { 6 };
    let pk = packet_of(payload, g, 0);
    let tail = packets_from(payload.skip(used as int), g, 1);
    let ps = segments(payload, g);
    assert(ps == seq![pk] + tail);
    lemma_header_bits(g, 0);
    let st = (NO_GROUP, Seq::<u8>::empty());
    let step = read_step(st, pk, len);
    assert(data_of(pk) =~= pad(payload, 6));
    assert(pad(payload, 6).take(used as int) =~= payload.take(used as int));
    assert(Seq::<u8>::empty() + payload.take(used as int) =~= payload.take(used as int));
    assert(step == (g, payload.take(used as int), used == len));
    assert(ps.skip(1) =~= tail);
    if len <= 6 {
        assert(payload.skip(used as int).len() == 0);
        assert(tail =~= Seq::<Seq<u8>>::empty());
        assert(payload.take(used as int) =~= payload);
        assert(ps.skip(1).len() == 0);
        assert(feed((step.0, step.1), ps.skip(1), len) == ((step.0, step.1), Seq::<bool>::empty()));
        assert(seq![true] + Seq::<bool>::empty() =~= seq![true]);
        assert(feed(st, ps, len) == ((g, payload), seq![true]));
        assert(last_only(1) =~= seq![true]);
    } else {
        lemma_feed_tail(payload, g, 1);
        assert(feed(st, ps, len) == ((g, payload), seq![false] + last_only(tail.len())));
        assert(seq![false] + last_only(tail.len()) =~= last_only(ps.len()));
    }
}

/// Encodes `msg` at the end of `buf` and starts the Fast Packets that carry
/// the encoding as group `group_no`.
pub fn encode_to_fast_packets<'a, M: Message>(msg: &M, buf: &'a mut MessageBuf, group_no: u8) -> (r: Iter<'a>)
    requires
        old(buf).free() >= M::encoded_len_spec(),
        group_no < 16,
    ensures
        r.wf(),
        r.pending() == segments(msg.encoding(), group_no),
{
    let start = buf.len();
    msg.encode(buf);
    let all: &'a MessageBuf = buf;
    let (_, encoded) = all.as_slice().split_at(start);
    assert(encoded@ =~= msg.encoding());
    Iter::new(encoded, group_no)
}

/// Largest message a group of Fast Packets can announce.
pub const MAX_MESSAGE_LEN: usize = 255;

/// Reassembles the Fast Packets of one message type into a message.
pub struct Reader<M: Message> {
    buf: [u8; 255],
    pos: usize,
    group_no: u8,
    _marker: core::marker::PhantomData<M>,
}

impl<M: Message> Reader<M> {
    /// The group being collected and the bytes received of it.
    pub closed spec fn state(&self) -> (u8, Seq<u8>) {
        (self.group_no, self.buf@.take(self.pos as int))
    }

    /// No more bytes are held than the message has, and no more than a
    /// first frame can announce.
    pub closed spec fn wf(&self) -> bool {
        &&& self.pos <= MAX_MESSAGE_LEN
        &&& self.pos <= M::encoded_len_spec()
        &&& self.group_no != NO_GROUP ==> M::encoded_len_spec() <= MAX_MESSAGE_LEN
    }

    pub fn new() -> (r: Self)
        ensures
            r.wf(),
            r.state() == (NO_GROUP, Seq::<u8>::empty()),
    {
        let r = Reader {
            buf: [0u8; 255],
            pos: 0,
            group_no: NO_GROUP,
            _marker: core::marker::PhantomData,
        };
        assert(r.buf@.take(0) =~= Seq::<u8>::empty());
        r
    }

    /// Takes one packet. Packets of another group than the current one are
    /// ignored unless they start a group of the right length; packets out of
    /// order are ignored. Once all bytes are in, the message is decoded.
    pub fn read(&mut self, packet: FastPacket) -> (r: Option<Result<M, M::DecodeError>>)
        requires
            old(self).wf(),
        ensures
            final(self).wf(),
            ({
                let (g, rcv, done) = read_step(old(self).state(), packet.0@, M::encoded_len_spec());
                &&& final(self).state() == (g, rcv)
                &&& done ==> r == Some(M::decoding(rcv))
                &&& !done ==> r is None
            }),
    {
        let ghost st = self.state();
        let ghost step = read_step(st, packet.0@, M::encoded_len_spec());
        let len = M::encoded_len();
        let pg = packet.group_no();
        if pg != self.group_no {
            if packet.is_first() && packet.0[1] as usize == len {
                self.group_no = pg;
                self.pos = 0;
            } else {
                return None;
            }
        }
        let pos = self.pos;
        assert(pg != st.0 ==> self.buf@.take(pos as int) =~= Seq::<u8>::empty());
        if packet.frame_no() as usize != (pos + 1) / 7 {
            assert(step == (self.group_no, self.buf@.take(pos as int), false));
            return None;
        }
        let d = packet.data();
        let room: usize = if pos >= len {
            0
        } else {
            len - pos
        };
        let n: usize = if d.len() < room {
            d.len()
        } else {
            room
        };
        let ghost before = self.buf@.take(pos as int);
        let ghost gnow = self.group_no;
        let mut i: usize = 0;
        while i < n
            invariant
                self.group_no == gnow,
                self.pos == pos,
                pos + n <= MAX_MESSAGE_LEN,
                n <= d@.len(),
                i <= n,
                self.buf@.len() == 255,
                before.len() == pos,
                self.buf@.take(pos + i) == before + d@.take(i as int),
            decreases n - i,
        {
            let ghost prev = self.buf@;
            let ghost j = i;
            self.buf[pos + i] = d[i];
            i = i + 1;
            assert forall|k: int| 0 <= k < pos + i implies #[trigger] self.buf@.take(pos + i)[k] == (
            before + d@.take(i as int))[k] by {
                if k < pos + j {
                    assert(self.buf@[k] == prev[k]);
                    assert(prev.take(pos + j)[k] == (before + d@.take(j as int))[k]);
                } else {
                    assert(self.buf@[k] == d@[j as int]);
                }
            }
            assert(self.buf@.take(pos + i) =~= before + d@.take(i as int));
        }
        self.pos = pos + n;
        assert(d@.take(n as int).len() == n);
        assert(step.0 == self.group_no);
        assert(step.1 =~= self.buf@.take(self.pos as int));
        if self.pos == len {
            let (received, _) = self.buf.as_slice().split_at(self.pos);
            Some(M::decode(received))
        } else {
            None
        }
    }
}

impl<M: Message> Default for Reader<M> {
    fn default() -> (r: Self)
        ensures
            r.wf(),
            r.state() == (NO_GROUP, Seq::<u8>::empty()),
    {
        Self::new()
    }
}

} // verus!
