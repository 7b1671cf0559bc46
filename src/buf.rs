//! Little-endian scalar fields over a byte cursor.
use vstd::prelude::*;
use vstd::arithmetic::div_mod::{lemma_breakdown, lemma_div_denominator, lemma_small_mod};

verus! {

/// `256` to the power `n`: the number of values that `n` bytes can hold.
pub open spec fn byte_span(n: nat) -> nat
    decreases n,
{
    if n == 0 {
        1
    } else {
        256 * byte_span((n - 1) as nat)
    }
}

/// The unsigned value of bytes read least significant first.
pub open spec fn le_value(b: Seq<u8>) -> nat
    decreases b.len(),
{
    if b.len() == 0 {
        0
    } else {
        b[0] as nat + 256 * le_value(b.skip(1))
    }
}

/// The `n` low bytes of `v`, least significant first.
pub open spec fn le_bytes(v: nat, n: nat) -> Seq<u8>
    decreases n,
{
    if n == 0 {
        seq![]
    } else {
        seq![(v % 256) as u8] + le_bytes(v / 256, (n - 1) as nat)
    }
}

pub proof fn lemma_byte_span_values()
    ensures
        byte_span(1) == 0x100,
        byte_span(2) == 0x1_0000,
        byte_span(3) == 0x100_0000,
        byte_span(4) == 0x1_0000_0000,
        byte_span(8) == 0x1_0000_0000_0000_0000,
{
    reveal_with_fuel(byte_span, 9);
}

pub proof fn lemma_le_value_bound(b: Seq<u8>)
    ensures
        le_value(b) < byte_span(b.len()),
    decreases b.len(),
{
    if b.len() > 0 {
        lemma_le_value_bound(b.skip(1));
        assert(byte_span(b.len()) == 256 * byte_span((b.len() - 1) as nat));
    }
}

pub proof fn lemma_le_bytes_len(v: nat, n: nat)
    ensures
        le_bytes(v, n).len() == n,
    decreases n,
{
    if n > 0 {
        lemma_le_bytes_len(v / 256, (n - 1) as nat);
    }
}

/// Reading back the bytes of a value gives the value modulo the span.
pub proof fn lemma_le_round_trip(v: nat, n: nat)
    ensures
        le_value(le_bytes(v, n)) == v % byte_span(n),
    decreases n,
{
    if n == 0 {
        assert(v % 1 == 0);
    } else {
        let b = le_bytes(v, n);
        lemma_le_bytes_len(v / 256, (n - 1) as nat);
        assert(b.skip(1) =~= le_bytes(v / 256, (n - 1) as nat));
        lemma_le_round_trip(v / 256, (n - 1) as nat);
        lemma_byte_span_mono(0, (n - 1) as nat);
        lemma_breakdown(v as int, 256, byte_span((n - 1) as nat) as int);
    }
}

/// Reads `n` bytes starting at `at` as an unsigned little-endian value.
fn read_le(b: &[u8], at: usize, n: usize) -> (r: u64)
    requires
        n <= 8,
        at + n <= b@.len(),
    ensures
        r as nat == le_value(b@.subrange(at as int, at + n)),
{
    let len = b.len();
    let mut v: u64 = 0;
    let mut i: usize = n;
    proof {
        lemma_byte_span_values();
    }
    while i > 0
        invariant
            n <= 8,
            at + n <= b@.len(),
            len == b@.len(),
            i <= n,
            v as nat == le_value(b@.subrange(at + i, at + n)),
            byte_span(8) == 0x1_0000_0000_0000_0000,
        decreases i,
    {
        let ghost tail = b@.subrange(at + i, at + n);
        let ghost s = b@.subrange(at + i - 1, at + n);
        assert(s.skip(1) =~= tail);
        proof {
            lemma_le_value_bound(s);
            lemma_byte_span_mono(s.len(), 8);
            assert(le_value(s) == s[0] as nat + 256 * le_value(tail));
        }
        i = i - 1;
        v = v * 256 + b[at + i] as u64;
    }
    assert(b@.subrange(at as int, at + n) =~= b@.subrange(at + 0, at + n));
    v
}

pub proof fn lemma_byte_span_mono(m: nat, n: nat)
    requires
        m <= n,
    ensures
        byte_span(m) <= byte_span(n),
    decreases n,
{
    if m < n {
        lemma_byte_span_mono(m, (n - 1) as nat);
    }
}

pub proof fn lemma_le_bytes_index(v: nat, n: nat, k: nat)
    requires
        k < n,
    ensures
        le_bytes(v, n)[k as int] == ((v / byte_span(k)) % 256) as u8,
    decreases k,
{
    lemma_le_bytes_len(v / 256, (n - 1) as nat);
    let head = seq![(v % 256) as u8];
    assert(le_bytes(v, n) == head + le_bytes(v / 256, (n - 1) as nat));
    if k == 0 {
        assert(byte_span(0) == 1);
        assert(v / 1 == v);
    } else {
        assert(le_bytes(v, n)[k as int] == le_bytes(v / 256, (n - 1) as nat)[k - 1]);
        assert(byte_span(k) == 256 * byte_span((k - 1) as nat));
        lemma_le_bytes_index(v / 256, (n - 1) as nat, (k - 1) as nat);
        lemma_byte_span_mono(0, (k - 1) as nat);
        lemma_div_denominator(v as int, 256, byte_span((k - 1) as nat) as int);
    }
}

/// Capacity of a `MessageBuf`: the longest message a group of Fast
/// Packets carries.
pub const MESSAGE_CAPACITY: usize = 255;

/// A fixed-capacity byte sink that a message encodes into.
pub struct MessageBuf {
    bytes: [u8; 255],
    len: usize,
}

impl MessageBuf {
    /// The bytes written so far.
    pub closed spec fn contents(&self) -> Seq<u8> {
        self.bytes@.take(self.len as int)
    }

    /// Bytes that can still be written.
    pub closed spec fn free(&self) -> nat {
        if self.len <= MESSAGE_CAPACITY {
            (MESSAGE_CAPACITY - self.len) as nat
        } else {
            0
        }
    }

    #[verifier::type_invariant]
    spec fn inv(self) -> bool {
        self.len <= MESSAGE_CAPACITY
    }

    /// An empty buffer.
    pub fn new() -> (r: Self)
        ensures
            r.contents() == Seq::<u8>::empty(),
            r.free() == MESSAGE_CAPACITY,
    {
        let r = MessageBuf { bytes: [0u8; 255], len: 0 };
        assert(r.bytes@.take(0) =~= Seq::<u8>::empty());
        r
    }

    /// The bytes written so far.
    pub fn as_slice(&self) -> (r: &[u8])
        ensures
            r@ == self.contents(),
    {
        proof {
            use_type_invariant(self);
        }
        let (head, _) = self.bytes.as_slice().split_at(self.len);
        head
    }

    /// The number of bytes written so far.
    pub fn len(&self) -> (r: usize)
        ensures
            r == self.contents().len(),
            r + self.free() == MESSAGE_CAPACITY,
    {
        proof {
            use_type_invariant(self);
        }
        self.len
    }
}

/// Appends the `n` low bytes of `v`, least significant first.
fn put_le(out: &mut MessageBuf, n: usize, v: u64)
    requires
        n <= 8,
        old(out).free() >= n,
    ensures
        final(out).contents() == old(out).contents() + le_bytes(v as nat, n as nat),
        final(out).free() == old(out).free() - n,
{
    proof {
        use_type_invariant(&*out);
    }
    let ghost orig = out.bytes@;
    let at = out.len;
    let mut w: u64 = v;
    let mut i: usize = 0;
    proof {
        lemma_le_bytes_len(v as nat, n as nat);
        assert(byte_span(0) == 1);
        assert(v as nat / 1 == v as nat);
    }
    while i < n
        invariant
            n <= 8,
            at + n <= MESSAGE_CAPACITY,
            out.len == at,
            i <= n,
            out.bytes@.len() == 255,
            w as nat == v as nat / byte_span(i as nat),
            forall|k: int| 0 <= k < at ==> #[trigger] out.bytes@[k] == orig[k],
            forall|k: int|
                at <= k < at + i ==> #[trigger] out.bytes@[k] == ((v as nat / byte_span(
                    (k - at) as nat,
                )) % 256) as u8,
        decreases n - i,
    {
        out.bytes[at + i] = (w % 256) as u8;
        proof {
            lemma_byte_span_mono(0, i as nat);
            lemma_div_denominator(v as int, byte_span(i as nat) as int, 256);
            assert(byte_span((i + 1) as nat) == 256 * byte_span(i as nat));
        }
        w = w / 256;
        i = i + 1;
    }
    out.len = at + n;
    proof {
        let want = orig.take(at as int) + le_bytes(v as nat, n as nat);
        assert forall|k: int| 0 <= k < at + n implies #[trigger] out.bytes@.take(at + n)[k] == want[k] by {
            if k >= at {
                lemma_le_bytes_index(v as nat, n as nat, (k - at) as nat);
            }
        }
        assert(out.bytes@.take(at + n) =~= want);
    }
}

/// The value of `n` bytes read as a two's complement number.
pub open spec fn signed_of(u: nat, n: nat) -> int {
    if u >= byte_span(n) / 2 {
        u - byte_span(n)
    } else {
        u as int
    }
}

/// The `n`-byte two's complement encoding of `v`.
pub open spec fn unsigned_of(v: int, n: nat) -> nat {
    if v < 0 {
        (v + byte_span(n)) as nat
    } else {
        v as nat
    }
}

/// Writing a scalar of `n` bytes and reading it back reproduces it: an
/// unsigned value that fits in `n` bytes, a signed value that fits in `n`
/// bytes of two's complement, and a signed value that fits in three bytes
/// written through the three-byte signed slot.
pub proof fn lemma_scalar_round_trip(v: int, n: nat)
    requires
        1 <= n <= 8,
    ensures
        0 <= v < byte_span(n) ==> le_value(le_bytes(v as nat, n)) == v,
        -(byte_span(n) / 2) <= v < byte_span(n) / 2 ==> signed_of(
            le_value(le_bytes(unsigned_of(v, n), n)),
            n,
        ) == v,
        -0x80_0000 <= v < 0x80_0000 ==> signed_of(le_value(le_bytes(unsigned_of(v, 4), 3)), 3) == v,
        le_bytes(v as nat, n).len() == n,
        le_bytes(unsigned_of(v, n), n).len() == n,
{
    lemma_le_bytes_len(v as nat, n);
    lemma_le_bytes_len(unsigned_of(v, n), n);
    lemma_le_round_trip(v as nat, n);
    lemma_le_round_trip(unsigned_of(v, n), n);
    lemma_le_round_trip(unsigned_of(v, 4), 3);
    lemma_byte_span_values();
    lemma_byte_span_mono(1, n);
    if 0 <= v < byte_span(n) {
        lemma_small_mod(v as nat, byte_span(n));
    }
    if -(byte_span(n) / 2) <= v < byte_span(n) / 2 {
        lemma_small_mod(unsigned_of(v, n), byte_span(n));
    }
    if 0 <= v < 0x80_0000 {
        lemma_small_mod(v as nat, byte_span(3));
    }
    if -0x80_0000 <= v < 0 {
        assert((v + 0x1_0000_0000) % 0x100_0000 == v + 0x100_0000) by (nonlinear_arith)
            requires
                -0x80_0000 <= v < 0,
        ;
    }
}

/// Raw value that marks a fixed-point field as not available.
pub const FIXED_UNAVAILABLE: i16 = 0x7fff;

/// A fixed-point raw value, or `None` for the unavailable marker.
pub open spec fn fixed_of(raw: int) -> Option<i16> {
    if raw == FIXED_UNAVAILABLE as int {
        None
    } else {
        Some(raw as i16)
    }
}

/// A fixed-point field written as the unavailable marker reads back as
/// unavailable.
pub proof fn lemma_fixed_unavailable_round_trip()
    ensures
        fixed_of(
            signed_of(le_value(le_bytes(unsigned_of(FIXED_UNAVAILABLE as int, 2), 2)), 2),
        ) == None::<i16>,
        le_bytes(unsigned_of(FIXED_UNAVAILABLE as int, 2), 2).len() == 2,
{
    lemma_byte_span_values();
    lemma_scalar_round_trip(FIXED_UNAVAILABLE as int, 2);
}

/// Detaches the first `n` bytes from a reading cursor.
fn take_front<'a>(cur: &mut &'a [u8], n: usize) -> (r: &'a [u8])
    requires
        n <= old(cur)@.len(),
    ensures
        r@ == old(cur)@.take(n as int),
        final(cur)@ == old(cur)@.skip(n as int),
{
    let s: &'a [u8] = *cur;
    let (h, t) = s.split_at(n);
    *cur = t;
    h
}

/// Reads `n` bytes from the front of a cursor as an unsigned little-endian value.
fn get_le(cur: &mut &[u8], n: usize) -> (r: u64)
    requires
        n <= 8,
        n <= old(cur)@.len(),
    ensures
        r as nat == le_value(old(cur)@.take(n as int)),
        (r as nat) < byte_span(n as nat),
        final(cur)@ == old(cur)@.skip(n as int),
{
    let h = take_front(cur, n);
    let v = read_le(h, 0, n);
    proof {
        assert(h@.subrange(0, n as int) =~= h@);
        lemma_le_value_bound(h@);
    }
    v
}

/// Reads little-endian scalars from the front of a byte cursor, consuming
/// them. Reading past the end is a programming error that the contracts
/// rule out.
pub trait Buf {
    /// The bytes not read yet.
    spec fn remaining(&self) -> Seq<u8>;

    /// The raw value of a two-byte fixed-point field, `None` where it holds
    /// the unavailable marker. The value it stands for is the raw value times
    /// the field's precision.
    fn get_fixed(&mut self) -> (r: Option<i16>)
        requires
            old(self).remaining().len() >= 2,
        ensures
            r == fixed_of(signed_of(le_value(old(self).remaining().take(2)), 2)),
            final(self).remaining() == old(self).remaining().skip(2),
    ;

    fn get_u8(&mut self) -> (r: u8)
        requires
            old(self).remaining().len() >= 1,
        ensures
            r as nat == le_value(old(self).remaining().take(1)),
            final(self).remaining() == old(self).remaining().skip(1),
    ;

    fn get_i8(&mut self) -> (r: i8)
        requires
            old(self).remaining().len() >= 1,
        ensures
            r as int == signed_of(le_value(old(self).remaining().take(1)), 1),
            final(self).remaining() == old(self).remaining().skip(1),
    ;

    fn get_u16(&mut self) -> (r: u16)
        requires
            old(self).remaining().len() >= 2,
        ensures
            r as nat == le_value(old(self).remaining().take(2)),
            final(self).remaining() == old(self).remaining().skip(2),
    ;

    fn get_i16(&mut self) -> (r: i16)
        requires
            old(self).remaining().len() >= 2,
        ensures
            r as int == signed_of(le_value(old(self).remaining().take(2)), 2),
            final(self).remaining() == old(self).remaining().skip(2),
    ;

    /// Three bytes, zero-extended.
    fn get_u24(&mut self) -> (r: u32)
        requires
            old(self).remaining().len() >= 3,
        ensures
            r as nat == le_value(old(self).remaining().take(3)),
            final(self).remaining() == old(self).remaining().skip(3),
    ;

    /// Three bytes of two's complement, sign-extended.
    fn get_i24(&mut self) -> (r: i32)
        requires
            old(self).remaining().len() >= 3,
        ensures
            r as int == signed_of(le_value(old(self).remaining().take(3)), 3),
            final(self).remaining() == old(self).remaining().skip(3),
    ;

    fn get_u32(&mut self) -> (r: u32)
        requires
            old(self).remaining().len() >= 4,
        ensures
            r as nat == le_value(old(self).remaining().take(4)),
            final(self).remaining() == old(self).remaining().skip(4),
    ;

    fn get_i32(&mut self) -> (r: i32)
        requires
            old(self).remaining().len() >= 4,
        ensures
            r as int == signed_of(le_value(old(self).remaining().take(4)), 4),
            final(self).remaining() == old(self).remaining().skip(4),
    ;

    fn get_u64(&mut self) -> (r: u64)
        requires
            old(self).remaining().len() >= 8,
        ensures
            r as nat == le_value(old(self).remaining().take(8)),
            final(self).remaining() == old(self).remaining().skip(8),
    ;

    fn get_i64(&mut self) -> (r: i64)
        requires
            old(self).remaining().len() >= 8,
        ensures
            r as int == signed_of(le_value(old(self).remaining().take(8)), 8),
            final(self).remaining() == old(self).remaining().skip(8),
    ;
}

impl<'a> Buf for &'a [u8] {
    open spec fn remaining(&self) -> Seq<u8> {
        (**self)@
    }

    fn get_fixed(&mut self) -> (r: Option<i16>) {
        let v = self.get_i16();
        if v == FIXED_UNAVAILABLE {
            None
        } else {
            Some(v)
        }
    }

    fn get_u8(&mut self) -> (r: u8) {
        let v = get_le(self, 1);
        proof {
            lemma_byte_span_values();
        }
        v as u8
    }

    fn get_i8(&mut self) -> (r: i8) {
        let v = get_le(self, 1);
        proof {
            lemma_byte_span_values();
        }
        if v >= 0x80 {
            (v as i16 - 0x100) as i8
        } else {
            v as i8
        }
    }

    fn get_u16(&mut self) -> (r: u16) {
        let v = get_le(self, 2);
        proof {
            lemma_byte_span_values();
        }
        v as u16
    }

    fn get_i16(&mut self) -> (r: i16) {
        let v = get_le(self, 2);
        proof {
            lemma_byte_span_values();
        }
        if v >= 0x8000 {
            (v as i32 - 0x1_0000) as i16
        } else {
            v as i16
        }
    }

    fn get_u24(&mut self) -> (r: u32) {
        let v = get_le(self, 3);
        proof {
            lemma_byte_span_values();
        }
        v as u32
    }

    fn get_i24(&mut self) -> (r: i32) {
        let v = get_le(self, 3);
        proof {
            lemma_byte_span_values();
        }
        if v >= 0x80_0000 {
            (v as i64 - 0x100_0000) as i32
        } else {
            v as i32
        }
    }

    fn get_u32(&mut self) -> (r: u32) {
        let v = get_le(self, 4);
        proof {
            lemma_byte_span_values();
        }
        v as u32
    }

    fn get_i32(&mut self) -> (r: i32) {
        let v = get_le(self, 4);
        proof {
            lemma_byte_span_values();
        }
        if v >= 0x8000_0000 {
            (v as i64 - 0x1_0000_0000) as i32
        } else {
            v as i32
        }
    }

    fn get_u64(&mut self) -> (r: u64) {
        let v = get_le(self, 8);
        proof {
            lemma_byte_span_values();
        }
        v as u64
    }

    fn get_i64(&mut self) -> (r: i64) {
        let v = get_le(self, 8);
        proof {
            lemma_byte_span_values();
        }
        if v >= 0x8000_0000_0000_0000 {
            (v - 0x8000_0000_0000_0000) as i64 + i64::MIN
        } else {
            v as i64
        }
    }
}

/// Appends little-endian scalars to a byte sink. Writing past its capacity
/// is a programming error that the contracts rule out.
pub trait BufMut {
    /// The bytes written so far.
    spec fn written(&self) -> Seq<u8>;

    /// Bytes that can still be written.
    spec fn room(&self) -> nat;

    fn put_u8(&mut self, value: u8)
        requires
            old(self).room() >= 1,
        ensures
            final(self).written() == old(self).written() + le_bytes(value as nat, 1),
            final(self).room() == old(self).room() - 1,
    ;

    fn put_i8(&mut self, value: i8)
        requires
            old(self).room() >= 1,
        ensures
            final(self).written() == old(self).written() + le_bytes(unsigned_of(value as int, 1), 1),
            final(self).room() == old(self).room() - 1,
    ;

    fn put_u16(&mut self, value: u16)
        requires
            old(self).room() >= 2,
        ensures
            final(self).written() == old(self).written() + le_bytes(value as nat, 2),
            final(self).room() == old(self).room() - 2,
    ;

    fn put_i16(&mut self, value: i16)
        requires
            old(self).room() >= 2,
        ensures
            final(self).written() == old(self).written() + le_bytes(unsigned_of(value as int, 2), 2),
            final(self).room() == old(self).room() - 2,
    ;

    /// The three low bytes of `value`.
    fn put_u24(&mut self, value: u32)
        requires
            old(self).room() >= 3,
        ensures
            final(self).written() == old(self).written() + le_bytes(value as nat, 3),
            final(self).room() == old(self).room() - 3,
    ;

    /// The three low bytes of `value`'s two's complement encoding.
    fn put_i24(&mut self, value: i32)
        requires
            old(self).room() >= 3,
        ensures
            final(self).written() == old(self).written() + le_bytes(unsigned_of(value as int, 4), 3),
            final(self).room() == old(self).room() - 3,
    ;

    fn put_u32(&mut self, value: u32)
        requires
            old(self).room() >= 4,
        ensures
            final(self).written() == old(self).written() + le_bytes(value as nat, 4),
            final(self).room() == old(self).room() - 4,
    ;

    fn put_i32(&mut self, value: i32)
        requires
            old(self).room() >= 4,
        ensures
            final(self).written() == old(self).written() + le_bytes(unsigned_of(value as int, 4), 4),
            final(self).room() == old(self).room() - 4,
    ;

    fn put_u64(&mut self, value: u64)
        requires
            old(self).room() >= 8,
        ensures
            final(self).written() == old(self).written() + le_bytes(value as nat, 8),
            final(self).room() == old(self).room() - 8,
    ;

    fn put_i64(&mut self, value: i64)
        requires
            old(self).room() >= 8,
        ensures
            final(self).written() == old(self).written() + le_bytes(unsigned_of(value as int, 8), 8),
            final(self).room() == old(self).room() - 8,
    ;
}

impl BufMut for MessageBuf {
    open spec fn written(&self) -> Seq<u8> {
        self.contents()
    }

    open spec fn room(&self) -> nat {
        self.free()
    }

    fn put_u8(&mut self, value: u8) {
        put_le(self, 1, value as u64);
    }

    fn put_i8(&mut self, value: i8) {
        proof {
            lemma_byte_span_values();
        }
        let v: u64 = if value < 0 {
            (value as i16 + 0x100) as u64
        } else {
            value as u64
        };
        put_le(self, 1, v);
    }

    fn put_u16(&mut self, value: u16) {
        put_le(self, 2, value as u64);
    }

    fn put_i16(&mut self, value: i16) {
        proof {
            lemma_byte_span_values();
        }
        let v: u64 = if value < 0 {
            (value as i32 + 0x1_0000) as u64
        } else {
            value as u64
        };
        put_le(self, 2, v);
    }

    fn put_u24(&mut self, value: u32) {
        put_le(self, 3, value as u64);
    }

    fn put_i24(&mut self, value: i32) {
        proof {
            lemma_byte_span_values();
        }
        let v: u64 = if value < 0 {
            (value as i64 + 0x1_0000_0000) as u64
        } else {
            value as u64
        };
        put_le(self, 3, v);
    }

    fn put_u32(&mut self, value: u32) {
        put_le(self, 4, value as u64);
    }

    fn put_i32(&mut self, value: i32) {
        proof {
            lemma_byte_span_values();
        }
        let v: u64 = if value < 0 {
            (value as i64 + 0x1_0000_0000) as u64
        } else {
            value as u64
        };
        put_le(self, 4, v);
    }

    fn put_u64(&mut self, value: u64) {
        put_le(self, 8, value);
    }

    fn put_i64(&mut self, value: i64) {
        proof {
            lemma_byte_span_values();
        }
        let v: u64 = if value < 0 {
            (value - i64::MIN) as u64 + 0x8000_0000_0000_0000
        } else {
            value as u64
        };
        put_le(self, 8, v);
    }
}

} // verus!
