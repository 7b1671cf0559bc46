//! The N2K identifier: a 29-bit extended CAN identifier made of a 3-bit
//! priority, an 18-bit PGN selector and an 8-bit source address.
use vstd::prelude::*;

verus! {

/// Destination value that addresses every device on the bus.
pub const DESTINATION_BROADCAST: u8 = 0xff;

/// Largest value of a 29-bit identifier, plus one.
pub const CAN_ID_LIMIT: u32 = 0x2000_0000;

/// Addressing mode of an identifier.
#[derive(Debug, Clone, Copy, PartialEq, Eq, Structural)]
pub enum Format {
    /// Addressed: the low byte of the selector holds a destination.
    Pdu1,
    /// Broadcast: the whole selector is the PGN.
    Pdu2,
}

/// A PGN (or selector) is addressed when its high bits are below 240.
pub open spec fn is_pdu1(selector: u32) -> bool {
    selector / 256 < 240
}

pub open spec fn format_spec(selector: u32) -> Format {
    if is_pdu1(selector) {
        Format::Pdu1
    } else {
        Format::Pdu2
    }
}

/// A PGN that `Id::new` accepts: 18 bits, and for an addressed PGN a zero low byte.
pub open spec fn valid_pgn(pgn: u32) -> bool {
    &&& pgn <= 0x3ffff
    &&& is_pdu1(pgn) ==> pgn % 256 == 0
}

/// The raw identifier that `Id::new` lays out: priority in bits 26 to 28,
/// the selector in bits 8 to 25 (PGN, plus the destination for an
/// addressed PGN) and the source in bits 0 to 7.
pub open spec fn can_id_of(priority: u8, pgn: u32, source: u8, destination: u8) -> u32 {
    let selector = if is_pdu1(pgn) {
        pgn + destination
    } else {
        pgn as int
    };
    ((priority % 8) * 0x400_0000 + selector * 0x100 + source) as u32
}

/// The 18-bit PGN selector of a raw identifier.
pub open spec fn selector_of(raw: u32) -> u32 {
    (raw / 0x100) % 0x4_0000
}

pub open spec fn priority_of(raw: u32) -> u8 {
    ((raw / 0x400_0000) % 8) as u8
}

pub open spec fn pgn_of(raw: u32) -> u32 {
    if is_pdu1(selector_of(raw)) {
        (selector_of(raw) - selector_of(raw) % 256) as u32
    } else {
        selector_of(raw)
    }
}

pub open spec fn source_of(raw: u32) -> u8 {
    (raw % 256) as u8
}

pub open spec fn destination_of(raw: u32) -> u8 {
    if is_pdu1(selector_of(raw)) {
        (selector_of(raw) % 256) as u8
    } else {
        DESTINATION_BROADCAST
    }
}

/// Building an identifier and reading it back gives the same priority, PGN
/// and source; an addressed PGN gives back its destination as well, and a
/// broadcast PGN reads as addressed to everyone.
pub proof fn lemma_id_round_trip(priority: u8, pgn: u32, source: u8, destination: u8)
    requires
        priority <= 7,
        valid_pgn(pgn),
    ensures
        priority_of(can_id_of(priority, pgn, source, destination)) == priority,
        pgn_of(can_id_of(priority, pgn, source, destination)) == pgn,
        source_of(can_id_of(priority, pgn, source, destination)) == source,
        format_spec(selector_of(can_id_of(priority, pgn, source, destination))) == format_spec(pgn),
        is_pdu1(pgn) ==> destination_of(can_id_of(priority, pgn, source, destination)) == destination,
        !is_pdu1(pgn) ==> destination_of(can_id_of(priority, pgn, source, destination)) == DESTINATION_BROADCAST,
{
    let p = priority as int;
    let s = source as int;
    let d = destination as int;
    let sel: int = if is_pdu1(pgn) { pgn + d } else { pgn as int };
    assert(p % 8 == p);
    assert(sel <= 0x3ffff);
    let raw: int = p * 0x400_0000 + sel * 0x100 + s;
    assert(raw == can_id_of(priority, pgn, source, destination) as int);
    assert({
        &&& (raw / 0x400_0000) % 8 == p
        &&& (raw / 0x100) % 0x4_0000 == sel
        &&& raw % 256 == s
    }) by (nonlinear_arith)
        requires
            raw == p * 0x400_0000 + sel * 0x100 + s,
            0 <= p <= 7,
            0 <= sel <= 0x3ffff,
            0 <= s <= 0xff,
    ;
    if is_pdu1(pgn) {
        assert(sel / 256 == pgn / 256 && sel % 256 == d) by (nonlinear_arith)
            requires
                sel == pgn + d,
                pgn % 256 == 0,
                0 <= d <= 0xff,
        ;
    }
}

impl Format {
    /// The addressing mode that a PGN implies.
    pub fn from_pgn(pgn: u32) -> (r: Self)
        ensures
            r == format_spec(pgn),
    {
        let id_pf = pgn >> 8;
        assert(pgn >> 8 == pgn / 256) by (bit_vector);
        if id_pf < 240 {
            Format::Pdu1
        } else {
            Format::Pdu2
        }
    }
}

/// A NMEA 2000 message identifier.
#[derive(Debug, Clone, Copy, PartialEq, Eq, Structural)]
pub struct Id {
    raw: u32,
}

impl View for Id {
    type V = u32;

    closed spec fn view(&self) -> u32 {
        self.raw
    }
}

impl Id {
    #[verifier::type_invariant]
    spec fn inv(self) -> bool {
        self.raw < CAN_ID_LIMIT
    }

    /// Lays out an identifier from its fields. For a broadcast PGN the
    /// destination is implied and `destination` is not stored.
    pub fn new(priority: u8, pgn: u32, source: u8, destination: u8) -> (r: Self)
        requires
            priority <= 7,
            valid_pgn(pgn),
        ensures
            r@ == can_id_of(priority, pgn, source, destination),
    {
        let id_pf = pgn >> 8;
        let p = priority as u32 & 0x7;
        let d = destination as u32;
        let s = source as u32;
        let pdu1 = id_pf < 240;
        let raw = if pdu1 {
            p << 26 | pgn << 8 | d << 8 | s
        } else {
            p << 26 | pgn << 8 | s
        };
        let ghost pr = priority as u32;
        assert(p == pr % 8 && pdu1 == (pgn / 256 < 240) && (pgn % 256 == 0 <==> pgn & 0xff == 0)) by (bit_vector)
            requires
                p == pr & 0x7,
                id_pf == pgn >> 8,
                pdu1 == (id_pf < 240),
        ;
        let ghost dd: u32 = if pdu1 { d } else { 0 };
        assert(raw < CAN_ID_LIMIT && raw == p * 0x400_0000 + (pgn + dd) * 0x100 + s) by (bit_vector)
            requires
                raw == (if pdu1 { p << 26 | pgn << 8 | d << 8 | s } else { p << 26 | pgn << 8 | s }),
                p <= 7,
                pgn <= 0x3ffff,
                pdu1 ==> pgn & 0xff == 0,
                d <= 0xff,
                s <= 0xff,
                dd == (if pdu1 { d } else { 0 }),
        ;
        Id { raw }
    }

    /// Wraps a raw 29-bit extended CAN identifier.
    pub fn from_can_id(can_id: u32) -> (r: Self)
        requires
            can_id < CAN_ID_LIMIT,
        ensures
            r@ == can_id,
    {
        Id { raw: can_id }
    }

    /// The raw 29-bit extended CAN identifier.
    pub fn as_can_id(self) -> (r: u32)
        ensures
            r == self@,
            r < CAN_ID_LIMIT,
    {
        proof {
            use_type_invariant(self);
        }
        self.raw
    }

    pub fn priority(self) -> (r: u8)
        ensures
            r == priority_of(self@),
    {
        let raw = self.raw;
        let v = (raw >> 26) & 0x7;
        assert(v == (raw / 0x400_0000) % 8 && v < 8) by (bit_vector)
            requires
                v == (raw >> 26) & 0x7,
        ;
        v as u8
    }

    pub fn pgn(self) -> (r: u32)
        ensures
            r == pgn_of(self@),
    {
        let raw = self.raw;
        let selector = (raw >> 8) & 0x3ffff;
        assert(selector == (raw / 0x100) % 0x4_0000) by (bit_vector)
            requires
                selector == (raw >> 8) & 0x3ffff,
        ;
        match self.format() {
            Format::Pdu1 => {
                let v = selector & 0x3ff00;
                assert(v == selector - selector % 256) by (bit_vector)
                    requires
                        v == selector & 0x3ff00,
                        selector <= 0x3ffff,
                ;
                v
            },
            Format::Pdu2 => selector,
        }
    }

    pub fn source(self) -> (r: u8)
        ensures
            r == source_of(self@),
    {
        let raw = self.raw;
        let v = raw & 0xff;
        assert(v == raw % 256) by (bit_vector)
            requires
                v == raw & 0xff,
        ;
        v as u8
    }

    /// Replaces the source address, keeping every other bit.
    pub fn set_source(&mut self, source: u8)
        ensures
            final(self)@ == old(self)@ - old(self)@ % 256 + source,
    {
        proof {
            use_type_invariant(&*self);
        }
        let old_raw = self.raw;
        let s = source as u32;
        let raw = (old_raw & 0xffff_ff00) | s;
        assert(raw < CAN_ID_LIMIT && raw == old_raw - old_raw % 256 + s) by (bit_vector)
            requires
                raw == (old_raw & 0xffff_ff00) | s,
                old_raw < 0x2000_0000,
                s <= 0xff,
        ;
        self.raw = raw;
    }

    /// The addressing mode, read from the high bits of the selector.
    pub fn format(self) -> (r: Format)
        ensures
            r == format_spec(selector_of(self@)),
    {
        let raw = self.raw;
        let hi = ((raw >> 8) & 0x3ffff) >> 8;
        assert(hi == ((raw / 0x100) % 0x4_0000) / 256) by (bit_vector)
            requires
                hi == ((raw >> 8) & 0x3ffff) >> 8,
        ;
        if hi < 240 {
            Format::Pdu1
        } else {
            Format::Pdu2
        }
    }

    /// The embedded destination of an addressed identifier, the broadcast
    /// value otherwise.
    pub fn destination(self) -> (r: u8)
        ensures
            r == destination_of(self@),
    {
        match self.format() {
            Format::Pdu1 => {
                let raw = self.raw;
                let v = (raw >> 8) & 0xff;
                assert(v == ((raw / 0x100) % 0x4_0000) % 256) by (bit_vector)
                    requires
                        v == (raw >> 8) & 0xff,
                ;
                v as u8
            },
            Format::Pdu2 => DESTINATION_BROADCAST,
        }
    }
}

} // verus!
