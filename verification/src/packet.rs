//! The fixed header of a transport stream packet.

use vstd::prelude::*;

verus! {

/// The size in bytes of every transport stream packet.
pub const PACKET_SIZE: usize = 188;

/// The value of the first byte of every packet.
pub const SYNC_BYTE: u8 = 0x47;

/// The size in bytes of the header that every packet starts with.
pub const FIXED_HEADER_SIZE: usize = 4;

/// What follows the fixed header of a packet.
#[derive(Clone, Copy, Debug, PartialEq, Eq, Structural)]
pub enum AdaptationControl {
    Reserved,
    PayloadOnly,
    AdaptationFieldOnly,
    AdaptationFieldAndPayload,
}

/// Whether `bytes` has the length of a packet and starts with the sync byte.
pub open spec fn is_packet(bytes: Seq<u8>) -> bool {
    bytes.len() == PACKET_SIZE && bytes[0] == SYNC_BYTE
}

/// The 13-bit PID held in the low five bits of byte 1 and in byte 2.
pub open spec fn pid_of(bytes: Seq<u8>) -> u16 {
    (((bytes[1] & 0b0001_1111) as u16) << 8) | (bytes[2] as u16)
}

/// Bit 6 of byte 1: a new payload unit starts in this packet.
pub open spec fn starts_unit(bytes: Seq<u8>) -> bool {
    bytes[1] & 0b0100_0000 != 0
}

/// Bits 5 and 4 of byte 3.
pub open spec fn adaptation_of(bytes: Seq<u8>) -> AdaptationControl {
    let bits = (bytes[3] >> 4) & 0b11;
    if bits == 0 {
        AdaptationControl::Reserved
    } else if bits == 1 {
        AdaptationControl::PayloadOnly
    } else if bits == 2 {
        AdaptationControl::AdaptationFieldOnly
    } else {
        AdaptationControl::AdaptationFieldAndPayload
    }
}

/// The low four bits of byte 3.
pub open spec fn counter_of(bytes: Seq<u8>) -> u8 {
    bytes[3] & 0b0000_1111
}

/// Where the payload starts: right after the fixed header, or after the
/// adaptation field, whose length byte 4 gives, where there is one.
pub open spec fn payload_offset(bytes: Seq<u8>) -> int {
    match adaptation_of(bytes) {
        AdaptationControl::AdaptationFieldAndPayload => FIXED_HEADER_SIZE + 1 + bytes[4],
        _ => FIXED_HEADER_SIZE as int,
    }
}

/// The payload bytes of a packet, where it carries any.
pub open spec fn payload_of(bytes: Seq<u8>) -> Option<Seq<u8>> {
    match adaptation_of(bytes) {
        AdaptationControl::Reserved | AdaptationControl::AdaptationFieldOnly => None,
        _ => if payload_offset(bytes) < bytes.len() {
            Some(bytes.subrange(payload_offset(bytes), bytes.len() as int))
        } else {
            None
        },
    }
}

/// Every PID fits in 13 bits.
pub proof fn lemma_pid_in_range(bytes: Seq<u8>)
    ensures
        pid_of(bytes) < 0x2000,
{
    let hi = bytes[1];
    let lo = bytes[2];
    assert(((((hi & 0b0001_1111) as u16) << 8) | (lo as u16)) < 0x2000) by (bit_vector);
}

/// One transport stream packet, borrowed from the buffer it was found in.
#[derive(Clone, Copy)]
pub struct Packet<'buf> {
    buf: &'buf [u8],
}

impl<'buf> View for Packet<'buf> {
    type V = Seq<u8>;

    closed spec fn view(&self) -> Seq<u8> {
        self.buf@
    }
}

impl<'buf> Packet<'buf> {
    #[verifier::type_invariant]
    spec fn well_formed(self) -> bool {
        is_packet(self.buf@)
    }

    /// Tests the first byte of a packet.
    pub fn is_sync_byte(b: u8) -> (r: bool)
        ensures
            r == (b == SYNC_BYTE),
    {
        b == SYNC_BYTE
    }

    /// Wraps the bytes of one packet.
    pub fn new(buf: &'buf [u8]) -> (pk: Packet<'buf>)
        requires
            is_packet(buf@),
        ensures
            pk@ == buf@,
    {
        Packet { buf }
    }

    /// The bytes of the packet, header included.
    pub fn bytes(&self) -> (r: &'buf [u8])
        ensures
            r@ == self@,
            is_packet(self@),
    {
        proof {
            use_type_invariant(self);
        }
        self.buf
    }

    pub fn pid(&self) -> (r: u16)
        ensures
            r == pid_of(self@),
            r < 0x2000,
    {
        proof {
            use_type_invariant(self);
            lemma_pid_in_range(self@);
        }
        (u16::from(self.buf[1] & 0b0001_1111) << 8) | u16::from(self.buf[2])
    }

    pub fn payload_unit_start_indicator(&self) -> (r: bool)
        ensures
            r == starts_unit(self@),
    {
        proof {
            use_type_invariant(self);
        }
        self.buf[1] & 0b0100_0000 != 0
    }

    pub fn adaptation_control(&self) -> (r: AdaptationControl)
        ensures
            r == adaptation_of(self@),
    {
        proof {
            use_type_invariant(self);
        }
        let bits: u8 = (self.buf[3] >> 4) & 0b11;
        if bits == 0 {
            AdaptationControl::Reserved
        } else if bits == 1 {
            AdaptationControl::PayloadOnly
        } else if bits == 2 {
            AdaptationControl::AdaptationFieldOnly
        } else {
            AdaptationControl::AdaptationFieldAndPayload
        }
    }

    pub fn continuity_counter(&self) -> (r: u8)
        ensures
            r == counter_of(self@),
    {
        proof {
            use_type_invariant(self);
        }
        self.buf[3] & 0b0000_1111
    }

    /// The payload of the packet: `None` where the header announces none, or
    /// where the adaptation field leaves no room for one.
    pub fn payload(&self) -> (r: Option<&'buf [u8]>)
        ensures
            is_packet(self@),
            r is Some == payload_of(self@) is Some,
            r matches Some(p) ==> p@ == payload_of(self@)->0,
    {
        proof {
            use_type_invariant(self);
        }
        match self.adaptation_control() {
            AdaptationControl::Reserved | AdaptationControl::AdaptationFieldOnly => None,
            AdaptationControl::PayloadOnly => Some(&self.buf[FIXED_HEADER_SIZE..PACKET_SIZE]),
            AdaptationControl::AdaptationFieldAndPayload => {
                let offset: usize = FIXED_HEADER_SIZE + 1 + self.buf[4] as usize;
                if offset < PACKET_SIZE {
                    Some(&self.buf[offset..PACKET_SIZE])
                } else {
                    None
                }
            },
        }
    }
}

} // verus!
