//! Decoding of the fixed-length reports that the device sends.

use vstd::prelude::*;
use crate::config::BUTTON_LEN;
use crate::error::EngineError;

verus! {

/// Length in bytes of one report.
pub const PACKET_LENGTH: usize = 5;

/// One decoded report: the button flags and the three raw axis readings.
#[derive(Debug, Copy, Clone, PartialEq, Eq)]
pub struct Packet {
    pub buttons: [bool; BUTTON_LEN],
    pub x_axis: u8,
    pub y_axis: u8,
    pub z_axis: u8,
}

/// Value of the bit at `index` of a byte, for `index` in 0..8.
pub open spec fn bit_weight(index: int) -> int {
    if index <= 0 {
        1
    } else if index == 1 {
        2
    } else if index == 2 {
        4
    } else if index == 3 {
        8
    } else if index == 4 {
        16
    } else if index == 5 {
        32
    } else if index == 6 {
        64
    } else {
        128
    }
}

/// Whether the bit at `index` of `byte` is set.
pub open spec fn bit(byte: u8, index: int) -> bool {
    (byte as int / bit_weight(index)) % 2 == 1
}

/// The button flags that the two trailing bytes of a report hold: button
/// `i + 1` is bit `i` of `low` for the first eight slots, and bit `i - 8` of
/// `high` for the last three.
pub open spec fn button_flags(low: u8, high: u8) -> Seq<bool> {
    Seq::new(
        BUTTON_LEN as nat,
        |i: int|
            if i < 8 {
                bit(low, i)
            } else {
                bit(high, i - 8)
            },
    )
}

/// Number of whole reports that lie back to back in `len` bytes.
pub open spec fn report_count(len: int) -> int {
    len / (PACKET_LENGTH as int)
}

/// The bytes of the report at position `index` of a buffer.
pub open spec fn report_bytes(data: Seq<u8>, index: int) -> Seq<u8> {
    data.subrange(index * PACKET_LENGTH as int, index * PACKET_LENGTH as int + PACKET_LENGTH as int)
}

proof fn lemma_mask_is_bit(byte: u8, index: u8)
    requires
        index < 8,
    ensures
        (byte & (1u8 << index) != 0) == bit(byte, index as int),
{
    if index == 0 {
        assert((byte & (1u8 << 0u8) != 0) == ((byte / 1u8) % 2u8 == 1u8)) by (bit_vector);
    } else if index == 1 {
        assert((byte & (1u8 << 1u8) != 0) == ((byte / 2u8) % 2u8 == 1u8)) by (bit_vector);
    } else if index == 2 {
        assert((byte & (1u8 << 2u8) != 0) == ((byte / 4u8) % 2u8 == 1u8)) by (bit_vector);
    } else if index == 3 {
        assert((byte & (1u8 << 3u8) != 0) == ((byte / 8u8) % 2u8 == 1u8)) by (bit_vector);
    } else if index == 4 {
        assert((byte & (1u8 << 4u8) != 0) == ((byte / 16u8) % 2u8 == 1u8)) by (bit_vector);
    } else if index == 5 {
        assert((byte & (1u8 << 5u8) != 0) == ((byte / 32u8) % 2u8 == 1u8)) by (bit_vector);
    } else if index == 6 {
        assert((byte & (1u8 << 6u8) != 0) == ((byte / 64u8) % 2u8 == 1u8)) by (bit_vector);
    } else {
        assert((byte & (1u8 << 7u8) != 0) == ((byte / 128u8) % 2u8 == 1u8)) by (bit_vector);
    }
}

fn mask_set(byte: u8, index: u8) -> (r: bool)
    requires
        index < 8,
    ensures
        r == bit(byte, index as int),
{
    proof {
        lemma_mask_is_bit(byte, index);
    }
    byte & (1u8 << index) != 0
}

impl Packet {
    /// Whether the packet is what the five bytes of one report say: the axes
    /// are the first three bytes, the buttons are the bits of the last two.
    pub open spec fn decodes(&self, bytes: Seq<u8>) -> bool {
        &&& bytes.len() == PACKET_LENGTH
        &&& self.x_axis == bytes[0]
        &&& self.y_axis == bytes[1]
        &&& self.z_axis == bytes[2]
        &&& self.buttons@ == button_flags(bytes[3], bytes[4])
    }

    /// Decodes one report. A buffer of any other length than one report is
    /// refused.
    pub fn parse(b: &[u8]) -> (r: Result<Packet, EngineError>)
        ensures
            b@.len() == PACKET_LENGTH <==> r is Ok,
            r matches Ok(p) ==> p.decodes(b@),
            r matches Err(e) ==> e == EngineError::MalformedPacket,
    {
        if b.len() != PACKET_LENGTH {
            return Err(EngineError::MalformedPacket);
        }
        let bb1: u8 = b[3];
        let bb2: u8 = b[4];
        let packet = Packet {
            buttons: [
                mask_set(bb1, 0),
                mask_set(bb1, 1),
                mask_set(bb1, 2),
                mask_set(bb1, 3),
                mask_set(bb1, 4),
                mask_set(bb1, 5),
                mask_set(bb1, 6),
                mask_set(bb1, 7),
                mask_set(bb2, 0),
                mask_set(bb2, 1),
                mask_set(bb2, 2),
            ],
            x_axis: b[0],
            y_axis: b[1],
            z_axis: b[2],
        };
        assert(packet.buttons@ =~= button_flags(bb1, bb2));
        Ok(packet)
    }
}

} // verus!
