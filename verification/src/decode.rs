//! Pure instruction decoding: a two-byte big-endian opcode word is split into
//! its four nibbles and the two composite views (a 12-bit address and an
//! 8-bit immediate). Both the execution engine and the disassembler consume
//! this one decode artifact, so the two can never disagree on field layout.
use vstd::prelude::*;

verus! {

/// The decoded form of one opcode word: `group` selects the instruction
/// family, `x` and `y` are register indices, `n` the low nibble, `address`
/// the 12-bit operand and `immediate` the low byte.
#[derive(Clone, Copy, PartialEq, Eq, Structural, Debug)]
pub struct Instruction {
    pub group: u8,
    pub x: u8,
    pub y: u8,
    pub n: u8,
    pub address: u16,
    pub immediate: u8,
}

/// Top nibble of the high byte: the instruction family.
pub open spec fn spec_group(b1: u8) -> u8 {
    b1 >> 4
}

/// Low nibble of the high byte: the first register index.
pub open spec fn spec_x(b1: u8) -> u8 {
    b1 & 0x0F
}

/// Top nibble of the low byte: the second register index.
pub open spec fn spec_y(b2: u8) -> u8 {
    b2 >> 4
}

/// Low nibble of the low byte.
pub open spec fn spec_n(b2: u8) -> u8 {
    b2 & 0x0F
}

/// The 12-bit address operand: `x`'s bits prefixed onto the low byte.
pub open spec fn spec_address(b1: u8, b2: u8) -> u16 {
    (((b1 & 0x0F) as u16) << 8) | (b2 as u16)
}

/// The decoded descriptor as a function of the two opcode bytes.
pub open spec fn spec_decode(b1: u8, b2: u8) -> Instruction {
    Instruction {
        group: spec_group(b1),
        x: spec_x(b1),
        y: spec_y(b2),
        n: spec_n(b2),
        address: spec_address(b1, b2),
        immediate: b2,
    }
}

/// The full 16-bit opcode word, high byte first.
pub open spec fn spec_opcode(b1: u8, b2: u8) -> u16 {
    ((b1 as u16) << 8) | (b2 as u16)
}

/// Decode a two-byte big-endian opcode word into its fields. Pure and
/// deterministic: the result is exactly `spec_decode(b1, b2)`.
pub fn decode(b1: u8, b2: u8) -> (ins: Instruction)
    ensures
        ins == spec_decode(b1, b2),
        ins.group < 16,
        ins.x < 16,
        ins.y < 16,
        ins.n < 16,
        ins.address < 0x1000,
        ins.immediate == b2,
{
    let group: u8 = b1 >> 4;
    let x: u8 = b1 & 0x0F;
    let y: u8 = b2 >> 4;
    let n: u8 = b2 & 0x0F;
    let address: u16 = ((x as u16) << 8) | (b2 as u16);
    let immediate: u8 = (y << 4) | n;
    proof {
        assert((b1 >> 4) < 16 && (b1 & 0x0F) < 16 && (b2 >> 4) < 16 && (b2 & 0x0F) < 16)
            by (bit_vector);
        assert((((b1 & 0x0F) as u16) << 8) | (b2 as u16) < 0x1000) by (bit_vector);
        assert(((b2 >> 4) << 4) | (b2 & 0x0F) == b2) by (bit_vector);
    }
    Instruction { group, x, y, n, address, immediate }
}

/// Reassemble the 16-bit opcode word from its two bytes.
pub fn opcode_word(b1: u8, b2: u8) -> (w: u16)
    ensures
        w == spec_opcode(b1, b2),
{
    ((b1 as u16) << 8) | (b2 as u16)
}

} // verus!
