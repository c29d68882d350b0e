//! Decoding of a 16-bit instruction word into its nibbles and operands.

use vstd::prelude::*;

verus! {

/// The opcode class: the topmost nibble.
pub open spec fn class_of(op: u16) -> u16 {
    (op & 0xF000) >> 12
}

/// The register index X: the second nibble.
pub open spec fn x_of(op: u16) -> u16 {
    (op & 0x0F00) >> 8
}

/// The register index Y: the third nibble.
pub open spec fn y_of(op: u16) -> u16 {
    (op & 0x00F0) >> 4
}

/// The immediate nibble N: the lowest nibble.
pub open spec fn n_of(op: u16) -> u16 {
    op & 0x000F
}

/// The immediate byte NN: the low byte.
pub open spec fn nn_of(op: u16) -> u16 {
    op & 0x00FF
}

/// The address NNN: the low twelve bits.
pub open spec fn nnn_of(op: u16) -> u16 {
    op & 0x0FFF
}

/// An opcode whose effect draws on a random byte.
pub open spec fn is_random(op: u16) -> bool {
    class_of(op) == 0xC
}

/// Ranges of the decoded pieces of an instruction word.
pub proof fn lemma_operand_bounds(op: u16)
    ensures
        class_of(op) < 16,
        x_of(op) < 16,
        y_of(op) < 16,
        n_of(op) < 16,
        nn_of(op) < 256,
        nnn_of(op) < 4096,
{
    assert((op & 0xF000) >> 12 < 16) by (bit_vector);
    assert((op & 0x0F00) >> 8 < 16) by (bit_vector);
    assert((op & 0x00F0) >> 4 < 16) by (bit_vector);
    assert(op & 0x000F < 16) by (bit_vector);
    assert(op & 0x00FF < 256) by (bit_vector);
    assert(op & 0x0FFF < 4096) by (bit_vector);
}

} // verus!
