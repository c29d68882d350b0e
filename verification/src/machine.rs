//! The mathematical view of a CHIP-8 machine.
//!
//! `MachineState` mirrors the engine's fields with sequences in place of
//! arrays; every contract in this crate speaks of values of this type.

use vstd::prelude::*;

verus! {

/// Address at which a loaded program begins, and the initial program counter
/// after a load.
pub const PROGRAM_START: u16 = 0x200;

/// Number of return addresses the call stack can hold.
pub const STACK_SIZE: usize = 16;

/// Number of general-purpose registers.
pub const NUMBER_OF_REGISTERS: usize = 16;

/// Bytes of addressable memory.
pub const MEMORY_SIZE: usize = 4096;

/// Framebuffer width in pixels.
pub const SCREEN_WIDTH: usize = 64;

/// Framebuffer height in pixels.
pub const SCREEN_HEIGHT: usize = 32;

/// Number of pixels in the row-major framebuffer.
pub const SCREEN_SIZE: usize = 2048;

/// Number of keys on the keypad.
pub const NUMBER_OF_KEYS: usize = 16;

/// Bytes occupied by the built-in font sprites.
pub const FONTSET_SIZE: usize = 80;

/// The built-in font: one 5-byte sprite for each hexadecimal digit,
/// installed at memory offset 0 by construction and by `reset`.
pub const FONTSET: [u8; 80] = [
    0xF0, 0x90, 0x90, 0x90, 0xF0, // 0
    0x20, 0x60, 0x20, 0x20, 0x70, // 1
    0xF0, 0x10, 0xF0, 0x80, 0xF0, // 2
    0xF0, 0x10, 0xF0, 0x10, 0xF0, // 3
    0x90, 0x90, 0xF0, 0x10, 0x10, // 4
    0xF0, 0x80, 0xF0, 0x10, 0xF0, // 5
    0xF0, 0x80, 0xF0, 0x90, 0xF0, // 6
    0xF0, 0x10, 0x20, 0x40, 0x40, // 7
    0xF0, 0x90, 0xF0, 0x90, 0xF0, // 8
    0xF0, 0x90, 0xF0, 0x10, 0xF0, // 9
    0xF0, 0x90, 0xF0, 0x90, 0x90, // A
    0xE0, 0x90, 0xE0, 0x90, 0xE0, // B
    0xF0, 0x80, 0x80, 0x80, 0xF0, // C
    0xE0, 0x90, 0x90, 0x90, 0xE0, // D
    0xF0, 0x80, 0xF0, 0x80, 0xF0, // E
    0xF0, 0x80, 0xF0, 0x80, 0x80, // F
];

/// The font sprite bytes as a sequence.
pub open spec fn font_seq() -> Seq<u8> {
    FONTSET@
}

/// The whole machine state as mathematical values: the view of both engine
/// types, and the domain of every transition function.
#[verifier::ext_equal]
pub ghost struct MachineState {
    pub program_counter: u16,
    pub index_register: u16,
    pub stack_pointer: u8,
    pub stack: Seq<u16>,
    pub registers: Seq<u8>,
    pub memory: Seq<u8>,
    pub delay_timer: u8,
    pub sound_timer: u8,
    /// Row-major: the pixel at (row, col) is index row * 64 + col.
    pub screen: Seq<bool>,
    pub keys: Seq<bool>,
}

/// Well-formedness: the fixed sizes of the machine, and a stack pointer that
/// stays within the sixteen stack slots.
pub open spec fn wf(s: MachineState) -> bool {
    &&& s.stack.len() == STACK_SIZE
    &&& s.registers.len() == NUMBER_OF_REGISTERS
    &&& s.memory.len() == MEMORY_SIZE
    &&& s.screen.len() == SCREEN_SIZE
    &&& s.keys.len() == NUMBER_OF_KEYS
    &&& s.stack_pointer <= STACK_SIZE
}

/// The state right after construction or a reset: everything zeroed, the
/// font installed in the first eighty bytes of memory.
pub open spec fn is_fresh(s: MachineState) -> bool {
    &&& wf(s)
    &&& s.program_counter == 0
    &&& s.index_register == 0
    &&& s.stack_pointer == 0
    &&& s.delay_timer == 0
    &&& s.sound_timer == 0
    &&& forall|i: int| 0 <= i < STACK_SIZE ==> s.stack[i] == 0
    &&& forall|i: int| 0 <= i < NUMBER_OF_REGISTERS ==> s.registers[i] == 0
    &&& forall|i: int| 0 <= i < FONTSET_SIZE ==> s.memory[i] == font_seq()[i]
    &&& forall|i: int| FONTSET_SIZE <= i < MEMORY_SIZE ==> s.memory[i] == 0
    &&& forall|i: int| 0 <= i < SCREEN_SIZE ==> !s.screen[i]
    &&& forall|i: int| 0 <= i < NUMBER_OF_KEYS ==> !s.keys[i]
}

/// Law: a reset machine is byte-identical to a freshly constructed one.
/// Any two states that satisfy `is_fresh` — the postcondition of both the
/// constructors and the resets — are one and the same state.
pub proof fn lemma_fresh_state_unique(a: MachineState, b: MachineState)
    requires
        is_fresh(a),
        is_fresh(b),
    ensures
        a == b,
{
    assert(a.stack =~= b.stack);
    assert(a.registers =~= b.registers);
    assert(a.memory =~= b.memory);
    assert(a.screen =~= b.screen);
    assert(a.keys =~= b.keys);
    assert(a =~= b);
}

/// Memory with all 4096 bytes zero except the font in the first eighty.
pub(crate) fn fresh_memory() -> (r: [u8; 4096])
    ensures
        forall|i: int| 0 <= i < FONTSET_SIZE ==> r@[i] == font_seq()[i],
        forall|i: int| FONTSET_SIZE <= i < MEMORY_SIZE ==> r@[i] == 0,
{
    let mut memory = [0u8; 4096];
    let mut i: usize = 0;
    while i < 80
        invariant
            i <= 80,
            forall|j: int| 0 <= j < i ==> memory@[j] == font_seq()[j],
            forall|j: int| i <= j < MEMORY_SIZE ==> memory@[j] == 0,
        decreases 80 - i,
    {
        memory[i] = FONTSET[i];
        i = i + 1;
    }
    memory
}

} // verus!
