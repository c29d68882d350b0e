//! Transition functions: what each opcode does to a `MachineState`.
//!
//! Every executable engine method is specified as equality with one of these
//! functions; the dispatchers (`step_full`, `step_basic`) give the meaning of
//! a whole instruction word, including the conditions under which execution
//! reports an error and leaves the state untouched.

use vstd::prelude::*;

use crate::machine::MachineState;
use crate::machine::wf;
use crate::opcode::class_of;
use crate::opcode::lemma_operand_bounds;
use crate::opcode::n_of;
use crate::opcode::nn_of;
use crate::opcode::nnn_of;
use crate::opcode::x_of;
use crate::opcode::y_of;
use crate::Chip8Error;

verus! {

/// The register named by the X nibble.
pub open spec fn vx(s: MachineState, op: u16) -> u8 {
    s.registers[x_of(op) as int]
}

/// The register named by the Y nibble.
pub open spec fn vy(s: MachineState, op: u16) -> u8 {
    s.registers[y_of(op) as int]
}

/// The immediate byte NN as a register-sized value.
pub open spec fn nn8(op: u16) -> u8 {
    (op & 0x00FF) as u8
}

/// Addition of two register values, modulo 256.
pub open spec fn wrap_add_u8(a: u8, b: u8) -> u8 {
    if a + b < 256 {
        (a + b) as u8
    } else {
        (a + b - 256) as u8
    }
}

/// Subtraction of two register values, modulo 256.
pub open spec fn wrap_sub_u8(a: u8, b: u8) -> u8 {
    if a >= b {
        (a - b) as u8
    } else {
        (a + 256 - b) as u8
    }
}

/// Addition of two index-register values, modulo 65536.
pub open spec fn wrap_add_u16(a: u16, b: u16) -> u16 {
    if a + b < 0x10000 {
        (a + b) as u16
    } else {
        (a + b - 0x10000) as u16
    }
}

/// The big-endian instruction word held at memory address `a`.
pub open spec fn word_at(s: MachineState, a: int) -> u16 {
    (s.memory[a] * 256 + s.memory[a + 1]) as u16
}

// ---------------------------------------------------------------------------
// One transition function per opcode.
// ---------------------------------------------------------------------------

/// `0x00E0`: every framebuffer cell goes dark.
pub open spec fn spec_cls(s: MachineState) -> MachineState {
    MachineState { screen: Seq::new(2048, |i: int| false), ..s }
}

/// `0x00EE`: pop the program counter from the stack.
pub open spec fn spec_ret(s: MachineState) -> MachineState {
    MachineState {
        program_counter: s.stack[s.stack_pointer - 1],
        stack_pointer: (s.stack_pointer - 1) as u8,
        ..s
    }
}

/// `0x1NNN`: jump.
pub open spec fn spec_jp_to_addr(s: MachineState, op: u16) -> MachineState {
    MachineState { program_counter: nnn_of(op), ..s }
}

/// `0x2NNN`: push the current program counter, then jump.
pub open spec fn spec_call_at_addr(s: MachineState, op: u16) -> MachineState {
    MachineState {
        stack: s.stack.update(s.stack_pointer as int, s.program_counter),
        stack_pointer: (s.stack_pointer + 1) as u8,
        program_counter: nnn_of(op),
        ..s
    }
}

/// Advance past the next instruction.
pub open spec fn spec_skip(s: MachineState) -> MachineState {
    MachineState { program_counter: (s.program_counter + 2) as u16, ..s }
}

/// `0x6XNN`: Vx = NN.
pub open spec fn spec_ld_vx_with_byte(s: MachineState, op: u16) -> MachineState {
    MachineState { registers: s.registers.update(x_of(op) as int, nn8(op)), ..s }
}

/// `0x7XNN`: Vx = Vx + NN, wrapping.
pub open spec fn spec_add_vx_with_byte(s: MachineState, op: u16) -> MachineState {
    MachineState {
        registers: s.registers.update(x_of(op) as int, wrap_add_u8(vx(s, op), nn8(op))),
        ..s
    }
}

/// `0x8XY0`: Vx = Vy.
pub open spec fn spec_ld_vx_with_vy(s: MachineState, op: u16) -> MachineState {
    MachineState { registers: s.registers.update(x_of(op) as int, vy(s, op)), ..s }
}

/// `0x8XY1`: Vx = Vx | Vy.
pub open spec fn spec_or_vx_with_vy(s: MachineState, op: u16) -> MachineState {
    MachineState { registers: s.registers.update(x_of(op) as int, vx(s, op) | vy(s, op)), ..s }
}

/// `0x8XY2`: Vx = Vx & Vy.
pub open spec fn spec_and_vx_with_vy(s: MachineState, op: u16) -> MachineState {
    MachineState { registers: s.registers.update(x_of(op) as int, vx(s, op) & vy(s, op)), ..s }
}

/// `0x8XY3`: Vx = Vx ^ Vy.
pub open spec fn spec_xor_vx_with_vy(s: MachineState, op: u16) -> MachineState {
    MachineState { registers: s.registers.update(x_of(op) as int, vx(s, op) ^ vy(s, op)), ..s }
}

/// `0x8XY4`: Vx = Vx + Vy with the carry in the flag register, written
/// flag first, sum second.
pub open spec fn spec_add_vx_with_vy(s: MachineState, op: u16) -> MachineState {
    let carry: u8 = if vx(s, op) + vy(s, op) > 255 {
        1
    } else {
        0
    };
    let flagged = s.registers.update(0xF, carry);
    MachineState {
        registers: flagged.update(x_of(op) as int, wrap_add_u8(vx(s, op), vy(s, op))),
        ..s
    }
}

/// `0x8XY5`: Vx = Vx - Vy; the flag register is 0 on borrow, else 1,
/// written flag first, difference second.
pub open spec fn spec_sub_vx_with_vy(s: MachineState, op: u16) -> MachineState {
    let no_borrow: u8 = if vx(s, op) < vy(s, op) {
        0
    } else {
        1
    };
    let flagged = s.registers.update(0xF, no_borrow);
    MachineState {
        registers: flagged.update(x_of(op) as int, wrap_sub_u8(vx(s, op), vy(s, op))),
        ..s
    }
}

/// `0x8XY6`: the flag register takes Vx's lowest bit, then Vx shifts right
/// once. The shift reads the register after the flag write, so a flag
/// destination shifts the freshly written flag.
pub open spec fn spec_shr_vx(s: MachineState, op: u16) -> MachineState {
    let flagged = s.registers.update(0xF, vx(s, op) & 1);
    MachineState {
        registers: flagged.update(x_of(op) as int, flagged[x_of(op) as int] >> 1u8),
        ..s
    }
}

/// `0x8XY7`: Vx = Vy - Vx; the flag register is 0 on borrow, else 1.
pub open spec fn spec_subn_vx_with_vy(s: MachineState, op: u16) -> MachineState {
    let no_borrow: u8 = if vy(s, op) < vx(s, op) {
        0
    } else {
        1
    };
    let flagged = s.registers.update(0xF, no_borrow);
    MachineState {
        registers: flagged.update(x_of(op) as int, wrap_sub_u8(vy(s, op), vx(s, op))),
        ..s
    }
}

/// `0x8XYE`: the flag register takes Vx's highest bit, then Vx shifts left
/// once, wrapping. As with the right shift, the register is read again
/// after the flag write.
pub open spec fn spec_shl_vx(s: MachineState, op: u16) -> MachineState {
    let flagged = s.registers.update(0xF, (vx(s, op) >> 7u8) & 1);
    MachineState {
        registers: flagged.update(x_of(op) as int, flagged[x_of(op) as int] << 1u8),
        ..s
    }
}

/// `0xANNN`: the index register takes the address NNN.
pub open spec fn spec_ld_i_with_addr(s: MachineState, op: u16) -> MachineState {
    MachineState { index_register: nnn_of(op), ..s }
}

/// `0xBNNN`: jump to NNN plus register zero.
pub open spec fn spec_jp_to_v0_plus_addr(s: MachineState, op: u16) -> MachineState {
    MachineState { program_counter: (nnn_of(op) + s.registers[0]) as u16, ..s }
}

/// `0xCXNN`: Vx takes a drawn byte masked with NN.
pub open spec fn spec_rnd(s: MachineState, op: u16, drawn: u8) -> MachineState {
    MachineState { registers: s.registers.update(x_of(op) as int, drawn & nn8(op)), ..s }
}

/// `0xEX9E` / `0xEXA1` condition: whether the key named by Vx is down.
pub open spec fn key_down(s: MachineState, op: u16) -> bool {
    s.keys[vx(s, op) as int]
}

/// `0xFX07`: Vx takes the delay timer.
pub open spec fn spec_ld_vx_with_dt(s: MachineState, op: u16) -> MachineState {
    MachineState { registers: s.registers.update(x_of(op) as int, s.delay_timer), ..s }
}

/// The lowest pressed key index, or 16 when none is pressed, scanning
/// upward from `i`.
pub open spec fn first_key(keys: Seq<bool>, i: int) -> int
    decreases 16 - i,
{
    if i < 0 || i >= 16 {
        16
    } else if keys[i] {
        i
    } else {
        first_key(keys, i + 1)
    }
}

/// `0xFX0A` when some key is down: Vx takes the lowest pressed key index.
pub open spec fn spec_ld_vx_with_key(s: MachineState, op: u16) -> MachineState {
    MachineState {
        registers: s.registers.update(x_of(op) as int, first_key(s.keys, 0) as u8),
        ..s
    }
}

/// `0xFX0A` when no key is down: rewind the program counter so the same
/// instruction runs again on the next tick.
pub open spec fn spec_key_rewind(s: MachineState) -> MachineState {
    MachineState { program_counter: (s.program_counter - 2) as u16, ..s }
}

/// `0xFX15`: the delay timer takes Vx.
pub open spec fn spec_ld_dt_with_vx(s: MachineState, op: u16) -> MachineState {
    MachineState { delay_timer: vx(s, op), ..s }
}

/// `0xFX18`: the sound timer takes Vx.
pub open spec fn spec_ld_st_with_vx(s: MachineState, op: u16) -> MachineState {
    MachineState { sound_timer: vx(s, op), ..s }
}

/// `0xFX1E`: the index register takes Vx added in, wrapping.
pub open spec fn spec_add_i_with_vx(s: MachineState, op: u16) -> MachineState {
    MachineState { index_register: wrap_add_u16(s.index_register, vx(s, op) as u16), ..s }
}

/// `0xFX29`: the index register takes the font glyph address Vx * 5.
pub open spec fn spec_ld_i_with_font_address(s: MachineState, op: u16) -> MachineState {
    MachineState { index_register: (vx(s, op) * 5) as u16, ..s }
}

/// `0xFX33`: the decimal digits of Vx — hundreds, tens, ones — go to
/// memory at the index register and the two bytes above it.
pub open spec fn spec_ld_bcd(s: MachineState, op: u16) -> MachineState {
    let i = s.index_register as int;
    let v = vx(s, op) as int;
    MachineState {
        memory: s.memory.update(i, (v / 100) as u8).update(i + 1, ((v / 10) % 10) as u8).update(
            i + 2,
            (v % 10) as u8,
        ),
        ..s
    }
}

/// `0xFX55`: registers V0 through Vx go to memory at the index register.
pub open spec fn spec_ld_mem_with_registers(s: MachineState, op: u16) -> MachineState {
    let i = s.index_register as int;
    let x = x_of(op) as int;
    MachineState {
        memory: Seq::new(
            4096,
            |j: int|
                if i <= j <= i + x {
                    s.registers[j - i]
                } else {
                    s.memory[j]
                },
        ),
        ..s
    }
}

/// `0xFX65`: registers V0 through Vx take memory at the index register.
pub open spec fn spec_ld_registers_with_mem(s: MachineState, op: u16) -> MachineState {
    let i = s.index_register as int;
    let x = x_of(op) as int;
    MachineState {
        registers: Seq::new(
            16,
            |j: int|
                if 0 <= j <= x {
                    s.memory[i + j]
                } else {
                    s.registers[j]
                },
        ),
        ..s
    }
}

// ---------------------------------------------------------------------------
// Sprite drawing.
// ---------------------------------------------------------------------------

/// The framebuffer index of the pixel at (row, col).
pub open spec fn pix(row: int, col: int) -> int {
    row * 64 + col
}

/// Whether bit `dx` of a sprite byte is set, most significant bit first.
pub open spec fn sprite_bit(byte: u8, dx: int) -> bool {
    byte & (0x80u8 >> (dx as u8)) != 0
}

/// The sprite byte for row `dy`: memory at the index register plus `dy`.
pub open spec fn sprite_row(s: MachineState, dy: int) -> u8 {
    s.memory[s.index_register + dy]
}

/// The framebuffer index that sprite position (dy, dx) lands on; both
/// coordinates wrap around the screen edges.
pub open spec fn draw_target(s: MachineState, op: u16, dy: int, dx: int) -> int {
    pix((vy(s, op) + dy) % 32, (vx(s, op) + dx) % 64)
}

/// Lexicographic order on sprite positions: all of the earlier rows, then
/// the earlier bits of the current row.
pub open spec fn lex_before(dy: int, dx: int, ry: int, rx: int) -> bool {
    dy < ry || (dy == ry && dx < rx)
}

/// Whether pixel `p` is toggled by some sprite position before (ry, rx).
pub open spec fn toggled_before(s: MachineState, op: u16, ry: int, rx: int, p: int) -> bool {
    exists|dy: int, dx: int|
        0 <= dy && 0 <= dx < 8 && lex_before(dy, dx, ry, rx) && sprite_bit(sprite_row(s, dy), dx)
            && p == #[trigger] draw_target(s, op, dy, dx)
}

/// Whether some sprite position before (ry, rx) lands on a lit pixel.
pub open spec fn collided_before(s: MachineState, op: u16, ry: int, rx: int) -> bool {
    exists|dy: int, dx: int|
        0 <= dy && 0 <= dx < 8 && lex_before(dy, dx, ry, rx) && sprite_bit(sprite_row(s, dy), dx)
            && s.screen[#[trigger] draw_target(s, op, dy, dx)]
}

/// `0xDXYN`: XOR the N-row sprite at memory[index..] onto the screen at
/// (Vx, Vy), wrapping at the edges; the flag register reports whether any
/// pixel went from lit to unlit.
pub open spec fn spec_draw(s: MachineState, op: u16) -> MachineState {
    let n = n_of(op) as int;
    let flag: u8 = if collided_before(s, op, n, 0) {
        1
    } else {
        0
    };
    MachineState {
        screen: Seq::new(2048, |p: int| s.screen[p] != toggled_before(s, op, n, 0, p)),
        registers: s.registers.update(0xF, flag),
        ..s
    }
}

/// Two distinct offsets within one modulus step land on distinct residues.
pub proof fn lemma_mod_distinct(a: int, d1: int, d2: int, m: int)
    requires
        0 <= a,
        0 <= d1 < d2,
        d2 - d1 < m,
        0 < m,
    ensures
        (a + d1) % m != (a + d2) % m,
{
    let x1 = a + d1;
    let x2 = a + d2;
    vstd::arithmetic::div_mod::lemma_fundamental_div_mod(x1, m);
    vstd::arithmetic::div_mod::lemma_fundamental_div_mod(x2, m);
    if x1 % m == x2 % m {
        let q1 = x1 / m;
        let q2 = x2 / m;
        assert(x2 - x1 == m * (q2 - q1)) by (nonlinear_arith)
            requires
                x1 == m * q1 + x1 % m,
                x2 == m * q2 + x2 % m,
                x1 % m == x2 % m,
        ;
        assert(false) by (nonlinear_arith)
            requires
                x2 - x1 == m * (q2 - q1),
                0 < x2 - x1 < m,
        ;
    }
}

/// Every sprite position lands inside the framebuffer.
pub proof fn lemma_target_in_range(s: MachineState, op: u16, dy: int, dx: int)
    requires
        0 <= dy,
        0 <= dx,
    ensures
        0 <= draw_target(s, op, dy, dx) < 2048,
{
    vstd::arithmetic::div_mod::lemma_mod_division_less_than_divisor(vy(s, op) + dy, 32);
    vstd::arithmetic::div_mod::lemma_mod_division_less_than_divisor(vx(s, op) + dx, 64);
}

/// Distinct positions of one sprite land on distinct pixels: the row
/// offsets stay below the screen height and the bit offsets below the
/// byte width, so neither coordinate can wrap onto another position.
pub proof fn lemma_target_injective(
    s: MachineState,
    op: u16,
    dy1: int,
    dx1: int,
    dy2: int,
    dx2: int,
)
    requires
        0 <= dy1 < 16,
        0 <= dx1 < 8,
        0 <= dy2 < 16,
        0 <= dx2 < 8,
        dy1 != dy2 || dx1 != dx2,
    ensures
        draw_target(s, op, dy1, dx1) != draw_target(s, op, dy2, dx2),
{
    let y0 = vy(s, op) as int;
    let x0 = vx(s, op) as int;
    vstd::arithmetic::div_mod::lemma_mod_division_less_than_divisor(y0 + dy1, 32);
    vstd::arithmetic::div_mod::lemma_mod_division_less_than_divisor(y0 + dy2, 32);
    vstd::arithmetic::div_mod::lemma_mod_division_less_than_divisor(x0 + dx1, 64);
    vstd::arithmetic::div_mod::lemma_mod_division_less_than_divisor(x0 + dx2, 64);
    if dy1 != dy2 {
        if dy1 < dy2 {
            lemma_mod_distinct(y0, dy1, dy2, 32);
        } else {
            lemma_mod_distinct(y0, dy2, dy1, 32);
        }
    } else {
        if dx1 < dx2 {
            lemma_mod_distinct(x0, dx1, dx2, 64);
        } else {
            lemma_mod_distinct(x0, dx2, dx1, 64);
        }
    }
}

// ---------------------------------------------------------------------------
// Whole-instruction dispatch.
// ---------------------------------------------------------------------------

/// A conditional skip: errors when the skip is taken but the program
/// counter has no room to advance.
pub open spec fn skip_result(s: MachineState, cond: bool) -> Result<MachineState, Chip8Error> {
    if cond {
        if s.program_counter + 2 > 0xFFFF {
            Err(Chip8Error::ProgramCounterOutOfRange)
        } else {
            Ok(spec_skip(s))
        }
    } else {
        Ok(s)
    }
}

/// `0x00EE` in full: errors on an empty stack.
pub open spec fn ret_result(s: MachineState) -> Result<MachineState, Chip8Error> {
    if s.stack_pointer == 0 {
        Err(Chip8Error::StackUnderflow)
    } else {
        Ok(spec_ret(s))
    }
}

/// `0x2NNN` in full: errors with all sixteen stack slots in use.
pub open spec fn call_result(s: MachineState, op: u16) -> Result<MachineState, Chip8Error> {
    if s.stack_pointer >= 16 {
        Err(Chip8Error::StackOverflow)
    } else {
        Ok(spec_call_at_addr(s, op))
    }
}

/// `0xEX9E` / `0xEXA1` in full: errors when Vx names no key; otherwise a
/// skip on whether the key's state matches `want_down`.
pub open spec fn key_skip_result(s: MachineState, op: u16, want_down: bool) -> Result<
    MachineState,
    Chip8Error,
> {
    if vx(s, op) >= 16 {
        Err(Chip8Error::KeyOutOfRange)
    } else {
        skip_result(s, key_down(s, op) == want_down)
    }
}

/// `0xDXYN` in full: errors when a sprite row would be read at or beyond
/// the end of memory.
pub open spec fn draw_result(s: MachineState, op: u16) -> Result<MachineState, Chip8Error> {
    if n_of(op) > 0 && s.index_register + n_of(op) > 4096 {
        Err(Chip8Error::AddressOutOfRange)
    } else {
        Ok(spec_draw(s, op))
    }
}

/// `0xFX33` in full: errors when one of the three digit bytes would land
/// at or beyond the end of memory.
pub open spec fn bcd_result(s: MachineState, op: u16) -> Result<MachineState, Chip8Error> {
    if s.index_register + 2 >= 4096 {
        Err(Chip8Error::AddressOutOfRange)
    } else {
        Ok(spec_ld_bcd(s, op))
    }
}

/// `0xFX55` in full: errors when one of the X + 1 bytes would land at or
/// beyond the end of memory.
pub open spec fn store_regs_result(s: MachineState, op: u16) -> Result<MachineState, Chip8Error> {
    if s.index_register + x_of(op) >= 4096 {
        Err(Chip8Error::AddressOutOfRange)
    } else {
        Ok(spec_ld_mem_with_registers(s, op))
    }
}

/// `0xFX65` in full: errors when one of the X + 1 bytes would be read at
/// or beyond the end of memory.
pub open spec fn load_regs_result(s: MachineState, op: u16) -> Result<MachineState, Chip8Error> {
    if s.index_register + x_of(op) >= 4096 {
        Err(Chip8Error::AddressOutOfRange)
    } else {
        Ok(spec_ld_registers_with_mem(s, op))
    }
}

/// `0xFX0A` in full: take a key, or rewind, or error when the program
/// counter has no room to rewind.
pub open spec fn key_wait_result(s: MachineState, op: u16) -> Result<MachineState, Chip8Error> {
    if first_key(s.keys, 0) < 16 {
        Ok(spec_ld_vx_with_key(s, op))
    } else if s.program_counter >= 2 {
        Ok(spec_key_rewind(s))
    } else {
        Err(Chip8Error::ProgramCounterOutOfRange)
    }
}

/// Dispatch for opcode classes 0x0 through 0xC, shared by both engine
/// variants. `drawn` is the byte that class 0xC masks.
pub open spec fn step_low(s: MachineState, op: u16, drawn: u8) -> Result<
    MachineState,
    Chip8Error,
> {
    let class = class_of(op);
    if class == 0 {
        if op == 0x0000 {
            Ok(s)
        } else if op == 0x00E0 {
            Ok(spec_cls(s))
        } else if op == 0x00EE {
            ret_result(s)
        } else {
            Err(Chip8Error::UnknownOpcode(op))
        }
    } else if class == 1 {
        Ok(spec_jp_to_addr(s, op))
    } else if class == 2 {
        call_result(s, op)
    } else if class == 3 {
        skip_result(s, vx(s, op) == nn8(op))
    } else if class == 4 {
        skip_result(s, vx(s, op) != nn8(op))
    } else if class == 5 {
        if n_of(op) == 0 {
            skip_result(s, vx(s, op) == vy(s, op))
        } else {
            Err(Chip8Error::UnknownOpcode(op))
        }
    } else if class == 6 {
        Ok(spec_ld_vx_with_byte(s, op))
    } else if class == 7 {
        Ok(spec_add_vx_with_byte(s, op))
    } else if class == 8 {
        let minor = n_of(op);
        if minor == 0 {
            Ok(spec_ld_vx_with_vy(s, op))
        } else if minor == 1 {
            Ok(spec_or_vx_with_vy(s, op))
        } else if minor == 2 {
            Ok(spec_and_vx_with_vy(s, op))
        } else if minor == 3 {
            Ok(spec_xor_vx_with_vy(s, op))
        } else if minor == 4 {
            Ok(spec_add_vx_with_vy(s, op))
        } else if minor == 5 {
            Ok(spec_sub_vx_with_vy(s, op))
        } else if minor == 6 {
            Ok(spec_shr_vx(s, op))
        } else if minor == 7 {
            Ok(spec_subn_vx_with_vy(s, op))
        } else if minor == 0xE {
            Ok(spec_shl_vx(s, op))
        } else {
            Err(Chip8Error::UnknownOpcode(op))
        }
    } else if class == 9 {
        if n_of(op) == 0 {
            skip_result(s, vx(s, op) != vy(s, op))
        } else {
            Err(Chip8Error::UnknownOpcode(op))
        }
    } else if class == 0xA {
        Ok(spec_ld_i_with_addr(s, op))
    } else if class == 0xB {
        Ok(spec_jp_to_v0_plus_addr(s, op))
    } else if class == 0xC {
        Ok(spec_rnd(s, op, drawn))
    } else {
        Err(Chip8Error::UnknownOpcode(op))
    }
}

/// Dispatch for the full instruction set.
pub open spec fn step_full(s: MachineState, op: u16, drawn: u8) -> Result<
    MachineState,
    Chip8Error,
> {
    let class = class_of(op);
    if class <= 0xC {
        step_low(s, op, drawn)
    } else if class == 0xD {
        draw_result(s, op)
    } else if class == 0xE {
        if nn_of(op) == 0x9E {
            key_skip_result(s, op, true)
        } else if nn_of(op) == 0xA1 {
            key_skip_result(s, op, false)
        } else {
            Err(Chip8Error::UnknownOpcode(op))
        }
    } else {
        let minor = nn_of(op);
        if minor == 0x07 {
            Ok(spec_ld_vx_with_dt(s, op))
        } else if minor == 0x0A {
            key_wait_result(s, op)
        } else if minor == 0x15 {
            Ok(spec_ld_dt_with_vx(s, op))
        } else if minor == 0x18 {
            Ok(spec_ld_st_with_vx(s, op))
        } else if minor == 0x1E {
            Ok(spec_add_i_with_vx(s, op))
        } else if minor == 0x29 {
            Ok(spec_ld_i_with_font_address(s, op))
        } else if minor == 0x33 {
            bcd_result(s, op)
        } else if minor == 0x55 {
            store_regs_result(s, op)
        } else if minor == 0x65 {
            load_regs_result(s, op)
        } else {
            Err(Chip8Error::UnknownOpcode(op))
        }
    }
}

/// Dispatch for the reduced variant: classes 0x0 through 0xC act as in
/// `step_low`; the display, key and timer opcodes it recognises leave the
/// state untouched.
pub open spec fn step_basic(s: MachineState, op: u16, drawn: u8) -> Result<
    MachineState,
    Chip8Error,
> {
    let class = class_of(op);
    if class <= 0xC {
        step_low(s, op, drawn)
    } else if class == 0xD {
        Ok(s)
    } else if class == 0xE {
        if nn_of(op) == 0x9E || nn_of(op) == 0xA1 {
            Ok(s)
        } else {
            Err(Chip8Error::UnknownOpcode(op))
        }
    } else {
        let minor = nn_of(op);
        if minor == 0x07 || minor == 0x0A || minor == 0x15 || minor == 0x18 || minor == 0x1E
            || minor == 0x29 || minor == 0x33 || minor == 0x55 || minor == 0x65 {
            Ok(s)
        } else {
            Err(Chip8Error::UnknownOpcode(op))
        }
    }
}

/// How an executed instruction relates a step outcome to the state after
/// the call and the returned value: a successful step yields its state and
/// `Ok`; a failing step leaves the state untouched and yields its error.
pub open spec fn post(
    s: MachineState,
    res: Result<MachineState, Chip8Error>,
    s2: MachineState,
    r: Result<(), Chip8Error>,
) -> bool {
    match res {
        Ok(t) => r is Ok && s2 == t,
        Err(e) => r is Err && r->Err_0 == e && s2 == s,
    }
}

/// `post` specialised to the full instruction set.
pub open spec fn step_post_full(
    s: MachineState,
    op: u16,
    drawn: u8,
    s2: MachineState,
    r: Result<(), Chip8Error>,
) -> bool {
    post(s, step_full(s, op, drawn), s2, r)
}

/// `post` specialised to the reduced instruction set.
pub open spec fn step_post_basic(
    s: MachineState,
    op: u16,
    drawn: u8,
    s2: MachineState,
    r: Result<(), Chip8Error>,
) -> bool {
    post(s, step_basic(s, op, drawn), s2, r)
}

// ---------------------------------------------------------------------------
// The remaining engine operations.
// ---------------------------------------------------------------------------

/// Advancing the program counter past a just-fetched instruction word.
pub open spec fn spec_fetch(s: MachineState) -> MachineState {
    MachineState { program_counter: (s.program_counter + 2) as u16, ..s }
}

/// A whole tick: fetch the word at the program counter, then execute it.
/// With no room to fetch, the state is untouched and the tick errors.
pub open spec fn tick_post(
    s: MachineState,
    drawn: u8,
    s2: MachineState,
    r: Result<(), Chip8Error>,
) -> bool {
    if s.program_counter + 1 >= 4096 {
        s2 == s && r is Err && r->Err_0 == Chip8Error::ProgramCounterOutOfRange
    } else {
        step_post_full(spec_fetch(s), word_at(s, s.program_counter as int), drawn, s2, r)
    }
}

/// Loading a program: its bytes go to memory from 0x200 on, and the
/// program counter goes to 0x200.
pub open spec fn spec_load(s: MachineState, program: Seq<u8>) -> MachineState {
    MachineState {
        memory: Seq::new(
            4096,
            |j: int|
                if 0x200 <= j < 0x200 + program.len() {
                    program[j - 0x200]
                } else {
                    s.memory[j]
                },
        ),
        program_counter: 0x200,
        ..s
    }
}

/// One timer step: each timer above zero comes down by one.
pub open spec fn spec_tick_timers(s: MachineState) -> MachineState {
    MachineState {
        delay_timer: if s.delay_timer > 0 {
            (s.delay_timer - 1) as u8
        } else {
            0
        },
        sound_timer: if s.sound_timer > 0 {
            (s.sound_timer - 1) as u8
        } else {
            0
        },
        ..s
    }
}

/// Setting or clearing one key of the input latch; indices sixteen and
/// above leave the latch untouched.
pub open spec fn spec_keypress(s: MachineState, key: usize, pressed: bool) -> MachineState {
    if key < 16 {
        MachineState { keys: s.keys.update(key as int, pressed), ..s }
    } else {
        s
    }
}

/// A pushed return address: the stack takes it at the stack pointer, which
/// then moves up.
pub open spec fn spec_stack_push(s: MachineState, address: u16) -> MachineState {
    MachineState {
        stack: s.stack.update(s.stack_pointer as int, address),
        stack_pointer: (s.stack_pointer + 1) as u8,
        ..s
    }
}

/// A popped return address: the stack pointer moves down; the slots keep
/// their bytes.
pub open spec fn spec_stack_pop(s: MachineState) -> MachineState {
    MachineState { stack_pointer: (s.stack_pointer - 1) as u8, ..s }
}

/// One byte written to memory.
pub open spec fn spec_mem_write(s: MachineState, address: u16, data: u8) -> MachineState {
    MachineState { memory: s.memory.update(address as int, data), ..s }
}

/// A big-endian word written to memory: high byte first.
pub open spec fn spec_mem_write_16(s: MachineState, address: u16, data: u16) -> MachineState {
    MachineState {
        memory: s.memory.update(address as int, (data >> 8u16) as u8).update(
            address + 1,
            (data & 0xFF) as u8,
        ),
        ..s
    }
}

// ---------------------------------------------------------------------------
// Laws.
// ---------------------------------------------------------------------------

/// `wrap_add_u8` is addition modulo 256.
pub proof fn lemma_wrap_add_is_mod(a: u8, b: u8)
    ensures
        wrap_add_u8(a, b) == (a + b) % 256,
{
    if a + b < 256 {
        vstd::arithmetic::div_mod::lemma_small_mod((a + b) as nat, 256);
    } else {
        vstd::arithmetic::div_mod::lemma_mod_add_multiples_vanish(a + b - 256, 256);
        vstd::arithmetic::div_mod::lemma_small_mod((a + b - 256) as nat, 256);
    }
}

/// `wrap_sub_u8` is subtraction modulo 256.
pub proof fn lemma_wrap_sub_is_mod(a: u8, b: u8)
    ensures
        wrap_sub_u8(a, b) == (a - b) % 256,
{
    if a >= b {
        vstd::arithmetic::div_mod::lemma_small_mod((a - b) as nat, 256);
    } else {
        vstd::arithmetic::div_mod::lemma_mod_add_multiples_vanish(a - b, 256);
        vstd::arithmetic::div_mod::lemma_small_mod((a + 256 - b) as nat, 256);
    }
}

/// Law: the add opcode `0x8XY4` raises the flag register exactly when the
/// unsigned sum of the two operands exceeds 255, and clears it otherwise.
/// Stated for destinations other than the flag register itself, which the
/// result write overwrites.
pub proof fn lemma_add_sets_carry(s: MachineState, op: u16)
    requires
        wf(s),
        class_of(op) == 8,
        n_of(op) == 4,
        x_of(op) != 0xF,
    ensures
        spec_add_vx_with_vy(s, op).registers[0xF] == (if vx(s, op) + vy(s, op) > 255 {
            1u8
        } else {
            0u8
        }),
{
    lemma_operand_bounds(op);
}

/// Law: the add opcode `0x8XY4` leaves the sum modulo 256 in the
/// destination register, whichever register that is.
pub proof fn lemma_add_result_wraps(s: MachineState, op: u16)
    requires
        wf(s),
        class_of(op) == 8,
        n_of(op) == 4,
    ensures
        spec_add_vx_with_vy(s, op).registers[x_of(op) as int] == (vx(s, op) + vy(s, op)) % 256,
{
    lemma_operand_bounds(op);
    lemma_wrap_add_is_mod(vx(s, op), vy(s, op));
}

/// Law: the subtract opcode `0x8XY5` clears the flag register exactly
/// when a borrow occurred — Vx below Vy — and raises it otherwise.
/// Stated for destinations other than the flag register itself, which the
/// result write overwrites.
pub proof fn lemma_sub_sets_borrow(s: MachineState, op: u16)
    requires
        wf(s),
        class_of(op) == 8,
        n_of(op) == 5,
        x_of(op) != 0xF,
    ensures
        spec_sub_vx_with_vy(s, op).registers[0xF] == (if vx(s, op) < vy(s, op) {
            0u8
        } else {
            1u8
        }),
{
    lemma_operand_bounds(op);
}

/// Law: the subtract opcode `0x8XY5` leaves the difference modulo 256 in
/// the destination register, whichever register that is.
pub proof fn lemma_sub_result_wraps(s: MachineState, op: u16)
    requires
        wf(s),
        class_of(op) == 8,
        n_of(op) == 5,
    ensures
        spec_sub_vx_with_vy(s, op).registers[x_of(op) as int] == (vx(s, op) - vy(s, op)) % 256,
{
    lemma_operand_bounds(op);
    lemma_wrap_sub_is_mod(vx(s, op), vy(s, op));
}

/// Law: the right-shift opcode `0x8XY6` puts the bit it shifts out — Vx's
/// lowest bit — in the flag register, whatever the numeric result.
/// Stated for destinations other than the flag register itself, which the
/// shift would read back after the flag write.
pub proof fn lemma_shr_flag_is_shifted_out_bit(s: MachineState, op: u16)
    requires
        wf(s),
        class_of(op) == 8,
        n_of(op) == 6,
        x_of(op) != 0xF,
    ensures
        spec_shr_vx(s, op).registers[0xF] == vx(s, op) & 1,
{
    lemma_operand_bounds(op);
}

/// Law: the left-shift opcode `0x8XYE` puts the bit it shifts out — Vx's
/// highest bit — in the flag register, whatever the numeric result.
/// Stated for destinations other than the flag register itself, which the
/// shift would read back after the flag write.
pub proof fn lemma_shl_flag_is_shifted_out_bit(s: MachineState, op: u16)
    requires
        wf(s),
        class_of(op) == 8,
        n_of(op) == 0xE,
        x_of(op) != 0xF,
    ensures
        spec_shl_vx(s, op).registers[0xF] == (vx(s, op) >> 7u8) & 1,
{
    lemma_operand_bounds(op);
}

/// Law: after a load, the program counter stands at 0x200, the first
/// fetch yields the program's first two bytes as one big-endian word, and
/// the fetch advances the program counter to 0x202.
pub proof fn lemma_load_then_fetch(s: MachineState, program: Seq<u8>)
    requires
        wf(s),
        2 <= program.len() <= 3584,
    ensures
        spec_load(s, program).program_counter == 0x200,
        word_at(spec_load(s, program), 0x200) == program[0] * 256 + program[1],
        spec_fetch(spec_load(s, program)).program_counter == 0x202,
{
}


/// Law: drawing the same sprite at the same location twice returns the
/// framebuffer to its prior state, and the two collision flags report
/// what they met: the first, whether some sprite bit landed on a lit
/// pixel; the second, whether some sprite bit landed on a pixel that
/// started unlit — exactly the pixels the first draw lit. Stated for
/// coordinate registers other than the flag register, which the first
/// draw's flag write would move.
pub proof fn lemma_draw_double_xor(s: MachineState, op: u16)
    requires
        wf(s),
        class_of(op) == 0xD,
        x_of(op) != 0xF,
        y_of(op) != 0xF,
    ensures
        spec_draw(spec_draw(s, op), op).screen == s.screen,
        spec_draw(s, op).registers[0xF] == 1 <==> collided_before(s, op, n_of(op) as int, 0),
        spec_draw(spec_draw(s, op), op).registers[0xF] == 1 <==> exists|dy: int, dx: int|
            0 <= dy && 0 <= dx < 8 && lex_before(dy, dx, n_of(op) as int, 0) && sprite_bit(
                sprite_row(s, dy),
                dx,
            ) && !s.screen[#[trigger] draw_target(s, op, dy, dx)],
{
    lemma_operand_bounds(op);
    let s1 = spec_draw(s, op);
    let n = n_of(op) as int;
    assert(s1.memory == s.memory);
    assert(s1.index_register == s.index_register);
    assert(vx(s1, op) == vx(s, op));
    assert(vy(s1, op) == vy(s, op));
    assert forall|dy: int, dx: int| 0 <= dy && 0 <= dx < 8 implies #[trigger] draw_target(
        s1,
        op,
        dy,
        dx,
    ) == draw_target(s, op, dy, dx) && sprite_row(s1, dy) == sprite_row(s, dy) by {}
    // The two draws toggle the same pixels.
    assert forall|p: int| 0 <= p < 2048 implies (toggled_before(s1, op, n, 0, p)
        == toggled_before(s, op, n, 0, p)) by {
        if toggled_before(s1, op, n, 0, p) {
            let (ady, adx): (int, int) = choose|ady: int, adx: int|
                0 <= ady && 0 <= adx < 8 && lex_before(ady, adx, n, 0) && sprite_bit(
                    sprite_row(s1, ady),
                    adx,
                ) && p == draw_target(s1, op, ady, adx);
            assert(p == draw_target(s, op, ady, adx));
            assert(toggled_before(s, op, n, 0, p));
        }
        if toggled_before(s, op, n, 0, p) {
            let (ady, adx): (int, int) = choose|ady: int, adx: int|
                0 <= ady && 0 <= adx < 8 && lex_before(ady, adx, n, 0) && sprite_bit(
                    sprite_row(s, ady),
                    adx,
                ) && p == draw_target(s, op, ady, adx);
            assert(p == draw_target(s1, op, ady, adx));
            assert(toggled_before(s1, op, n, 0, p));
        }
    }
    assert(spec_draw(s1, op).screen =~= s.screen);
    // The second draw's collision: a toggled pixel was lit after the
    // first draw exactly when it started unlit.
    let unlit_hit = exists|dy: int, dx: int|
        0 <= dy && 0 <= dx < 8 && lex_before(dy, dx, n, 0) && sprite_bit(sprite_row(s, dy), dx)
            && !s.screen[#[trigger] draw_target(s, op, dy, dx)];
    assert(collided_before(s1, op, n, 0) <==> unlit_hit) by {
        if collided_before(s1, op, n, 0) {
            let (ady, adx): (int, int) = choose|ady: int, adx: int|
                0 <= ady && 0 <= adx < 8 && lex_before(ady, adx, n, 0) && sprite_bit(
                    sprite_row(s1, ady),
                    adx,
                ) && s1.screen[draw_target(s1, op, ady, adx)];
            let p = draw_target(s, op, ady, adx);
            lemma_target_in_range(s, op, ady, adx);
            assert(toggled_before(s, op, n, 0, p));
            assert(s1.screen[p] == !s.screen[p]);
            assert(!s.screen[p]);
        }
        if unlit_hit {
            let (ady, adx): (int, int) = choose|ady: int, adx: int|
                0 <= ady && 0 <= adx < 8 && lex_before(ady, adx, n, 0) && sprite_bit(
                    sprite_row(s, ady),
                    adx,
                ) && !s.screen[draw_target(s, op, ady, adx)];
            let p = draw_target(s, op, ady, adx);
            lemma_target_in_range(s, op, ady, adx);
            assert(toggled_before(s, op, n, 0, p));
            assert(s1.screen[p]);
            assert(s1.screen[draw_target(s1, op, ady, adx)]);
            assert(collided_before(s1, op, n, 0));
        }
    }
}

} // verus!
