//! The full engine: every opcode of the instruction set, sprite drawing
//! and key input included.

use vstd::prelude::*;

use crate::Chip8Error;
use crate::entropy::random_byte;
use crate::machine::MachineState;
use crate::machine::fresh_memory;
use crate::machine::is_fresh;
use crate::machine::wf;
use crate::opcode::is_random;
use crate::opcode::n_of;
use crate::opcode::lemma_operand_bounds;
use crate::semantics::collided_before;
use crate::semantics::draw_target;
use crate::semantics::lemma_target_in_range;
use crate::semantics::lemma_target_injective;
use crate::semantics::lex_before;
use crate::semantics::sprite_bit;
use crate::semantics::sprite_row;
use crate::semantics::toggled_before;
use crate::semantics::bcd_result;
use crate::semantics::call_result;
use crate::semantics::draw_result;
use crate::semantics::key_skip_result;
use crate::semantics::key_wait_result;
use crate::semantics::first_key;
use crate::semantics::load_regs_result;
use crate::semantics::post;
use crate::semantics::ret_result;
use crate::semantics::skip_result;
use crate::semantics::spec_add_i_with_vx;
use crate::semantics::spec_add_vx_with_byte;
use crate::semantics::spec_add_vx_with_vy;
use crate::semantics::spec_and_vx_with_vy;
use crate::semantics::spec_cls;
use crate::semantics::spec_draw;
use crate::semantics::spec_fetch;
use crate::semantics::spec_jp_to_addr;
use crate::semantics::spec_jp_to_v0_plus_addr;
use crate::semantics::spec_keypress;
use crate::semantics::spec_key_rewind;
use crate::semantics::spec_ld_bcd;
use crate::semantics::spec_ld_dt_with_vx;
use crate::semantics::spec_ld_i_with_addr;
use crate::semantics::spec_ld_i_with_font_address;
use crate::semantics::spec_ld_mem_with_registers;
use crate::semantics::spec_ld_registers_with_mem;
use crate::semantics::spec_ld_st_with_vx;
use crate::semantics::spec_ld_vx_with_byte;
use crate::semantics::spec_ld_vx_with_dt;
use crate::semantics::spec_ld_vx_with_key;
use crate::semantics::spec_ld_vx_with_vy;
use crate::semantics::spec_load;
use crate::semantics::spec_mem_write;
use crate::semantics::spec_mem_write_16;
use crate::semantics::spec_or_vx_with_vy;
use crate::semantics::spec_rnd;
use crate::semantics::spec_shl_vx;
use crate::semantics::spec_shr_vx;
use crate::semantics::spec_stack_push;
use crate::semantics::spec_stack_pop;
use crate::semantics::spec_sub_vx_with_vy;
use crate::semantics::spec_subn_vx_with_vy;
use crate::semantics::spec_tick_timers;
use crate::semantics::spec_xor_vx_with_vy;
use crate::semantics::step_post_full;
use crate::semantics::store_regs_result;
use crate::semantics::tick_post;
use crate::semantics::vx;
use crate::semantics::vy;
use crate::semantics::nn8;
use crate::semantics::word_at;

verus! {

/// The full CHIP-8 engine. The fields are public so that a front end or a
/// test can inspect and stage machine state directly; the contracts of the
/// methods speak of the same fields through the `MachineState` view.
#[derive(Debug, Clone)]
pub struct Interpreter {
    pub program_counter: u16,
    pub index_register: u16,
    pub stack_pointer: u8,
    pub stack: [u16; 16],
    pub registers: [u8; 16],
    pub memory: [u8; 4096],
    pub delay_timer: u8,
    pub sound_timer: u8,
    /// Row-major: the pixel at (row, col) is index row * 64 + col.
    pub screen: [bool; 2048],
    pub keys: [bool; 16],
}

impl View for Interpreter {
    type V = MachineState;

    open spec fn view(&self) -> MachineState {
        MachineState {
            program_counter: self.program_counter,
            index_register: self.index_register,
            stack_pointer: self.stack_pointer,
            stack: self.stack@,
            registers: self.registers@,
            memory: self.memory@,
            delay_timer: self.delay_timer,
            sound_timer: self.sound_timer,
            screen: self.screen@,
            keys: self.keys@,
        }
    }
}

impl Interpreter {
    /// A fresh machine: everything zeroed, the font installed at memory
    /// offset 0.
    pub fn new() -> (r: Interpreter)
        ensures
            is_fresh(r@),
    {
        Interpreter {
            program_counter: 0,
            index_register: 0,
            stack_pointer: 0,
            stack: [0u16; 16],
            registers: [0u8; 16],
            memory: fresh_memory(),
            delay_timer: 0,
            sound_timer: 0,
            screen: [false; 2048],
            keys: [false; 16],
        }
    }

    /// Restore the exact post-construction state: everything zeroed, the
    /// font re-installed.
    pub fn reset(&mut self)
        ensures
            is_fresh(final(self)@),
    {
        self.program_counter = 0;
        self.index_register = 0;
        self.stack_pointer = 0;
        self.stack = [0u16; 16];
        self.registers = [0u8; 16];
        self.memory = fresh_memory();
        self.delay_timer = 0;
        self.sound_timer = 0;
        self.screen = [false; 2048];
        self.keys = [false; 16];
    }

    /// The byte held at a memory address.
    pub fn mem_read(&self, address: u16) -> (r: u8)
        requires
            address < 4096,
        ensures
            r == self@.memory[address as int],
    {
        self.memory[address as usize]
    }

    /// The big-endian word held at a memory address.
    pub fn mem_read_16(&self, address: u16) -> (r: u16)
        requires
            address + 1 < 4096,
        ensures
            r == word_at(self@, address as int),
    {
        let hi: u16 = self.mem_read(address) as u16;
        let lo: u16 = self.mem_read(address + 1) as u16;
        proof {
            assert(hi << 8u16 | lo == hi * 256 + lo) by (bit_vector)
                requires
                    hi < 256 && lo < 256,
            ;
        }
        hi << 8 | lo
    }

    /// Write one byte of memory.
    pub fn mem_write(&mut self, address: u16, data: u8)
        requires
            address < 4096,
        ensures
            final(self)@ == spec_mem_write(old(self)@, address, data),
    {
        self.memory[address as usize] = data;
        proof {
            assert(self@ =~= spec_mem_write(old(self)@, address, data));
        }
    }

    /// Write a big-endian word to memory, high byte first.
    pub fn mem_write_16(&mut self, address: u16, data: u16)
        requires
            address + 1 < 4096,
        ensures
            final(self)@ == spec_mem_write_16(old(self)@, address, data),
    {
        proof {
            assert(data >> 8u16 < 256 && data & 0xff < 256) by (bit_vector);
        }
        let hi: u8 = (data >> 8) as u8;
        let lo: u8 = (data & 0xff) as u8;
        self.mem_write(address, hi);
        self.mem_write(address + 1, lo);
        proof {
            assert(self@ =~= spec_mem_write_16(old(self)@, address, data));
        }
    }

    /// Push a return address onto the call stack.
    pub fn stack_push(&mut self, address: u16)
        requires
            old(self)@.stack_pointer < 16,
        ensures
            final(self)@ == spec_stack_push(old(self)@, address),
    {
        self.stack[self.stack_pointer as usize] = address;
        self.stack_pointer = self.stack_pointer + 1;
        proof {
            assert(self@ =~= spec_stack_push(old(self)@, address));
        }
    }

    /// Pop the most recently pushed return address.
    pub fn stack_pop(&mut self) -> (r: u16)
        requires
            0 < old(self)@.stack_pointer <= 16,
        ensures
            r == old(self)@.stack[old(self)@.stack_pointer - 1],
            final(self)@ == spec_stack_pop(old(self)@),
    {
        self.stack_pointer = self.stack_pointer - 1;
        let r: u16 = self.stack[self.stack_pointer as usize];
        proof {
            assert(self@ =~= spec_stack_pop(old(self)@));
        }
        r
    }

    /// `0x00E0`: clear the screen.
    pub fn cls(&mut self)
        ensures
            final(self)@ == spec_cls(old(self)@),
    {
        self.screen = [false; 2048];
        proof {
            assert(self@ =~= spec_cls(old(self)@));
        }
    }

    /// `0x00EE`: return from a call; errors on an empty stack.
    pub fn ret(&mut self) -> (r: Result<(), Chip8Error>)
        requires
            old(self)@.stack_pointer <= 16,
        ensures
            post(old(self)@, ret_result(old(self)@), final(self)@, r),
    {
        if self.stack_pointer == 0 {
            return Err(Chip8Error::StackUnderflow);
        }
        let address: u16 = self.stack_pop();
        self.program_counter = address;
        Ok(())
    }

    /// `0x1NNN`: jump.
    pub fn jp_to_addr(&mut self, opcode: u16)
        ensures
            final(self)@ == spec_jp_to_addr(old(self)@, opcode),
    {
        self.program_counter = opcode & 0x0FFF;
        proof {
            assert(self@ =~= spec_jp_to_addr(old(self)@, opcode));
        }
    }

    /// `0x2NNN`: call; errors with all sixteen stack slots in use.
    pub fn call_at_addr(&mut self, opcode: u16) -> (r: Result<(), Chip8Error>)
        ensures
            post(old(self)@, call_result(old(self)@, opcode), final(self)@, r),
    {
        if self.stack_pointer >= 16 {
            return Err(Chip8Error::StackOverflow);
        }
        let return_address: u16 = self.program_counter;
        self.stack_push(return_address);
        self.program_counter = opcode & 0x0FFF;
        proof {
            assert(self@ =~= spec_jp_to_addr(spec_stack_push(old(self)@, return_address), opcode));
        }
        Ok(())
    }

    /// `0x3XNN`: skip the next instruction if Vx equals NN.
    pub fn se_vx_and_byte(&mut self, opcode: u16) -> (r: Result<(), Chip8Error>)
        ensures
            post(
                old(self)@,
                skip_result(old(self)@, vx(old(self)@, opcode) == nn8(opcode)),
                final(self)@,
                r,
            ),
    {
        proof {
            lemma_operand_bounds(opcode);
        }
        let x: usize = ((opcode & 0x0F00) >> 8) as usize;
        let data: u8 = self.registers[x];
        if data == (opcode & 0x00FF) as u8 {
            if self.program_counter > 0xFFFD {
                return Err(Chip8Error::ProgramCounterOutOfRange);
            }
            self.program_counter = self.program_counter + 2;
        }
        Ok(())
    }

    /// `0x4XNN`: skip the next instruction if Vx differs from NN.
    pub fn sne_vx_and_byte(&mut self, opcode: u16) -> (r: Result<(), Chip8Error>)
        ensures
            post(
                old(self)@,
                skip_result(old(self)@, vx(old(self)@, opcode) != nn8(opcode)),
                final(self)@,
                r,
            ),
    {
        proof {
            lemma_operand_bounds(opcode);
        }
        let x: usize = ((opcode & 0x0F00) >> 8) as usize;
        let data: u8 = self.registers[x];
        if data != (opcode & 0x00FF) as u8 {
            if self.program_counter > 0xFFFD {
                return Err(Chip8Error::ProgramCounterOutOfRange);
            }
            self.program_counter = self.program_counter + 2;
        }
        Ok(())
    }

    /// `0x5XY0`: skip the next instruction if Vx equals Vy.
    pub fn se_vx_and_vy(&mut self, opcode: u16) -> (r: Result<(), Chip8Error>)
        ensures
            post(
                old(self)@,
                skip_result(old(self)@, vx(old(self)@, opcode) == vy(old(self)@, opcode)),
                final(self)@,
                r,
            ),
    {
        proof {
            lemma_operand_bounds(opcode);
        }
        let x: usize = ((opcode & 0x0F00) >> 8) as usize;
        let y: usize = ((opcode & 0x00F0) >> 4) as usize;
        let data_x: u8 = self.registers[x];
        let data_y: u8 = self.registers[y];
        if data_x == data_y {
            if self.program_counter > 0xFFFD {
                return Err(Chip8Error::ProgramCounterOutOfRange);
            }
            self.program_counter = self.program_counter + 2;
        }
        Ok(())
    }

    /// `0x9XY0`: skip the next instruction if Vx differs from Vy.
    pub fn sne_vx_and_vy(&mut self, opcode: u16) -> (r: Result<(), Chip8Error>)
        ensures
            post(
                old(self)@,
                skip_result(old(self)@, vx(old(self)@, opcode) != vy(old(self)@, opcode)),
                final(self)@,
                r,
            ),
    {
        proof {
            lemma_operand_bounds(opcode);
        }
        let x: usize = ((opcode & 0x0F00) >> 8) as usize;
        let y: usize = ((opcode & 0x00F0) >> 4) as usize;
        let data_x: u8 = self.registers[x];
        let data_y: u8 = self.registers[y];
        if data_x != data_y {
            if self.program_counter > 0xFFFD {
                return Err(Chip8Error::ProgramCounterOutOfRange);
            }
            self.program_counter = self.program_counter + 2;
        }
        Ok(())
    }

    /// `0x6XNN`: Vx = NN.
    pub fn ld_vx_with_byte(&mut self, opcode: u16)
        ensures
            final(self)@ == spec_ld_vx_with_byte(old(self)@, opcode),
    {
        proof {
            lemma_operand_bounds(opcode);
        }
        let x: usize = ((opcode & 0x0F00) >> 8) as usize;
        self.registers[x] = (opcode & 0x00FF) as u8;
        proof {
            assert(self@ =~= spec_ld_vx_with_byte(old(self)@, opcode));
        }
    }

    /// `0x7XNN`: Vx = Vx + NN, wrapping.
    pub fn add_vx_with_byte(&mut self, opcode: u16)
        ensures
            final(self)@ == spec_add_vx_with_byte(old(self)@, opcode),
    {
        proof {
            lemma_operand_bounds(opcode);
        }
        let x: usize = ((opcode & 0x0F00) >> 8) as usize;
        let sum: u16 = self.registers[x] as u16 + (opcode & 0x00FF) as u8 as u16;
        self.registers[x] = if sum > 255 {
            (sum - 256) as u8
        } else {
            sum as u8
        };
        proof {
            assert(self@ =~= spec_add_vx_with_byte(old(self)@, opcode));
        }
    }

    /// `0x8XY0`: Vx = Vy.
    pub fn ld_vx_with_vy(&mut self, opcode: u16)
        ensures
            final(self)@ == spec_ld_vx_with_vy(old(self)@, opcode),
    {
        proof {
            lemma_operand_bounds(opcode);
        }
        let x: usize = ((opcode & 0x0F00) >> 8) as usize;
        let y: usize = ((opcode & 0x00F0) >> 4) as usize;
        self.registers[x] = self.registers[y];
        proof {
            assert(self@ =~= spec_ld_vx_with_vy(old(self)@, opcode));
        }
    }

    /// `0x8XY1`: Vx = Vx | Vy.
    pub fn or_vx_with_vy(&mut self, opcode: u16)
        ensures
            final(self)@ == spec_or_vx_with_vy(old(self)@, opcode),
    {
        proof {
            lemma_operand_bounds(opcode);
        }
        let x: usize = ((opcode & 0x0F00) >> 8) as usize;
        let y: usize = ((opcode & 0x00F0) >> 4) as usize;
        let result: u8 = self.registers[x] | self.registers[y];
        self.registers[x] = result;
        proof {
            assert(self@ =~= spec_or_vx_with_vy(old(self)@, opcode));
        }
    }

    /// `0x8XY2`: Vx = Vx & Vy.
    pub fn and_vx_with_vy(&mut self, opcode: u16)
        ensures
            final(self)@ == spec_and_vx_with_vy(old(self)@, opcode),
    {
        proof {
            lemma_operand_bounds(opcode);
        }
        let x: usize = ((opcode & 0x0F00) >> 8) as usize;
        let y: usize = ((opcode & 0x00F0) >> 4) as usize;
        let result: u8 = self.registers[x] & self.registers[y];
        self.registers[x] = result;
        proof {
            assert(self@ =~= spec_and_vx_with_vy(old(self)@, opcode));
        }
    }

    /// `0x8XY3`: Vx = Vx ^ Vy.
    pub fn xor_vx_with_vy(&mut self, opcode: u16)
        ensures
            final(self)@ == spec_xor_vx_with_vy(old(self)@, opcode),
    {
        proof {
            lemma_operand_bounds(opcode);
        }
        let x: usize = ((opcode & 0x0F00) >> 8) as usize;
        let y: usize = ((opcode & 0x00F0) >> 4) as usize;
        let result: u8 = self.registers[x] ^ self.registers[y];
        self.registers[x] = result;
        proof {
            assert(self@ =~= spec_xor_vx_with_vy(old(self)@, opcode));
        }
    }

    /// `0x8XY4`: Vx = Vx + Vy; the flag register takes 1 on carry, else 0.
    pub fn add_vx_with_vy(&mut self, opcode: u16)
        ensures
            final(self)@ == spec_add_vx_with_vy(old(self)@, opcode),
    {
        proof {
            lemma_operand_bounds(opcode);
        }
        let x: usize = ((opcode & 0x0F00) >> 8) as usize;
        let y: usize = ((opcode & 0x00F0) >> 4) as usize;
        let sum: u16 = self.registers[x] as u16 + self.registers[y] as u16;
        self.registers[0xF] = if sum > 255 {
            1
        } else {
            0
        };
        self.registers[x] = if sum > 255 {
            (sum - 256) as u8
        } else {
            sum as u8
        };
        proof {
            assert(self@ =~= spec_add_vx_with_vy(old(self)@, opcode));
        }
    }

    /// `0x8XY5`: Vx = Vx - Vy; the flag register takes 0 on borrow, else 1.
    pub fn sub_vx_with_vy(&mut self, opcode: u16)
        ensures
            final(self)@ == spec_sub_vx_with_vy(old(self)@, opcode),
    {
        proof {
            lemma_operand_bounds(opcode);
        }
        let x: usize = ((opcode & 0x0F00) >> 8) as usize;
        let y: usize = ((opcode & 0x00F0) >> 4) as usize;
        let data_x: u8 = self.registers[x];
        let data_y: u8 = self.registers[y];
        self.registers[0xF] = if data_x < data_y {
            0
        } else {
            1
        };
        self.registers[x] = if data_x >= data_y {
            data_x - data_y
        } else {
            (data_x as u16 + 256 - data_y as u16) as u8
        };
        proof {
            assert(self@ =~= spec_sub_vx_with_vy(old(self)@, opcode));
        }
    }

    /// `0x8XY6`: the flag register takes Vx's lowest bit; Vx shifts right.
    pub fn shr_vx(&mut self, opcode: u16)
        ensures
            final(self)@ == spec_shr_vx(old(self)@, opcode),
    {
        proof {
            lemma_operand_bounds(opcode);
        }
        let x: usize = ((opcode & 0x0F00) >> 8) as usize;
        let data: u8 = self.registers[x];
        self.registers[0xF] = data & 1;
        self.registers[x] = self.registers[x] >> 1;
        proof {
            assert(self@ =~= spec_shr_vx(old(self)@, opcode));
        }
    }

    /// `0x8XY7`: Vx = Vy - Vx; the flag register takes 0 on borrow, else 1.
    pub fn subn_vx_with_vy(&mut self, opcode: u16)
        ensures
            final(self)@ == spec_subn_vx_with_vy(old(self)@, opcode),
    {
        proof {
            lemma_operand_bounds(opcode);
        }
        let x: usize = ((opcode & 0x0F00) >> 8) as usize;
        let y: usize = ((opcode & 0x00F0) >> 4) as usize;
        let data_x: u8 = self.registers[x];
        let data_y: u8 = self.registers[y];
        self.registers[0xF] = if data_y < data_x {
            0
        } else {
            1
        };
        self.registers[x] = if data_y >= data_x {
            data_y - data_x
        } else {
            (data_y as u16 + 256 - data_x as u16) as u8
        };
        proof {
            assert(self@ =~= spec_subn_vx_with_vy(old(self)@, opcode));
        }
    }

    /// `0x8XYE`: the flag register takes Vx's highest bit; Vx shifts left,
    /// wrapping.
    pub fn shl_vx(&mut self, opcode: u16)
        ensures
            final(self)@ == spec_shl_vx(old(self)@, opcode),
    {
        proof {
            lemma_operand_bounds(opcode);
        }
        let x: usize = ((opcode & 0x0F00) >> 8) as usize;
        let data: u8 = self.registers[x];
        self.registers[0xF] = (data >> 7) & 1;
        self.registers[x] = self.registers[x] << 1;
        proof {
            assert(self@ =~= spec_shl_vx(old(self)@, opcode));
        }
    }

    /// `0xANNN`: the index register takes NNN.
    pub fn ld_i_with_addr(&mut self, opcode: u16)
        ensures
            final(self)@ == spec_ld_i_with_addr(old(self)@, opcode),
    {
        self.index_register = opcode & 0x0FFF;
        proof {
            assert(self@ =~= spec_ld_i_with_addr(old(self)@, opcode));
        }
    }

    /// `0xBNNN`: jump to NNN plus register zero.
    pub fn jp_to_v0_plus_addr(&mut self, opcode: u16)
        ensures
            final(self)@ == spec_jp_to_v0_plus_addr(old(self)@, opcode),
    {
        proof {
            lemma_operand_bounds(opcode);
        }
        self.program_counter = (opcode & 0x0FFF) + self.registers[0] as u16;
        proof {
            assert(self@ =~= spec_jp_to_v0_plus_addr(old(self)@, opcode));
        }
    }

    /// `0xCXNN`: Vx takes a random byte masked with NN. Nothing is known
    /// of the drawn byte, so the contract holds for every value of it.
    pub fn rnd(&mut self, opcode: u16)
        ensures
            exists|b: u8| final(self)@ == spec_rnd(old(self)@, opcode, b),
    {
        let byte: u8 = random_byte();
        self.rnd_with(opcode, byte);
    }

    /// The deterministic part of `0xCXNN`: Vx takes `drawn` masked with NN.
    pub fn rnd_with(&mut self, opcode: u16, drawn: u8)
        ensures
            final(self)@ == spec_rnd(old(self)@, opcode, drawn),
    {
        proof {
            lemma_operand_bounds(opcode);
        }
        let x: usize = ((opcode & 0x0F00) >> 8) as usize;
        self.registers[x] = drawn & (opcode & 0x00FF) as u8;
        proof {
            assert(self@ =~= spec_rnd(old(self)@, opcode, drawn));
        }
    }

    /// `0xFX07`: Vx takes the delay timer.
    pub fn ld_vx_with_dt(&mut self, opcode: u16)
        ensures
            final(self)@ == spec_ld_vx_with_dt(old(self)@, opcode),
    {
        proof {
            lemma_operand_bounds(opcode);
        }
        let x: usize = ((opcode & 0x0F00) >> 8) as usize;
        self.registers[x] = self.delay_timer;
        proof {
            assert(self@ =~= spec_ld_vx_with_dt(old(self)@, opcode));
        }
    }

    /// `0xFX15`: the delay timer takes Vx.
    pub fn ld_dt_with_vx(&mut self, opcode: u16)
        ensures
            final(self)@ == spec_ld_dt_with_vx(old(self)@, opcode),
    {
        proof {
            lemma_operand_bounds(opcode);
        }
        let x: usize = ((opcode & 0x0F00) >> 8) as usize;
        self.delay_timer = self.registers[x];
        proof {
            assert(self@ =~= spec_ld_dt_with_vx(old(self)@, opcode));
        }
    }

    /// `0xFX18`: the sound timer takes Vx.
    pub fn ld_st_with_vx(&mut self, opcode: u16)
        ensures
            final(self)@ == spec_ld_st_with_vx(old(self)@, opcode),
    {
        proof {
            lemma_operand_bounds(opcode);
        }
        let x: usize = ((opcode & 0x0F00) >> 8) as usize;
        self.sound_timer = self.registers[x];
        proof {
            assert(self@ =~= spec_ld_st_with_vx(old(self)@, opcode));
        }
    }

    /// `0xFX1E`: the index register takes Vx added in, wrapping.
    pub fn add_i_with_vx(&mut self, opcode: u16)
        ensures
            final(self)@ == spec_add_i_with_vx(old(self)@, opcode),
    {
        proof {
            lemma_operand_bounds(opcode);
        }
        let x: usize = ((opcode & 0x0F00) >> 8) as usize;
        let addend: u16 = self.registers[x] as u16;
        self.index_register = if self.index_register <= 0xFFFF - addend {
            self.index_register + addend
        } else {
            addend - (0xFFFF - self.index_register) - 1
        };
        proof {
            assert(self@ =~= spec_add_i_with_vx(old(self)@, opcode));
        }
    }

    /// `0xFX29`: the index register takes the font glyph address Vx * 5.
    pub fn ld_i_with_font_address(&mut self, opcode: u16)
        ensures
            final(self)@ == spec_ld_i_with_font_address(old(self)@, opcode),
    {
        proof {
            lemma_operand_bounds(opcode);
        }
        let x: usize = ((opcode & 0x0F00) >> 8) as usize;
        let data: u16 = self.registers[x] as u16;
        self.index_register = data * 5;
        proof {
            assert(self@ =~= spec_ld_i_with_font_address(old(self)@, opcode));
        }
    }

    /// One timer step: each timer above zero comes down by one. The sound
    /// timer's move from 1 to 0 is the caller's beep edge; the
    /// pre-decrement value is readable in the `sound_timer` field.
    pub fn tick_timers(&mut self)
        ensures
            final(self)@ == spec_tick_timers(old(self)@),
    {
        if self.delay_timer > 0 {
            self.delay_timer = self.delay_timer - 1;
        }
        if self.sound_timer > 0 {
            self.sound_timer = self.sound_timer - 1;
        }
        proof {
            assert(self@ =~= spec_tick_timers(old(self)@));
        }
    }

    /// Fetch: read the big-endian word at the program counter and advance
    /// the program counter past it.
    pub fn fetch(&mut self) -> (r: u16)
        requires
            old(self)@.program_counter + 1 < 4096,
        ensures
            r == word_at(old(self)@, old(self)@.program_counter as int),
            final(self)@ == spec_fetch(old(self)@),
    {
        let address: u16 = self.program_counter;
        let opcode: u16 = self.mem_read_16(address);
        self.program_counter = self.program_counter + 2;
        proof {
            assert(self@ =~= spec_fetch(old(self)@));
        }
        opcode
    }

    /// Set or clear one key of the input latch. Key indices sixteen and
    /// above name no key and leave the latch untouched.
    pub fn keypress(&mut self, key: usize, pressed: bool)
        ensures
            final(self)@ == spec_keypress(old(self)@, key, pressed),
    {
        if key < 16 {
            self.keys[key] = pressed;
        }
        proof {
            assert(self@ =~= spec_keypress(old(self)@, key, pressed));
        }
    }

    /// A read-only view of the framebuffer, row-major.
    pub fn get_screen(&self) -> (r: &[bool; 2048])
        ensures
            r@ == self@.screen,
    {
        &self.screen
    }

    /// `0xEX9E`: skip the next instruction if the key named by Vx is down;
    /// errors when Vx names no key.
    pub fn skp(&mut self, opcode: u16) -> (r: Result<(), Chip8Error>)
        ensures
            post(old(self)@, key_skip_result(old(self)@, opcode, true), final(self)@, r),
    {
        proof {
            lemma_operand_bounds(opcode);
        }
        let x: usize = ((opcode & 0x0F00) >> 8) as usize;
        let data: u8 = self.registers[x];
        if data >= 16 {
            return Err(Chip8Error::KeyOutOfRange);
        }
        if self.keys[data as usize] {
            if self.program_counter > 0xFFFD {
                return Err(Chip8Error::ProgramCounterOutOfRange);
            }
            self.program_counter = self.program_counter + 2;
        }
        Ok(())
    }

    /// `0xEXA1`: skip the next instruction if the key named by Vx is up;
    /// errors when Vx names no key.
    pub fn sknp(&mut self, opcode: u16) -> (r: Result<(), Chip8Error>)
        ensures
            post(old(self)@, key_skip_result(old(self)@, opcode, false), final(self)@, r),
    {
        proof {
            lemma_operand_bounds(opcode);
        }
        let x: usize = ((opcode & 0x0F00) >> 8) as usize;
        let data: u8 = self.registers[x];
        if data >= 16 {
            return Err(Chip8Error::KeyOutOfRange);
        }
        if !self.keys[data as usize] {
            if self.program_counter > 0xFFFD {
                return Err(Chip8Error::ProgramCounterOutOfRange);
            }
            self.program_counter = self.program_counter + 2;
        }
        Ok(())
    }

    /// `0xFX0A`: if some key is down, Vx takes the lowest pressed key
    /// index; otherwise the program counter rewinds by two so the same
    /// instruction runs again on the next tick. Errors when it would
    /// rewind past address zero.
    pub fn ld_vx_with_key_press(&mut self, opcode: u16) -> (r: Result<(), Chip8Error>)
        ensures
            post(old(self)@, key_wait_result(old(self)@, opcode), final(self)@, r),
    {
        proof {
            lemma_operand_bounds(opcode);
        }
        let x: usize = ((opcode & 0x0F00) >> 8) as usize;
        let mut i: usize = 0;
        while i < 16
            invariant
                i <= 16,
                x == ((opcode & 0x0F00) >> 8) as usize,
                x < 16,
                self == old(self),
                first_key(old(self)@.keys, 0) == first_key(old(self)@.keys, i as int),
            decreases 16 - i,
        {
            if self.keys[i] {
                self.registers[x] = i as u8;
                proof {
                    assert(self@ =~= spec_ld_vx_with_key(old(self)@, opcode));
                }
                return Ok(());
            }
            i = i + 1;
        }
        if self.program_counter < 2 {
            return Err(Chip8Error::ProgramCounterOutOfRange);
        }
        self.program_counter = self.program_counter - 2;
        proof {
            assert(self@ =~= spec_key_rewind(old(self)@));
        }
        Ok(())
    }

    /// `0xFX33`: the decimal digits of Vx — hundreds, tens, ones — go to
    /// memory at the index register and the two bytes above it; errors
    /// when one of the three would land at or beyond the end of memory.
    pub fn ld_bcd(&mut self, opcode: u16) -> (r: Result<(), Chip8Error>)
        ensures
            post(old(self)@, bcd_result(old(self)@, opcode), final(self)@, r),
    {
        proof {
            lemma_operand_bounds(opcode);
        }
        if self.index_register >= 4094 {
            return Err(Chip8Error::AddressOutOfRange);
        }
        let x: usize = ((opcode & 0x0F00) >> 8) as usize;
        let data: u8 = self.registers[x];
        let hundreds: u8 = data / 100;
        let tens: u8 = (data / 10) % 10;
        let ones: u8 = data % 10;
        let base: u16 = self.index_register;
        self.mem_write(base, hundreds);
        self.mem_write(base + 1, tens);
        self.mem_write(base + 2, ones);
        proof {
            assert(self@ =~= spec_ld_bcd(old(self)@, opcode));
        }
        Ok(())
    }

    /// `0xFX55`: registers V0 through Vx go to memory at the index
    /// register; errors when one of the X + 1 bytes would land at or
    /// beyond the end of memory.
    pub fn ld_mem_with_registers(&mut self, opcode: u16) -> (r: Result<(), Chip8Error>)
        ensures
            post(old(self)@, store_regs_result(old(self)@, opcode), final(self)@, r),
    {
        proof {
            lemma_operand_bounds(opcode);
        }
        let x: usize = ((opcode & 0x0F00) >> 8) as usize;
        let base: usize = self.index_register as usize;
        if base + x >= 4096 {
            return Err(Chip8Error::AddressOutOfRange);
        }
        let mut k: usize = 0;
        while k <= x
            invariant
                k <= x + 1,
                x < 16,
                x == ((opcode & 0x0F00) >> 8) as usize,
                base == old(self)@.index_register,
                base + x < 4096,
                self@.program_counter == old(self)@.program_counter,
                self@.index_register == old(self)@.index_register,
                self@.stack_pointer == old(self)@.stack_pointer,
                self@.stack == old(self)@.stack,
                self@.registers == old(self)@.registers,
                self@.delay_timer == old(self)@.delay_timer,
                self@.sound_timer == old(self)@.sound_timer,
                self@.screen == old(self)@.screen,
                self@.keys == old(self)@.keys,
                self@.memory.len() == 4096,
                forall|j: int|
                    base <= j < base + k ==> self@.memory[j] == old(self)@.registers[j - base],
                forall|j: int|
                    0 <= j < 4096 && !(base <= j < base + k) ==> self@.memory[j] == old(self)@.memory[j],
            decreases x + 1 - k,
        {
            self.memory[base + k] = self.registers[k];
            k = k + 1;
        }
        proof {
            assert(self@ =~= spec_ld_mem_with_registers(old(self)@, opcode));
        }
        Ok(())
    }

    /// `0xFX65`: registers V0 through Vx take memory at the index
    /// register; errors when one of the X + 1 bytes would be read at or
    /// beyond the end of memory.
    pub fn ld_registers_with_mem(&mut self, opcode: u16) -> (r: Result<(), Chip8Error>)
        ensures
            post(old(self)@, load_regs_result(old(self)@, opcode), final(self)@, r),
    {
        proof {
            lemma_operand_bounds(opcode);
        }
        let x: usize = ((opcode & 0x0F00) >> 8) as usize;
        let base: usize = self.index_register as usize;
        if base + x >= 4096 {
            return Err(Chip8Error::AddressOutOfRange);
        }
        let mut k: usize = 0;
        while k <= x
            invariant
                k <= x + 1,
                x < 16,
                x == ((opcode & 0x0F00) >> 8) as usize,
                base == old(self)@.index_register,
                base + x < 4096,
                self@.program_counter == old(self)@.program_counter,
                self@.index_register == old(self)@.index_register,
                self@.stack_pointer == old(self)@.stack_pointer,
                self@.stack == old(self)@.stack,
                self@.memory == old(self)@.memory,
                self@.delay_timer == old(self)@.delay_timer,
                self@.sound_timer == old(self)@.sound_timer,
                self@.screen == old(self)@.screen,
                self@.keys == old(self)@.keys,
                self@.registers.len() == 16,
                forall|j: int| 0 <= j < k ==> self@.registers[j] == old(self)@.memory[base + j],
                forall|j: int|
                    k <= j < 16 ==> self@.registers[j] == old(self)@.registers[j],
            decreases x + 1 - k,
        {
            self.registers[k] = self.memory[base + k];
            k = k + 1;
        }
        proof {
            assert(self@ =~= spec_ld_registers_with_mem(old(self)@, opcode));
        }
        Ok(())
    }

    /// `0xDXYN`: XOR the N-row sprite at memory[index..] onto the screen
    /// at (Vx, Vy), wrapping at the edges; the flag register reports
    /// whether any pixel went from lit to unlit. Errors when a sprite row
    /// would be read at or beyond the end of memory.
    pub fn draw(&mut self, opcode: u16) -> (r: Result<(), Chip8Error>)
        ensures
            post(old(self)@, draw_result(old(self)@, opcode), final(self)@, r),
    {
        proof {
            lemma_operand_bounds(opcode);
        }
        let x: usize = ((opcode & 0x0F00) >> 8) as usize;
        let y: usize = ((opcode & 0x00F0) >> 4) as usize;
        let n: u16 = opcode & 0x000F;
        if n > 0 && self.index_register as usize + n as usize > 4096 {
            return Err(Chip8Error::AddressOutOfRange);
        }
        let x_coordinate: u8 = self.registers[x];
        let y_coordinate: u8 = self.registers[y];
        let mut is_flipped: bool = false;
        let mut dy: u16 = 0;
        while dy < n
            invariant
                dy <= n,
                n == n_of(opcode),
                n < 16,
                n > 0 ==> old(self)@.index_register + n <= 4096,
                x_coordinate == vx(old(self)@, opcode),
                y_coordinate == vy(old(self)@, opcode),
                self@.program_counter == old(self)@.program_counter,
                self@.index_register == old(self)@.index_register,
                self@.stack_pointer == old(self)@.stack_pointer,
                self@.stack == old(self)@.stack,
                self@.registers == old(self)@.registers,
                self@.memory == old(self)@.memory,
                self@.delay_timer == old(self)@.delay_timer,
                self@.sound_timer == old(self)@.sound_timer,
                self@.keys == old(self)@.keys,
                self@.screen.len() == 2048,
                forall|p: int|
                    0 <= p < 2048 ==> self@.screen[p] == (old(self)@.screen[p] != toggled_before(
                        old(self)@,
                        opcode,
                        dy as int,
                        0,
                        p,
                    )),
                is_flipped == collided_before(old(self)@, opcode, dy as int, 0),
            decreases n - dy,
        {
            let addr: u16 = self.index_register + dy;
            let pixels: u8 = self.memory[addr as usize];
            proof {
                assert(pixels == sprite_row(old(self)@, dy as int));
            }
            let mut dx: u16 = 0;
            while dx < 8
                invariant
                    dx <= 8,
                    dy < n,
                    n == n_of(opcode),
                    n < 16,
                    old(self)@.index_register + n <= 4096,
                    x_coordinate == vx(old(self)@, opcode),
                    y_coordinate == vy(old(self)@, opcode),
                    pixels == sprite_row(old(self)@, dy as int),
                    self@.program_counter == old(self)@.program_counter,
                    self@.index_register == old(self)@.index_register,
                    self@.stack_pointer == old(self)@.stack_pointer,
                    self@.stack == old(self)@.stack,
                    self@.registers == old(self)@.registers,
                    self@.memory == old(self)@.memory,
                    self@.delay_timer == old(self)@.delay_timer,
                    self@.sound_timer == old(self)@.sound_timer,
                    self@.keys == old(self)@.keys,
                    self@.screen.len() == 2048,
                    forall|p: int|
                        0 <= p < 2048 ==> self@.screen[p] == (old(self)@.screen[p]
                            != toggled_before(old(self)@, opcode, dy as int, dx as int, p)),
                    is_flipped == collided_before(old(self)@, opcode, dy as int, dx as int),
                decreases 8 - dx,
            {
                let ghost s0 = old(self)@;
                let ghost gdy = dy as int;
                let ghost gdx = dx as int;
                if (pixels & (0x80u8 >> (dx as u8))) != 0 {
                    proof {
                        lemma_target_in_range(s0, opcode, gdy, gdx);
                    }
                    let col: usize = (x_coordinate as usize + dx as usize) % 64;
                    let row: usize = (y_coordinate as usize + dy as usize) % 32;
                    let p: usize = row * 64 + col;
                    proof {
                        assert(p == draw_target(s0, opcode, gdy, gdx));
                        assert(sprite_bit(sprite_row(s0, gdy), gdx));
                        assert(!toggled_before(s0, opcode, gdy, gdx, p as int)) by {
                            if toggled_before(s0, opcode, gdy, gdx, p as int) {
                                let (ady, adx): (int, int) = choose|ady: int, adx: int|
                                    0 <= ady && 0 <= adx < 8 && lex_before(ady, adx, gdy, gdx)
                                        && sprite_bit(sprite_row(s0, ady), adx) && p as int
                                        == draw_target(s0, opcode, ady, adx);
                                lemma_target_injective(s0, opcode, ady, adx, gdy, gdx);
                            }
                        }
                    }
                    let was_lit: bool = self.screen[p];
                    is_flipped = is_flipped || was_lit;
                    self.screen[p] = !was_lit;
                    proof {
                        assert(was_lit == s0.screen[p as int]);
                        assert forall|q: int| 0 <= q < 2048 implies self@.screen[q] == (
                        s0.screen[q] != toggled_before(s0, opcode, gdy, gdx + 1, q)) by {
                            if q == p as int {
                                assert(toggled_before(s0, opcode, gdy, gdx + 1, q));
                            } else {
                                assert(toggled_before(s0, opcode, gdy, gdx + 1, q)
                                    == toggled_before(s0, opcode, gdy, gdx, q)) by {
                                    if toggled_before(s0, opcode, gdy, gdx + 1, q) {
                                        let (ady, adx): (int, int) = choose|ady: int, adx: int|
                                            0 <= ady && 0 <= adx < 8 && lex_before(
                                                ady,
                                                adx,
                                                gdy,
                                                gdx + 1,
                                            ) && sprite_bit(sprite_row(s0, ady), adx) && q
                                                == draw_target(s0, opcode, ady, adx);
                                        if ady == gdy && adx == gdx {
                                            assert(q == p as int);
                                        } else {
                                            assert(lex_before(ady, adx, gdy, gdx));
                                            assert(toggled_before(s0, opcode, gdy, gdx, q));
                                        }
                                    }
                                }
                            }
                        }
                        assert(collided_before(s0, opcode, gdy, gdx + 1) == (collided_before(
                            s0,
                            opcode,
                            gdy,
                            gdx,
                        ) || was_lit)) by {
                            if collided_before(s0, opcode, gdy, gdx + 1) {
                                let (ady, adx): (int, int) = choose|ady: int, adx: int|
                                    0 <= ady && 0 <= adx < 8 && lex_before(ady, adx, gdy, gdx + 1)
                                        && sprite_bit(sprite_row(s0, ady), adx) && s0.screen[
                                    draw_target(s0, opcode, ady, adx)];
                                if !(ady == gdy && adx == gdx) {
                                    assert(lex_before(ady, adx, gdy, gdx));
                                    assert(collided_before(s0, opcode, gdy, gdx));
                                }
                            }
                            if was_lit {
                                assert(s0.screen[draw_target(s0, opcode, gdy, gdx)]);
                                assert(collided_before(s0, opcode, gdy, gdx + 1));
                            }
                            if collided_before(s0, opcode, gdy, gdx) {
                                let (ady, adx): (int, int) = choose|ady: int, adx: int|
                                    0 <= ady && 0 <= adx < 8 && lex_before(ady, adx, gdy, gdx)
                                        && sprite_bit(sprite_row(s0, ady), adx) && s0.screen[
                                    draw_target(s0, opcode, ady, adx)];
                                assert(lex_before(ady, adx, gdy, gdx + 1));
                                assert(collided_before(s0, opcode, gdy, gdx + 1));
                            }
                        }
                    }
                } else {
                    proof {
                        assert forall|q: int| 0 <= q < 2048 implies (toggled_before(
                            s0,
                            opcode,
                            gdy,
                            gdx + 1,
                            q,
                        ) == toggled_before(s0, opcode, gdy, gdx, q)) by {
                            if toggled_before(s0, opcode, gdy, gdx + 1, q) {
                                let (ady, adx): (int, int) = choose|ady: int, adx: int|
                                    0 <= ady && 0 <= adx < 8 && lex_before(ady, adx, gdy, gdx + 1)
                                        && sprite_bit(sprite_row(s0, ady), adx) && q
                                        == draw_target(s0, opcode, ady, adx);
                                if ady == gdy && adx == gdx {
                                    assert(false);
                                } else {
                                    assert(lex_before(ady, adx, gdy, gdx));
                                }
                            }
                            if toggled_before(s0, opcode, gdy, gdx, q) {
                                let (ady, adx): (int, int) = choose|ady: int, adx: int|
                                    0 <= ady && 0 <= adx < 8 && lex_before(ady, adx, gdy, gdx)
                                        && sprite_bit(sprite_row(s0, ady), adx) && q
                                        == draw_target(s0, opcode, ady, adx);
                                assert(lex_before(ady, adx, gdy, gdx + 1));
                            }
                        }
                        assert(collided_before(s0, opcode, gdy, gdx + 1) == collided_before(
                            s0,
                            opcode,
                            gdy,
                            gdx,
                        )) by {
                            if collided_before(s0, opcode, gdy, gdx + 1) {
                                let (ady, adx): (int, int) = choose|ady: int, adx: int|
                                    0 <= ady && 0 <= adx < 8 && lex_before(ady, adx, gdy, gdx + 1)
                                        && sprite_bit(sprite_row(s0, ady), adx) && s0.screen[
                                    draw_target(s0, opcode, ady, adx)];
                                if ady == gdy && adx == gdx {
                                    assert(false);
                                } else {
                                    assert(lex_before(ady, adx, gdy, gdx));
                                    assert(collided_before(s0, opcode, gdy, gdx));
                                }
                            }
                            if collided_before(s0, opcode, gdy, gdx) {
                                let (ady, adx): (int, int) = choose|ady: int, adx: int|
                                    0 <= ady && 0 <= adx < 8 && lex_before(ady, adx, gdy, gdx)
                                        && sprite_bit(sprite_row(s0, ady), adx) && s0.screen[
                                    draw_target(s0, opcode, ady, adx)];
                                assert(lex_before(ady, adx, gdy, gdx + 1));
                                assert(collided_before(s0, opcode, gdy, gdx + 1));
                            }
                        }
                    }
                }
                dx = dx + 1;
            }
            proof {
                let s0 = old(self)@;
                let gdy = dy as int;
                assert forall|q: int| 0 <= q < 2048 implies (toggled_before(
                    s0,
                    opcode,
                    gdy + 1,
                    0,
                    q,
                ) == toggled_before(s0, opcode, gdy, 8, q)) by {
                    if toggled_before(s0, opcode, gdy + 1, 0, q) {
                        let (ady, adx): (int, int) = choose|ady: int, adx: int|
                            0 <= ady && 0 <= adx < 8 && lex_before(ady, adx, gdy + 1, 0)
                                && sprite_bit(sprite_row(s0, ady), adx) && q == draw_target(
                                s0,
                                opcode,
                                ady,
                                adx,
                            );
                        assert(lex_before(ady, adx, gdy, 8));
                        assert(toggled_before(s0, opcode, gdy, 8, q));
                    }
                    if toggled_before(s0, opcode, gdy, 8, q) {
                        let (ady, adx): (int, int) = choose|ady: int, adx: int|
                            0 <= ady && 0 <= adx < 8 && lex_before(ady, adx, gdy, 8) && sprite_bit(
                                sprite_row(s0, ady),
                                adx,
                            ) && q == draw_target(s0, opcode, ady, adx);
                        assert(lex_before(ady, adx, gdy + 1, 0));
                        assert(toggled_before(s0, opcode, gdy + 1, 0, q));
                    }
                }
                assert(collided_before(s0, opcode, gdy + 1, 0) == collided_before(
                    s0,
                    opcode,
                    gdy,
                    8,
                )) by {
                    if collided_before(s0, opcode, gdy + 1, 0) {
                        let (ady, adx): (int, int) = choose|ady: int, adx: int|
                            0 <= ady && 0 <= adx < 8 && lex_before(ady, adx, gdy + 1, 0)
                                && sprite_bit(sprite_row(s0, ady), adx) && s0.screen[draw_target(
                                s0,
                                opcode,
                                ady,
                                adx,
                            )];
                        assert(lex_before(ady, adx, gdy, 8));
                        assert(collided_before(s0, opcode, gdy, 8));
                    }
                    if collided_before(s0, opcode, gdy, 8) {
                        let (ady, adx): (int, int) = choose|ady: int, adx: int|
                            0 <= ady && 0 <= adx < 8 && lex_before(ady, adx, gdy, 8) && sprite_bit(
                                sprite_row(s0, ady),
                                adx,
                            ) && s0.screen[draw_target(s0, opcode, ady, adx)];
                        assert(lex_before(ady, adx, gdy + 1, 0));
                        assert(collided_before(s0, opcode, gdy + 1, 0));
                    }
                }
            }
            dy = dy + 1;
        }
        self.registers[0xF] = if is_flipped {
            1
        } else {
            0
        };
        proof {
            assert(self@ =~= spec_draw(old(self)@, opcode));
        }
        Ok(())
    }

    /// Copy a program into memory from 0x200 on and point the program
    /// counter at it; errors when the program cannot fit in the 3584
    /// bytes above the load offset.
    pub fn load(&mut self, program: &[u8]) -> (r: Result<(), Chip8Error>)
        ensures
            program@.len() <= 3584 ==> r is Ok && final(self)@ == spec_load(old(self)@, program@),
            program@.len() > 3584 ==> r is Err && r->Err_0 == Chip8Error::ProgramTooLarge && final(self)@ == old(self)@,
    {
        if program.len() > 3584 {
            return Err(Chip8Error::ProgramTooLarge);
        }
        let mut i: usize = 0;
        while i < program.len()
            invariant
                i <= program@.len() <= 3584,
                self@.program_counter == old(self)@.program_counter,
                self@.index_register == old(self)@.index_register,
                self@.stack_pointer == old(self)@.stack_pointer,
                self@.stack == old(self)@.stack,
                self@.registers == old(self)@.registers,
                self@.delay_timer == old(self)@.delay_timer,
                self@.sound_timer == old(self)@.sound_timer,
                self@.screen == old(self)@.screen,
                self@.keys == old(self)@.keys,
                self@.memory.len() == 4096,
                forall|j: int|
                    0x200 <= j < 0x200 + i ==> self@.memory[j] == program@[j - 0x200],
                forall|j: int|
                    0 <= j < 4096 && !(0x200 <= j < 0x200 + i) ==> self@.memory[j] == old(self)@.memory[j],
            decreases program@.len() - i,
        {
            self.memory[0x200 + i] = program[i];
            i = i + 1;
        }
        self.program_counter = 0x200;
        proof {
            assert(self@ =~= spec_load(old(self)@, program@));
        }
        Ok(())
    }

    /// Execute one already-fetched instruction word. A failing step — an
    /// unknown opcode, an exhausted or empty stack, an out-of-range
    /// memory, key or program-counter move — reports its error and leaves
    /// the state untouched. The random opcode class holds for some drawn
    /// byte; every other class is deterministic and holds with the drawn
    /// byte fixed to zero.
    pub fn execute(&mut self, opcode: u16) -> (r: Result<(), Chip8Error>)
        requires
            wf(old(self)@),
        ensures
            wf(final(self)@),
            exists|b: u8| step_post_full(old(self)@, opcode, b, final(self)@, r),
            !is_random(opcode) ==> step_post_full(old(self)@, opcode, 0, final(self)@, r),
    {
        proof {
            lemma_operand_bounds(opcode);
        }
        let class: u16 = (opcode & 0xF000) >> 12;
        let r: Result<(), Chip8Error> = if class == 0 {
            if opcode == 0x0000 {
                Ok(())
            } else if opcode == 0x00E0 {
                self.cls();
                Ok(())
            } else if opcode == 0x00EE {
                self.ret()
            } else {
                Err(Chip8Error::UnknownOpcode(opcode))
            }
        } else if class == 1 {
            self.jp_to_addr(opcode);
            Ok(())
        } else if class == 2 {
            self.call_at_addr(opcode)
        } else if class == 3 {
            self.se_vx_and_byte(opcode)
        } else if class == 4 {
            self.sne_vx_and_byte(opcode)
        } else if class == 5 {
            if opcode & 0x000F == 0 {
                self.se_vx_and_vy(opcode)
            } else {
                Err(Chip8Error::UnknownOpcode(opcode))
            }
        } else if class == 6 {
            self.ld_vx_with_byte(opcode);
            Ok(())
        } else if class == 7 {
            self.add_vx_with_byte(opcode);
            Ok(())
        } else if class == 8 {
            let minor: u16 = opcode & 0x000F;
            if minor == 0 {
                self.ld_vx_with_vy(opcode);
                Ok(())
            } else if minor == 1 {
                self.or_vx_with_vy(opcode);
                Ok(())
            } else if minor == 2 {
                self.and_vx_with_vy(opcode);
                Ok(())
            } else if minor == 3 {
                self.xor_vx_with_vy(opcode);
                Ok(())
            } else if minor == 4 {
                self.add_vx_with_vy(opcode);
                Ok(())
            } else if minor == 5 {
                self.sub_vx_with_vy(opcode);
                Ok(())
            } else if minor == 6 {
                self.shr_vx(opcode);
                Ok(())
            } else if minor == 7 {
                self.subn_vx_with_vy(opcode);
                Ok(())
            } else if minor == 0xE {
                self.shl_vx(opcode);
                Ok(())
            } else {
                Err(Chip8Error::UnknownOpcode(opcode))
            }
        } else if class == 9 {
            if opcode & 0x000F == 0 {
                self.sne_vx_and_vy(opcode)
            } else {
                Err(Chip8Error::UnknownOpcode(opcode))
            }
        } else if class == 0xA {
            self.ld_i_with_addr(opcode);
            Ok(())
        } else if class == 0xB {
            self.jp_to_v0_plus_addr(opcode);
            Ok(())
        } else if class == 0xC {
            self.rnd(opcode);
            proof {
                let b = choose|b: u8| self@ == spec_rnd(old(self)@, opcode, b);
                assert(step_post_full(old(self)@, opcode, b, self@, Ok::<(), Chip8Error>(())));
            }
            Ok(())
        } else if class == 0xD {
            self.draw(opcode)
        } else if class == 0xE {
            let minor: u16 = opcode & 0x00FF;
            if minor == 0x9E {
                self.skp(opcode)
            } else if minor == 0xA1 {
                self.sknp(opcode)
            } else {
                Err(Chip8Error::UnknownOpcode(opcode))
            }
        } else {
            let minor: u16 = opcode & 0x00FF;
            if minor == 0x07 {
                self.ld_vx_with_dt(opcode);
                Ok(())
            } else if minor == 0x0A {
                self.ld_vx_with_key_press(opcode)
            } else if minor == 0x15 {
                self.ld_dt_with_vx(opcode);
                Ok(())
            } else if minor == 0x18 {
                self.ld_st_with_vx(opcode);
                Ok(())
            } else if minor == 0x1E {
                self.add_i_with_vx(opcode);
                Ok(())
            } else if minor == 0x29 {
                self.ld_i_with_font_address(opcode);
                Ok(())
            } else if minor == 0x33 {
                self.ld_bcd(opcode)
            } else if minor == 0x55 {
                self.ld_mem_with_registers(opcode)
            } else if minor == 0x65 {
                self.ld_registers_with_mem(opcode)
            } else {
                Err(Chip8Error::UnknownOpcode(opcode))
            }
        };
        proof {
            if !is_random(opcode) {
                assert(step_post_full(old(self)@, opcode, 0, self@, r));
            }
        }
        r
    }

    /// One emulation step: fetch the word at the program counter, then
    /// execute it. With no room to fetch a whole word below address 4096,
    /// the state is untouched and the tick errors; otherwise the fetch
    /// happens and the executed word decides the rest, as in `execute`.
    pub fn tick(&mut self) -> (r: Result<(), Chip8Error>)
        requires
            wf(old(self)@),
        ensures
            wf(final(self)@),
            exists|b: u8| tick_post(old(self)@, b, final(self)@, r),
            old(self)@.program_counter + 1 < 4096 && !is_random(
                word_at(old(self)@, old(self)@.program_counter as int),
            ) ==> tick_post(old(self)@, 0, final(self)@, r),
    {
        if self.program_counter >= 4095 {
            let r: Result<(), Chip8Error> = Err(Chip8Error::ProgramCounterOutOfRange);
            proof {
                assert(tick_post(old(self)@, 0, self@, r));
            }
            return r;
        }
        let opcode: u16 = self.fetch();
        let r: Result<(), Chip8Error> = self.execute(opcode);
        proof {
            let fetched = spec_fetch(old(self)@);
            let b = choose|b: u8| step_post_full(fetched, opcode, b, self@, r);
            assert(tick_post(old(self)@, b, self@, r));
            if !is_random(opcode) {
                assert(tick_post(old(self)@, 0, self@, r));
            }
        }
        r
    }
}

} // verus!
