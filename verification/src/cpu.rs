//! The reduced engine variant: the flow-control, register, arithmetic and
//! screen-clear opcodes of the instruction set. The sprite-draw, key and
//! timer opcodes (classes 0xD, 0xE and 0xF) are recognised and accepted,
//! but leave the state untouched.

use vstd::prelude::*;

use crate::Chip8Error;
use crate::entropy::random_byte;
use crate::machine::MachineState;
use crate::machine::fresh_memory;
use crate::machine::is_fresh;
use crate::machine::wf;
use crate::opcode::is_random;
use crate::opcode::lemma_operand_bounds;
use crate::semantics::call_result;
use crate::semantics::post;
use crate::semantics::ret_result;
use crate::semantics::skip_result;
use crate::semantics::spec_add_vx_with_byte;
use crate::semantics::spec_add_vx_with_vy;
use crate::semantics::spec_and_vx_with_vy;
use crate::semantics::spec_cls;
use crate::semantics::spec_fetch;
use crate::semantics::spec_jp_to_addr;
use crate::semantics::spec_jp_to_v0_plus_addr;
use crate::semantics::spec_ld_i_with_addr;
use crate::semantics::spec_ld_vx_with_byte;
use crate::semantics::spec_ld_vx_with_vy;
use crate::semantics::spec_load;
use crate::semantics::spec_mem_write;
use crate::semantics::spec_mem_write_16;
use crate::semantics::spec_or_vx_with_vy;
use crate::semantics::spec_rnd;
use crate::semantics::spec_shl_vx;
use crate::semantics::spec_shr_vx;
use crate::semantics::spec_stack_push;
use crate::semantics::spec_stack_pop;
use crate::semantics::spec_sub_vx_with_vy;
use crate::semantics::spec_subn_vx_with_vy;
use crate::semantics::spec_tick_timers;
use crate::semantics::spec_xor_vx_with_vy;
use crate::semantics::step_post_basic;
use crate::semantics::vx;
use crate::semantics::vy;
use crate::semantics::nn8;
use crate::semantics::word_at;

verus! {

/// The reduced CHIP-8 engine. The fields are public so that a front end
/// or a test can inspect and stage machine state directly; the contracts
/// of the methods speak of the same fields through the `MachineState`
/// view.
#[derive(Debug, Clone)]
pub struct Cpu {
    pub program_counter: u16,
    pub index_register: u16,
    pub stack_pointer: u8,
    pub stack: [u16; 16],
    pub registers: [u8; 16],
    pub memory: [u8; 4096],
    pub delay_timer: u8,
    pub sound_timer: u8,
    /// Row-major: the pixel at (row, col) is index row * 64 + col.
    pub display: [bool; 2048],
    pub keys: [bool; 16],
}

impl View for Cpu {
    type V = MachineState;

    open spec fn view(&self) -> MachineState {
        MachineState {
            program_counter: self.program_counter,
            index_register: self.index_register,
            stack_pointer: self.stack_pointer,
            stack: self.stack@,
            registers: self.registers@,
            memory: self.memory@,
            delay_timer: self.delay_timer,
            sound_timer: self.sound_timer,
            screen: self.display@,
            keys: self.keys@,
        }
    }
}

impl Cpu {
    /// offset 0.
    pub fn new() -> (r: Cpu)
        ensures
            is_fresh(r@),
    {
        Cpu {
            program_counter: 0,
            index_register: 0,
            stack_pointer: 0,
            stack: [0u16; 16],
            registers: [0u8; 16],
            memory: fresh_memory(),
            delay_timer: 0,
            sound_timer: 0,
            display: [false; 2048],
            keys: [false; 16],
        }
    }

    /// font re-installed.
    pub fn reset(&mut self)
        ensures
            is_fresh(final(self)@),
    {
        self.program_counter = 0;
        self.index_register = 0;
        self.stack_pointer = 0;
        self.stack = [0u16; 16];
        self.registers = [0u8; 16];
        self.memory = fresh_memory();
        self.delay_timer = 0;
        self.sound_timer = 0;
        self.display = [false; 2048];
        self.keys = [false; 16];
    }

    /// The byte held at a memory address.
    pub fn mem_read(&self, address: u16) -> (r: u8)
        requires
            address < 4096,
        ensures
            r == self@.memory[address as int],
    {
        self.memory[address as usize]
    }

    /// The big-endian word held at a memory address.
    pub fn mem_read_16(&self, address: u16) -> (r: u16)
        requires
            address + 1 < 4096,
        ensures
            r == word_at(self@, address as int),
    {
        let hi: u16 = self.mem_read(address) as u16;
        let lo: u16 = self.mem_read(address + 1) as u16;
        proof {
            assert(hi << 8u16 | lo == hi * 256 + lo) by (bit_vector)
                requires
                    hi < 256 && lo < 256,
            ;
        }
        hi << 8 | lo
    }

    /// Write one byte of memory.
    pub fn mem_write(&mut self, address: u16, data: u8)
        requires
            address < 4096,
        ensures
            final(self)@ == spec_mem_write(old(self)@, address, data),
    {
        self.memory[address as usize] = data;
        proof {
            assert(self@ =~= spec_mem_write(old(self)@, address, data));
        }
    }

    /// Write a big-endian word to memory, high byte first.
    pub fn mem_write_16(&mut self, address: u16, data: u16)
        requires
            address + 1 < 4096,
        ensures
            final(self)@ == spec_mem_write_16(old(self)@, address, data),
    {
        proof {
            assert(data >> 8u16 < 256 && data & 0xff < 256) by (bit_vector);
        }
        let hi: u8 = (data >> 8) as u8;
        let lo: u8 = (data & 0xff) as u8;
        self.mem_write(address, hi);
        self.mem_write(address + 1, lo);
        proof {
            assert(self@ =~= spec_mem_write_16(old(self)@, address, data));
        }
    }

    /// Push a return address onto the call stack.
    pub fn stack_push(&mut self, address: u16)
        requires
            old(self)@.stack_pointer < 16,
        ensures
            final(self)@ == spec_stack_push(old(self)@, address),
    {
        self.stack[self.stack_pointer as usize] = address;
        self.stack_pointer = self.stack_pointer + 1;
        proof {
            assert(self@ =~= spec_stack_push(old(self)@, address));
        }
    }

    /// Pop the most recently pushed return address.
    pub fn stack_pop(&mut self) -> (r: u16)
        requires
            0 < old(self)@.stack_pointer <= 16,
        ensures
            r == old(self)@.stack[old(self)@.stack_pointer - 1],
            final(self)@ == spec_stack_pop(old(self)@),
    {
        self.stack_pointer = self.stack_pointer - 1;
        let r: u16 = self.stack[self.stack_pointer as usize];
        proof {
            assert(self@ =~= spec_stack_pop(old(self)@));
        }
        r
    }

    /// `0x00E0`: clear the screen.
    pub fn cls(&mut self)
        ensures
            final(self)@ == spec_cls(old(self)@),
    {
        self.display = [false; 2048];
        proof {
            assert(self@ =~= spec_cls(old(self)@));
        }
    }

    /// `0x00EE`: return from a call; errors on an empty stack.
    pub fn ret(&mut self) -> (r: Result<(), Chip8Error>)
        requires
            old(self)@.stack_pointer <= 16,
        ensures
            post(old(self)@, ret_result(old(self)@), final(self)@, r),
    {
        if self.stack_pointer == 0 {
            return Err(Chip8Error::StackUnderflow);
        }
        let address: u16 = self.stack_pop();
        self.program_counter = address;
        Ok(())
    }

    /// `0x1NNN`: jump.
    pub fn jp_to_addr(&mut self, opcode: u16)
        ensures
            final(self)@ == spec_jp_to_addr(old(self)@, opcode),
    {
        self.program_counter = opcode & 0x0FFF;
        proof {
            assert(self@ =~= spec_jp_to_addr(old(self)@, opcode));
        }
    }

    /// `0x2NNN`: call; errors with all sixteen stack slots in use.
    pub fn call_at_addr(&mut self, opcode: u16) -> (r: Result<(), Chip8Error>)
        ensures
            post(old(self)@, call_result(old(self)@, opcode), final(self)@, r),
    {
        if self.stack_pointer >= 16 {
            return Err(Chip8Error::StackOverflow);
        }
        let return_address: u16 = self.program_counter;
        self.stack_push(return_address);
        self.program_counter = opcode & 0x0FFF;
        proof {
            assert(self@ =~= spec_jp_to_addr(spec_stack_push(old(self)@, return_address), opcode));
        }
        Ok(())
    }

    /// `0x3XNN`: skip the next instruction if Vx equals NN.
    pub fn se_vx_and_byte(&mut self, opcode: u16) -> (r: Result<(), Chip8Error>)
        ensures
            post(
                old(self)@,
                skip_result(old(self)@, vx(old(self)@, opcode) == nn8(opcode)),
                final(self)@,
                r,
            ),
    {
        proof {
            lemma_operand_bounds(opcode);
        }
        let x: usize = ((opcode & 0x0F00) >> 8) as usize;
        let data: u8 = self.registers[x];
        if data == (opcode & 0x00FF) as u8 {
            if self.program_counter > 0xFFFD {
                return Err(Chip8Error::ProgramCounterOutOfRange);
            }
            self.program_counter = self.program_counter + 2;
        }
        Ok(())
    }

    /// `0x4XNN`: skip the next instruction if Vx differs from NN.
    pub fn sne_vx_and_byte(&mut self, opcode: u16) -> (r: Result<(), Chip8Error>)
        ensures
            post(
                old(self)@,
                skip_result(old(self)@, vx(old(self)@, opcode) != nn8(opcode)),
                final(self)@,
                r,
            ),
    {
        proof {
            lemma_operand_bounds(opcode);
        }
        let x: usize = ((opcode & 0x0F00) >> 8) as usize;
        let data: u8 = self.registers[x];
        if data != (opcode & 0x00FF) as u8 {
            if self.program_counter > 0xFFFD {
                return Err(Chip8Error::ProgramCounterOutOfRange);
            }
            self.program_counter = self.program_counter + 2;
        }
        Ok(())
    }

    /// `0x5XY0`: skip the next instruction if Vx equals Vy.
    pub fn se_vx_and_vy(&mut self, opcode: u16) -> (r: Result<(), Chip8Error>)
        ensures
            post(
                old(self)@,
                skip_result(old(self)@, vx(old(self)@, opcode) == vy(old(self)@, opcode)),
                final(self)@,
                r,
            ),
    {
        proof {
            lemma_operand_bounds(opcode);
        }
        let x: usize = ((opcode & 0x0F00) >> 8) as usize;
        let y: usize = ((opcode & 0x00F0) >> 4) as usize;
        let data_x: u8 = self.registers[x];
        let data_y: u8 = self.registers[y];
        if data_x == data_y {
            if self.program_counter > 0xFFFD {
                return Err(Chip8Error::ProgramCounterOutOfRange);
            }
            self.program_counter = self.program_counter + 2;
        }
        Ok(())
    }

    /// `0x9XY0`: skip the next instruction if Vx differs from Vy.
    pub fn sne_vx_and_vy(&mut self, opcode: u16) -> (r: Result<(), Chip8Error>)
        ensures
            post(
                old(self)@,
                skip_result(old(self)@, vx(old(self)@, opcode) != vy(old(self)@, opcode)),
                final(self)@,
                r,
            ),
    {
        proof {
            lemma_operand_bounds(opcode);
        }
        let x: usize = ((opcode & 0x0F00) >> 8) as usize;
        let y: usize = ((opcode & 0x00F0) >> 4) as usize;
        let data_x: u8 = self.registers[x];
        let data_y: u8 = self.registers[y];
        if data_x != data_y {
            if self.program_counter > 0xFFFD {
                return Err(Chip8Error::ProgramCounterOutOfRange);
            }
            self.program_counter = self.program_counter + 2;
        }
        Ok(())
    }

    /// `0x6XNN`: Vx = NN.
    pub fn ld_vx_with_byte(&mut self, opcode: u16)
        ensures
            final(self)@ == spec_ld_vx_with_byte(old(self)@, opcode),
    {
        proof {
            lemma_operand_bounds(opcode);
        }
        let x: usize = ((opcode & 0x0F00) >> 8) as usize;
        self.registers[x] = (opcode & 0x00FF) as u8;
        proof {
            assert(self@ =~= spec_ld_vx_with_byte(old(self)@, opcode));
        }
    }

    /// `0x7XNN`: Vx = Vx + NN, wrapping.
    pub fn add_vx_with_byte(&mut self, opcode: u16)
        ensures
            final(self)@ == spec_add_vx_with_byte(old(self)@, opcode),
    {
        proof {
            lemma_operand_bounds(opcode);
        }
        let x: usize = ((opcode & 0x0F00) >> 8) as usize;
        let sum: u16 = self.registers[x] as u16 + (opcode & 0x00FF) as u8 as u16;
        self.registers[x] = if sum > 255 {
            (sum - 256) as u8
        } else {
            sum as u8
        };
        proof {
            assert(self@ =~= spec_add_vx_with_byte(old(self)@, opcode));
        }
    }

    /// `0x8XY0`: Vx = Vy.
    pub fn ld_vx_with_vy(&mut self, opcode: u16)
        ensures
            final(self)@ == spec_ld_vx_with_vy(old(self)@, opcode),
    {
        proof {
            lemma_operand_bounds(opcode);
        }
        let x: usize = ((opcode & 0x0F00) >> 8) as usize;
        let y: usize = ((opcode & 0x00F0) >> 4) as usize;
        self.registers[x] = self.registers[y];
        proof {
            assert(self@ =~= spec_ld_vx_with_vy(old(self)@, opcode));
        }
    }

    /// `0x8XY1`: Vx = Vx | Vy.
    pub fn or_vx_with_vy(&mut self, opcode: u16)
        ensures
            final(self)@ == spec_or_vx_with_vy(old(self)@, opcode),
    {
        proof {
            lemma_operand_bounds(opcode);
        }
        let x: usize = ((opcode & 0x0F00) >> 8) as usize;
        let y: usize = ((opcode & 0x00F0) >> 4) as usize;
        let result: u8 = self.registers[x] | self.registers[y];
        self.registers[x] = result;
        proof {
            assert(self@ =~= spec_or_vx_with_vy(old(self)@, opcode));
        }
    }

    /// `0x8XY2`: Vx = Vx & Vy.
    pub fn and_vx_with_vy(&mut self, opcode: u16)
        ensures
            final(self)@ == spec_and_vx_with_vy(old(self)@, opcode),
    {
        proof {
            lemma_operand_bounds(opcode);
        }
        let x: usize = ((opcode & 0x0F00) >> 8) as usize;
        let y: usize = ((opcode & 0x00F0) >> 4) as usize;
        let result: u8 = self.registers[x] & self.registers[y];
        self.registers[x] = result;
        proof {
            assert(self@ =~= spec_and_vx_with_vy(old(self)@, opcode));
        }
    }

    /// `0x8XY3`: Vx = Vx ^ Vy.
    pub fn xor_vx_with_vy(&mut self, opcode: u16)
        ensures
            final(self)@ == spec_xor_vx_with_vy(old(self)@, opcode),
    {
        proof {
            lemma_operand_bounds(opcode);
        }
        let x: usize = ((opcode & 0x0F00) >> 8) as usize;
        let y: usize = ((opcode & 0x00F0) >> 4) as usize;
        let result: u8 = self.registers[x] ^ self.registers[y];
        self.registers[x] = result;
        proof {
            assert(self@ =~= spec_xor_vx_with_vy(old(self)@, opcode));
        }
    }

    /// `0x8XY4`: Vx = Vx + Vy; the flag register takes 1 on carry, else 0.
    pub fn add_vx_with_vy(&mut self, opcode: u16)
        ensures
            final(self)@ == spec_add_vx_with_vy(old(self)@, opcode),
    {
        proof {
            lemma_operand_bounds(opcode);
        }
        let x: usize = ((opcode & 0x0F00) >> 8) as usize;
        let y: usize = ((opcode & 0x00F0) >> 4) as usize;
        let sum: u16 = self.registers[x] as u16 + self.registers[y] as u16;
        self.registers[0xF] = if sum > 255 {
            1
        } else {
            0
        };
        self.registers[x] = if sum > 255 {
            (sum - 256) as u8
        } else {
            sum as u8
        };
        proof {
            assert(self@ =~= spec_add_vx_with_vy(old(self)@, opcode));
        }
    }

    /// `0x8XY5`: Vx = Vx - Vy; the flag register takes 0 on borrow, else 1.
    pub fn sub_vx_with_vy(&mut self, opcode: u16)
        ensures
            final(self)@ == spec_sub_vx_with_vy(old(self)@, opcode),
    {
        proof {
            lemma_operand_bounds(opcode);
        }
        let x: usize = ((opcode & 0x0F00) >> 8) as usize;
        let y: usize = ((opcode & 0x00F0) >> 4) as usize;
        let data_x: u8 = self.registers[x];
        let data_y: u8 = self.registers[y];
        self.registers[0xF] = if data_x < data_y {
            0
        } else {
            1
        };
        self.registers[x] = if data_x >= data_y {
            data_x - data_y
        } else {
            (data_x as u16 + 256 - data_y as u16) as u8
        };
        proof {
            assert(self@ =~= spec_sub_vx_with_vy(old(self)@, opcode));
        }
    }

    /// `0x8XY6`: the flag register takes Vx's lowest bit; Vx shifts right.
    pub fn shr_vx(&mut self, opcode: u16)
        ensures
            final(self)@ == spec_shr_vx(old(self)@, opcode),
    {
        proof {
            lemma_operand_bounds(opcode);
        }
        let x: usize = ((opcode & 0x0F00) >> 8) as usize;
        let data: u8 = self.registers[x];
        self.registers[0xF] = data & 1;
        self.registers[x] = self.registers[x] >> 1;
        proof {
            assert(self@ =~= spec_shr_vx(old(self)@, opcode));
        }
    }

    /// `0x8XY7`: Vx = Vy - Vx; the flag register takes 0 on borrow, else 1.
    pub fn subn_vx_with_vy(&mut self, opcode: u16)
        ensures
            final(self)@ == spec_subn_vx_with_vy(old(self)@, opcode),
    {
        proof {
            lemma_operand_bounds(opcode);
        }
        let x: usize = ((opcode & 0x0F00) >> 8) as usize;
        let y: usize = ((opcode & 0x00F0) >> 4) as usize;
        let data_x: u8 = self.registers[x];
        let data_y: u8 = self.registers[y];
        self.registers[0xF] = if data_y < data_x {
            0
        } else {
            1
        };
        self.registers[x] = if data_y >= data_x {
            data_y - data_x
        } else {
            (data_y as u16 + 256 - data_x as u16) as u8
        };
        proof {
            assert(self@ =~= spec_subn_vx_with_vy(old(self)@, opcode));
        }
    }

    /// wrapping.
    pub fn shl_vx(&mut self, opcode: u16)
        ensures
            final(self)@ == spec_shl_vx(old(self)@, opcode),
    {
        proof {
            lemma_operand_bounds(opcode);
        }
        let x: usize = ((opcode & 0x0F00) >> 8) as usize;
        let data: u8 = self.registers[x];
        self.registers[0xF] = (data >> 7) & 1;
        self.registers[x] = self.registers[x] << 1;
        proof {
            assert(self@ =~= spec_shl_vx(old(self)@, opcode));
        }
    }

    /// `0xANNN`: the index register takes NNN.
    pub fn ld_i_with_addr(&mut self, opcode: u16)
        ensures
            final(self)@ == spec_ld_i_with_addr(old(self)@, opcode),
    {
        self.index_register = opcode & 0x0FFF;
        proof {
            assert(self@ =~= spec_ld_i_with_addr(old(self)@, opcode));
        }
    }

    /// `0xBNNN`: jump to NNN plus register zero.
    pub fn jp_to_v0_plus_addr(&mut self, opcode: u16)
        ensures
            final(self)@ == spec_jp_to_v0_plus_addr(old(self)@, opcode),
    {
        proof {
            lemma_operand_bounds(opcode);
        }
        self.program_counter = (opcode & 0x0FFF) + self.registers[0] as u16;
        proof {
            assert(self@ =~= spec_jp_to_v0_plus_addr(old(self)@, opcode));
        }
    }

    /// of the drawn byte, so the contract holds for every value of it.
    pub fn rnd(&mut self, opcode: u16)
        ensures
            exists|b: u8| final(self)@ == spec_rnd(old(self)@, opcode, b),
    {
        let byte: u8 = random_byte();
        self.rnd_with(opcode, byte);
    }

    /// The deterministic part of `0xCXNN`: Vx takes `drawn` masked with NN.
    pub fn rnd_with(&mut self, opcode: u16, drawn: u8)
        ensures
            final(self)@ == spec_rnd(old(self)@, opcode, drawn),
    {
        proof {
            lemma_operand_bounds(opcode);
        }
        let x: usize = ((opcode & 0x0F00) >> 8) as usize;
        self.registers[x] = drawn & (opcode & 0x00FF) as u8;
        proof {
            assert(self@ =~= spec_rnd(old(self)@, opcode, drawn));
        }
    }

    /// pre-decrement value is readable in the `sound_timer` field.
    pub fn tick_timers(&mut self)
        ensures
            final(self)@ == spec_tick_timers(old(self)@),
    {
        if self.delay_timer > 0 {
            self.delay_timer = self.delay_timer - 1;
        }
        if self.sound_timer > 0 {
            self.sound_timer = self.sound_timer - 1;
        }
        proof {
            assert(self@ =~= spec_tick_timers(old(self)@));
        }
    }

    /// the program counter past it.
    pub fn fetch(&mut self) -> (r: u16)
        requires
            old(self)@.program_counter + 1 < 4096,
        ensures
            r == word_at(old(self)@, old(self)@.program_counter as int),
            final(self)@ == spec_fetch(old(self)@),
    {
        let address: u16 = self.program_counter;
        let opcode: u16 = self.mem_read_16(address);
        self.program_counter = self.program_counter + 2;
        proof {
            assert(self@ =~= spec_fetch(old(self)@));
        }
        opcode
    }

    /// bytes above the load offset.
    pub fn load(&mut self, program: &[u8]) -> (r: Result<(), Chip8Error>)
        ensures
            program@.len() <= 3584 ==> r is Ok && final(self)@ == spec_load(old(self)@, program@),
            program@.len() > 3584 ==> r is Err && r->Err_0 == Chip8Error::ProgramTooLarge && final(self)@ == old(self)@,
    {
        if program.len() > 3584 {
            return Err(Chip8Error::ProgramTooLarge);
        }
        let mut i: usize = 0;
        while i < program.len()
            invariant
                i <= program@.len() <= 3584,
                self@.program_counter == old(self)@.program_counter,
                self@.index_register == old(self)@.index_register,
                self@.stack_pointer == old(self)@.stack_pointer,
                self@.stack == old(self)@.stack,
                self@.registers == old(self)@.registers,
                self@.delay_timer == old(self)@.delay_timer,
                self@.sound_timer == old(self)@.sound_timer,
                self@.screen == old(self)@.screen,
                self@.keys == old(self)@.keys,
                self@.memory.len() == 4096,
                forall|j: int|
                    0x200 <= j < 0x200 + i ==> self@.memory[j] == program@[j - 0x200],
                forall|j: int|
                    0 <= j < 4096 && !(0x200 <= j < 0x200 + i) ==> self@.memory[j] == old(self)@.memory[j],
            decreases program@.len() - i,
        {
            self.memory[0x200 + i] = program[i];
            i = i + 1;
        }
        self.program_counter = 0x200;
        proof {
            assert(self@ =~= spec_load(old(self)@, program@));
        }
        Ok(())
    }

    /// byte fixed to zero.
    pub fn execute(&mut self, opcode: u16) -> (r: Result<(), Chip8Error>)
        requires
            wf(old(self)@),
        ensures
            wf(final(self)@),
            exists|b: u8| step_post_basic(old(self)@, opcode, b, final(self)@, r),
            !is_random(opcode) ==> step_post_basic(old(self)@, opcode, 0, final(self)@, r),
    {
        proof {
            lemma_operand_bounds(opcode);
        }
        let class: u16 = (opcode & 0xF000) >> 12;
        let r: Result<(), Chip8Error> = if class == 0 {
            if opcode == 0x0000 {
                Ok(())
            } else if opcode == 0x00E0 {
                self.cls();
                Ok(())
            } else if opcode == 0x00EE {
                self.ret()
            } else {
                Err(Chip8Error::UnknownOpcode(opcode))
            }
        } else if class == 1 {
            self.jp_to_addr(opcode);
            Ok(())
        } else if class == 2 {
            self.call_at_addr(opcode)
        } else if class == 3 {
            self.se_vx_and_byte(opcode)
        } else if class == 4 {
            self.sne_vx_and_byte(opcode)
        } else if class == 5 {
            if opcode & 0x000F == 0 {
                self.se_vx_and_vy(opcode)
            } else {
                Err(Chip8Error::UnknownOpcode(opcode))
            }
        } else if class == 6 {
            self.ld_vx_with_byte(opcode);
            Ok(())
        } else if class == 7 {
            self.add_vx_with_byte(opcode);
            Ok(())
        } else if class == 8 {
            let minor: u16 = opcode & 0x000F;
            if minor == 0 {
                self.ld_vx_with_vy(opcode);
                Ok(())
            } else if minor == 1 {
                self.or_vx_with_vy(opcode);
                Ok(())
            } else if minor == 2 {
                self.and_vx_with_vy(opcode);
                Ok(())
            } else if minor == 3 {
                self.xor_vx_with_vy(opcode);
                Ok(())
            } else if minor == 4 {
                self.add_vx_with_vy(opcode);
                Ok(())
            } else if minor == 5 {
                self.sub_vx_with_vy(opcode);
                Ok(())
            } else if minor == 6 {
                self.shr_vx(opcode);
                Ok(())
            } else if minor == 7 {
                self.subn_vx_with_vy(opcode);
                Ok(())
            } else if minor == 0xE {
                self.shl_vx(opcode);
                Ok(())
            } else {
                Err(Chip8Error::UnknownOpcode(opcode))
            }
        } else if class == 9 {
            if opcode & 0x000F == 0 {
                self.sne_vx_and_vy(opcode)
            } else {
                Err(Chip8Error::UnknownOpcode(opcode))
            }
        } else if class == 0xA {
            self.ld_i_with_addr(opcode);
            Ok(())
        } else if class == 0xB {
            self.jp_to_v0_plus_addr(opcode);
            Ok(())
        } else if class == 0xC {
            self.rnd(opcode);
            proof {
                let b = choose|b: u8| self@ == spec_rnd(old(self)@, opcode, b);
                assert(step_post_basic(old(self)@, opcode, b, self@, Ok::<(), Chip8Error>(())));
            }
            Ok(())
        } else if class == 0xD {
            Ok(())
        } else if class == 0xE {
            let minor: u16 = opcode & 0x00FF;
            if minor == 0x9E || minor == 0xA1 {
                Ok(())
            } else {
                Err(Chip8Error::UnknownOpcode(opcode))
            }
        } else {
            let minor: u16 = opcode & 0x00FF;
            if minor == 0x07 || minor == 0x0A || minor == 0x15 || minor == 0x18 || minor == 0x1E
                || minor == 0x29 || minor == 0x33 || minor == 0x55 || minor == 0x65 {
                Ok(())
            } else {
                Err(Chip8Error::UnknownOpcode(opcode))
            }
        };
        proof {
            if !is_random(opcode) {
                assert(step_post_basic(old(self)@, opcode, 0, self@, r));
            }
        }
        r
    }
}

} // verus!
