use chip8::Chip8Error;
use chip8::interpreter::Interpreter;
use chip8::machine::FONTSET;
use chip8::machine::PROGRAM_START;

#[test]
fn fresh_machine_holds_font_and_zeros() {
    let interpreter = Interpreter::new();
    for i in 0..80 {
        assert_eq!(interpreter.memory[i], FONTSET[i]);
    }
    for i in 80..4096 {
        assert_eq!(interpreter.memory[i], 0);
    }
    assert_eq!(interpreter.program_counter, 0);
    assert!(interpreter.screen.iter().all(|p| !p));
    assert!(interpreter.keys.iter().all(|k| !k));
}

#[test]
fn reset_matches_new_byte_for_byte() {
    let mut interpreter = Interpreter::new();
    let program = [0x12u8, 0x00, 0xAB, 0xCD];
    interpreter.load(&program).unwrap();
    interpreter.registers[3] = 0x99;
    interpreter.stack_push(0x0456);
    interpreter.delay_timer = 7;
    interpreter.sound_timer = 9;
    interpreter.screen[100] = true;
    interpreter.keys[4] = true;
    interpreter.index_register = 0x321;
    interpreter.reset();
    let fresh = Interpreter::new();
    assert_eq!(interpreter.program_counter, fresh.program_counter);
    assert_eq!(interpreter.index_register, fresh.index_register);
    assert_eq!(interpreter.stack_pointer, fresh.stack_pointer);
    assert_eq!(interpreter.stack, fresh.stack);
    assert_eq!(interpreter.registers, fresh.registers);
    assert!(interpreter.memory == fresh.memory);
    assert_eq!(interpreter.delay_timer, fresh.delay_timer);
    assert_eq!(interpreter.sound_timer, fresh.sound_timer);
    assert!(interpreter.screen == fresh.screen);
    assert_eq!(interpreter.keys, fresh.keys);
}

#[test]
fn clear_screen_program_darkens_preset_pixel() {
    let mut interpreter = Interpreter::new();
    interpreter.load(&[0x00, 0xE0]).unwrap();
    interpreter.screen[10 * 64 + 20] = true;
    interpreter.tick().unwrap();
    assert_eq!(interpreter.screen[10 * 64 + 20], false);
    assert_eq!(interpreter.program_counter, 0x202);
}

#[test]
fn skip_when_registers_differ_advances_pc() {
    let mut interpreter = Interpreter::new();
    interpreter.program_counter = 0x200;
    interpreter.registers[1] = 0x33;
    interpreter.registers[2] = 0x54;
    interpreter.execute(0x9120).unwrap();
    assert_eq!(interpreter.program_counter, 0x202);
}

#[test]
fn add_index_register_with_vx() {
    let mut interpreter = Interpreter::new();
    interpreter.index_register = 0x25;
    interpreter.registers[1] = 0x02;
    interpreter.execute(0xF11E).unwrap();
    assert_eq!(interpreter.index_register, 0x27);
}

#[test]
fn bcd_store_splits_decimal_digits() {
    let mut interpreter = Interpreter::new();
    interpreter.registers[1] = 0x87;
    interpreter.index_register = 0;
    interpreter.execute(0xF133).unwrap();
    assert_eq!(interpreter.memory[0], 1);
    assert_eq!(interpreter.memory[1], 3);
    assert_eq!(interpreter.memory[2], 5);
}

#[test]
fn add_carry_flag_exact_formula() {
    let mut interpreter = Interpreter::new();
    interpreter.registers[0] = 200;
    interpreter.registers[1] = 100;
    interpreter.execute(0x8014).unwrap();
    assert_eq!(interpreter.registers[0], 44);  // (200 + 100) mod 256
    assert_eq!(interpreter.registers[0xF], 1);
}

#[test]
fn sub_borrow_flag_exact_formula() {
    let mut interpreter = Interpreter::new();
    interpreter.registers[0] = 10;
    interpreter.registers[1] = 20;
    interpreter.execute(0x8015).unwrap();
    assert_eq!(interpreter.registers[0], 246);  // (10 - 20) mod 256
    assert_eq!(interpreter.registers[0xF], 0);
}

#[test]
fn shift_flags_take_shifted_out_bits() {
    let mut interpreter = Interpreter::new();
    interpreter.registers[3] = 0x01;
    interpreter.execute(0x8306).unwrap();
    assert_eq!(interpreter.registers[3], 0x00);
    assert_eq!(interpreter.registers[0xF], 1);
    interpreter.registers[3] = 0x80;
    interpreter.execute(0x830E).unwrap();
    assert_eq!(interpreter.registers[3], 0x00);
    assert_eq!(interpreter.registers[0xF], 1);
}

#[test]
fn draw_twice_restores_screen_and_reports_collision() {
    let mut interpreter = Interpreter::new();
    interpreter.registers[1] = 0x05;
    interpreter.registers[2] = 0x07;
    interpreter.index_register = 0;  // the font glyph for digit zero
    interpreter.draw(0xD125).unwrap();
    assert_eq!(interpreter.registers[0xF], 0);
    assert!(interpreter.screen[7 * 64 + 5]);
    interpreter.draw(0xD125).unwrap();
    assert_eq!(interpreter.registers[0xF], 1);
    assert!(interpreter.screen == Interpreter::new().screen);
}

#[test]
fn draw_wraps_around_screen_edges() {
    let mut interpreter = Interpreter::new();
    interpreter.registers[1] = 62;
    interpreter.registers[2] = 31;
    interpreter.index_register = 0x300;
    interpreter.memory[0x300] = 0xC0;  // two leftmost sprite bits set
    interpreter.memory[0x301] = 0xC0;
    interpreter.draw(0xD122).unwrap();
    assert!(interpreter.screen[31 * 64 + 62]);
    assert!(interpreter.screen[31 * 64 + 63]);
    assert!(interpreter.screen[0 * 64 + 62]);
    assert!(interpreter.screen[0 * 64 + 63]);
}

#[test]
fn load_then_fetch_round_trip() {
    let mut interpreter = Interpreter::new();
    interpreter.load(&[0x12, 0x34, 0x56, 0x78]).unwrap();
    assert_eq!(interpreter.program_counter, 0x200);
    assert_eq!(interpreter.fetch(), 0x1234);
    assert_eq!(interpreter.program_counter, 0x202);
    assert_eq!(interpreter.fetch(), 0x5678);
}

#[test]
fn mem_write_16_round_trips_through_mem_read_16() {
    let mut interpreter = Interpreter::new();
    interpreter.mem_write_16(0x400, 0xBEEF);
    assert_eq!(interpreter.memory[0x400], 0xBE);
    assert_eq!(interpreter.memory[0x401], 0xEF);
    assert_eq!(interpreter.mem_read_16(0x400), 0xBEEF);
}

#[test]
fn tick_timers_counts_down_to_zero_and_stays() {
    let mut interpreter = Interpreter::new();
    interpreter.delay_timer = 2;
    interpreter.sound_timer = 1;
    interpreter.tick_timers();
    assert_eq!(interpreter.delay_timer, 1);
    assert_eq!(interpreter.sound_timer, 0);
    interpreter.tick_timers();
    assert_eq!(interpreter.delay_timer, 0);
    assert_eq!(interpreter.sound_timer, 0);
    interpreter.tick_timers();
    assert_eq!(interpreter.delay_timer, 0);
    assert_eq!(interpreter.sound_timer, 0);
}

#[test]
fn keypress_sets_and_clears_the_latch() {
    let mut interpreter = Interpreter::new();
    interpreter.keypress(3, true);
    assert!(interpreter.keys[3]);
    interpreter.keypress(3, false);
    assert!(!interpreter.keys[3]);
    interpreter.keypress(16, true);  // names no key: ignored
    assert!(interpreter.keys.iter().all(|k| !k));
}

#[test]
fn get_screen_views_the_framebuffer() {
    let mut interpreter = Interpreter::new();
    interpreter.screen[5] = true;
    let screen = interpreter.get_screen();
    assert!(screen[5]);
    assert!(!screen[6]);
}

#[test]
fn rnd_with_masks_the_drawn_byte() {
    let mut interpreter = Interpreter::new();
    interpreter.rnd_with(0xC8FF, 0xAB);
    assert_eq!(interpreter.registers[8], 0xAB);
    interpreter.rnd_with(0xC811, 0xFF);
    assert_eq!(interpreter.registers[8], 0x11);
    interpreter.rnd_with(0xC800, 0xFF);
    assert_eq!(interpreter.registers[8], 0x00);
}

#[test]
fn key_wait_rewinds_until_a_key_is_down() {
    let mut interpreter = Interpreter::new();
    interpreter.load(&[0xF1, 0x0A]).unwrap();
    interpreter.tick().unwrap();
    assert_eq!(interpreter.program_counter, 0x200);  // rewound: no key down
    interpreter.keypress(9, true);
    interpreter.tick().unwrap();
    assert_eq!(interpreter.program_counter, 0x202);
    assert_eq!(interpreter.registers[1], 9);
}

#[test]
fn font_addressing_reaches_the_glyph() {
    let mut interpreter = Interpreter::new();
    interpreter.registers[1] = 0x02;
    interpreter.execute(0xF129).unwrap();
    assert_eq!(interpreter.index_register, 10);
    assert_eq!(interpreter.memory[10], 0xF0);  // first byte of the glyph for 2
}

#[test]
fn jump_program_loops_forever() {
    let mut interpreter = Interpreter::new();
    interpreter.load(&[0x12, 0x00]).unwrap();
    for _ in 0..3 {
        interpreter.tick().unwrap();
        assert_eq!(interpreter.program_counter, 0x200);
    }
}

#[test]
fn unknown_opcode_is_reported_and_state_kept() {
    let mut interpreter = Interpreter::new();
    interpreter.program_counter = 0x200;
    assert_eq!(interpreter.execute(0x5121), Err(Chip8Error::UnknownOpcode(0x5121)));
    assert_eq!(interpreter.execute(0x0123), Err(Chip8Error::UnknownOpcode(0x0123)));
    assert_eq!(interpreter.execute(0x800A), Err(Chip8Error::UnknownOpcode(0x800A)));
    assert_eq!(interpreter.execute(0xE100), Err(Chip8Error::UnknownOpcode(0xE100)));
    assert_eq!(interpreter.execute(0xF1FF), Err(Chip8Error::UnknownOpcode(0xF1FF)));
    assert_eq!(interpreter.program_counter, 0x200);
}

#[test]
fn stack_underflow_and_overflow_are_reported() {
    let mut interpreter = Interpreter::new();
    assert_eq!(interpreter.execute(0x00EE), Err(Chip8Error::StackUnderflow));
    for _ in 0..16 {
        interpreter.execute(0x2345).unwrap();
    }
    assert_eq!(interpreter.execute(0x2345), Err(Chip8Error::StackOverflow));
    assert_eq!(interpreter.stack_pointer, 16);
}

#[test]
fn out_of_range_memory_moves_are_reported() {
    let mut interpreter = Interpreter::new();
    interpreter.index_register = 4094;
    assert_eq!(interpreter.execute(0xF133), Err(Chip8Error::AddressOutOfRange));
    interpreter.index_register = 4092;
    interpreter.registers[1] = 0x07;
    assert_eq!(interpreter.execute(0xF555), Err(Chip8Error::AddressOutOfRange));
    assert_eq!(interpreter.execute(0xF565), Err(Chip8Error::AddressOutOfRange));
    interpreter.index_register = 4093;
    assert_eq!(interpreter.execute(0xD124), Err(Chip8Error::AddressOutOfRange));
}

#[test]
fn key_skip_with_bad_register_value_is_reported() {
    let mut interpreter = Interpreter::new();
    interpreter.registers[1] = 16;
    assert_eq!(interpreter.execute(0xE19E), Err(Chip8Error::KeyOutOfRange));
    assert_eq!(interpreter.execute(0xE1A1), Err(Chip8Error::KeyOutOfRange));
}

#[test]
fn tick_at_end_of_memory_is_reported() {
    let mut interpreter = Interpreter::new();
    interpreter.program_counter = 4095;
    assert_eq!(interpreter.tick(), Err(Chip8Error::ProgramCounterOutOfRange));
    assert_eq!(interpreter.program_counter, 4095);
}

#[test]
fn too_large_program_is_rejected_whole() {
    let mut interpreter = Interpreter::new();
    let program = vec![0xAAu8; 3585];
    assert_eq!(interpreter.load(&program), Err(Chip8Error::ProgramTooLarge));
    assert_eq!(interpreter.program_counter, 0);
    assert_eq!(interpreter.memory[0x200], 0);
    let program = vec![0xBBu8; 3584];
    interpreter.load(&program).unwrap();
    assert_eq!(interpreter.memory[0xFFF], 0xBB);
}

#[test]
fn tick_propagates_decode_failure_after_the_fetch() {
    let mut interpreter = Interpreter::new();
    interpreter.load(&[0x51, 0x21]).unwrap();
    assert_eq!(interpreter.tick(), Err(Chip8Error::UnknownOpcode(0x5121)));
    assert_eq!(interpreter.program_counter, 0x202);  // the fetch itself happened
}
