use chip8::interpreter::Interpreter;
use chip8::machine::PROGRAM_START;

#[test]
fn interpreter_test_memory() {
    let mut interpreter = Interpreter::new();
    interpreter.mem_write(PROGRAM_START, 0x20);
    assert_eq!(interpreter.mem_read(PROGRAM_START), 0x20);
}

#[test]
fn interpreter_test_load() {
    let program = [7u8; 1000];
    let mut interpreter = Interpreter::new();
    interpreter.load(&program).unwrap();
    assert_eq!(interpreter.program_counter, PROGRAM_START);
    assert_eq!(interpreter.mem_read(0x25f), 7);
}

#[test]
fn interpreter_test_fetch() {
    let program = [0xffu8; 1000];
    let mut interpreter = Interpreter::new();
    interpreter.load(&program).unwrap();
    let operation = interpreter.fetch();
    assert_eq!(interpreter.program_counter, 0x202);
    assert_eq!(operation, 0xffff);
}

#[test]
fn interpreter_test_cls() {
    let mut interpreter = Interpreter::new();
    interpreter.screen[5 * 64 + 8] = true;
    interpreter.cls();
    assert_eq!(interpreter.screen[5 * 64 + 8], false)
}

#[test]
fn interpreter_test_ret() {
    let mut interpreter = Interpreter::new();
    interpreter.stack_push(0x1111);
    interpreter.ret().unwrap();
    assert_eq!(interpreter.program_counter, 0x1111);
}

#[test]
fn interpreter_test_jp_to_addr() {
    let mut interpreter = Interpreter::new();
    interpreter.jp_to_addr(0x1111);
    assert_eq!(interpreter.program_counter, 0x0111);
}

#[test]
fn interpreter_test_call_at_addr() {
    let mut interpreter = Interpreter::new();
    interpreter.program_counter = PROGRAM_START;
    interpreter.call_at_addr(0x2222).unwrap();
    assert_eq!(interpreter.stack_pop(), 0x0200);
    assert_eq!(interpreter.program_counter, 0x0222)
}

#[test]
fn interpreter_test_se_vx_and_byte() {
    let mut interpreter = Interpreter::new();
    interpreter.program_counter = PROGRAM_START;
    interpreter.registers[1] = 0x55;
    interpreter.se_vx_and_byte(0x3155).unwrap();
    assert_eq!(interpreter.program_counter, 0x0202)
}

#[test]
fn interpreter_test_sne_vx_and_byte() {
    let mut interpreter = Interpreter::new();
    interpreter.program_counter = PROGRAM_START;
    interpreter.registers[1] = 0x55;
    interpreter.sne_vx_and_byte(0x4144).unwrap();
    assert_eq!(interpreter.program_counter, 0x0202)
}

#[test]
fn interpreter_test_se_vx_and_vy() {
    let mut interpreter = Interpreter::new();
    interpreter.program_counter = PROGRAM_START;
    interpreter.registers[1] = 0x55;
    interpreter.registers[2] = 0x55;
    interpreter.se_vx_and_vy(0x5120).unwrap();
    assert_eq!(interpreter.program_counter, 0x0202)
}

#[test]
fn interpreter_test_ld_vx_with_byte() {
    let mut interpreter = Interpreter::new();
    interpreter.ld_vx_with_byte(0x6130);
    assert_eq!(interpreter.registers[1], 0x0030)
}

#[test]
fn interpreter_test_add_vx_with_byte() {
    let mut interpreter = Interpreter::new();
    interpreter.registers[1] = 0x33;
    interpreter.add_vx_with_byte(0x7130);
    assert_eq!(interpreter.registers[1], 0x0063)
}

#[test]
fn interpreter_test_ld_vx_with_vy() {
    let mut interpreter = Interpreter::new();
    interpreter.registers[2] = 0x33;
    interpreter.ld_vx_with_vy(0x8120);
    assert_eq!(interpreter.registers[1], 0x0033)
}

#[test]
fn interpreter_test_or_vx_with_vy() {
    let mut interpreter = Interpreter::new();
    interpreter.registers[7] = 0xe7;
    interpreter.registers[5] = 0x33;
    interpreter.or_vx_with_vy(0x8751);
    assert_eq!(interpreter.registers[7], 0xF7)
}

#[test]
fn interpreter_test_and_vx_with_vy() {
    let mut interpreter = Interpreter::new();
    interpreter.registers[7] = 0xe7;
    interpreter.registers[5] = 0x33;
    interpreter.and_vx_with_vy(0x8752);
    assert_eq!(interpreter.registers[7], 0x23)
}

#[test]
fn interpreter_test_xor_vx_with_vy() {
    let mut interpreter = Interpreter::new();
    interpreter.registers[7] = 0xe7;
    interpreter.registers[5] = 0x33;
    interpreter.xor_vx_with_vy(0x8753);
    assert_eq!(interpreter.registers[7], 0xD4)
}

#[test]
fn interpreter_test_add_vx_with_vy_carry() {
    let mut interpreter = Interpreter::new();
    interpreter.registers[7] = 0xe7;
    interpreter.registers[5] = 0x33;
    interpreter.add_vx_with_vy(0x8754);
    assert_eq!(interpreter.registers[7], 0x1A);
    assert_eq!(interpreter.registers[0xF], 1)
}

#[test]
fn interpreter_test_add_vx_with_vy_no_carry() {
    let mut interpreter = Interpreter::new();
    interpreter.registers[7] = 0x07;
    interpreter.registers[5] = 0x03;
    interpreter.add_vx_with_vy(0x8754);
    assert_eq!(interpreter.registers[7], 0x0A);
    assert_eq!(interpreter.registers[0xF], 0)
}

#[test]
fn interpreter_test_sub_vx_with_vy_borrow() {
    let mut interpreter = Interpreter::new();
    interpreter.registers[7] = 0x33;
    interpreter.registers[5] = 0xE7;
    interpreter.sub_vx_with_vy(0x8755);
    assert_eq!(interpreter.registers[7], 0x4C);
    assert_eq!(interpreter.registers[0xF], 0)
}

#[test]
fn interpreter_test_sub_vx_with_vy_no_borrow() {
    let mut interpreter = Interpreter::new();
    interpreter.registers[7] = 0xe7;
    interpreter.registers[5] = 0x33;
    interpreter.sub_vx_with_vy(0x8755);
    assert_eq!(interpreter.registers[7], 0xB4);
    assert_eq!(interpreter.registers[0xF], 1)
}

#[test]
fn interpreter_test_shr_vx_vf_1() {
    let mut interpreter = Interpreter::new();
    interpreter.registers[5] = 0x33;
    interpreter.shr_vx(0x8556);
    assert_eq!(interpreter.registers[5], 0x19);
    assert_eq!(interpreter.registers[0xF], 1)
}

#[test]
fn interpreter_test_shr_vx_vf_0() {
    let mut interpreter = Interpreter::new();
    interpreter.registers[5] = 0x32;
    interpreter.shr_vx(0x8556);
    assert_eq!(interpreter.registers[5], 0x19);
    assert_eq!(interpreter.registers[0xF], 0)
}

#[test]
fn interpreter_test_subn_vx_with_vy_borrow() {
    let mut interpreter = Interpreter::new();
    interpreter.registers[7] = 0x33;
    interpreter.registers[5] = 0xE7;
    interpreter.subn_vx_with_vy(0x8757);
    assert_eq!(interpreter.registers[7], 0xB4);
    assert_eq!(interpreter.registers[0xF], 1)
}

#[test]
fn interpreter_test_subn_vx_with_vy_no_borrow() {
    let mut interpreter = Interpreter::new();
    interpreter.registers[7] = 0xe7;
    interpreter.registers[5] = 0x33;
    interpreter.subn_vx_with_vy(0x8757);
    assert_eq!(interpreter.registers[7], 0x4C);
    assert_eq!(interpreter.registers[0xF], 0)
}

#[test]
fn interpreter_test_shl_vx_vf_1() {
    let mut interpreter = Interpreter::new();
    interpreter.registers[5] = 0xE3;
    interpreter.shl_vx(0x855E);
    assert_eq!(interpreter.registers[5], 0xC6);
    assert_eq!(interpreter.registers[0xF], 1)
}

#[test]
fn interpreter_test_shl_vx_vf_0() {
    let mut interpreter = Interpreter::new();
    interpreter.registers[5] = 0x32;
    interpreter.shl_vx(0x855E);
    assert_eq!(interpreter.registers[5], 0x64);
    assert_eq!(interpreter.registers[0xF], 0)
}

#[test]
fn interpreter_test_sne_vx_and_vy() {
    let mut interpreter = Interpreter::new();
    interpreter.program_counter = PROGRAM_START;
    interpreter.registers[1] = 0x55;
    interpreter.registers[2] = 0x54;
    interpreter.sne_vx_and_vy(0x9120).unwrap();
    assert_eq!(interpreter.program_counter, 0x0202)
}

#[test]
fn interpreter_test_ld_i_with_addr() {
    let mut interpreter = Interpreter::new();
    interpreter.ld_i_with_addr(0xA130);
    assert_eq!(interpreter.index_register, 0x0130)
}

#[test]
fn interpreter_test_jp_to_v0_plus_addr() {
    let mut interpreter = Interpreter::new();
    interpreter.registers[0] = 0x46;
    interpreter.jp_to_v0_plus_addr(0xB111);
    assert_eq!(interpreter.program_counter, 0x0157);
}

#[test]
fn interpreter_test_rnd() {
    let mut interpreter = Interpreter::new();
    interpreter.registers[8] = 0x46;
    interpreter.rnd(0xC811);
    assert!(true);  // the drawn byte is unconstrained; rnd_with is tested exactly
}

#[test]
fn test_draw() {
    let mut interpreter = Interpreter::new();
    interpreter.registers[1] = 0x20;
    interpreter.registers[2] = 0x10;
    interpreter.index_register = PROGRAM_START;
    let sprite = [0xF0, 0x90, 0x90, 0x90, 0xF0];
    interpreter.memory[PROGRAM_START as usize..PROGRAM_START as usize + sprite.len()]
        .copy_from_slice(&sprite);
    interpreter.draw(0xD125).unwrap();

    let coordinates = [
        (16, 32),
        (16, 33),
        (16, 34),
        (16, 35),
        (17, 32),
        (17, 35),
        (18, 32),
        (18, 35),
        (19, 32),
        (19, 35),
        (20, 32),
        (20, 33),
        (20, 34),
        (20, 35),
    ];

    for (r, c) in coordinates {
        assert!(interpreter.screen[r * 64 + c])
    }
    assert_eq!(interpreter.registers[0xF], 0)
}

#[test]
fn test_skp() {
    let mut interpreter = Interpreter::new();
    interpreter.program_counter = PROGRAM_START;
    interpreter.registers[1] = 0x01;
    interpreter.keys[1] = true;
    interpreter.skp(0xE19E).unwrap();
    assert_eq!(interpreter.program_counter, 0x202);
}

#[test]
fn test_sknp() {
    let mut interpreter = Interpreter::new();
    interpreter.program_counter = PROGRAM_START;
    interpreter.registers[1] = 0x01;
    interpreter.keys[1] = false;
    interpreter.sknp(0xE1A1).unwrap();
    assert_eq!(interpreter.program_counter, 0x202);
}

#[test]
fn test_ld_vx_with_dt() {
    let mut interpreter = Interpreter::new();
    interpreter.delay_timer = 2;
    interpreter.ld_vx_with_dt(0xF107);
    assert_eq!(interpreter.registers[1], 0x02);
}

#[test]
fn test_ld_vx_with_key_press() {
    let mut interpreter = Interpreter::new();
    interpreter.keys[1] = true;
    interpreter.ld_vx_with_key_press(0xF10A).unwrap();
    assert_eq!(interpreter.registers[1], 0x01);
}

#[test]
fn test_ld_dt_with_vx() {
    let mut interpreter = Interpreter::new();
    interpreter.registers[1] = 2;
    interpreter.ld_dt_with_vx(0xF115);
    assert_eq!(interpreter.delay_timer, 0x02);
}

#[test]
fn test_ld_st_with_vx() {
    let mut interpreter = Interpreter::new();
    interpreter.registers[1] = 2;
    interpreter.ld_st_with_vx(0xF118);
    assert_eq!(interpreter.sound_timer, 0x02);
}

#[test]
fn test_add_i_with_vx() {
    let mut interpreter = Interpreter::new();
    interpreter.registers[1] = 0x02;
    interpreter.index_register = 0x25;
    interpreter.add_i_with_vx(0xF11E);
    assert_eq!(interpreter.index_register, 0x27);
}

#[test]
fn test_ld_i_with_font_address() {
    let mut interpreter = Interpreter::new();
    interpreter.registers[1] = 0x02;
    interpreter.ld_i_with_font_address(0xF129);
    assert_eq!(interpreter.index_register, 0x0A);
}

#[test]
fn test_ld_bcd() {
    let mut interpreter = Interpreter::new();
    interpreter.registers[1] = 0x87;
    interpreter.ld_bcd(0xF133).unwrap();
    assert_eq!(interpreter.mem_read(0x0), 0x1);
    assert_eq!(interpreter.mem_read(0x1), 0x3);
    assert_eq!(interpreter.mem_read(0x2), 0x5);
}

#[test]
fn test_ld_mem_with_registers() {
    let mut interpreter = Interpreter::new();
    interpreter.registers[0] = 0x84;
    interpreter.registers[1] = 0x85;
    interpreter.registers[2] = 0x86;
    interpreter.ld_mem_with_registers(0xF255).unwrap();
    assert_eq!(interpreter.mem_read(0x0), 0x84);
    assert_eq!(interpreter.mem_read(0x1), 0x85);
    assert_eq!(interpreter.mem_read(0x2), 0x86);
}

#[test]
fn test_ld_registers_with_mem() {
    let mut interpreter = Interpreter::new();
    interpreter.mem_write(0x0, 0x84);
    interpreter.mem_write(0x1, 0x85);
    interpreter.mem_write(0x2, 0x86);
    interpreter.ld_registers_with_mem(0xF255).unwrap();
    assert_eq!(interpreter.registers[0], 0x84);
    assert_eq!(interpreter.registers[1], 0x85);
    assert_eq!(interpreter.registers[2], 0x86);
}
