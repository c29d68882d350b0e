use chip8::Chip8Error;
use chip8::cpu::Cpu;
use chip8::machine::PROGRAM_START;

#[test]
fn cpu_test_memory() {
    let mut cpu = Cpu::new();
    cpu.mem_write(PROGRAM_START, 0x20);
    assert_eq!(cpu.mem_read(PROGRAM_START), 0x20);
}

#[test]
fn cpu_test_load() {
    let program = [7u8; 1000];
    let mut cpu = Cpu::new();
    cpu.load(&program).unwrap();
    assert_eq!(cpu.program_counter, PROGRAM_START);
    assert_eq!(cpu.mem_read(0x25f), 7);
}

#[test]
fn cpu_test_fetch() {
    let program = [0xffu8; 1000];
    let mut cpu = Cpu::new();
    cpu.load(&program).unwrap();
    let operation = cpu.fetch();
    assert_eq!(cpu.program_counter, 0x202);
    assert_eq!(operation, 0xffff);
}

#[test]
fn cpu_test_cls() {
    assert!(true);
}

#[test]
fn cpu_test_ret() {
    let mut cpu = Cpu::new();
    cpu.stack_push(0x1111);
    cpu.ret().unwrap();
    assert_eq!(cpu.program_counter, 0x1111);
}

#[test]
fn cpu_test_jp_to_addr() {
    let mut cpu = Cpu::new();
    cpu.jp_to_addr(0x1111);
    assert_eq!(cpu.program_counter, 0x0111);
}

#[test]
fn cpu_test_call_at_addr() {
    let mut cpu = Cpu::new();
    cpu.program_counter = PROGRAM_START;
    cpu.call_at_addr(0x2222).unwrap();
    assert_eq!(cpu.stack_pop(), 0x0200);
    assert_eq!(cpu.program_counter, 0x0222)
}

#[test]
fn cpu_test_se_vx_and_byte() {
    let mut cpu = Cpu::new();
    cpu.program_counter = PROGRAM_START;
    cpu.registers[1] = 0x55;
    cpu.se_vx_and_byte(0x3155).unwrap();
    assert_eq!(cpu.program_counter, 0x0202)
}

#[test]
fn cpu_test_sne_vx_and_byte() {
    let mut cpu = Cpu::new();
    cpu.program_counter = PROGRAM_START;
    cpu.registers[1] = 0x55;
    cpu.sne_vx_and_byte(0x4144).unwrap();
    assert_eq!(cpu.program_counter, 0x0202)
}

#[test]
fn cpu_test_se_vx_and_vy() {
    let mut cpu = Cpu::new();
    cpu.program_counter = PROGRAM_START;
    cpu.registers[1] = 0x55;
    cpu.registers[2] = 0x55;
    cpu.se_vx_and_vy(0x5120).unwrap();
    assert_eq!(cpu.program_counter, 0x0202)
}

#[test]
fn cpu_test_ld_vx_with_byte() {
    let mut cpu = Cpu::new();
    cpu.ld_vx_with_byte(0x6130);
    assert_eq!(cpu.registers[1], 0x0030)
}

#[test]
fn cpu_test_add_vx_with_byte() {
    let mut cpu = Cpu::new();
    cpu.registers[1] = 0x33;
    cpu.add_vx_with_byte(0x7130);
    assert_eq!(cpu.registers[1], 0x0063)
}

#[test]
fn cpu_test_ld_vx_with_vy() {
    let mut cpu = Cpu::new();
    cpu.registers[2] = 0x33;
    cpu.ld_vx_with_vy(0x8120);
    assert_eq!(cpu.registers[1], 0x0033)
}

#[test]
fn cpu_test_or_vx_with_vy() {
    let mut cpu = Cpu::new();
    cpu.registers[7] = 0xe7;
    cpu.registers[5] = 0x33;
    cpu.or_vx_with_vy(0x8751);
    assert_eq!(cpu.registers[7], 0xF7)
}

#[test]
fn cpu_test_and_vx_with_vy() {
    let mut cpu = Cpu::new();
    cpu.registers[7] = 0xe7;
    cpu.registers[5] = 0x33;
    cpu.and_vx_with_vy(0x8752);
    assert_eq!(cpu.registers[7], 0x23)
}

#[test]
fn cpu_test_xor_vx_with_vy() {
    let mut cpu = Cpu::new();
    cpu.registers[7] = 0xe7;
    cpu.registers[5] = 0x33;
    cpu.xor_vx_with_vy(0x8753);
    assert_eq!(cpu.registers[7], 0xD4)
}

#[test]
fn cpu_test_add_vx_with_vy_carry() {
    let mut cpu = Cpu::new();
    cpu.registers[7] = 0xe7;
    cpu.registers[5] = 0x33;
    cpu.add_vx_with_vy(0x8754);
    assert_eq!(cpu.registers[7], 0x1A);
    assert_eq!(cpu.registers[0xF], 1)
}

#[test]
fn cpu_test_add_vx_with_vy_no_carry() {
    let mut cpu = Cpu::new();
    cpu.registers[7] = 0x07;
    cpu.registers[5] = 0x03;
    cpu.add_vx_with_vy(0x8754);
    assert_eq!(cpu.registers[7], 0x0A);
    assert_eq!(cpu.registers[0xF], 0)
}

#[test]
fn cpu_test_sub_vx_with_vy_borrow() {
    let mut cpu = Cpu::new();
    cpu.registers[7] = 0x33;
    cpu.registers[5] = 0xE7;
    cpu.sub_vx_with_vy(0x8755);
    assert_eq!(cpu.registers[7], 0x4C);
    assert_eq!(cpu.registers[0xF], 0)
}

#[test]
fn cpu_test_sub_vx_with_vy_no_borrow() {
    let mut cpu = Cpu::new();
    cpu.registers[7] = 0xe7;
    cpu.registers[5] = 0x33;
    cpu.sub_vx_with_vy(0x8755);
    assert_eq!(cpu.registers[7], 0xB4);
    assert_eq!(cpu.registers[0xF], 1)
}

#[test]
fn cpu_test_shr_vx_vf_1() {
    let mut cpu = Cpu::new();
    cpu.registers[5] = 0x33;
    cpu.shr_vx(0x8556);
    assert_eq!(cpu.registers[5], 0x19);
    assert_eq!(cpu.registers[0xF], 1)
}

#[test]
fn cpu_test_shr_vx_vf_0() {
    let mut cpu = Cpu::new();
    cpu.registers[5] = 0x32;
    cpu.shr_vx(0x8556);
    assert_eq!(cpu.registers[5], 0x19);
    assert_eq!(cpu.registers[0xF], 0)
}

#[test]
fn cpu_test_subn_vx_with_vy_borrow() {
    let mut cpu = Cpu::new();
    cpu.registers[7] = 0x33;
    cpu.registers[5] = 0xE7;
    cpu.subn_vx_with_vy(0x8757);
    assert_eq!(cpu.registers[7], 0xB4);
    assert_eq!(cpu.registers[0xF], 1)
}

#[test]
fn cpu_test_subn_vx_with_vy_no_borrow() {
    let mut cpu = Cpu::new();
    cpu.registers[7] = 0xe7;
    cpu.registers[5] = 0x33;
    cpu.subn_vx_with_vy(0x8757);
    assert_eq!(cpu.registers[7], 0x4C);
    assert_eq!(cpu.registers[0xF], 0)
}

#[test]
fn cpu_test_shl_vx_vf_1() {
    let mut cpu = Cpu::new();
    cpu.registers[5] = 0xE3;
    cpu.shl_vx(0x855E);
    assert_eq!(cpu.registers[5], 0xC6);
    assert_eq!(cpu.registers[0xF], 1)
}

#[test]
fn cpu_test_shl_vx_vf_0() {
    let mut cpu = Cpu::new();
    cpu.registers[5] = 0x32;
    cpu.shl_vx(0x855E);
    assert_eq!(cpu.registers[5], 0x64);
    assert_eq!(cpu.registers[0xF], 0)
}

#[test]
fn cpu_test_sne_vx_and_vy() {
    let mut cpu = Cpu::new();
    cpu.program_counter = PROGRAM_START;
    cpu.registers[1] = 0x55;
    cpu.registers[2] = 0x54;
    cpu.sne_vx_and_vy(0x9120).unwrap();
    assert_eq!(cpu.program_counter, 0x0202)
}

#[test]
fn cpu_test_ld_i_with_addr() {
    let mut cpu = Cpu::new();
    cpu.ld_i_with_addr(0xA130);
    assert_eq!(cpu.index_register, 0x0130)
}

#[test]
fn cpu_test_jp_to_v0_plus_addr() {
    let mut cpu = Cpu::new();
    cpu.registers[0] = 0x46;
    cpu.jp_to_v0_plus_addr(0xB111);
    assert_eq!(cpu.program_counter, 0x0157);
}

#[test]
fn cpu_reset_matches_new() {
    let mut cpu = Cpu::new();
    cpu.ld_vx_with_byte(0x6130);
    cpu.ld_i_with_addr(0xA130);
    cpu.stack_push(0x0222);
    cpu.mem_write(0x300, 0x99);
    cpu.reset();
    let fresh = Cpu::new();
    assert_eq!(cpu.program_counter, fresh.program_counter);
    assert_eq!(cpu.index_register, fresh.index_register);
    assert_eq!(cpu.stack_pointer, fresh.stack_pointer);
    assert_eq!(cpu.stack, fresh.stack);
    assert_eq!(cpu.registers, fresh.registers);
    assert!(cpu.memory == fresh.memory);
    assert_eq!(cpu.delay_timer, fresh.delay_timer);
    assert_eq!(cpu.sound_timer, fresh.sound_timer);
    assert!(cpu.display == fresh.display);
    assert_eq!(cpu.keys, fresh.keys);
}

#[test]
fn cpu_display_opcodes_are_accepted_and_inert() {
    let mut cpu = Cpu::new();
    cpu.registers[1] = 0x02;
    cpu.index_register = 0x25;
    cpu.execute(0xD123).unwrap();
    cpu.execute(0xE19E).unwrap();
    cpu.execute(0xF11E).unwrap();
    assert_eq!(cpu.index_register, 0x25);
    assert!(cpu.display == Cpu::new().display);
    assert_eq!(cpu.execute(0xF1FF), Err(Chip8Error::UnknownOpcode(0xF1FF)));
}

#[test]
fn cpu_rnd_with_masks_the_drawn_byte() {
    let mut cpu = Cpu::new();
    cpu.registers[8] = 0x46;
    cpu.rnd_with(0xC811, 0xFF);
    assert_eq!(cpu.registers[8], 0x11);
    cpu.rnd_with(0xC800, 0xFF);
    assert_eq!(cpu.registers[8], 0x00);
}
