use chip8::cpu::CPU;
use chip8::display::Framebuffer;
use chip8::keyboard::Keyboard;
use chip8::memory::Memory;

fn cpu() -> CPU {
    CPU::new(Memory::new(), Framebuffer::new(), Keyboard::new())
}

#[test]
// 00EE - RET
fn test_stack_pop_updates_pc_and_sp() {
    let mut cpu = cpu();
    cpu.set_sp(0xf);
    cpu.decode(0x0, 0xEE).unwrap();
    assert_eq!(cpu.pc(), cpu.stack_at(0xE) + 2);
    assert_eq!(cpu.sp(), 0xE);
}

#[test]
// 1nnn - JP addr
fn should_set_pc_to_nnn() {
    let mut cpu = cpu();
    cpu.decode(0x12, 0xAA).unwrap();
    assert_eq!(cpu.pc(), 0x2AA);
}

#[test]
// 2nnn - CALL addr
fn test_stack_push_and_jump_to_nnn() {
    let mut cpu = cpu();
    cpu.set_sp(1);
    cpu.set_pc(0x200);
    cpu.decode(0x21, 0xAA).unwrap();
    assert_eq!(cpu.stack_at(cpu.sp() as usize - 1), 0x200);
    assert_eq!(cpu.sp(), 2);
    assert_eq!(cpu.pc(), 0x1AA);
}

#[test]
// 3xkk - SE Vx, byte
fn should_skip_if_vx_eq_kk() {
    let mut cpu = cpu();
    cpu.set_pc(0x200);
    cpu.set_v(1, 0xAA);
    cpu.decode(0x31, 0xAA).unwrap();
    assert_eq!(cpu.pc(), 0x204);
}

#[test]
// 4xkk - SNE Vx, byte
fn should_skip_if_vx_ne_kk() {
    let mut cpu = cpu();
    cpu.set_pc(0x200);
    cpu.set_v(1, 0xBA);
    cpu.decode(0x41, 0xAA).unwrap();
    assert_eq!(cpu.pc(), 0x204);
    cpu.set_pc(0x200);
    cpu.set_v(1, 0xAA);
    cpu.decode(0x41, 0xAA).unwrap();
    assert_ne!(cpu.pc(), 0x204);
}

#[test]
// 5xy0 - SE Vx, Vy
fn should_skip_if_vx_eq_vy() {
    let mut cpu = cpu();
    cpu.set_pc(0x200);
    cpu.set_v(0x1, 0xBA);
    cpu.set_v(0xA, 0xBA);
    cpu.decode(0x51, 0xA0).unwrap();
    assert_eq!(cpu.pc(), 0x204);
    cpu.set_pc(0x200);
    cpu.set_v(0x1, 0xFA);
    cpu.set_v(0xA, 0xBA);
    cpu.decode(0x51, 0xA0).unwrap();
    assert_eq!(cpu.pc(), 0x202);
}

#[test]
// 6xkk - LD Vx, byte
fn should_load_kk_in_vx() {
    let mut cpu = cpu();
    cpu.decode(0x6A, 0x11).unwrap();
    assert_eq!(cpu.v(0xA), 0x11);
}

#[test]
// 7xkk - ADD Vx, byte
fn should_add_vx_and_kk() {
    let mut cpu = cpu();
    let sum = cpu.v(0xA) + 0x1;
    cpu.decode(0x7A, 0x1).unwrap();
    assert_eq!(cpu.v(0xA), sum);
}

#[test]
// 8xy0 - LD Vx, Vy
fn should_load_vy_in_vx() {
    let mut cpu = cpu();
    cpu.set_v(0x1, 1);
    cpu.set_v(0xA, 34);
    cpu.decode(0x8A, 0x10).unwrap();
    assert_eq!(cpu.v(0x1), cpu.v(0xA));
}

#[test]
// 8xy1 - OR Vx, Vy
fn should_or_vx_and_vy() {
    let mut cpu = cpu();
    cpu.set_v(0xA, 2);
    cpu.set_v(0x1, 10);
    let result = cpu.v(0xA) | cpu.v(0x1);
    cpu.decode(0x8A, 0x11).unwrap();
    assert_eq!(cpu.v(0xA), result);
}

#[test]
// 8xy2 - AND Vx, Vy
fn should_and_vx_and_vy() {
    let mut cpu = cpu();
    cpu.set_v(0xA, 2);
    cpu.set_v(0x2, 10);
    let result = cpu.v(0xA) & cpu.v(0x2);
    cpu.decode(0x8A, 0x22).unwrap();
    assert_eq!(cpu.v(0xA), result);
}

#[test]
// 8xy3 - XOR Vx, Vy
fn should_xor_vx_and_vy() {
    let mut cpu = cpu();
    cpu.set_v(0xA, 2);
    cpu.set_v(0x2, 10);
    let result = cpu.v(0xA) ^ cpu.v(0x2);
    cpu.decode(0x8A, 0x23).unwrap();
    assert_eq!(cpu.v(0xA), result);
}

#[test]
// 8xy4 - ADD Vx, Vy
fn should_add_vx_and_vy_and_set_carry() {
    let mut cpu = cpu();
    let x = 0xA;
    let y = 0x2;
    cpu.set_v(x, 0xFF);
    cpu.set_v(y, 0x01);
    cpu.decode(0x8A, 0x24).unwrap();
    assert_eq!(cpu.v(0xF), 1);
    assert_eq!(cpu.v(x), 0x00);
}

#[test]
// 8xy5 - SUB Vx, Vy
fn should_subtract_vx_and_vy_and_update_vf() {
    let mut cpu = cpu();
    let x = 0xA;
    let y = 0x2;
    cpu.set_v(x, 0xFF);
    cpu.set_v(y, 0x01);
    cpu.decode(0x8A, 0x25).unwrap();
    assert_eq!(cpu.v(0xF), 1);
    assert_eq!(cpu.v(x), 0xFE);
}

#[test]
// 8xy6 - SHR Vx {, Vy}
fn should_shift_right_vx() {
    let mut cpu = cpu();
    let x = 0xA;
    let y = 0x2;
    cpu.set_v(x, 1);
    cpu.set_v(y, 2);
    cpu.decode(0x8A, 0x26).unwrap();
    assert_eq!(cpu.v(0xF), 1);
    assert_eq!(cpu.v(x), 0);
}

#[test]
// 8xy7 - SUBN Vx, Vy
fn should_subtract_vx_if_vy_greater() {
    let mut cpu = cpu();
    let x = 0xA;
    let y = 0x2;
    cpu.set_v(x, 8);
    cpu.set_v(y, 10);
    cpu.decode(0x8A, 0x27).unwrap();
    assert_eq!(cpu.v(0xF), 1);
    assert_eq!(cpu.v(x), 2);
}

#[test]
// 8xyE - SHL Vx {, Vy}
fn should_shift_left_vx() {
    let mut cpu = cpu();
    let x = 0xA;
    cpu.set_v(x, 0x81);
    cpu.decode(0x8A, 0x2E).unwrap();
    assert_eq!(cpu.v(0xF), 1);
    assert_eq!(cpu.v(x), 0x02);
}

#[test]
// 9xy0 - SNE Vx, Vy
fn skip_if_vx_ne_vy() {
    let mut cpu = cpu();
    let x = 0xA;
    let y = 0xB;
    cpu.set_pc(0x200);
    cpu.set_v(x, 123);
    cpu.set_v(y, 42);
    cpu.decode(0x9A, 0xB0).unwrap();
    assert_eq!(cpu.pc(), 0x204);
}

#[test]
// Annn - LD I, addr
fn should_load_nnn_in_i() {
    let mut cpu = cpu();
    cpu.decode(0xAB, 0x22).unwrap();
    assert_eq!(cpu.i(), 0xB22);
}

#[test]
// Bnnn - JP V0, addr
fn should_jump_to_nnn_plus_v0() {
    let mut cpu = cpu();
    cpu.decode(0xB1, 0x42).unwrap();
    assert_eq!(cpu.pc(), 0x142);
}

#[test]
// Fx07 - LD Vx, DT
fn should_load_dt_in_vx() {
    let mut cpu = cpu();
    cpu.set_dt(42);
    cpu.decode(0xF1, 0x07).unwrap();
    assert_eq!(cpu.v(1), 42);
}

#[test]
// Fx15 - LD DT, Vx
fn should_load_vx_in_dt() {
    let mut cpu = cpu();
    cpu.set_v(1, 42);
    cpu.decode(0xF1, 0x15).unwrap();
    assert_eq!(cpu.dt(), 42);
}

#[test]
// Fx18 - LD ST, Vx
fn should_load_vc_in_st() {
    let mut cpu = cpu();
    cpu.set_v(1, 42);
    cpu.decode(0xF1, 0x18).unwrap();
    assert_eq!(cpu.st(), 42);
}

#[test]
// Fx1E - ADD I, Vx
fn should_add_i_and_vx() {
    let mut cpu = cpu();
    cpu.set_v(1, 42);
    cpu.set_i(1);
    cpu.decode(0xF1, 0x1E).unwrap();
    assert_eq!(cpu.i(), 43);
}

#[test]
// Fx29 - LD F, Vx
fn should_set_i_to_location_of_sprite_for_vx() {
    let mut cpu = cpu();
    cpu.set_v(5, 2);
    cpu.memory_mut().load_sprites();
    cpu.decode(0xF5, 0x29).unwrap();
    assert_eq!(cpu.i(), 10);
}

#[test]
// Fx33 - LD B, Vx
fn should_store_bcd_representation_of_vx() {
    let mut cpu = cpu();
    cpu.set_v(5, 152);
    cpu.decode(0xF5, 0x33).unwrap();
    assert_eq!(cpu.memory().read(cpu.i()).unwrap(), 1);
    assert_eq!(cpu.memory().read(cpu.i() + 1).unwrap(), 5);
    assert_eq!(cpu.memory().read(cpu.i() + 2).unwrap(), 2);
}

#[test]
// Fx55 - LD [I], Vx
fn should_store_registers_v0_through_vx_in_memory_starting_at_i() {
    let mut cpu = cpu();
    cpu.set_v(0, 1);
    cpu.set_v(1, 2);
    cpu.set_v(2, 3);
    cpu.set_i(0x200);
    cpu.decode(0xF2, 0x55).unwrap();
    assert_eq!(cpu.memory().read(cpu.i()).unwrap(), 1);
    assert_eq!(cpu.memory().read(cpu.i() + 1).unwrap(), 2);
    assert_eq!(cpu.memory().read(cpu.i() + 2).unwrap(), 3);
}

#[test]
// Fx65 - LD Vx, [I]
fn should_read_v0_through_vx_starting_at_i() {
    let mut cpu = cpu();
    cpu.set_i(0x200);
    let i = cpu.i();
    cpu.memory_mut().write(i, 2).unwrap();
    cpu.memory_mut().write(i + 1, 3).unwrap();
    cpu.memory_mut().write(i + 2, 4).unwrap();
    cpu.decode(0xF2, 0x65).unwrap();
    assert_eq!(cpu.v(0), 2);
    assert_eq!(cpu.v(1), 3);
    assert_eq!(cpu.v(2), 4);
}
