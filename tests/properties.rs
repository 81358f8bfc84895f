use chip8::cpu::{RunState, CPU};
use chip8::debugger::ShowArgs;
use chip8::display::{DisplayTrait, Framebuffer};
use chip8::error::Chip8Error;
use chip8::instruction::{decode_instruction, Instruction};
use chip8::keyboard::Keyboard;
use chip8::memory::Memory;

fn machine() -> CPU {
    CPU::new(Memory::new(), Framebuffer::new(), Keyboard::new())
}

fn machine_with_program(rom: &[u8]) -> CPU {
    let mut memory = Memory::new();
    memory.load(rom).unwrap();
    CPU::new(memory, Framebuffer::new(), Keyboard::new())
}

fn lit_pixels(cpu: &CPU) -> usize {
    let mut n = 0;
    for y in 0..32 {
        for x in 0..64 {
            if cpu.display().get_pixel(x, y) {
                n += 1;
            }
        }
    }
    n
}

#[test]
fn new_machine_starts_at_program() {
    let cpu = machine();
    assert_eq!(cpu.pc(), 0x200);
    assert_eq!(cpu.sp(), 0);
    assert_eq!(cpu.i(), 0);
    assert_eq!(cpu.dt(), 0);
    assert_eq!(cpu.st(), 0);
    assert_eq!(cpu.state(), RunState::Running);
    for x in 0..16 {
        assert_eq!(cpu.v(x), 0);
    }
}

#[test]
fn delay_timer_round_trip() {
    let mut cpu = machine();
    cpu.decode(0x6A, 0x2A).unwrap();
    cpu.decode(0xFA, 0x15).unwrap();
    cpu.decode(0xF3, 0x07).unwrap();
    assert_eq!(cpu.dt(), 0x2A);
    assert_eq!(cpu.v(3), 0x2A);
}

#[test]
fn add_without_and_with_carry() {
    let mut cpu = machine();
    cpu.set_v(1, 100);
    cpu.set_v(2, 100);
    cpu.decode(0x81, 0x24).unwrap();
    assert_eq!(cpu.v(1), 200);
    assert_eq!(cpu.v(0xF), 0);
    cpu.set_v(1, 200);
    cpu.set_v(2, 100);
    cpu.decode(0x81, 0x24).unwrap();
    assert_eq!(cpu.v(1), 44);
    assert_eq!(cpu.v(0xF), 1);
}

#[test]
fn sub_with_and_without_borrow() {
    let mut cpu = machine();
    cpu.set_v(1, 5);
    cpu.set_v(2, 10);
    cpu.decode(0x81, 0x25).unwrap();
    assert_eq!(cpu.v(1), 251);
    assert_eq!(cpu.v(0xF), 0);
    cpu.set_v(1, 10);
    cpu.set_v(2, 5);
    cpu.decode(0x81, 0x25).unwrap();
    assert_eq!(cpu.v(1), 5);
    assert_eq!(cpu.v(0xF), 1);
    cpu.set_v(1, 7);
    cpu.set_v(2, 7);
    cpu.decode(0x81, 0x25).unwrap();
    assert_eq!(cpu.v(1), 0);
    assert_eq!(cpu.v(0xF), 0);
}

#[test]
fn subn_borrows_when_vy_smaller() {
    let mut cpu = machine();
    cpu.set_v(1, 10);
    cpu.set_v(2, 8);
    cpu.decode(0x81, 0x27).unwrap();
    assert_eq!(cpu.v(1), 254);
    assert_eq!(cpu.v(0xF), 0);
}

#[test]
fn add_byte_wraps_without_flag() {
    let mut cpu = machine();
    cpu.set_v(3, 250);
    cpu.set_v(0xF, 9);
    cpu.decode(0x73, 10).unwrap();
    assert_eq!(cpu.v(3), 4);
    assert_eq!(cpu.v(0xF), 9);
}

#[test]
fn shifts_report_the_bit_shifted_out() {
    let mut cpu = machine();
    cpu.set_v(4, 0x7E);
    cpu.decode(0x84, 0x06).unwrap();
    assert_eq!(cpu.v(4), 0x3F);
    assert_eq!(cpu.v(0xF), 0);
    cpu.set_v(4, 0x7E);
    cpu.decode(0x84, 0x0E).unwrap();
    assert_eq!(cpu.v(4), 0xFC);
    assert_eq!(cpu.v(0xF), 0);
}

#[test]
fn clear_after_draw_darkens_every_pixel() {
    let mut cpu = machine();
    cpu.memory_mut().load_sprites();
    cpu.set_v(0, 10);
    cpu.set_v(1, 5);
    cpu.decode(0xD0, 0x15).unwrap();
    assert!(lit_pixels(&cpu) > 0);
    cpu.decode(0x00, 0xE0).unwrap();
    assert_eq!(lit_pixels(&cpu), 0);
    assert_eq!(cpu.pc(), 0x204);
}

#[test]
fn drawing_twice_collides_and_restores() {
    let mut cpu = machine();
    cpu.memory_mut().load_sprites();
    cpu.set_i(0);
    cpu.set_v(2, 3);
    cpu.set_v(3, 4);
    cpu.decode(0xD2, 0x35).unwrap();
    assert_eq!(cpu.v(0xF), 0);
    // glyph 0 is F0 90 90 90 F0: 4 + 2 + 2 + 2 + 4 pixels
    assert_eq!(lit_pixels(&cpu), 14);
    assert!(cpu.display().get_pixel(3, 4));
    assert!(cpu.display().get_pixel(6, 5));
    assert!(!cpu.display().get_pixel(4, 5));
    cpu.decode(0xD2, 0x35).unwrap();
    assert_eq!(cpu.v(0xF), 1);
    assert_eq!(lit_pixels(&cpu), 0);
}

#[test]
fn drawing_wraps_around_the_edges() {
    let mut cpu = machine();
    cpu.set_i(0x300);
    cpu.memory_mut().write(0x300, 0xFF).unwrap();
    cpu.memory_mut().write(0x301, 0x80).unwrap();
    cpu.set_v(0, 60);
    cpu.set_v(1, 31);
    cpu.decode(0xD0, 0x12).unwrap();
    assert!(cpu.display().get_pixel(60, 31));
    assert!(cpu.display().get_pixel(63, 31));
    assert!(cpu.display().get_pixel(0, 31));
    assert!(cpu.display().get_pixel(3, 31));
    assert!(!cpu.display().get_pixel(4, 31));
    assert!(cpu.display().get_pixel(60, 0));
    assert!(!cpu.display().get_pixel(61, 0));
    assert_eq!(lit_pixels(&cpu), 9);
}

#[test]
fn coordinates_are_taken_modulo_the_screen() {
    let mut cpu = machine();
    cpu.set_i(0x300);
    cpu.memory_mut().write(0x300, 0x80).unwrap();
    cpu.set_v(0, 64 + 5);
    cpu.set_v(1, 32 + 7);
    cpu.decode(0xD0, 0x11).unwrap();
    assert!(cpu.display().get_pixel(5, 7));
    assert_eq!(lit_pixels(&cpu), 1);
}

#[test]
fn draw_past_end_of_memory_fails_unchanged() {
    let mut cpu = machine();
    cpu.set_i(0xFFE);
    assert_eq!(cpu.decode(0xD0, 0x13), Err(Chip8Error::AddressOutOfRange(0xFFE)));
    assert_eq!(cpu.pc(), 0x200);
    assert_eq!(lit_pixels(&cpu), 0);
}

#[test]
fn nested_calls_unwind_in_reverse() {
    let mut cpu = machine();
    let mut sites = Vec::new();
    for k in 0..16u16 {
        sites.push(cpu.pc());
        let target = 0x300 + 2 * k;
        cpu.decode(0x20 | (target >> 8) as u8, target as u8).unwrap();
        assert_eq!(cpu.pc(), target);
    }
    assert_eq!(cpu.sp(), 16);
    assert_eq!(cpu.decode(0x24, 0x00), Err(Chip8Error::StackOverflow));
    assert_eq!(cpu.sp(), 16);
    for k in (0..16).rev() {
        cpu.decode(0x00, 0xEE).unwrap();
        assert_eq!(cpu.pc(), sites[k] + 2);
    }
    assert_eq!(cpu.sp(), 0);
    assert_eq!(cpu.decode(0x00, 0xEE), Err(Chip8Error::StackUnderflow));
}

#[test]
fn font_glyph_address() {
    let mut cpu = machine();
    cpu.memory_mut().load_sprites();
    cpu.set_v(5, 2);
    cpu.decode(0xF5, 0x29).unwrap();
    assert_eq!(cpu.i(), 10);
    assert_eq!(cpu.memory().read(cpu.i()).unwrap(), 0xF0);
}

#[test]
fn bcd_of_zero_and_255() {
    let mut cpu = machine();
    cpu.set_i(0x300);
    cpu.set_v(1, 255);
    cpu.decode(0xF1, 0x33).unwrap();
    assert_eq!(cpu.memory().read(0x300).unwrap(), 2);
    assert_eq!(cpu.memory().read(0x301).unwrap(), 5);
    assert_eq!(cpu.memory().read(0x302).unwrap(), 5);
    cpu.set_v(1, 0);
    cpu.decode(0xF1, 0x33).unwrap();
    assert_eq!(cpu.memory().read(0x300).unwrap(), 0);
    assert_eq!(cpu.memory().read(0x301).unwrap(), 0);
    assert_eq!(cpu.memory().read(0x302).unwrap(), 0);
}

#[test]
fn bcd_past_end_of_memory_fails_unchanged() {
    let mut cpu = machine();
    cpu.set_i(0xFFE);
    cpu.set_v(1, 123);
    assert_eq!(cpu.decode(0xF1, 0x33), Err(Chip8Error::AddressOutOfRange(0xFFE)));
    assert_eq!(cpu.memory().read(0xFFE).unwrap(), 0);
    assert_eq!(cpu.pc(), 0x200);
}

#[test]
fn load_registers_past_end_of_memory_fails() {
    let mut cpu = machine();
    cpu.set_i(0xFFF);
    assert_eq!(cpu.decode(0xF1, 0x65), Err(Chip8Error::AddressOutOfRange(0xFFF)));
    assert_eq!(cpu.decode(0xF0, 0x65), Ok(Instruction::LoadRegs(0)));
}

#[test]
fn store_registers_leaves_other_bytes() {
    let mut cpu = machine();
    cpu.set_i(0x300);
    for x in 0..16 {
        cpu.set_v(x, 0x10 + x as u8);
    }
    cpu.decode(0xF3, 0x55).unwrap();
    assert_eq!(cpu.memory().read(0x2FF).unwrap(), 0);
    assert_eq!(cpu.memory().read(0x300).unwrap(), 0x10);
    assert_eq!(cpu.memory().read(0x303).unwrap(), 0x13);
    assert_eq!(cpu.memory().read(0x304).unwrap(), 0);
}

#[test]
fn index_add_wraps_at_sixteen_bits() {
    let mut cpu = machine();
    cpu.set_i(0xFFFF);
    cpu.set_v(2, 3);
    cpu.decode(0xF2, 0x1E).unwrap();
    assert_eq!(cpu.i(), 2);
}

#[test]
fn random_byte_is_masked() {
    let mut cpu = machine();
    cpu.set_v(4, 0xAA);
    assert_eq!(cpu.decode(0xC4, 0x00), Ok(Instruction::Random(4, 0)));
    assert_eq!(cpu.v(4), 0);
    for _ in 0..20 {
        cpu.decode(0xC4, 0x0F).unwrap();
        assert!(cpu.v(4) <= 0x0F);
    }
}

#[test]
fn key_skips_follow_the_keypad() {
    let mut cpu = machine();
    cpu.set_v(1, 0xB);
    cpu.decode(0xE1, 0x9E).unwrap();
    assert_eq!(cpu.pc(), 0x202);
    cpu.decode(0xE1, 0xA1).unwrap();
    assert_eq!(cpu.pc(), 0x206);
    cpu.keyboard_mut().press(0xB);
    cpu.decode(0xE1, 0x9E).unwrap();
    assert_eq!(cpu.pc(), 0x20A);
    cpu.decode(0xE1, 0xA1).unwrap();
    assert_eq!(cpu.pc(), 0x20C);
    cpu.set_v(1, 0x20);
    cpu.decode(0xE1, 0x9E).unwrap();
    assert_eq!(cpu.pc(), 0x20E);
}

#[test]
fn wait_for_key_stalls_until_a_key_is_pressed() {
    let mut cpu = machine_with_program(&[0xF5, 0x0A, 0x00, 0xE0]);
    cpu.step().unwrap();
    assert_eq!(cpu.pc(), 0x200);
    assert_eq!(cpu.state(), RunState::WaitingForKey(5));
    assert!(cpu.is_waiting_key());
    for _ in 0..5 {
        cpu.step().unwrap();
        assert_eq!(cpu.pc(), 0x200);
        assert!(cpu.is_waiting_key());
    }
    cpu.keyboard_mut().press(9);
    cpu.keyboard_mut().press(3);
    cpu.step().unwrap();
    assert_eq!(cpu.pc(), 0x202);
    assert_eq!(cpu.v(5), 3);
    assert_eq!(cpu.state(), RunState::Running);
    cpu.step().unwrap();
    assert_eq!(cpu.pc(), 0x204);
}

#[test]
fn step_runs_a_small_program() {
    // V0 = 3; V0 += 4; jump to 0x200 is never reached because of the skip
    let mut cpu = machine_with_program(&[0x60, 0x03, 0x70, 0x04, 0x30, 0x07, 0x12, 0x00, 0xA1, 0x23]);
    for _ in 0..4 {
        cpu.step().unwrap();
    }
    assert_eq!(cpu.v(0), 7);
    assert_eq!(cpu.i(), 0x123);
    assert_eq!(cpu.pc(), 0x20A);
}

#[test]
fn step_reports_unimplemented_opcode() {
    let mut cpu = machine_with_program(&[0x80, 0x1F]);
    assert_eq!(cpu.step(), Err(Chip8Error::UnimplementedOpcode(0x801F)));
    assert_eq!(cpu.pc(), 0x200);
}

#[test]
fn step_past_end_of_memory_is_reported() {
    let mut cpu = machine();
    cpu.set_pc(0xFFF);
    assert_eq!(cpu.step(), Err(Chip8Error::AddressOutOfRange(0xFFF)));
}

#[test]
fn unimplemented_opcodes_name_the_word() {
    assert_eq!(decode_instruction(0x01, 0x23), Err(Chip8Error::UnimplementedOpcode(0x0123)));
    assert_eq!(decode_instruction(0x5A, 0x11), Err(Chip8Error::UnimplementedOpcode(0x5A11)));
    assert_eq!(decode_instruction(0x9A, 0x12), Err(Chip8Error::UnimplementedOpcode(0x9A12)));
    assert_eq!(decode_instruction(0xE1, 0x00), Err(Chip8Error::UnimplementedOpcode(0xE100)));
    assert_eq!(decode_instruction(0xFF, 0xFF), Err(Chip8Error::UnimplementedOpcode(0xFFFF)));
    let mut cpu = machine();
    assert_eq!(cpu.decode(0x8A, 0x28), Err(Chip8Error::UnimplementedOpcode(0x8A28)));
    assert_eq!(cpu.pc(), 0x200);
}

#[test]
fn decoder_reads_operands() {
    assert_eq!(decode_instruction(0x00, 0xE0), Ok(Instruction::Clear));
    assert_eq!(decode_instruction(0x00, 0xEE), Ok(Instruction::Return));
    assert_eq!(decode_instruction(0x1A, 0xBC), Ok(Instruction::Jump(0xABC)));
    assert_eq!(decode_instruction(0x2A, 0xBC), Ok(Instruction::Call(0xABC)));
    assert_eq!(decode_instruction(0xD1, 0x2F), Ok(Instruction::Draw(1, 2, 0xF)));
    assert_eq!(decode_instruction(0x8C, 0xD7), Ok(Instruction::SubN(0xC, 0xD)));
    assert_eq!(decode_instruction(0xBF, 0xFF), Ok(Instruction::JumpOffset(0xFFF)));
    assert_eq!(decode_instruction(0xF7, 0x65), Ok(Instruction::LoadRegs(7)));
}

#[test]
fn jump_with_offset_adds_v0() {
    let mut cpu = machine();
    cpu.set_v(0, 0x10);
    cpu.decode(0xB3, 0x00).unwrap();
    assert_eq!(cpu.pc(), 0x310);
}

#[test]
fn timers_count_down_to_zero() {
    let mut cpu = machine();
    cpu.set_v(0, 2);
    cpu.decode(0xF0, 0x15).unwrap();
    cpu.decode(0xF0, 0x18).unwrap();
    cpu.tick_timers();
    assert_eq!(cpu.dt(), 1);
    assert_eq!(cpu.st(), 1);
    cpu.tick_timers();
    cpu.tick_timers();
    assert_eq!(cpu.dt(), 0);
    assert_eq!(cpu.st(), 0);
}

#[test]
fn inspect_reads_the_requested_part() {
    let mut cpu = machine();
    cpu.set_v(3, 0x44);
    cpu.set_i(0x345);
    cpu.memory_mut().write(0x210, 0x99).unwrap();
    assert_eq!(cpu.inspect(ShowArgs::PC), Some(0x200));
    assert_eq!(cpu.inspect(ShowArgs::V(3)), Some(0x44));
    assert_eq!(cpu.inspect(ShowArgs::V(16)), None);
    assert_eq!(cpu.inspect(ShowArgs::I), Some(0x345));
    assert_eq!(cpu.inspect(ShowArgs::Mem(0x210)), Some(0x99));
    assert_eq!(cpu.inspect(ShowArgs::Mem(0x1000)), None);
    assert_eq!(cpu.inspect(ShowArgs::Stack(0)), Some(0));
    assert_eq!(cpu.inspect(ShowArgs::Stack(16)), None);
    assert_eq!(cpu.inspect(ShowArgs::SP), Some(0));
    assert_eq!(cpu.inspect(ShowArgs::WaitingKey), Some(0));
}

#[test]
fn screen_image_has_three_bytes_per_pixel() {
    let mut fb = Framebuffer::new();
    fb.set_pixel(1, 0, true);
    let image = fb.get_pixels();
    assert_eq!(image.len(), 64 * 32 * 3);
    assert_eq!(&image[0..6], &[0, 0, 0, 0xFF, 0xFF, 0xFF]);
    fb.clear();
    assert!(fb.get_pixels().iter().all(|b| *b == 0));
}

#[test]
fn draw_sprite_reports_collision() {
    let mut fb = Framebuffer::new();
    assert!(!fb.draw_sprite(0, 0, &[0xC0]));
    assert!(fb.get_pixel(0, 0));
    assert!(fb.get_pixel(1, 0));
    assert!(fb.draw_sprite(1, 0, &[0x80]));
    assert!(!fb.get_pixel(1, 0));
    assert!(!fb.draw_sprite(5, 5, &[]));
}
