use chip8::error::Chip8Error;
use chip8::memory::Memory;

const SPRITES: [u8; 80] = [
    0xF0, 0x90, 0x90, 0x90, 0xF0, 0x20, 0x60, 0x20, 0x20, 0x70, 0xF0, 0x10, 0xF0, 0x80, 0xF0,
    0xF0, 0x10, 0xF0, 0x10, 0xF0, 0x90, 0x90, 0xF0, 0x10, 0x10, 0xF0, 0x80, 0xF0, 0x10, 0xF0,
    0xF0, 0x80, 0xF0, 0x90, 0xF0, 0xF0, 0x10, 0x20, 0x40, 0x40, 0xF0, 0x90, 0xF0, 0x90, 0xF0,
    0xF0, 0x90, 0xF0, 0x10, 0xF0, 0xF0, 0x90, 0xF0, 0x90, 0x90, 0xE0, 0x90, 0xE0, 0x90, 0xE0,
    0xF0, 0x80, 0x80, 0x80, 0xF0, 0xE0, 0x90, 0x90, 0x90, 0xE0, 0xF0, 0x80, 0xF0, 0x80, 0xF0,
    0xF0, 0x80, 0xF0, 0x80, 0x80,
];

#[test]
fn sprites_were_loaded_correctly() {
    let mut memory = Memory::new();
    memory.load_sprites();
    for (i, m) in SPRITES.iter().enumerate() {
        let s = memory.read(i as u16).unwrap();
        if s != *m {
            panic!();
        }
    }
}

#[test]
fn load_copies_program_after_font() {
    let mut memory = Memory::new();
    memory.load(&[0x12, 0x34, 0x56]).unwrap();
    assert_eq!(memory.read(0).unwrap(), 0xF0);
    assert_eq!(memory.read(79).unwrap(), 0x80);
    assert_eq!(memory.read(0x200).unwrap(), 0x12);
    assert_eq!(memory.read(0x201).unwrap(), 0x34);
    assert_eq!(memory.read(0x202).unwrap(), 0x56);
    assert_eq!(memory.read(0x203).unwrap(), 0);
    assert_eq!(memory.rom_words(), vec![0x1234]);
}

#[test]
fn load_accepts_program_filling_memory() {
    let mut memory = Memory::new();
    let rom = vec![0xAB; 0x1000 - 0x200];
    assert_eq!(memory.load(&rom), Ok(()));
    assert_eq!(memory.read(0xFFF).unwrap(), 0xAB);
}

#[test]
fn load_rejects_program_too_large() {
    let mut memory = Memory::new();
    let rom = vec![0xAB; 0x1000 - 0x200 + 1];
    assert_eq!(memory.load(&rom), Err(Chip8Error::OutOfSpace));
    assert_eq!(memory.read(0).unwrap(), 0);
    assert_eq!(memory.read(0x200).unwrap(), 0);
}

#[test]
fn read_and_write_past_end_are_reported() {
    let mut memory = Memory::new();
    assert_eq!(memory.read(0x1000), Err(Chip8Error::AddressOutOfRange(0x1000)));
    assert_eq!(memory.write(0xFFFF, 1), Err(Chip8Error::AddressOutOfRange(0xFFFF)));
    assert_eq!(memory.write(0xFFF, 7), Ok(()));
    assert_eq!(memory.read(0xFFF), Ok(7));
}
