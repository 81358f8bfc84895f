use vstd::prelude::*;

use crate::error::Chip8Error;

verus! {

/// Number of addressable bytes.
pub const MEMORY_SIZE: usize = 0x1000;

/// Address at which a program image is loaded and execution starts.
pub const ROM_START: usize = 0x200;

/// Size in bytes of the built-in font: sixteen glyphs of five rows each.
pub const FONT_SIZE: usize = 80;

/// Rows per font glyph.
pub const GLYPH_ROWS: usize = 5;

/// The font table: glyph `d` (a hexadecimal digit) is the five rows starting
/// at `d * 5`, each row a bitmap whose high four bits are the pixels.
pub open spec fn font() -> Seq<u8> {
    seq![
        0xF0u8, 0x90, 0x90, 0x90, 0xF0, // 0
        0x20, 0x60, 0x20, 0x20, 0x70, // 1
        0xF0, 0x10, 0xF0, 0x80, 0xF0, // 2
        0xF0, 0x10, 0xF0, 0x10, 0xF0, // 3
        0x90, 0x90, 0xF0, 0x10, 0x10, // 4
        0xF0, 0x80, 0xF0, 0x10, 0xF0, // 5
        0xF0, 0x80, 0xF0, 0x90, 0xF0, // 6
        0xF0, 0x10, 0x20, 0x40, 0x40, // 7
        0xF0, 0x90, 0xF0, 0x90, 0xF0, // 8
        0xF0, 0x90, 0xF0, 0x10, 0xF0, // 9
        0xF0, 0x90, 0xF0, 0x90, 0x90, // A
        0xE0, 0x90, 0xE0, 0x90, 0xE0, // B
        0xF0, 0x80, 0x80, 0x80, 0xF0, // C
        0xE0, 0x90, 0x90, 0x90, 0xE0, // D
        0xF0, 0x80, 0xF0, 0x80, 0xF0, // E
        0xF0, 0x80, 0xF0, 0x80, 0x80, // F
    ]
}

/// The 4 KiB byte-addressable memory of the machine, with the length of the
/// program image that was last loaded.
pub struct Memory {
    memory: [u8; MEMORY_SIZE],
    rom_size: usize,
}

impl View for Memory {
    type V = Seq<u8>;

    /// The bytes at addresses `0..MEMORY_SIZE`.
    closed spec fn view(&self) -> Seq<u8> {
        self.memory@
    }
}

/// Every memory holds exactly `MEMORY_SIZE` bytes.
pub broadcast proof fn lemma_memory_len(m: &Memory)
    ensures
        #[trigger] m@.len() == MEMORY_SIZE,
{
}

impl Memory {
    /// The length of the program image that was last loaded.
    pub closed spec fn spec_rom_size(&self) -> nat {
        self.rom_size as nat
    }

    /// The recorded program length fits above the program start.
    #[verifier::type_invariant]
    closed spec fn rom_fits(&self) -> bool {
        self.rom_size <= MEMORY_SIZE - ROM_START
    }

    /// A memory with every byte zero and no program loaded.
    pub fn new() -> (r: Self)
        ensures
            r@ == Seq::new(MEMORY_SIZE as nat, |i: int| 0u8),
            r.spec_rom_size() == 0,
    {
        let r = Self { memory: [0; MEMORY_SIZE], rom_size: 0 };
        assert(r@ =~= Seq::new(MEMORY_SIZE as nat, |i: int| 0u8));
        r
    }

    /// Writes the font table to addresses `0..FONT_SIZE`.
    pub fn load_sprites(&mut self)
        ensures
            final(self)@ == font() + old(self)@.subrange(FONT_SIZE as int, MEMORY_SIZE as int),
            final(self).spec_rom_size() == old(self).spec_rom_size(),
    {
        let sprites: [u8; FONT_SIZE] = [
            0xF0, 0x90, 0x90, 0x90, 0xF0, 0x20, 0x60, 0x20, 0x20, 0x70, 0xF0, 0x10, 0xF0, 0x80,
            0xF0, 0xF0, 0x10, 0xF0, 0x10, 0xF0, 0x90, 0x90, 0xF0, 0x10, 0x10, 0xF0, 0x80, 0xF0,
            0x10, 0xF0, 0xF0, 0x80, 0xF0, 0x90, 0xF0, 0xF0, 0x10, 0x20, 0x40, 0x40, 0xF0, 0x90,
            0xF0, 0x90, 0xF0, 0xF0, 0x90, 0xF0, 0x10, 0xF0, 0xF0, 0x90, 0xF0, 0x90, 0x90, 0xE0,
            0x90, 0xE0, 0x90, 0xE0, 0xF0, 0x80, 0x80, 0x80, 0xF0, 0xE0, 0x90, 0x90, 0x90, 0xE0,
            0xF0, 0x80, 0xF0, 0x80, 0xF0, 0xF0, 0x80, 0xF0, 0x80, 0x80,
        ];
        assert(sprites@ =~= font());
        proof {
            use_type_invariant(&*self);
        }
        let mut k: usize = 0;
        while k < FONT_SIZE
            invariant
                k <= FONT_SIZE,
                sprites@ == font(),
                self.rom_size == old(self).rom_size,
                self.rom_size <= MEMORY_SIZE - ROM_START,
                forall|j: int| 0 <= j < k ==> self.memory@[j] == font()[j],
                forall|j: int| k <= j < MEMORY_SIZE ==> self.memory@[j] == old(self).memory@[j],
            decreases FONT_SIZE - k,
        {
            self.memory[k] = sprites[k];
            k = k + 1;
        }
        assert(self@ =~= font() + old(self)@.subrange(FONT_SIZE as int, MEMORY_SIZE as int));
    }

    /// Loads the font table, then copies `rom` to the addresses starting at
    /// `ROM_START`. Fails with `OutOfSpace`, changing nothing, when the image
    /// would run past the end of memory.
    pub fn load(&mut self, rom: &[u8]) -> (r: Result<(), Chip8Error>)
        ensures
            r is Ok <==> ROM_START + rom@.len() <= MEMORY_SIZE,
            r is Ok ==> final(self)@ == font() + old(self)@.subrange(
                FONT_SIZE as int,
                ROM_START as int,
            ) + rom@ + old(self)@.subrange(ROM_START + rom@.len(), MEMORY_SIZE as int),
            r is Ok ==> final(self).spec_rom_size() == rom@.len(),
            r is Err ==> r == Err::<(), Chip8Error>(Chip8Error::OutOfSpace) && *final(self)
                == *old(self),
    {
        if rom.len() > MEMORY_SIZE - ROM_START {
            return Err(Chip8Error::OutOfSpace);
        }
        self.load_sprites();
        let ghost fonted = self.memory@;
        proof {
            use_type_invariant(&*self);
        }
        let mut k: usize = 0;
        while k < rom.len()
            invariant
                k <= rom@.len(),
                ROM_START + rom@.len() <= MEMORY_SIZE,
                self.rom_size <= MEMORY_SIZE - ROM_START,
                fonted == font() + old(self)@.subrange(FONT_SIZE as int, MEMORY_SIZE as int),
                fonted.len() == MEMORY_SIZE,
                forall|j: int| 0 <= j < ROM_START ==> self.memory@[j] == fonted[j],
                forall|j: int| 0 <= j < k ==> self.memory@[ROM_START + j] == rom@[j],
                forall|j: int|
                    ROM_START + k <= j < MEMORY_SIZE ==> self.memory@[j] == fonted[j],
            decreases rom@.len() - k,
        {
            self.memory[ROM_START + k] = rom[k];
            k = k + 1;
        }
        self.rom_size = rom.len();
        let ghost target = font() + old(self)@.subrange(FONT_SIZE as int, ROM_START as int) + rom@
            + old(self)@.subrange(ROM_START + rom@.len(), MEMORY_SIZE as int);
        assert forall|j: int| 0 <= j < MEMORY_SIZE implies self.memory@[j] == target[j] by {
            if j < ROM_START {
                assert(self.memory@[j] == fonted[j]);
            } else if j < ROM_START + rom@.len() {
                assert(self.memory@[ROM_START + (j - ROM_START)] == rom@[j - ROM_START]);
            } else {
                assert(self.memory@[j] == fonted[j]);
            }
        }
        assert(self@ =~= font() + old(self)@.subrange(FONT_SIZE as int, ROM_START as int) + rom@
            + old(self)@.subrange(ROM_START + rom@.len(), MEMORY_SIZE as int));
        Ok(())
    }

    /// The byte at `addr`, or `AddressOutOfRange` past the end of memory.
    pub fn read(&self, addr: u16) -> (r: Result<u8, Chip8Error>)
        ensures
            addr < MEMORY_SIZE ==> r == Ok::<u8, Chip8Error>(self@[addr as int]),
            addr >= MEMORY_SIZE ==> r == Err::<u8, Chip8Error>(
                Chip8Error::AddressOutOfRange(addr),
            ),
    {
        if (addr as usize) < MEMORY_SIZE {
            Ok(self.memory[addr as usize])
        } else {
            Err(Chip8Error::AddressOutOfRange(addr))
        }
    }

    /// Stores `value` at `addr`, or fails with `AddressOutOfRange`, changing
    /// nothing, past the end of memory.
    pub fn write(&mut self, addr: u16, value: u8) -> (r: Result<(), Chip8Error>)
        ensures
            addr < MEMORY_SIZE ==> r is Ok && final(self)@ == old(self)@.update(addr as int, value),
            addr >= MEMORY_SIZE ==> r == Err::<(), Chip8Error>(Chip8Error::AddressOutOfRange(addr))
                && final(self)@ == old(self)@,
            final(self).spec_rom_size() == old(self).spec_rom_size(),
    {
        proof {
            use_type_invariant(&*self);
        }
        if (addr as usize) < MEMORY_SIZE {
            self.memory[addr as usize] = value;
            Ok(())
        } else {
            Err(Chip8Error::AddressOutOfRange(addr))
        }
    }

    /// A copy of the `len` bytes starting at `start`.
    pub fn bytes(&self, start: usize, len: usize) -> (r: Vec<u8>)
        requires
            start + len <= MEMORY_SIZE,
        ensures
            r@ == self@.subrange(start as int, start + len),
    {
        let mut r: Vec<u8> = Vec::new();
        let mut k: usize = 0;
        while k < len
            invariant
                start + len <= MEMORY_SIZE,
                k <= len,
                r@ == self@.subrange(start as int, start + k),
            decreases len - k,
        {
            r.push(self.memory[start + k]);
            k = k + 1;
            assert(r@ =~= self@.subrange(start as int, start + k));
        }
        r
    }

    /// The loaded program image as big-endian instruction words, one per
    /// complete pair of bytes.
    pub fn rom_words(&self) -> (r: Vec<u16>)
        ensures
            r@.len() == self.spec_rom_size() / 2,
            forall|k: int|
                0 <= k < r@.len() ==> r@[k] == self@[ROM_START + 2 * k] as int * 256 + self@[ROM_START
                    + 2 * k + 1],
    {
        proof {
            use_type_invariant(self);
        }
        let mut r: Vec<u16> = Vec::new();
        let count = self.rom_size / 2;
        let mut k: usize = 0;
        while k < count
            invariant
                count == self.rom_size / 2,
                self.rom_size <= MEMORY_SIZE - ROM_START,
                k <= count,
                r@.len() == k,
                forall|j: int|
                    0 <= j < k ==> r@[j] == self@[ROM_START + 2 * j] as int * 256 + self@[ROM_START
                        + 2 * j + 1],
            decreases count - k,
        {
            let hi = self.memory[ROM_START + 2 * k] as u16;
            let lo = self.memory[ROM_START + 2 * k + 1] as u16;
            r.push(hi * 256 + lo);
            k = k + 1;
        }
        r
    }
}

} // verus!
