use vstd::prelude::*;

use crate::error::Chip8Error;

verus! {

/// One decoded instruction. Register operands name `V0..VF`; addresses are
/// twelve bits wide.
#[derive(Debug, Clone, Copy, PartialEq, Eq, Structural)]
pub enum Instruction {
    /// `00E0`: clear the screen.
    Clear,
    /// `00EE`: return from a subroutine.
    Return,
    /// `1nnn`: jump to `nnn`.
    Jump(u16),
    /// `2nnn`: call the subroutine at `nnn`.
    Call(u16),
    /// `3xkk`: skip the next instruction if `Vx == kk`.
    SkipEqByte(u8, u8),
    /// `4xkk`: skip the next instruction if `Vx != kk`.
    SkipNeByte(u8, u8),
    /// `5xy0`: skip the next instruction if `Vx == Vy`.
    SkipEqReg(u8, u8),
    /// `6xkk`: `Vx = kk`.
    LoadByte(u8, u8),
    /// `7xkk`: `Vx = Vx + kk`, wrapping, flag untouched.
    AddByte(u8, u8),
    /// `8xy0`: `Vx = Vy`.
    Move(u8, u8),
    /// `8xy1`: `Vx = Vx | Vy`.
    Or(u8, u8),
    /// `8xy2`: `Vx = Vx & Vy`.
    And(u8, u8),
    /// `8xy3`: `Vx = Vx ^ Vy`.
    Xor(u8, u8),
    /// `8xy4`: `Vx = Vx + Vy` wrapping, `VF` = carry.
    AddReg(u8, u8),
    /// `8xy5`: `Vx = Vx - Vy` wrapping, `VF` = `Vx > Vy`.
    Sub(u8, u8),
    /// `8xy6`: `Vx = Vx >> 1`, `VF` = the bit shifted out.
    ShiftRight(u8),
    /// `8xy7`: `Vx = Vy - Vx` wrapping, `VF` = `Vy > Vx`.
    SubN(u8, u8),
    /// `8xyE`: `Vx = Vx << 1` wrapping, `VF` = the bit shifted out.
    ShiftLeft(u8),
    /// `9xy0`: skip the next instruction if `Vx != Vy`.
    SkipNeReg(u8, u8),
    /// `Annn`: `I = nnn`.
    LoadIndex(u16),
    /// `Bnnn`: jump to `nnn + V0`.
    JumpOffset(u16),
    /// `Cxkk`: `Vx = random byte & kk`.
    Random(u8, u8),
    /// `Dxyn`: draw the `n`-row sprite at `I` to `(Vx, Vy)`, `VF` = collision.
    Draw(u8, u8, u8),
    /// `Ex9E`: skip the next instruction if key `Vx` is pressed.
    SkipKey(u8),
    /// `ExA1`: skip the next instruction if key `Vx` is not pressed.
    SkipNoKey(u8),
    /// `Fx07`: `Vx = DT`.
    LoadDelay(u8),
    /// `Fx0A`: wait for a key press and store its code in `Vx`.
    WaitKey(u8),
    /// `Fx15`: `DT = Vx`.
    SetDelay(u8),
    /// `Fx18`: `ST = Vx`.
    SetSound(u8),
    /// `Fx1E`: `I = I + Vx`, wrapping at 16 bits.
    AddIndex(u8),
    /// `Fx29`: `I` = address of the font glyph for digit `Vx`.
    LoadFont(u8),
    /// `Fx33`: store the decimal digits of `Vx` at `I`, `I+1`, `I+2`.
    StoreBcd(u8),
    /// `Fx55`: store `V0..=Vx` at `I..=I+x`.
    StoreRegs(u8),
    /// `Fx65`: load `V0..=Vx` from `I..=I+x`.
    LoadRegs(u8),
}

/// The high four bits of a byte.
pub open spec fn high(b: u8) -> u8 {
    b / 16
}

/// The low four bits of a byte.
pub open spec fn low(b: u8) -> u8 {
    b % 16
}

/// The instruction word made of two bytes, the first one high.
pub open spec fn word(hi: u8, lo: u8) -> u16 {
    (hi as int * 256 + lo as int) as u16
}

/// The twelve-bit address `nnn` of an instruction word.
pub open spec fn address(hi: u8, lo: u8) -> u16 {
    (low(hi) as int * 256 + lo as int) as u16
}

/// Whether every operand of `ins` is in range: registers below 16, sprite
/// heights below 16, addresses below `0x1000`.
pub open spec fn operands_in_range(ins: Instruction) -> bool {
    match ins {
        Instruction::Clear | Instruction::Return => true,
        Instruction::Jump(a) | Instruction::Call(a) | Instruction::LoadIndex(a)
        | Instruction::JumpOffset(a) => a < 0x1000,
        Instruction::SkipEqByte(x, _) | Instruction::SkipNeByte(x, _) | Instruction::LoadByte(x, _)
        | Instruction::AddByte(x, _) | Instruction::Random(x, _) => x < 16,
        Instruction::SkipEqReg(x, y) | Instruction::Move(x, y) | Instruction::Or(x, y)
        | Instruction::And(x, y) | Instruction::Xor(x, y) | Instruction::AddReg(x, y)
        | Instruction::Sub(x, y) | Instruction::SubN(x, y) | Instruction::SkipNeReg(x, y) => x < 16
            && y < 16,
        Instruction::Draw(x, y, n) => x < 16 && y < 16 && n < 16,
        Instruction::ShiftRight(x) | Instruction::ShiftLeft(x) | Instruction::SkipKey(x)
        | Instruction::SkipNoKey(x) | Instruction::LoadDelay(x) | Instruction::WaitKey(x)
        | Instruction::SetDelay(x) | Instruction::SetSound(x) | Instruction::AddIndex(x)
        | Instruction::LoadFont(x) | Instruction::StoreBcd(x) | Instruction::StoreRegs(x)
        | Instruction::LoadRegs(x) => x < 16,
    }
}

/// The instruction that the word `hi lo` encodes, following the instruction
/// table (operands: `x` = low nibble of `hi`, `y` = high nibble of `lo`,
/// `n` = low nibble of `lo`, `kk` = `lo`, `nnn` = `x lo`). A word outside
/// the table is `UnimplementedOpcode` with the whole word.
pub open spec fn decode_spec(hi: u8, lo: u8) -> Result<Instruction, Chip8Error> {
    let x = low(hi);
    let y = high(lo);
    let n = low(lo);
    let nnn = address(hi, lo);
    let bad = Err(Chip8Error::UnimplementedOpcode(word(hi, lo)));
    match high(hi) {
        0x0 => if hi == 0 && lo == 0xE0 {
            Ok(Instruction::Clear)
        } else if hi == 0 && lo == 0xEE {
            Ok(Instruction::Return)
        } else {
            bad
        },
        0x1 => Ok(Instruction::Jump(nnn)),
        0x2 => Ok(Instruction::Call(nnn)),
        0x3 => Ok(Instruction::SkipEqByte(x, lo)),
        0x4 => Ok(Instruction::SkipNeByte(x, lo)),
        0x5 => if n == 0 {
            Ok(Instruction::SkipEqReg(x, y))
        } else {
            bad
        },
        0x6 => Ok(Instruction::LoadByte(x, lo)),
        0x7 => Ok(Instruction::AddByte(x, lo)),
        0x8 => match n {
            0x0 => Ok(Instruction::Move(x, y)),
            0x1 => Ok(Instruction::Or(x, y)),
            0x2 => Ok(Instruction::And(x, y)),
            0x3 => Ok(Instruction::Xor(x, y)),
            0x4 => Ok(Instruction::AddReg(x, y)),
            0x5 => Ok(Instruction::Sub(x, y)),
            0x6 => Ok(Instruction::ShiftRight(x)),
            0x7 => Ok(Instruction::SubN(x, y)),
            0xE => Ok(Instruction::ShiftLeft(x)),
            _ => bad,
        },
        0x9 => if n == 0 {
            Ok(Instruction::SkipNeReg(x, y))
        } else {
            bad
        },
        0xA => Ok(Instruction::LoadIndex(nnn)),
        0xB => Ok(Instruction::JumpOffset(nnn)),
        0xC => Ok(Instruction::Random(x, lo)),
        0xD => Ok(Instruction::Draw(x, y, n)),
        0xE => if lo == 0x9E {
            Ok(Instruction::SkipKey(x))
        } else if lo == 0xA1 {
            Ok(Instruction::SkipNoKey(x))
        } else {
            bad
        },
        _ => if lo == 0x07 {
            Ok(Instruction::LoadDelay(x))
        } else if lo == 0x0A {
            Ok(Instruction::WaitKey(x))
        } else if lo == 0x15 {
            Ok(Instruction::SetDelay(x))
        } else if lo == 0x18 {
            Ok(Instruction::SetSound(x))
        } else if lo == 0x1E {
            Ok(Instruction::AddIndex(x))
        } else if lo == 0x29 {
            Ok(Instruction::LoadFont(x))
        } else if lo == 0x33 {
            Ok(Instruction::StoreBcd(x))
        } else if lo == 0x55 {
            Ok(Instruction::StoreRegs(x))
        } else if lo == 0x65 {
            Ok(Instruction::LoadRegs(x))
        } else {
            bad
        },
    }
}

/// The low four bits of `n`.
pub fn get_rightmost_nibble(n: u8) -> (r: u8)
    ensures
        r == low(n),
        r < 16,
{
    assert(n & 0x0F == n % 16) by (bit_vector);
    n & 0x0F
}

/// The high four bits of `n`.
pub fn get_leftmost_nibble(n: u8) -> (r: u8)
    ensures
        r == high(n),
        r < 16,
{
    assert(n >> 4 == n / 16) by (bit_vector);
    n >> 4
}

/// Decodes the instruction word `hi lo`.
pub fn decode_instruction(hi: u8, lo: u8) -> (r: Result<Instruction, Chip8Error>)
    ensures
        r == decode_spec(hi, lo),
        r is Ok ==> operands_in_range(r->Ok_0),
{
    let op = get_leftmost_nibble(hi);
    let x = get_rightmost_nibble(hi);
    let y = get_leftmost_nibble(lo);
    let n = get_rightmost_nibble(lo);
    let nnn: u16 = (x as u16) * 256 + lo as u16;
    let bad = Err(Chip8Error::UnimplementedOpcode((hi as u16) * 256 + lo as u16));
    match op {
        0x0 => if hi == 0 && lo == 0xE0 {
            Ok(Instruction::Clear)
        } else if hi == 0 && lo == 0xEE {
            Ok(Instruction::Return)
        } else {
            bad
        },
        0x1 => Ok(Instruction::Jump(nnn)),
        0x2 => Ok(Instruction::Call(nnn)),
        0x3 => Ok(Instruction::SkipEqByte(x, lo)),
        0x4 => Ok(Instruction::SkipNeByte(x, lo)),
        0x5 => if n == 0 {
            Ok(Instruction::SkipEqReg(x, y))
        } else {
            bad
        },
        0x6 => Ok(Instruction::LoadByte(x, lo)),
        0x7 => Ok(Instruction::AddByte(x, lo)),
        0x8 => match n {
            0x0 => Ok(Instruction::Move(x, y)),
            0x1 => Ok(Instruction::Or(x, y)),
            0x2 => Ok(Instruction::And(x, y)),
            0x3 => Ok(Instruction::Xor(x, y)),
            0x4 => Ok(Instruction::AddReg(x, y)),
            0x5 => Ok(Instruction::Sub(x, y)),
            0x6 => Ok(Instruction::ShiftRight(x)),
            0x7 => Ok(Instruction::SubN(x, y)),
            0xE => Ok(Instruction::ShiftLeft(x)),
            _ => bad,
        },
        0x9 => if n == 0 {
            Ok(Instruction::SkipNeReg(x, y))
        } else {
            bad
        },
        0xA => Ok(Instruction::LoadIndex(nnn)),
        0xB => Ok(Instruction::JumpOffset(nnn)),
        0xC => Ok(Instruction::Random(x, lo)),
        0xD => Ok(Instruction::Draw(x, y, n)),
        0xE => if lo == 0x9E {
            Ok(Instruction::SkipKey(x))
        } else if lo == 0xA1 {
            Ok(Instruction::SkipNoKey(x))
        } else {
            bad
        },
        _ => if lo == 0x07 {
            Ok(Instruction::LoadDelay(x))
        } else if lo == 0x0A {
            Ok(Instruction::WaitKey(x))
        } else if lo == 0x15 {
            Ok(Instruction::SetDelay(x))
        } else if lo == 0x18 {
            Ok(Instruction::SetSound(x))
        } else if lo == 0x1E {
            Ok(Instruction::AddIndex(x))
        } else if lo == 0x29 {
            Ok(Instruction::LoadFont(x))
        } else if lo == 0x33 {
            Ok(Instruction::StoreBcd(x))
        } else if lo == 0x55 {
            Ok(Instruction::StoreRegs(x))
        } else if lo == 0x65 {
            Ok(Instruction::LoadRegs(x))
        } else {
            bad
        },
    }
}

} // verus!
