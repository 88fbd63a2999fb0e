//! Instruction words and what they decode to.

use vstd::prelude::*;

verus! {

/// One decoded instruction. Register operands are register numbers,
/// addresses are twelve-bit memory addresses.
#[derive(Clone, Copy, Debug, PartialEq, Eq)]
pub enum Instruction {
    /// `00E0`: clear the framebuffer.
    ClearScreen,
    /// `00EE`: return from a subroutine.
    Return,
    /// `1nnn`: jump to `addr`.
    Jump { addr: u16 },
    /// `2nnn`: call the subroutine at `addr`.
    Call { addr: u16 },
    /// `3xnn`: skip the next instruction if `Vx == nn`.
    SkipEqImm { x: u8, nn: u8 },
    /// `4xnn`: skip the next instruction if `Vx != nn`.
    SkipNeImm { x: u8, nn: u8 },
    /// `5xy0`: skip the next instruction if `Vx == Vy`.
    SkipEqReg { x: u8, y: u8 },
    /// `6xnn`: `Vx = nn`.
    LoadImm { x: u8, nn: u8 },
    /// `7xnn`: `Vx = Vx + nn` modulo 256, no flag.
    AddImm { x: u8, nn: u8 },
    /// `8xy0`: `Vx = Vy`.
    Move { x: u8, y: u8 },
    /// `8xy1`: `Vx = Vx | Vy`.
    Or { x: u8, y: u8 },
    /// `8xy2`: `Vx = Vx & Vy`.
    And { x: u8, y: u8 },
    /// `8xy3`: `Vx = Vx ^ Vy`.
    Xor { x: u8, y: u8 },
    /// `8xy4`: `Vx = Vx + Vy` modulo 256, `VF` = carry.
    AddReg { x: u8, y: u8 },
    /// `8xy5`: `VF` = (`Vx > Vy`), `Vx = Vx - Vy` modulo 256.
    Sub { x: u8, y: u8 },
    /// `8xy6`: `VF` = lowest bit of `Vx`, `Vx = Vx >> 1`.
    ShiftRight { x: u8 },
    /// `8xy7`: `VF` = (`Vy > Vx`), `Vx = Vy - Vx` modulo 256.
    SubFrom { x: u8, y: u8 },
    /// `8xyE`: `VF` = highest bit of `Vx`, `Vx = Vx << 1` modulo 256.
    ShiftLeft { x: u8 },
    /// `9xy0`: skip the next instruction if `Vx != Vy`.
    SkipNeReg { x: u8, y: u8 },
    /// `Annn`: `I = addr`.
    LoadIndex { addr: u16 },
    /// `Bnnn`: jump to `addr + V0`.
    JumpOffset { addr: u16 },
    /// `Cxnn`: `Vx` = random byte `& nn`.
    Random { x: u8, nn: u8 },
    /// `Dxyn`: draw the `n`-row sprite at `I` with its corner at (`Vx`, `Vy`).
    Draw { x: u8, y: u8, n: u8 },
    /// `Ex9E`: skip the next instruction if the key named by `Vx` is down.
    SkipKeyDown { x: u8 },
    /// `ExA1`: skip the next instruction if the key named by `Vx` is up.
    SkipKeyUp { x: u8 },
    /// `Fx07`: `Vx` = delay timer.
    ReadDelay { x: u8 },
    /// `Fx0A`: wait for a key, `Vx` = its index.
    WaitKey { x: u8 },
    /// `Fx15`: delay timer = `Vx`.
    SetDelay { x: u8 },
    /// `Fx18`: sound timer = `Vx`.
    SetSound { x: u8 },
    /// `Fx1E`: `I = I + Vx` within the twelve-bit address space.
    AddIndex { x: u8 },
    /// `Fx29`: `I` = address of the font glyph for the digit in `Vx`.
    FontGlyph { x: u8 },
    /// `Fx33`: store the decimal digits of `Vx` at `I`, `I + 1`, `I + 2`.
    StoreBcd { x: u8 },
    /// `Fx55`: store `V0..=Vx` at `I..=I + x`.
    StoreRegs { x: u8 },
    /// `Fx65`: load `V0..=Vx` from `I..=I + x`.
    LoadRegs { x: u8 },
    /// Any other word: no effect.
    Unrecognized { word: u16 },
}

impl Instruction {
    /// Register operands name one of the sixteen registers, addresses fit in
    /// twelve bits and a sprite has at most fifteen rows.
    pub open spec fn wf(self) -> bool {
        match self {
            Instruction::ClearScreen | Instruction::Return => true,
            Instruction::Jump { addr }
            | Instruction::Call { addr }
            | Instruction::LoadIndex { addr }
            | Instruction::JumpOffset { addr } => addr < 0x1000,
            Instruction::SkipEqImm { x, nn }
            | Instruction::SkipNeImm { x, nn }
            | Instruction::LoadImm { x, nn }
            | Instruction::AddImm { x, nn }
            | Instruction::Random { x, nn } => x < 16,
            Instruction::SkipEqReg { x, y }
            | Instruction::Move { x, y }
            | Instruction::Or { x, y }
            | Instruction::And { x, y }
            | Instruction::Xor { x, y }
            | Instruction::AddReg { x, y }
            | Instruction::Sub { x, y }
            | Instruction::SubFrom { x, y }
            | Instruction::SkipNeReg { x, y } => x < 16 && y < 16,
            Instruction::Draw { x, y, n } => x < 16 && y < 16 && n < 16,
            Instruction::ShiftRight { x }
            | Instruction::ShiftLeft { x }
            | Instruction::SkipKeyDown { x }
            | Instruction::SkipKeyUp { x }
            | Instruction::ReadDelay { x }
            | Instruction::WaitKey { x }
            | Instruction::SetDelay { x }
            | Instruction::SetSound { x }
            | Instruction::AddIndex { x }
            | Instruction::FontGlyph { x }
            | Instruction::StoreBcd { x }
            | Instruction::StoreRegs { x }
            | Instruction::LoadRegs { x } => x < 16,
            Instruction::Unrecognized { word } => true,
        }
    }
}

/// The highest four bits of an instruction word: the instruction family.
pub open spec fn field_op(word: u16) -> u8 {
    (word / 0x1000) as u8
}

/// The lowest twelve bits of an instruction word: an address.
pub open spec fn field_nnn(word: u16) -> u16 {
    word % 0x1000
}

/// The lowest eight bits of an instruction word: an immediate byte.
pub open spec fn field_nn(word: u16) -> u8 {
    (word % 0x100) as u8
}

/// The lowest four bits of an instruction word.
pub open spec fn field_n(word: u16) -> u8 {
    (word % 0x10) as u8
}

/// Bits 8 to 11 of an instruction word: the first register operand.
pub open spec fn field_x(word: u16) -> u8 {
    ((word / 0x100) % 0x10) as u8
}

/// Bits 4 to 7 of an instruction word: the second register operand.
pub open spec fn field_y(word: u16) -> u8 {
    ((word / 0x10) % 0x10) as u8
}

/// The instruction that a sixteen-bit word stands for.
pub open spec fn decode_spec(word: u16) -> Instruction {
    let addr = field_nnn(word);
    let nn = field_nn(word);
    let n = field_n(word);
    let x = field_x(word);
    let y = field_y(word);
    let op = field_op(word);
    if word == 0x00E0 {
        Instruction::ClearScreen
    } else if word == 0x00EE {
        Instruction::Return
    } else if op == 0x1 {
        Instruction::Jump { addr }
    } else if op == 0x2 {
        Instruction::Call { addr }
    } else if op == 0x3 {
        Instruction::SkipEqImm { x, nn }
    } else if op == 0x4 {
        Instruction::SkipNeImm { x, nn }
    } else if op == 0x5 && n == 0 {
        Instruction::SkipEqReg { x, y }
    } else if op == 0x6 {
        Instruction::LoadImm { x, nn }
    } else if op == 0x7 {
        Instruction::AddImm { x, nn }
    } else if op == 0x8 && n == 0x0 {
        Instruction::Move { x, y }
    } else if op == 0x8 && n == 0x1 {
        Instruction::Or { x, y }
    } else if op == 0x8 && n == 0x2 {
        Instruction::And { x, y }
    } else if op == 0x8 && n == 0x3 {
        Instruction::Xor { x, y }
    } else if op == 0x8 && n == 0x4 {
        Instruction::AddReg { x, y }
    } else if op == 0x8 && n == 0x5 {
        Instruction::Sub { x, y }
    } else if op == 0x8 && n == 0x6 {
        Instruction::ShiftRight { x }
    } else if op == 0x8 && n == 0x7 {
        Instruction::SubFrom { x, y }
    } else if op == 0x8 && n == 0xE {
        Instruction::ShiftLeft { x }
    } else if op == 0x9 && n == 0 {
        Instruction::SkipNeReg { x, y }
    } else if op == 0xA {
        Instruction::LoadIndex { addr }
    } else if op == 0xB {
        Instruction::JumpOffset { addr }
    } else if op == 0xC {
        Instruction::Random { x, nn }
    } else if op == 0xD {
        Instruction::Draw { x, y, n }
    } else if op == 0xE && nn == 0x9E {
        Instruction::SkipKeyDown { x }
    } else if op == 0xE && nn == 0xA1 {
        Instruction::SkipKeyUp { x }
    } else if op == 0xF && nn == 0x07 {
        Instruction::ReadDelay { x }
    } else if op == 0xF && nn == 0x0A {
        Instruction::WaitKey { x }
    } else if op == 0xF && nn == 0x15 {
        Instruction::SetDelay { x }
    } else if op == 0xF && nn == 0x18 {
        Instruction::SetSound { x }
    } else if op == 0xF && nn == 0x1E {
        Instruction::AddIndex { x }
    } else if op == 0xF && nn == 0x29 {
        Instruction::FontGlyph { x }
    } else if op == 0xF && nn == 0x33 {
        Instruction::StoreBcd { x }
    } else if op == 0xF && nn == 0x55 {
        Instruction::StoreRegs { x }
    } else if op == 0xF && nn == 0x65 {
        Instruction::LoadRegs { x }
    } else {
        Instruction::Unrecognized { word }
    }
}

/// Every word decodes to a well-formed instruction.
pub proof fn lemma_decode_wf(word: u16)
    ensures
        decode_spec(word).wf(),
{
}

/// Shifting and masking a word yields its fields.
proof fn lemma_fields(word: u16)
    ensures
        (word >> 12) == word / 0x1000,
        (word & 0x0FFF) == word % 0x1000,
        (word & 0x00FF) == word % 0x100,
        (word & 0x000F) == word % 0x10,
        ((word >> 8) & 0xF) == (word / 0x100) % 0x10,
        ((word >> 4) & 0xF) == (word / 0x10) % 0x10,
{
    assert((word >> 12) == word / 0x1000 && (word & 0x0FFF) == word % 0x1000 && (word & 0x00FF)
        == word % 0x100 && (word & 0x000F) == word % 0x10 && ((word >> 8) & 0xF) == (word / 0x100)
        % 0x10 && ((word >> 4) & 0xF) == (word / 0x10) % 0x10) by (bit_vector);
}

/// Decodes an instruction word by its highest four bits, and within the
/// families `0`, `5`, `8`, `9`, `E` and `F` by its lowest four or eight bits.
pub fn decode(word: u16) -> (instr: Instruction)
    ensures
        instr == decode_spec(word),
        instr.wf(),
{
    proof {
        lemma_fields(word);
    }
    let op: u8 = (word >> 12) as u8;
    let addr: u16 = word & 0x0FFF;
    let nn: u8 = (word & 0x00FF) as u8;
    let n: u8 = (word & 0x000F) as u8;
    let x: u8 = ((word >> 8) & 0xF) as u8;
    let y: u8 = ((word >> 4) & 0xF) as u8;
    match op {
        0x0 => match word {
            0x00E0 => Instruction::ClearScreen,
            0x00EE => Instruction::Return,
            _ => Instruction::Unrecognized { word },
        },
        0x1 => Instruction::Jump { addr },
        0x2 => Instruction::Call { addr },
        0x3 => Instruction::SkipEqImm { x, nn },
        0x4 => Instruction::SkipNeImm { x, nn },
        0x5 => match n {
            0x0 => Instruction::SkipEqReg { x, y },
            _ => Instruction::Unrecognized { word },
        },
        0x6 => Instruction::LoadImm { x, nn },
        0x7 => Instruction::AddImm { x, nn },
        0x8 => match n {
            0x0 => Instruction::Move { x, y },
            0x1 => Instruction::Or { x, y },
            0x2 => Instruction::And { x, y },
            0x3 => Instruction::Xor { x, y },
            0x4 => Instruction::AddReg { x, y },
            0x5 => Instruction::Sub { x, y },
            0x6 => Instruction::ShiftRight { x },
            0x7 => Instruction::SubFrom { x, y },
            0xE => Instruction::ShiftLeft { x },
            _ => Instruction::Unrecognized { word },
        },
        0x9 => match n {
            0x0 => Instruction::SkipNeReg { x, y },
            _ => Instruction::Unrecognized { word },
        },
        0xA => Instruction::LoadIndex { addr },
        0xB => Instruction::JumpOffset { addr },
        0xC => Instruction::Random { x, nn },
        0xD => Instruction::Draw { x, y, n },
        0xE => match nn {
            0x9E => Instruction::SkipKeyDown { x },
            0xA1 => Instruction::SkipKeyUp { x },
            _ => Instruction::Unrecognized { word },
        },
        0xF => match nn {
            0x07 => Instruction::ReadDelay { x },
            0x0A => Instruction::WaitKey { x },
            0x15 => Instruction::SetDelay { x },
            0x18 => Instruction::SetSound { x },
            0x1E => Instruction::AddIndex { x },
            0x29 => Instruction::FontGlyph { x },
            0x33 => Instruction::StoreBcd { x },
            0x55 => Instruction::StoreRegs { x },
            0x65 => Instruction::LoadRegs { x },
            _ => Instruction::Unrecognized { word },
        },
        _ => Instruction::Unrecognized { word },
    }
}

} // verus!
