//! Instruction words: their fields, the decoded instruction set, and the
//! errors the machine reports.

use vstd::prelude::*;

verus! {

/// Why the machine refused to go on.
#[derive(Debug, Clone, Copy, PartialEq, Eq, Structural)]
pub enum Chip8Error {
    /// The instruction word is not part of the instruction set.
    UnknownInstruction(u16),
    /// A subroutine call with every stack slot in use.
    StackOverflow,
    /// A return with no subroutine call to return from.
    StackUnderflow,
    /// The program does not fit between the load address and the end of memory.
    RomTooLarge,
}

/// One decoded instruction. `x` and `y` name registers, `n` is a 4-bit and
/// `kk` an 8-bit immediate, `nnn` a 12-bit address.
#[derive(Debug, Clone, Copy, PartialEq, Eq, Structural)]
pub enum Op {
    /// 00E0
    Clear,
    /// 00EE
    Return,
    /// 1nnn
    Jump(u16),
    /// 2nnn
    Call(u16),
    /// 3xkk
    SkipEqImm(u8, u8),
    /// 4xkk
    SkipNeImm(u8, u8),
    /// 5xy0
    SkipEqReg(u8, u8),
    /// 9xy0
    SkipNeReg(u8, u8),
    /// 6xkk
    LoadImm(u8, u8),
    /// 7xkk
    AddImm(u8, u8),
    /// 8xy0
    Move(u8, u8),
    /// 8xy1
    Or(u8, u8),
    /// 8xy2
    And(u8, u8),
    /// 8xy3
    Xor(u8, u8),
    /// 8xy4
    AddReg(u8, u8),
    /// 8xy5
    SubReg(u8, u8),
    /// 8xy6
    ShiftRight(u8, u8),
    /// 8xy7
    SubRev(u8, u8),
    /// 8xyE
    ShiftLeft(u8, u8),
    /// Annn
    SetIndex(u16),
    /// Bnnn
    JumpOffset(u16),
    /// Cxkk
    Random(u8, u8),
    /// Dxyn
    Draw(u8, u8, u8),
    /// Ex9E
    SkipKey(u8),
    /// ExA1
    SkipNoKey(u8),
    /// Fx07
    GetDelay(u8),
    /// Fx0A
    WaitKey(u8),
    /// Fx15
    SetDelay(u8),
    /// Fx18
    SetSound(u8),
    /// Fx1E
    AddIndex(u8),
    /// Fx29
    FontChar(u8),
    /// Fx33
    Bcd(u8),
    /// Fx55
    StoreRegs(u8),
    /// Fx65
    LoadRegs(u8),
}

/// The top nibble of an instruction word.
pub open spec fn word_opcode(w: u16) -> u8 {
    (w / 4096) as u8
}

/// Bits 8..12: the first register operand.
pub open spec fn word_x(w: u16) -> u8 {
    ((w / 256) % 16) as u8
}

/// Bits 4..8: the second register operand.
pub open spec fn word_y(w: u16) -> u8 {
    ((w / 16) % 16) as u8
}

/// Bits 0..4.
pub open spec fn word_n(w: u16) -> u8 {
    (w % 16) as u8
}

/// Bits 0..8.
pub open spec fn word_kk(w: u16) -> u8 {
    (w % 256) as u8
}

/// Bits 0..12.
pub open spec fn word_nnn(w: u16) -> u16 {
    (w % 4096) as u16
}

/// The instruction that a 16-bit word encodes, if any.
pub open spec fn decode_spec(w: u16) -> Result<Op, Chip8Error> {
    let x = word_x(w);
    let y = word_y(w);
    let n = word_n(w);
    let kk = word_kk(w);
    let nnn = word_nnn(w);
    let op = word_opcode(w);
    if w == 0x00E0 {
        Ok(Op::Clear)
    } else if w == 0x00EE {
        Ok(Op::Return)
    } else if op == 0x1 {
        Ok(Op::Jump(nnn))
    } else if op == 0x2 {
        Ok(Op::Call(nnn))
    } else if op == 0x3 {
        Ok(Op::SkipEqImm(x, kk))
    } else if op == 0x4 {
        Ok(Op::SkipNeImm(x, kk))
    } else if op == 0x5 && n == 0 {
        Ok(Op::SkipEqReg(x, y))
    } else if op == 0x6 {
        Ok(Op::LoadImm(x, kk))
    } else if op == 0x7 {
        Ok(Op::AddImm(x, kk))
    } else if op == 0x8 && n == 0x0 {
        Ok(Op::Move(x, y))
    } else if op == 0x8 && n == 0x1 {
        Ok(Op::Or(x, y))
    } else if op == 0x8 && n == 0x2 {
        Ok(Op::And(x, y))
    } else if op == 0x8 && n == 0x3 {
        Ok(Op::Xor(x, y))
    } else if op == 0x8 && n == 0x4 {
        Ok(Op::AddReg(x, y))
    } else if op == 0x8 && n == 0x5 {
        Ok(Op::SubReg(x, y))
    } else if op == 0x8 && n == 0x6 {
        Ok(Op::ShiftRight(x, y))
    } else if op == 0x8 && n == 0x7 {
        Ok(Op::SubRev(x, y))
    } else if op == 0x8 && n == 0xE {
        Ok(Op::ShiftLeft(x, y))
    } else if op == 0x9 && n == 0 {
        Ok(Op::SkipNeReg(x, y))
    } else if op == 0xA {
        Ok(Op::SetIndex(nnn))
    } else if op == 0xB {
        Ok(Op::JumpOffset(nnn))
    } else if op == 0xC {
        Ok(Op::Random(x, kk))
    } else if op == 0xD {
        Ok(Op::Draw(x, y, n))
    } else if op == 0xE && kk == 0x9E {
        Ok(Op::SkipKey(x))
    } else if op == 0xE && kk == 0xA1 {
        Ok(Op::SkipNoKey(x))
    } else if op == 0xF && kk == 0x07 {
        Ok(Op::GetDelay(x))
    } else if op == 0xF && kk == 0x0A {
        Ok(Op::WaitKey(x))
    } else if op == 0xF && kk == 0x15 {
        Ok(Op::SetDelay(x))
    } else if op == 0xF && kk == 0x18 {
        Ok(Op::SetSound(x))
    } else if op == 0xF && kk == 0x1E {
        Ok(Op::AddIndex(x))
    } else if op == 0xF && kk == 0x29 {
        Ok(Op::FontChar(x))
    } else if op == 0xF && kk == 0x33 {
        Ok(Op::Bcd(x))
    } else if op == 0xF && kk == 0x55 {
        Ok(Op::StoreRegs(x))
    } else if op == 0xF && kk == 0x65 {
        Ok(Op::LoadRegs(x))
    } else {
        Err(Chip8Error::UnknownInstruction(w))
    }
}

/// Register operands name one of the sixteen registers, addresses lie inside
/// memory and sprites are at most fifteen rows tall.
pub open spec fn op_wf(op: Op) -> bool {
    match op {
        Op::Clear | Op::Return => true,
        Op::Jump(a) | Op::Call(a) | Op::SetIndex(a) | Op::JumpOffset(a) => a < 4096,
        Op::SkipEqImm(x, _) | Op::SkipNeImm(x, _) | Op::LoadImm(x, _) | Op::AddImm(x, _)
        | Op::Random(x, _) => x < 16,
        Op::SkipEqReg(x, y) | Op::SkipNeReg(x, y) | Op::Move(x, y) | Op::Or(x, y) | Op::And(x, y)
        | Op::Xor(x, y) | Op::AddReg(x, y) | Op::SubReg(x, y) | Op::ShiftRight(x, y) | Op::SubRev(
            x,
            y,
        ) | Op::ShiftLeft(x, y) => x < 16 && y < 16,
        Op::Draw(x, y, n) => x < 16 && y < 16 && n < 16,
        Op::SkipKey(x) | Op::SkipNoKey(x) | Op::GetDelay(x) | Op::WaitKey(x) | Op::SetDelay(x)
        | Op::SetSound(x) | Op::AddIndex(x) | Op::FontChar(x) | Op::Bcd(x) | Op::StoreRegs(x)
        | Op::LoadRegs(x) => x < 16,
    }
}

pub(crate) proof fn lemma_decode_wf(w: u16)
    ensures
        decode_spec(w) matches Ok(op) ==> op_wf(op),
{
}

/// A raw 16-bit instruction word.
pub struct Instruction(pub u16);

impl Instruction {
    pub fn opcode(&self) -> (r: u8)
        ensures
            r == word_opcode(self.0),
    {
        let w = self.0;
        assert((w >> 12u16) == w / 4096) by (bit_vector);
        (w >> 12) as u8
    }

    pub fn addr(&self) -> (r: u16)
        ensures
            r == word_nnn(self.0),
    {
        let w = self.0;
        assert((w & 0x0FFFu16) == w % 4096) by (bit_vector);
        w & 0x0FFF
    }

    pub fn imm4(&self) -> (r: u8)
        ensures
            r == word_n(self.0),
    {
        let w = self.0;
        assert((w & 0x000Fu16) == w % 16) by (bit_vector);
        (w & 0x000F) as u8
    }

    pub fn imm8(&self) -> (r: u8)
        ensures
            r == word_kk(self.0),
    {
        let w = self.0;
        assert((w & 0x00FFu16) == w % 256) by (bit_vector);
        (w & 0x00FF) as u8
    }

    pub fn reg_h(&self) -> (r: usize)
        ensures
            r == word_x(self.0),
            r < 16,
    {
        let w = self.0;
        assert(((w >> 8u16) & 0xFu16) == (w / 256) % 16) by (bit_vector);
        ((w >> 8) & 0xF) as usize
    }

    pub fn reg_l(&self) -> (r: usize)
        ensures
            r == word_y(self.0),
            r < 16,
    {
        let w = self.0;
        assert(((w >> 4u16) & 0xFu16) == (w / 16) % 16) by (bit_vector);
        ((w >> 4) & 0xF) as usize
    }
}

/// Decodes an instruction word; every word outside the instruction set is
/// reported as unknown.
pub fn decode(w: u16) -> (r: Result<Op, Chip8Error>)
    ensures
        r == decode_spec(w),
{
    let ins = Instruction(w);
    let op = ins.opcode();
    let x = ins.reg_h() as u8;
    let y = ins.reg_l() as u8;
    let n = ins.imm4();
    let kk = ins.imm8();
    let nnn = ins.addr();
    if w == 0x00E0 {
        return Ok(Op::Clear);
    }
    if w == 0x00EE {
        return Ok(Op::Return);
    }
    let unknown = Err(Chip8Error::UnknownInstruction(w));
    match op {
        0x1 => Ok(Op::Jump(nnn)),
        0x2 => Ok(Op::Call(nnn)),
        0x3 => Ok(Op::SkipEqImm(x, kk)),
        0x4 => Ok(Op::SkipNeImm(x, kk)),
        0x5 => if n == 0 {
            Ok(Op::SkipEqReg(x, y))
        } else {
            unknown
        },
        0x6 => Ok(Op::LoadImm(x, kk)),
        0x7 => Ok(Op::AddImm(x, kk)),
        0x8 => match n {
            0x0 => Ok(Op::Move(x, y)),
            0x1 => Ok(Op::Or(x, y)),
            0x2 => Ok(Op::And(x, y)),
            0x3 => Ok(Op::Xor(x, y)),
            0x4 => Ok(Op::AddReg(x, y)),
            0x5 => Ok(Op::SubReg(x, y)),
            0x6 => Ok(Op::ShiftRight(x, y)),
            0x7 => Ok(Op::SubRev(x, y)),
            0xE => Ok(Op::ShiftLeft(x, y)),
            _ => unknown,
        },
        0x9 => if n == 0 {
            Ok(Op::SkipNeReg(x, y))
        } else {
            unknown
        },
        0xA => Ok(Op::SetIndex(nnn)),
        0xB => Ok(Op::JumpOffset(nnn)),
        0xC => Ok(Op::Random(x, kk)),
        0xD => Ok(Op::Draw(x, y, n)),
        0xE => match kk {
            0x9E => Ok(Op::SkipKey(x)),
            0xA1 => Ok(Op::SkipNoKey(x)),
            _ => unknown,
        },
        0xF => match kk {
            0x07 => Ok(Op::GetDelay(x)),
            0x0A => Ok(Op::WaitKey(x)),
            0x15 => Ok(Op::SetDelay(x)),
            0x18 => Ok(Op::SetSound(x)),
            0x1E => Ok(Op::AddIndex(x)),
            0x29 => Ok(Op::FontChar(x)),
            0x33 => Ok(Op::Bcd(x)),
            0x55 => Ok(Op::StoreRegs(x)),
            0x65 => Ok(Op::LoadRegs(x)),
            _ => unknown,
        },
        _ => unknown,
    }
}

} // verus!
