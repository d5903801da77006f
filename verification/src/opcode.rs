use vstd::prelude::*;

use crate::cpu::Register;
use crate::Chip8Error;

verus! {

/// The top nibble of an instruction word: selects the kind of opcode.
pub open spec fn spec_op(w: u16) -> u8 {
    (w >> 12) as u8
}

/// The second nibble of an instruction word: the first register operand.
pub open spec fn spec_x(w: u16) -> u8 {
    ((w >> 8) & 0xF) as u8
}

/// The third nibble of an instruction word: the second register operand.
pub open spec fn spec_y(w: u16) -> u8 {
    ((w >> 4) & 0xF) as u8
}

/// The low byte of an instruction word: an 8-bit immediate.
pub open spec fn spec_kk(w: u16) -> u8 {
    (w & 0xFF) as u8
}

/// The low 12 bits of an instruction word: an address immediate.
pub open spec fn spec_nnn(w: u16) -> usize {
    (w & 0xFFF) as usize
}

/// The low nibble of an instruction word: a 4-bit immediate.
pub open spec fn spec_n(w: u16) -> u8 {
    (w & 0xF) as u8
}

/// The register named by the second nibble of an instruction word.
pub open spec fn spec_reg_x(w: u16) -> Register {
    Register::spec_from_index(spec_x(w) as int)
}

/// The register named by the third nibble of an instruction word.
pub open spec fn spec_reg_y(w: u16) -> Register {
    Register::spec_from_index(spec_y(w) as int)
}

/// One 16-bit instruction word, with accessors for its conventional bit-fields.
pub struct Instruction(pub u16);

impl Instruction {
    /// The whole 16-bit word.
    pub fn raw(&self) -> (r: u16)
        ensures
            r == self.0,
    {
        self.0
    }

    /// The top nibble, used as a switch into the kind of opcode.
    pub fn op(&self) -> (r: u8)
        ensures
            r == spec_op(self.0),
            r < 16,
    {
        let w = self.0;
        proof {
            assert(w >> 12 < 16) by (bit_vector);
        }
        (w >> 12) as u8
    }

    /// The second nibble, the `x` register operand.
    pub fn x(&self) -> (r: u8)
        ensures
            r == spec_x(self.0),
            r < 16,
    {
        let w = self.0;
        proof {
            assert((w >> 8) & 0xF < 16) by (bit_vector);
        }
        ((w >> 8) & 0xF) as u8
    }

    /// The third nibble, the `y` register operand.
    pub fn y(&self) -> (r: u8)
        ensures
            r == spec_y(self.0),
            r < 16,
    {
        let w = self.0;
        proof {
            assert((w >> 4) & 0xF < 16) by (bit_vector);
        }
        ((w >> 4) & 0xF) as u8
    }

    /// The low byte, the `kk` immediate.
    pub fn kk(&self) -> (r: u8)
        ensures
            r == spec_kk(self.0),
    {
        let w = self.0;
        proof {
            assert(w & 0xFF < 256) by (bit_vector);
        }
        (w & 0xFF) as u8
    }

    /// The low 12 bits, the `nnn` address immediate.
    pub fn nnn(&self) -> (r: usize)
        ensures
            r == spec_nnn(self.0),
            r < 4096,
    {
        let w = self.0;
        proof {
            assert(w & 0xFFF < 4096) by (bit_vector);
        }
        (w & 0xFFF) as usize
    }

    /// The low nibble, the `n` immediate.
    pub fn n(&self) -> (r: u8)
        ensures
            r == spec_n(self.0),
            r < 16,
    {
        let w = self.0;
        proof {
            assert(w & 0xF < 16) by (bit_vector);
        }
        (w & 0xF) as u8
    }
}

/// The decoded form of one instruction word.
#[derive(Copy, Clone, Debug, PartialEq, Eq, Structural)]
pub enum Opcode {
    /// `00E0`: clear the display.
    ClearDisplay,
    /// `00EE`: return from a subroutine by popping the call stack into the program counter.
    Return,
    /// `0nnn` (other than `00E0` and `00EE`): ignored by modern interpreters.
    Noop,
    /// `1nnn`: jump to address `nnn`.
    Jump(usize),
    /// `2nnn`: push the program counter and jump to the subroutine at `nnn`.
    CallSubroutine(usize),
    /// `3xkk`: skip the next instruction if `V[x] == kk`.
    SkipIfConstantEqual(Register, u8),
    /// `4xkk`: skip the next instruction if `V[x] != kk`.
    SkipIfConstantNotEqual(Register, u8),
    /// `5xy0`: skip the next instruction if `V[x] == V[y]`.
    SkipIfRegistersEqual(Register, Register),
    /// `6xkk`: set `V[x] = kk`.
    LoadConstant(Register, u8),
    /// `7xkk`: set `V[x] = V[x] + kk`, wrapping modulo 256, without touching the flag.
    AddConstant(Register, u8),
    /// `8xy0`: set `V[x] = V[y]`.
    LoadRegister(Register, Register),
    /// `8xy1`: set `V[x] |= V[y]`.
    Or(Register, Register),
    /// `8xy2`: set `V[x] &= V[y]`.
    And(Register, Register),
    /// `8xy3`: set `V[x] ^= V[y]`.
    Xor(Register, Register),
    /// `8xy4`: set `V[x] += V[y]` modulo 256; the flag becomes 1 on carry, 0 otherwise.
    AddRegister(Register, Register),
    /// `8xy5`: set `V[x] -= V[y]` modulo 256; the flag becomes 1 if `V[x] > V[y]` held, 0 otherwise.
    SubtractRightRegister(Register, Register),
    /// `8xy6`: the flag becomes the low bit of `V[x]`, then `V[x] >>= 1`.
    ShiftRight(Register),
    /// `8xy7`: set `V[x] = V[y] - V[x]` modulo 256; the flag becomes 1 if `V[y] > V[x]` held, 0 otherwise.
    SubtractLeftRegister(Register, Register),
    /// `8xyE`: the flag becomes the high bit of `V[x]`, then `V[x] <<= 1` modulo 256.
    ShiftLeft(Register),
    /// `9xy0`: skip the next instruction if `V[x] != V[y]`.
    SkipIfRegistersNotEqual(Register, Register),
    /// `Annn`: set the index register to `nnn`.
    LoadAddress(usize),
    /// `Bnnn`: jump to address `V[0] + nnn`.
    JumpPlus(usize),
    /// `Cxkk`: set `V[x]` to a random byte masked with `kk`.
    Random(Register, u8),
    /// `Dxyn`: draw the `n`-row sprite at memory\[index..\] to `(V[x], V[y])`.
    DisplaySprite(Register, Register, u8),
    /// `Ex9E`: skip the next instruction if key `V[x]` is held; the low
    /// nibble of `V[x]` names the key.
    SkipIfPressed(Register),
    /// `ExA1`: skip the next instruction if key `V[x]` is not held; the low
    /// nibble of `V[x]` names the key.
    SkipIfNotPressed(Register),
    /// `Fx07`: set `V[x]` to the delay timer.
    LoadDelayTimer(Register),
    /// `Fx0A`: wait until a key is held, then store that key in `V[x]`.
    WaitForPress(Register),
    /// `Fx15`: set the delay timer to `V[x]`.
    SetDelayTimer(Register),
    /// `Fx18`: set the sound timer to `V[x]`.
    SetSoundTimer(Register),
    /// `Fx1E`: add `V[x]` to the index register, wrapping modulo 65536.
    AddAddress(Register),
    /// `Fx29`: point the index register at the built-in glyph for digit
    /// `V[x]`; the low nibble of `V[x]` selects among the sixteen glyphs.
    LoadAddressOfSprite(Register),
    /// `Fx33`: store the decimal digits of `V[x]` at index, index+1, index+2.
    LoadDigits(Register),
    /// `Fx55`: store `V[0..=x]` into memory starting at the index register.
    StoreRegisters(Register),
    /// `Fx65`: load `V[0..=x]` from memory starting at the index register.
    LoadRegisters(Register),
}

impl Opcode {
    /// The immediates of the opcode fit their encoding fields: addresses are 12
    /// bits and sprite heights are one nibble. Every decoded word satisfies this.
    pub open spec fn wf(self) -> bool {
        match self {
            Opcode::Jump(nnn) => nnn < 4096,
            Opcode::CallSubroutine(nnn) => nnn < 4096,
            Opcode::LoadAddress(nnn) => nnn < 4096,
            Opcode::JumpPlus(nnn) => nnn < 4096,
            Opcode::DisplaySprite(_, _, n) => n < 16,
            _ => true,
        }
    }
}

/// The instruction a word decodes to, or `None` if the word is outside the
/// legal encoding table.
pub open spec fn spec_decode(w: u16) -> Option<Opcode> {
    let op = spec_op(w);
    if op == 0x0 {
        if w == 0x00E0 {
            Some(Opcode::ClearDisplay)
        } else if w == 0x00EE {
            Some(Opcode::Return)
        } else {
            Some(Opcode::Noop)
        }
    } else if op == 0x1 {
        Some(Opcode::Jump(spec_nnn(w)))
    } else if op == 0x2 {
        Some(Opcode::CallSubroutine(spec_nnn(w)))
    } else if op == 0x3 {
        Some(Opcode::SkipIfConstantEqual(spec_reg_x(w), spec_kk(w)))
    } else if op == 0x4 {
        Some(Opcode::SkipIfConstantNotEqual(spec_reg_x(w), spec_kk(w)))
    } else if op == 0x5 {
        if spec_n(w) == 0x0 {
            Some(Opcode::SkipIfRegistersEqual(spec_reg_x(w), spec_reg_y(w)))
        } else {
            None
        }
    } else if op == 0x6 {
        Some(Opcode::LoadConstant(spec_reg_x(w), spec_kk(w)))
    } else if op == 0x7 {
        Some(Opcode::AddConstant(spec_reg_x(w), spec_kk(w)))
    } else if op == 0x8 {
        let n = spec_n(w);
        if n == 0x0 {
            Some(Opcode::LoadRegister(spec_reg_x(w), spec_reg_y(w)))
        } else if n == 0x1 {
            Some(Opcode::Or(spec_reg_x(w), spec_reg_y(w)))
        } else if n == 0x2 {
            Some(Opcode::And(spec_reg_x(w), spec_reg_y(w)))
        } else if n == 0x3 {
            Some(Opcode::Xor(spec_reg_x(w), spec_reg_y(w)))
        } else if n == 0x4 {
            Some(Opcode::AddRegister(spec_reg_x(w), spec_reg_y(w)))
        } else if n == 0x5 {
            Some(Opcode::SubtractRightRegister(spec_reg_x(w), spec_reg_y(w)))
        } else if n == 0x6 {
            Some(Opcode::ShiftRight(spec_reg_x(w)))
        } else if n == 0x7 {
            Some(Opcode::SubtractLeftRegister(spec_reg_x(w), spec_reg_y(w)))
        } else if n == 0xE {
            Some(Opcode::ShiftLeft(spec_reg_x(w)))
        } else {
            None
        }
    } else if op == 0x9 {
        if spec_n(w) == 0x0 {
            Some(Opcode::SkipIfRegistersNotEqual(spec_reg_x(w), spec_reg_y(w)))
        } else {
            None
        }
    } else if op == 0xA {
        Some(Opcode::LoadAddress(spec_nnn(w)))
    } else if op == 0xB {
        Some(Opcode::JumpPlus(spec_nnn(w)))
    } else if op == 0xC {
        Some(Opcode::Random(spec_reg_x(w), spec_kk(w)))
    } else if op == 0xD {
        Some(Opcode::DisplaySprite(spec_reg_x(w), spec_reg_y(w), spec_n(w)))
    } else if op == 0xE {
        let kk = spec_kk(w);
        if kk == 0x9E {
            Some(Opcode::SkipIfPressed(spec_reg_x(w)))
        } else if kk == 0xA1 {
            Some(Opcode::SkipIfNotPressed(spec_reg_x(w)))
        } else {
            None
        }
    } else if op == 0xF {
        let kk = spec_kk(w);
        if kk == 0x07 {
            Some(Opcode::LoadDelayTimer(spec_reg_x(w)))
        } else if kk == 0x0A {
            Some(Opcode::WaitForPress(spec_reg_x(w)))
        } else if kk == 0x15 {
            Some(Opcode::SetDelayTimer(spec_reg_x(w)))
        } else if kk == 0x18 {
            Some(Opcode::SetSoundTimer(spec_reg_x(w)))
        } else if kk == 0x1E {
            Some(Opcode::AddAddress(spec_reg_x(w)))
        } else if kk == 0x29 {
            Some(Opcode::LoadAddressOfSprite(spec_reg_x(w)))
        } else if kk == 0x33 {
            Some(Opcode::LoadDigits(spec_reg_x(w)))
        } else if kk == 0x55 {
            Some(Opcode::StoreRegisters(spec_reg_x(w)))
        } else if kk == 0x65 {
            Some(Opcode::LoadRegisters(spec_reg_x(w)))
        } else {
            None
        }
    } else {
        None
    }
}

impl Opcode {
    /// Decode one 16-bit instruction word. Every word inside the legal encoding
    /// table yields its instruction; every word outside it is a decode fault.
    pub fn from(val: u16) -> (r: Result<Opcode, Chip8Error>)
        ensures
            match spec_decode(val) {
                Some(op) => r == Ok::<Opcode, Chip8Error>(op) && op.wf(),
                None => r == Err::<Opcode, Chip8Error>(Chip8Error::InvalidInstruction(val)),
            },
    {
        let inst = Instruction(val);
        match inst.op() {
            0x0 => {
                if val == 0x00E0 {
                    Ok(Opcode::ClearDisplay)
                } else if val == 0x00EE {
                    Ok(Opcode::Return)
                } else {
                    Ok(Opcode::Noop)
                }
            },
            0x1 => Ok(Opcode::Jump(inst.nnn())),
            0x2 => Ok(Opcode::CallSubroutine(inst.nnn())),
            0x3 => Ok(Opcode::SkipIfConstantEqual(Register::from_index(inst.x()), inst.kk())),
            0x4 => Ok(Opcode::SkipIfConstantNotEqual(Register::from_index(inst.x()), inst.kk())),
            0x5 => {
                if inst.n() == 0x0 {
                    Ok(
                        Opcode::SkipIfRegistersEqual(
                            Register::from_index(inst.x()),
                            Register::from_index(inst.y()),
                        ),
                    )
                } else {
                    Err(Chip8Error::InvalidInstruction(val))
                }
            },
            0x6 => Ok(Opcode::LoadConstant(Register::from_index(inst.x()), inst.kk())),
            0x7 => Ok(Opcode::AddConstant(Register::from_index(inst.x()), inst.kk())),
            0x8 => {
                let x = Register::from_index(inst.x());
                match inst.n() {
                    0x0 => Ok(Opcode::LoadRegister(x, Register::from_index(inst.y()))),
                    0x1 => Ok(Opcode::Or(x, Register::from_index(inst.y()))),
                    0x2 => Ok(Opcode::And(x, Register::from_index(inst.y()))),
                    0x3 => Ok(Opcode::Xor(x, Register::from_index(inst.y()))),
                    0x4 => Ok(Opcode::AddRegister(x, Register::from_index(inst.y()))),
                    0x5 => Ok(Opcode::SubtractRightRegister(x, Register::from_index(inst.y()))),
                    0x6 => Ok(Opcode::ShiftRight(x)),
                    0x7 => Ok(Opcode::SubtractLeftRegister(x, Register::from_index(inst.y()))),
                    0xE => Ok(Opcode::ShiftLeft(x)),
                    _ => Err(Chip8Error::InvalidInstruction(val)),
                }
            },
            0x9 => {
                if inst.n() == 0x0 {
                    Ok(
                        Opcode::SkipIfRegistersNotEqual(
                            Register::from_index(inst.x()),
                            Register::from_index(inst.y()),
                        ),
                    )
                } else {
                    Err(Chip8Error::InvalidInstruction(val))
                }
            },
            0xA => Ok(Opcode::LoadAddress(inst.nnn())),
            0xB => Ok(Opcode::JumpPlus(inst.nnn())),
            0xC => Ok(Opcode::Random(Register::from_index(inst.x()), inst.kk())),
            0xD => Ok(
                Opcode::DisplaySprite(
                    Register::from_index(inst.x()),
                    Register::from_index(inst.y()),
                    inst.n(),
                ),
            ),
            0xE => {
                match inst.kk() {
                    0x9E => Ok(Opcode::SkipIfPressed(Register::from_index(inst.x()))),
                    0xA1 => Ok(Opcode::SkipIfNotPressed(Register::from_index(inst.x()))),
                    _ => Err(Chip8Error::InvalidInstruction(val)),
                }
            },
            0xF => {
                let x = Register::from_index(inst.x());
                match inst.kk() {
                    0x07 => Ok(Opcode::LoadDelayTimer(x)),
                    0x0A => Ok(Opcode::WaitForPress(x)),
                    0x15 => Ok(Opcode::SetDelayTimer(x)),
                    0x18 => Ok(Opcode::SetSoundTimer(x)),
                    0x1E => Ok(Opcode::AddAddress(x)),
                    0x29 => Ok(Opcode::LoadAddressOfSprite(x)),
                    0x33 => Ok(Opcode::LoadDigits(x)),
                    0x55 => Ok(Opcode::StoreRegisters(x)),
                    0x65 => Ok(Opcode::LoadRegisters(x)),
                    _ => Err(Chip8Error::InvalidInstruction(val)),
                }
            },
            _ => Err(Chip8Error::InvalidInstruction(val)),
        }
    }
}

/// Decoding is deterministic: what a word decodes to is a function of the word
/// alone, so decoding the same word twice yields the same instruction.
pub proof fn lemma_decode_deterministic(w1: u16, w2: u16)
    requires
        w1 == w2,
    ensures
        spec_decode(w1) == spec_decode(w2),
{
}

/// Every word whose top nibble and sub-selector match a row of the encoding
/// table decodes to exactly that row's instruction, and a word that matches no
/// row does not decode at all.
pub proof fn lemma_decode_matches_table(w: u16)
    ensures
        w == 0x00E0 ==> spec_decode(w) == Some(Opcode::ClearDisplay),
        w == 0x00EE ==> spec_decode(w) == Some(Opcode::Return),
        spec_op(w) == 0x0 && w != 0x00E0 && w != 0x00EE ==> spec_decode(w) == Some(Opcode::Noop),
        spec_op(w) == 0x1 ==> spec_decode(w) == Some(Opcode::Jump(spec_nnn(w))),
        spec_op(w) == 0x2 ==> spec_decode(w) == Some(Opcode::CallSubroutine(spec_nnn(w))),
        spec_op(w) == 0x3 ==> spec_decode(w) == Some(
            Opcode::SkipIfConstantEqual(spec_reg_x(w), spec_kk(w)),
        ),
        spec_op(w) == 0x4 ==> spec_decode(w) == Some(
            Opcode::SkipIfConstantNotEqual(spec_reg_x(w), spec_kk(w)),
        ),
        spec_op(w) == 0x5 && spec_n(w) == 0x0 ==> spec_decode(w) == Some(
            Opcode::SkipIfRegistersEqual(spec_reg_x(w), spec_reg_y(w)),
        ),
        spec_op(w) == 0x6 ==> spec_decode(w) == Some(
            Opcode::LoadConstant(spec_reg_x(w), spec_kk(w)),
        ),
        spec_op(w) == 0x7 ==> spec_decode(w) == Some(
            Opcode::AddConstant(spec_reg_x(w), spec_kk(w)),
        ),
        spec_op(w) == 0x8 && spec_n(w) == 0x0 ==> spec_decode(w) == Some(
            Opcode::LoadRegister(spec_reg_x(w), spec_reg_y(w)),
        ),
        spec_op(w) == 0x8 && spec_n(w) == 0x1 ==> spec_decode(w) == Some(
            Opcode::Or(spec_reg_x(w), spec_reg_y(w)),
        ),
        spec_op(w) == 0x8 && spec_n(w) == 0x2 ==> spec_decode(w) == Some(
            Opcode::And(spec_reg_x(w), spec_reg_y(w)),
        ),
        spec_op(w) == 0x8 && spec_n(w) == 0x3 ==> spec_decode(w) == Some(
            Opcode::Xor(spec_reg_x(w), spec_reg_y(w)),
        ),
        spec_op(w) == 0x8 && spec_n(w) == 0x4 ==> spec_decode(w) == Some(
            Opcode::AddRegister(spec_reg_x(w), spec_reg_y(w)),
        ),
        spec_op(w) == 0x8 && spec_n(w) == 0x5 ==> spec_decode(w) == Some(
            Opcode::SubtractRightRegister(spec_reg_x(w), spec_reg_y(w)),
        ),
        spec_op(w) == 0x8 && spec_n(w) == 0x6 ==> spec_decode(w) == Some(
            Opcode::ShiftRight(spec_reg_x(w)),
        ),
        spec_op(w) == 0x8 && spec_n(w) == 0x7 ==> spec_decode(w) == Some(
            Opcode::SubtractLeftRegister(spec_reg_x(w), spec_reg_y(w)),
        ),
        spec_op(w) == 0x8 && spec_n(w) == 0xE ==> spec_decode(w) == Some(
            Opcode::ShiftLeft(spec_reg_x(w)),
        ),
        spec_op(w) == 0x9 && spec_n(w) == 0x0 ==> spec_decode(w) == Some(
            Opcode::SkipIfRegistersNotEqual(spec_reg_x(w), spec_reg_y(w)),
        ),
        spec_op(w) == 0xA ==> spec_decode(w) == Some(Opcode::LoadAddress(spec_nnn(w))),
        spec_op(w) == 0xB ==> spec_decode(w) == Some(Opcode::JumpPlus(spec_nnn(w))),
        spec_op(w) == 0xC ==> spec_decode(w) == Some(Opcode::Random(spec_reg_x(w), spec_kk(w))),
        spec_op(w) == 0xD ==> spec_decode(w) == Some(
            Opcode::DisplaySprite(spec_reg_x(w), spec_reg_y(w), spec_n(w)),
        ),
        spec_op(w) == 0xE && spec_kk(w) == 0x9E ==> spec_decode(w) == Some(
            Opcode::SkipIfPressed(spec_reg_x(w)),
        ),
        spec_op(w) == 0xE && spec_kk(w) == 0xA1 ==> spec_decode(w) == Some(
            Opcode::SkipIfNotPressed(spec_reg_x(w)),
        ),
        spec_op(w) == 0xF && spec_kk(w) == 0x07 ==> spec_decode(w) == Some(
            Opcode::LoadDelayTimer(spec_reg_x(w)),
        ),
        spec_op(w) == 0xF && spec_kk(w) == 0x0A ==> spec_decode(w) == Some(
            Opcode::WaitForPress(spec_reg_x(w)),
        ),
        spec_op(w) == 0xF && spec_kk(w) == 0x15 ==> spec_decode(w) == Some(
            Opcode::SetDelayTimer(spec_reg_x(w)),
        ),
        spec_op(w) == 0xF && spec_kk(w) == 0x18 ==> spec_decode(w) == Some(
            Opcode::SetSoundTimer(spec_reg_x(w)),
        ),
        spec_op(w) == 0xF && spec_kk(w) == 0x1E ==> spec_decode(w) == Some(
            Opcode::AddAddress(spec_reg_x(w)),
        ),
        spec_op(w) == 0xF && spec_kk(w) == 0x29 ==> spec_decode(w) == Some(
            Opcode::LoadAddressOfSprite(spec_reg_x(w)),
        ),
        spec_op(w) == 0xF && spec_kk(w) == 0x33 ==> spec_decode(w) == Some(
            Opcode::LoadDigits(spec_reg_x(w)),
        ),
        spec_op(w) == 0xF && spec_kk(w) == 0x55 ==> spec_decode(w) == Some(
            Opcode::StoreRegisters(spec_reg_x(w)),
        ),
        spec_op(w) == 0xF && spec_kk(w) == 0x65 ==> spec_decode(w) == Some(
            Opcode::LoadRegisters(spec_reg_x(w)),
        ),
        spec_decode(w) is None <==> {
            ||| spec_op(w) == 0x5 && spec_n(w) != 0x0
            ||| spec_op(w) == 0x8 && !(spec_n(w) == 0x0 || spec_n(w) == 0x1 || spec_n(w) == 0x2
                || spec_n(w) == 0x3 || spec_n(w) == 0x4 || spec_n(w) == 0x5 || spec_n(w) == 0x6
                || spec_n(w) == 0x7 || spec_n(w) == 0xE)
            ||| spec_op(w) == 0x9 && spec_n(w) != 0x0
            ||| spec_op(w) == 0xE && !(spec_kk(w) == 0x9E || spec_kk(w) == 0xA1)
            ||| spec_op(w) == 0xF && !(spec_kk(w) == 0x07 || spec_kk(w) == 0x0A || spec_kk(w)
                == 0x15 || spec_kk(w) == 0x18 || spec_kk(w) == 0x1E || spec_kk(w) == 0x29
                || spec_kk(w) == 0x33 || spec_kk(w) == 0x55 || spec_kk(w) == 0x65)
        },
{
    assert(spec_op(w) < 16) by (bit_vector);
    if w == 0x00E0 || w == 0x00EE {
        assert(w >> 12 == 0) by (bit_vector)
            requires
                w == 0x00E0 || w == 0x00EE,
        ;
    }
}

} // verus!
