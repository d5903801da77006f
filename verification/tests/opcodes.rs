use chip8::Chip8Error;
use chip8::Opcode;
use chip8::Register;

#[test]
fn registers_map_to_u8() {
    assert_eq!(0, Register::V0 as u8);
    assert_eq!(10, Register::VA as u8);
    assert_eq!(15, Register::VF as u8);
}

#[test]
fn parses_draw_opcodes() {
    assert_eq!(Opcode::ClearDisplay, Opcode::from(0x00E0).unwrap());
    assert_eq!(
        Opcode::DisplaySprite(Register::VA, Register::VB, 0x6),
        Opcode::from(0xDAB6).unwrap()
    );
    assert_eq!(
        Opcode::LoadAddressOfSprite(Register::V4),
        Opcode::from(0xF429).unwrap()
    );
}

#[test]
fn parses_flow_opcodes() {
    assert_eq!(Opcode::CallSubroutine(0x2D4), Opcode::from(0x22D4).unwrap());
    assert_eq!(Opcode::Jump(0x53A), Opcode::from(0x153A).unwrap());
    assert_eq!(Opcode::Noop, Opcode::from(0x0123).unwrap());
    assert_eq!(Opcode::Return, Opcode::from(0x00EE).unwrap());
    assert_eq!(
        Opcode::SkipIfConstantEqual(Register::V7, 0x14),
        Opcode::from(0x3714).unwrap()
    );
    assert_eq!(
        Opcode::SkipIfConstantNotEqual(Register::VA, 0xAE),
        Opcode::from(0x4AAE).unwrap()
    );
    assert_eq!(
        Opcode::SkipIfRegistersEqual(Register::VA, Register::VD),
        Opcode::from(0x5AD0).unwrap()
    );
    assert_eq!(
        Opcode::SkipIfRegistersNotEqual(Register::V1, Register::V4),
        Opcode::from(0x9140).unwrap()
    );
    assert_eq!(Opcode::JumpPlus(0x17A), Opcode::from(0xB17A).unwrap());
    assert_eq!(Opcode::SkipIfPressed(Register::V9), Opcode::from(0xE99E).unwrap());
    assert_eq!(Opcode::SkipIfNotPressed(Register::VE), Opcode::from(0xEEA1).unwrap());
    assert_eq!(Opcode::WaitForPress(Register::VA), Opcode::from(0xFA0A).unwrap());
}

#[test]
fn parses_memory_opcodes() {
    assert_eq!(
        Opcode::LoadConstant(Register::VA, 0x02),
        Opcode::from(0x6A02).unwrap()
    );
    assert_eq!(
        Opcode::LoadConstant(Register::V0, 0xFF),
        Opcode::from(0x60FF).unwrap()
    );
    assert_eq!(Opcode::LoadAddress(0x2EA), Opcode::from(0xA2EA).unwrap());
    assert_eq!(
        Opcode::LoadRegister(Register::V1, Register::V2),
        Opcode::from(0x8120).unwrap()
    );
    assert_eq!(Opcode::LoadDigits(Register::VA), Opcode::from(0xFA33).unwrap());
    assert_eq!(Opcode::StoreRegisters(Register::V9), Opcode::from(0xF955).unwrap());
    assert_eq!(Opcode::LoadRegisters(Register::VD), Opcode::from(0xFD65).unwrap());
}

#[test]
fn parses_math_opcodes() {
    assert_eq!(
        Opcode::AddConstant(Register::V2, 0x3B),
        Opcode::from(0x723B).unwrap()
    );
    assert_eq!(Opcode::Or(Register::V8, Register::VA), Opcode::from(0x88A1).unwrap());
    assert_eq!(
        Opcode::And(Register::V1, Register::V3),
        Opcode::from(0x8132).unwrap()
    );
    assert_eq!(
        Opcode::Xor(Register::V5, Register::VC),
        Opcode::from(0x85C3).unwrap()
    );
    assert_eq!(
        Opcode::AddRegister(Register::V4, Register::V5),
        Opcode::from(0x8454).unwrap()
    );
    assert_eq!(
        Opcode::SubtractRightRegister(Register::V2, Register::VA),
        Opcode::from(0x82A5).unwrap()
    );
    assert_eq!(Opcode::ShiftRight(Register::V7), Opcode::from(0x8716).unwrap());
    assert_eq!(
        Opcode::SubtractLeftRegister(Register::VA, Register::VC),
        Opcode::from(0x8AC7).unwrap()
    );
    assert_eq!(Opcode::ShiftLeft(Register::V7), Opcode::from(0x87AE).unwrap());
    assert_eq!(Opcode::Random(Register::V4, 0x14), Opcode::from(0xC414).unwrap());
    assert_eq!(Opcode::AddAddress(Register::V8), Opcode::from(0xF81E).unwrap());
}

#[test]
fn parses_timer_opcodes() {
    assert_eq!(Opcode::SetDelayTimer(Register::V0), Opcode::from(0xF015).unwrap());
    assert_eq!(Opcode::LoadDelayTimer(Register::V0), Opcode::from(0xF007).unwrap());
    assert_eq!(Opcode::SetSoundTimer(Register::V3), Opcode::from(0xF318).unwrap());
}

#[test]
fn rejects_words_outside_the_table() {
    assert_eq!(Opcode::from(0x5AD1), Err(Chip8Error::InvalidInstruction(0x5AD1)));
    assert_eq!(Opcode::from(0x8AB9), Err(Chip8Error::InvalidInstruction(0x8AB9)));
    assert_eq!(Opcode::from(0x9011), Err(Chip8Error::InvalidInstruction(0x9011)));
    assert_eq!(Opcode::from(0xE0FF), Err(Chip8Error::InvalidInstruction(0xE0FF)));
    assert_eq!(Opcode::from(0xF099), Err(Chip8Error::InvalidInstruction(0xF099)));
    assert_eq!(Opcode::from(0xFFFF), Err(Chip8Error::InvalidInstruction(0xFFFF)));
}

#[test]
fn decoder_is_total_and_deterministic() {
    // Every 16-bit word either decodes or is rejected, never panics, and two
    // decodings of the same word agree.
    let mut legal: u32 = 0;
    for w in 0..=0xFFFFu16 {
        let first = Opcode::from(w);
        let second = Opcode::from(w);
        assert_eq!(first, second);
        if first.is_ok() {
            legal += 1;
        } else {
            assert_eq!(first, Err(Chip8Error::InvalidInstruction(w)));
        }
    }
    // The whole 0x0, 0x1-0x4, 0x6, 0x7, 0xA-0xD ranges are legal, and more.
    assert!(legal > 10 * 4096);
}

#[test]
fn instruction_fields_split_the_word() {
    let inst = chip8::Instruction(0xDAB6);
    assert_eq!(inst.raw(), 0xDAB6);
    assert_eq!(inst.op(), 0xD);
    assert_eq!(inst.x(), 0xA);
    assert_eq!(inst.y(), 0xB);
    assert_eq!(inst.kk(), 0xB6);
    assert_eq!(inst.nnn(), 0xAB6);
    assert_eq!(inst.n(), 0x6);
}
