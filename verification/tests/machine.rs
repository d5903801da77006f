use chip8::Chip8;
use chip8::Chip8Error;
use chip8::StepOutcome;

fn run_program(program: &[u8], ticks: usize, keys: u16) -> Chip8 {
    let mut c = Chip8::new();
    c.load_program(program).unwrap();
    for _ in 0..ticks {
        c.tick(keys).unwrap();
    }
    c
}

#[test]
fn add_constant_wraps_without_flag() {
    // V3 = 0xFF; V3 += 0x02 wraps to 0x01 and leaves the flag alone.
    let c = run_program(&[0x63, 0xFF, 0x73, 0x02], 2, 0);
    assert_eq!(c.get_register(3), 0x01);
    assert_eq!(c.get_register(15), 0x00);
}

#[test]
fn add_register_sets_carry() {
    // V0 = 0xFF, V1 = 0x01; V0 += V1 gives 0x00 with the flag set.
    let c = run_program(&[0x60, 0xFF, 0x61, 0x01, 0x80, 0x14], 3, 0);
    assert_eq!(c.get_register(0), 0x00);
    assert_eq!(c.get_register(15), 1);
}

#[test]
fn add_register_clears_stale_carry() {
    // A carry sets the flag; a second add without carry writes it back to 0.
    let c = run_program(
        &[0x60, 0xFF, 0x61, 0x01, 0x80, 0x14, 0x62, 0x03, 0x82, 0x14],
        5,
        0,
    );
    assert_eq!(c.get_register(2), 0x04);
    assert_eq!(c.get_register(15), 0);
}

#[test]
fn subtract_register_wraps_and_clears_flag() {
    // V0 = 0x01, V1 = 0x02; V0 -= V1 wraps to 0xFF, flag 0 since V0 was not greater.
    let c = run_program(&[0x60, 0x01, 0x61, 0x02, 0x80, 0x15], 3, 0);
    assert_eq!(c.get_register(0), 0xFF);
    assert_eq!(c.get_register(15), 0);
}

#[test]
fn subtract_register_no_borrow_sets_flag() {
    let c = run_program(&[0x60, 0x05, 0x61, 0x02, 0x80, 0x15], 3, 0);
    assert_eq!(c.get_register(0), 0x03);
    assert_eq!(c.get_register(15), 1);
}

#[test]
fn subtract_left_register_both_directions() {
    // V0 = V1 - V0: 5 - 2 = 3, flag 1 since V1 > V0.
    let c = run_program(&[0x60, 0x02, 0x61, 0x05, 0x80, 0x17], 3, 0);
    assert_eq!(c.get_register(0), 3);
    assert_eq!(c.get_register(15), 1);
    // 2 - 5 wraps to 253, flag 0.
    let c = run_program(&[0x60, 0x05, 0x61, 0x02, 0x80, 0x17], 3, 0);
    assert_eq!(c.get_register(0), 253);
    assert_eq!(c.get_register(15), 0);
}

#[test]
fn shifts_record_the_dropped_bit() {
    // 0x05 >> 1 = 2 with low bit 1 in the flag.
    let c = run_program(&[0x60, 0x05, 0x80, 0x06], 2, 0);
    assert_eq!(c.get_register(0), 2);
    assert_eq!(c.get_register(15), 1);
    // 0x04 >> 1 = 2 with flag 0.
    let c = run_program(&[0x60, 0x04, 0x80, 0x06], 2, 0);
    assert_eq!(c.get_register(0), 2);
    assert_eq!(c.get_register(15), 0);
    // 0x81 << 1 wraps to 0x02 with high bit 1 in the flag.
    let c = run_program(&[0x60, 0x81, 0x80, 0x0E], 2, 0);
    assert_eq!(c.get_register(0), 0x02);
    assert_eq!(c.get_register(15), 1);
    // 0x41 << 1 = 0x82 with flag 0.
    let c = run_program(&[0x60, 0x41, 0x80, 0x0E], 2, 0);
    assert_eq!(c.get_register(0), 0x82);
    assert_eq!(c.get_register(15), 0);
}

#[test]
fn bitwise_ops_combine_registers() {
    let c = run_program(&[0x60, 0x0C, 0x61, 0x0A, 0x80, 0x11], 3, 0);
    assert_eq!(c.get_register(0), 0x0E);
    let c = run_program(&[0x60, 0x0C, 0x61, 0x0A, 0x80, 0x12], 3, 0);
    assert_eq!(c.get_register(0), 0x08);
    let c = run_program(&[0x60, 0x0C, 0x61, 0x0A, 0x80, 0x13], 3, 0);
    assert_eq!(c.get_register(0), 0x06);
    let c = run_program(&[0x60, 0x0C, 0x61, 0x0A, 0x80, 0x10], 3, 0);
    assert_eq!(c.get_register(0), 0x0A);
}

#[test]
fn skip_instructions_advance_one_extra_width() {
    // 3xkk skips when equal: V0 = 7, skip the load of 0xAA, then V1 = 0xBB.
    let c = run_program(&[0x60, 0x07, 0x30, 0x07, 0x60, 0xAA, 0x61, 0xBB], 3, 0);
    assert_eq!(c.get_register(0), 0x07);
    assert_eq!(c.get_register(1), 0xBB);
    // 4xkk does not skip when equal.
    let c = run_program(&[0x60, 0x07, 0x40, 0x07, 0x60, 0xAA], 3, 0);
    assert_eq!(c.get_register(0), 0xAA);
    // 5xy0 skips when the registers are equal.
    let c = run_program(&[0x60, 0x07, 0x61, 0x07, 0x50, 0x10, 0x60, 0xAA, 0x62, 0xCC], 4, 0);
    assert_eq!(c.get_register(0), 0x07);
    assert_eq!(c.get_register(2), 0xCC);
    // 9xy0 skips when they differ.
    let c = run_program(&[0x60, 0x07, 0x61, 0x08, 0x90, 0x10, 0x60, 0xAA, 0x62, 0xCC], 4, 0);
    assert_eq!(c.get_register(0), 0x07);
    assert_eq!(c.get_register(2), 0xCC);
}

#[test]
fn jump_and_call_move_the_program_counter() {
    // 1nnn jumps.
    let c = run_program(&[0x12, 0x06], 1, 0);
    assert_eq!(c.get_pc(), 0x206);
    // Bnnn jumps to V0 + nnn.
    let c = run_program(&[0x60, 0x04, 0xB2, 0x02], 2, 0);
    assert_eq!(c.get_pc(), 0x206);
    // 2nnn calls, 00EE returns to just after the call.
    let c = run_program(&[0x22, 0x06, 0x00, 0x00, 0x00, 0x00, 0x00, 0xEE], 2, 0);
    assert_eq!(c.get_pc(), 0x202);
}

#[test]
fn call_past_the_stack_limit_overflows() {
    let mut c = Chip8::new();
    c.set_stack_limit(1);
    // A call at 0x200 and a nested call at 0x204.
    c.load_program(&[0x22, 0x04, 0x00, 0x00, 0x22, 0x08]).unwrap();
    assert_eq!(c.tick(0), Ok(StepOutcome::Completed));
    assert_eq!(c.get_pc(), 0x204);
    assert_eq!(c.tick(0), Err(Chip8Error::StackOverflow));
    assert_eq!(c.get_pc(), 0x204);
}

#[test]
fn fresh_machine_has_no_practical_stack_bound() {
    // Forty nested calls walk down without faulting.
    let mut c = Chip8::new();
    let mut program = Vec::new();
    for k in 0..40u16 {
        let target = 0x204 + 4 * k;
        program.push(0x20 | (target >> 8) as u8);
        program.push((target & 0xFF) as u8);
        program.push(0x00);
        program.push(0x00);
    }
    c.load_program(&program).unwrap();
    for _ in 0..40 {
        assert_eq!(c.tick(0), Ok(StepOutcome::Completed));
    }
}

#[test]
fn return_on_empty_stack_underflows_without_pc_mutation() {
    let mut c = Chip8::new();
    c.load_program(&[0x00, 0xEE]).unwrap();
    assert_eq!(c.tick(0), Err(Chip8Error::StackUnderflow));
    assert_eq!(c.get_pc(), 0x200);
}

#[test]
fn illegal_word_is_a_decode_fault() {
    let mut c = Chip8::new();
    c.load_program(&[0xFF, 0xFF]).unwrap();
    assert_eq!(c.tick(0), Err(Chip8Error::InvalidInstruction(0xFFFF)));
    assert_eq!(c.get_pc(), 0x200);
}

#[test]
fn memory_access_past_the_end_is_a_fault() {
    // I = 0xFFF, then a BCD store needs bytes 0xFFF..0x1002.
    let mut c = Chip8::new();
    c.load_program(&[0xAF, 0xFF, 0xF0, 0x33]).unwrap();
    c.tick(0).unwrap();
    assert_eq!(c.tick(0), Err(Chip8Error::AddressOutOfRange));
    assert_eq!(c.get_pc(), 0x202);
}

#[test]
fn store_then_load_round_trips_the_register_file() {
    let program = [
        0x60, 0x05, // V0 = 5
        0x61, 0x06, // V1 = 6
        0x62, 0x07, // V2 = 7
        0xA3, 0x00, // I = 0x300
        0xF2, 0x55, // store V0..=V2
        0xF2, 0x65, // load V0..=V2
    ];
    let c = run_program(&program, 6, 0);
    assert_eq!(c.get_register(0), 5);
    assert_eq!(c.get_register(1), 6);
    assert_eq!(c.get_register(2), 7);
    assert_eq!(c.get_memory(0x300), 5);
    assert_eq!(c.get_memory(0x301), 6);
    assert_eq!(c.get_memory(0x302), 7);
    assert_eq!(c.get_i_addr(), 0x300);
}

#[test]
fn bcd_store_writes_three_digits() {
    let c = run_program(&[0x60, 0xFE, 0xA3, 0x00, 0xF0, 0x33], 3, 0);
    assert_eq!(c.get_memory(0x300), 2);
    assert_eq!(c.get_memory(0x301), 5);
    assert_eq!(c.get_memory(0x302), 4);
}

#[test]
fn timers_floor_at_zero() {
    // delay = 5, then seven timer ticks: 5, 4, 3, 2, 1, 0, 0, 0.
    let mut c = run_program(&[0x60, 0x05, 0xF0, 0x15], 2, 0);
    assert_eq!(c.get_delay_timer(), 5);
    for _ in 0..5 {
        c.tick_timers();
    }
    assert_eq!(c.get_delay_timer(), 0);
    c.tick_timers();
    c.tick_timers();
    assert_eq!(c.get_delay_timer(), 0);
}

#[test]
fn instruction_steps_do_not_touch_the_timers() {
    // The timers tick on their own cadence, not once per executed instruction.
    let mut c = run_program(&[0x60, 0x05, 0xF0, 0x15, 0x00, 0x00, 0x00, 0x00], 2, 0);
    assert_eq!(c.get_delay_timer(), 5);
    c.tick(0).unwrap();
    c.tick(0).unwrap();
    assert_eq!(c.get_delay_timer(), 5);
}

#[test]
fn delay_timer_reads_back() {
    // delay = 7, one timer tick brings it to 6, then V1 reads it.
    let mut c = Chip8::new();
    c.load_program(&[0x60, 0x07, 0xF0, 0x15, 0xF1, 0x07]).unwrap();
    c.tick(0).unwrap();
    c.tick(0).unwrap();
    c.tick_timers();
    c.tick(0).unwrap();
    assert_eq!(c.get_register(1), 6);
}

#[test]
fn sound_timer_drives_sound_active() {
    let mut c = run_program(&[0x60, 0x02, 0xF0, 0x18], 2, 0);
    assert!(c.sound_active());
    c.tick_timers();
    assert!(c.sound_active());
    c.tick_timers();
    assert!(!c.sound_active());
}

#[test]
fn random_masked_with_zero_is_zero() {
    let c = run_program(&[0xC0, 0x00], 1, 0);
    assert_eq!(c.get_register(0), 0);
}

#[test]
fn random_stays_inside_its_mask() {
    let c = run_program(&[0xC5, 0x0F], 1, 0);
    assert_eq!(c.get_register(5) & 0xF0, 0);
}

#[test]
fn index_register_instructions() {
    // Annn sets I.
    let c = run_program(&[0xA2, 0xEA], 1, 0);
    assert_eq!(c.get_i_addr(), 0x2EA);
    // Fx1E adds V0 to I.
    let c = run_program(&[0x60, 0x05, 0xA1, 0x00, 0xF0, 0x1E], 3, 0);
    assert_eq!(c.get_i_addr(), 0x105);
    // Fx29 points I at the five-byte glyph for digit V0.
    let c = run_program(&[0x60, 0x02, 0xF0, 0x29], 2, 0);
    assert_eq!(c.get_i_addr(), 10);
    assert_eq!(c.get_memory(10), 0xF0);
}

#[test]
fn skip_if_pressed_reads_the_key_mask() {
    let program = [0x65, 0x04, 0xE5, 0x9E, 0x60, 0xAA, 0x61, 0xBB];
    // Key 4 held: the load of 0xAA is skipped.
    let c = run_program(&program, 3, 1 << 4);
    assert_eq!(c.get_register(0), 0x00);
    assert_eq!(c.get_register(1), 0xBB);
    // No key held: the load of 0xAA runs.
    let c = run_program(&program, 3, 0);
    assert_eq!(c.get_register(0), 0xAA);
}

#[test]
fn skip_if_not_pressed_reads_the_key_mask() {
    let program = [0x65, 0x04, 0xE5, 0xA1, 0x60, 0xAA, 0x61, 0xBB];
    // No key held: the load of 0xAA is skipped.
    let c = run_program(&program, 3, 0);
    assert_eq!(c.get_register(0), 0x00);
    assert_eq!(c.get_register(1), 0xBB);
    // Key 4 held: the load of 0xAA runs.
    let c = run_program(&program, 3, 1 << 4);
    assert_eq!(c.get_register(0), 0xAA);
}

#[test]
fn wait_for_press_blocks_until_a_key_arrives() {
    let mut c = Chip8::new();
    c.load_program(&[0xF2, 0x0A]).unwrap();
    // No key held: the machine reports it is waiting and does not move.
    assert_eq!(c.tick(0), Ok(StepOutcome::WaitingForKey));
    assert_eq!(c.get_pc(), 0x200);
    assert_eq!(c.tick(0), Ok(StepOutcome::WaitingForKey));
    assert_eq!(c.get_pc(), 0x200);
    // Keys 3 and 9 held: the lowest one lands in V2 and the step completes.
    assert_eq!(c.tick((1 << 9) | (1 << 3)), Ok(StepOutcome::Completed));
    assert_eq!(c.get_register(2), 3);
    assert_eq!(c.get_pc(), 0x202);
}

#[test]
fn load_rejects_an_oversized_program() {
    let mut c = Chip8::new();
    let too_big = vec![0u8; 4096 - 0x200 + 1];
    assert_eq!(c.load_program(&too_big), Err(Chip8Error::ProgramTooLarge));
    // The largest image that fits is accepted.
    let just_fits = vec![0u8; 4096 - 0x200];
    assert_eq!(c.load_program(&just_fits), Ok(()));
}

#[test]
fn load_places_the_program_at_0x200() {
    let mut c = Chip8::new();
    c.load_program(&[0xAB, 0xCD]).unwrap();
    assert_eq!(c.get_memory(0x200), 0xAB);
    assert_eq!(c.get_memory(0x201), 0xCD);
    // The font region is untouched.
    assert_eq!(c.get_memory(0), 0xF0);
    assert_eq!(c.get_memory(79), 0x80);
}

#[test]
fn fresh_machine_state() {
    let c = Chip8::default();
    assert_eq!(c.get_pc(), 0x200);
    assert_eq!(c.get_i_addr(), 0);
    assert_eq!(c.get_delay_timer(), 0);
    assert!(!c.sound_active());
    for x in 0..16 {
        assert_eq!(c.get_register(x), 0);
    }
    assert_eq!(c.get_memory(0x200), 0);
}
