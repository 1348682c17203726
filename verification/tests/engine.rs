use chip8::machine::Memory;
use chip8::{Fault, LoadError, StepOutcome};

/// A machine with `program` loaded at 0x200.
fn boot(program: &[u8]) -> Memory {
    let mut m = Memory::new();
    m.load_program(&program.to_vec()).expect("program fits");
    m
}

fn step_ok(m: &mut Memory) {
    assert_eq!(m.step(), Ok(StepOutcome::Executed));
}

#[test]
fn add_wraps_with_carry() {
    // V0 = 200, V1 = 100, V0 += V1: 300 mod 256 = 44, carry flag set.
    let mut m = boot(&[0x60, 0xC8, 0x61, 0x64, 0x80, 0x14]);
    step_ok(&mut m);
    step_ok(&mut m);
    step_ok(&mut m);
    assert_eq!(m.register(0), 44);
    assert_eq!(m.register(15), 1);
}

#[test]
fn add_zero_no_carry() {
    let mut m = boot(&[0x80, 0x14]);
    step_ok(&mut m);
    assert_eq!(m.register(0), 0);
    assert_eq!(m.register(15), 0);
}

#[test]
fn add_imm_sets_no_flag() {
    // V0 = 250, V0 += 16: wraps to 10, VF untouched.
    let mut m = boot(&[0x60, 0xFA, 0x70, 0x10]);
    step_ok(&mut m);
    step_ok(&mut m);
    assert_eq!(m.register(0), 10);
    assert_eq!(m.register(15), 0);
}

#[test]
fn sub_flag_no_borrow_cases() {
    // 0 - 0: no borrow, flag 1.
    let mut m = boot(&[0x80, 0x15]);
    step_ok(&mut m);
    assert_eq!(m.register(0), 0);
    assert_eq!(m.register(15), 1);
    // 255 - 0: no borrow, flag 1.
    let mut m = boot(&[0x60, 0xFF, 0x80, 0x15]);
    step_ok(&mut m);
    step_ok(&mut m);
    assert_eq!(m.register(0), 255);
    assert_eq!(m.register(15), 1);
    // 0 - 255: borrow, flag 0, wrapped result 1.
    let mut m = boot(&[0x61, 0xFF, 0x80, 0x15]);
    step_ok(&mut m);
    step_ok(&mut m);
    assert_eq!(m.register(0), 1);
    assert_eq!(m.register(15), 0);
}

#[test]
fn subn_flag_cases() {
    // V0 = 3, V1 = 10: V0 = V1 - V0 = 7, no borrow, flag 1.
    let mut m = boot(&[0x60, 0x03, 0x61, 0x0A, 0x80, 0x17]);
    step_ok(&mut m);
    step_ok(&mut m);
    step_ok(&mut m);
    assert_eq!(m.register(0), 7);
    assert_eq!(m.register(15), 1);
    // V0 = 10, V1 = 3: V0 = V1 - V0 wraps to 249, borrow, flag 0.
    let mut m = boot(&[0x60, 0x0A, 0x61, 0x03, 0x80, 0x17]);
    step_ok(&mut m);
    step_ok(&mut m);
    step_ok(&mut m);
    assert_eq!(m.register(0), 249);
    assert_eq!(m.register(15), 0);
}

#[test]
fn shr_then_shl_round_trip() {
    // V0 = 0b1000_0001; V1 = V0 >> 1 (flag = old low bit = 1);
    // then V0 = V1 << 1 (flag = high bit of V1 = 0).
    let mut m = boot(&[0x60, 0x81, 0x81, 0x06, 0x80, 0x1E]);
    step_ok(&mut m);
    step_ok(&mut m);
    assert_eq!(m.register(1), 0x40);
    assert_eq!(m.register(15), 1);
    step_ok(&mut m);
    assert_eq!(m.register(0), 0x80);
    assert_eq!(m.register(15), 0);
}

#[test]
fn shl_flag_is_pre_shift_high_bit() {
    // V1 = 0xC0: V0 = V1 << 1 = 0x80, flag = high bit of the source = 1.
    let mut m = boot(&[0x61, 0xC0, 0x80, 0x1E]);
    step_ok(&mut m);
    step_ok(&mut m);
    assert_eq!(m.register(0), 0x80);
    assert_eq!(m.register(15), 1);
    // V1 = 0x40: the high bit is clear, so the flag is 0.
    let mut m = boot(&[0x61, 0x40, 0x80, 0x1E]);
    step_ok(&mut m);
    step_ok(&mut m);
    assert_eq!(m.register(0), 0x80);
    assert_eq!(m.register(15), 0);
}

#[test]
fn move_or_and_xor() {
    let mut m = boot(&[
        0x60, 0x0F, // V0 = 0x0F
        0x61, 0x33, // V1 = 0x33
        0x82, 0x00, // V2 = V0
        0x82, 0x11, // V2 |= V1 -> 0x3F
        0x82, 0x02, // V2 &= V0 -> 0x0F
        0x82, 0x13, // V2 ^= V1 -> 0x3C
    ]);
    for _ in 0..6 {
        step_ok(&mut m);
    }
    assert_eq!(m.register(2), 0x3C);
}

#[test]
fn skip_instructions() {
    // V0 = 5; skip-eq-imm 5 taken: lands on V1 = 1; then skip-neq-imm 9
    // taken over the V1 = 2 word; then V2 = V1.
    let mut m = boot(&[
        0x60, 0x05, // 0x200: V0 = 5
        0x30, 0x05, // 0x202: skip if V0 == 5 (taken)
        0x61, 0xFF, // 0x204: skipped
        0x40, 0x09, // 0x206: skip if V0 != 9 (taken)
        0x61, 0xFF, // 0x208: skipped
        0x61, 0x01, // 0x20A: V1 = 1
        0x50, 0x10, // 0x20C: skip if V0 == V1 (not taken)
        0x90, 0x10, // 0x20E: skip if V0 != V1 (taken)
        0x61, 0xFF, // 0x210: skipped
        0x82, 0x10, // 0x212: V2 = V1
    ]);
    for _ in 0..7 {
        step_ok(&mut m);
    }
    assert_eq!(m.register(2), 1);
    assert_eq!(m.register(1), 1);
}

#[test]
fn call_and_return() {
    // call 0x206; the routine there returns; execution resumes at 0x202.
    let mut m = boot(&[
        0x22, 0x06, // 0x200: call 0x206
        0x60, 0x07, // 0x202: V0 = 7 (after return)
        0x00, 0x00, // 0x204: padding
        0x61, 0x09, // 0x206: V1 = 9
        0x00, 0xEE, // 0x208: return
    ]);
    step_ok(&mut m);
    assert_eq!(m.pc(), 0x206);
    step_ok(&mut m);
    step_ok(&mut m);
    assert_eq!(m.pc(), 0x202);
    step_ok(&mut m);
    assert_eq!(m.register(0), 7);
    assert_eq!(m.register(1), 9);
}

#[test]
fn return_on_empty_stack_faults_in_place() {
    let mut m = boot(&[0x00, 0xEE]);
    assert_eq!(m.step(), Err(Fault::StackUnderflow));
    // The machine state was left untouched.
    assert_eq!(m.pc(), 0x200);
    assert_eq!(m.step(), Err(Fault::StackUnderflow));
}

#[test]
fn fetch_at_end_of_memory_faults() {
    // Jump to 4095: the next fetch cannot read two bytes.
    let mut m = boot(&[0x1F, 0xFF]);
    step_ok(&mut m);
    assert_eq!(m.pc(), 0xFFF);
    assert_eq!(m.step(), Err(Fault::OutOfBounds));
    assert_eq!(m.pc(), 0xFFF);
}

#[test]
fn draw_beyond_memory_faults() {
    // I = 0xFFF, then draw a 2-row sprite: the second row is out of memory.
    let mut m = boot(&[0xAF, 0xFF, 0xD0, 0x02]);
    step_ok(&mut m);
    assert_eq!(m.step(), Err(Fault::OutOfBounds));
}

#[test]
fn bcd_beyond_memory_faults() {
    // I = 0xFFE: the ones digit would land at 4096.
    let mut m = boot(&[0xAF, 0xFE, 0xF0, 0x33]);
    step_ok(&mut m);
    assert_eq!(m.step(), Err(Fault::OutOfBounds));
}

#[test]
fn store_registers_beyond_memory_faults() {
    // I = 0xFFF, store V0..=V1: V1 would land at 4096.
    let mut m = boot(&[0xAF, 0xFF, 0xF1, 0x55]);
    step_ok(&mut m);
    assert_eq!(m.step(), Err(Fault::OutOfBounds));
}

#[test]
fn key_index_out_of_range_faults() {
    // V0 = 255 names no key.
    let mut m = boot(&[0x60, 0xFF, 0xE0, 0x9E]);
    step_ok(&mut m);
    assert_eq!(m.step(), Err(Fault::OutOfBounds));
}

#[test]
fn unknown_word_is_reported_and_skipped() {
    let mut m = boot(&[0xF0, 0xFF, 0x60, 0x2A]);
    assert_eq!(m.step(), Ok(StepOutcome::Unimplemented(0xF0FF)));
    assert_eq!(m.pc(), 0x202);
    step_ok(&mut m);
    assert_eq!(m.register(0), 0x2A);
}

#[test]
fn unknown_five_class_word_is_skipped() {
    let mut m = boot(&[0x50, 0x11]);
    assert_eq!(m.step(), Ok(StepOutcome::Unimplemented(0x5011)));
    assert_eq!(m.pc(), 0x202);
}

#[test]
fn store_then_load_registers_round_trip() {
    // V0 = 5, V1 = 7; store V0..=V1 at 0x300; clobber V1; load V0..=V1 back.
    let mut m = boot(&[
        0x60, 0x05, // V0 = 5
        0x61, 0x07, // V1 = 7
        0xA3, 0x00, // I = 0x300
        0xF1, 0x55, // store V0..=V1
        0x61, 0x00, // V1 = 0
        0xF1, 0x65, // load V0..=V1
    ]);
    for _ in 0..6 {
        step_ok(&mut m);
    }
    assert_eq!(m.register(0), 5);
    assert_eq!(m.register(1), 7);
    assert_eq!(m.index_register(), 0x300);
}

#[test]
fn bcd_digits_land_in_memory() {
    // V0 = 234; store BCD at 0x300; read back through load-registers.
    let mut m = boot(&[
        0x60, 0xEA, // V0 = 234
        0xA3, 0x00, // I = 0x300
        0xF0, 0x33, // BCD of V0 at I..I+2
        0xF2, 0x65, // V0..=V2 loaded from I
    ]);
    for _ in 0..4 {
        step_ok(&mut m);
    }
    assert_eq!(m.register(0), 2);
    assert_eq!(m.register(1), 3);
    assert_eq!(m.register(2), 4);
}

#[test]
fn jump_offset_adds_v0() {
    let mut m = boot(&[0x60, 0x07, 0xB3, 0x00]);
    step_ok(&mut m);
    step_ok(&mut m);
    assert_eq!(m.pc(), 0x307);
}

#[test]
fn add_to_index() {
    let mut m = boot(&[0xAF, 0xFF, 0x60, 0xFF, 0xF0, 0x1E]);
    step_ok(&mut m);
    step_ok(&mut m);
    step_ok(&mut m);
    assert_eq!(m.index_register(), 0xFFF + 255);
}

#[test]
fn font_index_is_five_per_glyph() {
    let mut m = boot(&[0x61, 0x07, 0xF1, 0x29]);
    step_ok(&mut m);
    step_ok(&mut m);
    assert_eq!(m.index_register(), 35);
}

#[test]
fn timers_set_tick_and_stop_at_zero() {
    let mut m = boot(&[0x60, 0x03, 0xF0, 0x15, 0xF0, 0x18]);
    step_ok(&mut m);
    step_ok(&mut m);
    step_ok(&mut m);
    assert_eq!(m.delay_timer(), 3);
    assert_eq!(m.sound_timer(), 3);
    m.tick_timers();
    m.tick_timers();
    assert_eq!(m.delay_timer(), 1);
    m.tick_timers();
    m.tick_timers();
    assert_eq!(m.delay_timer(), 0);
    assert_eq!(m.sound_timer(), 0);
}

#[test]
fn skip_if_key_held() {
    let mut m = boot(&[
        0x60, 0x04, // V0 = 4
        0xE0, 0x9E, // skip if key 4 held (it is): to 0x206
        0x00, 0x00, // skipped
        0xE0, 0xA1, // skip if key 4 not held (it is held): no skip
        0x61, 0x01, // V1 = 1
    ]);
    m.set_key(4, true);
    step_ok(&mut m);
    step_ok(&mut m);
    assert_eq!(m.pc(), 0x206);
    step_ok(&mut m);
    assert_eq!(m.pc(), 0x208);
    step_ok(&mut m);
    assert_eq!(m.register(1), 1);
}

#[test]
fn wait_for_key_polls_then_takes_lowest() {
    let mut m = boot(&[0xF0, 0x0A]);
    // No key held: the program counter must not advance, step after step.
    step_ok(&mut m);
    assert_eq!(m.pc(), 0x200);
    step_ok(&mut m);
    assert_eq!(m.pc(), 0x200);
    // Two keys held: the lowest index wins.
    m.set_key(5, true);
    m.set_key(2, true);
    step_ok(&mut m);
    assert_eq!(m.register(0), 2);
    assert_eq!(m.pc(), 0x202);
}

#[test]
fn released_key_is_forgotten() {
    let mut m = boot(&[0xF0, 0x0A]);
    m.set_key(9, true);
    m.set_key(9, false);
    step_ok(&mut m);
    assert_eq!(m.pc(), 0x200);
}

#[test]
fn random_masked_by_zero_is_zero() {
    let mut m = boot(&[0x60, 0x55, 0xC0, 0x00]);
    step_ok(&mut m);
    step_ok(&mut m);
    assert_eq!(m.register(0), 0);
}

#[test]
fn random_stays_within_mask() {
    for _ in 0..20 {
        let mut m = boot(&[0xC0, 0x0F]);
        step_ok(&mut m);
        assert!(m.register(0) <= 0x0F);
    }
}

#[test]
fn load_too_large_program_fails_and_writes_nothing() {
    let mut m = Memory::new();
    let too_big = vec![0xAAu8; 3585];
    assert_eq!(m.load_program(&too_big), Err(LoadError::TooLarge));
    // Nothing was written: the word at 0x200 is still zero.
    assert_eq!(m.get_instruction(), 0x0000);
    // The largest admissible image loads fine.
    let just_fits = vec![0x00u8; 3584];
    assert_eq!(m.load_program(&just_fits), Ok(()));
}

#[test]
fn get_instruction_reads_big_endian() {
    let m = boot(&[0x12, 0x34]);
    assert_eq!(m.get_instruction(), 0x1234);
}

#[test]
fn fresh_machine_state() {
    let m = Memory::new();
    assert_eq!(m.pc(), 0x200);
    assert_eq!(m.index_register(), 0);
    assert_eq!(m.delay_timer(), 0);
    assert_eq!(m.sound_timer(), 0);
    for x in 0..16 {
        assert_eq!(m.register(x), 0);
    }
    assert!(m.display().iter().all(|&c| !c));
}
