use chip8::machine::Memory;
use chip8::StepOutcome;

fn boot(program: &[u8]) -> Memory {
    let mut m = Memory::new();
    m.load_program(&program.to_vec()).expect("program fits");
    m
}

fn step_ok(m: &mut Memory) {
    assert_eq!(m.step(), Ok(StepOutcome::Executed));
}

/// The five rows of the font glyph for digit 0.
const GLYPH_ZERO: [u8; 5] = [0xF0, 0x90, 0x90, 0x90, 0xF0];

fn cell(m: &Memory, x: usize, y: usize) -> bool {
    m.display()[x + 64 * y]
}

#[test]
fn draw_font_zero_at_origin() {
    // I = 0x000 (glyph '0' lives at the base of the font table),
    // then draw its 5 rows at (V0, V0) = (0, 0).
    let mut m = boot(&[0xA0, 0x00, 0xD0, 0x05]);
    step_ok(&mut m);
    step_ok(&mut m);
    assert_eq!(m.register(15), 0, "a blank display yields no collision");
    for y in 0..32 {
        for x in 0..64 {
            let expected = y < 5 && x < 8 && (GLYPH_ZERO[y] >> (7 - x)) & 1 == 1;
            assert_eq!(cell(&m, x, y), expected, "cell ({}, {})", x, y);
        }
    }
}

#[test]
fn double_draw_restores_display_and_collides() {
    let mut m = boot(&[0xA0, 0x00, 0xD0, 0x05, 0xD0, 0x05]);
    step_ok(&mut m);
    step_ok(&mut m);
    assert!(m.display().iter().any(|&c| c));
    step_ok(&mut m);
    assert_eq!(m.register(15), 1, "the second draw un-lights lit cells");
    assert!(
        m.display().iter().all(|&c| !c),
        "XOR compositing is self-inverse"
    );
}

#[test]
fn clear_then_draw_equals_draw_on_blank() {
    // One machine litters the display, clears it, then draws glyph 0.
    let mut dirty = boot(&[
        0xA0, 0x05, // I = glyph 1
        0x60, 0x0A, // V0 = 10
        0xD0, 0x03, // litter: 3 rows at (10, 10)
        0x60, 0x00, // V0 = 0
        0x00, 0xE0, // clear
        0xA0, 0x00, // I = glyph 0
        0xD0, 0x05, // draw at (0, 0)
    ]);
    for _ in 0..7 {
        step_ok(&mut dirty);
    }
    // The other draws the same glyph on a fresh, blank display.
    let mut fresh = boot(&[0xA0, 0x00, 0xD0, 0x05]);
    step_ok(&mut fresh);
    step_ok(&mut fresh);
    assert_eq!(dirty.display(), fresh.display());
    assert_eq!(dirty.register(15), fresh.register(15));
}

#[test]
fn sprite_wraps_per_line() {
    // Draw glyph 0 anchored at (63, 30): columns wrap past 63 to 0,
    // rows wrap past 31 to 0.
    let mut m = boot(&[
        0x60, 0x3F, // V0 = 63
        0x61, 0x1E, // V1 = 30
        0xA0, 0x00, // I = glyph 0
        0xD0, 0x15, // draw at (V0, V1)
    ]);
    for _ in 0..4 {
        step_ok(&mut m);
    }
    for a in 0..5 {
        for b in 0..8 {
            let x = (63 + b) % 64;
            let y = (30 + a) % 32;
            let expected = (GLYPH_ZERO[a] >> (7 - b)) & 1 == 1;
            assert_eq!(cell(&m, x, y), expected, "cell ({}, {})", x, y);
        }
    }
}

#[test]
fn clear_then_tight_loop_never_crashes() {
    // Clear, then jump-to-self: the machine spins forever without fault.
    let mut m = boot(&[0x00, 0xE0, 0x12, 0x02]);
    step_ok(&mut m);
    assert!(m.display().iter().all(|&c| !c));
    assert_eq!(m.pc(), 0x202);
    for _ in 0..25 {
        step_ok(&mut m);
        assert_eq!(m.pc(), 0x202);
    }
}

#[test]
fn load_add_then_read_idle_timer() {
    // V0 = 5; V0 += 3; V1 = delay timer (never set, so still 0).
    let mut m = boot(&[0x60, 0x05, 0x70, 0x03, 0xF1, 0x07]);
    step_ok(&mut m);
    step_ok(&mut m);
    assert_eq!(m.register(0), 8);
    step_ok(&mut m);
    assert_eq!(m.register(0), 8);
    assert_eq!(m.register(1), 0);
    assert_eq!(m.delay_timer(), 0);
}
