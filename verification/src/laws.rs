//! Properties of the instruction semantics, stated over the model and proved
//! once for every machine state and every operand.

use vstd::prelude::*;
use crate::{Fault, StepOutcome};
use crate::model::{
    blank_screen, draw_collision, draw_screen, instr_spec, lemma_covers_same_sprite,
    lemma_hit_same, sprite_covers, Instr, MemoryView,
};

verus! {

/// Register addition wraps modulo 256 and never faults, whatever the two
/// operand registers hold; the flag register records the carry.
pub proof fn lemma_add_wraps(pre: MemoryView, x: usize, y: usize, rb: u8)
    requires
        pre.wf(),
        x < 16,
        y < 16,
    ensures
        instr_spec(pre, Instr::AddReg(x, y), rb).1 == Ok::<StepOutcome, Fault>(
            StepOutcome::Executed,
        ),
        x != 15 ==> instr_spec(pre, Instr::AddReg(x, y), rb).0.registers[x as int] == (
        pre.registers[x as int] + pre.registers[y as int]) % 256,
        instr_spec(pre, Instr::AddReg(x, y), rb).0.registers[15] == (if pre.registers[x as int]
            + pre.registers[y as int] >= 256 {
            1u8
        } else {
            0u8
        }),
{
}

/// Register subtraction sets the flag register to 1 exactly when no borrow
/// occurs, that is when VX >= VY, and to 0 otherwise; this holds for every
/// pair of 8-bit operands.
pub proof fn lemma_sub_flag(pre: MemoryView, x: usize, y: usize, rb: u8)
    requires
        pre.wf(),
        x < 16,
        y < 16,
    ensures
        instr_spec(pre, Instr::SubReg(x, y), rb).1 == Ok::<StepOutcome, Fault>(
            StepOutcome::Executed,
        ),
        instr_spec(pre, Instr::SubReg(x, y), rb).0.registers[15] == (if pre.registers[x as int]
            >= pre.registers[y as int] {
            1u8
        } else {
            0u8
        }),
{
}

/// Reversed subtraction sets the flag register to 1 exactly when no borrow
/// occurs, that is when VY >= VX, and to 0 otherwise.
pub proof fn lemma_subn_flag(pre: MemoryView, x: usize, y: usize, rb: u8)
    requires
        pre.wf(),
        x < 16,
        y < 16,
    ensures
        instr_spec(pre, Instr::SubnReg(x, y), rb).1 == Ok::<StepOutcome, Fault>(
            StepOutcome::Executed,
        ),
        instr_spec(pre, Instr::SubnReg(x, y), rb).0.registers[15] == (if pre.registers[y as int]
            >= pre.registers[x as int] {
            1u8
        } else {
            0u8
        }),
{
}

/// Each shift sets the flag register to the bit shifted out, read from the
/// source register before the shift: the right shift leaves VY's low bit,
/// the left shift its high bit, each as 0 or 1.
pub proof fn lemma_shift_flags(pre: MemoryView, x: usize, y: usize, rb: u8)
    requires
        pre.wf(),
        x < 16,
        y < 16,
        x != 15,
    ensures
        instr_spec(pre, Instr::ShrReg(x, y), rb).0.registers[15] == pre.registers[y as int] % 2,
        instr_spec(pre, Instr::ShlReg(x, y), rb).0.registers[15] == pre.registers[y as int] / 128,
{
}

/// A right shift into VX from VY followed by a left shift back (source and
/// destination alternated) reproduces VY's bit pattern with its lowest bit
/// cleared; each shift leaves the bit shifted out in the flag register, read
/// from the source before the shift: the right shift leaves VY's low bit, and
/// the left shift leaves the (always clear) high bit of the halved value.
/// For example, from VY = 0x81 the right shift gives VX = 0x40 and flag 1.
pub proof fn lemma_shr_shl_round_trip(pre: MemoryView, x: usize, y: usize, rb1: u8, rb2: u8)
    requires
        pre.wf(),
        x < 16,
        y < 16,
        x != y,
        x != 15,
        y != 15,
    ensures
        ({
            let (mid, r1) = instr_spec(pre, Instr::ShrReg(x, y), rb1);
            let (post, r2) = instr_spec(mid, Instr::ShlReg(y, x), rb2);
            let v = pre.registers[y as int];
            &&& r1 == Ok::<StepOutcome, Fault>(StepOutcome::Executed)
            &&& r2 == Ok::<StepOutcome, Fault>(StepOutcome::Executed)
            &&& mid.registers[x as int] == v / 2
            &&& mid.registers[15] == v % 2
            &&& post.registers[y as int] == v - v % 2
            &&& post.registers[15] == 0
        }),
{
    let v = pre.registers[y as int];
    assert(2 * (v / 2) == v - v % 2);
    assert((2 * (v / 2)) % 256 == v - v % 2);
}

/// Drawing one sprite twice at the same position restores the display
/// exactly (XOR is self-inverse), and the second draw reports a collision
/// exactly when the first draw lit some cell.
pub proof fn lemma_draw_twice_restores(v: MemoryView, x0: int, y0: int, n: int)
    requires
        v.wf(),
        0 <= x0 < 64,
        0 <= y0 < 32,
        0 <= n <= 15,
    ensures
        ({
            let once = MemoryView { screen: draw_screen(v, x0, y0, n), ..v };
            &&& draw_screen(once, x0, y0, n) == v.screen
            &&& draw_collision(once, x0, y0, n) == (exists|idx: int|
                0 <= idx < 2048 && !v.screen[idx] && #[trigger] sprite_covers(v, x0, y0, n, idx))
        }),
{
    let once = MemoryView { screen: draw_screen(v, x0, y0, n), ..v };
    lemma_covers_same_sprite(once, v, x0, y0, n, 0);
    assert(draw_screen(once, x0, y0, n) =~= v.screen);
    if draw_collision(once, x0, y0, n) {
        let idx = choose|idx: int|
            0 <= idx < 2048 && once.screen[idx] && #[trigger] crate::model::covers_before(
                once,
                x0,
                y0,
                n,
                0,
                idx,
            );
        assert(!v.screen[idx] && sprite_covers(v, x0, y0, n, idx));
    }
    if exists|idx: int|
        0 <= idx < 2048 && !v.screen[idx] && #[trigger] sprite_covers(v, x0, y0, n, idx) {
        let idx = choose|idx: int|
            0 <= idx < 2048 && !v.screen[idx] && #[trigger] sprite_covers(v, x0, y0, n, idx);
        assert(once.screen[idx] && crate::model::covers_before(once, x0, y0, n, 0, idx));
        assert(draw_collision(once, x0, y0, n));
    }
}

/// Clearing the display and then drawing is the same as drawing on a blank
/// display: the screen, the collision flag and the outcome all agree with a
/// draw run from the same state with a blank screen.
pub proof fn lemma_clear_then_draw(pre: MemoryView, x: usize, y: usize, n: u16, rb1: u8, rb2: u8)
    requires
        pre.wf(),
        x < 16,
        y < 16,
        n < 16,
    ensures
        ({
            let (mid, r1) = instr_spec(pre, Instr::Clear, rb1);
            let (post, r2) = instr_spec(mid, Instr::Draw(x, y, n), rb2);
            let blankpre = MemoryView { screen: blank_screen(), ..pre };
            let (alt, r3) = instr_spec(blankpre, Instr::Draw(x, y, n), rb2);
            &&& r1 == Ok::<StepOutcome, Fault>(StepOutcome::Executed)
            &&& r2 == r3
            &&& post.screen == alt.screen
            &&& post.registers == alt.registers
        }),
{
    let mid = instr_spec(pre, Instr::Clear, rb1).0;
    let blankpre = MemoryView { screen: blank_screen(), ..pre };
    let x0 = pre.registers[x as int] % 64;
    let y0 = pre.registers[y as int] % 32;
    lemma_covers_same_sprite(mid, blankpre, x0 as int, y0 as int, n as int, 0);
    lemma_hit_same(mid, blankpre, x0 as int, y0 as int, n as int, 0);
    if !(n > 0 && pre.i_reg + n > 4096) {
        assert(draw_screen(mid, x0 as int, y0 as int, n as int) =~= draw_screen(
            blankpre,
            x0 as int,
            y0 as int,
            n as int,
        ));
    }
}

/// Storing V0..=VX at I and immediately loading V0..=VX from the same I is a
/// round trip: every register is unchanged, and neither step faults.
pub proof fn lemma_store_load_round_trip(pre: MemoryView, x: usize, rb1: u8, rb2: u8)
    requires
        pre.wf(),
        x < 16,
        pre.i_reg + x <= 4095,
    ensures
        ({
            let (mid, r1) = instr_spec(pre, Instr::StoreRegs(x), rb1);
            let (post, r2) = instr_spec(mid, Instr::LoadRegs(x), rb2);
            &&& r1 == Ok::<StepOutcome, Fault>(StepOutcome::Executed)
            &&& r2 == Ok::<StepOutcome, Fault>(StepOutcome::Executed)
            &&& post.registers == pre.registers
        }),
{
    let mid = instr_spec(pre, Instr::StoreRegs(x), rb1).0;
    let post = instr_spec(mid, Instr::LoadRegs(x), rb2).0;
    assert(post.registers =~= pre.registers);
}

} // verus!
