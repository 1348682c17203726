//! The mathematical model of the machine: a ghost view of its state, the
//! decoded instruction set, and the state-transition function that every
//! executable step is proved against.

use vstd::prelude::*;
use crate::{Fault, StepOutcome};

verus! {

/// The machine state as mathematics: every field of the executable machine,
/// as a sequence or a plain integer.
#[verifier::ext_equal]
pub ghost struct MemoryView {
    /// The 4096-byte address space.
    pub ram: Seq<u8>,
    /// The sixteen 8-bit general-purpose registers V0..=VF.
    pub registers: Seq<u8>,
    /// The program counter.
    pub pc: u16,
    /// The index register I.
    pub i_reg: u16,
    /// Return addresses pushed by `call`, popped by `return`.
    pub stack: Seq<u16>,
    /// The 64x32 display, row-major: cell (x, y) is at index x + 64 * y.
    pub screen: Seq<bool>,
    /// The delay timer.
    pub dt: u8,
    /// The sound timer.
    pub st: u8,
    /// The sixteen "key is currently held" flags.
    pub buttons: Seq<bool>,
}

impl MemoryView {
    /// Well-formedness: fixed sizes, and every stacked return address admits
    /// a two-byte fetch (a pushed program counter always does).
    pub open spec fn wf(self) -> bool {
        &&& self.ram.len() == 4096
        &&& self.registers.len() == 16
        &&& self.screen.len() == 2048
        &&& self.buttons.len() == 16
        &&& forall|k: int| 0 <= k < self.stack.len() ==> self.stack[k] < 4095
    }
}

/// The two bytes at the program counter, big-endian.
pub open spec fn fetch_word(v: MemoryView) -> u16 {
    (v.ram[v.pc as int] * 256 + v.ram[v.pc as int + 1]) as u16
}

/// One machine instruction, decoded from a 16-bit word. Words that encode
/// nothing become `Unknown` and are skipped rather than halting the machine.
#[derive(Clone, Copy, PartialEq, Eq, Debug, Structural)]
pub enum Instr {
    /// 0000: no effect.
    Nop,
    /// 00E0: blank the display.
    Clear,
    /// 00EE: pop the call stack into the program counter.
    Ret,
    /// 1NNN: jump.
    Jump(u16),
    /// 2NNN: push the program counter, then jump.
    Call(u16),
    /// 3XNN: skip the next instruction if VX == NN.
    SkipEqImm(usize, u8),
    /// 4XNN: skip the next instruction if VX != NN.
    SkipNeImm(usize, u8),
    /// 5XY0: skip the next instruction if VX == VY.
    SkipEqReg(usize, usize),
    /// 6XNN: VX = NN.
    LoadImm(usize, u8),
    /// 7XNN: VX = (VX + NN) mod 256, no flag.
    AddImm(usize, u8),
    /// 8XY0: VX = VY.
    MoveReg(usize, usize),
    /// 8XY1: VX |= VY.
    OrReg(usize, usize),
    /// 8XY2: VX &= VY.
    AndReg(usize, usize),
    /// 8XY3: VX ^= VY.
    XorReg(usize, usize),
    /// 8XY4: VX = (VX + VY) mod 256, VF = carry.
    AddReg(usize, usize),
    /// 8XY5: VX = (VX - VY) mod 256, VF = 1 when no borrow.
    SubReg(usize, usize),
    /// 8XY6: VF = low bit of VY, VX = VY >> 1.
    ShrReg(usize, usize),
    /// 8XY7: VX = (VY - VX) mod 256, VF = 1 when no borrow.
    SubnReg(usize, usize),
    /// 8XYE: VF = high bit of VY, VX = (VY << 1) mod 256.
    ShlReg(usize, usize),
    /// 9XY0: skip the next instruction if VX != VY.
    SkipNeReg(usize, usize),
    /// ANNN: I = NNN.
    SetIndex(u16),
    /// BNNN: jump to NNN + V0.
    JumpOffset(u16),
    /// CXNN: VX = random byte AND NN.
    RandomMask(usize, u8),
    /// DXYN: XOR an N-byte sprite from I at (VX mod 64, VY mod 32); VF = collision.
    Draw(usize, usize, u16),
    /// EX9E: skip if the key numbered VX is held.
    SkipKey(usize),
    /// EXA1: skip if the key numbered VX is not held.
    SkipNoKey(usize),
    /// FX07: VX = delay timer.
    GetDelay(usize),
    /// FX0A: wait (without advancing) until a key is held; VX = lowest held key.
    WaitKey(usize),
    /// FX15: delay timer = VX.
    SetDelay(usize),
    /// FX18: sound timer = VX.
    SetSound(usize),
    /// FX1E: I = (I + VX) mod 65536.
    AddIndex(usize),
    /// FX29: I = VX * 5, the font glyph base address.
    FontIndex(usize),
    /// FX33: store the decimal digits of VX at I, I+1, I+2.
    StoreBcd(usize),
    /// FX55: copy V0..=VX into memory starting at I.
    StoreRegs(usize),
    /// FX65: load V0..=VX from memory starting at I.
    LoadRegs(usize),
    /// Any other word: reported and skipped.
    Unknown(u16),
}

/// Splits a word into nibbles and names the instruction it encodes.
pub open spec fn decode(w: u16) -> Instr {
    let a = w / 4096;
    let x = ((w / 256) % 16) as usize;
    let y = ((w / 16) % 16) as usize;
    let d = w % 16;
    let nnn = (w % 4096) as u16;
    let nn = (w % 256) as u8;
    if w == 0x0000 {
        Instr::Nop
    } else if w == 0x00E0 {
        Instr::Clear
    } else if w == 0x00EE {
        Instr::Ret
    } else if a == 0x1 {
        Instr::Jump(nnn)
    } else if a == 0x2 {
        Instr::Call(nnn)
    } else if a == 0x3 {
        Instr::SkipEqImm(x, nn)
    } else if a == 0x4 {
        Instr::SkipNeImm(x, nn)
    } else if a == 0x5 && d == 0x0 {
        Instr::SkipEqReg(x, y)
    } else if a == 0x6 {
        Instr::LoadImm(x, nn)
    } else if a == 0x7 {
        Instr::AddImm(x, nn)
    } else if a == 0x8 && d == 0x0 {
        Instr::MoveReg(x, y)
    } else if a == 0x8 && d == 0x1 {
        Instr::OrReg(x, y)
    } else if a == 0x8 && d == 0x2 {
        Instr::AndReg(x, y)
    } else if a == 0x8 && d == 0x3 {
        Instr::XorReg(x, y)
    } else if a == 0x8 && d == 0x4 {
        Instr::AddReg(x, y)
    } else if a == 0x8 && d == 0x5 {
        Instr::SubReg(x, y)
    } else if a == 0x8 && d == 0x6 {
        Instr::ShrReg(x, y)
    } else if a == 0x8 && d == 0x7 {
        Instr::SubnReg(x, y)
    } else if a == 0x8 && d == 0xE {
        Instr::ShlReg(x, y)
    } else if a == 0x9 && d == 0x0 {
        Instr::SkipNeReg(x, y)
    } else if a == 0xA {
        Instr::SetIndex(nnn)
    } else if a == 0xB {
        Instr::JumpOffset(nnn)
    } else if a == 0xC {
        Instr::RandomMask(x, nn)
    } else if a == 0xD {
        Instr::Draw(x, y, d as u16)
    } else if a == 0xE && w % 256 == 0x9E {
        Instr::SkipKey(x)
    } else if a == 0xE && w % 256 == 0xA1 {
        Instr::SkipNoKey(x)
    } else if a == 0xF && w % 256 == 0x07 {
        Instr::GetDelay(x)
    } else if a == 0xF && w % 256 == 0x0A {
        Instr::WaitKey(x)
    } else if a == 0xF && w % 256 == 0x15 {
        Instr::SetDelay(x)
    } else if a == 0xF && w % 256 == 0x18 {
        Instr::SetSound(x)
    } else if a == 0xF && w % 256 == 0x1E {
        Instr::AddIndex(x)
    } else if a == 0xF && w % 256 == 0x29 {
        Instr::FontIndex(x)
    } else if a == 0xF && w % 256 == 0x33 {
        Instr::StoreBcd(x)
    } else if a == 0xF && w % 256 == 0x55 {
        Instr::StoreRegs(x)
    } else if a == 0xF && w % 256 == 0x65 {
        Instr::LoadRegs(x)
    } else {
        Instr::Unknown(w)
    }
}

/// Every operand a decoder can produce is in range: register selectors are
/// nibbles, immediates are at most 12 bits, sprite heights at most 15.
pub open spec fn decode_ok(i: Instr) -> bool {
    match i {
        Instr::Nop | Instr::Clear | Instr::Ret | Instr::Unknown(_) => true,
        Instr::Jump(nnn) => nnn < 4096,
        Instr::Call(nnn) => nnn < 4096,
        Instr::JumpOffset(nnn) => nnn < 4096,
        Instr::SetIndex(nnn) => nnn < 4096,
        Instr::SkipEqImm(x, _) => x < 16,
        Instr::SkipNeImm(x, _) => x < 16,
        Instr::LoadImm(x, _) => x < 16,
        Instr::AddImm(x, _) => x < 16,
        Instr::RandomMask(x, _) => x < 16,
        Instr::SkipEqReg(x, y) => x < 16 && y < 16,
        Instr::SkipNeReg(x, y) => x < 16 && y < 16,
        Instr::MoveReg(x, y) => x < 16 && y < 16,
        Instr::OrReg(x, y) => x < 16 && y < 16,
        Instr::AndReg(x, y) => x < 16 && y < 16,
        Instr::XorReg(x, y) => x < 16 && y < 16,
        Instr::AddReg(x, y) => x < 16 && y < 16,
        Instr::SubReg(x, y) => x < 16 && y < 16,
        Instr::ShrReg(x, y) => x < 16 && y < 16,
        Instr::SubnReg(x, y) => x < 16 && y < 16,
        Instr::ShlReg(x, y) => x < 16 && y < 16,
        Instr::Draw(x, y, n) => x < 16 && y < 16 && n < 16,
        Instr::SkipKey(x) => x < 16,
        Instr::SkipNoKey(x) => x < 16,
        Instr::GetDelay(x) => x < 16,
        Instr::WaitKey(x) => x < 16,
        Instr::SetDelay(x) => x < 16,
        Instr::SetSound(x) => x < 16,
        Instr::AddIndex(x) => x < 16,
        Instr::FontIndex(x) => x < 16,
        Instr::StoreBcd(x) => x < 16,
        Instr::StoreRegs(x) => x < 16,
        Instr::LoadRegs(x) => x < 16,
    }
}

/// The default advance: past the two bytes of the current instruction.
pub open spec fn adv(v: MemoryView) -> MemoryView {
    MemoryView { pc: (v.pc + 2) as u16, ..v }
}

/// Conditional skip: over the next instruction, or just past this one.
pub open spec fn skip_if(v: MemoryView, c: bool) -> MemoryView {
    MemoryView { pc: if c { (v.pc + 4) as u16 } else { (v.pc + 2) as u16 }, ..v }
}

/// One register replaced.
pub open spec fn set_reg(v: MemoryView, x: int, val: u8) -> MemoryView {
    MemoryView { registers: v.registers.update(x, val), ..v }
}

/// An all-dark display.
pub open spec fn blank_screen() -> Seq<bool> {
    Seq::new(2048, |idx: int| false)
}

/// A countdown tick: down by one, stopping at zero.
pub open spec fn tick_down(t: u8) -> u8 {
    if t > 0 { (t - 1) as u8 } else { 0 }
}

/// The lowest held key at or above index `k`, or 16 when none is held.
pub open spec fn first_key_from(b: Seq<bool>, k: int) -> int
    decreases 16 - k,
{
    if k < 0 || k >= 16 {
        16
    } else if b[k] {
        k
    } else {
        first_key_from(b, k + 1)
    }
}

/// Memory after V0..=VX were copied to base..=base+x.
pub open spec fn store_regs_ram(ram: Seq<u8>, regs: Seq<u8>, base: int, x: int) -> Seq<u8> {
    Seq::new(4096, |a: int| if base <= a <= base + x { regs[a - base] } else { ram[a] })
}

/// Registers after V0..=VX were loaded from base..=base+x.
pub open spec fn load_regs_regs(regs: Seq<u8>, ram: Seq<u8>, base: int, x: int) -> Seq<u8> {
    Seq::new(16, |r: int| if r <= x { ram[base + r] } else { regs[r] })
}

/// Whether bit `b` (0 = leftmost) of a sprite byte is set.
pub open spec fn sprite_pixel(byte: u8, b: int) -> bool {
    byte & (0x80u8 >> (b as u8)) != 0
}

/// The display cell that sprite row `a`, bit `b` lands on when the sprite is
/// anchored at (x0, y0): coordinates wrap per line.
pub open spec fn cell_index(x0: int, y0: int, a: int, b: int) -> int {
    (x0 + b) % 64 + 64 * ((y0 + a) % 32)
}

/// Sprite row `a`, bit `b` is set and lands on cell `idx`.
pub open spec fn covers_at(v: MemoryView, x0: int, y0: int, a: int, b: int, idx: int) -> bool {
    &&& 0 <= b < 8
    &&& idx == cell_index(x0, y0, a, b)
    &&& sprite_pixel(v.ram[v.i_reg + a], b)
}

/// Some sprite bit strictly before row `i`, bit `j` (row-major order) lands
/// set on cell `idx`.
pub open spec fn covers_before(v: MemoryView, x0: int, y0: int, i: int, j: int, idx: int) -> bool {
    exists|a: int, b: int|
        0 <= a && (a < i || (a == i && b < j)) && #[trigger] covers_at(v, x0, y0, a, b, idx)
}

/// Some bit of the whole n-row sprite lands set on cell `idx`.
pub open spec fn sprite_covers(v: MemoryView, x0: int, y0: int, n: int, idx: int) -> bool {
    covers_before(v, x0, y0, n, 0, idx)
}

/// The display after the sprite is XOR-composited: exactly the covered cells
/// are toggled.
pub open spec fn draw_screen(v: MemoryView, x0: int, y0: int, n: int) -> Seq<bool> {
    Seq::new(2048, |idx: int| v.screen[idx] != sprite_covers(v, x0, y0, n, idx))
}

/// A lit cell strictly before row `i`, bit `j` is covered: a collision.
pub open spec fn hit_before(v: MemoryView, x0: int, y0: int, i: int, j: int) -> bool {
    exists|idx: int|
        0 <= idx < 2048 && v.screen[idx] && #[trigger] covers_before(v, x0, y0, i, j, idx)
}

/// The draw toggles some cell from lit to dark.
pub open spec fn draw_collision(v: MemoryView, x0: int, y0: int, n: int) -> bool {
    hit_before(v, x0, y0, n, 0)
}

/// A value below twice the modulus either is its own remainder or wraps once.
proof fn lemma_mod_window(t: int, m: int)
    requires
        0 < m,
        0 <= t < 2 * m,
    ensures
        t % m == if t < m { t } else { t - m },
{
    if t < m {
        vstd::arithmetic::div_mod::lemma_small_mod(t as nat, m as nat);
    } else {
        vstd::arithmetic::div_mod::lemma_mod_multiples_vanish(1, t - m, m);
        vstd::arithmetic::div_mod::lemma_small_mod((t - m) as nat, m as nat);
    }
}

/// Every sprite bit lands on a display cell.
pub proof fn lemma_cell_index_bounds(x0: int, y0: int, a: int, b: int)
    requires
        0 <= x0 < 64,
        0 <= y0 < 32,
        0 <= a < 32,
        0 <= b < 8,
    ensures
        0 <= cell_index(x0, y0, a, b) < 2048,
{
    lemma_mod_window(x0 + b, 64);
    lemma_mod_window(y0 + a, 32);
}

/// Distinct bits of one sprite land on distinct cells: rows stay within one
/// vertical wrap and bits within one horizontal wrap.
pub proof fn lemma_cell_index_inj(x0: int, y0: int, a1: int, b1: int, a2: int, b2: int)
    requires
        0 <= x0 < 64,
        0 <= y0 < 32,
        0 <= a1 < 32,
        0 <= b1 < 8,
        0 <= a2 < 32,
        0 <= b2 < 8,
        cell_index(x0, y0, a1, b1) == cell_index(x0, y0, a2, b2),
    ensures
        a1 == a2,
        b1 == b2,
{
    lemma_mod_window(x0 + b1, 64);
    lemma_mod_window(x0 + b2, 64);
    lemma_mod_window(y0 + a1, 32);
    lemma_mod_window(y0 + a2, 32);
}

/// Before anything is processed, nothing is covered and nothing was hit.
pub proof fn lemma_covers_none(v: MemoryView, x0: int, y0: int)
    ensures
        forall|idx: int| !covers_before(v, x0, y0, 0, 0, idx),
        !hit_before(v, x0, y0, 0, 0),
{
    assert forall|idx: int| !covers_before(v, x0, y0, 0, 0, idx) by {
        if covers_before(v, x0, y0, 0, 0, idx) {
            let (a, b) = choose|a: int, b: int|
                0 <= a && (a < 0 || (a == 0 && b < 0)) && #[trigger] covers_at(
                    v,
                    x0,
                    y0,
                    a,
                    b,
                    idx,
                );
            assert(false);
        }
    }
    if hit_before(v, x0, y0, 0, 0) {
        let idx = choose|idx: int|
            0 <= idx < 2048 && v.screen[idx] && #[trigger] covers_before(v, x0, y0, 0, 0, idx);
        assert(false);
    }
}

/// Processing one more bit extends the covered set by at most the one cell
/// that bit lands on.
pub proof fn lemma_covers_step(v: MemoryView, x0: int, y0: int, i: int, j: int)
    requires
        0 <= x0 < 64,
        0 <= y0 < 32,
        0 <= i < 32,
        0 <= j < 8,
    ensures
        forall|idx: int| #[trigger]
            covers_before(v, x0, y0, i, j + 1, idx) == (covers_before(v, x0, y0, i, j, idx) || (
            idx == cell_index(x0, y0, i, j) && sprite_pixel(v.ram[v.i_reg + i], j))),
{
    assert forall|idx: int| #[trigger]
        covers_before(v, x0, y0, i, j + 1, idx) == (covers_before(v, x0, y0, i, j, idx) || (idx
            == cell_index(x0, y0, i, j) && sprite_pixel(v.ram[v.i_reg + i], j))) by {
        if covers_before(v, x0, y0, i, j + 1, idx) {
            let (a, b) = choose|a: int, b: int|
                0 <= a && (a < i || (a == i && b < j + 1)) && #[trigger] covers_at(
                    v,
                    x0,
                    y0,
                    a,
                    b,
                    idx,
                );
            if a < i || (a == i && b < j) {
                assert(covers_before(v, x0, y0, i, j, idx));
            } else {
                assert(a == i && b == j);
            }
        }
        if covers_before(v, x0, y0, i, j, idx) {
            let (a, b) = choose|a: int, b: int|
                0 <= a && (a < i || (a == i && b < j)) && #[trigger] covers_at(v, x0, y0, a, b, idx);
            assert(0 <= a && (a < i || (a == i && b < j + 1)) && covers_at(v, x0, y0, a, b, idx));
            assert(covers_before(v, x0, y0, i, j + 1, idx));
        }
        if idx == cell_index(x0, y0, i, j) && sprite_pixel(v.ram[v.i_reg + i], j) {
            assert(covers_at(v, x0, y0, i, j, idx));
            assert(0 <= i && (i < i || (i == i && j < j + 1)) && covers_at(v, x0, y0, i, j, idx));
            assert(covers_before(v, x0, y0, i, j + 1, idx));
        }
    }
}

/// The cell the current bit lands on was not covered by any earlier bit.
pub proof fn lemma_fresh_cell(v: MemoryView, x0: int, y0: int, i: int, j: int)
    requires
        0 <= x0 < 64,
        0 <= y0 < 32,
        0 <= i < 32,
        0 <= j < 8,
    ensures
        !covers_before(v, x0, y0, i, j, cell_index(x0, y0, i, j)),
{
    let cell = cell_index(x0, y0, i, j);
    if covers_before(v, x0, y0, i, j, cell) {
        let (a, b) = choose|a: int, b: int|
            0 <= a && (a < i || (a == i && b < j)) && #[trigger] covers_at(v, x0, y0, a, b, cell);
        lemma_cell_index_inj(x0, y0, a, b, i, j);
        assert(false);
    }
}

/// The collision flag after one more bit: the old flag, or a hit on the one
/// cell the bit lands on.
pub proof fn lemma_hit_step(v: MemoryView, x0: int, y0: int, i: int, j: int)
    requires
        0 <= x0 < 64,
        0 <= y0 < 32,
        0 <= i < 32,
        0 <= j < 8,
    ensures
        hit_before(v, x0, y0, i, j + 1) == (hit_before(v, x0, y0, i, j) || (v.screen[cell_index(
            x0,
            y0,
            i,
            j,
        )] && sprite_pixel(v.ram[v.i_reg + i], j))),
{
    lemma_covers_step(v, x0, y0, i, j);
    lemma_cell_index_bounds(x0, y0, i, j);
    let cell = cell_index(x0, y0, i, j);
    if hit_before(v, x0, y0, i, j + 1) {
        let idx = choose|idx: int|
            0 <= idx < 2048 && v.screen[idx] && #[trigger] covers_before(v, x0, y0, i, j + 1, idx);
        if covers_before(v, x0, y0, i, j, idx) {
            assert(hit_before(v, x0, y0, i, j));
        } else {
            assert(idx == cell && sprite_pixel(v.ram[v.i_reg + i], j));
        }
    }
    if hit_before(v, x0, y0, i, j) {
        let idx = choose|idx: int|
            0 <= idx < 2048 && v.screen[idx] && #[trigger] covers_before(v, x0, y0, i, j, idx);
        assert(covers_before(v, x0, y0, i, j + 1, idx));
        assert(hit_before(v, x0, y0, i, j + 1));
    }
    if v.screen[cell] && sprite_pixel(v.ram[v.i_reg + i], j) {
        assert(covers_before(v, x0, y0, i, j + 1, cell));
        assert(hit_before(v, x0, y0, i, j + 1));
    }
}

/// Finishing a row is the same as standing at the start of the next row.
pub proof fn lemma_covers_row_end(v: MemoryView, x0: int, y0: int, i: int)
    requires
        0 <= i,
    ensures
        forall|idx: int| #[trigger]
            covers_before(v, x0, y0, i, 8, idx) == covers_before(v, x0, y0, i + 1, 0, idx),
        hit_before(v, x0, y0, i, 8) == hit_before(v, x0, y0, i + 1, 0),
{
    assert forall|idx: int| #[trigger]
        covers_before(v, x0, y0, i, 8, idx) == covers_before(v, x0, y0, i + 1, 0, idx) by {
        if covers_before(v, x0, y0, i, 8, idx) {
            let (a, b) = choose|a: int, b: int|
                0 <= a && (a < i || (a == i && b < 8)) && #[trigger] covers_at(v, x0, y0, a, b, idx);
            assert(0 <= a && (a < i + 1 || (a == i + 1 && b < 0)) && covers_at(
                v,
                x0,
                y0,
                a,
                b,
                idx,
            ));
            assert(covers_before(v, x0, y0, i + 1, 0, idx));
        }
        if covers_before(v, x0, y0, i + 1, 0, idx) {
            let (a, b) = choose|a: int, b: int|
                0 <= a && (a < i + 1 || (a == i + 1 && b < 0)) && #[trigger] covers_at(
                    v,
                    x0,
                    y0,
                    a,
                    b,
                    idx,
                );
            assert(0 <= a && (a < i || (a == i && b < 8)) && covers_at(v, x0, y0, a, b, idx));
            assert(covers_before(v, x0, y0, i, 8, idx));
        }
    }
    if hit_before(v, x0, y0, i, 8) {
        let idx = choose|idx: int|
            0 <= idx < 2048 && v.screen[idx] && #[trigger] covers_before(v, x0, y0, i, 8, idx);
        assert(hit_before(v, x0, y0, i + 1, 0));
    }
    if hit_before(v, x0, y0, i + 1, 0) {
        let idx = choose|idx: int|
            0 <= idx < 2048 && v.screen[idx] && #[trigger] covers_before(v, x0, y0, i + 1, 0, idx);
        assert(covers_before(v, x0, y0, i, 8, idx));
        assert(hit_before(v, x0, y0, i, 8));
    }
}

/// Coverage is a function of memory and the index register alone: two states
/// that agree on those cover the same cells.
pub proof fn lemma_covers_same_sprite(
    u: MemoryView,
    v: MemoryView,
    x0: int,
    y0: int,
    i: int,
    j: int,
)
    requires
        u.ram == v.ram,
        u.i_reg == v.i_reg,
    ensures
        forall|idx: int| #[trigger]
            covers_before(u, x0, y0, i, j, idx) == covers_before(v, x0, y0, i, j, idx),
{
    assert forall|idx: int| #[trigger]
        covers_before(u, x0, y0, i, j, idx) == covers_before(v, x0, y0, i, j, idx) by {
        if covers_before(u, x0, y0, i, j, idx) {
            let (a, b) = choose|a: int, b: int|
                0 <= a && (a < i || (a == i && b < j)) && #[trigger] covers_at(u, x0, y0, a, b, idx);
            assert(covers_at(v, x0, y0, a, b, idx));
            assert(covers_before(v, x0, y0, i, j, idx));
        }
        if covers_before(v, x0, y0, i, j, idx) {
            let (a, b) = choose|a: int, b: int|
                0 <= a && (a < i || (a == i && b < j)) && #[trigger] covers_at(v, x0, y0, a, b, idx);
            assert(covers_at(u, x0, y0, a, b, idx));
            assert(covers_before(u, x0, y0, i, j, idx));
        }
    }
}

/// Collision is a function of memory, the index register and the display
/// alone: two states that agree on those collide alike.
pub proof fn lemma_hit_same(u: MemoryView, v: MemoryView, x0: int, y0: int, i: int, j: int)
    requires
        u.ram == v.ram,
        u.i_reg == v.i_reg,
        u.screen == v.screen,
    ensures
        hit_before(u, x0, y0, i, j) == hit_before(v, x0, y0, i, j),
{
    lemma_covers_same_sprite(u, v, x0, y0, i, j);
    if hit_before(u, x0, y0, i, j) {
        let idx = choose|idx: int|
            0 <= idx < 2048 && u.screen[idx] && #[trigger] covers_before(u, x0, y0, i, j, idx);
        assert(covers_before(v, x0, y0, i, j, idx));
        assert(hit_before(v, x0, y0, i, j));
    }
    if hit_before(v, x0, y0, i, j) {
        let idx = choose|idx: int|
            0 <= idx < 2048 && v.screen[idx] && #[trigger] covers_before(v, x0, y0, i, j, idx);
        assert(covers_before(u, x0, y0, i, j, idx));
        assert(hit_before(u, x0, y0, i, j));
    }
}

/// What one decoded instruction does to the machine. `rb` stands for the byte
/// the random-number source produced, which only `RandomMask` reads. A fault
/// leaves the state untouched.
pub open spec fn instr_spec(pre: MemoryView, i: Instr, rb: u8) -> (MemoryView, Result<
    StepOutcome,
    Fault,
>) {
    match i {
        Instr::Nop => (adv(pre), Ok(StepOutcome::Executed)),
        Instr::Clear => (
            adv(MemoryView { screen: blank_screen(), ..pre }),
            Ok(StepOutcome::Executed),
        ),
        Instr::Ret => if pre.stack.len() == 0 {
            (pre, Err(Fault::StackUnderflow))
        } else {
            (
                MemoryView {
                    pc: (pre.stack.last() + 2) as u16,
                    stack: pre.stack.drop_last(),
                    ..pre
                },
                Ok(StepOutcome::Executed),
            )
        },
        Instr::Jump(nnn) => (MemoryView { pc: nnn, ..pre }, Ok(StepOutcome::Executed)),
        Instr::Call(nnn) => (
            MemoryView { pc: nnn, stack: pre.stack.push(pre.pc), ..pre },
            Ok(StepOutcome::Executed),
        ),
        Instr::SkipEqImm(x, nn) => (
            skip_if(pre, pre.registers[x as int] == nn),
            Ok(StepOutcome::Executed),
        ),
        Instr::SkipNeImm(x, nn) => (
            skip_if(pre, pre.registers[x as int] != nn),
            Ok(StepOutcome::Executed),
        ),
        Instr::SkipEqReg(x, y) => (
            skip_if(pre, pre.registers[x as int] == pre.registers[y as int]),
            Ok(StepOutcome::Executed),
        ),
        Instr::LoadImm(x, nn) => (adv(set_reg(pre, x as int, nn)), Ok(StepOutcome::Executed)),
        Instr::AddImm(x, nn) => (
            adv(set_reg(pre, x as int, ((pre.registers[x as int] + nn) % 256) as u8)),
            Ok(StepOutcome::Executed),
        ),
        Instr::MoveReg(x, y) => (
            adv(set_reg(pre, x as int, pre.registers[y as int])),
            Ok(StepOutcome::Executed),
        ),
        Instr::OrReg(x, y) => (
            adv(set_reg(pre, x as int, pre.registers[x as int] | pre.registers[y as int])),
            Ok(StepOutcome::Executed),
        ),
        Instr::AndReg(x, y) => (
            adv(set_reg(pre, x as int, pre.registers[x as int] & pre.registers[y as int])),
            Ok(StepOutcome::Executed),
        ),
        Instr::XorReg(x, y) => (
            adv(set_reg(pre, x as int, pre.registers[x as int] ^ pre.registers[y as int])),
            Ok(StepOutcome::Executed),
        ),
        Instr::AddReg(x, y) => {
            let sum = pre.registers[x as int] + pre.registers[y as int];
            let flag: u8 = if sum >= 256 { 1 } else { 0 };
            (
                adv(
                    MemoryView {
                        registers: pre.registers.update(x as int, (sum % 256) as u8).update(
                            15,
                            flag,
                        ),
                        ..pre
                    },
                ),
                Ok(StepOutcome::Executed),
            )
        },
        Instr::SubReg(x, y) => {
            let vx = pre.registers[x as int];
            let vy = pre.registers[y as int];
            let diff: u8 = if vx >= vy { (vx - vy) as u8 } else { (vx + 256 - vy) as u8 };
            let flag: u8 = if vx >= vy { 1 } else { 0 };
            (
                adv(
                    MemoryView {
                        registers: pre.registers.update(x as int, diff).update(15, flag),
                        ..pre
                    },
                ),
                Ok(StepOutcome::Executed),
            )
        },
        Instr::ShrReg(x, y) => {
            let vy = pre.registers[y as int];
            (
                adv(
                    MemoryView {
                        registers: pre.registers.update(15, (vy % 2) as u8).update(
                            x as int,
                            (vy / 2) as u8,
                        ),
                        ..pre
                    },
                ),
                Ok(StepOutcome::Executed),
            )
        },
        Instr::SubnReg(x, y) => {
            let vx = pre.registers[x as int];
            let vy = pre.registers[y as int];
            let diff: u8 = if vy >= vx { (vy - vx) as u8 } else { (vy + 256 - vx) as u8 };
            let flag: u8 = if vy >= vx { 1 } else { 0 };
            (
                adv(
                    MemoryView {
                        registers: pre.registers.update(x as int, diff).update(15, flag),
                        ..pre
                    },
                ),
                Ok(StepOutcome::Executed),
            )
        },
        Instr::ShlReg(x, y) => {
            let vy = pre.registers[y as int];
            let flag: u8 = if vy >= 128 { 1 } else { 0 };
            (
                adv(
                    MemoryView {
                        registers: pre.registers.update(15, flag).update(
                            x as int,
                            ((vy * 2) % 256) as u8,
                        ),
                        ..pre
                    },
                ),
                Ok(StepOutcome::Executed),
            )
        },
        Instr::SkipNeReg(x, y) => (
            skip_if(pre, pre.registers[x as int] != pre.registers[y as int]),
            Ok(StepOutcome::Executed),
        ),
        Instr::SetIndex(nnn) => (
            adv(MemoryView { i_reg: nnn, ..pre }),
            Ok(StepOutcome::Executed),
        ),
        Instr::JumpOffset(nnn) => (
            MemoryView { pc: (nnn + pre.registers[0]) as u16, ..pre },
            Ok(StepOutcome::Executed),
        ),
        Instr::RandomMask(x, nn) => (
            adv(set_reg(pre, x as int, nn & rb)),
            Ok(StepOutcome::Executed),
        ),
        Instr::Draw(x, y, n) => {
            let x0 = pre.registers[x as int] % 64;
            let y0 = pre.registers[y as int] % 32;
            if n > 0 && pre.i_reg + n > 4096 {
                (pre, Err(Fault::OutOfBounds))
            } else {
                let col = draw_collision(pre, x0 as int, y0 as int, n as int);
                (
                    adv(
                        MemoryView {
                            screen: draw_screen(pre, x0 as int, y0 as int, n as int),
                            registers: pre.registers.update(15, if col { 1u8 } else { 0u8 }),
                            ..pre
                        },
                    ),
                    Ok(StepOutcome::Executed),
                )
            }
        },
        Instr::SkipKey(x) => {
            let k = pre.registers[x as int];
            if k >= 16 {
                (pre, Err(Fault::OutOfBounds))
            } else {
                (skip_if(pre, pre.buttons[k as int]), Ok(StepOutcome::Executed))
            }
        },
        Instr::SkipNoKey(x) => {
            let k = pre.registers[x as int];
            if k >= 16 {
                (pre, Err(Fault::OutOfBounds))
            } else {
                (skip_if(pre, !pre.buttons[k as int]), Ok(StepOutcome::Executed))
            }
        },
        Instr::GetDelay(x) => (adv(set_reg(pre, x as int, pre.dt)), Ok(StepOutcome::Executed)),
        Instr::WaitKey(x) => {
            let k = first_key_from(pre.buttons, 0);
            if k == 16 {
                (pre, Ok(StepOutcome::Executed))
            } else {
                (adv(set_reg(pre, x as int, k as u8)), Ok(StepOutcome::Executed))
            }
        },
        Instr::SetDelay(x) => (
            adv(MemoryView { dt: pre.registers[x as int], ..pre }),
            Ok(StepOutcome::Executed),
        ),
        Instr::SetSound(x) => (
            adv(MemoryView { st: pre.registers[x as int], ..pre }),
            Ok(StepOutcome::Executed),
        ),
        Instr::AddIndex(x) => (
            adv(
                MemoryView {
                    i_reg: ((pre.i_reg + pre.registers[x as int]) % 65536) as u16,
                    ..pre
                },
            ),
            Ok(StepOutcome::Executed),
        ),
        Instr::FontIndex(x) => (
            adv(MemoryView { i_reg: (pre.registers[x as int] * 5) as u16, ..pre }),
            Ok(StepOutcome::Executed),
        ),
        Instr::StoreBcd(x) => {
            if pre.i_reg + 2 > 4095 {
                (pre, Err(Fault::OutOfBounds))
            } else {
                let v = pre.registers[x as int];
                let base = pre.i_reg as int;
                (
                    adv(
                        MemoryView {
                            ram: pre.ram.update(base, (v / 100) as u8).update(
                                base + 1,
                                ((v / 10) % 10) as u8,
                            ).update(base + 2, (v % 10) as u8),
                            ..pre
                        },
                    ),
                    Ok(StepOutcome::Executed),
                )
            }
        },
        Instr::StoreRegs(x) => {
            if pre.i_reg + x > 4095 {
                (pre, Err(Fault::OutOfBounds))
            } else {
                (
                    adv(
                        MemoryView {
                            ram: store_regs_ram(
                                pre.ram,
                                pre.registers,
                                pre.i_reg as int,
                                x as int,
                            ),
                            ..pre
                        },
                    ),
                    Ok(StepOutcome::Executed),
                )
            }
        },
        Instr::LoadRegs(x) => {
            if pre.i_reg + x > 4095 {
                (pre, Err(Fault::OutOfBounds))
            } else {
                (
                    adv(
                        MemoryView {
                            registers: load_regs_regs(
                                pre.registers,
                                pre.ram,
                                pre.i_reg as int,
                                x as int,
                            ),
                            ..pre
                        },
                    ),
                    Ok(StepOutcome::Executed),
                )
            }
        },
        Instr::Unknown(w) => (adv(pre), Ok(StepOutcome::Unimplemented(w))),
    }
}

/// One whole step: fetch (faulting when no two bytes can be read at the
/// program counter), decode, execute.
pub open spec fn step_spec(pre: MemoryView, rb: u8) -> (MemoryView, Result<StepOutcome, Fault>) {
    if pre.pc >= 4095 {
        (pre, Err(Fault::OutOfBounds))
    } else {
        instr_spec(pre, decode(fetch_word(pre)), rb)
    }
}

/// The 16-glyph, 5-bytes-per-glyph bitmap font that occupies addresses
/// 0x000..0x050 of a fresh machine.
pub open spec fn fontset() -> Seq<u8> {
    seq![
        0xF0u8, 0x90, 0x90, 0x90, 0xF0,
        0x20, 0x60, 0x20, 0x20, 0x70,
        0xF0, 0x10, 0xF0, 0x80, 0xF0,
        0xF0, 0x10, 0xF0, 0x10, 0xF0,
        0x90, 0x90, 0xF0, 0x10, 0x10,
        0xF0, 0x80, 0xF0, 0x10, 0xF0,
        0xF0, 0x80, 0xF0, 0x90, 0xF0,
        0xF0, 0x10, 0x20, 0x40, 0x40,
        0xF0, 0x90, 0xF0, 0x90, 0xF0,
        0xF0, 0x90, 0xF0, 0x10, 0xF0,
        0xF0, 0x90, 0xF0, 0x90, 0x90,
        0xE0, 0x90, 0xE0, 0x90, 0xE0,
        0xF0, 0x80, 0x80, 0x80, 0xF0,
        0xE0, 0x90, 0x90, 0x90, 0xE0,
        0xF0, 0x80, 0xF0, 0x80, 0xF0,
        0xF0, 0x80, 0xF0, 0x80, 0x80,
    ]
}

/// Memory of a fresh machine: font first, zeroes everywhere else.
pub open spec fn initial_ram() -> Seq<u8> {
    Seq::new(4096, |a: int| if a < 80 { fontset()[a] } else { 0u8 })
}

/// A fresh machine: font loaded, program counter at 0x200, all else zeroed.
pub open spec fn initial_view() -> MemoryView {
    MemoryView {
        ram: initial_ram(),
        registers: Seq::new(16, |r: int| 0u8),
        pc: 0x200,
        i_reg: 0,
        stack: Seq::empty(),
        screen: blank_screen(),
        dt: 0,
        st: 0,
        buttons: Seq::new(16, |k: int| false),
    }
}

/// Memory after a program image was copied in verbatim at 0x200.
pub open spec fn loaded_ram(ram: Seq<u8>, prog: Seq<u8>) -> Seq<u8> {
    Seq::new(
        4096,
        |a: int| if 0x200 <= a < 0x200 + prog.len() { prog[a - 0x200] } else { ram[a] },
    )
}

} // verus!
