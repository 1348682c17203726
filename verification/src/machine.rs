//! The executable machine, verified against the model.

use vstd::prelude::*;
use crate::{Fault, StepOutcome};
use crate::model::{
    cell_index, covers_before, decode, decode_ok, draw_collision, draw_screen, fetch_word,
    first_key_from, hit_before, initial_view, instr_spec, lemma_cell_index_bounds,
    lemma_covers_none, lemma_covers_row_end, lemma_covers_step, lemma_fresh_cell, lemma_hit_step,
    load_regs_regs, sprite_pixel, step_spec, store_regs_ram, Instr, MemoryView,
};

verus! {

/// The machine: memory, registers, call stack, display, timers and key state,
/// owned as one aggregate and mutated only through its own methods.
#[derive(Debug)]
pub struct Memory {
    ram: Vec<u8>,
    registers: Vec<u8>,
    ram_index: u16,
    i_reg: u16,
    stack: Vec<u16>,
    screen: Vec<bool>,
    dt: u8,
    st: u8,
    buttons: Vec<bool>,
}

impl View for Memory {
    type V = MemoryView;

    closed spec fn view(&self) -> MemoryView {
        MemoryView {
            ram: self.ram@,
            registers: self.registers@,
            pc: self.ram_index,
            i_reg: self.i_reg,
            stack: self.stack@,
            screen: self.screen@,
            dt: self.dt,
            st: self.st,
            buttons: self.buttons@,
        }
    }
}

/// `n` zero bytes.
fn zero_bytes(n: usize) -> (v: Vec<u8>)
    ensures
        v@ == Seq::new(n as nat, |a: int| 0u8),
{
    let mut v: Vec<u8> = Vec::new();
    let mut i: usize = 0;
    while i < n
        invariant
            i <= n,
            v@.len() == i,
            forall|a: int| 0 <= a < i ==> v@[a] == 0u8,
        decreases n - i,
    {
        v.push(0);
        i += 1;
    }
    proof {
        assert(v@ =~= Seq::new(n as nat, |a: int| 0u8));
    }
    v
}

/// `n` cleared flags.
fn false_flags(n: usize) -> (v: Vec<bool>)
    ensures
        v@ == Seq::new(n as nat, |a: int| false),
{
    let mut v: Vec<bool> = Vec::new();
    let mut i: usize = 0;
    while i < n
        invariant
            i <= n,
            v@.len() == i,
            forall|a: int| 0 <= a < i ==> v@[a] == false,
        decreases n - i,
    {
        v.push(false);
        i += 1;
    }
    proof {
        assert(v@ =~= Seq::new(n as nat, |a: int| false));
    }
    v
}

/// The font glyphs as bytes, in glyph order.
fn font_data() -> (v: Vec<u8>)
    ensures
        v@ == crate::model::fontset(),
{
    let mut v: Vec<u8> = Vec::new();
    v.push(0xF0); v.push(0x90); v.push(0x90); v.push(0x90); v.push(0xF0);
    v.push(0x20); v.push(0x60); v.push(0x20); v.push(0x20); v.push(0x70);
    v.push(0xF0); v.push(0x10); v.push(0xF0); v.push(0x80); v.push(0xF0);
    v.push(0xF0); v.push(0x10); v.push(0xF0); v.push(0x10); v.push(0xF0);
    v.push(0x90); v.push(0x90); v.push(0xF0); v.push(0x10); v.push(0x10);
    v.push(0xF0); v.push(0x80); v.push(0xF0); v.push(0x10); v.push(0xF0);
    v.push(0xF0); v.push(0x80); v.push(0xF0); v.push(0x90); v.push(0xF0);
    v.push(0xF0); v.push(0x10); v.push(0x20); v.push(0x40); v.push(0x40);
    v.push(0xF0); v.push(0x90); v.push(0xF0); v.push(0x90); v.push(0xF0);
    v.push(0xF0); v.push(0x90); v.push(0xF0); v.push(0x10); v.push(0xF0);
    v.push(0xF0); v.push(0x90); v.push(0xF0); v.push(0x90); v.push(0x90);
    v.push(0xE0); v.push(0x90); v.push(0xE0); v.push(0x90); v.push(0xE0);
    v.push(0xF0); v.push(0x80); v.push(0x80); v.push(0x80); v.push(0xF0);
    v.push(0xE0); v.push(0x90); v.push(0x90); v.push(0x90); v.push(0xE0);
    v.push(0xF0); v.push(0x80); v.push(0xF0); v.push(0x80); v.push(0xF0);
    v.push(0xF0); v.push(0x80); v.push(0xF0); v.push(0x80); v.push(0x80);
    proof {
        assert(v@ =~= crate::model::fontset());
    }
    v
}

impl Memory {
    /// A fresh machine: font at 0x000..0x050, program counter at 0x200,
    /// everything else zeroed.
    pub fn new() -> (m: Memory)
        ensures
            m@ == initial_view(),
            m@.wf(),
    {
        let mut ram = zero_bytes(4096);
        let font = font_data();
        let mut k: usize = 0;
        while k < 80
            invariant
                k <= 80,
                ram@.len() == 4096,
                font@ == crate::model::fontset(),
                forall|a: int| 0 <= a < k ==> ram@[a] == crate::model::fontset()[a],
                forall|a: int| k <= a < 4096 ==> ram@[a] == 0u8,
            decreases 80 - k,
        {
            ram[k] = font[k];
            k += 1;
        }
        let m = Memory {
            ram,
            registers: zero_bytes(16),
            ram_index: 0x200,
            i_reg: 0,
            stack: Vec::new(),
            screen: false_flags(2048),
            dt: 0,
            st: 0,
            buttons: false_flags(16),
        };
        proof {
            assert(m@.ram =~= crate::model::initial_ram());
            assert(m@ =~= initial_view());
        }
        m
    }

    /// The big-endian instruction word at the program counter.
    pub fn get_instruction(&self) -> (w: u16)
        requires
            self@.wf(),
            self@.pc < 4095,
        ensures
            w == fetch_word(self@),
    {
        let a = self.ram[self.ram_index as usize];
        let b = self.ram[self.ram_index as usize + 1];
        (a as u16) * 256 + (b as u16)
    }

    /// Copies a program image verbatim to 0x200. An image longer than the
    /// 3584 bytes of program space is refused whole: no byte is written.
    pub fn load_program(&mut self, program: &Vec<u8>) -> (r: Result<(), crate::LoadError>)
        requires
            old(self)@.wf(),
        ensures
            final(self)@.wf(),
            program@.len() > 3584 ==> r == Err::<(), crate::LoadError>(crate::LoadError::TooLarge)
                && final(self)@ == old(self)@,
            program@.len() <= 3584 ==> r == Ok::<(), crate::LoadError>(()) && final(self)@
                == (MemoryView {
                ram: crate::model::loaded_ram(old(self)@.ram, program@),
                ..old(self)@
            }),
    {
        if program.len() > 3584 {
            return Err(crate::LoadError::TooLarge);
        }
        let mut i: usize = 0;
        while i < program.len()
            invariant
                old(self)@.wf(),
                program@.len() <= 3584,
                i <= program@.len(),
                self@ == (MemoryView { ram: self@.ram, ..old(self)@ }),
                self@.ram.len() == 4096,
                forall|a: int|
                    0 <= a < 4096 ==> self@.ram[a] == (if 0x200 <= a < 0x200 + i {
                        program@[a - 0x200]
                    } else {
                        old(self)@.ram[a]
                    }),
            decreases program@.len() - i,
        {
            self.ram[0x200 + i] = program[i];
            i += 1;
        }
        proof {
            assert(self@.ram =~= crate::model::loaded_ram(old(self)@.ram, program@));
            assert(self@ =~= (MemoryView {
                ram: crate::model::loaded_ram(old(self)@.ram, program@),
                ..old(self)@
            }));
        }
        Ok(())
    }

    /// One timer tick: each counter goes down by one, stopping at zero.
    pub fn tick_timers(&mut self)
        requires
            old(self)@.wf(),
        ensures
            final(self)@.wf(),
            final(self)@ == (MemoryView {
                dt: crate::model::tick_down(old(self)@.dt),
                st: crate::model::tick_down(old(self)@.st),
                ..old(self)@
            }),
    {
        if self.dt > 0 {
            self.dt = self.dt - 1;
        }
        if self.st > 0 {
            self.st = self.st - 1;
        }
    }

    /// Records that a key went down or up. The frontend owns the mapping from
    /// physical keys to the sixteen indices.
    pub fn set_key(&mut self, key: usize, pressed: bool)
        requires
            old(self)@.wf(),
            key < 16,
        ensures
            final(self)@.wf(),
            final(self)@ == (MemoryView {
                buttons: old(self)@.buttons.update(key as int, pressed),
                ..old(self)@
            }),
    {
        self.buttons[key] = pressed;
    }

    /// The display, read-only, for rendering: cell (x, y) at index x + 64 * y.
    pub fn display(&self) -> (r: &Vec<bool>)
        ensures
            r@ == self@.screen,
    {
        &self.screen
    }

    /// One general-purpose register.
    pub fn register(&self, x: usize) -> (r: u8)
        requires
            self@.wf(),
            x < 16,
        ensures
            r == self@.registers[x as int],
    {
        self.registers[x]
    }

    /// The program counter.
    pub fn pc(&self) -> (r: u16)
        ensures
            r == self@.pc,
    {
        self.ram_index
    }

    /// The index register I.
    pub fn index_register(&self) -> (r: u16)
        ensures
            r == self@.i_reg,
    {
        self.i_reg
    }

    /// The delay timer.
    pub fn delay_timer(&self) -> (r: u8)
        ensures
            r == self@.dt,
    {
        self.dt
    }

    /// The sound timer; the frontend sounds a tone while it is nonzero.
    pub fn sound_timer(&self) -> (r: u8)
        ensures
            r == self@.st,
    {
        self.st
    }

    /// XOR-composites an n-byte sprite from I at (VX mod 64, VY mod 32),
    /// setting VF to 1 exactly when a lit cell was toggled dark.
    fn op_draw(&mut self, x: usize, y: usize, n: u16) -> (r: Result<StepOutcome, Fault>)
        requires
            old(self)@.wf(),
            x < 16,
            y < 16,
            n < 16,
            old(self)@.pc < 4095,
        ensures
            final(self)@.wf(),
            (final(self)@, r) == instr_spec(old(self)@, Instr::Draw(x, y, n), 0u8),
    {
        let x0: usize = (self.registers[x] % 64) as usize;
        let y0: usize = (self.registers[y] % 32) as usize;
        if n > 0 && self.i_reg as usize + n as usize > 4096 {
            return Err(Fault::OutOfBounds);
        }
        let nn: usize = n as usize;
        let mut collided: bool = false;
        let mut i: usize = 0;
        proof {
            lemma_covers_none(old(self)@, x0 as int, y0 as int);
        }
        while i < nn
            invariant
                old(self)@.wf(),
                x < 16,
                y < 16,
                nn < 16,
                i <= nn,
                nn == n as usize,
                x0 as int == old(self)@.registers[x as int] % 64,
                y0 as int == old(self)@.registers[y as int] % 32,
                nn > 0 ==> old(self)@.i_reg + nn <= 4096,
                self@.ram == old(self)@.ram,
                self@.registers == old(self)@.registers,
                self@.pc == old(self)@.pc,
                self@.i_reg == old(self)@.i_reg,
                self@.stack == old(self)@.stack,
                self@.dt == old(self)@.dt,
                self@.st == old(self)@.st,
                self@.buttons == old(self)@.buttons,
                self@.screen.len() == 2048,
                forall|q: int|
                    0 <= q < 2048 ==> self@.screen[q] == (old(self)@.screen[q] != covers_before(
                        old(self)@,
                        x0 as int,
                        y0 as int,
                        i as int,
                        0,
                        q,
                    )),
                collided == hit_before(old(self)@, x0 as int, y0 as int, i as int, 0),
            decreases nn - i,
        {
            let addr: usize = self.i_reg as usize + i;
            let pixels: u8 = self.ram[addr];
            let mut j: usize = 0;
            while j < 8
                invariant
                    old(self)@.wf(),
                    x < 16,
                    y < 16,
                    nn < 16,
                    i < nn,
                    nn == n as usize,
                    j <= 8,
                    x0 as int == old(self)@.registers[x as int] % 64,
                    y0 as int == old(self)@.registers[y as int] % 32,
                    old(self)@.i_reg + nn <= 4096,
                    pixels == old(self)@.ram[old(self)@.i_reg + i as int],
                    self@.ram == old(self)@.ram,
                    self@.registers == old(self)@.registers,
                    self@.pc == old(self)@.pc,
                    self@.i_reg == old(self)@.i_reg,
                    self@.stack == old(self)@.stack,
                    self@.dt == old(self)@.dt,
                    self@.st == old(self)@.st,
                    self@.buttons == old(self)@.buttons,
                    self@.screen.len() == 2048,
                    forall|q: int|
                        0 <= q < 2048 ==> self@.screen[q] == (old(self)@.screen[q]
                            != covers_before(
                            old(self)@,
                            x0 as int,
                            y0 as int,
                            i as int,
                            j as int,
                            q,
                        )),
                    collided == hit_before(old(self)@, x0 as int, y0 as int, i as int, j as int),
                decreases 8 - j,
            {
                proof {
                    lemma_covers_step(old(self)@, x0 as int, y0 as int, i as int, j as int);
                    lemma_hit_step(old(self)@, x0 as int, y0 as int, i as int, j as int);
                    lemma_cell_index_bounds(x0 as int, y0 as int, i as int, j as int);
                }
                let mask: u8 = 0x80u8 >> (j as u8);
                if pixels & mask != 0 {
                    let px: usize = (x0 + j) % 64;
                    let py: usize = (y0 + i) % 32;
                    let idx: usize = px + 64 * py;
                    proof {
                        assert(idx as int == cell_index(x0 as int, y0 as int, i as int, j as int));
                        lemma_fresh_cell(old(self)@, x0 as int, y0 as int, i as int, j as int);
                        assert(sprite_pixel(old(self)@.ram[old(self)@.i_reg + i as int], j as int));
                    }
                    let ghost snap = self@.screen;
                    let cur: bool = self.screen[idx];
                    if cur {
                        collided = true;
                    }
                    self.screen[idx] = !cur;
                    proof {
                        assert(cur == old(self)@.screen[idx as int]);
                        assert forall|q: int|
                            0 <= q < 2048 implies self@.screen[q] == (old(self)@.screen[q]
                            != covers_before(
                            old(self)@,
                            x0 as int,
                            y0 as int,
                            i as int,
                            j + 1,
                            q,
                        )) by {
                            if q != idx as int {
                                assert(self@.screen[q] == snap[q]);
                            }
                        }
                    }
                } else {
                    proof {
                        assert(!sprite_pixel(old(self)@.ram[old(self)@.i_reg + i as int], j as int));
                        assert forall|q: int|
                            0 <= q < 2048 implies self@.screen[q] == (old(self)@.screen[q]
                            != covers_before(
                            old(self)@,
                            x0 as int,
                            y0 as int,
                            i as int,
                            j + 1,
                            q,
                        )) by {
                            assert(self@.screen[q] == (old(self)@.screen[q] != covers_before(
                                old(self)@,
                                x0 as int,
                                y0 as int,
                                i as int,
                                j as int,
                                q,
                            )));
                        }
                    }
                }
                j += 1;
            }
            proof {
                lemma_covers_row_end(old(self)@, x0 as int, y0 as int, i as int);
                assert forall|q: int|
                    0 <= q < 2048 implies self@.screen[q] == (old(self)@.screen[q]
                    != covers_before(old(self)@, x0 as int, y0 as int, i + 1, 0, q)) by {
                    assert(covers_before(old(self)@, x0 as int, y0 as int, i as int, 8, q)
                        == covers_before(old(self)@, x0 as int, y0 as int, i + 1, 0, q));
                }
            }
            i += 1;
        }
        proof {
            assert(self@.screen =~= draw_screen(old(self)@, x0 as int, y0 as int, n as int));
            assert(collided == draw_collision(old(self)@, x0 as int, y0 as int, n as int));
        }
        if collided {
            self.registers[15] = 1;
        } else {
            self.registers[15] = 0;
        }
        self.ram_index = self.ram_index + 2;
        proof {
            assert(self@ =~= instr_spec(old(self)@, Instr::Draw(x, y, n), 0u8).0);
        }
        Ok(StepOutcome::Executed)
    }

    /// Copies V0..=VX into memory at I..=I+X, faulting rather than writing
    /// past the end of memory.
    fn op_store_regs(&mut self, x: usize) -> (r: Result<StepOutcome, Fault>)
        requires
            old(self)@.wf(),
            x < 16,
            old(self)@.pc < 4095,
        ensures
            final(self)@.wf(),
            (final(self)@, r) == instr_spec(old(self)@, Instr::StoreRegs(x), 0u8),
    {
        if self.i_reg as usize + x > 4095 {
            return Err(Fault::OutOfBounds);
        }
        let base: usize = self.i_reg as usize;
        let mut k: usize = 0;
        while k <= x
            invariant
                old(self)@.wf(),
                x < 16,
                base as int == old(self)@.i_reg as int,
                base + x <= 4095,
                k <= x + 1,
                self@.registers == old(self)@.registers,
                self@.pc == old(self)@.pc,
                self@.i_reg == old(self)@.i_reg,
                self@.stack == old(self)@.stack,
                self@.screen == old(self)@.screen,
                self@.dt == old(self)@.dt,
                self@.st == old(self)@.st,
                self@.buttons == old(self)@.buttons,
                self@.ram.len() == 4096,
                forall|a: int|
                    0 <= a < 4096 ==> self@.ram[a] == (if base <= a < base + k {
                        old(self)@.registers[a - base]
                    } else {
                        old(self)@.ram[a]
                    }),
            decreases x + 1 - k,
        {
            self.ram[base + k] = self.registers[k];
            k += 1;
        }
        proof {
            assert(self@.ram =~= store_regs_ram(
                old(self)@.ram,
                old(self)@.registers,
                old(self)@.i_reg as int,
                x as int,
            ));
        }
        self.ram_index = self.ram_index + 2;
        proof {
            assert(self@ =~= instr_spec(old(self)@, Instr::StoreRegs(x), 0u8).0);
        }
        Ok(StepOutcome::Executed)
    }

    /// Loads V0..=VX from memory at I..=I+X, faulting rather than reading
    /// past the end of memory.
    fn op_load_regs(&mut self, x: usize) -> (r: Result<StepOutcome, Fault>)
        requires
            old(self)@.wf(),
            x < 16,
            old(self)@.pc < 4095,
        ensures
            final(self)@.wf(),
            (final(self)@, r) == instr_spec(old(self)@, Instr::LoadRegs(x), 0u8),
    {
        if self.i_reg as usize + x > 4095 {
            return Err(Fault::OutOfBounds);
        }
        let base: usize = self.i_reg as usize;
        let mut k: usize = 0;
        while k <= x
            invariant
                old(self)@.wf(),
                x < 16,
                base as int == old(self)@.i_reg as int,
                base + x <= 4095,
                k <= x + 1,
                self@.ram == old(self)@.ram,
                self@.pc == old(self)@.pc,
                self@.i_reg == old(self)@.i_reg,
                self@.stack == old(self)@.stack,
                self@.screen == old(self)@.screen,
                self@.dt == old(self)@.dt,
                self@.st == old(self)@.st,
                self@.buttons == old(self)@.buttons,
                self@.registers.len() == 16,
                forall|t: int|
                    0 <= t < 16 ==> self@.registers[t] == (if t < k {
                        old(self)@.ram[base + t]
                    } else {
                        old(self)@.registers[t]
                    }),
            decreases x + 1 - k,
        {
            self.registers[k] = self.ram[base + k];
            k += 1;
        }
        proof {
            assert(self@.registers =~= load_regs_regs(
                old(self)@.registers,
                old(self)@.ram,
                old(self)@.i_reg as int,
                x as int,
            ));
        }
        self.ram_index = self.ram_index + 2;
        proof {
            assert(self@ =~= instr_spec(old(self)@, Instr::LoadRegs(x), 0u8).0);
        }
        Ok(StepOutcome::Executed)
    }

    /// Polls the keypad for the wait-for-key instruction: while no key is
    /// held the program counter stays put, so the same instruction is re-run
    /// next step; once some key is held, the lowest held index is stored.
    fn op_wait_key(&mut self, x: usize) -> (r: Result<StepOutcome, Fault>)
        requires
            old(self)@.wf(),
            x < 16,
            old(self)@.pc < 4095,
        ensures
            final(self)@.wf(),
            (final(self)@, r) == instr_spec(old(self)@, Instr::WaitKey(x), 0u8),
    {
        let mut k: usize = 0;
        while k < 16
            invariant
                old(self)@.wf(),
                old(self)@.pc < 4095,
                x < 16,
                k <= 16,
                self@ == old(self)@,
                first_key_from(old(self)@.buttons, 0) == first_key_from(
                    old(self)@.buttons,
                    k as int,
                ),
            decreases 16 - k,
        {
            if self.buttons[k] {
                proof {
                    assert(first_key_from(old(self)@.buttons, k as int) == k as int);
                }
                self.registers[x] = k as u8;
                self.ram_index = self.ram_index + 2;
                proof {
                    assert(self@ =~= instr_spec(old(self)@, Instr::WaitKey(x), 0u8).0);
                }
                return Ok(StepOutcome::Executed);
            }
            k += 1;
        }
        proof {
            assert(first_key_from(old(self)@.buttons, 16) == 16);
            assert(self@ =~= instr_spec(old(self)@, Instr::WaitKey(x), 0u8).0);
        }
        Ok(StepOutcome::Executed)
    }

    /// Executes exactly one instruction: fetch, decode, dispatch. A fault
    /// leaves the machine exactly as it was; an unknown word is reported and
    /// skipped. The whole effect is pinned by the transition function of the
    /// model, quantified over the one byte the random-number source may
    /// produce.
    #[verifier::rlimit(100)]
    pub fn step(&mut self) -> (r: Result<StepOutcome, Fault>)
        requires
            old(self)@.wf(),
        ensures
            final(self)@.wf(),
            exists|rb: u8| (final(self)@, r) == step_spec(old(self)@, rb),
    {
        if self.ram_index >= 4095 {
            proof {
                assert((self@, Err::<StepOutcome, Fault>(Fault::OutOfBounds)) == step_spec(
                    self@,
                    0u8,
                ));
            }
            return Err(Fault::OutOfBounds);
        }
        let w = self.get_instruction();
        let instr = decode_word(w);
        let ghost pre = self@;
        match instr {
            Instr::Nop => {
                self.ram_index = self.ram_index + 2;
                proof {
                    assert((self@, Ok::<StepOutcome, Fault>(StepOutcome::Executed)) == step_spec(
                        pre,
                        0u8,
                    ));
                }
                Ok(StepOutcome::Executed)
            },
            Instr::Clear => {
                let mut q: usize = 0;
                while q < 2048
                    invariant
                        q <= 2048,
                        self@ == (MemoryView { screen: self@.screen, ..pre }),
                        self@.screen.len() == 2048,
                        forall|t: int| 0 <= t < q ==> self@.screen[t] == false,
                        forall|t: int| q <= t < 2048 ==> self@.screen[t] == pre.screen[t],
                    decreases 2048 - q,
                {
                    self.screen[q] = false;
                    q += 1;
                }
                self.ram_index = self.ram_index + 2;
                proof {
                    assert(self@.screen =~= crate::model::blank_screen());
                    assert(self@ =~= step_spec(pre, 0u8).0);
                    assert((self@, Ok::<StepOutcome, Fault>(StepOutcome::Executed)) == step_spec(
                        pre,
                        0u8,
                    ));
                }
                Ok(StepOutcome::Executed)
            },
            Instr::Ret => {
                if self.stack.len() == 0 {
                    proof {
                        assert((self@, Err::<StepOutcome, Fault>(Fault::StackUnderflow))
                            == step_spec(pre, 0u8));
                    }
                    return Err(Fault::StackUnderflow);
                }
                let a = self.stack.pop().unwrap();
                self.ram_index = a + 2;
                proof {
                    assert(self@ =~= step_spec(pre, 0u8).0);
                    assert((self@, Ok::<StepOutcome, Fault>(StepOutcome::Executed)) == step_spec(
                        pre,
                        0u8,
                    ));
                }
                Ok(StepOutcome::Executed)
            },
            Instr::Jump(nnn) => {
                self.ram_index = nnn;
                proof {
                    assert((self@, Ok::<StepOutcome, Fault>(StepOutcome::Executed)) == step_spec(
                        pre,
                        0u8,
                    ));
                }
                Ok(StepOutcome::Executed)
            },
            Instr::Call(nnn) => {
                self.stack.push(self.ram_index);
                self.ram_index = nnn;
                proof {
                    assert(self@ =~= step_spec(pre, 0u8).0);
                    assert((self@, Ok::<StepOutcome, Fault>(StepOutcome::Executed)) == step_spec(
                        pre,
                        0u8,
                    ));
                }
                Ok(StepOutcome::Executed)
            },
            Instr::SkipEqImm(xr, nn) => {
                if self.registers[xr] == nn {
                    self.ram_index = self.ram_index + 4;
                } else {
                    self.ram_index = self.ram_index + 2;
                }
                proof {
                    assert((self@, Ok::<StepOutcome, Fault>(StepOutcome::Executed)) == step_spec(
                        pre,
                        0u8,
                    ));
                }
                Ok(StepOutcome::Executed)
            },
            Instr::SkipNeImm(xr, nn) => {
                if self.registers[xr] != nn {
                    self.ram_index = self.ram_index + 4;
                } else {
                    self.ram_index = self.ram_index + 2;
                }
                proof {
                    assert((self@, Ok::<StepOutcome, Fault>(StepOutcome::Executed)) == step_spec(
                        pre,
                        0u8,
                    ));
                }
                Ok(StepOutcome::Executed)
            },
            Instr::SkipEqReg(xr, yr) => {
                if self.registers[xr] == self.registers[yr] {
                    self.ram_index = self.ram_index + 4;
                } else {
                    self.ram_index = self.ram_index + 2;
                }
                proof {
                    assert((self@, Ok::<StepOutcome, Fault>(StepOutcome::Executed)) == step_spec(
                        pre,
                        0u8,
                    ));
                }
                Ok(StepOutcome::Executed)
            },
            Instr::LoadImm(xr, nn) => {
                self.registers[xr] = nn;
                self.ram_index = self.ram_index + 2;
                proof {
                    assert((self@, Ok::<StepOutcome, Fault>(StepOutcome::Executed)) == step_spec(
                        pre,
                        0u8,
                    ));
                }
                Ok(StepOutcome::Executed)
            },
            Instr::AddImm(xr, nn) => {
                let sum: u16 = self.registers[xr] as u16 + nn as u16;
                self.registers[xr] = (sum % 256) as u8;
                self.ram_index = self.ram_index + 2;
                proof {
                    assert((self@, Ok::<StepOutcome, Fault>(StepOutcome::Executed)) == step_spec(
                        pre,
                        0u8,
                    ));
                }
                Ok(StepOutcome::Executed)
            },
            Instr::MoveReg(xr, yr) => {
                self.registers[xr] = self.registers[yr];
                self.ram_index = self.ram_index + 2;
                proof {
                    assert((self@, Ok::<StepOutcome, Fault>(StepOutcome::Executed)) == step_spec(
                        pre,
                        0u8,
                    ));
                }
                Ok(StepOutcome::Executed)
            },
            Instr::OrReg(xr, yr) => {
                let vx = self.registers[xr];
                let vy = self.registers[yr];
                self.registers[xr] = vx | vy;
                self.ram_index = self.ram_index + 2;
                proof {
                    assert((self@, Ok::<StepOutcome, Fault>(StepOutcome::Executed)) == step_spec(
                        pre,
                        0u8,
                    ));
                }
                Ok(StepOutcome::Executed)
            },
            Instr::AndReg(xr, yr) => {
                let vx = self.registers[xr];
                let vy = self.registers[yr];
                self.registers[xr] = vx & vy;
                self.ram_index = self.ram_index + 2;
                proof {
                    assert((self@, Ok::<StepOutcome, Fault>(StepOutcome::Executed)) == step_spec(
                        pre,
                        0u8,
                    ));
                }
                Ok(StepOutcome::Executed)
            },
            Instr::XorReg(xr, yr) => {
                let vx = self.registers[xr];
                let vy = self.registers[yr];
                self.registers[xr] = vx ^ vy;
                self.ram_index = self.ram_index + 2;
                proof {
                    assert((self@, Ok::<StepOutcome, Fault>(StepOutcome::Executed)) == step_spec(
                        pre,
                        0u8,
                    ));
                }
                Ok(StepOutcome::Executed)
            },
            Instr::AddReg(xr, yr) => {
                let sum: u16 = self.registers[xr] as u16 + self.registers[yr] as u16;
                self.registers[xr] = (sum % 256) as u8;
                self.registers[15] = if sum >= 256 { 1 } else { 0 };
                self.ram_index = self.ram_index + 2;
                proof {
                    assert((self@, Ok::<StepOutcome, Fault>(StepOutcome::Executed)) == step_spec(
                        pre,
                        0u8,
                    ));
                }
                Ok(StepOutcome::Executed)
            },
            Instr::SubReg(xr, yr) => {
                let vx = self.registers[xr];
                let vy = self.registers[yr];
                let diff: u8 = if vx >= vy {
                    vx - vy
                } else {
                    ((vx as u16 + 256) - vy as u16) as u8
                };
                self.registers[xr] = diff;
                self.registers[15] = if vx >= vy { 1 } else { 0 };
                self.ram_index = self.ram_index + 2;
                proof {
                    assert((self@, Ok::<StepOutcome, Fault>(StepOutcome::Executed)) == step_spec(
                        pre,
                        0u8,
                    ));
                }
                Ok(StepOutcome::Executed)
            },
            Instr::ShrReg(xr, yr) => {
                let vy = self.registers[yr];
                self.registers[15] = vy % 2;
                self.registers[xr] = vy / 2;
                self.ram_index = self.ram_index + 2;
                proof {
                    assert((self@, Ok::<StepOutcome, Fault>(StepOutcome::Executed)) == step_spec(
                        pre,
                        0u8,
                    ));
                }
                Ok(StepOutcome::Executed)
            },
            Instr::SubnReg(xr, yr) => {
                let vx = self.registers[xr];
                let vy = self.registers[yr];
                let diff: u8 = if vy >= vx {
                    vy - vx
                } else {
                    ((vy as u16 + 256) - vx as u16) as u8
                };
                self.registers[xr] = diff;
                self.registers[15] = if vy >= vx { 1 } else { 0 };
                self.ram_index = self.ram_index + 2;
                proof {
                    assert((self@, Ok::<StepOutcome, Fault>(StepOutcome::Executed)) == step_spec(
                        pre,
                        0u8,
                    ));
                }
                Ok(StepOutcome::Executed)
            },
            Instr::ShlReg(xr, yr) => {
                let vy = self.registers[yr];
                self.registers[15] = if vy >= 128 { 1 } else { 0 };
                let doubled: u16 = vy as u16 * 2;
                self.registers[xr] = (doubled % 256) as u8;
                self.ram_index = self.ram_index + 2;
                proof {
                    assert((self@, Ok::<StepOutcome, Fault>(StepOutcome::Executed)) == step_spec(
                        pre,
                        0u8,
                    ));
                }
                Ok(StepOutcome::Executed)
            },
            Instr::SkipNeReg(xr, yr) => {
                if self.registers[xr] != self.registers[yr] {
                    self.ram_index = self.ram_index + 4;
                } else {
                    self.ram_index = self.ram_index + 2;
                }
                proof {
                    assert((self@, Ok::<StepOutcome, Fault>(StepOutcome::Executed)) == step_spec(
                        pre,
                        0u8,
                    ));
                }
                Ok(StepOutcome::Executed)
            },
            Instr::SetIndex(nnn) => {
                self.i_reg = nnn;
                self.ram_index = self.ram_index + 2;
                proof {
                    assert((self@, Ok::<StepOutcome, Fault>(StepOutcome::Executed)) == step_spec(
                        pre,
                        0u8,
                    ));
                }
                Ok(StepOutcome::Executed)
            },
            Instr::JumpOffset(nnn) => {
                self.ram_index = nnn + self.registers[0] as u16;
                proof {
                    assert((self@, Ok::<StepOutcome, Fault>(StepOutcome::Executed)) == step_spec(
                        pre,
                        0u8,
                    ));
                }
                Ok(StepOutcome::Executed)
            },
            Instr::RandomMask(xr, nn) => {
                let rb = rand::random::<u8>();
                self.registers[xr] = nn & rb;
                self.ram_index = self.ram_index + 2;
                proof {
                    assert((self@, Ok::<StepOutcome, Fault>(StepOutcome::Executed)) == step_spec(
                        pre,
                        rb,
                    ));
                }
                Ok(StepOutcome::Executed)
            },
            Instr::Draw(xr, yr, n) => {
                let r = self.op_draw(xr, yr, n);
                proof {
                    assert((self@, r) == step_spec(pre, 0u8));
                }
                r
            },
            Instr::SkipKey(xr) => {
                let k = self.registers[xr];
                if k >= 16 {
                    proof {
                        assert((self@, Err::<StepOutcome, Fault>(Fault::OutOfBounds)) == step_spec(
                            pre,
                            0u8,
                        ));
                    }
                    return Err(Fault::OutOfBounds);
                }
                if self.buttons[k as usize] {
                    self.ram_index = self.ram_index + 4;
                } else {
                    self.ram_index = self.ram_index + 2;
                }
                proof {
                    assert((self@, Ok::<StepOutcome, Fault>(StepOutcome::Executed)) == step_spec(
                        pre,
                        0u8,
                    ));
                }
                Ok(StepOutcome::Executed)
            },
            Instr::SkipNoKey(xr) => {
                let k = self.registers[xr];
                if k >= 16 {
                    proof {
                        assert((self@, Err::<StepOutcome, Fault>(Fault::OutOfBounds)) == step_spec(
                            pre,
                            0u8,
                        ));
                    }
                    return Err(Fault::OutOfBounds);
                }
                if !self.buttons[k as usize] {
                    self.ram_index = self.ram_index + 4;
                } else {
                    self.ram_index = self.ram_index + 2;
                }
                proof {
                    assert((self@, Ok::<StepOutcome, Fault>(StepOutcome::Executed)) == step_spec(
                        pre,
                        0u8,
                    ));
                }
                Ok(StepOutcome::Executed)
            },
            Instr::GetDelay(xr) => {
                self.registers[xr] = self.dt;
                self.ram_index = self.ram_index + 2;
                proof {
                    assert((self@, Ok::<StepOutcome, Fault>(StepOutcome::Executed)) == step_spec(
                        pre,
                        0u8,
                    ));
                }
                Ok(StepOutcome::Executed)
            },
            Instr::WaitKey(xr) => {
                let r = self.op_wait_key(xr);
                proof {
                    assert((self@, r) == step_spec(pre, 0u8));
                }
                r
            },
            Instr::SetDelay(xr) => {
                self.dt = self.registers[xr];
                self.ram_index = self.ram_index + 2;
                proof {
                    assert((self@, Ok::<StepOutcome, Fault>(StepOutcome::Executed)) == step_spec(
                        pre,
                        0u8,
                    ));
                }
                Ok(StepOutcome::Executed)
            },
            Instr::SetSound(xr) => {
                self.st = self.registers[xr];
                self.ram_index = self.ram_index + 2;
                proof {
                    assert((self@, Ok::<StepOutcome, Fault>(StepOutcome::Executed)) == step_spec(
                        pre,
                        0u8,
                    ));
                }
                Ok(StepOutcome::Executed)
            },
            Instr::AddIndex(xr) => {
                let sum: u32 = self.i_reg as u32 + self.registers[xr] as u32;
                self.i_reg = (sum % 65536) as u16;
                self.ram_index = self.ram_index + 2;
                proof {
                    assert((self@, Ok::<StepOutcome, Fault>(StepOutcome::Executed)) == step_spec(
                        pre,
                        0u8,
                    ));
                }
                Ok(StepOutcome::Executed)
            },
            Instr::FontIndex(xr) => {
                self.i_reg = self.registers[xr] as u16 * 5;
                self.ram_index = self.ram_index + 2;
                proof {
                    assert((self@, Ok::<StepOutcome, Fault>(StepOutcome::Executed)) == step_spec(
                        pre,
                        0u8,
                    ));
                }
                Ok(StepOutcome::Executed)
            },
            Instr::StoreBcd(xr) => {
                if self.i_reg > 4093 {
                    proof {
                        assert((self@, Err::<StepOutcome, Fault>(Fault::OutOfBounds)) == step_spec(
                            pre,
                            0u8,
                        ));
                    }
                    return Err(Fault::OutOfBounds);
                }
                let v = self.registers[xr];
                let base = self.i_reg as usize;
                self.ram[base] = v / 100;
                self.ram[base + 1] = (v / 10) % 10;
                self.ram[base + 2] = v % 10;
                self.ram_index = self.ram_index + 2;
                proof {
                    assert(self@ =~= step_spec(pre, 0u8).0);
                    assert((self@, Ok::<StepOutcome, Fault>(StepOutcome::Executed)) == step_spec(
                        pre,
                        0u8,
                    ));
                }
                Ok(StepOutcome::Executed)
            },
            Instr::StoreRegs(xr) => {
                let r = self.op_store_regs(xr);
                proof {
                    assert((self@, r) == step_spec(pre, 0u8));
                }
                r
            },
            Instr::LoadRegs(xr) => {
                let r = self.op_load_regs(xr);
                proof {
                    assert((self@, r) == step_spec(pre, 0u8));
                }
                r
            },
            Instr::Unknown(uw) => {
                self.ram_index = self.ram_index + 2;
                proof {
                    assert((self@, Ok::<StepOutcome, Fault>(StepOutcome::Unimplemented(uw)))
                        == step_spec(pre, 0u8));
                }
                Ok(StepOutcome::Unimplemented(uw))
            },
        }
    }
}

/// Decodes one word, with every operand in range.
pub fn decode_word(w: u16) -> (r: Instr)
    ensures
        r == decode(w),
        decode_ok(r),
{
    let a: u16 = w / 4096;
    let x: usize = ((w / 256) % 16) as usize;
    let y: usize = ((w / 16) % 16) as usize;
    let d: u16 = w % 16;
    let nnn: u16 = w % 4096;
    let nn: u8 = (w % 256) as u8;
    let low: u16 = w % 256;
    if w == 0x0000 {
        Instr::Nop
    } else if w == 0x00E0 {
        Instr::Clear
    } else if w == 0x00EE {
        Instr::Ret
    } else if a == 0x1 {
        Instr::Jump(nnn)
    } else if a == 0x2 {
        Instr::Call(nnn)
    } else if a == 0x3 {
        Instr::SkipEqImm(x, nn)
    } else if a == 0x4 {
        Instr::SkipNeImm(x, nn)
    } else if a == 0x5 && d == 0x0 {
        Instr::SkipEqReg(x, y)
    } else if a == 0x6 {
        Instr::LoadImm(x, nn)
    } else if a == 0x7 {
        Instr::AddImm(x, nn)
    } else if a == 0x8 && d == 0x0 {
        Instr::MoveReg(x, y)
    } else if a == 0x8 && d == 0x1 {
        Instr::OrReg(x, y)
    } else if a == 0x8 && d == 0x2 {
        Instr::AndReg(x, y)
    } else if a == 0x8 && d == 0x3 {
        Instr::XorReg(x, y)
    } else if a == 0x8 && d == 0x4 {
        Instr::AddReg(x, y)
    } else if a == 0x8 && d == 0x5 {
        Instr::SubReg(x, y)
    } else if a == 0x8 && d == 0x6 {
        Instr::ShrReg(x, y)
    } else if a == 0x8 && d == 0x7 {
        Instr::SubnReg(x, y)
    } else if a == 0x8 && d == 0xE {
        Instr::ShlReg(x, y)
    } else if a == 0x9 && d == 0x0 {
        Instr::SkipNeReg(x, y)
    } else if a == 0xA {
        Instr::SetIndex(nnn)
    } else if a == 0xB {
        Instr::JumpOffset(nnn)
    } else if a == 0xC {
        Instr::RandomMask(x, nn)
    } else if a == 0xD {
        Instr::Draw(x, y, d)
    } else if a == 0xE && low == 0x9E {
        Instr::SkipKey(x)
    } else if a == 0xE && low == 0xA1 {
        Instr::SkipNoKey(x)
    } else if a == 0xF && low == 0x07 {
        Instr::GetDelay(x)
    } else if a == 0xF && low == 0x0A {
        Instr::WaitKey(x)
    } else if a == 0xF && low == 0x15 {
        Instr::SetDelay(x)
    } else if a == 0xF && low == 0x18 {
        Instr::SetSound(x)
    } else if a == 0xF && low == 0x1E {
        Instr::AddIndex(x)
    } else if a == 0xF && low == 0x29 {
        Instr::FontIndex(x)
    } else if a == 0xF && low == 0x33 {
        Instr::StoreBcd(x)
    } else if a == 0xF && low == 0x55 {
        Instr::StoreRegs(x)
    } else if a == 0xF && low == 0x65 {
        Instr::LoadRegs(x)
    } else {
        Instr::Unknown(w)
    }
}

} // verus!
