use vstd::prelude::*;
use vstd::pervasive::VecAdditionalExecFns;
use vstd::slice::slice_to_vec;

use rand::RngCore;

use crate::error::Chip8Error;
use crate::instr::Instr;
use crate::instr::decode;
use crate::instr::instr_fields_in_range;
use crate::state::DISPLAY_HEIGHT;
use crate::state::DISPLAY_SIZE;
use crate::state::DISPLAY_WIDTH;
use crate::state::FONT_BYTES;
use crate::state::MAX_PROGRAM_LEN;
use crate::state::MEM_SIZE;
use crate::state::MState;
use crate::state::NUM_KEYS;
use crate::state::NUM_REGS;
use crate::state::RESET_VECTOR;
use crate::state::STACK_SIZE;
use crate::state::RunOutcome;
use crate::state::run_reaches;
use crate::state::spec_draw;
use crate::state::spec_draw_row;
use crate::state::spec_exec_instr;
use crate::state::spec_fetch;
use crate::state::spec_font;
use crate::state::spec_load_regs;
use crate::state::spec_new;
use crate::state::spec_reset;
use crate::state::spec_reset_mem;
use crate::state::spec_run;
use crate::state::spec_step;
use crate::state::spec_store_regs;
use crate::state::spec_tick;
use crate::state::state_wf;
use crate::state::lemma_run_pad_blocked;
use crate::state::lemma_run_pad_err;
use crate::state::lemma_run_step_ok;
use crate::state::lemma_wait_blocks_run;

verus! {

/// One machine instance: all state of the emulated computer.
///
/// The abstract value of a machine is an `MState` (its view); every
/// operation's contract is stated against that view. Besides the host
/// entry points (`step`, `tick_60hz`, `set_key_state`, `pixels`, `reset`),
/// the machine exposes exact accessors and mutators for each component, so
/// that hosts, debuggers and tests can inspect and prepare state.
pub struct Chip8 {
    memory: Vec<u8>,
    stack: Vec<usize>,
    program: Vec<u8>,
    display: Vec<u8>,
    keys: Vec<u8>,
    reg: Vec<u8>,
    i: u16,
    sp: usize,
    pc: usize,
    delay_timer: u8,
    sound_timer: u8,
    waiting_for_key: Option<u8>,
}

impl View for Chip8 {
    type V = MState;

    closed spec fn view(&self) -> MState {
        MState {
            mem: self.memory@,
            stack: self.stack@,
            display: self.display@,
            keys: self.keys@,
            reg: self.reg@,
            i: self.i as int,
            sp: self.sp as int,
            pc: self.pc as int,
            delay: self.delay_timer,
            sound: self.sound_timer,
            wait: self.waiting_for_key,
            program: self.program@,
        }
    }
}

/// A vector of `n` copies of `v`.
fn filled<T: Copy>(n: usize, v: T) -> (r: Vec<T>)
    ensures
        r@ == Seq::new(n as nat, |k: int| v),
{
    let mut out: Vec<T> = Vec::new();
    let mut k: usize = 0;
    while k < n
        invariant
            k == out@.len(),
            k <= n,
            forall|j: int| 0 <= j < k ==> out@[j] == v,
        decreases n - k,
    {
        out.push(v);
        k += 1;
    }
    proof {
        assert(out@ =~= Seq::new(n as nat, |k: int| v));
    }
    out
}

/// Copy the program image into memory starting at the reset vector.
fn write_program(mem: &mut Vec<u8>, program: &Vec<u8>)
    requires
        old(mem)@.len() == MEM_SIZE,
        program@.len() <= MAX_PROGRAM_LEN,
    ensures
        final(mem)@ == Seq::new(MEM_SIZE as nat, |a: int|
            if RESET_VECTOR <= a < RESET_VECTOR + program@.len() {
                program@[a - RESET_VECTOR]
            } else {
                old(mem)@[a]
            }),
{
    let mut k: usize = 0;
    while k < program.len()
        invariant
            mem@.len() == MEM_SIZE,
            program@.len() <= MAX_PROGRAM_LEN,
            k <= program@.len(),
            forall|a: int| RESET_VECTOR <= a < RESET_VECTOR + k ==> mem@[a] == program@[a - RESET_VECTOR],
            forall|a: int| 0 <= a < MEM_SIZE && !(RESET_VECTOR <= a < RESET_VECTOR + k) ==> mem@[a] == old(mem)@[a],
        decreases program@.len() - k,
    {
        let b: u8 = program[k];
        mem.set(RESET_VECTOR + k, b);
        k += 1;
    }
    proof {
        assert(mem@ =~= Seq::new(MEM_SIZE as nat, |a: int|
            if RESET_VECTOR <= a < RESET_VECTOR + program@.len() {
                program@[a - RESET_VECTOR]
            } else {
                old(mem)@[a]
            }));
    }
}

/// Write the built-in glyph table to the bottom of memory.
fn write_font(mem: &mut Vec<u8>)
    requires
        old(mem)@.len() == MEM_SIZE,
    ensures
        final(mem)@ == Seq::new(MEM_SIZE as nat, |a: int|
            if a < FONT_BYTES {
                spec_font()[a]
            } else {
                old(mem)@[a]
            }),
{
    let font: [u8; 80] = [
        0xF0, 0x90, 0x90, 0x90, 0xF0, // 0
        0x20, 0x60, 0x20, 0x20, 0x70, // 1
        0xF0, 0x10, 0xF0, 0x80, 0xF0, // 2
        0xF0, 0x10, 0xF0, 0x10, 0xF0, // 3
        0x90, 0x90, 0xF0, 0x10, 0x10, // 4
        0xF0, 0x80, 0xF0, 0x10, 0xF0, // 5
        0xF0, 0x80, 0xF0, 0x90, 0xF0, // 6
        0xF0, 0x10, 0x20, 0x40, 0x40, // 7
        0xF0, 0x90, 0xF0, 0x90, 0xF0, // 8
        0xF0, 0x90, 0xF0, 0x10, 0xF0, // 9
        0xF0, 0x90, 0xF0, 0x90, 0x90, // A
        0xE0, 0x90, 0xE0, 0x90, 0xE0, // B
        0xF0, 0x80, 0x80, 0x80, 0xF0, // C
        0xE0, 0x90, 0x90, 0x90, 0xE0, // D
        0xF0, 0x80, 0xF0, 0x80, 0xF0, // E
        0xF0, 0x80, 0xF0, 0x80, 0x80, // F
    ];
    proof {
        assert(font@ =~= spec_font());
    }
    let mut k: usize = 0;
    while k < FONT_BYTES
        invariant
            mem@.len() == MEM_SIZE,
            k <= FONT_BYTES,
            font@ == spec_font(),
            forall|a: int| 0 <= a < k ==> mem@[a] == spec_font()[a],
            forall|a: int| k <= a < MEM_SIZE ==> mem@[a] == old(mem)@[a],
        decreases FONT_BYTES - k,
    {
        let b: u8 = font[k];
        mem.set(k, b);
        k += 1;
    }
    proof {
        assert(mem@ =~= Seq::new(MEM_SIZE as nat, |a: int|
            if a < FONT_BYTES {
                spec_font()[a]
            } else {
                old(mem)@[a]
            }));
    }
}

/// Relies on rand::thread_rng and rand::RngCore::next_u32: a freshly drawn
/// random value. Nothing is promised of the result.
#[verifier::external_body]
fn random_byte() -> (r: u8) {
    (rand::thread_rng().next_u32() % 256) as u8
}

/// XOR-blit one sprite of `rows` 8-pixel rows, read from `mem` at `i`, onto
/// the display with origin `(ox, oy)`; coordinates wrap. Returns the
/// collision flag: whether some pixel that was on went off.
fn draw_sprite(mem: &Vec<u8>, display: &mut Vec<u8>, i: usize, ox: u8, oy: u8, rows: u8) -> (coll:
    bool)
    requires
        mem@.len() == MEM_SIZE,
        old(display)@.len() == DISPLAY_SIZE,
        rows == 0 || i + rows <= MEM_SIZE,
    ensures
        final(display)@.len() == DISPLAY_SIZE,
        ({
            let blit = spec_draw(old(display)@, mem@, i as int, ox as int, oy as int, rows as int);
            final(display)@ == blit.0 && coll == blit.1
        }),
{
    let ghost d0 = display@;
    let mut collision: bool = false;
    let mut yy: usize = 0;
    while yy < rows as usize
        invariant
            mem@.len() == MEM_SIZE,
            display@.len() == DISPLAY_SIZE,
            yy <= rows as int,
            rows == 0 || i + rows <= MEM_SIZE,
            d0 == old(display)@,
            ({
                let blit = spec_draw(d0, mem@, i as int, ox as int, oy as int, yy as int);
                display@ == blit.0 && collision == blit.1
            }),
        decreases rows - yy,
    {
        let line: u8 = mem[i + yy];
        let sy: usize = (oy as usize + yy) % DISPLAY_HEIGHT;
        let ghost drow = display@;
        let mut row_coll: bool = false;
        let mut xx: usize = 0;
        while xx < 8
            invariant
                display@.len() == DISPLAY_SIZE,
                xx <= 8,
                sy < DISPLAY_HEIGHT,
                ({
                    let rowb = spec_draw_row(drow, line, ox as int, sy as int, xx as int);
                    display@ == rowb.0 && row_coll == rowb.1
                }),
            decreases 8 - xx,
        {
            let sx: usize = (ox as usize + xx) % DISPLAY_WIDTH;
            let shift: u8 = 7 - (xx as u8);
            let px: u8 = if (line >> shift) & 1 == 1 { 255 } else { 0 };
            let idx: usize = sy * DISPLAY_WIDTH + sx;
            let prev: u8 = display[idx];
            display.set(idx, px ^ prev);
            row_coll = row_coll || (px != 0 && prev != 0);
            xx += 1;
        }
        collision = collision || row_coll;
        yy += 1;
        proof {
            let blit = spec_draw(d0, mem@, i as int, ox as int, oy as int, yy as int);
            assert(display@ == blit.0 && collision == blit.1);
        }
    }
    collision
}

/// Store `reg[0..=x]` to memory at addresses `[i, i + x]`.
fn store_regs(mem: &mut Vec<u8>, reg: &Vec<u8>, i: usize, x: u8)
    requires
        old(mem)@.len() == MEM_SIZE,
        reg@.len() == NUM_REGS,
        x < 16,
        i + x + 1 <= MEM_SIZE,
    ensures
        final(mem)@ == spec_store_regs(old(mem)@, reg@, i as int, x as int),
{
    let mut k: usize = 0;
    while k < x as usize + 1
        invariant
            mem@.len() == MEM_SIZE,
            reg@.len() == NUM_REGS,
            x < 16,
            k <= x + 1,
            i + x + 1 <= MEM_SIZE,
            forall|a: int| i <= a < i + k ==> mem@[a] == reg@[a - i],
            forall|a: int| 0 <= a < MEM_SIZE && !(i <= a < i + k) ==> mem@[a] == old(mem)@[a],
        decreases x + 1 - k,
    {
        let b: u8 = reg[k];
        mem.set(i + k, b);
        k += 1;
    }
    proof {
        assert(mem@ =~= spec_store_regs(old(mem)@, reg@, i as int, x as int));
    }
}

/// Load `reg[0..=x]` from memory at addresses `[i, i + x]`.
fn load_regs(mem: &Vec<u8>, reg: &mut Vec<u8>, i: usize, x: u8)
    requires
        mem@.len() == MEM_SIZE,
        old(reg)@.len() == NUM_REGS,
        x < 16,
        i + x + 1 <= MEM_SIZE,
    ensures
        final(reg)@ == spec_load_regs(mem@, old(reg)@, i as int, x as int),
{
    let mut k: usize = 0;
    while k < x as usize + 1
        invariant
            mem@.len() == MEM_SIZE,
            reg@.len() == NUM_REGS,
            x < 16,
            k <= x + 1,
            i + x + 1 <= MEM_SIZE,
            forall|j: int| 0 <= j < k ==> reg@[j] == mem@[i + j],
            forall|j: int| k <= j < NUM_REGS ==> reg@[j] == old(reg)@[j],
        decreases x + 1 - k,
    {
        let b: u8 = mem[i + k];
        reg.set(k, b);
        k += 1;
    }
    proof {
        assert(reg@ =~= spec_load_regs(mem@, old(reg)@, i as int, x as int));
    }
}

impl Chip8 {
    /// The machine's structural invariant, stated on its abstract state.
    pub open spec fn wf(&self) -> bool {
        state_wf(self@)
    }

    /// Build a machine holding `program`, loaded at the reset vector, with
    /// everything else at its power-on default. Fails if the image does not
    /// fit between the reset vector and the end of memory.
    pub fn new(program: &[u8]) -> (r: Result<Chip8, Chip8Error>)
        ensures
            program@.len() <= MAX_PROGRAM_LEN ==> (r matches Ok(c) && c.wf() && c@ == spec_new(
                program@,
            )),
            program@.len() > MAX_PROGRAM_LEN ==> r == Err::<Chip8, Chip8Error>(
                Chip8Error::ProgramTooLarge,
            ),
    {
        if program.len() > MAX_PROGRAM_LEN {
            return Err(Chip8Error::ProgramTooLarge);
        }
        let mut c8 = Chip8 {
            memory: filled(MEM_SIZE, 0u8),
            stack: filled(STACK_SIZE, 0usize),
            program: slice_to_vec(program),
            display: filled(DISPLAY_SIZE, 0u8),
            keys: filled(NUM_KEYS, 0u8),
            reg: filled(NUM_REGS, 0u8),
            i: 0,
            sp: 0,
            pc: 0,
            delay_timer: 0,
            sound_timer: 0,
            waiting_for_key: None,
        };
        c8.reset();
        proof {
            assert(c8@ =~= spec_new(program@));
        }
        Ok(c8)
    }

    /// Reinitialize the registers, stack pointer, program counter, keypad
    /// and wait state, and rewrite the glyph-table and program regions of
    /// memory. The index register, timers, display and stack slots are
    /// deliberately left as they were.
    pub fn reset(&mut self)
        requires
            old(self).wf(),
        ensures
            final(self).wf(),
            final(self)@ == spec_reset(old(self)@),
    {
        self.pc = RESET_VECTOR;
        self.reg = filled(NUM_REGS, 0u8);
        self.sp = 0;
        self.keys = filled(NUM_KEYS, 0u8);
        self.waiting_for_key = None;
        write_program(&mut self.memory, &self.program);
        write_font(&mut self.memory);
        proof {
            assert(self@.mem =~= spec_reset_mem(old(self)@.mem, old(self)@.program));
            assert(self@ =~= spec_reset(old(self)@));
        }
    }

    /// Advance both countdown timers by one external clock tick: each
    /// decrements by one with 8-bit wraparound.
    pub fn tick_60hz(&mut self)
        requires
            old(self).wf(),
        ensures
            final(self).wf(),
            final(self)@ == (MState {
                delay: spec_tick(old(self)@.delay),
                sound: spec_tick(old(self)@.sound),
                ..old(self)@
            }),
    {
        self.delay_timer = if self.delay_timer == 0 { 255 } else { self.delay_timer - 1 };
        self.sound_timer = if self.sound_timer == 0 { 255 } else { self.sound_timer - 1 };
    }

    /// Record a key press or release. A key index of 16 or more is rejected
    /// with `InvalidKey` and the machine is left untouched. Otherwise the
    /// key's state is updated and, if a wait-for-key capture is pending on
    /// exactly that key index, the wait is cleared so execution can resume.
    pub fn set_key_state(&mut self, key: u8, pressed: bool) -> (r: Result<(), Chip8Error>)
        requires
            old(self).wf(),
        ensures
            final(self).wf(),
            key >= NUM_KEYS ==> r == Err::<(), Chip8Error>(Chip8Error::InvalidKey) && final(self)@
                == old(self)@,
            key < NUM_KEYS ==> r == Ok::<(), Chip8Error>(()) && final(self)@ == (MState {
                keys: old(self)@.keys.update(key as int, if pressed { 255u8 } else { 0u8 }),
                wait: if old(self)@.wait == Some(key) { None } else { old(self)@.wait },
                ..old(self)@
            }),
    {
        if key as usize >= NUM_KEYS {
            return Err(Chip8Error::InvalidKey);
        }
        match self.waiting_for_key {
            Some(k) => {
                if k == key {
                    self.waiting_for_key = None;
                }
            },
            None => {},
        }
        self.keys.set(key as usize, if pressed { 255 } else { 0 });
        Ok(())
    }

    /// A read-only view of the framebuffer: 64x32 bytes, row-major, each 0
    /// (off) or 255 (on).
    pub fn pixels(&self) -> (r: &[u8])
        ensures
            r@ == self@.display,
    {
        self.display.as_slice()
    }

    /// The program counter.
    pub fn pc(&self) -> (r: usize)
        ensures
            r == self@.pc,
    {
        self.pc
    }

    /// The stack pointer.
    pub fn sp(&self) -> (r: usize)
        ensures
            r == self@.sp,
    {
        self.sp
    }

    /// The index register.
    pub fn index_reg(&self) -> (r: u16)
        ensures
            r == self@.i,
    {
        self.i
    }

    /// General-purpose register `x`.
    pub fn reg(&self, x: usize) -> (r: u8)
        requires
            self.wf(),
            x < NUM_REGS,
        ensures
            r == self@.reg[x as int],
    {
        self.reg[x]
    }

    /// The return address in stack slot `k`.
    pub fn stack_at(&self, k: usize) -> (r: usize)
        requires
            self.wf(),
            k < STACK_SIZE,
        ensures
            r == self@.stack[k as int],
    {
        self.stack[k]
    }

    /// The memory byte at address `addr`.
    pub fn read_mem(&self, addr: usize) -> (r: u8)
        requires
            self.wf(),
            addr < MEM_SIZE,
        ensures
            r == self@.mem[addr as int],
    {
        self.memory[addr]
    }

    /// The framebuffer byte at row-major offset `k`.
    pub fn display_at(&self, k: usize) -> (r: u8)
        requires
            self.wf(),
            k < DISPLAY_SIZE,
        ensures
            r == self@.display[k as int],
    {
        self.display[k]
    }

    /// The press state of key `k` (0 released, 255 pressed).
    pub fn key(&self, k: usize) -> (r: u8)
        requires
            self.wf(),
            k < NUM_KEYS,
        ensures
            r == self@.keys[k as int],
    {
        self.keys[k]
    }

    /// The delay timer.
    pub fn delay_timer(&self) -> (r: u8)
        ensures
            r == self@.delay,
    {
        self.delay_timer
    }

    /// The sound timer.
    pub fn sound_timer(&self) -> (r: u8)
        ensures
            r == self@.sound,
    {
        self.sound_timer
    }

    /// The pending wait-for-key capture, if any.
    pub fn waiting_for_key(&self) -> (r: Option<u8>)
        ensures
            r == self@.wait,
    {
        self.waiting_for_key
    }

    /// Set the program counter.
    pub fn set_pc(&mut self, pc: usize)
        requires
            old(self).wf(),
        ensures
            final(self).wf(),
            final(self)@ == (MState { pc: pc as int, ..old(self)@ }),
    {
        self.pc = pc;
    }

    /// Set general-purpose register `x`.
    pub fn set_reg(&mut self, x: usize, v: u8)
        requires
            old(self).wf(),
            x < NUM_REGS,
        ensures
            final(self).wf(),
            final(self)@ == (MState { reg: old(self)@.reg.update(x as int, v), ..old(self)@ }),
    {
        self.reg.set(x, v);
    }

    /// Set the index register.
    pub fn set_index_reg(&mut self, i: u16)
        requires
            old(self).wf(),
        ensures
            final(self).wf(),
            final(self)@ == (MState { i: i as int, ..old(self)@ }),
    {
        self.i = i;
    }

    /// Write one memory byte.
    pub fn write_mem(&mut self, addr: usize, v: u8)
        requires
            old(self).wf(),
            addr < MEM_SIZE,
        ensures
            final(self).wf(),
            final(self)@ == (MState { mem: old(self)@.mem.update(addr as int, v), ..old(self)@ }),
    {
        self.memory.set(addr, v);
    }

    /// Fill every framebuffer pixel with the same byte.
    pub fn fill_display(&mut self, v: u8)
        requires
            old(self).wf(),
        ensures
            final(self).wf(),
            final(self)@ == (MState {
                display: Seq::new(DISPLAY_SIZE as nat, |k: int| v),
                ..old(self)@
            }),
    {
        self.display = filled(DISPLAY_SIZE, v);
    }

    /// Execute exactly one instruction, unconditionally, with `rnd` as the
    /// random byte for this step: fetch at the program counter, decode,
    /// execute, exactly as `spec_step` describes. On an error the machine is
    /// left exactly as it was.
    pub fn step_one(&mut self, rnd: u8) -> (r: Result<(), Chip8Error>)
        requires
            old(self).wf(),
        ensures
            final(self).wf(),
            match r {
                Ok(()) => spec_step(old(self)@, rnd) == Ok::<MState, Chip8Error>(final(self)@),
                Err(e) => spec_step(old(self)@, rnd) == Err::<MState, Chip8Error>(e)
                    && final(self)@ == old(self)@,
            },
    {
        let ghost s0 = self@;
        if self.pc >= MEM_SIZE - 1 {
            return Err(Chip8Error::OutOfRangeAccess);
        }
        let hi: u8 = self.memory[self.pc];
        let lo: u8 = self.memory[self.pc + 1];
        let w: u16 = (hi as u16) * 256 + (lo as u16);
        proof {
            assert(w == spec_fetch(s0));
        }
        let ins: Instr = match decode(w) {
            None => {
                return Err(Chip8Error::UnimplementedInstruction(w));
            },
            Some(ins) => ins,
        };
        self.exec_instr(ins, rnd)
    }

    /// Execute one already decoded instruction, with `rnd` as the random
    /// byte for this step, exactly as `spec_exec_instr` describes. On an
    /// error the machine is left exactly as it was.
    fn exec_instr(&mut self, ins: Instr, rnd: u8) -> (r: Result<(), Chip8Error>)
        requires
            old(self).wf(),
            instr_fields_in_range(ins),
            old(self)@.pc + 1 < MEM_SIZE,
        ensures
            final(self).wf(),
            match r {
                Ok(()) => spec_exec_instr(old(self)@, ins, rnd) == Ok::<MState, Chip8Error>(
                    final(self)@,
                ),
                Err(e) => spec_exec_instr(old(self)@, ins, rnd) == Err::<MState, Chip8Error>(e)
                    && final(self)@ == old(self)@,
            },
    {
        let ghost s0 = self@;
        proof {
            reveal(spec_exec_instr);
        }
        match ins {
            Instr::ClearDisplay => {
                self.display = filled(DISPLAY_SIZE, 0u8);
                self.pc = self.pc + 2;
                proof {
                    assert(spec_exec_instr(s0, ins, rnd) == Ok::<MState, Chip8Error>(self@));
                }
            },
            Instr::Return => {
                if self.sp == 0 {
                    return Err(Chip8Error::StackUnderflow);
                }
                self.sp = self.sp - 1;
                self.pc = self.stack[self.sp];
                proof {
                    assert(spec_exec_instr(s0, ins, rnd) == Ok::<MState, Chip8Error>(self@));
                }
            },
            Instr::Jump(a) => {
                self.pc = a as usize;
                proof {
                    assert(spec_exec_instr(s0, ins, rnd) == Ok::<MState, Chip8Error>(self@));
                }
            },
            Instr::Call(a) => {
                if self.sp >= STACK_SIZE {
                    return Err(Chip8Error::StackOverflow);
                }
                self.stack.set(self.sp, self.pc + 2);
                self.sp = self.sp + 1;
                self.pc = a as usize;
                proof {
                    assert(spec_exec_instr(s0, ins, rnd) == Ok::<MState, Chip8Error>(self@));
                }
            },
            Instr::SkipEqImm(x, kk) => {
                let cond: bool = self.reg[x as usize] == kk;
                self.pc = self.pc + (if cond { 4 } else { 2 });
                proof {
                    assert(spec_exec_instr(s0, ins, rnd) == Ok::<MState, Chip8Error>(self@));
                }
            },
            Instr::SkipNeImm(x, kk) => {
                let cond: bool = self.reg[x as usize] != kk;
                self.pc = self.pc + (if cond { 4 } else { 2 });
                proof {
                    assert(spec_exec_instr(s0, ins, rnd) == Ok::<MState, Chip8Error>(self@));
                }
            },
            Instr::SkipEqReg(x, y) => {
                let cond: bool = self.reg[x as usize] == self.reg[y as usize];
                self.pc = self.pc + (if cond { 4 } else { 2 });
                proof {
                    assert(spec_exec_instr(s0, ins, rnd) == Ok::<MState, Chip8Error>(self@));
                }
            },
            Instr::LoadImm(x, kk) => {
                self.reg.set(x as usize, kk);
                self.pc = self.pc + 2;
                proof {
                    assert(spec_exec_instr(s0, ins, rnd) == Ok::<MState, Chip8Error>(self@));
                }
            },
            Instr::AddImm(x, kk) => {
                let sum: u16 = self.reg[x as usize] as u16 + kk as u16;
                self.reg.set(x as usize, (sum % 256) as u8);
                self.pc = self.pc + 2;
                proof {
                    assert(spec_exec_instr(s0, ins, rnd) == Ok::<MState, Chip8Error>(self@));
                }
            },
            Instr::Move(x, y) => {
                let v: u8 = self.reg[y as usize];
                self.reg.set(x as usize, v);
                self.pc = self.pc + 2;
                proof {
                    assert(spec_exec_instr(s0, ins, rnd) == Ok::<MState, Chip8Error>(self@));
                }
            },
            Instr::Or(x, y) => {
                let v: u8 = self.reg[x as usize] | self.reg[y as usize];
                self.reg.set(x as usize, v);
                self.pc = self.pc + 2;
                proof {
                    assert(spec_exec_instr(s0, ins, rnd) == Ok::<MState, Chip8Error>(self@));
                }
            },
            Instr::And(x, y) => {
                let v: u8 = self.reg[x as usize] & self.reg[y as usize];
                self.reg.set(x as usize, v);
                self.pc = self.pc + 2;
                proof {
                    assert(spec_exec_instr(s0, ins, rnd) == Ok::<MState, Chip8Error>(self@));
                }
            },
            Instr::Xor(x, y) => {
                let v: u8 = self.reg[x as usize] ^ self.reg[y as usize];
                self.reg.set(x as usize, v);
                self.pc = self.pc + 2;
                proof {
                    assert(spec_exec_instr(s0, ins, rnd) == Ok::<MState, Chip8Error>(self@));
                }
            },
            Instr::Add(x, y) => {
                let sum: u16 = self.reg[x as usize] as u16 + self.reg[y as usize] as u16;
                let carry: u8 = if sum > 255 { 1 } else { 0 };
                self.reg.set(15, carry);
                self.reg.set(x as usize, (sum % 256) as u8);
                self.pc = self.pc + 2;
                proof {
                    assert(spec_exec_instr(s0, ins, rnd) == Ok::<MState, Chip8Error>(self@));
                }
            },
            Instr::Sub(x, y) => {
                let rx: u8 = self.reg[x as usize];
                let ry: u8 = self.reg[y as usize];
                let borrow: u8 = if ry > rx { 1 } else { 0 };
                let diff: u16 = rx as u16 + 256 - ry as u16;
                self.reg.set(15, borrow);
                self.reg.set(x as usize, (diff % 256) as u8);
                self.pc = self.pc + 2;
                proof {
                    assert(spec_exec_instr(s0, ins, rnd) == Ok::<MState, Chip8Error>(self@));
                }
            },
            Instr::ShiftRight(x, _y) => {
                let rx: u8 = self.reg[x as usize];
                self.reg.set(15, rx % 2);
                self.reg.set(x as usize, rx / 2);
                self.pc = self.pc + 2;
                proof {
                    assert(spec_exec_instr(s0, ins, rnd) == Ok::<MState, Chip8Error>(self@));
                }
            },
            Instr::SubNeg(x, y) => {
                let rx: u8 = self.reg[x as usize];
                let ry: u8 = self.reg[y as usize];
                let borrow: u8 = if rx > ry { 1 } else { 0 };
                let diff: u16 = ry as u16 + 256 - rx as u16;
                self.reg.set(15, borrow);
                self.reg.set(x as usize, (diff % 256) as u8);
                self.pc = self.pc + 2;
                proof {
                    assert(spec_exec_instr(s0, ins, rnd) == Ok::<MState, Chip8Error>(self@));
                }
            },
            Instr::ShiftLeft(x, _y) => {
                let rx: u8 = self.reg[x as usize];
                let high: u8 = if rx >= 128 { 1 } else { 0 };
                let doubled: u16 = rx as u16 * 2;
                self.reg.set(15, high);
                self.reg.set(x as usize, (doubled % 256) as u8);
                self.pc = self.pc + 2;
                proof {
                    assert(spec_exec_instr(s0, ins, rnd) == Ok::<MState, Chip8Error>(self@));
                }
            },
            Instr::SkipNeReg(x, y) => {
                let cond: bool = self.reg[x as usize] != self.reg[y as usize];
                self.pc = self.pc + (if cond { 4 } else { 2 });
                proof {
                    assert(spec_exec_instr(s0, ins, rnd) == Ok::<MState, Chip8Error>(self@));
                }
            },
            Instr::LoadIndex(a) => {
                self.i = a;
                self.pc = self.pc + 2;
                proof {
                    assert(spec_exec_instr(s0, ins, rnd) == Ok::<MState, Chip8Error>(self@));
                }
            },
            Instr::JumpPlus(a) => {
                self.pc = a as usize + self.reg[0] as usize;
                proof {
                    assert(spec_exec_instr(s0, ins, rnd) == Ok::<MState, Chip8Error>(self@));
                }
            },
            Instr::Random(x, kk) => {
                self.reg.set(x as usize, rnd & kk);
                self.pc = self.pc + 2;
                proof {
                    assert(spec_exec_instr(s0, ins, rnd) == Ok::<MState, Chip8Error>(self@));
                }
            },
            Instr::Draw(x, y, n) => {
                if n > 0 && self.i as usize + n as usize > MEM_SIZE {
                    return Err(Chip8Error::OutOfRangeAccess);
                }
                let ox: u8 = self.reg[x as usize];
                let oy: u8 = self.reg[y as usize];
                let coll: bool = draw_sprite(
                    &self.memory,
                    &mut self.display,
                    self.i as usize,
                    ox,
                    oy,
                    n,
                );
                self.reg.set(15, if coll { 1 } else { 0 });
                self.pc = self.pc + 2;
                proof {
                    assert(spec_exec_instr(s0, ins, rnd) == Ok::<MState, Chip8Error>(self@));
                }
            },
            Instr::SkipKeyPressed(x) => {
                let kx: u8 = self.reg[x as usize];
                if kx as usize >= NUM_KEYS {
                    return Err(Chip8Error::OutOfRangeAccess);
                }
                let cond: bool = self.keys[kx as usize] != 0;
                self.pc = self.pc + (if cond { 4 } else { 2 });
                proof {
                    assert(spec_exec_instr(s0, ins, rnd) == Ok::<MState, Chip8Error>(self@));
                }
            },
            Instr::SkipKeyNotPressed(x) => {
                let kx: u8 = self.reg[x as usize];
                if kx as usize >= NUM_KEYS {
                    return Err(Chip8Error::OutOfRangeAccess);
                }
                let cond: bool = self.keys[kx as usize] == 0;
                self.pc = self.pc + (if cond { 4 } else { 2 });
                proof {
                    assert(spec_exec_instr(s0, ins, rnd) == Ok::<MState, Chip8Error>(self@));
                }
            },
            Instr::ReadDelay(x) => {
                let v: u8 = self.delay_timer;
                self.reg.set(x as usize, v);
                self.pc = self.pc + 2;
                proof {
                    assert(spec_exec_instr(s0, ins, rnd) == Ok::<MState, Chip8Error>(self@));
                }
            },
            Instr::WaitKey(x) => {
                self.waiting_for_key = Some(x);
                self.pc = self.pc + 2;
                proof {
                    assert(spec_exec_instr(s0, ins, rnd) == Ok::<MState, Chip8Error>(self@));
                }
            },
            Instr::SetDelay(x) => {
                self.delay_timer = self.reg[x as usize];
                self.pc = self.pc + 2;
                proof {
                    assert(spec_exec_instr(s0, ins, rnd) == Ok::<MState, Chip8Error>(self@));
                }
            },
            Instr::SetSound(x) => {
                self.sound_timer = self.reg[x as usize];
                self.pc = self.pc + 2;
                proof {
                    assert(spec_exec_instr(s0, ins, rnd) == Ok::<MState, Chip8Error>(self@));
                }
            },
            Instr::AddIndex(x) => {
                let sum: u32 = self.i as u32 + self.reg[x as usize] as u32;
                self.i = (sum % 0x10000) as u16;
                self.pc = self.pc + 2;
                proof {
                    assert(spec_exec_instr(s0, ins, rnd) == Ok::<MState, Chip8Error>(self@));
                }
            },
            Instr::LoadGlyph(x) => {
                self.i = self.reg[x as usize] as u16 * 5;
                self.pc = self.pc + 2;
                proof {
                    assert(spec_exec_instr(s0, ins, rnd) == Ok::<MState, Chip8Error>(self@));
                }
            },
            Instr::StoreRegs(x) => {
                if self.i as usize + x as usize + 1 > MEM_SIZE {
                    return Err(Chip8Error::OutOfRangeAccess);
                }
                store_regs(&mut self.memory, &self.reg, self.i as usize, x);
                self.i = self.i + x as u16 + 1;
                self.pc = self.pc + 2;
                proof {
                    assert(spec_exec_instr(s0, ins, rnd) == Ok::<MState, Chip8Error>(self@));
                }
            },
            Instr::LoadRegs(x) => {
                if self.i as usize + x as usize + 1 > MEM_SIZE {
                    return Err(Chip8Error::OutOfRangeAccess);
                }
                load_regs(&self.memory, &mut self.reg, self.i as usize, x);
                self.i = self.i + x as u16 + 1;
                self.pc = self.pc + 2;
                proof {
                    assert(spec_exec_instr(s0, ins, rnd) == Ok::<MState, Chip8Error>(self@));
                }
            },
        }
        Ok(())
    }

    /// Execute up to `count` instructions. The run stops, without error and
    /// without carrying budget over, the moment a wait-for-key capture is
    /// pending; it stops at the first failing instruction with that
    /// instruction's error, keeping all progress made before it. The random
    /// bytes drawn along the way are existentially quantified: every outcome
    /// is one of `spec_run`.
    pub fn step(&mut self, count: usize) -> (r: Result<(), Chip8Error>)
        requires
            old(self).wf(),
        ensures
            final(self).wf(),
            (old(self)@.wait is Some) ==> r == Ok::<(), Chip8Error>(()) && final(self)@
                == old(self)@,
            (exists|rnds: Seq<u8>|
                #[trigger] run_reaches(old(self)@, rnds, count as nat, final(self)@, r)),
    {
        let ghost s0 = self@;
        let ghost mut trace: Seq<u8> = Seq::empty();
        let mut done: usize = 0;
        while done < count && self.waiting_for_key.is_none()
            invariant
                self.wf(),
                done <= count,
                trace.len() == done,
                spec_run(s0, trace, done as nat) == (RunOutcome { state: self@, err: None }),
                s0 == old(self)@,
            decreases count - done,
        {
            let rnd: u8 = random_byte();
            let ghost pre = self@;
            match self.step_one(rnd) {
                Ok(()) => {
                    proof {
                        lemma_run_step_ok(s0, trace, done as nat, pre, self@, rnd);
                        trace = trace.push(rnd);
                    }
                    done += 1;
                },
                Err(e) => {
                    proof {
                        lemma_run_pad_err(s0, trace, done as nat, count as nat, self@, rnd, e);
                    }
                    return Err(e);
                },
            }
        }
        proof {
            lemma_run_pad_blocked(s0, trace, done as nat, count as nat, self@);
            if s0.wait is Some {
                lemma_wait_blocks_run(s0, trace, done as nat);
            }
        }
        Ok(())
    }
}

} // verus!
