use vstd::prelude::*;

use crate::error::Chip8Error;
use crate::instr::Instr;
use crate::instr::spec_decode;

verus! {

/// Bytes of addressable memory.
pub const MEM_SIZE: usize = 4096;

/// Call-stack capacity, in return addresses.
pub const STACK_SIZE: usize = 16;

/// Number of general-purpose registers.
pub const NUM_REGS: usize = 16;

/// Number of keypad keys.
pub const NUM_KEYS: usize = 16;

/// Display width in pixels.
pub const DISPLAY_WIDTH: usize = 64;

/// Display height in pixels.
pub const DISPLAY_HEIGHT: usize = 32;

/// Display size in pixels (one byte per pixel, row-major).
pub const DISPLAY_SIZE: usize = DISPLAY_WIDTH * DISPLAY_HEIGHT;

/// Address at which the program image is loaded and execution starts.
pub const RESET_VECTOR: usize = 0x200;

/// Bytes of the built-in glyph table (16 glyphs, 5 bytes each).
pub const FONT_BYTES: usize = 80;

/// Largest program image that fits between the reset vector and the
/// end of memory.
pub const MAX_PROGRAM_LEN: usize = MEM_SIZE - RESET_VECTOR;

/// The abstract machine state: the mathematical value of a whole machine.
///
/// Contracts on the executable machine speak of this state. `pc`, `sp` and
/// `i` are unbounded integers here; the well-formedness predicate and the
/// transition function say where bounds are enforced.
#[verifier::ext_equal]
pub ghost struct MState {
    /// Flat byte-addressable memory.
    pub mem: Seq<u8>,
    /// Call stack slots; only the first `sp` hold live return addresses.
    pub stack: Seq<usize>,
    /// Framebuffer, row-major, one byte per pixel (0 off, 255 on).
    pub display: Seq<u8>,
    /// Key press states (0 released, 255 pressed).
    pub keys: Seq<u8>,
    /// General-purpose registers; register 15 doubles as the flag register.
    pub reg: Seq<u8>,
    /// The 16-bit index register.
    pub i: int,
    /// Stack pointer.
    pub sp: int,
    /// Program counter.
    pub pc: int,
    /// Delay timer.
    pub delay: u8,
    /// Sound timer.
    pub sound: u8,
    /// Pending wait-for-key capture: the target register index, if any.
    pub wait: Option<u8>,
    /// The program image the machine was built from.
    pub program: Seq<u8>,
}

/// Structural bounds every machine state satisfies between operations.
pub open spec fn state_wf(s: MState) -> bool {
    &&& s.mem.len() == MEM_SIZE
    &&& s.stack.len() == STACK_SIZE
    &&& s.display.len() == DISPLAY_SIZE
    &&& s.keys.len() == NUM_KEYS
    &&& s.reg.len() == NUM_REGS
    &&& 0 <= s.sp <= STACK_SIZE
    &&& 0 <= s.i < 0x10000
    &&& 0 <= s.pc
    &&& s.program.len() <= MAX_PROGRAM_LEN
}

/// The built-in glyph table: one 8-wide, 5-tall sprite per hex digit 0-F,
/// written to addresses [0, 80) on every reset.
pub open spec fn spec_font() -> Seq<u8> {
    seq![
        0xF0u8, 0x90, 0x90, 0x90, 0xF0, // 0
        0x20, 0x60, 0x20, 0x20, 0x70, // 1
        0xF0, 0x10, 0xF0, 0x80, 0xF0, // 2
        0xF0, 0x10, 0xF0, 0x10, 0xF0, // 3
        0x90, 0x90, 0xF0, 0x10, 0x10, // 4
        0xF0, 0x80, 0xF0, 0x10, 0xF0, // 5
        0xF0, 0x80, 0xF0, 0x90, 0xF0, // 6
        0xF0, 0x10, 0x20, 0x40, 0x40, // 7
        0xF0, 0x90, 0xF0, 0x90, 0xF0, // 8
        0xF0, 0x90, 0xF0, 0x10, 0xF0, // 9
        0xF0, 0x90, 0xF0, 0x90, 0x90, // A
        0xE0, 0x90, 0xE0, 0x90, 0xE0, // B
        0xF0, 0x80, 0x80, 0x80, 0xF0, // C
        0xE0, 0x90, 0x90, 0x90, 0xE0, // D
        0xF0, 0x80, 0xF0, 0x80, 0xF0, // E
        0xF0, 0x80, 0xF0, 0x80, 0x80, // F
    ]
}

/// Memory after a reset: the glyph table at [0, 80), the program image at
/// [RESET_VECTOR, RESET_VECTOR + len), and every other byte as it was.
pub open spec fn spec_reset_mem(mem: Seq<u8>, program: Seq<u8>) -> Seq<u8> {
    Seq::new(MEM_SIZE as nat, |a: int|
        if a < FONT_BYTES {
            spec_font()[a]
        } else if RESET_VECTOR <= a < RESET_VECTOR + program.len() {
            program[a - RESET_VECTOR]
        } else {
            mem[a]
        })
}

/// The state after `reset`: program counter at the reset vector, registers,
/// stack pointer, keypad and wait state back to defaults, and the glyph and
/// program regions of memory rewritten. The index register, timers, display
/// and stack slots are deliberately left as they were.
pub open spec fn spec_reset(s: MState) -> MState {
    MState {
        pc: RESET_VECTOR as int,
        sp: 0,
        reg: Seq::new(NUM_REGS as nat, |k: int| 0u8),
        keys: Seq::new(NUM_KEYS as nat, |k: int| 0u8),
        wait: None,
        mem: spec_reset_mem(s.mem, s.program),
        ..s
    }
}

/// The state of a freshly constructed machine holding `program`.
pub open spec fn spec_new(program: Seq<u8>) -> MState {
    spec_reset(MState {
        mem: Seq::new(MEM_SIZE as nat, |a: int| 0u8),
        stack: Seq::new(STACK_SIZE as nat, |k: int| 0usize),
        display: Seq::new(DISPLAY_SIZE as nat, |k: int| 0u8),
        keys: Seq::new(NUM_KEYS as nat, |k: int| 0u8),
        reg: Seq::new(NUM_REGS as nat, |k: int| 0u8),
        i: 0,
        sp: 0,
        pc: 0,
        delay: 0,
        sound: 0,
        wait: None,
        program: program,
    })
}

/// A byte value truncated to 8 bits (the machine's wraparound arithmetic).
pub open spec fn wrap8(v: int) -> u8 {
    (v % 256) as u8
}

/// One tick of a countdown timer: decrement with 8-bit wraparound.
pub open spec fn spec_tick(t: u8) -> u8 {
    if t == 0 { 255u8 } else { (t - 1) as u8 }
}

/// The program counter after a conditional skip: past the next instruction
/// when the condition holds, past this one otherwise.
pub open spec fn skip_pc(pc: int, cond: bool) -> int {
    if cond { pc + 4 } else { pc + 2 }
}

/// The pixel value (0 or 255) of bit `dx` (leftmost is 0) of a sprite row.
pub open spec fn sprite_px(line: u8, dx: int) -> u8 {
    if (line >> ((7 - dx) as u8)) & 1 == 1 { 255u8 } else { 0u8 }
}

/// XOR-blit the leftmost `cols` pixels of sprite row `line` onto display
/// row `sy`, starting at origin column `ox`; each column wraps modulo the
/// display width. Returns the new display and whether any pixel that was on
/// went off.
pub open spec fn spec_draw_row(display: Seq<u8>, line: u8, ox: int, sy: int, cols: int) -> (Seq<u8>, bool)
    decreases cols,
{
    if cols <= 0 {
        (display, false)
    } else {
        let prior = spec_draw_row(display, line, ox, sy, cols - 1);
        let dx: int = cols - 1;
        let sx: int = (ox + dx) % (DISPLAY_WIDTH as int);
        let px: u8 = sprite_px(line, dx);
        let idx: int = sy * (DISPLAY_WIDTH as int) + sx;
        let prev: u8 = prior.0[idx];
        (prior.0.update(idx, px ^ prev), prior.1 || (px != 0 && prev != 0))
    }
}

/// XOR-blit a sprite of `rows` 8-pixel rows, read from memory at `i`, with
/// origin `(ox, oy)`; each row wraps modulo the display height. Returns the
/// new display and the collision flag for the whole draw.
pub open spec fn spec_draw(display: Seq<u8>, mem: Seq<u8>, i: int, ox: int, oy: int, rows: int) -> (Seq<u8>, bool)
    decreases rows,
{
    if rows <= 0 {
        (display, false)
    } else {
        let prior = spec_draw(display, mem, i, ox, oy, rows - 1);
        let dy: int = rows - 1;
        let sy: int = (oy + dy) % (DISPLAY_HEIGHT as int);
        let row = spec_draw_row(prior.0, mem[i + dy], ox, sy, 8);
        (row.0, prior.1 || row.1)
    }
}

/// Memory after storing `reg[0..=x]` at addresses `[i, i + x]`.
pub open spec fn spec_store_regs(mem: Seq<u8>, reg: Seq<u8>, i: int, x: int) -> Seq<u8> {
    Seq::new(MEM_SIZE as nat, |a: int|
        if i <= a <= i + x { reg[a - i] } else { mem[a] })
}

/// Registers after loading `reg[0..=x]` from addresses `[i, i + x]`.
pub open spec fn spec_load_regs(mem: Seq<u8>, reg: Seq<u8>, i: int, x: int) -> Seq<u8> {
    Seq::new(NUM_REGS as nat, |k: int|
        if k <= x { mem[i + k] } else { reg[k] })
}

/// The effect of one decoded instruction on the machine state, given the
/// random byte `rnd` drawn for this step (only `Random` reads it). An error
/// leaves the state exactly as it was.
#[verifier::opaque]
pub open spec fn spec_exec_instr(s: MState, ins: Instr, rnd: u8) -> Result<MState, Chip8Error> {
    match ins {
        Instr::ClearDisplay => Ok(MState {
            display: Seq::new(DISPLAY_SIZE as nat, |k: int| 0u8),
            pc: s.pc + 2,
            ..s
        }),
        Instr::Return => {
            if s.sp <= 0 {
                Err(Chip8Error::StackUnderflow)
            } else {
                Ok(MState { sp: s.sp - 1, pc: s.stack[s.sp - 1] as int, ..s })
            }
        },
        Instr::Jump(a) => Ok(MState { pc: a as int, ..s }),
        Instr::Call(a) => {
            if s.sp >= STACK_SIZE {
                Err(Chip8Error::StackOverflow)
            } else {
                Ok(MState {
                    stack: s.stack.update(s.sp, (s.pc + 2) as usize),
                    sp: s.sp + 1,
                    pc: a as int,
                    ..s
                })
            }
        },
        Instr::SkipEqImm(x, kk) => Ok(MState { pc: skip_pc(s.pc, s.reg[x as int] == kk), ..s }),
        Instr::SkipNeImm(x, kk) => Ok(MState { pc: skip_pc(s.pc, s.reg[x as int] != kk), ..s }),
        Instr::SkipEqReg(x, y) => Ok(MState {
            pc: skip_pc(s.pc, s.reg[x as int] == s.reg[y as int]),
            ..s
        }),
        Instr::LoadImm(x, kk) => Ok(MState { reg: s.reg.update(x as int, kk), pc: s.pc + 2, ..s }),
        Instr::AddImm(x, kk) => Ok(MState {
            reg: s.reg.update(x as int, wrap8(s.reg[x as int] + kk)),
            pc: s.pc + 2,
            ..s
        }),
        Instr::Move(x, y) => Ok(MState {
            reg: s.reg.update(x as int, s.reg[y as int]),
            pc: s.pc + 2,
            ..s
        }),
        Instr::Or(x, y) => Ok(MState {
            reg: s.reg.update(x as int, s.reg[x as int] | s.reg[y as int]),
            pc: s.pc + 2,
            ..s
        }),
        Instr::And(x, y) => Ok(MState {
            reg: s.reg.update(x as int, s.reg[x as int] & s.reg[y as int]),
            pc: s.pc + 2,
            ..s
        }),
        Instr::Xor(x, y) => Ok(MState {
            reg: s.reg.update(x as int, s.reg[x as int] ^ s.reg[y as int]),
            pc: s.pc + 2,
            ..s
        }),
        Instr::Add(x, y) => {
            let sum: int = s.reg[x as int] + s.reg[y as int];
            let carry: u8 = if sum > 255 { 1u8 } else { 0u8 };
            Ok(MState {
                reg: s.reg.update(15, carry).update(x as int, wrap8(sum)),
                pc: s.pc + 2,
                ..s
            })
        },
        Instr::Sub(x, y) => {
            let borrow: u8 = if s.reg[y as int] > s.reg[x as int] { 1u8 } else { 0u8 };
            Ok(MState {
                reg: s.reg.update(15, borrow).update(
                    x as int,
                    wrap8(s.reg[x as int] + 256 - s.reg[y as int]),
                ),
                pc: s.pc + 2,
                ..s
            })
        },
        Instr::ShiftRight(x, _y) => {
            let low: u8 = (s.reg[x as int] % 2) as u8;
            Ok(MState {
                reg: s.reg.update(15, low).update(x as int, (s.reg[x as int] / 2) as u8),
                pc: s.pc + 2,
                ..s
            })
        },
        Instr::SubNeg(x, y) => {
            let borrow: u8 = if s.reg[x as int] > s.reg[y as int] { 1u8 } else { 0u8 };
            Ok(MState {
                reg: s.reg.update(15, borrow).update(
                    x as int,
                    wrap8(s.reg[y as int] + 256 - s.reg[x as int]),
                ),
                pc: s.pc + 2,
                ..s
            })
        },
        Instr::ShiftLeft(x, _y) => {
            let high: u8 = if s.reg[x as int] >= 128 { 1u8 } else { 0u8 };
            Ok(MState {
                reg: s.reg.update(15, high).update(x as int, wrap8(s.reg[x as int] * 2)),
                pc: s.pc + 2,
                ..s
            })
        },
        Instr::SkipNeReg(x, y) => Ok(MState {
            pc: skip_pc(s.pc, s.reg[x as int] != s.reg[y as int]),
            ..s
        }),
        Instr::LoadIndex(a) => Ok(MState { i: a as int, pc: s.pc + 2, ..s }),
        Instr::JumpPlus(a) => Ok(MState { pc: a + s.reg[0], ..s }),
        Instr::Random(x, kk) => Ok(MState {
            reg: s.reg.update(x as int, rnd & kk),
            pc: s.pc + 2,
            ..s
        }),
        Instr::Draw(x, y, n) => {
            if n > 0 && s.i + n > MEM_SIZE {
                Err(Chip8Error::OutOfRangeAccess)
            } else {
                let blit = spec_draw(s.display, s.mem, s.i, s.reg[x as int] as int, s.reg[y as int] as int, n as int);
                Ok(MState {
                    display: blit.0,
                    reg: s.reg.update(15, if blit.1 { 1u8 } else { 0u8 }),
                    pc: s.pc + 2,
                    ..s
                })
            }
        },
        Instr::SkipKeyPressed(x) => {
            if s.reg[x as int] >= NUM_KEYS {
                Err(Chip8Error::OutOfRangeAccess)
            } else {
                Ok(MState {
                    pc: skip_pc(s.pc, s.keys[s.reg[x as int] as int] != 0),
                    ..s
                })
            }
        },
        Instr::SkipKeyNotPressed(x) => {
            if s.reg[x as int] >= NUM_KEYS {
                Err(Chip8Error::OutOfRangeAccess)
            } else {
                Ok(MState {
                    pc: skip_pc(s.pc, s.keys[s.reg[x as int] as int] == 0),
                    ..s
                })
            }
        },
        Instr::ReadDelay(x) => Ok(MState { reg: s.reg.update(x as int, s.delay), pc: s.pc + 2, ..s }),
        Instr::WaitKey(x) => Ok(MState { wait: Some(x), pc: s.pc + 2, ..s }),
        Instr::SetDelay(x) => Ok(MState { delay: s.reg[x as int], pc: s.pc + 2, ..s }),
        Instr::SetSound(x) => Ok(MState { sound: s.reg[x as int], pc: s.pc + 2, ..s }),
        Instr::AddIndex(x) => Ok(MState {
            i: (s.i + s.reg[x as int]) % 0x10000,
            pc: s.pc + 2,
            ..s
        }),
        Instr::LoadGlyph(x) => Ok(MState { i: s.reg[x as int] * 5, pc: s.pc + 2, ..s }),
        Instr::StoreRegs(x) => {
            if s.i + x + 1 > MEM_SIZE {
                Err(Chip8Error::OutOfRangeAccess)
            } else {
                Ok(MState {
                    mem: spec_store_regs(s.mem, s.reg, s.i, x as int),
                    i: s.i + x + 1,
                    pc: s.pc + 2,
                    ..s
                })
            }
        },
        Instr::LoadRegs(x) => {
            if s.i + x + 1 > MEM_SIZE {
                Err(Chip8Error::OutOfRangeAccess)
            } else {
                Ok(MState {
                    reg: spec_load_regs(s.mem, s.reg, s.i, x as int),
                    i: s.i + x + 1,
                    pc: s.pc + 2,
                    ..s
                })
            }
        },
    }
}

/// The 16-bit instruction word at the program counter, most-significant
/// byte first.
pub open spec fn spec_fetch(s: MState) -> u16 {
    (s.mem[s.pc] * 256 + s.mem[s.pc + 1]) as u16
}

/// One whole machine step: fetch at the program counter, decode, execute.
/// Fetching past the end of memory and undecodable words are errors; an
/// error leaves the state exactly as it was.
pub open spec fn spec_step(s: MState, rnd: u8) -> Result<MState, Chip8Error> {
    if s.pc + 1 >= MEM_SIZE {
        Err(Chip8Error::OutOfRangeAccess)
    } else {
        let w: u16 = spec_fetch(s);
        match spec_decode(w) {
            None => Err(Chip8Error::UnimplementedInstruction(w)),
            Some(ins) => spec_exec_instr(s, ins, rnd),
        }
    }
}

/// Where a bounded run ends: the state reached, and the error that stopped
/// it, if one did.
#[verifier::ext_equal]
pub ghost struct RunOutcome {
    /// The state the run reached.
    pub state: MState,
    /// The error that stopped the run early, if any.
    pub err: Option<Chip8Error>,
}

/// Run up to `n` machine steps, drawing random bytes from the front of
/// `rnds`. The run stops, without error and without consuming budget, the
/// moment a wait-for-key capture is pending; it stops at the first failing
/// instruction with that instruction's error and the state from just before
/// it.
pub open spec fn spec_run(s: MState, rnds: Seq<u8>, n: nat) -> RunOutcome
    decreases n,
{
    if n == 0 || s.wait is Some {
        RunOutcome { state: s, err: None }
    } else {
        match spec_step(s, rnds[0]) {
            Ok(s2) => spec_run(s2, rnds.drop_first(), (n - 1) as nat),
            Err(e) => RunOutcome { state: s, err: Some(e) },
        }
    }
}

/// `rnds` is a sequence of `n` random bytes that takes a run of `n` steps
/// from `s0` to `s1`, reporting `r`.
pub open spec fn run_reaches(s0: MState, rnds: Seq<u8>, n: nat, s1: MState, r: Result<(), Chip8Error>) -> bool {
    &&& rnds.len() == n
    &&& s1 == spec_run(s0, rnds, n).state
    &&& match r {
        Ok(()) => spec_run(s0, rnds, n).err is None,
        Err(e) => spec_run(s0, rnds, n).err == Some(e),
    }
}

/// Runs compose: running on `r1 + r2` is running on `r1`, then, if that run
/// neither failed nor blocked on a key wait, running on `r2` from where it
/// ended.
pub proof fn lemma_run_concat(s: MState, r1: Seq<u8>, n1: nat, r2: Seq<u8>, n2: nat)
    requires
        r1.len() == n1,
    ensures
        spec_run(s, r1 + r2, n1 + n2) == (if spec_run(s, r1, n1).err is Some {
            spec_run(s, r1, n1)
        } else {
            spec_run(spec_run(s, r1, n1).state, r2, n2)
        }),
    decreases n1,
{
    if n1 == 0 {
        assert(r1 + r2 =~= r2);
        assert(spec_run(s, r1, 0) == RunOutcome { state: s, err: None });
        if s.wait is Some {
            assert(spec_run(s, r2, n2) == RunOutcome { state: s, err: None });
        }
    } else if s.wait is Some {
        assert(spec_run(s, r1 + r2, n1 + n2) == RunOutcome { state: s, err: None });
        assert(spec_run(s, r1, n1) == RunOutcome { state: s, err: None });
        assert(spec_run(s, r2, n2) == RunOutcome { state: s, err: None });
    } else {
        assert((r1 + r2)[0] == r1[0]);
        match spec_step(s, r1[0]) {
            Ok(s2) => {
                assert((r1 + r2).drop_first() =~= r1.drop_first() + r2);
                lemma_run_concat(s2, r1.drop_first(), (n1 - 1) as nat, r2, n2);
            },
            Err(_) => {
            },
        }
    }
}

/// After a reset, every one of the 16 general-purpose registers is zero,
/// the program counter sits at the reset vector, the stack pointer is zero,
/// every key is released, and no wait-for-key capture is pending.
pub proof fn lemma_reset_defaults(s: MState)
    ensures
        forall|k: int| 0 <= k < NUM_REGS ==> spec_reset(s).reg[k] == 0,
        spec_reset(s).pc == RESET_VECTOR,
        spec_reset(s).sp == 0,
        forall|k: int| 0 <= k < NUM_KEYS ==> spec_reset(s).keys[k] == 0,
        spec_reset(s).wait == None::<u8>,
{
}

/// Extending an error-free partial run by one successful step.
pub proof fn lemma_run_step_ok(s0: MState, trace: Seq<u8>, done: nat, pre: MState, post: MState, rnd: u8)
    requires
        trace.len() == done,
        spec_run(s0, trace, done) == (RunOutcome { state: pre, err: None }),
        (pre.wait is None),
        spec_step(pre, rnd) == Ok::<MState, Chip8Error>(post),
    ensures
        spec_run(s0, trace.push(rnd), done + 1) == (RunOutcome { state: post, err: None }),
{
    lemma_run_concat(s0, trace, done, seq![rnd], 1);
    assert(trace + seq![rnd] =~= trace.push(rnd));
    assert(seq![rnd][0] == rnd);
    assert(spec_run(post, seq![rnd].drop_first(), 0) == (RunOutcome { state: post, err: None }));
    assert(spec_run(pre, seq![rnd], 1) == (RunOutcome { state: post, err: None }));
}

/// An error-free partial run that has used its whole budget, or has blocked
/// on a key wait, is a whole run: some full-length sequence of random bytes
/// reaches exactly this state with no error.
pub proof fn lemma_run_pad_blocked(s0: MState, trace: Seq<u8>, done: nat, n: nat, st: MState)
    requires
        trace.len() == done,
        done <= n,
        spec_run(s0, trace, done) == (RunOutcome { state: st, err: None }),
        (st.wait is Some) || done == n,
    ensures
        (exists|rnds: Seq<u8>| #[trigger] run_reaches(s0, rnds, n, st, Ok::<(), Chip8Error>(()))),
{
    if done == n {
        assert(run_reaches(s0, trace, n, st, Ok::<(), Chip8Error>(())));
    } else {
        let pad = Seq::new((n - done) as nat, |j: int| 0u8);
        lemma_run_concat(s0, trace, done, pad, (n - done) as nat);
        assert(spec_run(st, pad, (n - done) as nat) == (RunOutcome { state: st, err: None }));
        assert(run_reaches(s0, trace + pad, n, st, Ok::<(), Chip8Error>(())));
    }
}

/// An error-free partial run whose next step fails is a whole run ending in
/// that error: some full-length sequence of random bytes reaches exactly the
/// state from before the failing instruction and reports its error.
pub proof fn lemma_run_pad_err(s0: MState, trace: Seq<u8>, done: nat, n: nat, st: MState, rnd: u8, e: Chip8Error)
    requires
        trace.len() == done,
        done < n,
        spec_run(s0, trace, done) == (RunOutcome { state: st, err: None }),
        (st.wait is None),
        spec_step(st, rnd) == Err::<MState, Chip8Error>(e),
    ensures
        (exists|rnds: Seq<u8>| #[trigger] run_reaches(s0, rnds, n, st, Err::<(), Chip8Error>(e))),
{
    let pad = Seq::new((n - done) as nat, |j: int| if j == 0 { rnd } else { 0u8 });
    lemma_run_concat(s0, trace, done, pad, (n - done) as nat);
    assert(pad[0] == rnd);
    assert(spec_run(st, pad, (n - done) as nat) == (RunOutcome { state: st, err: Some(e) }));
    assert(run_reaches(s0, trace + pad, n, st, Err::<(), Chip8Error>(e)));
}

/// While a wait-for-key capture is pending, a run of any budget makes no
/// progress at all: the state is untouched and no error is reported.
pub proof fn lemma_wait_blocks_run(s: MState, rnds: Seq<u8>, n: nat)
    requires
        (s.wait is Some),
    ensures
        spec_run(s, rnds, n) == (RunOutcome { state: s, err: None }),
{
}

} // verus!
