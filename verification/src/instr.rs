use vstd::prelude::*;

verus! {

/// One decoded machine instruction.
///
/// A 16-bit instruction word decodes into exactly one of these variants, or
/// into nothing at all (an unimplemented word). `x` and `y` name
/// general-purpose register indices (always below 16), `kk` a literal byte,
/// `addr` a 12-bit literal address, and `n` a 4-bit literal.
#[derive(Clone, Copy, Debug, PartialEq, Eq, Structural)]
pub enum Instr {
    /// `00E0`: clear the display.
    ClearDisplay,
    /// `00EE`: pop a return address from the stack into the program counter.
    Return,
    /// `1addr`: jump to `addr`.
    Jump(u16),
    /// `2addr`: push the return address, then jump to `addr`.
    Call(u16),
    /// `3xkk`: skip the next instruction if `reg[x] == kk`.
    SkipEqImm(u8, u8),
    /// `4xkk`: skip the next instruction if `reg[x] != kk`.
    SkipNeImm(u8, u8),
    /// `5xy0`: skip the next instruction if `reg[x] == reg[y]`.
    SkipEqReg(u8, u8),
    /// `6xkk`: load `kk` into `reg[x]`.
    LoadImm(u8, u8),
    /// `7xkk`: add `kk` to `reg[x]` with 8-bit wraparound; no flag write.
    AddImm(u8, u8),
    /// `8xy0`: copy `reg[y]` into `reg[x]`.
    Move(u8, u8),
    /// `8xy1`: bitwise OR of `reg[x]` and `reg[y]` into `reg[x]`.
    Or(u8, u8),
    /// `8xy2`: bitwise AND of `reg[x]` and `reg[y]` into `reg[x]`.
    And(u8, u8),
    /// `8xy3`: bitwise XOR of `reg[x]` and `reg[y]` into `reg[x]`.
    Xor(u8, u8),
    /// `8xy4`: add with carry flag in `reg[15]`.
    Add(u8, u8),
    /// `8xy5`: subtract `reg[y]` from `reg[x]` with borrow flag in `reg[15]`.
    Sub(u8, u8),
    /// `8xy6`: shift `reg[x]` right by one; `reg[15]` takes the old low bit.
    ShiftRight(u8, u8),
    /// `8xy7`: `reg[x] = reg[y] - reg[x]` with borrow flag in `reg[15]`.
    SubNeg(u8, u8),
    /// `8xyE`: shift `reg[x]` left by one; `reg[15]` takes the old high bit.
    ShiftLeft(u8, u8),
    /// `9xy0`: skip the next instruction if `reg[x] != reg[y]`.
    SkipNeReg(u8, u8),
    /// `Aaddr`: load `addr` into the index register.
    LoadIndex(u16),
    /// `Baddr`: jump to `addr + reg[0]`.
    JumpPlus(u16),
    /// `Cxkk`: load a random byte ANDed with `kk` into `reg[x]`.
    Random(u8, u8),
    /// `Dxyn`: XOR-blit an `n`-row sprite at `(reg[x], reg[y])`.
    Draw(u8, u8, u8),
    /// `Ex9E`: skip the next instruction if key `reg[x]` is pressed.
    SkipKeyPressed(u8),
    /// `ExA1`: skip the next instruction if key `reg[x]` is not pressed.
    SkipKeyNotPressed(u8),
    /// `Fx07`: load the delay timer into `reg[x]`.
    ReadDelay(u8),
    /// `Fx0A`: suspend execution until a key event on register `x`'s target.
    WaitKey(u8),
    /// `Fx15`: load `reg[x]` into the delay timer.
    SetDelay(u8),
    /// `Fx18`: load `reg[x]` into the sound timer.
    SetSound(u8),
    /// `Fx1E`: add `reg[x]` to the index register (16-bit wraparound).
    AddIndex(u8),
    /// `Fx29`: point the index register at the glyph for hex digit `reg[x]`.
    LoadGlyph(u8),
    /// `Fx55`: store `reg[0..=x]` to memory at the index register.
    StoreRegs(u8),
    /// `Fx65`: load `reg[0..=x]` from memory at the index register.
    LoadRegs(u8),
}

/// The meaning of a 16-bit instruction word, nibble by nibble: the top
/// nibble picks the family, the rest supply register indices (`x`, `y`),
/// a literal byte (`kk`), a 12-bit address, or a 4-bit literal (`n`).
/// `None` is a word that matches no known pattern.
pub open spec fn spec_decode(w: u16) -> Option<Instr> {
    let family: int = w as int / 0x1000;
    let x: u8 = ((w as int / 0x100) % 0x10) as u8;
    let y: u8 = ((w as int / 0x10) % 0x10) as u8;
    let n: u8 = (w as int % 0x10) as u8;
    let kk: u8 = (w as int % 0x100) as u8;
    let addr: u16 = (w as int % 0x1000) as u16;
    if w == 0x00E0 {
        Some(Instr::ClearDisplay)
    } else if w == 0x00EE {
        Some(Instr::Return)
    } else if family == 0x1 {
        Some(Instr::Jump(addr))
    } else if family == 0x2 {
        Some(Instr::Call(addr))
    } else if family == 0x3 {
        Some(Instr::SkipEqImm(x, kk))
    } else if family == 0x4 {
        Some(Instr::SkipNeImm(x, kk))
    } else if family == 0x5 && n == 0x0 {
        Some(Instr::SkipEqReg(x, y))
    } else if family == 0x6 {
        Some(Instr::LoadImm(x, kk))
    } else if family == 0x7 {
        Some(Instr::AddImm(x, kk))
    } else if family == 0x8 && n == 0x0 {
        Some(Instr::Move(x, y))
    } else if family == 0x8 && n == 0x1 {
        Some(Instr::Or(x, y))
    } else if family == 0x8 && n == 0x2 {
        Some(Instr::And(x, y))
    } else if family == 0x8 && n == 0x3 {
        Some(Instr::Xor(x, y))
    } else if family == 0x8 && n == 0x4 {
        Some(Instr::Add(x, y))
    } else if family == 0x8 && n == 0x5 {
        Some(Instr::Sub(x, y))
    } else if family == 0x8 && n == 0x6 {
        Some(Instr::ShiftRight(x, y))
    } else if family == 0x8 && n == 0x7 {
        Some(Instr::SubNeg(x, y))
    } else if family == 0x8 && n == 0xE {
        Some(Instr::ShiftLeft(x, y))
    } else if family == 0x9 && n == 0x0 {
        Some(Instr::SkipNeReg(x, y))
    } else if family == 0xA {
        Some(Instr::LoadIndex(addr))
    } else if family == 0xB {
        Some(Instr::JumpPlus(addr))
    } else if family == 0xC {
        Some(Instr::Random(x, kk))
    } else if family == 0xD {
        Some(Instr::Draw(x, y, n))
    } else if family == 0xE && kk == 0x9E {
        Some(Instr::SkipKeyPressed(x))
    } else if family == 0xE && kk == 0xA1 {
        Some(Instr::SkipKeyNotPressed(x))
    } else if family == 0xF && kk == 0x07 {
        Some(Instr::ReadDelay(x))
    } else if family == 0xF && kk == 0x0A {
        Some(Instr::WaitKey(x))
    } else if family == 0xF && kk == 0x15 {
        Some(Instr::SetDelay(x))
    } else if family == 0xF && kk == 0x18 {
        Some(Instr::SetSound(x))
    } else if family == 0xF && kk == 0x1E {
        Some(Instr::AddIndex(x))
    } else if family == 0xF && kk == 0x29 {
        Some(Instr::LoadGlyph(x))
    } else if family == 0xF && kk == 0x55 {
        Some(Instr::StoreRegs(x))
    } else if family == 0xF && kk == 0x65 {
        Some(Instr::LoadRegs(x))
    } else {
        None
    }
}

/// Every register index carried by a decoded instruction is below 16, every
/// address below 4096, and every 4-bit literal below 16.
pub open spec fn instr_fields_in_range(ins: Instr) -> bool {
    match ins {
        Instr::ClearDisplay => true,
        Instr::Return => true,
        Instr::Jump(a) => a < 0x1000,
        Instr::Call(a) => a < 0x1000,
        Instr::SkipEqImm(x, _kk) => x < 16,
        Instr::SkipNeImm(x, _kk) => x < 16,
        Instr::SkipEqReg(x, y) => x < 16 && y < 16,
        Instr::LoadImm(x, _kk) => x < 16,
        Instr::AddImm(x, _kk) => x < 16,
        Instr::Move(x, y) => x < 16 && y < 16,
        Instr::Or(x, y) => x < 16 && y < 16,
        Instr::And(x, y) => x < 16 && y < 16,
        Instr::Xor(x, y) => x < 16 && y < 16,
        Instr::Add(x, y) => x < 16 && y < 16,
        Instr::Sub(x, y) => x < 16 && y < 16,
        Instr::ShiftRight(x, y) => x < 16 && y < 16,
        Instr::SubNeg(x, y) => x < 16 && y < 16,
        Instr::ShiftLeft(x, y) => x < 16 && y < 16,
        Instr::SkipNeReg(x, y) => x < 16 && y < 16,
        Instr::LoadIndex(a) => a < 0x1000,
        Instr::JumpPlus(a) => a < 0x1000,
        Instr::Random(x, _kk) => x < 16,
        Instr::Draw(x, y, n) => x < 16 && y < 16 && n < 16,
        Instr::SkipKeyPressed(x) => x < 16,
        Instr::SkipKeyNotPressed(x) => x < 16,
        Instr::ReadDelay(x) => x < 16,
        Instr::WaitKey(x) => x < 16,
        Instr::SetDelay(x) => x < 16,
        Instr::SetSound(x) => x < 16,
        Instr::AddIndex(x) => x < 16,
        Instr::LoadGlyph(x) => x < 16,
        Instr::StoreRegs(x) => x < 16,
        Instr::LoadRegs(x) => x < 16,
    }
}

/// Decode one instruction word, exactly as `spec_decode` describes it.
pub fn decode(w: u16) -> (r: Option<Instr>)
    ensures
        r == spec_decode(w),
        r matches Some(ins) ==> instr_fields_in_range(ins),
{
    let family: u16 = w / 0x1000;
    let x: u8 = ((w / 0x100) % 0x10) as u8;
    let y: u8 = ((w / 0x10) % 0x10) as u8;
    let n: u8 = (w % 0x10) as u8;
    let kk: u8 = (w % 0x100) as u8;
    let addr: u16 = w % 0x1000;
    if w == 0x00E0 {
        Some(Instr::ClearDisplay)
    } else if w == 0x00EE {
        Some(Instr::Return)
    } else if family == 0x1 {
        Some(Instr::Jump(addr))
    } else if family == 0x2 {
        Some(Instr::Call(addr))
    } else if family == 0x3 {
        Some(Instr::SkipEqImm(x, kk))
    } else if family == 0x4 {
        Some(Instr::SkipNeImm(x, kk))
    } else if family == 0x5 && n == 0x0 {
        Some(Instr::SkipEqReg(x, y))
    } else if family == 0x6 {
        Some(Instr::LoadImm(x, kk))
    } else if family == 0x7 {
        Some(Instr::AddImm(x, kk))
    } else if family == 0x8 && n == 0x0 {
        Some(Instr::Move(x, y))
    } else if family == 0x8 && n == 0x1 {
        Some(Instr::Or(x, y))
    } else if family == 0x8 && n == 0x2 {
        Some(Instr::And(x, y))
    } else if family == 0x8 && n == 0x3 {
        Some(Instr::Xor(x, y))
    } else if family == 0x8 && n == 0x4 {
        Some(Instr::Add(x, y))
    } else if family == 0x8 && n == 0x5 {
        Some(Instr::Sub(x, y))
    } else if family == 0x8 && n == 0x6 {
        Some(Instr::ShiftRight(x, y))
    } else if family == 0x8 && n == 0x7 {
        Some(Instr::SubNeg(x, y))
    } else if family == 0x8 && n == 0xE {
        Some(Instr::ShiftLeft(x, y))
    } else if family == 0x9 && n == 0x0 {
        Some(Instr::SkipNeReg(x, y))
    } else if family == 0xA {
        Some(Instr::LoadIndex(addr))
    } else if family == 0xB {
        Some(Instr::JumpPlus(addr))
    } else if family == 0xC {
        Some(Instr::Random(x, kk))
    } else if family == 0xD {
        Some(Instr::Draw(x, y, n))
    } else if family == 0xE && kk == 0x9E {
        Some(Instr::SkipKeyPressed(x))
    } else if family == 0xE && kk == 0xA1 {
        Some(Instr::SkipKeyNotPressed(x))
    } else if family == 0xF && kk == 0x07 {
        Some(Instr::ReadDelay(x))
    } else if family == 0xF && kk == 0x0A {
        Some(Instr::WaitKey(x))
    } else if family == 0xF && kk == 0x15 {
        Some(Instr::SetDelay(x))
    } else if family == 0xF && kk == 0x18 {
        Some(Instr::SetSound(x))
    } else if family == 0xF && kk == 0x1E {
        Some(Instr::AddIndex(x))
    } else if family == 0xF && kk == 0x29 {
        Some(Instr::LoadGlyph(x))
    } else if family == 0xF && kk == 0x55 {
        Some(Instr::StoreRegs(x))
    } else if family == 0xF && kk == 0x65 {
        Some(Instr::LoadRegs(x))
    } else {
        None
    }
}

} // verus!
