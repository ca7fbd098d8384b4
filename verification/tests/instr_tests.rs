use chip8::Chip8;
use chip8::Chip8Error;
use chip8::state::DISPLAY_SIZE;
use chip8::state::DISPLAY_WIDTH;
use chip8::state::MEM_SIZE;
use chip8::state::RESET_VECTOR;
use chip8::state::STACK_SIZE;

const FONT: [u8; 80] = [
    0xF0, 0x90, 0x90, 0x90, 0xF0, // 0
    0x20, 0x60, 0x20, 0x20, 0x70, // 1
    0xF0, 0x10, 0xF0, 0x80, 0xF0, // 2
    0xF0, 0x10, 0xF0, 0x10, 0xF0, // 3
    0x90, 0x90, 0xF0, 0x10, 0x10, // 4
    0xF0, 0x80, 0xF0, 0x10, 0xF0, // 5
    0xF0, 0x80, 0xF0, 0x90, 0xF0, // 6
    0xF0, 0x10, 0x20, 0x40, 0x40, // 7
    0xF0, 0x90, 0xF0, 0x90, 0xF0, // 8
    0xF0, 0x90, 0xF0, 0x10, 0xF0, // 9
    0xF0, 0x90, 0xF0, 0x90, 0x90, // A
    0xE0, 0x90, 0xE0, 0x90, 0xE0, // B
    0xF0, 0x80, 0x80, 0x80, 0xF0, // C
    0xE0, 0x90, 0x90, 0x90, 0xE0, // D
    0xF0, 0x80, 0xF0, 0x80, 0xF0, // E
    0xF0, 0x80, 0xF0, 0x80, 0x80, // F
];

fn assert_rect(c8: &Chip8, rect: (usize, usize, usize, usize), v: u8) {
    for y in rect.1..rect.1 + rect.3 {
        for x in rect.0..rect.0 + rect.2 {
            assert_eq!(c8.display_at(y * DISPLAY_WIDTH + x), v);
        }
    }
}

#[test]
fn test_reset() {
    let fake_program = [0, 1, 2, 3];
    let mut c8 = Chip8::new(&fake_program).unwrap();

    c8.set_pc(1);
    for r in 0..16 {
        c8.set_reg(r, 255);
    }
    c8.reset();

    assert_eq!(c8.pc(), RESET_VECTOR);
    for r in 0..16 {
        assert_eq!(c8.reg(r), 0);
    }

    let program_range = RESET_VECTOR..RESET_VECTOR + fake_program.len();
    for i in 0..MEM_SIZE {
        let byte = c8.read_mem(i);
        if program_range.contains(&i) {
            let a = i - RESET_VECTOR;
            assert_eq!(a, byte as usize);
        } else if i < FONT.len() {
            // the glyph table is rewritten at [0, 80) on every reset
            assert_eq!(FONT[i], byte);
        } else {
            assert_eq!(0, byte);
        }
    }
}

#[test]
fn test_instr_ld_immediate_to_gp() {
    let test_program: &[u8] = &[
        0x60, 0x0, 0x61, 0x1, 0x62, 0x2, 0x63, 0x3, 0x64, 0x4, 0x65, 0x5, 0x66, 0x6, 0x67, 0x7,
        0x68, 0x8, 0x69, 0x9, 0x6a, 0xa, 0x6b, 0xb, 0x6c, 0xc, 0x6d, 0xd, 0x6e, 0xe, 0x6f, 0xf,
    ];
    let mut c8 = Chip8::new(test_program).unwrap();
    for r in 0..16 {
        c8.set_reg(r, 255);
    }
    let pc_before = c8.pc();
    c8.step(16).unwrap();
    assert_eq!(c8.pc(), pc_before + test_program.len());

    for i in 0..16 {
        assert_eq!(c8.reg(i) as usize, i);
    }
}

#[test]
fn test_instr_clear_display() {
    let test_program: &[u8] = &[0x00, 0xe0];
    let mut c8 = Chip8::new(test_program).unwrap();
    c8.fill_display(255);

    let pc_before = c8.pc();
    c8.step(1).unwrap();
    assert_eq!(c8.pc(), pc_before + test_program.len());
    for i in 0..DISPLAY_SIZE {
        assert_eq!(c8.display_at(i), 0);
    }
}

#[test]
fn test_instr_jump() {
    let test_program: &[u8] = &[0x1a, 0xbc];
    let mut c8 = Chip8::new(test_program).unwrap();
    c8.step(1).unwrap();
    assert_eq!(c8.pc(), 0xabc);
}

#[test]
fn test_instr_call() {
    let test_program: &[u8] = &[0x2a, 0xbc];
    let mut c8 = Chip8::new(test_program).unwrap();
    let pc_before = c8.pc();
    c8.step(1).unwrap();
    assert_eq!(c8.pc(), 0xabc);
    assert_eq!(c8.sp(), 1);
    assert_eq!(c8.stack_at(0), pc_before + 2);
    assert_eq!(c8.pc(), 0xabc);
}

#[test]
fn test_instr_stack_underflow() {
    let test_program: &[u8] = &[
        0x00, 0xee, // RET
    ];
    let mut c8 = Chip8::new(test_program).unwrap();
    assert_eq!(c8.sp(), 0);
    let pc_before = c8.pc();
    assert_eq!(c8.step(1), Err(Chip8Error::StackUnderflow));
    // the failing instruction leaves the machine untouched
    assert_eq!(c8.pc(), pc_before);
    assert_eq!(c8.sp(), 0);
}

#[test]
fn test_instr_stack_overflow() {
    let test_program: &[u8] = &[
        0x22, 0x02, 0x22, 0x04, 0x22, 0x06, 0x22, 0x08, 0x22, 0x0a, 0x22, 0x0c, 0x22, 0x0e, 0x22,
        0x10, 0x22, 0x12, 0x22, 0x14, 0x22, 0x16, 0x22, 0x18, 0x22, 0x1a, 0x22, 0x1c, 0x22, 0x1e,
        0x22, 0x20, 0x22, 0x22, // too much
    ];
    let mut c8 = Chip8::new(test_program).unwrap();
    assert_eq!(c8.sp(), 0);
    for i in 0..STACK_SIZE {
        c8.step(1).unwrap();
        assert_eq!(c8.sp(), i + 1);
    }

    let pc_before = c8.pc();
    assert_eq!(c8.step(1), Err(Chip8Error::StackOverflow));
    // the failing call leaves the machine state from before it intact
    assert_eq!(c8.pc(), pc_before);
    assert_eq!(c8.sp(), STACK_SIZE);
}

#[test]
fn test_instr_skip_next_if_equals_immediate() {
    let test_program: &[u8] = &[
        0x3f, 0xff, // skip next if gp15 == FF
    ];
    let mut c8 = Chip8::new(test_program).unwrap();
    let pc = c8.pc();
    c8.set_reg(0xf, 0xff);
    c8.step(1).unwrap();
    assert_eq!(c8.pc(), pc + 4);

    c8.reset();
    c8.set_reg(0xf, 0x0);
    c8.step(1).unwrap();
    assert_eq!(c8.pc(), pc + 2);
}

#[test]
fn test_instr_skip_next_if_not_equals_immediate() {
    let test_program: &[u8] = &[
        0x4f, 0xff, // skip next if gp15 != FF
    ];
    let mut c8 = Chip8::new(test_program).unwrap();
    let pc = c8.pc();
    c8.set_reg(0xf, 0x00);
    c8.step(1).unwrap();
    assert_eq!(c8.pc(), pc + 4);

    c8.reset();
    c8.set_reg(0xf, 0xff);
    c8.step(1).unwrap();
    assert_eq!(c8.pc(), pc + 2);
}

#[test]
fn test_instr_skip_next_if_not_equals_register() {
    let test_program: &[u8] = &[
        0x51, 0x20, // skip next if gp1 == gp2
    ];
    let mut c8 = Chip8::new(test_program).unwrap();
    let pc = c8.pc();
    c8.set_reg(0x1, 0x55);
    c8.set_reg(0x2, 0x55);
    c8.step(1).unwrap();
    assert_eq!(c8.pc(), pc + 4);

    c8.reset();
    assert_eq!(pc, c8.pc());
    c8.set_reg(0x1, 0x55);
    c8.set_reg(0x2, 0x44);
    c8.step(1).unwrap();
    assert_eq!(c8.pc(), pc + 2);
}

#[test]
fn test_instr_add_immediate() {
    let test_program: &[u8] = &[
        0x71, 0x34, // add 0x34 to gp1
    ];
    let mut c8 = Chip8::new(test_program).unwrap();
    let pc = c8.pc();
    c8.set_reg(1, 0x12);
    c8.step(1).unwrap();
    assert_eq!(c8.reg(1), 0x12 + 0x34);
    assert_eq!(c8.pc(), pc + 2);

    // Test wrap-around
    let test_program: &[u8] = &[
        0x70, 0x02, // add 2 to gp0
    ];
    let mut c8 = Chip8::new(test_program).unwrap();
    c8.set_reg(0, 0xff);
    c8.step(1).unwrap();
    assert_eq!(c8.reg(0), 1);
}

#[test]
fn test_instr_alu_nop() {
    let test_program: &[u8] = &[
        0x81, 0x00, // move gp0 to gp1
    ];
    let mut c8 = Chip8::new(test_program).unwrap();
    let pc = c8.pc();
    c8.set_reg(0, 0x12);
    c8.set_reg(1, 0x34);
    c8.step(1).unwrap();
    assert_eq!(c8.reg(0), 0x12);
    assert_eq!(c8.reg(1), 0x12);
    assert_eq!(c8.pc(), pc + 2);
}

#[test]
fn test_instr_alu_and() {
    let test_program: &[u8] = &[
        0x81, 0x02, // and gp0 with gp1, store in gp1
    ];
    let mut c8 = Chip8::new(test_program).unwrap();
    let pc = c8.pc();
    c8.set_reg(0, 0xaa);
    c8.set_reg(1, 0xf0);
    c8.step(1).unwrap();
    assert_eq!(c8.reg(0), 0xaa);
    assert_eq!(c8.reg(1), 0xa0);
    assert_eq!(c8.pc(), pc + 2);
}

#[test]
fn test_instr_alu_or() {
    let test_program: &[u8] = &[
        0x81, 0x01, // or gp0 with gp1, store in gp1
    ];
    let mut c8 = Chip8::new(test_program).unwrap();
    let pc = c8.pc();
    c8.set_reg(0, 0xaa);
    c8.set_reg(1, 0x55);
    c8.step(1).unwrap();
    assert_eq!(c8.reg(0), 0xaa);
    assert_eq!(c8.reg(1), 0xff);
    assert_eq!(c8.pc(), pc + 2);
}

#[test]
fn test_instr_alu_xor() {
    let test_program: &[u8] = &[
        0x81, 0x03, // xor gp0 with gp1, store in gp1
    ];
    let mut c8 = Chip8::new(test_program).unwrap();
    let pc = c8.pc();
    c8.set_reg(0, 0xaa);
    c8.set_reg(1, 0x0f);
    c8.step(1).unwrap();
    assert_eq!(c8.reg(0), 0xaa);
    assert_eq!(c8.reg(1), 0xa5);
    assert_eq!(c8.pc(), pc + 2);
}

#[test]
fn test_instr_alu_add() {
    let test_program: &[u8] = &[
        0x81, 0x04, // add gp0 to gp1, store in gp1
    ];
    let mut c8 = Chip8::new(test_program).unwrap();
    let pc = c8.pc();
    c8.set_reg(0, 0x12);
    c8.set_reg(1, 0x3);
    c8.step(1).unwrap();
    assert_eq!(c8.reg(0), 0x12);
    assert_eq!(c8.reg(1), 0x12 + 0x3);
    assert_eq!(c8.pc(), pc + 2);
    assert_eq!(c8.reg(15), 0);

    c8.reset();
    c8.set_reg(0, 0xff);
    c8.set_reg(1, 0x3);
    c8.step(1).unwrap();
    assert_eq!(c8.reg(0), 0xff);
    assert_eq!(c8.reg(1), 0x2);
    assert_eq!(c8.pc(), pc + 2);
    assert_eq!(c8.reg(15), 1);
}

#[test]
fn test_instr_alu_sub() {
    let test_program: &[u8] = &[
        0x81, 0x05, // gp1 = gp1 - gp0
    ];
    let mut c8 = Chip8::new(test_program).unwrap();
    let pc = c8.pc();
    c8.set_reg(0, 2);
    c8.set_reg(1, 5);
    c8.step(1).unwrap();
    assert_eq!(c8.reg(0), 2);
    assert_eq!(c8.reg(1), 5 - 2);
    assert_eq!(c8.pc(), pc + 2);
    assert_eq!(c8.reg(15), 0);

    c8.reset();
    c8.set_reg(0, 5);
    c8.set_reg(1, 2);
    c8.step(1).unwrap();
    assert_eq!(c8.reg(0), 5);
    assert_eq!(c8.reg(1), 0xfd);
    assert_eq!(c8.pc(), pc + 2);
    assert_eq!(c8.reg(15), 1);
}

#[test]
fn test_instr_alu_shift_right() {
    let test_program: &[u8] = &[
        0x80, 0x06, // gp0 = gp0 >> 1
    ];
    let mut c8 = Chip8::new(test_program).unwrap();
    let pc = c8.pc();
    c8.set_reg(0, 2);
    c8.step(1).unwrap();
    assert_eq!(c8.reg(0), 1);
    assert_eq!(c8.pc(), pc + 2);
    assert_eq!(c8.reg(15), 0);

    c8.reset();
    c8.set_reg(0, 0x81);
    c8.step(1).unwrap();
    assert_eq!(c8.reg(0), 0x40);
    assert_eq!(c8.pc(), pc + 2);
    assert_eq!(c8.reg(15), 1);
}

#[test]
fn test_instr_alu_subn() {
    let test_program: &[u8] = &[
        0x81, 0x07, // gp1 = gp0 - gp1
    ];
    let mut c8 = Chip8::new(test_program).unwrap();
    let pc = c8.pc();
    c8.set_reg(0, 5);
    c8.set_reg(1, 2);
    c8.step(1).unwrap();
    assert_eq!(c8.reg(0), 5);
    assert_eq!(c8.reg(1), 5 - 2);
    assert_eq!(c8.pc(), pc + 2);
    assert_eq!(c8.reg(15), 0);

    c8.reset();
    c8.set_reg(0, 2);
    c8.set_reg(1, 5);
    c8.step(1).unwrap();
    assert_eq!(c8.reg(0), 2);
    assert_eq!(c8.reg(1), 0xfd);
    assert_eq!(c8.pc(), pc + 2);
    assert_eq!(c8.reg(15), 1);
}

#[test]
fn test_instr_rnd() {
    let test_program: &[u8] = &[
        0xc0, 0xf0, 0xc0, 0x0f, 0xc1, 0xff, 0xc1, 0xff, 0xc1, 0xff, 0xc1, 0xff,
    ];
    let mut c8 = Chip8::new(test_program).unwrap();
    let pc = c8.pc();
    c8.set_reg(0, 0xff);
    c8.step(1).unwrap();
    assert_eq!(c8.pc(), pc + 2);
    assert_eq!(c8.reg(0) & 0xf, 0);
    c8.set_reg(0, 0xff);
    c8.step(1).unwrap();
    assert_eq!(c8.reg(0) & 0xf0, 0);

    // make sure there's no more than 3 consecutive same numbers
    c8.step(1).unwrap();
    let r = c8.reg(1);
    for i in 1..4 {
        c8.step(1).unwrap();
        if r != c8.reg(i) {
            break;
        }
        if i == 3 {
            assert!(false);
        }
    }
}

#[test]
fn test_instr_draw() {
    let test_program: &[u8] = &[0xd0, 0x11, 0xd0, 0x11, 0xd0, 0x18];
    let mut c8 = Chip8::new(test_program).unwrap();
    let pc = c8.pc();
    c8.set_index_reg(0x300);
    for a in 0x300..0x308 {
        c8.write_mem(a, 0xff);
    }

    // Light up 8 top left pixels
    c8.step(1).unwrap();

    for i in 0..8 {
        assert_eq!(c8.display_at(i), 255);
    }
    for i in 0..8 {
        assert_eq!(c8.display_at(DISPLAY_WIDTH + i), 0);
    }

    assert_eq!(c8.pc(), pc + 2);
    assert_eq!(c8.display_at(9), 0);
    assert_eq!(c8.reg(15), 0); // no collision

    c8.step(1).unwrap();
    assert_eq!(c8.reg(15), 1); // should have collision
    for i in 0..9 {
        assert_eq!(c8.display_at(i), 0);
    }
    for i in 0..8 {
        assert_eq!(c8.display_at(DISPLAY_WIDTH + i), 0);
    }

    // Test wrapping
    c8.fill_display(0);
    c8.set_reg(0, 61);
    c8.set_reg(1, 30);

    c8.step(1).unwrap();
    assert_eq!(c8.reg(15), 0);
    assert_rect(&c8, (0, 0, 5, 6), 255);
    assert_rect(&c8, (61, 0, 3, 6), 255);
    assert_rect(&c8, (61, 30, 3, 2), 255);
    assert_rect(&c8, (0, 30, 5, 2), 255);
}

#[test]
fn test_instr_draw_orientation() {
    let test_program: &[u8] = &[0xd0, 0x11];
    let mut c8 = Chip8::new(test_program).unwrap();
    c8.set_index_reg(0x300);
    c8.write_mem(0x300, 0x0f);

    // Top left should be 00001111
    c8.step(1).unwrap();

    assert_rect(&c8, (0, 0, 4, 2), 0);
    assert_rect(&c8, (4, 0, 4, 1), 255);
    assert_rect(&c8, (4, 1, 4, 1), 0);
}

#[test]
fn test_instr_st_regs() {
    let test_program: &[u8] = &[0xf3, 0x55];
    let mut c8 = Chip8::new(test_program).unwrap();
    let pc = c8.pc();
    c8.set_index_reg(0x300);
    for i in 0..4 {
        c8.set_reg(i, i as u8);
    }

    for a in 0x300..0x308 {
        c8.write_mem(a, 0xff);
    }
    c8.step(1).unwrap();
    assert_eq!(c8.pc(), pc + 2);
    assert_eq!(c8.index_reg(), 0x300 + 4);
    for i in 0..4 {
        assert_eq!(c8.read_mem(0x300 + i), i as u8);
    }

    assert_eq!(c8.read_mem(0x300 + 4), 255);
}

#[test]
fn test_instr_ld_regs() {
    let test_program: &[u8] = &[0xf3, 0x65];
    let mut c8 = Chip8::new(test_program).unwrap();
    let pc = c8.pc();
    c8.set_index_reg(0x300);
    for i in 0..4 {
        c8.write_mem(0x300 + i, i as u8);
    }

    for r in 0..16 {
        c8.set_reg(r, 0xff);
    }
    c8.step(1).unwrap();
    assert_eq!(c8.pc(), pc + 2);
    assert_eq!(c8.index_reg(), 0x300 + 4);
    for i in 0..4 {
        assert_eq!(c8.reg(i), i as u8);
    }

    assert_eq!(c8.reg(4), 0xff);
}

#[test]
fn test_instr_add_reg_to_i() {
    let test_program: &[u8] = &[
        0xfe, 0x1e, // i = i + gp14
    ];
    let mut c8 = Chip8::new(test_program).unwrap();
    let pc = c8.pc();
    c8.set_index_reg(0x123);
    c8.set_reg(14, 2);
    c8.step(1).unwrap();
    assert_eq!(c8.reg(14), 2);
    assert_eq!(c8.pc(), pc + 2);
    assert_eq!(c8.index_reg(), 0x123 + 2);
}

#[test]
fn test_instr_skip_next_if_key_not_pressed() {
    let test_program: &[u8] = &[
        0xe0, 0xa1, // skip next if key gp0 not pressed
    ];
    let mut c8 = Chip8::new(test_program).unwrap();
    let pc = c8.pc();
    c8.set_reg(0x0, 0xa);
    c8.step(1).unwrap();
    assert_eq!(c8.pc(), pc + 4);

    c8.reset();
    c8.set_reg(0x0, 0xa);
    c8.set_key_state(0xa, true).unwrap();
    c8.step(1).unwrap();
    assert_eq!(c8.pc(), pc + 2);
}

#[test]
fn test_instr_skip_next_if_key_pressed() {
    let test_program: &[u8] = &[
        0xe0, 0x9e, // skip next if key gp0 pressed
    ];
    let mut c8 = Chip8::new(test_program).unwrap();
    let pc = c8.pc();
    c8.set_reg(0x0, 0xa);
    c8.step(1).unwrap();
    assert_eq!(c8.pc(), pc + 2);

    c8.reset();
    c8.set_reg(0x0, 0xa);
    c8.set_key_state(0xa, true).unwrap();
    c8.step(1).unwrap();
    assert_eq!(c8.pc(), pc + 4);
}
