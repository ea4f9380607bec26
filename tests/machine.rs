use chip8::instr::{decode, Chip8Error, Instruction, Op};
use chip8::machine::Chip8;

fn machine(rom: &[u8]) -> Chip8 {
    Chip8::with_rom(rom).expect("program fits")
}

fn run(c: &mut Chip8, steps: usize) {
    for _ in 0..steps {
        c.step_with_random(0).expect("step succeeds");
    }
}

/// Sets `Vx = a` and `Vy = b`, then runs `8xy<op>`.
fn alu(op: u8, a: u8, b: u8) -> Chip8 {
    let rom = [0x61, a, 0x62, b, 0x81, 0x20 | op];
    let mut c = machine(&rom);
    run(&mut c, 3);
    c
}

#[test]
fn add_sets_carry_exactly_when_sum_overflows() {
    for (a, b) in [(200u8, 100u8), (255, 1), (100, 155), (0, 0), (255, 255), (10, 20)] {
        let c = alu(4, a, b);
        let sum = a as u16 + b as u16;
        assert_eq!(c.register(1) as u16, sum % 256);
        assert_eq!(c.register(15), if sum > 255 { 1 } else { 0 });
    }
}

#[test]
fn sub_sets_flag_exactly_when_no_borrow() {
    for (a, b) in [(5u8, 3u8), (3, 5), (7, 7), (0, 255), (255, 0)] {
        let c = alu(5, a, b);
        assert_eq!(c.register(1), a.wrapping_sub(b));
        assert_eq!(c.register(15), if a >= b { 1 } else { 0 });
    }
}

#[test]
fn reverse_sub_and_shifts_use_vy() {
    let c = alu(7, 3, 5);
    assert_eq!(c.register(1), 2);
    assert_eq!(c.register(15), 1);
    let c = alu(6, 0xFF, 0x03);
    assert_eq!(c.register(1), 0x01);
    assert_eq!(c.register(15), 1);
    let c = alu(0xE, 0x00, 0x81);
    assert_eq!(c.register(1), 0x02);
    assert_eq!(c.register(15), 1);
}

#[test]
fn logic_ops_clear_flag() {
    let rom = [0x6F, 0x07, 0x61, 0x0C, 0x62, 0x0A, 0x81, 0x21];
    let mut c = machine(&rom);
    run(&mut c, 4);
    assert_eq!(c.register(1), 0x0E);
    assert_eq!(c.register(15), 0);
    let c = alu(2, 0x0C, 0x0A);
    assert_eq!(c.register(1), 0x08);
    let c = alu(3, 0x0C, 0x0A);
    assert_eq!(c.register(1), 0x06);
}

#[test]
fn add_immediate_wraps_without_flag() {
    let rom = [0x6F, 0x05, 0x60, 0xFF, 0x70, 0x02];
    let mut c = machine(&rom);
    run(&mut c, 3);
    assert_eq!(c.register(0), 1);
    assert_eq!(c.register(15), 5);
}

#[test]
fn timer_instructions() {
    let rom = [0x60, 0x03, 0xF0, 0x15, 0xF0, 0x18, 0xF1, 0x07];
    let mut c = machine(&rom);
    run(&mut c, 3);
    assert_eq!(c.delay_timer(), 3);
    assert_eq!(c.sound_timer(), 3);
    for _ in 0..5 {
        c.tick();
    }
    assert_eq!(c.delay_timer(), 0);
    assert_eq!(c.sound_timer(), 0);
    run(&mut c, 1);
    assert_eq!(c.register(1), 0);
}

#[test]
fn delay_timer_read_after_ticks() {
    let rom = [0x60, 0x0A, 0xF0, 0x15, 0xF1, 0x07];
    let mut c = machine(&rom);
    run(&mut c, 2);
    c.tick();
    c.tick();
    run(&mut c, 1);
    assert_eq!(c.register(1), 8);
}

#[test]
fn font_glyph_zero_is_drawn_exactly() {
    // V0 = 0; I = glyph of V0; draw 5 rows at (V0, V1) = (0, 0).
    let rom = [0x60, 0x00, 0xF0, 0x29, 0xD0, 0x15];
    let mut c = machine(&rom);
    run(&mut c, 3);
    assert_eq!(c.index(), 0);
    let glyph = [0xF0u8, 0x90, 0x90, 0x90, 0xF0];
    let vpu = c.vpu();
    for y in 0..32u16 {
        for x in 0..64u16 {
            let expected = y < 5 && x < 8 && glyph[y as usize] & (0x80 >> x) != 0;
            assert_eq!(vpu.read((x, y)), expected, "pixel ({}, {})", x, y);
        }
    }
    assert_eq!(c.register(15), 0);
}

#[test]
fn clear_then_self_loop() {
    // Draw something first so that the clear is visible.
    let rom = [0xD0, 0x15, 0x00, 0xE0, 0x12, 0x04];
    let mut c = machine(&rom);
    run(&mut c, 1);
    assert!(c.vpu().get_data().iter().any(|b| *b));
    run(&mut c, 1);
    assert!(c.vpu().get_data().iter().all(|b| !*b));
    assert_eq!(c.pc(), 0x204);
    run(&mut c, 1);
    assert_eq!(c.pc(), 0x204);
    run(&mut c, 10);
    assert_eq!(c.pc(), 0x204);
}

#[test]
fn clear_and_jump_to_itself() {
    let rom = [0x00, 0xE0, 0x12, 0x02];
    let mut c = machine(&rom);
    run(&mut c, 1);
    assert!(c.vpu().get_data().iter().all(|b| !*b));
    assert_eq!(c.pc(), 0x202);
    run(&mut c, 1);
    assert_eq!(c.pc(), 0x202);
    run(&mut c, 5);
    assert_eq!(c.pc(), 0x202);
}

#[test]
fn drawing_twice_restores_display() {
    // V0 = 10, V1 = 20, I = glyph 8, draw twice.
    let rom = [0x60, 0x0A, 0x61, 0x14, 0x62, 0x08, 0xF2, 0x29, 0xD0, 0x15, 0xD0, 0x15];
    let mut c = machine(&rom);
    run(&mut c, 5);
    assert_eq!(c.register(15), 0);
    assert!(c.vpu().read((10, 20)));
    run(&mut c, 1);
    assert_eq!(c.register(15), 1);
    assert!(c.vpu().get_data().iter().all(|b| !*b));
}

#[test]
fn sprite_is_clipped_at_the_edges() {
    // V0 = 62, V1 = 30: the glyph of 0 hangs off the right and bottom edges.
    let rom = [0x60, 0x3E, 0x61, 0x1E, 0xA0, 0x00, 0xD0, 0x15];
    let mut c = machine(&rom);
    run(&mut c, 4);
    let lit: usize = c.vpu().get_data().iter().filter(|b| **b).count();
    // Rows 30 and 31, columns 62 and 63: 0xF0 and 0x90 give 2 + 1 pixels.
    assert_eq!(lit, 3);
    assert!(c.vpu().read((62, 30)));
    assert!(c.vpu().read((63, 30)));
    assert!(c.vpu().read((62, 31)));
    assert!(!c.vpu().read((0, 0)));
}

#[test]
fn sprite_origin_wraps_modulo_screen() {
    // V0 = 64 + 1, V1 = 32 + 2: origin (1, 2).
    let rom = [0x60, 0x41, 0x61, 0x22, 0xA0, 0x00, 0xD0, 0x11];
    let mut c = machine(&rom);
    run(&mut c, 4);
    assert!(c.vpu().read((1, 2)));
    assert!(c.vpu().read((4, 2)));
    assert!(!c.vpu().read((5, 2)));
}

#[test]
fn store_then_load_round_trip() {
    let rom = [
        0x60, 0x11, 0x61, 0x22, 0x62, 0x33, 0xA3, 0x00, 0xF2, 0x55, 0x60, 0x00, 0x61, 0x00,
        0x62, 0x00, 0xA3, 0x00, 0xF2, 0x65,
    ];
    let mut c = machine(&rom);
    run(&mut c, 5);
    assert_eq!(c.index(), 0x303);
    assert_eq!(c.read_memory(0x300), 0x11);
    assert_eq!(c.read_memory(0x301), 0x22);
    assert_eq!(c.read_memory(0x302), 0x33);
    assert_eq!(c.read_memory(0x303), 0x00);
    run(&mut c, 5);
    assert_eq!(c.index(), 0x303);
    assert_eq!((c.register(0), c.register(1), c.register(2)), (0x11, 0x22, 0x33));
}

#[test]
fn bcd_digits() {
    let rom = [0x60, 0xFE, 0xA3, 0x00, 0xF0, 0x33];
    let mut c = machine(&rom);
    run(&mut c, 3);
    assert_eq!(c.read_memory(0x300), 2);
    assert_eq!(c.read_memory(0x301), 5);
    assert_eq!(c.read_memory(0x302), 4);
}

#[test]
fn add_index_flags_overflow_past_address_space() {
    let rom = [0x60, 0x02, 0xAF, 0xFD, 0xF0, 0x1E, 0xF0, 0x1E];
    let mut c = machine(&rom);
    run(&mut c, 3);
    assert_eq!(c.index(), 0xFFF);
    assert_eq!(c.register(15), 0);
    run(&mut c, 1);
    assert_eq!(c.index(), 0x1001);
    assert_eq!(c.register(15), 1);
}

#[test]
fn skips() {
    // V0 = 5; 3005 skips; 4005 does not; V1 = 5; 5010 skips; 9010 does not.
    let rom = [0x60, 0x05, 0x30, 0x05, 0x00, 0x00, 0x40, 0x05, 0x61, 0x05, 0x50, 0x10, 0x00, 0x00, 0x90, 0x10, 0x62, 0x01];
    let mut c = machine(&rom);
    run(&mut c, 2);
    assert_eq!(c.pc(), 0x206);
    run(&mut c, 1);
    assert_eq!(c.pc(), 0x208);
    run(&mut c, 2);
    assert_eq!(c.pc(), 0x20E);
    run(&mut c, 2);
    assert_eq!(c.register(2), 1);
}

#[test]
fn call_and_return() {
    // 0x200: call 0x206; 0x202: V1 = 7; 0x204: jump 0x204; 0x206: V0 = 9; return.
    let rom = [0x22, 0x06, 0x61, 0x07, 0x12, 0x04, 0x60, 0x09, 0x00, 0xEE];
    let mut c = machine(&rom);
    run(&mut c, 1);
    assert_eq!(c.pc(), 0x206);
    run(&mut c, 2);
    assert_eq!(c.pc(), 0x202);
    assert_eq!(c.register(0), 9);
    run(&mut c, 1);
    assert_eq!(c.register(1), 7);
}

#[test]
fn jump_with_offset_and_random_mask() {
    let rom = [0x60, 0x04, 0xB2, 0x00, 0x00, 0x00, 0xC1, 0x0F, 0xC2, 0x00];
    let mut c = machine(&rom);
    run(&mut c, 2);
    assert_eq!(c.pc(), 0x204);
    let mut c = machine(&rom[6..]);
    c.step_with_random(0xAB).unwrap();
    assert_eq!(c.register(1), 0x0B);
    let mut c = machine(&rom[6..]);
    for _ in 0..20 {
        c.step().unwrap();
        assert!(c.register(1) <= 0x0F);
        c = machine(&rom[6..]);
    }
    let mut c = machine(&rom[8..]);
    c.step().unwrap();
    assert_eq!(c.register(2), 0);
}

#[test]
fn key_skips_use_current_state() {
    let rom = [0x60, 0x03, 0xE0, 0x9E, 0x00, 0x00, 0xE0, 0xA1, 0x61, 0x01];
    let mut c = machine(&rom);
    c.keypad_mut().set_state(3, true);
    run(&mut c, 2);
    assert_eq!(c.pc(), 0x206);
    run(&mut c, 1);
    assert_eq!(c.pc(), 0x208);
}

#[test]
fn wait_for_key_blocks_until_a_press() {
    let rom = [0xF5, 0x0A, 0x61, 0x01];
    let mut c = machine(&rom);
    run(&mut c, 1);
    assert!(c.is_waiting());
    run(&mut c, 3);
    assert!(c.is_waiting());
    assert_eq!(c.register(1), 0);
    c.keypad_mut().set_state(9, true);
    c.keypad_mut().set_state(4, true);
    run(&mut c, 1);
    assert!(!c.is_waiting());
    assert_eq!(c.register(5), 4);
    run(&mut c, 1);
    assert_eq!(c.register(1), 1);
}

#[test]
fn wait_for_key_ignores_a_release() {
    let rom = [0xF5, 0x0A];
    let mut c = machine(&rom);
    c.keypad_mut().set_state(2, true);
    let _ = c.keypad_mut().has_changed();
    run(&mut c, 1);
    assert!(c.is_waiting());
    c.keypad_mut().set_state(2, false);
    run(&mut c, 1);
    assert!(c.is_waiting());
}

#[test]
fn unknown_instruction_is_an_error() {
    for word in [0x0123u16, 0x5121, 0x8128, 0x9121, 0xE1FF, 0xF1FF, 0x0000] {
        let rom = [(word >> 8) as u8, word as u8];
        let mut c = machine(&rom);
        assert_eq!(c.step_with_random(0), Err(Chip8Error::UnknownInstruction(word)));
        assert_eq!(c.pc(), 0x200);
    }
}

#[test]
fn return_without_call_underflows() {
    let mut c = machine(&[0x00, 0xEE]);
    assert_eq!(c.step_with_random(0), Err(Chip8Error::StackUnderflow));
    assert_eq!(c.pc(), 0x200);
}

#[test]
fn endless_recursion_overflows() {
    let mut c = machine(&[0x22, 0x00]);
    run(&mut c, 15);
    assert_eq!(c.step_with_random(0), Err(Chip8Error::StackOverflow));
}

#[test]
fn rom_size_limit() {
    let big = vec![0u8; 0xE01];
    assert!(matches!(Chip8::with_rom(&big), Err(Chip8Error::RomTooLarge)));
    let fits = vec![0xAAu8; 0xE00];
    let c = Chip8::with_rom(&fits).unwrap();
    assert_eq!(c.read_memory(0xFFF), 0xAA);
    let mut c = Chip8::new();
    assert_eq!(c.load(&big), Err(Chip8Error::RomTooLarge));
    assert_eq!(c.read_memory(0x200), 0);
}

#[test]
fn new_machine_has_font_and_starts_at_program() {
    let c = Chip8::new();
    assert_eq!(c.pc(), 0x200);
    assert_eq!(c.read_memory(0), 0xF0);
    assert_eq!(c.read_memory(79), 0x80);
    assert_eq!(c.read_memory(80), 0);
    assert!(!c.is_waiting());
}

#[test]
fn decode_fields_and_words() {
    let i = Instruction(0xD12A);
    assert_eq!(i.opcode(), 0xD);
    assert_eq!(i.reg_h(), 1);
    assert_eq!(i.reg_l(), 2);
    assert_eq!(i.imm4(), 0xA);
    assert_eq!(i.imm8(), 0x2A);
    assert_eq!(i.addr(), 0x12A);
    assert_eq!(decode(0x00E0), Ok(Op::Clear));
    assert_eq!(decode(0xD12A), Ok(Op::Draw(1, 2, 0xA)));
    assert_eq!(decode(0xF365), Ok(Op::LoadRegs(3)));
    assert_eq!(decode(0x8AB6), Ok(Op::ShiftRight(0xA, 0xB)));
    assert_eq!(decode(0x00E1), Err(Chip8Error::UnknownInstruction(0x00E1)));
}

#[test]
fn load_reinstalls_font() {
    // V0 = 0xAA; I = 0; store V0 over the first font byte.
    let rom = [0x60, 0xAA, 0xA0, 0x00, 0xF0, 0x55];
    let mut c = machine(&rom);
    run(&mut c, 3);
    assert_eq!(c.read_memory(0), 0xAA);
    c.load(&[0x12, 0x00]).unwrap();
    assert_eq!(c.read_memory(0), 0xF0);
    assert_eq!(c.read_memory(5 * 0xF + 4), 0x80);
    assert_eq!(c.read_memory(0x200), 0x12);
    assert_eq!(c.read_memory(0x201), 0x00);
    assert_eq!(c.read_memory(0x202), 0xA0);
    assert_eq!(c.register(0), 0xAA);
}
