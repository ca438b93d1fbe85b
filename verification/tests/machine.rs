use chip8::font::{FONT, FONT_START};
use chip8::{Chip8, LoadError, StepOutcome, MEMORY_SIZE, PIXELS, PROGRAM_START};

fn machine(program: &[u8]) -> Chip8 {
    let mut c = Chip8::new();
    c.load(program).unwrap();
    c
}

fn run(c: &mut Chip8, steps: usize) {
    for _ in 0..steps {
        assert!(c.can_emulate());
        assert_eq!(c.emulate_with(0), StepOutcome::Executed);
    }
}

#[test]
fn new_machine_starts_at_program_start_with_font() {
    let c = Chip8::new();
    assert_eq!(c.pc(), 0x200);
    assert_eq!(c.index_register(), 0);
    assert_eq!(c.stack_depth(), 0);
    assert_eq!(c.delay_timer(), 0);
    assert_eq!(c.sound_timer(), 0);
    assert!(!c.is_waiting_for_key());
    for i in 0..16 {
        assert_eq!(c.register(i), 0);
    }
    for i in 0..80 {
        assert_eq!(c.memory_at(FONT_START + i), FONT[i]);
    }
    assert_eq!(c.memory_at(0), 0);
    assert_eq!(c.memory_at(FONT_START + 80), 0);
    assert_eq!(c.memory_at(MEMORY_SIZE - 1), 0);
    assert!(c.screen().iter().all(|&p| p == 0));
    assert_eq!(c.screen().len(), PIXELS);
}

#[test]
fn load_copies_program_to_program_start() {
    let c = machine(&[0xAB, 0xCD, 0xEF]);
    assert_eq!(c.memory_at(PROGRAM_START), 0xAB);
    assert_eq!(c.memory_at(PROGRAM_START + 1), 0xCD);
    assert_eq!(c.memory_at(PROGRAM_START + 2), 0xEF);
    assert_eq!(c.memory_at(PROGRAM_START + 3), 0);
    assert_eq!(c.memory_at(FONT_START), FONT[0]);
}

#[test]
fn load_accepts_program_filling_memory() {
    let rom = vec![7u8; MEMORY_SIZE - PROGRAM_START];
    let mut c = Chip8::new();
    assert_eq!(c.load(&rom), Ok(()));
    assert_eq!(c.memory_at(MEMORY_SIZE - 1), 7);
    assert_eq!(c.memory_at(PROGRAM_START - 1), 0);
}

#[test]
fn load_refuses_program_too_large() {
    let rom = vec![7u8; MEMORY_SIZE - PROGRAM_START + 1];
    let mut c = Chip8::new();
    assert_eq!(c.load(&rom), Err(LoadError::RomTooLarge { max_size: 3584 }));
    assert_eq!(c.memory_at(PROGRAM_START), 0);
}

#[test]
fn set_register_and_add_wraps() {
    let mut c = machine(&[0x63, 0xF0, 0x73, 0x20, 0x73, 0x01]);
    run(&mut c, 1);
    assert_eq!(c.register(3), 0xF0);
    run(&mut c, 1);
    assert_eq!(c.register(3), 0x10);
    run(&mut c, 1);
    assert_eq!(c.register(3), 0x11);
    assert_eq!(c.register(0xF), 0);
    assert_eq!(c.pc(), 0x206);
}

#[test]
fn add_registers_sets_carry() {
    // V1 = 0xF0, V2 = 0x20, V1 += V2 -> 0x10 carry 1; V1 += V1 -> 0x20 carry 0
    let mut c = machine(&[0x61, 0xF0, 0x62, 0x20, 0x81, 0x24, 0x81, 0x14]);
    run(&mut c, 3);
    assert_eq!(c.register(1), 0x10);
    assert_eq!(c.register(0xF), 1);
    assert_eq!(c.register(1) as u32 + 256 * c.register(0xF) as u32, 0xF0 + 0x20);
    run(&mut c, 1);
    assert_eq!(c.register(1), 0x20);
    assert_eq!(c.register(0xF), 0);
}

#[test]
fn subtract_sets_no_borrow_flag() {
    // V1 = 5, V2 = 7: V1 -= V2 -> 0xFE, VF 0; then V3 = 9, V4 = 4, V3 -= V4 -> 5, VF 1
    let mut c = machine(&[0x61, 0x05, 0x62, 0x07, 0x81, 0x25, 0x63, 0x09, 0x64, 0x04, 0x83, 0x45]);
    run(&mut c, 3);
    assert_eq!(c.register(1), 0xFE);
    assert_eq!(c.register(0xF), 0);
    run(&mut c, 3);
    assert_eq!(c.register(3), 5);
    assert_eq!(c.register(0xF), 1);
}

#[test]
fn reverse_subtract_sets_no_borrow_flag() {
    // V1 = 3, V2 = 10: V1 = V2 - V1 = 7, VF 1; V5 = 10, V6 = 3: V5 = V6 - V5 = 0xF9, VF 0
    let mut c = machine(&[0x61, 0x03, 0x62, 0x0A, 0x81, 0x27, 0x65, 0x0A, 0x66, 0x03, 0x85, 0x67]);
    run(&mut c, 3);
    assert_eq!(c.register(1), 7);
    assert_eq!(c.register(0xF), 1);
    run(&mut c, 3);
    assert_eq!(c.register(5), 0xF9);
    assert_eq!(c.register(0xF), 0);
}

#[test]
fn shifts_set_flag_from_shifted_out_bit() {
    // V1 = 0x81: 8106 -> 0x40 VF 1; V2 = 0x81: 820E -> 0x02 VF 1; V3 = 0x40: 830E -> 0x80 VF 0
    let mut c = machine(&[0x61, 0x81, 0x81, 0x06, 0x62, 0x81, 0x82, 0x0E, 0x63, 0x40, 0x83, 0x0E]);
    run(&mut c, 2);
    assert_eq!(c.register(1), 0x40);
    assert_eq!(c.register(0xF), 1);
    run(&mut c, 2);
    assert_eq!(c.register(2), 0x02);
    assert_eq!(c.register(0xF), 1);
    run(&mut c, 2);
    assert_eq!(c.register(3), 0x80);
    assert_eq!(c.register(0xF), 0);
}

#[test]
fn bitwise_operations_and_copy() {
    // V1 = 0x0F, V2 = 0x3C; V3 = V1; V3 |= V2; V4 = V1; V4 &= V2; V5 = V1; V5 ^= V2
    let mut c = machine(&[
        0x61, 0x0F, 0x62, 0x3C, 0x83, 0x10, 0x83, 0x21, 0x84, 0x10, 0x84, 0x22, 0x85, 0x10, 0x85,
        0x23,
    ]);
    run(&mut c, 8);
    assert_eq!(c.register(3), 0x3F);
    assert_eq!(c.register(4), 0x0C);
    assert_eq!(c.register(5), 0x33);
}

#[test]
fn flag_register_as_target_keeps_flag() {
    // VF = 0xFF, V1 = 1: 8F14 -> VF is the carry (1), not the sum
    let mut c = machine(&[0x6F, 0xFF, 0x61, 0x01, 0x8F, 0x14]);
    run(&mut c, 3);
    assert_eq!(c.register(0xF), 1);
}

#[test]
fn jump_and_jump_with_offset() {
    // 0x200: 1208 (jump to 0x208); 0x208: 6002 (V0 = 2); 0x20A: B300 (jump to 0x302)
    let mut c = machine(&[0x12, 0x08, 0, 0, 0, 0, 0, 0, 0x60, 0x02, 0xB3, 0x00]);
    run(&mut c, 1);
    assert_eq!(c.pc(), 0x208);
    run(&mut c, 2);
    assert_eq!(c.pc(), 0x302);
}

#[test]
fn call_then_return_restores_machine() {
    // 0x200: 2206 (call 0x206); 0x206: 00EE (return)
    let mut c = machine(&[0x22, 0x06, 0, 0, 0, 0, 0x00, 0xEE]);
    run(&mut c, 1);
    assert_eq!(c.pc(), 0x206);
    assert_eq!(c.stack_depth(), 1);
    run(&mut c, 1);
    assert_eq!(c.pc(), 0x202);
    assert_eq!(c.stack_depth(), 0);
}

#[test]
fn return_with_empty_stack_only_moves_on() {
    let mut c = machine(&[0x00, 0xEE]);
    run(&mut c, 1);
    assert_eq!(c.pc(), 0x202);
    assert_eq!(c.stack_depth(), 0);
}

#[test]
fn call_with_full_stack_is_out_of_bounds() {
    // 0x200: 2200 calls itself forever
    let mut c = machine(&[0x22, 0x00]);
    run(&mut c, 16);
    assert_eq!(c.stack_depth(), 16);
    assert!(!c.can_emulate());
}

#[test]
fn skips_on_comparisons() {
    // V1 = 5; 3105 skips; 4105 does not; V2 = 5; 5120 skips; 9120 does not
    let mut c = machine(&[
        0x61, 0x05, 0x31, 0x05, 0, 0, 0x41, 0x05, 0x62, 0x05, 0x51, 0x20, 0, 0, 0x91, 0x20,
    ]);
    run(&mut c, 1);
    run(&mut c, 1);
    assert_eq!(c.pc(), 0x206);
    run(&mut c, 1);
    assert_eq!(c.pc(), 0x208);
    run(&mut c, 2);
    assert_eq!(c.pc(), 0x20E);
    run(&mut c, 1);
    assert_eq!(c.pc(), 0x210);
}

#[test]
fn index_register_loads_and_adds() {
    // A123; V1 = 0x10; F11E
    let mut c = machine(&[0xA1, 0x23, 0x61, 0x10, 0xF1, 0x1E]);
    run(&mut c, 3);
    assert_eq!(c.index_register(), 0x133);
}

#[test]
fn index_register_overflow_is_out_of_bounds() {
    // AFFF; V1 = 0xFF; repeated F11E until I would pass 0xFFFF
    let mut program = vec![0xAF, 0xFF, 0x61, 0xFF];
    for _ in 0..300 {
        program.extend_from_slice(&[0xF1, 0x1E]);
    }
    let mut c = machine(&program);
    run(&mut c, 2);
    let mut steps = 0;
    while c.can_emulate() {
        c.emulate_with(0);
        steps += 1;
    }
    assert_eq!(steps, (0xFFFF - 0xFFF) / 0xFF);
    assert!(c.index_register() as u32 + 0xFF > 0xFFFF);
}

#[test]
fn font_glyph_address() {
    // V1 = 0xA; F129 -> I = FONT_START + 50
    let mut c = machine(&[0x61, 0x0A, 0xF1, 0x29]);
    run(&mut c, 2);
    assert_eq!(c.index_register() as usize, FONT_START + 50);
}

#[test]
fn font_glyph_of_large_value_is_out_of_bounds() {
    let mut c = machine(&[0x61, 0x34, 0xF1, 0x29]);
    run(&mut c, 1);
    assert!(!c.can_emulate());
}

#[test]
fn bcd_digits_of_register() {
    // V1 = 254; A300; F133
    let mut c = machine(&[0x61, 254, 0xA3, 0x00, 0xF1, 0x33]);
    run(&mut c, 3);
    assert_eq!(c.memory_at(0x300), 2);
    assert_eq!(c.memory_at(0x301), 5);
    assert_eq!(c.memory_at(0x302), 4);
}

#[test]
fn bcd_at_end_of_memory_is_out_of_bounds() {
    let mut c = machine(&[0xAF, 0xFE, 0xF1, 0x33]);
    run(&mut c, 1);
    assert!(!c.can_emulate());
}

#[test]
fn store_and_load_registers() {
    // V0 = 1, V1 = 2, V2 = 3; A300; F255; V0 = V1 = V2 = 0 via 6000 6100 6200; F165
    let mut c = machine(&[
        0x60, 0x01, 0x61, 0x02, 0x62, 0x03, 0xA3, 0x00, 0xF2, 0x55, 0x60, 0x00, 0x61, 0x00, 0x62,
        0x00, 0xF1, 0x65,
    ]);
    run(&mut c, 5);
    assert_eq!(c.memory_at(0x300), 1);
    assert_eq!(c.memory_at(0x301), 2);
    assert_eq!(c.memory_at(0x302), 3);
    assert_eq!(c.memory_at(0x303), 0);
    assert_eq!(c.index_register(), 0x300);
    run(&mut c, 4);
    assert_eq!(c.register(0), 1);
    assert_eq!(c.register(1), 2);
    assert_eq!(c.register(2), 0);
}

#[test]
fn register_dump_past_memory_is_out_of_bounds() {
    let mut c = machine(&[0xAF, 0xFE, 0xF2, 0x55]);
    run(&mut c, 1);
    assert!(!c.can_emulate());
}

#[test]
fn draw_sprite_then_redraw_erases_and_reports_collision() {
    // I = font glyph 0 (F0 90 90 90 F0) at (0, 0): D015 twice
    let mut c = machine(&[0xA0, FONT_START as u8, 0xD0, 0x15, 0xD0, 0x15]);
    run(&mut c, 2);
    let s = c.screen();
    assert_eq!(&s[0..8], &[1, 1, 1, 1, 0, 0, 0, 0]);
    assert_eq!(&s[64..72], &[1, 0, 0, 1, 0, 0, 0, 0]);
    assert_eq!(s.iter().filter(|&&p| p == 1).count(), 14);
    assert_eq!(c.register(0xF), 0);
    run(&mut c, 1);
    assert!(c.screen().iter().all(|&p| p == 0));
    assert_eq!(c.register(0xF), 1);
}

#[test]
fn draw_sprite_is_clipped_at_the_edges() {
    // V1 = 62, V2 = 30; I = glyph 0; D125: only columns 62, 63 and rows 30, 31
    let mut c = machine(&[0x61, 62, 0x62, 30, 0xA0, FONT_START as u8, 0xD1, 0x25]);
    run(&mut c, 4);
    let s = c.screen();
    assert_eq!(s[30 * 64 + 62], 1);
    assert_eq!(s[30 * 64 + 63], 1);
    assert_eq!(s[31 * 64 + 62], 1);
    assert_eq!(s[31 * 64 + 63], 0);
    assert_eq!(s.iter().filter(|&&p| p == 1).count(), 3);
}

#[test]
fn draw_position_wraps_start_coordinates() {
    // V1 = 64 + 1, V2 = 32 + 2: sprite starts at (1, 2)
    let mut c = machine(&[0x61, 65, 0x62, 34, 0xA0, FONT_START as u8, 0xD1, 0x21]);
    run(&mut c, 4);
    let s = c.screen();
    assert_eq!(&s[2 * 64..2 * 64 + 6], &[0, 1, 1, 1, 1, 0]);
}

#[test]
fn draw_sprite_past_memory_is_out_of_bounds() {
    let mut c = machine(&[0xAF, 0xFE, 0xD0, 0x03]);
    run(&mut c, 1);
    assert!(!c.can_emulate());
}

#[test]
fn clear_screen() {
    let mut c = machine(&[0xA0, FONT_START as u8, 0xD0, 0x15, 0x00, 0xE0]);
    run(&mut c, 2);
    assert!(c.screen().iter().any(|&p| p == 1));
    run(&mut c, 1);
    assert!(c.screen().iter().all(|&p| p == 0));
}

#[test]
fn random_byte_is_masked() {
    let mut c = machine(&[0xC1, 0x0F, 0xC2, 0xF0]);
    assert_eq!(c.emulate_with(0xAB), StepOutcome::Executed);
    assert_eq!(c.register(1), 0x0B);
    assert_eq!(c.emulate_with(0xAB), StepOutcome::Executed);
    assert_eq!(c.register(2), 0xA0);
}

#[test]
fn emulate_draws_random_byte_within_mask() {
    let mut c = machine(&[0xC1, 0x0F]);
    assert_eq!(c.emulate(), StepOutcome::Executed);
    assert_eq!(c.register(1) & 0xF0, 0);
    assert_eq!(c.pc(), 0x202);
}

#[test]
fn keys_skip_instructions() {
    // V1 = 7; E19E (skip if key 7 down); E1A1 (skip if key 7 up)
    let mut c = machine(&[0x61, 0x07, 0xE1, 0x9E, 0, 0, 0xE1, 0xA1]);
    run(&mut c, 1);
    c.set_key(7, true);
    run(&mut c, 1);
    assert_eq!(c.pc(), 0x206);
    run(&mut c, 1);
    assert_eq!(c.pc(), 0x208);
    c.set_key(7, false);
    let mut d = machine(&[0x61, 0x17, 0xE1, 0xA1]);
    run(&mut d, 2);
    assert_eq!(d.pc(), 0x206);
}

#[test]
fn wait_for_key_blocks_until_fresh_press() {
    // F30A; 6101
    let mut c = machine(&[0xF3, 0x0A, 0x61, 0x01]);
    c.set_key(5, true);
    run(&mut c, 1);
    assert!(c.is_waiting_for_key());
    assert_eq!(c.emulate_with(0), StepOutcome::Waiting);
    assert_eq!(c.pc(), 0x202);
    // a key already held does not end the wait, nor does a release
    c.set_key(5, true);
    assert!(c.is_waiting_for_key());
    c.set_key(5, false);
    assert!(c.is_waiting_for_key());
    c.set_key(0xB, true);
    assert!(!c.is_waiting_for_key());
    assert_eq!(c.register(3), 0xB);
    run(&mut c, 1);
    assert_eq!(c.register(1), 1);
}

#[test]
fn timers_load_read_and_tick_down_to_zero() {
    // V1 = 2; F115 (delay = 2); F118 (sound = 2); F207 (V2 = delay)
    let mut c = machine(&[0x61, 0x02, 0xF1, 0x15, 0xF1, 0x18, 0xF2, 0x07]);
    run(&mut c, 3);
    assert_eq!(c.delay_timer(), 2);
    assert_eq!(c.sound_timer(), 2);
    c.tick_timers();
    assert_eq!(c.delay_timer(), 1);
    run(&mut c, 1);
    assert_eq!(c.register(2), 1);
    c.tick_timers();
    c.tick_timers();
    assert_eq!(c.delay_timer(), 0);
    assert_eq!(c.sound_timer(), 0);
}

#[test]
fn unknown_opcodes_only_advance() {
    let mut c = machine(&[0x01, 0x23, 0x81, 0x2F, 0xE1, 0x00, 0xF1, 0x00]);
    assert_eq!(c.emulate_with(0), StepOutcome::UnknownOpcode(0x0123));
    assert_eq!(c.emulate_with(0), StepOutcome::UnknownOpcode(0x812F));
    assert_eq!(c.emulate_with(0), StepOutcome::UnknownOpcode(0xE100));
    assert_eq!(c.emulate_with(0), StepOutcome::UnknownOpcode(0xF100));
    assert_eq!(c.pc(), 0x208);
    for i in 0..16 {
        assert_eq!(c.register(i), 0);
    }
}

#[test]
fn fetch_past_memory_is_out_of_bounds() {
    // jump to 0xFFF: the opcode there would need a byte past memory
    let mut c = machine(&[0x1F, 0xFF]);
    run(&mut c, 1);
    assert_eq!(c.pc(), 0xFFF);
    assert!(!c.can_emulate());
}

#[test]
fn set_pixel_xors_and_flags_collision() {
    let mut c = Chip8::new();
    c.set_pixel(3, 2, 1);
    assert_eq!(c.screen()[2 * 64 + 3], 1);
    assert_eq!(c.register(0xF), 0);
    c.set_pixel(3, 2, 1);
    assert_eq!(c.screen()[2 * 64 + 3], 0);
    assert_eq!(c.register(0xF), 1);
}

#[test]
fn set_pixel_off_screen_is_ignored() {
    let mut c = Chip8::new();
    c.set_pixel(64, 0, 1);
    c.set_pixel(0, 32, 1);
    assert!(c.screen().iter().all(|&p| p == 0));
    assert_eq!(c.register(0xF), 0);
}

#[test]
fn waiting_machine_can_always_emulate() {
    let mut c = machine(&[0xF0, 0x0A]);
    run(&mut c, 1);
    assert!(c.can_emulate());
    assert_eq!(c.emulate(), StepOutcome::Waiting);
}

#[test]
fn timers_stop_at_zero_after_many_ticks() {
    // V1 = 0xFF; F115; F118; then 300 ticks
    let mut c = machine(&[0x61, 0xFF, 0xF1, 0x15, 0xF1, 0x18]);
    run(&mut c, 3);
    for k in 1..=300u32 {
        c.tick_timers();
        let expected = 255u32.saturating_sub(k) as u8;
        assert_eq!(c.delay_timer(), expected);
        assert_eq!(c.sound_timer(), expected);
    }
    assert_eq!(c.pc(), 0x206);
}
