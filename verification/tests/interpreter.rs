use chippin::chip8::Chip8;
use chippin::state::VmError;

fn boot(prog: &[u8]) -> Chip8 {
    let mut c = Chip8::new();
    c.load_program(prog).unwrap();
    c
}

fn step(c: &mut Chip8) -> bool {
    c.cycle().unwrap()
}

#[test]
fn initial_state_values() {
    let c = Chip8::new();
    assert_eq!(c.program_counter(), 0x200);
    assert_eq!(c.index_register(), 0);
    assert_eq!(c.stack_pointer(), 0);
    assert_eq!(c.delay_value(), 0);
    assert_eq!(c.sound_value(), 0);
    for x in 0..16 {
        assert_eq!(c.reg(x), 0);
    }
}

#[test]
fn font_is_loaded_at_low_memory() {
    let c = Chip8::new();
    // glyph 0 starts with 0xF0, glyph 1 with 0x20, glyph F ends with 0x80
    assert_eq!(c.mem_byte(0), 0xF0);
    assert_eq!(c.mem_byte(5), 0x20);
    assert_eq!(c.mem_byte(79), 0x80);
    assert_eq!(c.mem_byte(80), 0);
}

#[test]
fn load_immediate_sets_register() {
    // P1: 6XKK writes KK into V[X]
    let mut c = boot(&[0x6A, 0x42]);
    assert!(!step(&mut c));
    assert_eq!(c.reg(0xA), 0x42);
    assert_eq!(c.program_counter(), 0x202);
}

#[test]
fn add_immediate_wraps_and_leaves_flag() {
    // P2: 7XKK adds modulo 256 and does not touch VF
    let mut c = boot(&[0x60, 0xC8, 0x70, 0x64]);
    step(&mut c); // V0 = 200
    step(&mut c); // V0 += 100
    assert_eq!(c.reg(0), (200u32 + 100) as u8);
    assert_eq!(c.reg(0), 44);
    assert_eq!(c.reg(0xF), 0);
}

#[test]
fn add_with_carry_sets_flag() {
    // P3: 8XY4 with carry
    let mut c = boot(&[0x60, 0xFF, 0x61, 0x02, 0x80, 0x14]);
    step(&mut c);
    step(&mut c);
    step(&mut c);
    assert_eq!(c.reg(0), 1); // (255 + 2) mod 256
    assert_eq!(c.reg(0xF), 1);
}

#[test]
fn add_without_carry_clears_flag() {
    // P3: 8XY4 without carry
    let mut c = boot(&[0x60, 0x05, 0x61, 0x03, 0x80, 0x14]);
    step(&mut c);
    step(&mut c);
    step(&mut c);
    assert_eq!(c.reg(0), 8);
    assert_eq!(c.reg(0xF), 0);
}

#[test]
fn sub_sets_not_borrow_flag() {
    // P4: 8XY5 with a >= b
    let mut c = boot(&[0x60, 0x09, 0x61, 0x03, 0x80, 0x15]);
    step(&mut c);
    step(&mut c);
    step(&mut c);
    assert_eq!(c.reg(0), 6);
    assert_eq!(c.reg(0xF), 1);
}

#[test]
fn sub_equal_values_sets_flag() {
    // P4: VF = 1 also when a == b
    let mut c = boot(&[0x60, 0x07, 0x61, 0x07, 0x80, 0x15]);
    step(&mut c);
    step(&mut c);
    step(&mut c);
    assert_eq!(c.reg(0), 0);
    assert_eq!(c.reg(0xF), 1);
}

#[test]
fn sub_with_borrow_wraps() {
    // P4: 8XY5 with a < b wraps modulo 256 and clears VF
    let mut c = boot(&[0x60, 0x03, 0x61, 0x09, 0x80, 0x15]);
    step(&mut c);
    step(&mut c);
    step(&mut c);
    assert_eq!(c.reg(0), 250); // 3 - 9 mod 256
    assert_eq!(c.reg(0xF), 0);
}

#[test]
fn sub_reversed_takes_vy_minus_vx() {
    let mut c = boot(&[0x60, 0x03, 0x61, 0x09, 0x80, 0x17]);
    step(&mut c);
    step(&mut c);
    step(&mut c);
    assert_eq!(c.reg(0), 6);
    assert_eq!(c.reg(0xF), 1);
}

#[test]
fn bitwise_or_and_xor() {
    let mut c = boot(&[
        0x60, 0x0F, 0x61, 0x33, 0x80, 0x11, // V0 = 0x0F | 0x33 = 0x3F
        0x62, 0xF0, 0x63, 0x33, 0x82, 0x32, // V2 = 0xF0 & 0x33 = 0x30
        0x64, 0x0F, 0x65, 0x33, 0x84, 0x53, // V4 = 0x0F ^ 0x33 = 0x3C
    ]);
    for _ in 0..9 {
        step(&mut c);
    }
    assert_eq!(c.reg(0), 0x3F);
    assert_eq!(c.reg(2), 0x30);
    assert_eq!(c.reg(4), 0x3C);
}

#[test]
fn register_copy() {
    let mut c = boot(&[0x61, 0x5A, 0x80, 0x10]);
    step(&mut c);
    step(&mut c);
    assert_eq!(c.reg(0), 0x5A);
}

#[test]
fn shift_right_takes_low_bit() {
    // 8XY6 operates on V[X] itself: VF gets the low bit, V[X] is halved
    let mut c = boot(&[0x60, 0x05, 0x80, 0x16]);
    step(&mut c);
    step(&mut c);
    assert_eq!(c.reg(0), 2);
    assert_eq!(c.reg(0xF), 1);
}

#[test]
fn shift_left_takes_high_bit() {
    // 8XYE: VF gets the high bit, V[X] is doubled modulo 256
    let mut c = boot(&[0x60, 0x81, 0x80, 0x1E]);
    step(&mut c);
    step(&mut c);
    assert_eq!(c.reg(0), 0x02);
    assert_eq!(c.reg(0xF), 1);
}

#[test]
fn skip_if_equal_immediate() {
    let mut c = boot(&[0x60, 0x07, 0x30, 0x07]);
    step(&mut c);
    step(&mut c);
    assert_eq!(c.program_counter(), 0x206);
}

#[test]
fn no_skip_if_unequal_immediate() {
    let mut c = boot(&[0x60, 0x07, 0x30, 0x08]);
    step(&mut c);
    step(&mut c);
    assert_eq!(c.program_counter(), 0x204);
}

#[test]
fn skip_if_not_equal_immediate() {
    let mut c = boot(&[0x60, 0x07, 0x40, 0x08]);
    step(&mut c);
    step(&mut c);
    assert_eq!(c.program_counter(), 0x206);
}

#[test]
fn skip_if_registers_equal() {
    let mut c = boot(&[0x60, 0x07, 0x61, 0x07, 0x50, 0x10]);
    step(&mut c);
    step(&mut c);
    step(&mut c);
    assert_eq!(c.program_counter(), 0x208);
}

#[test]
fn skip_if_registers_not_equal() {
    let mut c = boot(&[0x60, 0x07, 0x61, 0x08, 0x90, 0x10]);
    step(&mut c);
    step(&mut c);
    step(&mut c);
    assert_eq!(c.program_counter(), 0x208);
}

#[test]
fn jump_sets_program_counter() {
    let mut c = boot(&[0x13, 0x45]);
    step(&mut c);
    assert_eq!(c.program_counter(), 0x345);
}

#[test]
fn jump_with_offset_adds_v0() {
    let mut c = boot(&[0x60, 0x05, 0xB3, 0x00]);
    step(&mut c);
    step(&mut c);
    assert_eq!(c.program_counter(), 0x305);
}

#[test]
fn load_index_register() {
    let mut c = boot(&[0xA3, 0x21]);
    step(&mut c);
    assert_eq!(c.index_register(), 0x321);
}

#[test]
fn add_to_index_register() {
    let mut c = boot(&[0xA3, 0x00, 0x60, 0x10, 0xF0, 0x1E]);
    step(&mut c);
    step(&mut c);
    step(&mut c);
    assert_eq!(c.index_register(), 0x310);
}

#[test]
fn glyph_address_is_five_bytes_per_digit() {
    let mut c = boot(&[0x60, 0x0A, 0xF0, 0x29]);
    step(&mut c);
    step(&mut c);
    assert_eq!(c.index_register(), 50);
}

#[test]
fn call_then_return_resumes_after_call_site() {
    // P9: CALL then RET leaves PC at the instruction following the call
    let mut c = boot(&[0x22, 0x06, 0x00, 0x00, 0x00, 0x00, 0x00, 0xEE]);
    step(&mut c); // CALL 0x206
    assert_eq!(c.program_counter(), 0x206);
    assert_eq!(c.stack_pointer(), 1);
    step(&mut c); // RET
    assert_eq!(c.program_counter(), 0x202);
    assert_eq!(c.stack_pointer(), 0);
}

#[test]
fn return_on_empty_stack_is_fatal() {
    let mut c = boot(&[0x00, 0xEE]);
    assert_eq!(c.cycle(), Err(VmError::StackUnderflow));
    // nothing of the state changed
    assert_eq!(c.program_counter(), 0x200);
    assert_eq!(c.stack_pointer(), 0);
}

#[test]
fn sixteenth_nested_call_is_fatal() {
    // 2200 at 0x200 calls itself: each call pushes one return address
    let mut c = boot(&[0x22, 0x00]);
    for k in 1..=15 {
        assert!(c.cycle().is_ok());
        assert_eq!(c.stack_pointer(), k);
        assert_eq!(c.program_counter(), 0x200);
    }
    assert_eq!(c.cycle(), Err(VmError::StackOverflow));
    assert_eq!(c.stack_pointer(), 15);
    assert_eq!(c.program_counter(), 0x200);
}

#[test]
fn bcd_decomposition() {
    // P8: FX33 with V[X] = 157
    let mut c = boot(&[0x60, 0x9D, 0xA3, 0x00, 0xF0, 0x33]);
    step(&mut c);
    step(&mut c);
    step(&mut c);
    assert_eq!(c.mem_byte(0x300), 1);
    assert_eq!(c.mem_byte(0x301), 5);
    assert_eq!(c.mem_byte(0x302), 7);
}

#[test]
fn store_and_load_register_block() {
    let mut c = boot(&[
        0x60, 0x11, 0x61, 0x22, 0x62, 0x33, // V0..V2
        0xA3, 0x00, 0xF2, 0x55, // store V0..V2 at 0x300
        0x60, 0x00, 0x61, 0x00, 0x62, 0x00, // clear them
        0xF2, 0x65, // load V0..V2 back
    ]);
    for _ in 0..5 {
        step(&mut c);
    }
    assert_eq!(c.mem_byte(0x300), 0x11);
    assert_eq!(c.mem_byte(0x301), 0x22);
    assert_eq!(c.mem_byte(0x302), 0x33);
    for _ in 0..4 {
        step(&mut c);
    }
    assert_eq!(c.reg(0), 0x11);
    assert_eq!(c.reg(1), 0x22);
    assert_eq!(c.reg(2), 0x33);
}

#[test]
fn timer_set_read_and_tick() {
    let mut c = boot(&[0x60, 0x05, 0xF0, 0x15, 0xF0, 0x18, 0xF1, 0x07]);
    step(&mut c); // V0 = 5
    step(&mut c); // delay = 5
    step(&mut c); // sound = 5
    assert_eq!(c.delay_value(), 5);
    assert_eq!(c.sound_value(), 5);
    c.cycle_timers();
    assert_eq!(c.delay_value(), 4);
    assert_eq!(c.sound_value(), 4);
    step(&mut c); // V1 = delay
    assert_eq!(c.reg(1), 4);
}

#[test]
fn timer_tick_at_zero_stays_zero() {
    // P10: no underflow
    let mut c = Chip8::new();
    assert_eq!(c.delay_value(), 0);
    c.cycle_timers();
    assert_eq!(c.delay_value(), 0);
    assert_eq!(c.sound_value(), 0);
}

#[test]
fn end_to_end_three_step_add() {
    // P11: 60 05 61 03 80 14 after three steps
    let mut c = boot(&[0x60, 0x05, 0x61, 0x03, 0x80, 0x14]);
    step(&mut c);
    step(&mut c);
    step(&mut c);
    assert_eq!(c.reg(0), 8);
    assert_eq!(c.reg(1), 3);
    assert_eq!(c.reg(0xF), 0);
    assert_eq!(c.program_counter(), 0x206);
}

#[test]
fn end_to_end_jump_to_self() {
    // P12: 12 00 keeps PC at 0x200 for any number of steps
    let mut c = boot(&[0x12, 0x00]);
    for _ in 0..100 {
        assert_eq!(c.cycle(), Ok(false));
        assert_eq!(c.program_counter(), 0x200);
    }
}

#[test]
fn end_to_end_invalid_opcode() {
    // P13: 00 01 matches no pattern
    let mut c = boot(&[0x00, 0x01]);
    assert_eq!(c.cycle(), Err(VmError::InvalidOpcode(0x0001)));
    assert_eq!(c.program_counter(), 0x200);
}

#[test]
fn invalid_words_in_each_family() {
    for (bytes, word) in [
        ([0x50u8, 0x11u8], 0x5011u16), // 5XY1 is no pattern
        ([0x90, 0x12], 0x9012),        // 9XY2 is no pattern
        ([0x80, 0x08], 0x8008),        // 8XY8 is no pattern
        ([0xE0, 0x00], 0xE000),        // EX00 is no pattern
        ([0xF0, 0x99], 0xF099),        // FX99 is no pattern
    ] {
        let mut c = boot(&bytes);
        assert_eq!(c.cycle(), Err(VmError::InvalidOpcode(word)));
        assert_eq!(c.program_counter(), 0x200);
    }
}

#[test]
fn oversize_image_is_rejected() {
    let mut c = Chip8::new();
    let image = vec![0u8; 4096 - 0x200 + 1];
    assert!(c.load_program(&image).is_err());
    // nothing was written
    assert_eq!(c.mem_byte(0x200), 0);
}

#[test]
fn largest_image_is_accepted() {
    let mut c = Chip8::new();
    let image = vec![0xABu8; 4096 - 0x200];
    assert!(c.load_program(&image).is_ok());
    assert_eq!(c.mem_byte(0x200), 0xAB);
    assert_eq!(c.mem_byte(4095), 0xAB);
    assert_eq!(c.mem_byte(0), 0xF0); // font untouched
}

#[test]
fn clear_screen_darkens_every_cell() {
    // P5: draw a glyph, then 00E0; every cell reads dark
    let mut c = boot(&[0xA0, 0x00, 0x60, 0x00, 0xD0, 0x05, 0x00, 0xE0]);
    step(&mut c);
    step(&mut c);
    assert!(step(&mut c)); // draw reports a framebuffer change
    assert!(c.cell_lit(0, 0));
    assert!(step(&mut c)); // clear also reports one
    for y in 0..32 {
        for x in 0..64 {
            assert!(!c.cell_lit(x, y));
        }
    }
}

#[test]
fn draw_twice_restores_and_collides() {
    // P6: identical 8x5 sprite at the identical position
    let mut c = boot(&[0xA0, 0x00, 0x60, 0x00, 0xD0, 0x05, 0xD0, 0x05]);
    step(&mut c); // I = 0 (glyph 0)
    step(&mut c); // V0 = 0
    step(&mut c); // first draw
    assert_eq!(c.reg(0xF), 0);
    assert!(c.cell_lit(0, 0));
    assert!(c.cell_lit(3, 0));
    assert!(!c.cell_lit(1, 1));
    step(&mut c); // second draw
    assert_eq!(c.reg(0xF), 1);
    for y in 0..32 {
        for x in 0..64 {
            assert!(!c.cell_lit(x, y));
        }
    }
}

#[test]
fn sprite_wraps_around_right_edge() {
    // P7: an 8-wide row drawn at column 60 writes into 60..63 and 0..3
    let mut c = boot(&[
        0x60, 0x0F, // V0 = 0x0F: a row with its four low bits set
        0xA3, 0x00, 0xF0, 0x55, // store it at 0x300
        0x60, 0x3C, 0x61, 0x00, // position (60, 0)
        0xA3, 0x00, 0xD0, 0x11, // draw one row there
    ]);
    for _ in 0..7 {
        step(&mut c);
    }
    // bits 0..3 of 0x0F are clear: columns 60..63 stay dark
    for x in 60..64 {
        assert!(!c.cell_lit(x, 0));
    }
    // bits 4..7 are set: they wrap to columns 0..3
    for x in 0..4 {
        assert!(c.cell_lit(x, 0));
    }
    for x in 4..60 {
        assert!(!c.cell_lit(x, 0));
    }
}

#[test]
fn masked_random_with_zero_mask_is_zero() {
    // CXKK with KK = 0 pins the result for every random byte
    let mut c = boot(&[0x60, 0x77, 0xC0, 0x00]);
    step(&mut c);
    step(&mut c);
    assert_eq!(c.reg(0), 0);
}

#[test]
fn masked_random_with_supplied_byte() {
    let mut c = boot(&[0xC0, 0x0F]);
    assert_eq!(c.step_with_random(0xAB), Ok(false));
    assert_eq!(c.reg(0), 0x0B);
}

#[test]
fn skip_if_key_pressed() {
    let mut c = boot(&[0x60, 0x05, 0xE0, 0x9E, 0x00, 0x00, 0xE0, 0xA1]);
    c.set_key(5, true);
    step(&mut c); // V0 = 5
    step(&mut c); // EX9E: key 5 pressed, skip
    assert_eq!(c.program_counter(), 0x206);
    step(&mut c); // EXA1: key 5 pressed, no skip
    assert_eq!(c.program_counter(), 0x208);
}

#[test]
fn skip_if_key_not_pressed() {
    let mut c = boot(&[0x60, 0x05, 0xE0, 0xA1]);
    step(&mut c);
    step(&mut c);
    assert_eq!(c.program_counter(), 0x206);
}

#[test]
fn key_wait_stalls_until_a_key_comes() {
    let mut c = boot(&[0xF3, 0x0A]);
    for _ in 0..5 {
        assert_eq!(c.cycle(), Ok(false));
        assert_eq!(c.program_counter(), 0x200); // stalled on the instruction
    }
    c.set_key(9, true);
    step(&mut c);
    assert_eq!(c.reg(3), 9);
    assert_eq!(c.program_counter(), 0x202);
    c.set_key(9, false);
}

#[test]
fn key_wait_takes_lowest_pressed_key() {
    let mut c = boot(&[0xF3, 0x0A]);
    c.set_key(0xC, true);
    c.set_key(0x4, true);
    step(&mut c);
    assert_eq!(c.reg(3), 4);
}

#[test]
fn render_is_black_until_something_is_drawn() {
    let c = Chip8::new();
    let px = c.render_to_pixels();
    assert_eq!(px.len(), 4 * 64 * 32);
    assert!(px.iter().all(|&b| b == 0));
}

#[test]
fn render_shows_lit_cells_as_white() {
    let mut c = boot(&[0xA0, 0x00, 0x60, 0x00, 0xD0, 0x01]);
    step(&mut c);
    step(&mut c);
    step(&mut c); // draw glyph-0 row 0xF0 at (0, 0)
    let px = c.render_to_pixels();
    // cell (0, 0) is lit: white with a zero pad byte
    assert_eq!(&px[0..4], &[255, 255, 255, 0]);
    // cell (4, 0) is dark
    assert_eq!(&px[16..20], &[0, 0, 0, 0]);
}
