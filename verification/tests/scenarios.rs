//! End-to-end scenarios: short programs run on the machine, checked
//! against the values the instruction set promises.

use chip8_core::chip::{Chip, VmError};

fn boot(rom: &[u8]) -> Chip {
    let mut c = Chip::new();
    c.load(&rom.to_vec());
    c
}

fn run(c: &mut Chip, steps: usize) {
    for _ in 0..steps {
        c.step(0).expect("program faulted");
    }
}

#[test]
fn s1_jump_and_skip() {
    // LD V2,5; SE V2,5 skips the word at 0x204; the jump at 0x206 runs.
    let mut c = boot(&[0x62, 0x05, 0x32, 0x05, 0x12, 0x08, 0x12, 0x00, 0x12, 0x00]);
    run(&mut c, 2);
    assert_eq!(c.reg(2), 5);
    assert_eq!(c.pc(), 0x206, "the skip jumped over one instruction");
    run(&mut c, 1);
    assert_eq!(c.pc(), 0x200, "the jump at 0x206 ran");
}

#[test]
fn s2_addition_with_carry() {
    let mut c = boot(&[0x60, 0xFF, 0x61, 0x02, 0x80, 0x14]);
    run(&mut c, 3);
    assert_eq!(c.reg(0), 0x01);
    assert_eq!(c.reg(1), 0x02);
    assert_eq!(c.reg(0xF), 1);
}

#[test]
fn s3_subtract_with_borrow() {
    let mut c = boot(&[0x60, 0x02, 0x61, 0x05, 0x80, 0x15]);
    run(&mut c, 3);
    assert_eq!(c.reg(0), 0xFD);
    assert_eq!(c.reg(0xF), 0);
}

#[test]
fn s4_sprite_draw_and_collision() {
    // I <- 0x000 (glyph '0'); draw it at (0,0); draw again.
    let mut c = boot(&[0xA0, 0x00, 0x60, 0x00, 0x61, 0x00, 0xD0, 0x15, 0xD0, 0x15]);
    run(&mut c, 4);
    assert_eq!(c.reg(0xF), 0, "first draw hits nothing");
    // Glyph '0' row 0 is 0xF0: four lit pixels at the top-left corner.
    assert!(c.pixel(0, 0) && c.pixel(1, 0) && c.pixel(2, 0) && c.pixel(3, 0));
    assert!(!c.pixel(4, 0));
    run(&mut c, 1);
    assert_eq!(c.reg(0xF), 1, "second draw erases the glyph");
    for x in 0..8 {
        for y in 0..5 {
            assert!(!c.pixel(x, y), "pixel ({x},{y}) should be dark again");
        }
    }
}

#[test]
fn s5_bcd() {
    // I <- 0x300; V0 <- 0x9C; FX33.
    let mut c = boot(&[0xA3, 0x00, 0x60, 0x9C, 0xF0, 0x33]);
    run(&mut c, 3);
    assert_eq!(c.mem_at(0x300), 1);
    assert_eq!(c.mem_at(0x301), 5);
    assert_eq!(c.mem_at(0x302), 6);
}

#[test]
fn s6_key_wait() {
    let mut c = boot(&[0xF0, 0x0A, 0x12, 0x02]);
    c.step(0).unwrap();
    assert!(c.is_waiting());
    assert_eq!(c.pc(), 0x202, "PC sits just past the FX0A word");
    // The driver skips fetches while the latch is armed.
    c.key_event(0xA, true);
    assert!(!c.is_waiting());
    assert_eq!(c.reg(0), 0xA);
    c.step(0).unwrap();
    assert_eq!(c.pc(), 0x202, "the jump loops in place");
}

#[test]
fn ret_on_empty_stack_is_fatal() {
    let mut c = boot(&[0x00, 0xEE]);
    assert_eq!(c.step(0), Err(VmError::StackUnderflow));
}

#[test]
fn call_on_full_stack_is_fatal() {
    // CALL 0x200 forever: each call pushes one return address.
    let mut c = boot(&[0x22, 0x00]);
    for depth in 1..=16 {
        c.step(0).unwrap();
        assert_eq!(c.stack_depth(), depth);
    }
    assert_eq!(c.step(0), Err(VmError::StackOverflow));
    assert_eq!(c.stack_depth(), 16);
}

#[test]
fn call_and_ret_balance() {
    // CALL 0x206; at 0x206 RET; then JP in place.
    let mut c = boot(&[0x22, 0x06, 0x12, 0x02, 0x00, 0x00, 0x00, 0xEE]);
    c.step(0).unwrap();
    assert_eq!(c.pc(), 0x206);
    assert_eq!(c.stack_depth(), 1);
    c.step(0).unwrap();
    assert_eq!(c.pc(), 0x202, "RET returns past the CALL");
    assert_eq!(c.stack_depth(), 0);
}

#[test]
fn fetch_at_top_of_memory_is_a_no_op() {
    // JP 0xFFF parks PC on the last byte; the next step does nothing.
    let mut c = boot(&[0x1F, 0xFF]);
    c.step(0).unwrap();
    assert_eq!(c.pc(), 0xFFF);
    c.step(0).unwrap();
    assert_eq!(c.pc(), 0xFFF);
}

#[test]
fn skip_instructions() {
    // SNE V0,1 skips (V0 is 0); lands on LD V1,7.
    let mut c = boot(&[0x40, 0x01, 0x61, 0x05, 0x61, 0x07]);
    run(&mut c, 2);
    assert_eq!(c.reg(1), 7);
    // SE V0,1 does not skip.
    let mut c = boot(&[0x30, 0x01, 0x61, 0x05]);
    run(&mut c, 2);
    assert_eq!(c.reg(1), 5);
    // SE V0,V1 with equal registers skips.
    let mut c = boot(&[0x50, 0x10, 0x62, 0x09, 0x62, 0x04]);
    run(&mut c, 2);
    assert_eq!(c.reg(2), 4);
    // SNE V0,V1 with equal registers does not skip.
    let mut c = boot(&[0x90, 0x10, 0x62, 0x09]);
    run(&mut c, 2);
    assert_eq!(c.reg(2), 9);
}

#[test]
fn logic_and_load_opcodes() {
    // V0 <- 0x5A; V1 <- 0x0F; V2 <- V0; OR, AND, XOR in turn on V0.
    let mut c = boot(&[
        0x60, 0x5A, 0x61, 0x0F, 0x82, 0x00, 0x80, 0x11, 0x80, 0x12, 0x80, 0x13,
    ]);
    run(&mut c, 4);
    assert_eq!(c.reg(2), 0x5A);
    assert_eq!(c.reg(0), 0x5A | 0x0F);
    run(&mut c, 1);
    assert_eq!(c.reg(0), (0x5A | 0x0F) & 0x0F);
    run(&mut c, 1);
    assert_eq!(c.reg(0), ((0x5A | 0x0F) & 0x0F) ^ 0x0F);
}

#[test]
fn add_without_flag_wraps() {
    // 7XNN wraps modulo 256 and must not touch VF.
    let mut c = boot(&[0x6F, 0x07, 0x60, 0xF0, 0x70, 0x20]);
    run(&mut c, 3);
    assert_eq!(c.reg(0), 0x10);
    assert_eq!(c.reg(0xF), 0x07, "VF untouched by 7XNN");
}

#[test]
fn subn_orders_operands() {
    // 8XY7: V0 <- V1 - V0.
    let mut c = boot(&[0x60, 0x02, 0x61, 0x05, 0x80, 0x17]);
    run(&mut c, 3);
    assert_eq!(c.reg(0), 0x03);
    assert_eq!(c.reg(0xF), 1);
    let mut c = boot(&[0x60, 0x05, 0x61, 0x02, 0x80, 0x17]);
    run(&mut c, 3);
    assert_eq!(c.reg(0), 0xFD);
    assert_eq!(c.reg(0xF), 0);
}

#[test]
fn jump_with_offset() {
    // BNNN: PC <- NNN + V0.
    let mut c = boot(&[0x60, 0x06, 0xB2, 0x00]);
    run(&mut c, 2);
    assert_eq!(c.pc(), 0x206);
}

#[test]
fn skip_by_keypad_state() {
    // EX9E skips only while the key in V0 is down.
    let mut c = boot(&[0xE0, 0x9E, 0x61, 0x05, 0x61, 0x07]);
    c.key_event(0, true);
    run(&mut c, 2);
    assert_eq!(c.reg(1), 7, "key down: skipped the first load");
    let mut c = boot(&[0xE0, 0x9E, 0x61, 0x05]);
    run(&mut c, 2);
    assert_eq!(c.reg(1), 5, "key up: no skip");
    // EXA1 is the complement.
    let mut c = boot(&[0xE0, 0xA1, 0x61, 0x05, 0x61, 0x07]);
    run(&mut c, 2);
    assert_eq!(c.reg(1), 7, "key up: skipped");
}

#[test]
fn delay_and_sound_timer_opcodes() {
    // DT <- 0x30 from V0, then V1 <- DT; ST <- 0x30.
    let mut c = boot(&[0x60, 0x30, 0xF0, 0x15, 0xF1, 0x07, 0xF0, 0x18]);
    run(&mut c, 3);
    assert_eq!(c.delay_timer(), 0x30);
    assert_eq!(c.reg(1), 0x30);
    run(&mut c, 1);
    assert_eq!(c.sound_timer(), 0x30);
}

#[test]
fn add_to_index() {
    // I <- 0x123, then I += V0.
    let mut c = boot(&[0xA1, 0x23, 0x60, 0x10, 0xF0, 0x1E]);
    run(&mut c, 3);
    assert_eq!(c.index_register(), 0x133);
}

#[test]
fn random_masked_to_zero() {
    // CXNN with a zero mask pins the result whatever the drawn byte is:
    // the one place the host's random source enters the machine.
    let mut c = boot(&[0x60, 0x55, 0xC0, 0x00]);
    c.execute_instruction().unwrap();
    let redraw = c.execute_instruction().unwrap();
    assert!(!redraw);
    assert_eq!(c.reg(0), 0);
}

#[test]
fn unrecognized_opcodes_are_ignored() {
    // 0NNN, 8XY8 and FX77 fall through with only the fetch's PC advance.
    let mut c = boot(&[0x60, 0x81, 0x03, 0x33, 0x80, 0x18, 0xF0, 0x77]);
    run(&mut c, 4);
    assert_eq!(c.pc(), 0x208);
    assert_eq!(c.reg(0), 0x81, "8XY8 is not a shift");
    assert_eq!(c.reg(0xF), 0);
}
