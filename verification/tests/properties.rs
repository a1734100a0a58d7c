//! Concrete checks of the machine's stated laws, plus the host-facing
//! helpers: key mapping, RGB rendering, ROM loading and the tick loop.

use chip8_core::chip::{Chip, KeyEvent, TickEffect};
use chip8_core::keymap::key_of_char;

fn boot(rom: &[u8]) -> Chip {
    let mut c = Chip::new();
    c.load(&rom.to_vec());
    c
}

fn run(c: &mut Chip, steps: usize) {
    for _ in 0..steps {
        c.step(0).expect("program faulted");
    }
}

const FONT: [u8; 80] = [
    0xF0, 0x90, 0x90, 0x90, 0xF0, // 0
    0x20, 0x60, 0x20, 0x20, 0x70, // 1
    0xF0, 0x10, 0xF0, 0x80, 0xF0, // 2
    0xF0, 0x10, 0xF0, 0x10, 0xF0, // 3
    0x90, 0x90, 0xF0, 0x10, 0x10, // 4
    0xF0, 0x80, 0xF0, 0x10, 0xF0, // 5
    0xF0, 0x80, 0xF0, 0x90, 0xF0, // 6
    0xF0, 0x10, 0x20, 0x40, 0x40, // 7
    0xF0, 0x90, 0xF0, 0x90, 0xF0, // 8
    0xF0, 0x90, 0xF0, 0x10, 0xF0, // 9
    0xF0, 0x90, 0xF0, 0x90, 0x90, // A
    0xE0, 0x90, 0xE0, 0x90, 0xE0, // B
    0xF0, 0x80, 0x80, 0x80, 0xF0, // C
    0xE0, 0x90, 0x90, 0x90, 0xE0, // D
    0xF0, 0x80, 0xF0, 0x80, 0xF0, // E
    0xF0, 0x80, 0xF0, 0x80, 0x80, // F
];

#[test]
fn cls_clears_and_keeps_vf() {
    // Light some pixels, set VF through 8XY4's carry, then CLS.
    let mut c = boot(&[
        0xA0, 0x00, 0xD0, 0x15, 0x60, 0xFF, 0x61, 0x01, 0x80, 0x14, 0x00, 0xE0,
    ]);
    run(&mut c, 5);
    assert_eq!(c.reg(0xF), 1);
    assert!(c.pixel(0, 0));
    run(&mut c, 1);
    for x in 0..64 {
        for y in 0..32 {
            assert!(!c.pixel(x, y));
        }
    }
    assert_eq!(c.reg(0xF), 1, "CLS leaves VF alone");
}

#[test]
fn add_carry_is_exactly_the_overflow() {
    // 0x80 + 0x80 == 256: carry set, result 0.
    let mut c = boot(&[0x60, 0x80, 0x61, 0x80, 0x80, 0x14]);
    run(&mut c, 3);
    assert_eq!(c.reg(0), 0);
    assert_eq!(c.reg(0xF), 1);
    // 0x80 + 0x7F == 255: no carry.
    let mut c = boot(&[0x60, 0x80, 0x61, 0x7F, 0x80, 0x14]);
    run(&mut c, 3);
    assert_eq!(c.reg(0), 0xFF);
    assert_eq!(c.reg(0xF), 0);
}

#[test]
fn shr_then_shl_does_not_round_trip() {
    // By design VF is clobbered by both shifts, and the bit shifted out
    // by SHR is gone: V0 = 1 ends as 0, not 1.
    let mut c = boot(&[0x60, 0x01, 0x80, 0x06, 0x80, 0x0E]);
    run(&mut c, 2);
    assert_eq!(c.reg(0), 0);
    assert_eq!(c.reg(0xF), 1, "SHR captured the low bit");
    run(&mut c, 1);
    assert_eq!(c.reg(0), 0, "the shifted-out bit does not come back");
    assert_eq!(c.reg(0xF), 0, "SHL overwrote the SHR flag");
}

#[test]
fn draw_twice_restores_a_lit_background() {
    // Draw glyph 0, then glyph 1 twice over it: the background returns.
    let mut c = boot(&[
        0xA0, 0x00, 0xD0, 0x15, // glyph 0 at (0,0)
        0xA0, 0x05, 0xD0, 0x15, // glyph 1 over it
        0xD0, 0x15, // and again
    ]);
    run(&mut c, 4);
    run(&mut c, 1);
    assert_eq!(c.reg(0xF), 1, "second draw of glyph 1 erased what it lit");
    // The screen is glyph 0 again.
    for row in 0..5 {
        for col in 0..8 {
            let expected = (FONT[row] >> (7 - col)) & 1 == 1;
            assert_eq!(c.pixel(col, row), expected);
        }
    }
}

#[test]
fn draw_wraps_at_both_edges() {
    // Glyph 0 drawn at (60, 30): columns and rows wrap around.
    let mut c = boot(&[0xA0, 0x00, 0x60, 0x3C, 0x61, 0x1E, 0xD0, 0x15]);
    run(&mut c, 4);
    // Row 0 of the glyph lands on screen row 30; byte 0xF0 lights
    // columns 60..64 and leaves the wrapped columns 0..4 dark.
    assert!(c.pixel(60, 30) && c.pixel(61, 30) && c.pixel(62, 30) && c.pixel(63, 30));
    assert!(!c.pixel(0, 30));
    // Row 2 (byte 0x90) wraps to screen row 0: bits at columns 60 and 63.
    assert!(c.pixel(60, 0));
    assert!(!c.pixel(61, 0) && !c.pixel(62, 0));
    assert!(c.pixel(63, 0));
}

#[test]
fn font_region_holds_the_glyphs() {
    let c = Chip::new();
    for a in 0..80u16 {
        assert_eq!(c.mem_at(a), FONT[a as usize]);
    }
    for a in 80..0x200u16 {
        assert_eq!(c.mem_at(a), 0);
    }
}

#[test]
fn fx29_points_at_every_glyph() {
    for d in 0..16u8 {
        let mut c = boot(&[0x60, d, 0xF0, 0x29]);
        run(&mut c, 2);
        assert_eq!(c.index_register(), d as u16 * 5);
        for row in 0..5u16 {
            assert_eq!(
                c.mem_at(c.index_register() + row),
                FONT[d as usize * 5 + row as usize],
                "glyph {d} row {row}"
            );
        }
    }
}

#[test]
fn bcd_recombines_for_every_byte() {
    for b in 0..=255u8 {
        let mut c = boot(&[0xA3, 0x00, 0x60, b, 0xF0, 0x33]);
        run(&mut c, 3);
        let (h, t, o) = (c.mem_at(0x300), c.mem_at(0x301), c.mem_at(0x302));
        assert!(h <= 9 && t <= 9 && o <= 9);
        assert_eq!(100 * h as u16 + 10 * t as u16 + o as u16, b as u16);
    }
}

#[test]
fn store_then_load_reproduces_registers() {
    // V0..V3 <- 11,22,33,44; FX55 at I=0x300; clobber; FX65 restores.
    let mut c = boot(&[
        0x60, 0x0B, 0x61, 0x16, 0x62, 0x21, 0x63, 0x2C, // the values
        0xA3, 0x00, 0xF3, 0x55, // dump V0..V3
        0x60, 0x00, 0x61, 0x00, 0x62, 0x00, 0x63, 0x00, // clobber
        0xF3, 0x65, // reload
    ]);
    run(&mut c, 6);
    assert_eq!(c.mem_at(0x300), 0x0B);
    assert_eq!(c.mem_at(0x303), 0x2C);
    assert_eq!(c.index_register(), 0x300, "FX55 leaves I alone");
    run(&mut c, 5);
    assert_eq!(c.reg(0), 0x0B);
    assert_eq!(c.reg(1), 0x16);
    assert_eq!(c.reg(2), 0x21);
    assert_eq!(c.reg(3), 0x2C);
    assert_eq!(c.index_register(), 0x300, "FX65 leaves I alone");
}

#[test]
fn rom_longer_than_memory_is_cut() {
    let mut rom = vec![0xAB; 4000];
    rom[3583] = 0xCD;
    let mut c = Chip::new();
    c.load(&rom);
    assert_eq!(c.mem_at(0x200), 0xAB);
    assert_eq!(c.mem_at(0xFFF), 0xCD, "the last loadable byte lands at the top");
}

#[test]
fn cosmac_key_layout() {
    let expect = [
        ('1', 0x1),
        ('2', 0x2),
        ('3', 0x3),
        ('4', 0xC),
        ('q', 0x4),
        ('w', 0x5),
        ('e', 0x6),
        ('r', 0xD),
        ('a', 0x7),
        ('s', 0x8),
        ('d', 0x9),
        ('f', 0xE),
        ('z', 0xA),
        ('x', 0x0),
        ('c', 0xB),
        ('v', 0xF),
    ];
    for (ch, key) in expect {
        assert_eq!(key_of_char(ch), Some(key), "key {ch}");
    }
    assert_eq!(key_of_char('p'), None);
    assert_eq!(key_of_char('Q'), None, "mapping expects lower case");
}

#[test]
fn keypad_tracks_up_and_down() {
    let mut c = Chip::new();
    assert!(!c.key_down(7));
    c.key_event(7, true);
    assert!(c.key_down(7));
    c.key_event(7, false);
    assert!(!c.key_down(7));
}

#[test]
fn rgb24_frame_matches_the_screen() {
    let mut c = boot(&[0xA0, 0x00, 0xD0, 0x15]);
    run(&mut c, 2);
    let buf = c.screen_rgb24();
    assert_eq!(buf.len(), 64 * 32 * 3);
    for x in 0..64usize {
        for y in 0..32usize {
            let want = if c.pixel(x, y) { 255 } else { 0 };
            let base = (y * 64 + x) * 3;
            assert_eq!(buf[base], want);
            assert_eq!(buf[base + 1], want);
            assert_eq!(buf[base + 2], want);
        }
    }
}

#[test]
fn timers_count_down_and_beep() {
    // ST <- 2, DT <- 3.
    let mut c = boot(&[0x60, 0x02, 0xF0, 0x18, 0x60, 0x03, 0xF0, 0x15]);
    run(&mut c, 4);
    assert_eq!(c.sound_timer(), 2);
    assert_eq!(c.delay_timer(), 3);
    assert!(c.tick_timers(), "beep while the sound timer runs");
    assert!(c.tick_timers());
    assert!(!c.tick_timers(), "silent at zero");
    assert_eq!(c.sound_timer(), 0);
    assert_eq!(c.delay_timer(), 0, "the delay timer saturates at zero");
}

#[test]
fn tick_runs_one_instruction() {
    let mut c = boot(&[0x60, 0x2A]);
    let effect = c.tick(&Vec::new(), 0).unwrap();
    assert_eq!(effect, TickEffect { beep: false, redraw: false });
    assert_eq!(c.reg(0), 0x2A);
}

#[test]
fn same_tick_keydown_cannot_satisfy_fx0a() {
    // Events land before the instruction runs: the keydown arriving in
    // the same tick as FX0A is already consumed when the latch arms.
    let mut c = boot(&[0xF0, 0x0A, 0x12, 0x02]);
    let events = vec![KeyEvent { key: 5, down: true }];
    c.tick(&events, 0).unwrap();
    assert!(c.is_waiting(), "FX0A parks for at least one tick");
    // A keydown in a later tick does satisfy it, and the instruction of
    // that tick then runs as usual.
    c.tick(&events, 0).unwrap();
    assert!(!c.is_waiting());
    assert_eq!(c.reg(0), 5, "the awaited register got the key index");
    assert_eq!(c.pc(), 0x202, "the jump after the wait ran in the same tick");
}

#[test]
fn tick_surfaces_faults() {
    let mut c = boot(&[0x00, 0xEE]);
    assert_eq!(c.tick(&Vec::new(), 0), Err(chip8_core::chip::VmError::StackUnderflow));
}
