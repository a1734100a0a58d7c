//! The engine's laws, proved once and for all against the mathematical
//! semantics `spec_step` and the framebuffer semantics `spec_blit`.

use vstd::prelude::*;

verus! {

use crate::chip::{
    ChipView,
    spec_step,
    skip_next,
    fetched_op,
    op_x,
    op_y,
    op_n,
    op_nn,
    stored_mem,
    loaded_regs,
    sprite_rows,
};
use crate::framebuffer::{
    spec_blit,
    spec_collision,
    blit_pixel,
    sprite_bit,
    target_pixel,
    wrap_col,
    wrap_row,
    col_of,
    row_of,
    blank_screen,
};
use crate::font::{font_seq, glyph};
use crate::spec_wrap_addr;

/// Every reachable state is well formed: one instruction, whatever it is
/// and whatever byte the random source hands it, takes a well-formed
/// machine to a well-formed machine. Registers and memory bytes stay
/// eight-bit and pixels one-bit by typing; this law keeps the program
/// counter, the address register and every stacked return address inside
/// the 4 KiB space, and the stack within its sixteen slots.
pub proof fn lemma_step_preserves_wf(s: ChipView, rand: u8)
    requires
        s.wf(),
    ensures
        spec_step(s, rand).post.wf(),
{
    if s.pc < 4095 {
        let op = fetched_op(s);
        let s1 = skip_next(s);
        assert(s1.wf());
        let hi: int = op as int / 4096;
        if hi == 0 {
            if op == 0x00EE && s1.stack.len() > 0 {
                assert(s1.stack.last() < 4096);
                assert forall|k: int|
                    0 <= k < s1.stack.drop_last().len() implies s1.stack.drop_last()[k]
                    < 4096 by {
                    assert(s1.stack.drop_last()[k] == s1.stack[k]);
                };
            }
        } else if hi == 2 {
            if s1.stack.len() < 16 {
                let st2 = s1.stack.push(s1.pc);
                assert forall|k: int| 0 <= k < st2.len() implies st2[k] < 4096 by {
                    if k < s1.stack.len() {
                        assert(st2[k] == s1.stack[k]);
                    } else {
                        assert(st2[k] == s1.pc);
                    }
                };
            }
        }
    }
}

/// Clearing the screen: after CLS every pixel is dark and the registers,
/// VF among them, are untouched.
pub proof fn lemma_cls(s: ChipView, rand: u8)
    requires
        s.wf(),
        s.pc < 4095,
        fetched_op(s) == 0x00E0,
    ensures
        spec_step(s, rand).post.screen == blank_screen(),
        spec_step(s, rand).post.regs == s.regs,
        spec_step(s, rand).post.regs[15] == s.regs[15],
        spec_step(s, rand).err is None,
{
}

/// Add with carry: after 8XY4, VF reads 1 exactly when the sum of the
/// two registers' prior values reached 256.
pub proof fn lemma_add_carry(s: ChipView, rand: u8)
    requires
        s.wf(),
        s.pc < 4095,
        fetched_op(s) as int / 4096 == 8,
        fetched_op(s) as int % 16 == 4,
    ensures
        ({
            let op = fetched_op(s);
            let vx = s.regs[op_x(op)];
            let vy = s.regs[op_y(op)];
            let o = spec_step(s, rand);
            &&& o.err is None
            &&& o.post.regs[15] == (if vx + vy >= 256 {
                1u8
            } else {
                0u8
            })
        }),
{
}

/// Drawing the same sprite twice at the same origin restores every
/// pixel; and the second draw reports a collision exactly when the first
/// draw lit something, that is, when some drawn bit had landed on a
/// dark pixel.
pub proof fn lemma_draw_twice_restores(fb: Seq<bool>, sprite: Seq<u8>, x0: int, y0: int)
    requires
        fb.len() == 2048,
        sprite.len() <= 15,
        0 <= x0 < 64,
        0 <= y0 < 32,
    ensures
        spec_blit(spec_blit(fb, sprite, x0, y0), sprite, x0, y0) == fb,
        (spec_collision(spec_blit(fb, sprite, x0, y0), sprite, x0, y0) <==> (exists|r: int, c: int|
            0 <= r < sprite.len() && 0 <= c < 8 && sprite_bit(sprite[r], c) && !(#[trigger] fb[
                target_pixel(x0, y0, r, c)
            ]))),
{
    let fb1 = spec_blit(fb, sprite, x0, y0);
    assert forall|p: int| 0 <= p < 2048 implies spec_blit(fb1, sprite, x0, y0)[p] == fb[p] by {
        assert(fb1[p] == blit_pixel(fb, sprite, x0, y0, p));
    };
    assert(spec_blit(fb1, sprite, x0, y0) =~= fb);
    // Each drawn bit reads, on the second pass, the negation of the
    // pixel it first landed on.
    assert forall|r: int, c: int|
        0 <= r < sprite.len() && 0 <= c < 8 && sprite_bit(
            sprite[r],
            c,
        ) implies #[trigger] fb1[target_pixel(x0, y0, r, c)] == !fb[target_pixel(x0, y0, r, c)] by {
        let p = target_pixel(x0, y0, r, c);
        assert(0 <= wrap_col(x0 + c) < 64 && 0 <= wrap_row(y0 + r) < 32);
        assert(p % 64 == wrap_col(x0 + c) && p / 64 == wrap_row(y0 + r));
        assert(col_of(x0, p % 64) == c && row_of(y0, p / 64) == r);
        assert(0 <= p < 2048);
        assert(fb1[p] == blit_pixel(fb, sprite, x0, y0, p));
    };
    if spec_collision(fb1, sprite, x0, y0) {
        let (r, c) = choose|r: int, c: int|
            0 <= r < sprite.len() && 0 <= c < 8 && sprite_bit(sprite[r], c) && #[trigger] fb1[
                target_pixel(x0, y0, r, c)
            ];
        assert(!fb[target_pixel(x0, y0, r, c)]);
    }
    if exists|r: int, c: int|
        0 <= r < sprite.len() && 0 <= c < 8 && sprite_bit(sprite[r], c) && !(#[trigger] fb[
            target_pixel(x0, y0, r, c)
        ]) {
        let (r, c) = choose|r: int, c: int|
            0 <= r < sprite.len() && 0 <= c < 8 && sprite_bit(sprite[r], c) && !(#[trigger] fb[
                target_pixel(x0, y0, r, c)
            ]);
        assert(fb1[target_pixel(x0, y0, r, c)]);
        assert(spec_collision(fb1, sprite, x0, y0));
    }
}

/// Whether the DXYN about to execute in state `s` would light the pixel
/// its sprite bit (row `r`, column `c`) lands on: the bit is drawn and
/// the pixel is dark.
pub open spec fn drw_lights(s: ChipView, r: int, c: int) -> bool {
    let op = fetched_op(s);
    let n = op_n(op);
    let x0 = s.regs[op_x(op)] as int % 64;
    let y0 = s.regs[op_y(op)] as int % 32;
    &&& 0 <= r < n
    &&& 0 <= c < 8
    &&& sprite_bit(sprite_rows(s, n)[r], c)
    &&& !s.screen[target_pixel(x0, y0, r, c)]
}

/// The same law at the opcode level: a DXYN executed twice in a row,
/// with the same word fetched both times and neither coordinate taken
/// from VF, restores the screen, and the second VF reports whether the
/// first draw lit anything.
pub proof fn lemma_drw_twice(s: ChipView, rand1: u8, rand2: u8)
    requires
        s.wf(),
        s.pc < 4095,
        fetched_op(s) as int / 4096 == 13,
        op_x(fetched_op(s)) != 15,
        op_y(fetched_op(s)) != 15,
        spec_step(s, rand1).post.pc < 4095,
        fetched_op(spec_step(s, rand1).post) == fetched_op(s),
    ensures
        spec_step(s, rand1).err is None,
        spec_step(spec_step(s, rand1).post, rand2).err is None,
        spec_step(spec_step(s, rand1).post, rand2).post.screen == s.screen,
        (spec_step(spec_step(s, rand1).post, rand2).post.regs[15] == 1 <==> (exists|r: int, c: int|
            drw_lights(s, r, c))),
{
    let op = fetched_op(s);
    let n = op_n(op);
    let x0 = s.regs[op_x(op)] as int % 64;
    let y0 = s.regs[op_y(op)] as int % 32;
    let sprite = sprite_rows(s, n);
    let s1 = spec_step(s, rand1).post;
    assert(s1.regs[op_x(op)] == s.regs[op_x(op)] && s1.regs[op_y(op)] == s.regs[op_y(op)]);
    assert(sprite_rows(s1, n) =~= sprite);
    assert(s1.screen == spec_blit(s.screen, sprite, x0, y0));
    lemma_draw_twice_restores(s.screen, sprite, x0, y0);
    let s2 = spec_step(s1, rand2).post;
    assert(s2.screen == spec_blit(s1.screen, sprite, x0, y0));
    assert(s2.regs[15] == 1 <==> spec_collision(s1.screen, sprite, x0, y0));
    if spec_collision(s1.screen, sprite, x0, y0) {
        let (r, c) = choose|r: int, c: int|
            0 <= r < sprite.len() && 0 <= c < 8 && sprite_bit(sprite[r], c) && !(#[trigger] s
                .screen[target_pixel(x0, y0, r, c)]);
        assert(drw_lights(s, r, c));
    }
    if exists|r: int, c: int| drw_lights(s, r, c) {
        let (r, c) = choose|r: int, c: int| drw_lights(s, r, c);
        assert(0 <= r < sprite.len() && 0 <= c < 8 && sprite_bit(sprite[r], c) && !s.screen[
            target_pixel(x0, y0, r, c)
        ]);
        assert(spec_collision(s1.screen, sprite, x0, y0));
    }
}

/// Font lookup: FX29 with a digit in Vx points I at that digit's glyph,
/// and the five bytes there are the glyph, as long as the font region at
/// the bottom of memory is intact.
pub proof fn lemma_font_lookup(s: ChipView, rand: u8)
    requires
        s.wf(),
        s.pc < 4095,
        fetched_op(s) as int / 4096 == 15,
        op_nn(fetched_op(s)) == 0x29,
        s.regs[op_x(fetched_op(s))] < 16,
        forall|a: int| 0 <= a < 80 ==> s.mem[a] == font_seq()[a],
    ensures
        ({
            let d = s.regs[op_x(fetched_op(s))] as int;
            let post = spec_step(s, rand).post;
            &&& post.i == 5 * d
            &&& post.mem.subrange(5 * d, 5 * d + 5) == glyph(d)
        }),
        spec_step(s, rand).err is None,
{
    let d = s.regs[op_x(fetched_op(s))] as int;
    let post = spec_step(s, rand).post;
    assert(post.mem == s.mem);
    assert forall|k: int| 0 <= k < 5 implies post.mem.subrange(5 * d, 5 * d + 5)[k] == glyph(d)[k] by {
        assert(s.mem[5 * d + k] == font_seq()[5 * d + k]);
    };
    assert(post.mem.subrange(5 * d, 5 * d + 5) =~= glyph(d));
}

/// Binary-coded decimal: FX33 leaves three bytes at I, each a decimal
/// digit, whose weighted sum is exactly the value of Vx.
pub proof fn lemma_bcd(s: ChipView, rand: u8)
    requires
        s.wf(),
        s.pc < 4095,
        fetched_op(s) as int / 4096 == 15,
        op_nn(fetched_op(s)) == 0x33,
    ensures
        ({
            let d = s.regs[op_x(fetched_op(s))];
            let post = spec_step(s, rand).post;
            let m0 = post.mem[spec_wrap_addr(s.i as int)];
            let m1 = post.mem[spec_wrap_addr(s.i as int + 1)];
            let m2 = post.mem[spec_wrap_addr(s.i as int + 2)];
            &&& 100 * m0 + 10 * m1 + m2 == d
            &&& m0 <= 9
            &&& m1 <= 9
            &&& m2 <= 9
        }),
        spec_step(s, rand).err is None,
{
    let du8 = s.regs[op_x(fetched_op(s))];
    let a0 = spec_wrap_addr(s.i as int);
    let a1 = spec_wrap_addr(s.i as int + 1);
    let a2 = spec_wrap_addr(s.i as int + 2);
    assert(a0 != a1 && a0 != a2 && a1 != a2);
    assert(100 * (du8 / 100) + 10 * ((du8 % 100) / 10) + du8 % 10 == du8) by (bit_vector);
    assert(du8 / 100 <= 9 && (du8 % 100) / 10 <= 9 && du8 % 10 <= 9) by (bit_vector);
}

/// Dumping V0..Vx with FX55 and reloading with FX65, with I and X the
/// same and nothing in between, reproduces every register.
pub proof fn lemma_store_load_roundtrip(s: ChipView, rand1: u8, rand2: u8)
    requires
        s.wf(),
        s.pc < 4095,
        fetched_op(s) as int / 4096 == 15,
        op_nn(fetched_op(s)) == 0x55,
        spec_step(s, rand1).post.pc < 4095,
        fetched_op(spec_step(s, rand1).post) as int / 4096 == 15,
        op_nn(fetched_op(spec_step(s, rand1).post)) == 0x65,
        op_x(fetched_op(spec_step(s, rand1).post)) == op_x(fetched_op(s)),
    ensures
        spec_step(s, rand1).err is None,
        spec_step(spec_step(s, rand1).post, rand2).err is None,
        spec_step(spec_step(s, rand1).post, rand2).post.regs == s.regs,
{
    let x = op_x(fetched_op(s));
    let i = s.i as int;
    let s1 = spec_step(s, rand1).post;
    assert(s1.mem == stored_mem(s.mem, s.regs, i, x + 1));
    assert(s1.regs == s.regs && s1.i == s.i);
    let s2 = spec_step(s1, rand2).post;
    assert(s2.regs == loaded_regs(s1.regs, s1.mem, i, x + 1));
    assert forall|k: int| 0 <= k < 16 implies s2.regs[k] == s.regs[k] by {
        if k < x + 1 {
            let a = spec_wrap_addr(i + k);
            assert(s1.mem[a] == s.regs[k]) by {
                let off: int = if a >= i {
                    a - i
                } else {
                    a + 4096 - i
                };
                assert(off == k);
            };
        }
    };
    assert(s2.regs =~= s.regs);
}

} // verus!
