//! The 64 x 32 one-bit framebuffer: clear, and the XOR sprite blit with
//! collision output. Sprites wrap at the right and bottom edges, and the
//! origin itself is already given modulo the display.

use vstd::prelude::*;

verus! {

/// Sprite column `c` counts from the left; its weight is the power of two
/// of the corresponding bit of the row byte (bit 7 is the leftmost pixel).
pub open spec fn col_weight(c: int) -> int {
    if c == 0 {
        128
    } else if c == 1 {
        64
    } else if c == 2 {
        32
    } else if c == 3 {
        16
    } else if c == 4 {
        8
    } else if c == 5 {
        4
    } else if c == 6 {
        2
    } else {
        1
    }
}

/// Whether sprite row byte `b` draws a pixel in column `c` (0 = leftmost).
pub open spec fn sprite_bit(b: u8, c: int) -> bool {
    (b as int / col_weight(c)) % 2 == 1
}

/// Horizontal wrap of a column reached from an on-screen origin plus a
/// sprite column, so the argument is below 128.
pub open spec fn wrap_col(a: int) -> int {
    if a < 64 {
        a
    } else {
        a - 64
    }
}

/// Vertical wrap, as `wrap_col`.
pub open spec fn wrap_row(a: int) -> int {
    if a < 32 {
        a
    } else {
        a - 32
    }
}

/// Which sprite column lands on screen column `sx` when the origin is `x0`.
/// Inverse of `wrap_col(x0 + c)` for `x0` in 0..64.
pub open spec fn col_of(x0: int, sx: int) -> int {
    if sx >= x0 {
        sx - x0
    } else {
        sx + 64 - x0
    }
}

/// Which sprite row lands on screen row `sy` when the origin is `y0`.
pub open spec fn row_of(y0: int, sy: int) -> int {
    if sy >= y0 {
        sy - y0
    } else {
        sy + 32 - y0
    }
}

/// Framebuffer index hit by sprite bit (row `r`, column `c`) drawn at
/// origin (`x0`, `y0`).
pub open spec fn target_pixel(x0: int, y0: int, r: int, c: int) -> int {
    wrap_row(y0 + r) * 64 + wrap_col(x0 + c)
}

/// One pixel of the framebuffer after a blit: flipped when some sprite bit
/// lands on it, kept otherwise. At most one sprite bit can land on a given
/// pixel, because a sprite is at most 15 rows of 8 columns.
pub open spec fn blit_pixel(fb: Seq<bool>, sprite: Seq<u8>, x0: int, y0: int, p: int) -> bool {
    let sx: int = p % 64;
    let sy: int = p / 64;
    let c: int = col_of(x0, sx);
    let r: int = row_of(y0, sy);
    if c < 8 && r < sprite.len() && sprite_bit(sprite[r], c) {
        !fb[p]
    } else {
        fb[p]
    }
}

/// The whole framebuffer after blitting `sprite` at (`x0`, `y0`).
pub open spec fn spec_blit(fb: Seq<bool>, sprite: Seq<u8>, x0: int, y0: int) -> Seq<bool> {
    Seq::new(2048, |p: int| blit_pixel(fb, sprite, x0, y0, p))
}

/// Whether the blit erases anything: some drawn sprite bit lands on a
/// pixel that is already lit.
pub open spec fn spec_collision(fb: Seq<bool>, sprite: Seq<u8>, x0: int, y0: int) -> bool {
    exists|r: int, c: int|
        0 <= r < sprite.len() && 0 <= c < 8 && sprite_bit(sprite[r], c)
            && #[trigger] fb[target_pixel(x0, y0, r, c)]
}

/// The all-dark framebuffer.
pub open spec fn blank_screen() -> Seq<bool> {
    Seq::new(2048, |p: int| false)
}

/// Framebuffer state after the first `k` sprite bits (in row-major order,
/// bit rank = row * 8 + column) have been drawn.
spec fn blit_done(sprite_len: int, x0: int, y0: int, p: int, k: int) -> bool {
    let c: int = col_of(x0, p % 64);
    let r: int = row_of(y0, p / 64);
    c < 8 && r < sprite_len && r * 8 + c < k
}

/// Collision seen among the first `k` sprite bits.
spec fn partial_hit(fb: Seq<bool>, sprite: Seq<u8>, x0: int, y0: int, k: int) -> bool {
    exists|r: int, c: int|
        0 <= r < sprite.len() && 0 <= c < 8 && r * 8 + c < k && sprite_bit(sprite[r], c)
            && #[trigger] fb[target_pixel(x0, y0, r, c)]
}

/// The 64 x 32 pixel grid, row-major: index = row * 64 + column.
pub struct Framebuffer {
    pixels: Vec<bool>,
}

impl View for Framebuffer {
    type V = Seq<bool>;

    closed spec fn view(&self) -> Seq<bool> {
        self.pixels@
    }
}

impl Framebuffer {
    /// The one structural invariant: exactly 64 * 32 pixels.
    pub open spec fn wf(&self) -> bool {
        self@.len() == 2048
    }

    /// A dark screen.
    pub fn new() -> (fb: Framebuffer)
        ensures
            fb.wf(),
            fb@ == blank_screen(),
    {
        let mut pixels: Vec<bool> = Vec::new();
        let mut k: usize = 0;
        while k < 2048
            invariant
                k <= 2048,
                pixels@.len() == k,
                forall|p: int| 0 <= p < k ==> !pixels@[p],
            decreases 2048 - k,
        {
            pixels.push(false);
            k = k + 1;
        }
        let fb = Framebuffer { pixels };
        proof {
            assert(fb@ =~= blank_screen());
        }
        fb
    }

    /// Read one pixel.
    pub fn get(&self, x: usize, y: usize) -> (lit: bool)
        requires
            self.wf(),
            x < 64,
            y < 32,
        ensures
            lit == self@[y * 64 + x],
    {
        self.pixels[y * 64 + x]
    }

    /// Darken every pixel.
    pub fn clear(&mut self)
        requires
            old(self).wf(),
        ensures
            final(self).wf(),
            final(self)@ == blank_screen(),
    {
        let mut k: usize = 0;
        while k < 2048
            invariant
                k <= 2048,
                self@.len() == 2048,
                forall|p: int| 0 <= p < k ==> !self@[p],
            decreases 2048 - k,
        {
            self.pixels.set(k, false);
            k = k + 1;
        }
        proof {
            assert(self@ =~= blank_screen());
        }
    }

    /// XOR-draw `sprite` with its top-left corner at (`x0`, `y0`), wrapping
    /// past the right and bottom edges, and report whether any lit pixel
    /// was erased.
    pub fn blit(&mut self, sprite: &Vec<u8>, x0: u8, y0: u8) -> (hit: bool)
        requires
            old(self).wf(),
            sprite@.len() <= 15,
            x0 < 64,
            y0 < 32,
        ensures
            final(self).wf(),
            final(self)@ == spec_blit(old(self)@, sprite@, x0 as int, y0 as int),
            hit == spec_collision(old(self)@, sprite@, x0 as int, y0 as int),
    {
        let ghost fb0 = self@;
        let ghost gx: int = x0 as int;
        let ghost gy: int = y0 as int;
        let n = sprite.len();
        let mut hit = false;
        let mut k: usize = 0;
        while k < 8 * n
            invariant
                self@.len() == 2048,
                fb0.len() == 2048,
                sprite@.len() == n,
                n <= 15,
                gx == x0 as int,
                gy == y0 as int,
                x0 < 64,
                y0 < 32,
                k <= 8 * n,
                forall|p: int|
                    0 <= p < 2048 ==> #[trigger] self@[p] == (if blit_done(
                        n as int,
                        gx,
                        gy,
                        p,
                        k as int,
                    ) {
                        blit_pixel(fb0, sprite@, gx, gy, p)
                    } else {
                        fb0[p]
                    }),
                hit == partial_hit(fb0, sprite@, gx, gy, k as int),
            decreases 8 * n - k,
        {
            let r = k / 8;
            let c = k % 8;
            let row_byte = sprite[r];
            let xs: usize = x0 as usize + c;
            let sx: usize = if xs < 64 {
                xs
            } else {
                xs - 64
            };
            let ys: usize = y0 as usize + r;
            let sy: usize = if ys < 32 {
                ys
            } else {
                ys - 32
            };
            let idx: usize = sy * 64 + sx;
            let w: u8 = if c == 0 {
                128
            } else if c == 1 {
                64
            } else if c == 2 {
                32
            } else if c == 3 {
                16
            } else if c == 4 {
                8
            } else if c == 5 {
                4
            } else if c == 6 {
                2
            } else {
                1
            };
            let bit = (row_byte / w) % 2 == 1;
            proof {
                assert(sx == wrap_col(gx + c) && sy == wrap_row(gy + r));
                assert(idx == target_pixel(gx, gy, r as int, c as int));
                assert(idx < 2048);
                assert(idx % 64 == sx as int && idx / 64 == sy as int);
                assert(col_of(gx, sx as int) == c as int);
                assert(row_of(gy, sy as int) == r as int);
                assert(w as int == col_weight(c as int));
                assert(bit == sprite_bit(sprite@[r as int], c as int));
                // The bit of this very iteration is not yet drawn, so the
                // current pixel still holds its pre-blit value.
                assert(!blit_done(n as int, gx, gy, idx as int, k as int));
            }
            let cur = self.pixels[idx];
            if bit {
                if cur {
                    hit = true;
                }
                self.pixels.set(idx, !cur);
            }
            proof {
                let ki: int = k as int;
                let ri: int = r as int;
                let ci: int = c as int;
                assert(ri * 8 + ci == ki);
                // Any pixel whose sprite bit rank is ki is this iteration's
                // pixel: rank determines (row, column), which determine the
                // screen position.
                assert forall|p: int|
                    0 <= p < 2048 && blit_done(n as int, gx, gy, p, ki + 1) && !blit_done(
                        n as int,
                        gx,
                        gy,
                        p,
                        ki,
                    ) implies p == idx as int by {
                    let c2: int = col_of(gx, p % 64);
                    let r2: int = row_of(gy, p / 64);
                    assert(r2 * 8 + c2 == ki);
                    assert(r2 == ri && c2 == ci);
                    assert(p % 64 == wrap_col(gx + ci));
                    assert(p / 64 == wrap_row(gy + ri));
                    assert(p == 64 * (p / 64) + (p % 64));
                };
                assert(blit_done(n as int, gx, gy, idx as int, ki + 1));
                assert forall|p: int| 0 <= p < 2048 implies #[trigger] self@[p] == (if blit_done(
                    n as int,
                    gx,
                    gy,
                    p,
                    ki + 1,
                ) {
                    blit_pixel(fb0, sprite@, gx, gy, p)
                } else {
                    fb0[p]
                }) by {
                    if p == idx as int {
                        assert(blit_pixel(fb0, sprite@, gx, gy, p) == (if bit {
                            !fb0[p]
                        } else {
                            fb0[p]
                        }));
                    }
                };
                // Collision accumulator: the new bit contributes exactly when
                // it is drawn onto a lit pixel.
                if hit {
                    if partial_hit(fb0, sprite@, gx, gy, ki) {
                        let (rr, cc) = choose|rr: int, cc: int|
                            0 <= rr < sprite@.len() && 0 <= cc < 8 && rr * 8 + cc < ki
                                && sprite_bit(sprite@[rr], cc) && #[trigger] fb0[target_pixel(
                                gx,
                                gy,
                                rr,
                                cc,
                            )];
                        assert(fb0[target_pixel(gx, gy, rr, cc)]);
                        assert(partial_hit(fb0, sprite@, gx, gy, ki + 1));
                    } else {
                        assert(bit && fb0[idx as int]);
                        assert(fb0[target_pixel(gx, gy, ri, ci)]);
                        assert(partial_hit(fb0, sprite@, gx, gy, ki + 1));
                    }
                } else {
                    assert(!partial_hit(fb0, sprite@, gx, gy, ki + 1)) by {
                        if partial_hit(fb0, sprite@, gx, gy, ki + 1) {
                            let (rr, cc) = choose|rr: int, cc: int|
                                0 <= rr < sprite@.len() && 0 <= cc < 8 && rr * 8 + cc < ki + 1
                                    && sprite_bit(sprite@[rr], cc) && #[trigger] fb0[target_pixel(
                                    gx,
                                    gy,
                                    rr,
                                    cc,
                                )];
                            if rr * 8 + cc < ki {
                                assert(partial_hit(fb0, sprite@, gx, gy, ki));
                            } else {
                                assert(rr == ri && cc == ci);
                            }
                        }
                    };
                }
            }
            k = k + 1;
        }
        proof {
            assert(self@ =~= spec_blit(fb0, sprite@, gx, gy));
            assert(hit == spec_collision(fb0, sprite@, gx, gy)) by {
                if partial_hit(fb0, sprite@, gx, gy, 8 * n as int) {
                    let (rr, cc) = choose|rr: int, cc: int|
                        0 <= rr < sprite@.len() && 0 <= cc < 8 && rr * 8 + cc < 8 * n as int
                            && sprite_bit(sprite@[rr], cc) && #[trigger] fb0[target_pixel(
                            gx,
                            gy,
                            rr,
                            cc,
                        )];
                    assert(spec_collision(fb0, sprite@, gx, gy));
                }
                if spec_collision(fb0, sprite@, gx, gy) {
                    let (rr, cc) = choose|rr: int, cc: int|
                        0 <= rr < sprite@.len() && 0 <= cc < 8 && sprite_bit(sprite@[rr], cc)
                            && #[trigger] fb0[target_pixel(gx, gy, rr, cc)];
                    assert(rr * 8 + cc < 8 * n as int);
                    assert(partial_hit(fb0, sprite@, gx, gy, 8 * n as int));
                }
            };
        }
        hit
    }
}

} // verus!
