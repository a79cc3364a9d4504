//! The 64x32 one-bit-per-pixel display surface.
//!
//! The framebuffer keeps one byte per pixel, 0x00 for dark and 0xFF for lit.
//! Sprites are blitted onto it exclusively through [`Chip8Display::xor_pixel`],
//! which XORs an incoming pixel into the buffer and reports a collision when
//! a lit pixel is erased; coordinates wrap modulo the screen size.

use vstd::prelude::*;

verus! {

/// Index into the framebuffer of the pixel at column `x`, row `y`.
///
/// Coordinates wrap around the screen edges: modulo 64 columns, 32 rows.
pub open spec fn pixel_index(x: int, y: int) -> int {
    (y % 32) * 64 + (x % 64)
}

/// A framebuffer of all-dark pixels.
pub open spec fn blank_pixels() -> Seq<bool> {
    Seq::new(2048, |i: int| false)
}

/// The CHIP-8 display surface: a 64x32 monochrome framebuffer.
///
/// Rendering the buffer to an actual screen is the host's business; the
/// interpreter only clears pixels and XORs sprites into them.
pub struct Chip8Display {
    pub video_buffer: Vec<u8>,
}

impl Chip8Display {
    /// The framebuffer holds exactly 64 * 32 cells, each 0x00 or 0xFF.
    pub open spec fn wf(&self) -> bool {
        &&& self.video_buffer@.len() == 2048
        &&& forall|i: int|
            0 <= i < 2048 ==> (#[trigger] self.video_buffer@[i] == 0x00u8
                || self.video_buffer@[i] == 0xFFu8)
    }

    /// The framebuffer as booleans, row-major: pixel (x, y) sits at y * 64 + x.
    pub open spec fn pixels(&self) -> Seq<bool> {
        self.video_buffer@.map_values(|b: u8| b == 0xFFu8)
    }

    pub fn new() -> (d: Chip8Display)
        ensures
            d.wf(),
            d.pixels() == blank_pixels(),
    {
        let d = Chip8Display { video_buffer: zeroed_buffer() };
        proof {
            assert(d.pixels() =~= blank_pixels());
        }
        d
    }

    /// Darken the whole framebuffer.
    pub fn clear(&mut self)
        ensures
            final(self).wf(),
            final(self).pixels() == blank_pixels(),
    {
        self.video_buffer = zeroed_buffer();
        proof {
            assert(self.pixels() =~= blank_pixels());
        }
    }

    /// Whether the pixel at (`x`, `y`) is lit; coordinates wrap.
    pub fn get_pixel(&self, x: u8, y: u8) -> (lit: bool)
        requires
            self.wf(),
        ensures
            lit == self.pixels()[pixel_index(x as int, y as int)],
    {
        let idx: usize = ((y % 32) as usize) * 64 + ((x % 64) as usize);
        self.video_buffer[idx] == 0xFF
    }

    /// Force the pixel at (`x`, `y`) to `state`, bypassing the XOR rule.
    ///
    /// A host convenience for test patterns; sprite drawing never uses it.
    pub fn set_pixel(&mut self, x: u8, y: u8, state: bool)
        requires
            old(self).wf(),
            x < 64,
            y < 32,
        ensures
            final(self).wf(),
            final(self).pixels() == old(self).pixels().update(y as int * 64 + x as int, state),
    {
        let idx: usize = (y as usize) * 64 + (x as usize);
        let v: u8 = if state { 0xFF } else { 0x00 };
        self.video_buffer.set(idx, v);
        proof {
            assert(self.pixels() =~= old(self).pixels().update(y as int * 64 + x as int, state));
        }
    }

    /// XOR one incoming pixel into the framebuffer at (`x`, `y`).
    ///
    /// A nonzero `pixel_color` stands for a lit incoming pixel. The stored
    /// pixel becomes `current XOR incoming`, and the call reports a collision
    /// exactly when a lit pixel was erased: the pixel was lit and the
    /// incoming bit is lit too. Coordinates wrap around the screen edges.
    pub fn xor_pixel(&mut self, x: u8, y: u8, pixel_color: u8) -> (collided: bool)
        requires
            old(self).wf(),
        ensures
            final(self).wf(),
            final(self).pixels() == old(self).pixels().update(
                pixel_index(x as int, y as int),
                old(self).pixels()[pixel_index(x as int, y as int)] != (pixel_color != 0),
            ),
            collided == (old(self).pixels()[pixel_index(x as int, y as int)] && pixel_color != 0),
    {
        let idx: usize = ((y % 32) as usize) * 64 + ((x % 64) as usize);
        let current: bool = self.video_buffer[idx] == 0xFF;
        let incoming: bool = pixel_color != 0;
        let v: u8 = if current != incoming { 0xFF } else { 0x00 };
        self.video_buffer.set(idx, v);
        proof {
            assert(self.pixels() =~= old(self).pixels().update(
                pixel_index(x as int, y as int),
                old(self).pixels()[pixel_index(x as int, y as int)] != (pixel_color != 0),
            ));
        }
        current && incoming
    }
}

/// The product of a cell's coordinates; the cells `set_some_pixels` lights.
pub open spec fn cell_product(x: int, y: int) -> int {
    x * y
}

/// Whether `set_some_pixels` lights the framebuffer cell `idx`: some pair
/// of coordinates in [20, 40) multiplies to it.
pub open spec fn product_lit(idx: int) -> bool {
    exists|x: int, y: int| 20 <= x < 40 && 20 <= y < 40 && (#[trigger] cell_product(x, y)) == idx
}

/// `product_lit` restricted to columns before `xm`, and for column `xm`
/// itself to rows before `ym`: what a column-by-column sweep has done so far.
pub open spec fn product_lit_upto(idx: int, xm: int, ym: int) -> bool {
    exists|x: int, y: int|
        ((20 <= x < xm && 20 <= y < 40) || (x == xm && 20 <= y < ym)) && (#[trigger] cell_product(
            x,
            y,
        )) == idx
}

/// The framebuffer once a product sweep has lit the cells `product_lit_upto`
/// covers and left the rest at `pix`.
pub open spec fn swept_pixels(pix: Seq<bool>, xm: int, ym: int) -> Seq<bool> {
    Seq::new(2048, |idx: int| product_lit_upto(idx, xm, ym) || pix[idx])
}

impl Chip8Display {
    /// Fill the screen with a checkerboard: cells whose coordinates sum to
    /// an even number take `state`, the others its opposite.
    pub fn set_checkerboard(&mut self, state: bool)
        requires
            old(self).wf(),
        ensures
            final(self).wf(),
            forall|idx: int|
                0 <= idx < 2048 ==> final(self).pixels()[idx] == (((idx % 64 + idx / 64) % 2 == 0)
                    == state),
    {
        let mut y: u8 = 0;
        while y < 32
            invariant
                self.wf(),
                y <= 32,
                forall|idx: int|
                    0 <= idx < 2048 && idx / 64 < y as int ==> self.pixels()[idx] == (((idx % 64
                        + idx / 64) % 2 == 0) == state),
            decreases 32 - y,
        {
            let mut x: u8 = 0;
            while x < 64
                invariant
                    self.wf(),
                    y < 32,
                    x <= 64,
                    forall|idx: int|
                        0 <= idx < 2048 && (idx / 64 < y as int || (idx / 64 == y as int && idx % 64
                            < x as int)) ==> self.pixels()[idx] == (((idx % 64 + idx / 64) % 2 == 0)
                            == state),
                decreases 64 - x,
            {
                let ghost t = y as int * 64 + x as int;
                let lit: bool = if (x as u16 + y as u16) % 2 == 0 {
                    state
                } else {
                    !state
                };
                self.set_pixel(x, y, lit);
                proof {
                    vstd::arithmetic::div_mod::lemma_fundamental_div_mod_converse_div(
                        t,
                        64,
                        y as int,
                        x as int,
                    );
                    vstd::arithmetic::div_mod::lemma_fundamental_div_mod_converse_mod(
                        t,
                        64,
                        y as int,
                        x as int,
                    );
                    assert forall|idx: int|
                        0 <= idx < 2048 && (idx / 64 < y as int || (idx / 64 == y as int && idx % 64
                            < x as int + 1)) implies self.pixels()[idx] == (((idx % 64 + idx / 64)
                        % 2 == 0) == state) by {
                        if idx != t {
                            vstd::arithmetic::div_mod::lemma_fundamental_div_mod(idx, 64);
                        }
                    }
                }
                x = x + 1;
            }
            y = y + 1;
        }
    }

    /// Light the cells indexed by every product of two coordinates in
    /// [20, 40); the rest of the framebuffer keeps its pixels.
    pub fn set_some_pixels(&mut self)
        requires
            old(self).wf(),
        ensures
            final(self).wf(),
            forall|idx: int|
                0 <= idx < 2048 ==> (#[trigger] final(self).pixels()[idx]) == (product_lit(idx)
                    || old(self).pixels()[idx]),
    {
        let ghost pix0 = self.pixels();
        proof {
            assert(self.pixels() =~= swept_pixels(pix0, 20, 20));
        }
        let mut x: usize = 20;
        while x < 40
            invariant
                self.wf(),
                20 <= x <= 40,
                pix0 == old(self).pixels(),
                pix0.len() == 2048,
                self.pixels() == swept_pixels(pix0, x as int, 20),
            decreases 40 - x,
        {
            let mut y: usize = 20;
            while y < 40
                invariant
                    self.wf(),
                    20 <= x < 40,
                    20 <= y <= 40,
                    pix0 == old(self).pixels(),
                    pix0.len() == 2048,
                    self.pixels() == swept_pixels(pix0, x as int, y as int),
                decreases 40 - y,
            {
                proof {
                    assert(x * y < 2048 && x * y >= 400) by (nonlinear_arith)
                        requires
                            20 <= x < 40 && 20 <= y < 40,
                    ;
                    assert(cell_product(x as int, y as int) == x * y);
                }
                let ghost before = self.pixels();
                let t: usize = x * y;
                self.video_buffer.set(t, 0xFF);
                proof {
                    assert(self.pixels() =~= before.update(t as int, true));
                    assert forall|idx: int| 0 <= idx < 2048 implies self.pixels()[idx]
                        == swept_pixels(pix0, x as int, y as int + 1)[idx] by {
                        assert(before[idx] == (product_lit_upto(idx, x as int, y as int)
                            || pix0[idx]));
                        if product_lit_upto(idx, x as int, y as int + 1) {
                            let (x0, y0) = choose|x0: int, y0: int|
                                ((20 <= x0 < x as int && 20 <= y0 < 40) || (x0 == x as int && 20
                                    <= y0 < y as int + 1)) && (#[trigger] cell_product(x0, y0))
                                    == idx;
                            if x0 == x as int && y0 == y as int {
                                assert(idx == x * y);
                            } else {
                                assert(product_lit_upto(idx, x as int, y as int));
                            }
                        }
                        if idx == x * y {
                            assert(cell_product(x as int, y as int) == idx);
                            assert(product_lit_upto(idx, x as int, y as int + 1));
                        }
                        if product_lit_upto(idx, x as int, y as int) {
                            let (x0, y0) = choose|x0: int, y0: int|
                                ((20 <= x0 < x as int && 20 <= y0 < 40) || (x0 == x as int && 20
                                    <= y0 < y as int)) && (#[trigger] cell_product(x0, y0)) == idx;
                            assert(product_lit_upto(idx, x as int, y as int + 1));
                        }
                    }
                    assert(self.pixels() =~= swept_pixels(pix0, x as int, y as int + 1));
                }
                y = y + 1;
            }
            proof {
                assert forall|idx: int|
                    0 <= idx < 2048 implies swept_pixels(pix0, x as int, 40)[idx] == swept_pixels(
                    pix0,
                    x as int + 1,
                    20,
                )[idx] by {
                    if product_lit_upto(idx, x as int, 40) {
                        let (x0, y0) = choose|x0: int, y0: int|
                            ((20 <= x0 < x as int && 20 <= y0 < 40) || (x0 == x as int && 20 <= y0
                                < 40)) && (#[trigger] cell_product(x0, y0)) == idx;
                        assert(20 <= x0 < x as int + 1 && 20 <= y0 < 40);
                        assert(product_lit_upto(idx, x as int + 1, 20));
                    }
                    if product_lit_upto(idx, x as int + 1, 20) {
                        let (x0, y0) = choose|x0: int, y0: int|
                            ((20 <= x0 < x as int + 1 && 20 <= y0 < 40) || (x0 == x as int + 1 && 20
                                <= y0 < 20)) && (#[trigger] cell_product(x0, y0)) == idx;
                        assert(product_lit_upto(idx, x as int, 40));
                    }
                }
                assert(swept_pixels(pix0, x as int, 40) =~= swept_pixels(pix0, x as int + 1, 20));
            }
            x = x + 1;
        }
        proof {
            assert forall|idx: int| 0 <= idx < 2048 implies (product_lit_upto(idx, 40, 20)
                == product_lit(idx)) by {
                if product_lit_upto(idx, 40, 20) {
                    let (x0, y0) = choose|x0: int, y0: int|
                        ((20 <= x0 < 40 && 20 <= y0 < 40) || (x0 == 40 && 20 <= y0 < 20))
                            && (#[trigger] cell_product(x0, y0)) == idx;
                    assert(product_lit(idx));
                }
                if product_lit(idx) {
                    let (x0, y0) = choose|x0: int, y0: int|
                        20 <= x0 < 40 && 20 <= y0 < 40 && (#[trigger] cell_product(x0, y0)) == idx;
                    assert(product_lit_upto(idx, 40, 20));
                }
            }
        }
    }
}

/// A fresh all-zero framebuffer.
fn zeroed_buffer() -> (v: Vec<u8>)
    ensures
        v@.len() == 2048,
        forall|i: int| 0 <= i < 2048 ==> #[trigger] v@[i] == 0x00u8,
{
    let mut v: Vec<u8> = Vec::new();
    let mut i: usize = 0;
    while i < 2048
        invariant
            i <= 2048,
            v@.len() == i,
            forall|j: int| 0 <= j < i ==> #[trigger] v@[j] == 0x00u8,
        decreases 2048 - i,
    {
        v.push(0x00);
        i = i + 1;
    }
    v
}

} // verus!
