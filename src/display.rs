//! The 64x32 monochrome pixel buffer that the machine draws on.

use vstd::prelude::*;

verus! {

/// Width of the display in pixels.
pub const DISPLAY_WIDTH: usize = 64;

/// Height of the display in pixels.
pub const DISPLAY_HEIGHT: usize = 32;

/// Number of pixels on the display.
pub const DISPLAY_SIZE: usize = 2048;

/// Bit `j` (0 is the leftmost) of a sprite row.
pub open spec fn row_bit(b: u8, j: int) -> bool {
    (b >> ((7 - j) as u8)) & 1 == 1
}

/// Whether pixel `p` is covered by a sprite of `h` rows whose top-left
/// corner is at `(x0, y0)`; columns and rows past the edges are clipped.
pub open spec fn in_sprite(p: int, x0: int, y0: int, h: int) -> bool {
    let px = p % 64;
    let py = p / 64;
    x0 <= px && px < x0 + 8 && y0 <= py && py < y0 + h
}

/// The sprite bit that lands on pixel `p`.
pub open spec fn sprite_bit_at(p: int, x0: int, y0: int, rows: Seq<u8>) -> bool {
    row_bit(rows[p / 64 - y0], p % 64 - x0)
}

/// The pixels after XOR-drawing `rows` with the top-left corner at `(x0, y0)`.
pub open spec fn drawn_pixels(old: Seq<bool>, x0: int, y0: int, rows: Seq<u8>) -> Seq<bool> {
    Seq::new(
        old.len(),
        |p: int|
            if in_sprite(p, x0, y0, rows.len() as int) {
                old[p] != sprite_bit_at(p, x0, y0, rows)
            } else {
                old[p]
            },
    )
}

/// Whether drawing `rows` at `(x0, y0)` turns at least one lit pixel off.
pub open spec fn sprite_collides(old: Seq<bool>, x0: int, y0: int, rows: Seq<u8>) -> bool {
    exists|p: int|
        0 <= p < old.len() && in_sprite(p, x0, y0, rows.len() as int) && #[trigger] old[p]
            && sprite_bit_at(p, x0, y0, rows)
}

/// The display's pixels, row-major, and whether it must be redrawn.
pub struct Chip8Display {
    pixels: Vec<bool>,
    redraw: bool,
}

impl View for Chip8Display {
    type V = Seq<bool>;

    closed spec fn view(&self) -> Seq<bool> {
        self.pixels@
    }
}

impl Chip8Display {
    /// The buffer holds exactly one flag per pixel.
    pub closed spec fn wf(&self) -> bool {
        self.pixels@.len() == DISPLAY_SIZE
    }

    /// Whether the display changed since the host last drew it.
    pub closed spec fn needs_redraw(&self) -> bool {
        self.redraw
    }

    /// A cleared display.
    pub fn init() -> (r: Chip8Display)
        ensures
            r.wf(),
            r@ == Seq::new(DISPLAY_SIZE as nat, |p: int| false),
            !r.needs_redraw(),
    {
        let mut pixels: Vec<bool> = Vec::new();
        let mut i: usize = 0;
        while i < DISPLAY_SIZE
            invariant
                i <= DISPLAY_SIZE,
                pixels@ == Seq::new(i as nat, |p: int| false),
            decreases DISPLAY_SIZE - i,
        {
            pixels.push(false);
            i += 1;
        }
        Chip8Display { pixels, redraw: false }
    }

    /// Mark the display as needing a redraw.
    pub fn redraw(&mut self)
        ensures
            final(self)@ == old(self)@,
            final(self).wf() == old(self).wf(),
            final(self).needs_redraw(),
    {
        self.redraw = true;
    }

    /// Report whether a redraw is due, and clear the request.
    pub fn take_redraw(&mut self) -> (r: bool)
        ensures
            r == old(self).needs_redraw(),
            final(self)@ == old(self)@,
            final(self).wf() == old(self).wf(),
            !final(self).needs_redraw(),
    {
        let r = self.redraw;
        self.redraw = false;
        r
    }

    /// Turn every pixel off.
    pub fn clear(&mut self)
        requires
            old(self).wf(),
        ensures
            final(self).wf(),
            final(self)@ == Seq::new(DISPLAY_SIZE as nat, |p: int| false),
            final(self).needs_redraw() == old(self).needs_redraw(),
    {
        let mut i: usize = 0;
        while i < DISPLAY_SIZE
            invariant
                i <= DISPLAY_SIZE,
                self.pixels@.len() == DISPLAY_SIZE,
                forall|p: int| 0 <= p < i ==> !self.pixels@[p],
                self.redraw == old(self).redraw,
            decreases DISPLAY_SIZE - i,
        {
            self.pixels.set(i, false);
            i += 1;
        }
        assert(self.pixels@ =~= Seq::new(DISPLAY_SIZE as nat, |p: int| false));
    }

    /// The pixel at column `x`, row `y`.
    pub fn pixel(&self, x: usize, y: usize) -> (r: bool)
        requires
            self.wf(),
            x < DISPLAY_WIDTH,
            y < DISPLAY_HEIGHT,
        ensures
            r == self@[y * 64 + x],
    {
        self.pixels[y * DISPLAY_WIDTH + x]
    }

    /// XOR `px` into the pixel at column `x`, row `y`; the result says whether
    /// a lit pixel was turned off.
    pub fn update_pixel(&mut self, x: usize, y: usize, px: bool) -> (r: bool)
        requires
            old(self).wf(),
            x < DISPLAY_WIDTH,
            y < DISPLAY_HEIGHT,
        ensures
            final(self).wf(),
            final(self)@ == old(self)@.update(y * 64 + x, old(self)@[y * 64 + x] != px),
            r == (old(self)@[y * 64 + x] && px),
            final(self).needs_redraw() == old(self).needs_redraw(),
    {
        let idx = y * DISPLAY_WIDTH + x;
        let px0 = self.pixels[idx];
        self.pixels.set(idx, px0 != px);
        px && px == px0
    }

    /// XOR-draw `rows` with the top-left corner at `(x0, y0)`, clipping at the
    /// right and bottom edges; the result says whether a lit pixel was turned off.
    pub fn draw_sprite(&mut self, x0: usize, y0: usize, rows: &Vec<u8>) -> (r: bool)
        requires
            old(self).wf(),
            x0 < DISPLAY_WIDTH,
            y0 < DISPLAY_HEIGHT,
        ensures
            final(self).wf(),
            final(self)@ == drawn_pixels(old(self)@, x0 as int, y0 as int, rows@),
            r == sprite_collides(old(self)@, x0 as int, y0 as int, rows@),
            final(self).needs_redraw(),
    {
        let ghost old_px = self@;
        let ghost h = rows@.len() as int;
        let mut hit = false;
        let mut i: usize = 0;
        while i < rows.len() && y0 + i < DISPLAY_HEIGHT
            invariant
                self.wf(),
                old_px.len() == DISPLAY_SIZE,
                h == rows@.len(),
                x0 < 64,
                y0 < 32,
                i <= rows@.len(),
                y0 + i <= 32,
                forall|p: int|
                    0 <= p < DISPLAY_SIZE ==> #[trigger] self@[p] == (if in_sprite(
                        p,
                        x0 as int,
                        y0 as int,
                        h,
                    ) && p / 64 < y0 + i {
                        old_px[p] != sprite_bit_at(p, x0 as int, y0 as int, rows@)
                    } else {
                        old_px[p]
                    }),
                hit == exists|p: int|
                    0 <= p < DISPLAY_SIZE && in_sprite(p, x0 as int, y0 as int, h) && p / 64
                        < y0 + i && #[trigger] old_px[p] && sprite_bit_at(
                        p,
                        x0 as int,
                        y0 as int,
                        rows@,
                    ),
            decreases rows@.len() - i,
        {
            let b = rows[i];
            let y = y0 + i;
            let mut j: usize = 0;
            while j < 8 && x0 + j < DISPLAY_WIDTH
                invariant
                    self.wf(),
                    old_px.len() == DISPLAY_SIZE,
                    h == rows@.len(),
                    x0 < 64,
                    y == y0 + i,
                    y < 32,
                    i < rows@.len(),
                    b == rows@[i as int],
                    j <= 8,
                    x0 + j <= 64,
                    forall|p: int|
                        0 <= p < DISPLAY_SIZE ==> #[trigger] self@[p] == (if in_sprite(
                            p,
                            x0 as int,
                            y0 as int,
                            h,
                        ) && (p / 64 < y || (p / 64 == y && p % 64 < x0 + j)) {
                            old_px[p] != sprite_bit_at(p, x0 as int, y0 as int, rows@)
                        } else {
                            old_px[p]
                        }),
                    hit == exists|p: int|
                        0 <= p < DISPLAY_SIZE && in_sprite(p, x0 as int, y0 as int, h) && (p
                            / 64 < y || (p / 64 == y && p % 64 < x0 + j)) && #[trigger] old_px[p]
                            && sprite_bit_at(p, x0 as int, y0 as int, rows@),
                decreases 8 - j,
            {
                let x = x0 + j;
                let px = (b >> ((7 - j) as u8)) & 1 == 1;
                let ghost q = (y * 64 + x) as int;
                assert(q / 64 == y && q % 64 == x);
                assert(in_sprite(q, x0 as int, y0 as int, h));
                assert(sprite_bit_at(q, x0 as int, y0 as int, rows@) == px);
                let c = self.update_pixel(x, y, px);
                proof {
                    if c {
                        assert(old_px[q] && sprite_bit_at(q, x0 as int, y0 as int, rows@));
                    }
                }
                if c {
                    hit = true;
                }
                j += 1;
            }
            proof {
                assert forall|p: int|
                    0 <= p < DISPLAY_SIZE && in_sprite(p, x0 as int, y0 as int, h) && p / 64
                        == y implies p % 64 < x0 + j by {}
            }
            i += 1;
        }
        proof {
            assert forall|p: int|
                0 <= p < DISPLAY_SIZE && in_sprite(p, x0 as int, y0 as int, h) implies p / 64
                < y0 + i by {}
            assert(self@ =~= drawn_pixels(old_px, x0 as int, y0 as int, rows@));
        }
        self.redraw = true;
        hit
    }
}

} // verus!
