//! The 64x32 monochrome pixel grid. Sprites are composited by XOR with
//! wraparound at both edges; a draw reports a collision when it turns an
//! already-set pixel off. The grid is the sole source of truth for
//! rendering: a host reads it and never mutates it.
use vstd::prelude::*;
use vstd::arithmetic::div_mod::{
    lemma_fundamental_div_mod, lemma_fundamental_div_mod_converse_div,
    lemma_fundamental_div_mod_converse_mod, lemma_mod_division_less_than_divisor,
    lemma_mod_multiples_vanish, lemma_small_mod,
};

verus! {

/// The monochrome pixel grid, row-major: the pixel at column `cx` and row
/// `cy` sits at index `cy * 64 + cx` of the view.
pub struct FrameBuffer {
    pixels: Vec<bool>,
}

impl View for FrameBuffer {
    type V = Seq<bool>;

    closed spec fn view(&self) -> Seq<bool> {
        self.pixels@
    }
}

/// Whether bit `b` (0 = most significant) of a sprite row byte is set.
pub open spec fn sprite_bit(row: u8, b: int) -> bool {
    (row >> (7 - b)) & 1 == 1
}

/// Index into the grid of the pixel hit by bit `b` of sprite row `r` when
/// the sprite is drawn at `(x, y)`: both coordinates wrap.
pub open spec fn target_index(x: int, y: int, r: int, b: int) -> int {
    ((y + r) % 32) * 64 + (x + b) % 64
}

/// The value of grid cell `i` after the first `k` (row, bit) pairs of the
/// sprite have been composited, pairs ordered as `8 * row + bit`. Each cell
/// is hit by at most one pair, so the cell's value is determined by whether
/// its unique candidate pair lies below `k`.
pub open spec fn drawn_cell(grid: Seq<bool>, x: int, y: int, sprite: Seq<u8>, k: int, i: int) -> bool {
    let r = (i / 64 - y) % 32;
    let b = (i % 64 - x) % 64;
    if r < sprite.len() && b < 8 && r * 8 + b < k {
        grid[i] != sprite_bit(sprite[r], b)
    } else {
        grid[i]
    }
}

/// The whole grid after a sprite draw: every cell XOR-ed with the sprite
/// bit that lands on it, all other cells unchanged.
pub open spec fn draw_result(grid: Seq<bool>, x: int, y: int, sprite: Seq<u8>) -> Seq<bool> {
    Seq::new(grid.len(), |i: int| drawn_cell(grid, x, y, sprite, 8 * sprite.len() as int, i))
}

/// Whether (row, bit) pair `p` of the sprite lands on an already-set pixel.
pub open spec fn pair_hits(grid: Seq<bool>, x: int, y: int, sprite: Seq<u8>, p: int) -> bool {
    sprite_bit(sprite[p / 8], p % 8) && grid[target_index(x, y, p / 8, p % 8)]
}

/// Collision after the first `k` (row, bit) pairs: some set sprite bit so
/// far landed on a set pixel.
pub open spec fn collision_upto(grid: Seq<bool>, x: int, y: int, sprite: Seq<u8>, k: int) -> bool {
    exists|p: int| 0 <= p < k && pair_hits(grid, x, y, sprite, p)
}

/// Whether drawing the sprite at `(x, y)` erases any pixel: some set sprite
/// bit lands on a set pixel.
pub open spec fn spec_collision(grid: Seq<bool>, x: int, y: int, sprite: Seq<u8>) -> bool {
    collision_upto(grid, x, y, sprite, 8 * sprite.len() as int)
}

/// The grid with every pixel clear.
pub open spec fn blank_grid() -> Seq<bool> {
    Seq::new(2048, |i: int| false)
}

/// For a wrapped coordinate `(v + off) % m`, subtracting the base `v` and
/// wrapping again recovers the offset.
proof fn lemma_wrap_offset(v: int, off: int, m: int)
    requires
        0 <= v,
        0 <= off < m,
    ensures
        ((v + off) % m - v) % m == off,
{
    lemma_fundamental_div_mod(v + off, m);
    let q = (v + off) / m;
    assert(m * (-q) == -(m * q)) by (nonlinear_arith);
    assert((v + off) % m - v == m * (-q) + off);
    lemma_mod_multiples_vanish(-q, off, m);
    lemma_small_mod(off as nat, m as nat);
}

impl FrameBuffer {
    /// The grid always holds exactly 64 x 32 pixels.
    pub open spec fn wf(&self) -> bool {
        self@.len() == 2048
    }

    /// A fresh, fully clear grid.
    pub fn new() -> (fb: FrameBuffer)
        ensures
            fb.wf(),
            fb@ == blank_grid(),
    {
        let mut pixels: Vec<bool> = Vec::new();
        let mut i: usize = 0;
        while i < 2048
            invariant
                i <= 2048,
                pixels@.len() == i,
                forall|j: int| 0 <= j < i ==> !pixels@[j],
            decreases 2048 - i,
        {
            pixels.push(false);
            i += 1;
        }
        proof {
            assert(pixels@ =~= blank_grid());
        }
        FrameBuffer { pixels }
    }

    /// Clear every pixel.
    pub fn clear(&mut self)
        requires
            old(self).wf(),
        ensures
            final(self).wf(),
            final(self)@ == blank_grid(),
    {
        let mut i: usize = 0;
        while i < 2048
            invariant
                i <= 2048,
                self@.len() == 2048,
                forall|j: int| 0 <= j < i ==> !self@[j],
            decreases 2048 - i,
        {
            self.pixels.set(i, false);
            i += 1;
        }
        proof {
            assert(self@ =~= blank_grid());
        }
    }

    /// Read the pixel at column `cx`, row `cy`.
    pub fn is_set(&self, cx: usize, cy: usize) -> (r: bool)
        requires
            self.wf(),
            cx < 64,
            cy < 32,
        ensures
            r == self@[cy * 64 + cx],
    {
        self.pixels[cy * 64 + cx]
    }

    /// Composite a sprite at `(x, y)` by XOR, wrapping at both edges, and
    /// report whether any pixel was erased. Row `r`, bit `b` (most
    /// significant first) lands on column `(x + b) % 64`, row `(y + r) % 32`.
    pub fn draw(&mut self, x: u8, y: u8, sprite: &[u8]) -> (collision: bool)
        requires
            old(self).wf(),
            sprite@.len() <= 32,
        ensures
            final(self).wf(),
            final(self)@ == draw_result(old(self)@, x as int, y as int, sprite@),
            collision == spec_collision(old(self)@, x as int, y as int, sprite@),
    {
        let ghost grid0 = self@;
        let ghost xi = x as int;
        let ghost yi = y as int;
        let mut collision = false;
        let mut r: usize = 0;
        while r < sprite.len()
            invariant
                old(self).wf(),
                self@.len() == 2048,
                sprite@.len() <= 32,
                r <= sprite@.len(),
                grid0 == old(self)@,
                xi == x as int,
                yi == y as int,
                forall|i: int|
                    0 <= i < 2048 ==> self@[i] == drawn_cell(grid0, xi, yi, sprite@, 8 * r, i),
                collision == collision_upto(grid0, xi, yi, sprite@, 8 * r),
            decreases sprite@.len() - r,
        {
            let row: u8 = sprite[r];
            let mut b: usize = 0;
            while b < 8
                invariant
                    old(self).wf(),
                    self@.len() == 2048,
                    sprite@.len() <= 32,
                    r < sprite@.len(),
                    b <= 8,
                    grid0 == old(self)@,
                    xi == x as int,
                    yi == y as int,
                    row == sprite@[r as int],
                    forall|i: int|
                        0 <= i < 2048 ==> self@[i] == drawn_cell(
                            grid0,
                            xi,
                            yi,
                            sprite@,
                            8 * r + b,
                            i,
                        ),
                    collision == collision_upto(grid0, xi, yi, sprite@, 8 * r + b),
                decreases 8 - b,
            {
                let ghost p = 8 * r + b;
                let cx: usize = ((x as usize) + b) % 64;
                let cy: usize = ((y as usize) + r) % 32;
                let idx: usize = cy * 64 + cx;
                proof {
                    lemma_mod_division_less_than_divisor((x as usize + b) as int, 64);
                    lemma_mod_division_less_than_divisor((y as usize + r) as int, 32);
                    assert(idx < 2048) by (nonlinear_arith)
                        requires
                            cx < 64,
                            cy < 32,
                            idx == cy * 64 + cx,
                    ;
                    // The cell at idx decodes back to row r, bit b.
                    lemma_fundamental_div_mod_converse_div(idx as int, 64, cy as int, cx as int);
                    lemma_fundamental_div_mod_converse_mod(idx as int, 64, cy as int, cx as int);
                    lemma_wrap_offset(yi, r as int, 32);
                    lemma_wrap_offset(xi, b as int, 64);
                    assert((idx as int / 64 - yi) % 32 == r as int);
                    assert((idx as int % 64 - xi) % 64 == b as int);
                    // Its unique candidate pair is (r, b), not yet composited.
                    assert(r * 8 + b >= 8 * r + b) by (nonlinear_arith);
                    assert(r * 8 + b < 8 * r + b + 1) by (nonlinear_arith);
                    assert(self@[idx as int] == grid0[idx as int]);
                    assert(idx as int == target_index(xi, yi, r as int, b as int));
                }
                let bit_set: bool = (row >> (7 - b) as u8) & 1 == 1;
                proof {
                    let b8 = b as u8;
                    assert((row >> (7 - b8)) & 1 == 1 <==> sprite_bit(row, b as int)) by {
                        assert(7 - b as int == (7 - b8) as int);
                    }
                }
                if bit_set {
                    let prior = self.pixels[idx];
                    if prior {
                        collision = true;
                    }
                    self.pixels.set(idx, !prior);
                    proof {
                        assert(pair_hits(grid0, xi, yi, sprite@, p) == (sprite_bit(
                            sprite@[r as int],
                            b as int,
                        ) && grid0[idx as int])) by {
                            assert(p / 8 == r as int && p % 8 == b as int) by (nonlinear_arith)
                                requires
                                    p == 8 * r + b,
                                    0 <= b < 8,
                                    0 <= r,
                            ;
                        }
                    }
                } else {
                    proof {
                        assert(!pair_hits(grid0, xi, yi, sprite@, p)) by {
                            assert(p / 8 == r as int && p % 8 == b as int) by (nonlinear_arith)
                                requires
                                    p == 8 * r + b,
                                    0 <= b < 8,
                                    0 <= r,
                            ;
                        }
                    }
                }
                proof {
                    // Every cell other than idx keeps its value and its
                    // candidate pair stays on the same side of the bound.
                    assert forall|i: int| 0 <= i < 2048 implies self@[i] == drawn_cell(
                        grid0,
                        xi,
                        yi,
                        sprite@,
                        8 * r + b + 1,
                        i,
                    ) by {
                        let ri = (i / 64 - yi) % 32;
                        let bi = (i % 64 - xi) % 64;
                        if i != idx as int {
                            if ri < sprite@.len() && bi < 8 {
                                assert(ri * 8 + bi != 8 * r + b) by (nonlinear_arith)
                                    requires
                                        0 <= ri < 32,
                                        0 <= bi < 8,
                                        0 <= r < 32,
                                        0 <= b < 8,
                                        !(ri == r as int && bi == b as int),
                                ;
                                assert(ri == r as int && bi == b as int ==> i == idx as int) by {
                                    if ri == r as int && bi == b as int {
                                        lemma_fundamental_div_mod(i, 64);
                                        lemma_mod_division_less_than_divisor(i, 64);
                                        lemma_fundamental_div_mod(i / 64 - yi, 32);
                                        lemma_fundamental_div_mod(i % 64 - xi, 64);
                                    }
                                }
                            }
                        }
                    }
                    assert(collision_upto(grid0, xi, yi, sprite@, 8 * r + b + 1) == (
                    collision_upto(grid0, xi, yi, sprite@, 8 * r + b) || pair_hits(
                        grid0,
                        xi,
                        yi,
                        sprite@,
                        p,
                    ))) by {
                        if collision_upto(grid0, xi, yi, sprite@, 8 * r + b) {
                            let w = choose|w: int|
                                0 <= w < 8 * r + b && pair_hits(grid0, xi, yi, sprite@, w);
                            assert(0 <= w < 8 * r + b + 1 && pair_hits(grid0, xi, yi, sprite@, w));
                        }
                        if pair_hits(grid0, xi, yi, sprite@, p) {
                            assert(0 <= p < 8 * r + b + 1 && pair_hits(grid0, xi, yi, sprite@, p));
                        }
                    }
                }
                b += 1;
            }
            proof {
                assert(8 * r + 8 == 8 * (r + 1)) by (nonlinear_arith);
            }
            r += 1;
        }
        proof {
            assert(self@ =~= draw_result(grid0, xi, yi, sprite@));
        }
        collision
    }
}

/// Drawing the same sprite at the same spot twice is the identity on the
/// grid: XOR compositing is an involution.
pub proof fn lemma_draw_involution(grid: Seq<bool>, x: int, y: int, sprite: Seq<u8>)
    requires
        grid.len() == 2048,
        0 <= x,
        0 <= y,
        sprite.len() <= 32,
    ensures
        draw_result(draw_result(grid, x, y, sprite), x, y, sprite) == grid,
{
    let once = draw_result(grid, x, y, sprite);
    assert forall|i: int| 0 <= i < 2048 implies draw_result(once, x, y, sprite)[i] == grid[i] by {
        assert(once[i] == drawn_cell(grid, x, y, sprite, 8 * sprite.len() as int, i));
    }
    assert(draw_result(once, x, y, sprite) =~= grid);
}

/// On a clear grid a first draw reports no collision, and drawing the same
/// sprite again erases exactly what the first draw set: the second draw
/// reports a collision exactly when the sprite has any set bit.
pub proof fn lemma_redraw_collision(x: int, y: int, sprite: Seq<u8>)
    requires
        0 <= x,
        0 <= y,
        sprite.len() <= 32,
    ensures
        !spec_collision(blank_grid(), x, y, sprite),
        spec_collision(draw_result(blank_grid(), x, y, sprite), x, y, sprite) == (exists|p: int|
            0 <= p < 8 * sprite.len() as int && #[trigger] sprite_bit(sprite[p / 8], p % 8)),
{
    let grid = blank_grid();
    let once = draw_result(grid, x, y, sprite);
    assert(forall|p: int|
        0 <= p < 8 * sprite.len() as int ==> !pair_hits(grid, x, y, sprite, p));
    if exists|p: int| 0 <= p < 8 * sprite.len() as int && #[trigger] sprite_bit(sprite[p / 8], p % 8) {
        let p = choose|p: int| 0 <= p < 8 * sprite.len() as int && #[trigger] sprite_bit(sprite[p / 8], p % 8);
        let r = p / 8;
        let b = p % 8;
        lemma_mod_division_less_than_divisor(p, 8);
        lemma_fundamental_div_mod(p, 8);
        assert(0 <= r < sprite.len()) by (nonlinear_arith)
            requires
                0 <= p < 8 * sprite.len() as int,
                r == p / 8,
                p == 8 * r + b,
                0 <= b < 8,
        ;
        let i = target_index(x, y, r, b);
        lemma_mod_division_less_than_divisor(x + b, 64);
        lemma_mod_division_less_than_divisor(y + r, 32);
        assert(0 <= i < 2048) by (nonlinear_arith)
            requires
                i == ((y + r) % 32) * 64 + (x + b) % 64,
                0 <= (y + r) % 32 < 32,
                0 <= (x + b) % 64 < 64,
        ;
        lemma_fundamental_div_mod_converse_div(i, 64, (y + r) % 32, (x + b) % 64);
        lemma_fundamental_div_mod_converse_mod(i, 64, (y + r) % 32, (x + b) % 64);
        lemma_wrap_offset(y, r, 32);
        lemma_wrap_offset(x, b, 64);
        assert(once[i] == drawn_cell(grid, x, y, sprite, 8 * sprite.len() as int, i));
        assert(r * 8 + b < 8 * sprite.len() as int) by (nonlinear_arith)
            requires
                0 <= p < 8 * sprite.len() as int,
                p == 8 * r + b,
        ;
        assert(once[i] == (grid[i] != sprite_bit(sprite[r], b)));
        assert(once[i]);
        assert(pair_hits(once, x, y, sprite, p));
        assert(spec_collision(once, x, y, sprite));
    }
    if spec_collision(once, x, y, sprite) {
        let p = choose|p: int| 0 <= p < 8 * sprite.len() as int && pair_hits(once, x, y, sprite, p);
        assert(sprite_bit(sprite[p / 8], p % 8));
    }
}

} // verus!
