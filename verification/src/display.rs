//! The monochrome framebuffer: a 64x32 grid of single-bit pixels.
//!
//! Pixels are stored row-major, one byte per pixel (0 or 1). The only
//! mutation path with wraparound is [`Display::draw`], which XOR-composes a
//! sprite onto the grid and reports whether any pixel collision occurred.
//! The abstract state (the view) is the sequence of 2048 pixel booleans.

use vstd::prelude::*;
use vstd::arithmetic::div_mod::{
    lemma_add_mod_noop, lemma_fundamental_div_mod, lemma_fundamental_div_mod_converse,
    lemma_mod_bound, lemma_small_mod,
};

verus! {

/// Screen width in pixels.
pub const WIDTH: usize = 64;

/// Screen height in pixels.
pub const HEIGHT: usize = 32;

/// Whether bit `i` (0 = most significant) of sprite row `row` is set.
pub open spec fn sprite_bit(row: u8, i: int) -> bool {
    (row >> ((7 - i) as u8)) & 1 == 1
}

/// Whether one sprite row, drawn with its leftmost bit at column `x` of
/// screen row `yj`, turns cell `c` over — counting only bits `0 <= i < hi`.
/// Bit `i` lands on column `(x + i) % 64`, so a row drawn near the right
/// edge wraps around to the left edge.
pub open spec fn row_flips_cell_upto(x: int, yj: int, row: u8, c: int, hi: int) -> bool {
    exists|i: int| 0 <= i < hi && c == (x + i) % 64 + yj * 64 && sprite_bit(row, i)
}

/// Whether one sprite row, drawn at column `x` of screen row `yj`, turns
/// cell `c` over.
pub open spec fn row_flips_cell(x: int, yj: int, row: u8, c: int) -> bool {
    row_flips_cell_upto(x, yj, row, c, 8)
}

/// One sprite row XOR-composed onto screen `s` at column `x`, row `yj`.
pub open spec fn blit_row(s: Seq<bool>, x: int, yj: int, row: u8) -> Seq<bool> {
    Seq::new(s.len(), |c: int| s[c] ^ row_flips_cell(x, yj, row, c))
}

/// Whether one sprite row lands a set bit on a cell of `s` that is already on.
pub open spec fn row_collides(s: Seq<bool>, x: int, yj: int, row: u8) -> bool {
    exists|c: int| 0 <= c < s.len() && row_flips_cell(x, yj, row, c) && s[c]
}

/// Screen `s` after rows `j..` of `sprite` are XOR-composed in order,
/// row `j2` landing on screen row `(y + j2) % 32`.
pub open spec fn blit_from(s: Seq<bool>, x: int, y: int, sprite: Seq<u8>, j: int) -> Seq<bool>
    decreases sprite.len() - j,
{
    if j < 0 || j >= sprite.len() {
        s
    } else {
        blit_from(blit_row(s, x, (y + j) % 32, sprite[j]), x, y, sprite, j + 1)
    }
}

/// Screen `s` after the whole `sprite` is XOR-composed at `(x, y)`,
/// with coordinates wrapping modulo the screen size.
pub open spec fn blit(s: Seq<bool>, x: int, y: int, sprite: Seq<u8>) -> Seq<bool> {
    blit_from(s, x, y, sprite, 0)
}

/// Whether composing rows `j..` of `sprite` onto `s` lands any set sprite
/// bit on a pixel that is on at the moment that row is drawn.
pub open spec fn blit_collides_from(s: Seq<bool>, x: int, y: int, sprite: Seq<u8>, j: int) -> bool
    decreases sprite.len() - j,
{
    if j < 0 || j >= sprite.len() {
        false
    } else {
        row_collides(s, x, (y + j) % 32, sprite[j]) || blit_collides_from(
            blit_row(s, x, (y + j) % 32, sprite[j]),
            x,
            y,
            sprite,
            j + 1,
        )
    }
}

/// Whether drawing `sprite` at `(x, y)` on screen `s` collides anywhere.
pub open spec fn blit_collides(s: Seq<bool>, x: int, y: int, sprite: Seq<u8>) -> bool {
    blit_collides_from(s, x, y, sprite, 0)
}

/// Whether some set bit of `sprite`, drawn at `(x, y)`, lands on cell `c` —
/// counting rows `j..` only.
pub open spec fn sprite_hits_cell_from(x: int, y: int, sprite: Seq<u8>, j: int, c: int) -> bool {
    exists|j2: int|
        j <= j2 < sprite.len() && row_flips_cell(x, (y + j2) % 32, sprite[j2], c)
}

/// Whether some set bit of `sprite`, drawn at `(x, y)`, lands on cell `c`.
pub open spec fn sprite_hits_cell(x: int, y: int, sprite: Seq<u8>, c: int) -> bool {
    sprite_hits_cell_from(x, y, sprite, 0, c)
}

/// The 64x32 monochrome framebuffer.
pub struct Display {
    screen: Vec<u8>,
}

impl View for Display {
    type V = Seq<bool>;

    closed spec fn view(&self) -> Seq<bool> {
        Seq::new(self.screen@.len(), |c: int| self.screen@[c] == 1)
    }
}

impl Display {
    /// A display is well formed when it holds exactly 64 * 32 pixels.
    pub open spec fn wf(&self) -> bool {
        self@.len() == 2048
    }

    /// A fresh display with every pixel off.
    pub fn new() -> (d: Display)
        ensures
            d.wf(),
            forall|c: int| 0 <= c < 2048 ==> !d@[c],
    {
        Display { screen: off_pixels() }
    }

    /// Set the pixel at `(x, y)` to `on`. Coordinates must be pre-wrapped.
    pub fn set_pixel(&mut self, x: usize, y: usize, on: bool)
        requires
            old(self).wf(),
            x < 64,
            y < 32,
        ensures
            final(self).wf(),
            final(self)@ == old(self)@.update(x + y * 64, on),
    {
        let byte: u8 = if on {
            1
        } else {
            0
        };
        self.screen.set(x + y * WIDTH, byte);
        assert(final(self)@ =~= old(self)@.update(x + y * 64, on));
    }

    /// Whether the pixel at `(x, y)` is on. Coordinates must be pre-wrapped.
    pub fn get_pixel(&self, x: usize, y: usize) -> (on: bool)
        requires
            self.wf(),
            x < 64,
            y < 32,
        ensures
            on == self@[x + y * 64],
    {
        self.screen[x + y * WIDTH] == 1
    }

    /// Turn every pixel off.
    pub fn cls(&mut self)
        ensures
            final(self).wf(),
            forall|c: int| 0 <= c < 2048 ==> !final(self)@[c],
    {
        self.screen = off_pixels();
    }

    /// XOR-compose `sprite` onto the screen with its top-left corner at
    /// `(x, y)`. Row `j`, bit `i` (most significant first) lands on the
    /// wrapped cell `((x + i) % 64, (y + j) % 32)`; a set sprite bit turns
    /// the pixel over. Returns whether any set sprite bit landed on a pixel
    /// that was already on.
    #[verifier::loop_isolation(false)]
    #[verifier::rlimit(60)]
    pub fn draw(&mut self, x: usize, y: usize, sprite: &[u8]) -> (collision: bool)
        requires
            old(self).wf(),
        ensures
            final(self).wf(),
            final(self)@ == blit(old(self)@, x as int, y as int, sprite@),
            collision == blit_collides(old(self)@, x as int, y as int, sprite@),
            sprite@.len() <= 32 ==> forall|c: int|
                0 <= c < 2048 ==> final(self)@[c] == (old(self)@[c] ^ sprite_hits_cell(
                    x as int,
                    y as int,
                    sprite@,
                    c,
                )),
            sprite@.len() <= 32 ==> collision == (exists|c: int|
                0 <= c < 2048 && sprite_hits_cell(x as int, y as int, sprite@, c) && old(
                    self,
                )@[c]),
    {
        let ghost orig = self@;
        let rows: usize = sprite.len();
        let mut collision: bool = false;
        let mut j: usize = 0;
        while j < rows
            invariant
                self.wf(),
                j <= rows,
                blit_from(self@, x as int, y as int, sprite@, j as int) == blit(
                    orig,
                    x as int,
                    y as int,
                    sprite@,
                ),
                (collision || blit_collides_from(self@, x as int, y as int, sprite@, j as int))
                    == blit_collides(orig, x as int, y as int, sprite@),
            decreases rows - j,
        {
            let row: u8 = sprite[j];
            let yj: usize = (y % 32 + j % 32) % 32;
            proof {
                lemma_add_mod_noop(y as int, j as int, 32);
                assert(yj as int == (y as int + j as int) % 32);
            }
            let ghost s0 = self@;
            let ghost col0 = collision;
            let mut i: usize = 0;
            proof {
                assert(self@ =~= Seq::new(
                    2048,
                    |c: int| s0[c] ^ row_flips_cell_upto(x as int, yj as int, row, c, 0),
                ));
            }
            while i < 8
                invariant
                    self.wf(),
                    i <= 8,
                    self@ == Seq::new(
                        2048,
                        |c: int| s0[c] ^ row_flips_cell_upto(x as int, yj as int, row, c, i as int),
                    ),
                    collision == (col0 || exists|c: int|
                        0 <= c < 2048 && row_flips_cell_upto(x as int, yj as int, row, c, i as int)
                            && s0[c]),
                decreases 8 - i,
            {
                let b: u8 = (row >> ((7 - i) as u8)) & 1;
                proof {
                    assert((b == 1) == sprite_bit(row, i as int));
                }
                if b == 1 {
                    let xm: usize = x % 64;
                    let xi: usize = (xm + i) % 64;
                    let ghost cell = xi as int + (yj as int) * 64;
                    proof {
                        lemma_add_mod_noop(x as int, i as int, 64);
                        lemma_small_mod(i as nat, 64);
                        assert(xi as int == (x as int + i as int) % 64);
                        assert forall|i2: int| 0 <= i2 < i implies #[trigger] ((x as int + i2)
                            % 64) != (x as int + i as int) % 64 by {
                            lemma_wrap_distinct(x as int, i2, i as int, 64);
                        }
                        assert(!row_flips_cell_upto(x as int, yj as int, row, cell, i as int));
                    }
                    let old_v = self.get_pixel(xi, yj);
                    proof {
                        assert(old_v == s0[cell]);
                    }
                    if old_v {
                        collision = true;
                    }
                    self.set_pixel(xi, yj, !old_v);
                    proof {
                        assert forall|c: int| 0 <= c < 2048 && c != cell implies
                            row_flips_cell_upto(x as int, yj as int, row, c, i as int + 1)
                            == row_flips_cell_upto(x as int, yj as int, row, c, i as int) by {
                            if row_flips_cell_upto(x as int, yj as int, row, c, i as int + 1) {
                                let i2 = choose|i2: int|
                                    0 <= i2 < i as int + 1 && c == (x as int + i2) % 64 + (
                                    yj as int) * 64 && sprite_bit(row, i2);
                                assert(i2 < i as int);
                            }
                        }
                        assert(row_flips_cell_upto(x as int, yj as int, row, cell, i as int + 1))
                            by {
                            assert(0 <= (i as int) && (i as int) < i as int + 1 && cell == (
                            x as int + i as int) % 64 + (yj as int) * 64 && sprite_bit(
                                row,
                                i as int,
                            ));
                        }
                        assert(self@ =~= Seq::new(
                            2048,
                            |c: int| s0[c] ^ row_flips_cell_upto(
                                x as int,
                                yj as int,
                                row,
                                c,
                                i as int + 1,
                            ),
                        ));
                        if s0[cell] {
                            assert(exists|c: int|
                                0 <= c < 2048 && row_flips_cell_upto(
                                    x as int,
                                    yj as int,
                                    row,
                                    c,
                                    i as int + 1,
                                ) && s0[c]);
                        } else {
                            assert forall|c: int|
                                0 <= c < 2048 && row_flips_cell_upto(
                                    x as int,
                                    yj as int,
                                    row,
                                    c,
                                    i as int + 1,
                                ) && s0[c] implies row_flips_cell_upto(
                                x as int,
                                yj as int,
                                row,
                                c,
                                i as int,
                            ) && s0[c] by {}
                        }
                    }
                } else {
                    proof {
                        assert forall|c: int| 0 <= c < 2048 implies row_flips_cell_upto(
                            x as int,
                            yj as int,
                            row,
                            c,
                            i as int + 1,
                        ) == row_flips_cell_upto(x as int, yj as int, row, c, i as int) by {
                            if row_flips_cell_upto(x as int, yj as int, row, c, i as int + 1) {
                                let i2 = choose|i2: int|
                                    0 <= i2 < i as int + 1 && c == (x as int + i2) % 64 + (
                                    yj as int) * 64 && sprite_bit(row, i2);
                                assert(i2 < i as int);
                            }
                        }
                        assert(self@ =~= Seq::new(
                            2048,
                            |c: int| s0[c] ^ row_flips_cell_upto(
                                x as int,
                                yj as int,
                                row,
                                c,
                                i as int + 1,
                            ),
                        ));
                    }
                }
                i = i + 1;
            }
            proof {
                assert(self@ =~= blit_row(s0, x as int, yj as int, row));
                assert(blit_from(s0, x as int, y as int, sprite@, j as int) == blit_from(
                    self@,
                    x as int,
                    y as int,
                    sprite@,
                    j as int + 1,
                ));
                assert((collision || blit_collides_from(
                    self@,
                    x as int,
                    y as int,
                    sprite@,
                    j as int + 1,
                )) == blit_collides(orig, x as int, y as int, sprite@));
            }
            j = j + 1;
        }
        proof {
            if sprite@.len() <= 32 {
                lemma_blit_cells_from(orig, x as int, y as int, sprite@, 0);
            }
        }
        collision
    }
}

/// If two offsets below `m` differ, adding them to a common base gives
/// different residues modulo `m`.
proof fn lemma_wrap_distinct(base: int, i1: int, i2: int, m: int)
    requires
        0 <= base,
        0 <= i1 < i2 < m,
    ensures
        (base + i1) % m != (base + i2) % m,
{
    lemma_fundamental_div_mod(base + i1, m);
    lemma_fundamental_div_mod(base + i2, m);
    let q1 = (base + i1) / m;
    let q2 = (base + i2) / m;
    if (base + i1) % m == (base + i2) % m {
        assert(m * q2 - m * q1 == i2 - i1);
        let d = q2 - q1;
        assert(m * d == i2 - i1) by (nonlinear_arith)
            requires
                m * q2 - m * q1 == i2 - i1,
                d == q2 - q1,
        ;
        assert(false) by (nonlinear_arith)
            requires
                m * d == i2 - i1,
                0 < i2 - i1 < m,
        ;
    }
}

/// A cell turned over by a sprite row lies on that row of the screen.
proof fn lemma_cell_row(x: int, yj: int, row: u8, c: int)
    requires
        0 <= x,
        0 <= yj < 32,
        row_flips_cell(x, yj, row, c),
    ensures
        0 <= c < 2048,
        c / 64 == yj,
{
    let i = choose|i: int|
        0 <= i < 8 && c == (x + i) % 64 + yj * 64 && sprite_bit(row, i);
    lemma_mod_bound(x + i, 64);
    lemma_fundamental_div_mod_converse(c, 64, yj, (x + i) % 64);
}

/// XOR-composing a sprite does not change the number of pixels.
pub proof fn lemma_blit_from_len(s: Seq<bool>, x: int, y: int, sprite: Seq<u8>, j: int)
    ensures
        blit_from(s, x, y, sprite, j).len() == s.len(),
    decreases sprite.len() - j,
{
    if j < 0 || j >= sprite.len() {
    } else {
        lemma_blit_from_len(blit_row(s, x, (y + j) % 32, sprite[j]), x, y, sprite, j + 1);
    }
}

/// Composing the same sprite onto two screens turns over the same cells:
/// the XOR difference between the screens is untouched by the draw.
proof fn lemma_blit_from_parity(s: Seq<bool>, t: Seq<bool>, x: int, y: int, sprite: Seq<u8>, j: int)
    requires
        s.len() == t.len(),
    ensures
        forall|c: int|
            0 <= c < s.len() ==> (#[trigger] blit_from(s, x, y, sprite, j)[c] ^ blit_from(
                t,
                x,
                y,
                sprite,
                j,
            )[c]) == (s[c] ^ t[c]),
    decreases sprite.len() - j,
{
    lemma_blit_from_len(s, x, y, sprite, j);
    lemma_blit_from_len(t, x, y, sprite, j);
    if j < 0 || j >= sprite.len() {
    } else {
        let s1 = blit_row(s, x, (y + j) % 32, sprite[j]);
        let t1 = blit_row(t, x, (y + j) % 32, sprite[j]);
        lemma_blit_from_parity(s1, t1, x, y, sprite, j + 1);
        assert forall|c: int| 0 <= c < s.len() implies (#[trigger] blit_from(s, x, y, sprite, j)[c]
            ^ blit_from(t, x, y, sprite, j)[c]) == (s[c] ^ t[c]) by {
            assert(blit_from(s, x, y, sprite, j) == blit_from(s1, x, y, sprite, j + 1));
            assert(blit_from(t, x, y, sprite, j) == blit_from(t1, x, y, sprite, j + 1));
            assert(s1[c] == (s[c] ^ row_flips_cell(x, (y + j) % 32, sprite[j], c)));
            assert(t1[c] == (t[c] ^ row_flips_cell(x, (y + j) % 32, sprite[j], c)));
            assert((blit_from(s1, x, y, sprite, j + 1)[c] ^ blit_from(t1, x, y, sprite, j + 1)[c])
                == (s1[c] ^ t1[c]));
        }
    }
}

/// Drawing the same sprite at the same location twice in succession
/// restores the pre-draw pixel state: the XOR blit is an involution.
pub proof fn lemma_draw_twice_restores(s: Seq<bool>, x: int, y: int, sprite: Seq<u8>)
    ensures
        blit(blit(s, x, y, sprite), x, y, sprite) == s,
{
    let t = blit(s, x, y, sprite);
    lemma_blit_from_len(s, x, y, sprite, 0);
    lemma_blit_from_len(t, x, y, sprite, 0);
    lemma_blit_from_parity(s, t, x, y, sprite, 0);
    assert forall|c: int| 0 <= c < s.len() implies blit(t, x, y, sprite)[c] == s[c] by {
        assert((blit_from(s, x, y, sprite, 0)[c] ^ blit_from(t, x, y, sprite, 0)[c]) == (s[c]
            ^ t[c]));
    }
    assert(blit(t, x, y, sprite) =~= s);
}

/// Per-cell reading of the row-by-row blit, for sprites of at most 32 rows
/// (so that no two rows land on the same screen row): each cell is turned
/// over exactly when some set sprite bit lands on it, and the draw collides
/// exactly when some set sprite bit lands on a cell that was already on.
pub proof fn lemma_blit_cells_from(s: Seq<bool>, x: int, y: int, sprite: Seq<u8>, j: int)
    requires
        s.len() == 2048,
        0 <= x,
        0 <= y,
        sprite.len() <= 32,
        0 <= j,
    ensures
        blit_from(s, x, y, sprite, j).len() == 2048,
        forall|c: int|
            0 <= c < 2048 ==> #[trigger] blit_from(s, x, y, sprite, j)[c] == (s[c]
                ^ sprite_hits_cell_from(x, y, sprite, j, c)),
        blit_collides_from(s, x, y, sprite, j) == (exists|c: int|
            0 <= c < 2048 && sprite_hits_cell_from(x, y, sprite, j, c) && s[c]),
    decreases sprite.len() - j,
{
    lemma_blit_from_len(s, x, y, sprite, j);
    if j >= sprite.len() {
        assert(forall|c: int| !sprite_hits_cell_from(x, y, sprite, j, c));
    } else {
        let yj = (y + j) % 32;
        lemma_mod_bound(y + j, 32);
        let s1 = blit_row(s, x, yj, sprite[j]);
        lemma_blit_cells_from(s1, x, y, sprite, j + 1);
        assert forall|c: int| #[trigger] sprite_hits_cell_from(x, y, sprite, j + 1, c) implies (0
            <= c < 2048 && c / 64 != yj) by {
            let j2 = choose|j2: int|
                j + 1 <= j2 < sprite.len() && row_flips_cell(x, (y + j2) % 32, sprite[j2], c);
            lemma_mod_bound(y + j2, 32);
            lemma_cell_row(x, (y + j2) % 32, sprite[j2], c);
            lemma_wrap_distinct(y, j, j2, 32);
        }
        assert forall|c: int| #[trigger] row_flips_cell(x, yj, sprite[j], c) implies (0 <= c < 2048
            && c / 64 == yj) by {
            lemma_cell_row(x, yj, sprite[j], c);
        }
        assert forall|c: int| 0 <= c < 2048 implies #[trigger] sprite_hits_cell_from(
            x,
            y,
            sprite,
            j,
            c,
        ) == (row_flips_cell(x, yj, sprite[j], c) || sprite_hits_cell_from(
            x,
            y,
            sprite,
            j + 1,
            c,
        )) by {
            if sprite_hits_cell_from(x, y, sprite, j, c) {
                let j2 = choose|j2: int|
                    j <= j2 < sprite.len() && row_flips_cell(x, (y + j2) % 32, sprite[j2], c);
                if j2 == j {
                } else {
                    assert(j + 1 <= j2 < sprite.len() && row_flips_cell(
                        x,
                        (y + j2) % 32,
                        sprite[j2],
                        c,
                    ));
                }
            }
            if row_flips_cell(x, yj, sprite[j], c) {
                assert(j <= j < sprite.len() && row_flips_cell(x, (y + j) % 32, sprite[j], c));
            }
            if sprite_hits_cell_from(x, y, sprite, j + 1, c) {
                let j2 = choose|j2: int|
                    j + 1 <= j2 < sprite.len() && row_flips_cell(x, (y + j2) % 32, sprite[j2], c);
                assert(j <= j2 < sprite.len() && row_flips_cell(x, (y + j2) % 32, sprite[j2], c));
            }
        }
        assert forall|c: int| #[trigger] sprite_hits_cell_from(x, y, sprite, j + 1, c) implies s1[c]
            == s[c] by {}
        assert forall|c: int| 0 <= c < 2048 implies #[trigger] blit_from(s, x, y, sprite, j)[c] == (
        s[c] ^ sprite_hits_cell_from(x, y, sprite, j, c)) by {
            assert(blit_from(s, x, y, sprite, j)[c] == blit_from(s1, x, y, sprite, j + 1)[c]);
            assert(blit_from(s1, x, y, sprite, j + 1)[c] == (s1[c] ^ sprite_hits_cell_from(
                x,
                y,
                sprite,
                j + 1,
                c,
            )));
        }
        assert(blit_collides_from(s, x, y, sprite, j) == (row_collides(s, x, yj, sprite[j])
            || blit_collides_from(s1, x, y, sprite, j + 1)));
        if row_collides(s, x, yj, sprite[j]) {
            let c = choose|c: int|
                0 <= c < s.len() && row_flips_cell(x, yj, sprite[j], c) && s[c];
            assert(sprite_hits_cell_from(x, y, sprite, j, c) && s[c]);
        }
        if blit_collides_from(s1, x, y, sprite, j + 1) {
            let c = choose|c: int|
                0 <= c < 2048 && sprite_hits_cell_from(x, y, sprite, j + 1, c) && s1[c];
            assert(sprite_hits_cell_from(x, y, sprite, j, c) && s[c]);
        }
        if exists|c: int| 0 <= c < 2048 && sprite_hits_cell_from(x, y, sprite, j, c) && s[c] {
            let c = choose|c: int|
                0 <= c < 2048 && sprite_hits_cell_from(x, y, sprite, j, c) && s[c];
            if row_flips_cell(x, yj, sprite[j], c) {
                assert(row_collides(s, x, yj, sprite[j]));
            } else {
                assert(sprite_hits_cell_from(x, y, sprite, j + 1, c) && s1[c]);
                assert(blit_collides_from(s1, x, y, sprite, j + 1));
            }
        }
    }
}

/// Per-cell reading of a whole draw: see [`lemma_blit_cells_from`].
pub proof fn lemma_blit_cells(s: Seq<bool>, x: int, y: int, sprite: Seq<u8>)
    requires
        s.len() == 2048,
        0 <= x,
        0 <= y,
        sprite.len() <= 32,
    ensures
        blit(s, x, y, sprite).len() == 2048,
        forall|c: int|
            0 <= c < 2048 ==> #[trigger] blit(s, x, y, sprite)[c] == (s[c] ^ sprite_hits_cell(
                x,
                y,
                sprite,
                c,
            )),
        blit_collides(s, x, y, sprite) == (exists|c: int|
            0 <= c < 2048 && sprite_hits_cell(x, y, sprite, c) && s[c]),
{
    lemma_blit_cells_from(s, x, y, sprite, 0);
}

/// The second of two identical draws collides exactly when the first draw
/// turned some pixel on: every bit the first draw set is found lit again.
pub proof fn lemma_second_draw_collides(s: Seq<bool>, x: int, y: int, sprite: Seq<u8>)
    requires
        s.len() == 2048,
        0 <= x,
        0 <= y,
        sprite.len() <= 32,
    ensures
        blit_collides(blit(s, x, y, sprite), x, y, sprite) == (exists|c: int|
            0 <= c < 2048 && sprite_hits_cell(x, y, sprite, c) && !s[c]),
{
    let t = blit(s, x, y, sprite);
    lemma_blit_cells(s, x, y, sprite);
    lemma_blit_cells(t, x, y, sprite);
    if blit_collides(t, x, y, sprite) {
        let c = choose|c: int| 0 <= c < 2048 && sprite_hits_cell(x, y, sprite, c) && t[c];
        assert(sprite_hits_cell(x, y, sprite, c) && !s[c]);
    }
    if exists|c: int| 0 <= c < 2048 && sprite_hits_cell(x, y, sprite, c) && !s[c] {
        let c = choose|c: int| 0 <= c < 2048 && sprite_hits_cell(x, y, sprite, c) && !s[c];
        assert(t[c]);
    }
}

/// 2048 pixel bytes, all zero.
fn off_pixels() -> (v: Vec<u8>)
    ensures
        v@.len() == 2048,
        forall|c: int| 0 <= c < 2048 ==> v@[c] == 0,
{
    let mut v: Vec<u8> = Vec::new();
    let mut n: usize = 0;
    while n < WIDTH * HEIGHT
        invariant
            n <= 2048,
            v@.len() == n,
            forall|c: int| 0 <= c < n ==> v@[c] == 0,
        decreases 2048 - n,
    {
        v.push(0);
        n = n + 1;
    }
    v
}

} // verus!
