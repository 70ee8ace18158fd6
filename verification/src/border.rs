//! The border descriptor of a pane: a 4-bit visibility mask (one bit per
//! edge), corner and edge glyphs, and four padding counts.

use vstd::prelude::*;

verus! {

/// Default horizontal border glyph.
pub const HBORDER: char = '-';

/// Default vertical border glyph.
pub const VBORDER: char = '|';

/// Default corner glyph.
pub const CORNER: char = '+';

/// The glyph used for padding and filler cells.
pub const PADDING: char = ' ';

/// Whether bit `idx` of `mask` is set.
pub open spec fn mask_bit(mask: u8, idx: u8) -> bool {
    (mask >> idx) & 1 == 1
}

/// Testing a bit with `> 0` is the same as testing it with `== 1`.
proof fn lemma_bit01(m: u8, j: u8)
    requires
        j < 8,
    ensures
        ((m >> j) & 1 > 0) == mask_bit(m, j),
{
    assert(((m >> j) & 1 > 0) == ((m >> j) & 1 == 1)) by (bit_vector);
}

/// Flipping one bit leaves every other bit alone.
proof fn lemma_mask_toggle(m: u8, j: u8, k: u8)
    requires
        j < 8,
        k < 8,
    ensures
        j == k ==> mask_bit(m ^ (1u8 << j), k) == !mask_bit(m, k),
        j != k ==> mask_bit(m ^ (1u8 << j), k) == mask_bit(m, k),
{
    assert(j == k ==> (((m ^ (1u8 << j)) >> k) & 1 == 1) == !((m >> k) & 1 == 1)) by (bit_vector)
        requires
            j < 8,
            k < 8,
    ;
    assert(j != k ==> (((m ^ (1u8 << j)) >> k) & 1 == 1) == ((m >> k) & 1 == 1)) by (bit_vector)
        requires
            j < 8,
            k < 8,
    ;
}

/// Border configuration of a pane. The mask assigns bit 3 to the left
/// edge, bit 2 to the top, bit 1 to the bottom and bit 0 to the right.
/// `corner` lists the corner glyphs clockwise from the top-left.
#[derive(Debug, Clone, Copy)]
pub struct BufferBorder {
    pub border_shown: u8,
    pub corner: [char; 4],
    pub hborder: char,
    pub vborder: char,
    pub lpad: u16,
    pub rpad: u16,
    pub tpad: u16,
    pub dpad: u16,
}

impl BufferBorder {
    /// Whether the left edge is drawn.
    pub open spec fn shows_left(&self) -> bool {
        mask_bit(self.border_shown, 3)
    }

    /// Whether the top edge is drawn.
    pub open spec fn shows_top(&self) -> bool {
        mask_bit(self.border_shown, 2)
    }

    /// Whether the bottom edge is drawn.
    pub open spec fn shows_down(&self) -> bool {
        mask_bit(self.border_shown, 1)
    }

    /// Whether the right edge is drawn.
    pub open spec fn shows_right(&self) -> bool {
        mask_bit(self.border_shown, 0)
    }

    /// How many vertical edges (left, right) are drawn.
    pub open spec fn n_vborders(&self) -> nat {
        (if self.shows_left() {
            1nat
        } else {
            0nat
        }) + (if self.shows_right() {
            1nat
        } else {
            0nat
        })
    }

    /// How many horizontal edges (top, bottom) are drawn.
    pub open spec fn n_hborders(&self) -> nat {
        (if self.shows_top() {
            1nat
        } else {
            0nat
        }) + (if self.shows_down() {
            1nat
        } else {
            0nat
        })
    }

    /// Everything but the visibility mask.
    pub open spec fn same_glyphs(&self, other: &BufferBorder) -> bool {
        &&& self.corner == other.corner
        &&& self.hborder == other.hborder
        &&& self.vborder == other.vborder
        &&& self.lpad == other.lpad
        &&& self.rpad == other.rpad
        &&& self.tpad == other.tpad
        &&& self.dpad == other.dpad
    }

    /// A border config built from the given parts.
    pub fn new(
        border_shown: u8,
        corner: [char; 4],
        hborder: char,
        vborder: char,
        lpad: u16,
        rpad: u16,
        tpad: u16,
        dpad: u16,
    ) -> (r: Self)
        ensures
            r == (BufferBorder { border_shown, corner, hborder, vborder, lpad, rpad, tpad, dpad }),
    {
        BufferBorder { border_shown, corner, hborder, vborder, lpad, rpad, tpad, dpad }
    }

    /// All four edges shown, default glyphs, no padding.
    pub fn blank() -> (r: BufferBorder)
        ensures
            r.border_shown == 0xF,
            r.corner == [CORNER, CORNER, CORNER, CORNER],
            r.hborder == HBORDER,
            r.vborder == VBORDER,
            r.lpad == 0 && r.rpad == 0 && r.tpad == 0 && r.dpad == 0,
            r.shows_left() && r.shows_top() && r.shows_down() && r.shows_right(),
    {
        proof {
            assert((0xFu8 >> 0) & 1 == 1 && (0xFu8 >> 1) & 1 == 1 && (0xFu8 >> 2) & 1 == 1 && (
            0xFu8 >> 3) & 1 == 1) by (bit_vector);
        }
        BufferBorder {
            border_shown: 0xF,
            corner: [CORNER, CORNER, CORNER, CORNER],
            hborder: HBORDER,
            vborder: VBORDER,
            lpad: 0,
            rpad: 0,
            tpad: 0,
            dpad: 0,
        }
    }

    /// All four edges shown, default glyphs, one cell of padding on every
    /// side.
    pub fn default() -> (r: BufferBorder)
        ensures
            r.border_shown == 0xF,
            r.corner == [CORNER, CORNER, CORNER, CORNER],
            r.hborder == HBORDER,
            r.vborder == VBORDER,
            r.lpad == 1 && r.rpad == 1 && r.tpad == 1 && r.dpad == 1,
            r.shows_left() && r.shows_top() && r.shows_down() && r.shows_right(),
    {
        let mut r = Self::blank();
        r.lpad = 1;
        r.rpad = 1;
        r.tpad = 1;
        r.dpad = 1;
        r
    }

    /// Flips the edge whose mask bit is `border_idx`.
    fn toggle_border(&mut self, border_idx: u8)
        requires
            border_idx < 4,
        ensures
            final(self).border_shown == old(self).border_shown ^ (1u8 << border_idx),
            final(self).same_glyphs(old(self)),
            forall|k: u8|
                k < 8 && k != border_idx ==> mask_bit(final(self).border_shown, k) == mask_bit(
                    old(self).border_shown,
                    k,
                ),
            mask_bit(final(self).border_shown, border_idx) == !mask_bit(
                old(self).border_shown,
                border_idx,
            ),
    {
        proof {
            let m = self.border_shown;
            assert forall|k: u8| k < 8 implies mask_bit(m ^ (1u8 << border_idx), k) == (if k
                == border_idx {
                !mask_bit(m, k)
            } else {
                mask_bit(m, k)
            }) by {
                lemma_mask_toggle(m, border_idx, k);
            }
        }
        self.border_shown = self.border_shown ^ (1 << border_idx);
    }

    /// Sets the edge whose mask bit is `border_idx` to `show`.
    fn show_border(&mut self, show: bool, border_idx: u8)
        requires
            border_idx < 4,
        ensures
            final(self).same_glyphs(old(self)),
            forall|k: u8|
                k < 8 && k != border_idx ==> mask_bit(final(self).border_shown, k) == mask_bit(
                    old(self).border_shown,
                    k,
                ),
            mask_bit(final(self).border_shown, border_idx) == show,
    {
        proof {
            lemma_bit01(self.border_shown, border_idx);
        }
        if show != ((self.border_shown >> border_idx) & 1 > 0) {
            self.toggle_border(border_idx);
        }
    }

    /// Flips the right edge.
    pub fn toggle_right(&mut self)
        ensures
            final(self).same_glyphs(old(self)),
            final(self).shows_right() == !old(self).shows_right(),
            final(self).shows_left() == old(self).shows_left(),
            final(self).shows_top() == old(self).shows_top(),
            final(self).shows_down() == old(self).shows_down(),
    {
        self.toggle_border(0);
    }

    /// Flips the bottom edge.
    pub fn toggle_down(&mut self)
        ensures
            final(self).same_glyphs(old(self)),
            final(self).shows_down() == !old(self).shows_down(),
            final(self).shows_left() == old(self).shows_left(),
            final(self).shows_top() == old(self).shows_top(),
            final(self).shows_right() == old(self).shows_right(),
    {
        self.toggle_border(1);
    }

    /// Flips the top edge.
    pub fn toggle_top(&mut self)
        ensures
            final(self).same_glyphs(old(self)),
            final(self).shows_top() == !old(self).shows_top(),
            final(self).shows_left() == old(self).shows_left(),
            final(self).shows_down() == old(self).shows_down(),
            final(self).shows_right() == old(self).shows_right(),
    {
        self.toggle_border(2);
    }

    /// Flips the left edge.
    pub fn toggle_left(&mut self)
        ensures
            final(self).same_glyphs(old(self)),
            final(self).shows_left() == !old(self).shows_left(),
            final(self).shows_top() == old(self).shows_top(),
            final(self).shows_down() == old(self).shows_down(),
            final(self).shows_right() == old(self).shows_right(),
    {
        self.toggle_border(3);
    }

    /// Shows or hides the right edge.
    pub fn showr(&mut self, show: bool)
        ensures
            final(self).same_glyphs(old(self)),
            final(self).shows_right() == show,
            final(self).shows_left() == old(self).shows_left(),
            final(self).shows_top() == old(self).shows_top(),
            final(self).shows_down() == old(self).shows_down(),
    {
        self.show_border(show, 0);
    }

    /// Shows or hides the bottom edge.
    pub fn showd(&mut self, show: bool)
        ensures
            final(self).same_glyphs(old(self)),
            final(self).shows_down() == show,
            final(self).shows_left() == old(self).shows_left(),
            final(self).shows_top() == old(self).shows_top(),
            final(self).shows_right() == old(self).shows_right(),
    {
        self.show_border(show, 1);
    }

    /// Shows or hides the top edge.
    pub fn showt(&mut self, show: bool)
        ensures
            final(self).same_glyphs(old(self)),
            final(self).shows_top() == show,
            final(self).shows_left() == old(self).shows_left(),
            final(self).shows_down() == old(self).shows_down(),
            final(self).shows_right() == old(self).shows_right(),
    {
        self.show_border(show, 2);
    }

    /// Shows or hides the left edge.
    pub fn showl(&mut self, show: bool)
        ensures
            final(self).same_glyphs(old(self)),
            final(self).shows_left() == show,
            final(self).shows_top() == old(self).shows_top(),
            final(self).shows_down() == old(self).shows_down(),
            final(self).shows_right() == old(self).shows_right(),
    {
        self.show_border(show, 3);
    }

    /// Shows or hides all four edges at once.
    pub fn show_all(&mut self, show: bool)
        ensures
            final(self).same_glyphs(old(self)),
            final(self).border_shown == (if show {
                0xFu8
            } else {
                0u8
            }),
            final(self).shows_left() == show,
            final(self).shows_top() == show,
            final(self).shows_down() == show,
            final(self).shows_right() == show,
    {
        proof {
            assert((0xFu8 >> 0) & 1 == 1 && (0xFu8 >> 1) & 1 == 1 && (0xFu8 >> 2) & 1 == 1 && (
            0xFu8 >> 3) & 1 == 1) by (bit_vector);
            assert((0u8 >> 0) & 1 == 0 && (0u8 >> 1) & 1 == 0 && (0u8 >> 2) & 1 == 0 && (0u8 >> 3)
                & 1 == 0) by (bit_vector);
        }
        if show {
            self.border_shown = 0xF;
        } else {
            self.border_shown = 0;
        }
    }

    /// The four edge flags in the order left, top, bottom, right.
    pub fn get_borders_shown(&self) -> (r: [bool; 4])
        ensures
            r@.len() == 4,
            r@[0] == self.shows_left(),
            r@[1] == self.shows_top(),
            r@[2] == self.shows_down(),
            r@[3] == self.shows_right(),
    {
        proof {
            lemma_bit01(self.border_shown, 0);
            lemma_bit01(self.border_shown, 1);
            lemma_bit01(self.border_shown, 2);
            lemma_bit01(self.border_shown, 3);
        }
        let r = [
            (self.border_shown >> 3) & 1 > 0,
            (self.border_shown >> 2) & 1 > 0,
            (self.border_shown >> 1) & 1 > 0,
            (self.border_shown >> 0) & 1 > 0,
        ];
        proof {
            assert(r@ =~= seq![
                self.shows_left(),
                self.shows_top(),
                self.shows_down(),
                self.shows_right(),
            ]);
        }
        r
    }

    /// How many cells of a row the vertical edges take, and how many rows
    /// the horizontal edges take.
    pub fn get_number_of_borders(&self) -> (r: (u16, u16))
        ensures
            r.0 == self.n_vborders(),
            r.1 == self.n_hborders(),
    {
        proof {
            lemma_bit01(self.border_shown, 0);
            lemma_bit01(self.border_shown, 1);
            lemma_bit01(self.border_shown, 2);
            lemma_bit01(self.border_shown, 3);
        }
        let mut vborders: u16 = 0;
        let mut hborders: u16 = 0;
        if (self.border_shown >> 3) & 1 > 0 {
            vborders += 1;
        }
        if (self.border_shown >> 0) & 1 > 0 {
            vborders += 1;
        }
        if (self.border_shown >> 2) & 1 > 0 {
            hborders += 1;
        }
        if (self.border_shown >> 1) & 1 > 0 {
            hborders += 1;
        }
        (vborders, hborders)
    }
}

} // verus!
