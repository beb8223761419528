//! Shelf packing of glyph bitmaps into a single-channel texture atlas.
//!
//! Glyphs are placed left to right on the current shelf; a glyph that does not
//! fit in the rest of the row opens a new shelf below the tallest glyph of the
//! current one. One pixel of padding separates glyphs and shelves.

use vstd::prelude::*;

verus! {

/// Padding, in pixels, around packed glyphs.
pub const TEXT_ATLAS_PADDING: u32 = 1;

/// A placed glyph: left, top, width, height.
pub type Placement = (int, int, int, int);

/// Two placements share no pixel.
pub open spec fn placements_disjoint(a: Placement, b: Placement) -> bool {
    a.0 + a.2 <= b.0 || b.0 + b.2 <= a.0 || a.1 + a.3 <= b.1 || b.1 + b.3 <= a.1
}

/// Pixel (`x`, `y`) lies in the placed rectangle.
pub open spec fn placement_covers(p: Placement, x: int, y: int) -> bool {
    p.0 <= x < p.0 + p.2 && p.1 <= y < p.1 + p.3
}

/// Packing a `w` x `h` glyph keeps its cursor arithmetic within 32 bits: for a
/// glyph that passes the size checks, opening a new shelf and the bottom edge
/// on the chosen shelf both fit.
pub open spec fn pack_fits_u32(
    cursor_x: int,
    cursor_y: int,
    row_height: int,
    width: int,
    height: int,
    w: int,
    h: int,
) -> bool {
    w != 0 && h != 0 && w + 1 < width && h + 1 < height ==> {
        &&& cursor_x + w + 1 >= width ==> cursor_y + row_height + 1 <= u32::MAX
        &&& shelf_for(cursor_x, cursor_y, row_height, width, w).1 + h + 1 <= u32::MAX
    }
}

/// A single-channel atlas with a shelf-packing cursor.
pub struct GlyphAtlas {
    width: u32,
    height: u32,
    pixels: Vec<u8>,
    cursor_x: u32,
    cursor_y: u32,
    row_height: u32,
    placed: Ghost<Seq<Placement>>,
}

/// Where packing a `w` x `h` glyph puts the cursor before placing it: a new
/// shelf when the glyph does not fit in the rest of the current one.
pub open spec fn shelf_for(cursor_x: int, cursor_y: int, row_height: int, width: int, w: int) -> (int, int, int) {
    if cursor_x + w + 1 >= width {
        (1, cursor_y + row_height + 1, 0)
    } else {
        (cursor_x, cursor_y, row_height)
    }
}

impl GlyphAtlas {
    /// Atlas width in pixels.
    pub closed spec fn width_view(&self) -> int {
        self.width as int
    }

    /// Atlas height in pixels.
    pub closed spec fn height_view(&self) -> int {
        self.height as int
    }

    /// Atlas pixels, row by row.
    pub closed spec fn pixels_view(&self) -> Seq<u8> {
        self.pixels@
    }

    /// Left edge of the next glyph on the current shelf.
    pub closed spec fn cursor_x_view(&self) -> int {
        self.cursor_x as int
    }

    /// Top edge of the current shelf.
    pub closed spec fn cursor_y_view(&self) -> int {
        self.cursor_y as int
    }

    /// Height of the tallest glyph on the current shelf.
    pub closed spec fn row_height_view(&self) -> int {
        self.row_height as int
    }

    /// The glyphs placed so far, in order.
    pub closed spec fn placements(&self) -> Seq<Placement> {
        self.placed@
    }

    /// The atlas pixel at column `x`, row `y`.
    pub open spec fn pixel_at(&self, x: int, y: int) -> u8 {
        self.pixels_view()[y * self.width_view() + x]
    }

    /// Internal consistency: the pixel buffer matches the size, every placed
    /// glyph lies inside the atlas and above the shelf or left of the cursor,
    /// and no two placed glyphs overlap.
    pub closed spec fn wf(&self) -> bool {
        &&& self.pixels@.len() == self.width * self.height
        &&& self.width * self.height <= u32::MAX
        &&& forall|i: int| 0 <= i < self.placed@.len() ==> {
            let p = #[trigger] self.placed@[i];
            &&& 0 <= p.0 && 0 <= p.1 && 0 < p.2 && 0 < p.3
            &&& p.0 + p.2 < self.width
            &&& p.1 + p.3 < self.height
            &&& (p.1 + p.3 + 1 <= self.cursor_y || (p.1 == self.cursor_y && p.0 + p.2 + 1
                <= self.cursor_x && p.3 <= self.row_height))
        }
        &&& forall|i: int, j: int|
            0 <= i < j < self.placed@.len() ==> placements_disjoint(
                #[trigger] self.placed@[i],
                #[trigger] self.placed@[j],
            )
        &&& self.cursor_x <= self.width || self.width == 0
    }

    /// An empty (all-zero) atlas of the given size with the cursor at the padding.
    pub fn new(width: u32, height: u32) -> (r: Self)
        requires
            width * height <= u32::MAX,
        ensures
            r.wf(),
            r.width_view() == width,
            r.height_view() == height,
            r.pixels_view() == Seq::new((width * height) as nat, |i: int| 0u8),
            r.cursor_x_view() == 1,
            r.cursor_y_view() == 1,
            r.row_height_view() == 0,
            r.placements() == Seq::<Placement>::empty(),
    {
        let n = (width * height) as usize;
        let mut pixels: Vec<u8> = Vec::new();
        let mut i: usize = 0;
        while i < n
            invariant
                i <= n,
                pixels@ == Seq::new(i as nat, |k: int| 0u8),
            decreases n - i,
        {
            pixels.push(0u8);
            assert(pixels@ =~= Seq::new((i + 1) as nat, |k: int| 0u8));
            i = i + 1;
        }
        GlyphAtlas {
            width,
            height,
            pixels,
            cursor_x: TEXT_ATLAS_PADDING,
            cursor_y: TEXT_ATLAS_PADDING,
            row_height: 0,
            placed: Ghost(Seq::empty()),
        }
    }

    /// Atlas width in pixels.
    pub fn width(&self) -> (r: u32)
        ensures
            r == self.width_view(),
    {
        self.width
    }

    /// Atlas height in pixels.
    pub fn height(&self) -> (r: u32)
        ensures
            r == self.height_view(),
    {
        self.height
    }

    /// The packing cursor: left edge of the next glyph, top of the current
    /// shelf, and the height of its tallest glyph.
    pub fn shelf_cursor(&self) -> (r: (u32, u32, u32))
        ensures
            r == (self.cursor_x_view() as u32, self.cursor_y_view() as u32, self.row_height_view() as u32),
    {
        (self.cursor_x, self.cursor_y, self.row_height)
    }

    /// Atlas pixels, row by row.
    pub fn pixels(&self) -> (r: &[u8])
        ensures
            r@ == self.pixels_view(),
    {
        self.pixels.as_slice()
    }

    /// Packs a `glyph_width` x `glyph_height` glyph (pixels row by row) and returns
    /// its top-left corner, or `None` when it is empty, larger than the atlas
    /// allows, or does not fit below the current shelf. Opening a new shelf
    /// happens before the last check, so it persists even when that check fails.
    pub fn pack(&mut self, glyph_width: u32, glyph_height: u32, glyph_pixels: &[u8]) -> (r: Option<(u32, u32)>)
        requires
            old(self).wf(),
            glyph_pixels@.len() == glyph_width * glyph_height,
            glyph_width != 0 && glyph_height != 0 ==> glyph_width < u32::MAX && glyph_height < u32::MAX,
            pack_fits_u32(
                old(self).cursor_x_view(),
                old(self).cursor_y_view(),
                old(self).row_height_view(),
                old(self).width_view(),
                old(self).height_view(),
                glyph_width as int,
                glyph_height as int,
            ),
        ensures
            final(self).wf(),
            final(self).width_view() == old(self).width_view(),
            final(self).height_view() == old(self).height_view(),
            ({
                let w = glyph_width as int;
                let h = glyph_height as int;
                let width = old(self).width_view();
                let height = old(self).height_view();
                if w == 0 || h == 0 || w + 1 >= width || h + 1 >= height {
                    &&& r is None
                    &&& final(self).pixels_view() == old(self).pixels_view()
                    &&& final(self).cursor_x_view() == old(self).cursor_x_view()
                    &&& final(self).cursor_y_view() == old(self).cursor_y_view()
                    &&& final(self).row_height_view() == old(self).row_height_view()
                    &&& final(self).placements() == old(self).placements()
                } else {
                    let shelf = shelf_for(
                        old(self).cursor_x_view(),
                        old(self).cursor_y_view(),
                        old(self).row_height_view(),
                        width,
                        w,
                    );
                    let (cx, cy, rh) = shelf;
                    if cy + h + 1 >= height {
                        &&& r is None
                        &&& final(self).pixels_view() == old(self).pixels_view()
                        &&& final(self).cursor_x_view() == cx
                        &&& final(self).cursor_y_view() == cy
                        &&& final(self).row_height_view() == rh
                        &&& final(self).placements() == old(self).placements()
                    } else {
                        &&& r == Some((cx as u32, cy as u32))
                        &&& final(self).cursor_x_view() == cx + w + 1
                        &&& final(self).cursor_y_view() == cy
                        &&& final(self).row_height_view() == (if rh >= h { rh } else { h })
                        &&& final(self).placements() == old(self).placements().push((cx, cy, w, h))
                        &&& final(self).pixels_view().len() == old(self).pixels_view().len()
                        &&& forall|x: int, y: int|
                            0 <= x < width && 0 <= y < height ==> #[trigger] final(self).pixel_at(x, y)
                                == if cx <= x < cx + w && cy <= y < cy + h {
                                glyph_pixels@[(y - cy) * w + (x - cx)]
                            } else {
                                old(self).pixel_at(x, y)
                            }
                        &&& forall|i: int, x: int, y: int|
                            0 <= i < old(self).placements().len() && #[trigger] placement_covers(
                                old(self).placements()[i],
                                x,
                                y,
                            ) ==> final(self).pixel_at(x, y) == old(self).pixel_at(x, y)
                    }
                }
            }),
    {
        if glyph_width == 0 || glyph_height == 0 {
            return None;
        }
        let padded_width = glyph_width + TEXT_ATLAS_PADDING;
        let padded_height = glyph_height + TEXT_ATLAS_PADDING;
        if padded_width >= self.width || padded_height >= self.height {
            return None;
        }
        proof {
            assert(self.width >= 3 && self.height >= 3);
            assert(self.width * 3 <= self.width * self.height) by (nonlinear_arith)
                requires
                    self.height >= 3,
            ;
        }
        let ghost old_placed = self.placed@;
        if self.cursor_x + padded_width >= self.width {
            let ghost cy_before = self.cursor_y as int;
            let ghost rh_before = self.row_height as int;
            self.cursor_x = TEXT_ATLAS_PADDING;
            self.cursor_y = self.cursor_y + self.row_height + TEXT_ATLAS_PADDING;
            self.row_height = 0;
            assert forall|i: int| 0 <= i < self.placed@.len() implies {
                let p = #[trigger] self.placed@[i];
                p.1 + p.3 + 1 <= self.cursor_y
            } by {
                let p = self.placed@[i];
                assert(p.1 + p.3 + 1 <= cy_before || (p.1 == cy_before && p.3 <= rh_before));
            }
        }
        if self.cursor_y + padded_height >= self.height {
            return None;
        }
        let atlas_x = self.cursor_x;
        let atlas_y = self.cursor_y;
        let ghost before_blit = *self;
        assert(before_blit.pixels@ == old(self).pixels@);
        self.blit(atlas_x, atlas_y, glyph_width, glyph_height, glyph_pixels);
        let ghost after_blit = *self;
        let ghost new_p: Placement = (atlas_x as int, atlas_y as int, glyph_width as int, glyph_height as int);
        let ghost cx_before = self.cursor_x as int;
        let ghost rh_before = self.row_height as int;
        self.cursor_x = self.cursor_x + padded_width;
        if glyph_height > self.row_height {
            self.row_height = glyph_height;
        }
        proof {
            let old_seq = self.placed@;
            self.placed = Ghost(old_seq.push(new_p));
            assert forall|i: int, j: int| 0 <= i < j < self.placed@.len() implies placements_disjoint(
                #[trigger] self.placed@[i],
                #[trigger] self.placed@[j],
            ) by {
                if j == old_seq.len() {
                    let p = old_seq[i];
                    assert(self.placed@[i] == p);
                    assert(p.1 + p.3 + 1 <= atlas_y || (p.1 == atlas_y && p.0 + p.2 + 1 <= cx_before));
                } else {
                    assert(self.placed@[i] == old_seq[i] && self.placed@[j] == old_seq[j]);
                }
            }
            assert forall|i: int| 0 <= i < self.placed@.len() implies {
                let p = #[trigger] self.placed@[i];
                &&& 0 <= p.0 && 0 <= p.1 && 0 < p.2 && 0 < p.3
                &&& p.0 + p.2 < self.width
                &&& p.1 + p.3 < self.height
                &&& (p.1 + p.3 + 1 <= self.cursor_y || (p.1 == self.cursor_y && p.0 + p.2 + 1
                    <= self.cursor_x && p.3 <= self.row_height))
            } by {
                if i < old_seq.len() {
                    assert(self.placed@[i] == old_seq[i]);
                }
            }
            assert forall|x: int, y: int|
                0 <= x < self.width && 0 <= y < self.height implies #[trigger] self.pixel_at(x, y)
                    == if atlas_x <= x < atlas_x + glyph_width && atlas_y <= y < atlas_y + glyph_height {
                    glyph_pixels@[(y - atlas_y) * glyph_width + (x - atlas_x)]
                } else {
                    old(self).pixel_at(x, y)
                } by {
                assert(self.pixel_at(x, y) == after_blit.pixel_at(x, y));
                assert(before_blit.pixel_at(x, y) == old(self).pixel_at(x, y));
            }
            assert forall|i: int, x: int, y: int|
                0 <= i < old_seq.len() && #[trigger] placement_covers(old_seq[i], x, y) implies self.pixel_at(x, y)
                    == old(self).pixel_at(x, y) by {
                assert(self.placed@[i] == old_seq[i]);
                assert(self.placed@[old_seq.len() as int] == new_p);
                assert(placements_disjoint(self.placed@[i], self.placed@[old_seq.len() as int]));
                assert(self.pixel_at(x, y) == if atlas_x <= x < atlas_x + glyph_width && atlas_y <= y < atlas_y
                    + glyph_height {
                    glyph_pixels@[(y - atlas_y) * glyph_width + (x - atlas_x)]
                } else {
                    old(self).pixel_at(x, y)
                });
            }
        }
        Some((atlas_x, atlas_y))
    }

    /// Copies a glyph into the atlas with its top-left corner at (`x`, `y`).
    fn blit(&mut self, x: u32, y: u32, w: u32, h: u32, glyph: &[u8])
        requires
            old(self).pixels@.len() == old(self).width * old(self).height,
            old(self).width * old(self).height <= u32::MAX,
            glyph@.len() == w * h,
            x + w < old(self).width,
            y + h < old(self).height,
        ensures
            final(self).width == old(self).width,
            final(self).height == old(self).height,
            final(self).cursor_x == old(self).cursor_x,
            final(self).cursor_y == old(self).cursor_y,
            final(self).row_height == old(self).row_height,
            final(self).placed == old(self).placed,
            final(self).pixels@.len() == old(self).pixels@.len(),
            forall|px: int, py: int|
                0 <= px < old(self).width && 0 <= py < old(self).height ==> #[trigger] final(self).pixel_at(px, py)
                    == if x <= px < x + w && y <= py < y + h {
                    glyph@[(py - y) * w + (px - x)]
                } else {
                    old(self).pixel_at(px, py)
                },
    {
        let ghost before = *self;
        let width = self.width;
        assert(w * h <= before.width * before.height) by (nonlinear_arith)
            requires
                w < before.width,
                h < before.height,
        ;
        let mut row: u32 = 0;
        while row < h
            invariant
                row <= h,
                width == self.width,
                self.width == before.width,
                self.height == before.height,
                self.cursor_x == before.cursor_x,
                self.cursor_y == before.cursor_y,
                self.row_height == before.row_height,
                self.placed == before.placed,
                self.pixels@.len() == before.pixels@.len(),
                before.pixels@.len() == before.width * before.height,
                before.width * before.height <= u32::MAX,
                glyph@.len() == w * h,
                w * h <= before.width * before.height,
                x + w < width,
                y + h < before.height,
                forall|px: int, py: int|
                    0 <= px < width && 0 <= py < before.height ==> #[trigger] self.pixel_at(px, py) == if x
                        <= px < x + w && y <= py < y + row {
                        glyph@[(py - y) * w + (px - x)]
                    } else {
                        before.pixel_at(px, py)
                    },
            decreases h - row,
        {
            let mut col: u32 = 0;
            while col < w
                invariant
                    row < h,
                    col <= w,
                    width == self.width,
                    self.width == before.width,
                    self.height == before.height,
                    self.cursor_x == before.cursor_x,
                    self.cursor_y == before.cursor_y,
                    self.row_height == before.row_height,
                    self.placed == before.placed,
                    self.pixels@.len() == before.pixels@.len(),
                    before.pixels@.len() == before.width * before.height,
                    before.width * before.height <= u32::MAX,
                    glyph@.len() == w * h,
                    w * h <= before.width * before.height,
                    x + w < width,
                    y + h < before.height,
                    forall|px: int, py: int|
                        0 <= px < width && 0 <= py < before.height ==> #[trigger] self.pixel_at(px, py)
                            == if x <= px < x + w && (y <= py < y + row || py == y + row && px < x + col) {
                            glyph@[(py - y) * w + (px - x)]
                        } else {
                            before.pixel_at(px, py)
                        },
                decreases w - col,
            {
                proof {
                    lemma_index_in_grid((y + row) as int, (x + col) as int, width as int, before.height as int);
                    lemma_index_in_grid(row as int, col as int, w as int, h as int);
                    assert(w * h <= before.width * before.height);
                }
                let dst = ((y + row) * width + x + col) as usize;
                let src = (row * w + col) as usize;
                let value = glyph[src];
                let ghost prev = *self;
                self.pixels.set(dst, value);
                proof {
                    assert forall|px: int, py: int|
                        0 <= px < width && 0 <= py < before.height implies #[trigger] self.pixel_at(px, py)
                            == if x <= px < x + w && (y <= py < y + row || py == y + row && px < x + col + 1) {
                            glyph@[(py - y) * w + (px - x)]
                        } else {
                            before.pixel_at(px, py)
                        } by {
                        lemma_index_in_grid(py, px, width as int, before.height as int);
                        if py * width + px == dst {
                            lemma_grid_index_injective(py, px, (y + row) as int, (x + col) as int, width as int);
                        } else {
                            assert(self.pixel_at(px, py) == prev.pixel_at(px, py));
                        }
                    }
                }
                col = col + 1;
            }
            row = row + 1;
        }
    }
}

proof fn lemma_index_in_grid(r: int, c: int, width: int, height: int)
    requires
        0 <= r < height,
        0 <= c < width,
    ensures
        0 <= r * width + c < width * height,
        r * width + c + 1 <= width * height,
{
    assert(r * width + c < width * height) by (nonlinear_arith)
        requires
            0 <= r < height,
            0 <= c < width,
    ;
    assert(0 <= r * width) by (nonlinear_arith)
        requires
            0 <= r,
            0 <= width,
    ;
}

proof fn lemma_grid_index_injective(r1: int, c1: int, r2: int, c2: int, width: int)
    requires
        0 <= c1 < width,
        0 <= c2 < width,
        0 <= r1,
        0 <= r2,
        r1 * width + c1 == r2 * width + c2,
    ensures
        r1 == r2,
        c1 == c2,
{
    if r1 < r2 {
        assert(r1 * width + width <= r2 * width) by (nonlinear_arith)
            requires
                r1 < r2,
                width > 0,
        ;
    } else if r2 < r1 {
        assert(r2 * width + width <= r1 * width) by (nonlinear_arith)
            requires
                r2 < r1,
                width > 0,
        ;
    }
}

/// Any two glyphs placed in a well-formed atlas occupy disjoint rectangles,
/// and each lies inside the atlas.
pub proof fn lemma_atlas_placements_disjoint(atlas: &GlyphAtlas, i: int, j: int)
    requires
        atlas.wf(),
        0 <= i < atlas.placements().len(),
        0 <= j < atlas.placements().len(),
        i != j,
    ensures
        placements_disjoint(atlas.placements()[i], atlas.placements()[j]),
        atlas.placements()[i].0 + atlas.placements()[i].2 < atlas.width_view(),
        atlas.placements()[i].1 + atlas.placements()[i].3 < atlas.height_view(),
{
    let p = atlas.placed@[i];
    if i < j {
        assert(placements_disjoint(atlas.placed@[i], atlas.placed@[j]));
    } else {
        assert(placements_disjoint(atlas.placed@[j], atlas.placed@[i]));
    }
}

} // verus!
