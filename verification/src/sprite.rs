//! Native sprite assets: RGBA sprite images built from raw bytes, solid colours or
//! ASCII art with a palette, and a registry that versions each sprite.

use vstd::prelude::*;
use crate::assoc::{assoc_map, keys_unique, lemma_assoc_dom, lemma_assoc_index, lemma_assoc_update, lemma_push_fresh_unique, lemma_assoc_len};

verus! {

/// Identifier of a registered sprite.
#[derive(Clone, Debug)]
pub struct SpriteId(String);

impl View for SpriteId {
    type V = Seq<char>;

    closed spec fn view(&self) -> Seq<char> {
        self.0@
    }
}

impl SpriteId {
    /// Creates an id with the given text.
    pub fn new(id: &str) -> (r: Self)
        ensures
            r@ == id@,
    {
        SpriteId(id.to_string())
    }

    /// The id's text.
    pub fn as_str(&self) -> (r: &str)
        ensures
            r@ == self@,
    {
        self.0.as_str()
    }

    /// A copy of this id.
    pub fn duplicate(&self) -> (r: Self)
        ensures
            r@ == self@,
    {
        SpriteId(self.0.clone())
    }

    /// Whether two ids have the same text.
    pub fn same_as(&self, other: &SpriteId) -> (r: bool)
        ensures
            r == (self@ == other@),
    {
        self.0 == other.0
    }
}

/// Why a sprite image could not be built.
#[derive(Clone, Copy, Debug, PartialEq, Eq, Structural)]
pub enum SpriteImageError {
    InvalidDimensions { width: u32, height: u32 },
    InvalidRgbaLength { expected: usize, actual: usize },
    EmptyRows,
    RaggedRows,
    UnknownPaletteChar { ch: char },
}

/// An RGBA sprite image: `width * height` pixels of four bytes each.
#[derive(Debug)]
pub struct SpriteImage {
    width: u32,
    height: u32,
    rgba: Vec<u8>,
}

impl View for SpriteImage {
    type V = (u32, u32, Seq<u8>);

    closed spec fn view(&self) -> (u32, u32, Seq<u8>) {
        (self.width, self.height, self.rgba@)
    }
}

/// The image described by dimensions and RGBA bytes, or the reason it is invalid.
pub open spec fn image_from_rgba(width: u32, height: u32, rgba: Seq<u8>) -> Result<(u32, u32, Seq<u8>), SpriteImageError> {
    if width == 0 || height == 0 {
        Err(SpriteImageError::InvalidDimensions { width, height })
    } else if rgba.len() != width * height * 4 {
        Err(SpriteImageError::InvalidRgbaLength {
            expected: (width * height * 4) as usize,
            actual: rgba.len() as usize,
        })
    } else {
        Ok((width, height, rgba))
    }
}

/// A result carrying an image, read through the image's view.
pub open spec fn image_result_view(r: Result<SpriteImage, SpriteImageError>) -> Result<(u32, u32, Seq<u8>), SpriteImageError> {
    match r {
        Ok(image) => Ok(image@),
        Err(e) => Err(e),
    }
}

/// `count` copies of a four-byte colour.
pub open spec fn repeat_color(color: Seq<u8>, count: int) -> Seq<u8> {
    Seq::new((4 * count) as nat, |i: int| color[i % 4])
}

/// `a * b`, capped at `u32::MAX`.
pub open spec fn saturating_mul_u32(a: u32, b: u32) -> int {
    if a * b > u32::MAX {
        u32::MAX as int
    } else {
        a * b
    }
}

/// The colour that the palette gives a character: the last entry for it wins.
pub open spec fn palette_lookup(palette: Seq<(char, [u8; 4])>, ch: char) -> Option<[u8; 4]>
    decreases palette.len(),
{
    if palette.len() == 0 {
        None
    } else if palette.last().0 == ch {
        Some(palette.last().1)
    } else {
        palette_lookup(palette.drop_last(), ch)
    }
}

/// The characters of the rows, row after row.
pub open spec fn rows_chars(rows: Seq<Seq<char>>) -> Seq<char>
    decreases rows.len(),
{
    if rows.len() == 0 {
        Seq::empty()
    } else {
        rows_chars(rows.drop_last()) + rows.last()
    }
}

/// The first character (in order) that the palette does not map.
pub open spec fn first_unknown(chars: Seq<char>, palette: Seq<(char, [u8; 4])>) -> Option<char>
    decreases chars.len(),
{
    if chars.len() == 0 {
        None
    } else {
        match first_unknown(chars.drop_last(), palette) {
            Some(c) => Some(c),
            None => if palette_lookup(palette, chars.last()) is None {
                Some(chars.last())
            } else {
                None
            },
        }
    }
}

/// The RGBA bytes of the characters' palette colours, in order (unmapped characters add nothing).
pub open spec fn palette_colors(chars: Seq<char>, palette: Seq<(char, [u8; 4])>) -> Seq<u8>
    decreases chars.len(),
{
    if chars.len() == 0 {
        Seq::empty()
    } else {
        match palette_lookup(palette, chars.last()) {
            Some(c) => palette_colors(chars.drop_last(), palette) + c@,
            None => palette_colors(chars.drop_last(), palette),
        }
    }
}

/// Some row differs in length from the first.
pub open spec fn rows_ragged(rows: Seq<Seq<char>>) -> bool {
    exists|i: int| 0 <= i < rows.len() && #[trigger] rows[i].len() != rows[0].len()
}

/// The image that ASCII rows and a palette describe, or the reason they do not describe one.
pub open spec fn image_from_ascii(rows: Seq<Seq<char>>, palette: Seq<(char, [u8; 4])>) -> Result<(u32, u32, Seq<u8>), SpriteImageError> {
    if rows.len() == 0 {
        Err(SpriteImageError::EmptyRows)
    } else if rows[0].len() == 0 {
        Err(SpriteImageError::InvalidDimensions { width: 0, height: rows.len() as u32 })
    } else if rows_ragged(rows) {
        Err(SpriteImageError::RaggedRows)
    } else {
        match first_unknown(rows_chars(rows), palette) {
            Some(ch) => Err(SpriteImageError::UnknownPaletteChar { ch }),
            None => image_from_rgba(
                rows[0].len() as u32,
                rows.len() as u32,
                palette_colors(rows_chars(rows), palette),
            ),
        }
    }
}

/// Byte `k` of the pixel at column `x`, row `y` of RGBA data `width` pixels wide.
pub open spec fn pixel_channel(rgba: Seq<u8>, width: int, x: int, y: int, k: int) -> u8 {
    rgba[4 * (y * width + x) + k]
}

proof fn lemma_rows_chars_index(rows: Seq<Seq<char>>, w: int)
    requires
        w >= 0,
        forall|i: int| 0 <= i < rows.len() ==> #[trigger] rows[i].len() == w,
    ensures
        rows_chars(rows).len() == rows.len() * w,
        forall|y: int, x: int| 0 <= y < rows.len() && 0 <= x < w ==> rows_chars(rows)[y * w + x] == #[trigger] rows[y][x],
    decreases rows.len(),
{
    if rows.len() > 0 {
        let n = rows.len() as int;
        let init = rows.drop_last();
        assert forall|i: int| 0 <= i < init.len() implies #[trigger] init[i].len() == w by {
            assert(init[i] == rows[i]);
        }
        lemma_rows_chars_index(init, w);
        assert(rows_chars(rows) == rows_chars(init) + rows.last());
        assert((n - 1) * w + w == n * w) by (nonlinear_arith);
        assert forall|y: int, x: int| 0 <= y < rows.len() && 0 <= x < w implies rows_chars(rows)[y * w + x] == #[trigger] rows[y][x] by {
            if y < n - 1 {
                assert(y * w + x < (n - 1) * w) by (nonlinear_arith)
                    requires
                        0 <= y < n - 1,
                        0 <= x < w,
                ;
                assert(init[y] == rows[y]);
                assert(0 <= y * w + x) by (nonlinear_arith)
                    requires
                        0 <= y,
                        0 <= x,
                        w >= 0,
                ;
            } else {
                assert(y * w == (n - 1) * w);
            }
        }
    }
}

/// Byte `k` of colour `i` in a sequence of four-byte colours.
pub open spec fn color_byte(colors: Seq<u8>, i: int, k: int) -> u8 {
    colors[4 * i + k]
}

proof fn lemma_palette_colors_index(chars: Seq<char>, palette: Seq<(char, [u8; 4])>)
    requires
        first_unknown(chars, palette) is None,
    ensures
        palette_colors(chars, palette).len() == 4 * chars.len(),
        forall|i: int| 0 <= i < chars.len() ==> (#[trigger] palette_lookup(palette, chars[i])) is Some,
        forall|i: int, k: int|
            0 <= i < chars.len() && 0 <= k < 4 ==> #[trigger] color_byte(palette_colors(chars, palette), i, k)
                == palette_lookup(palette, chars[i])->0[k],
    decreases chars.len(),
{
    if chars.len() > 0 {
        let init = chars.drop_last();
        lemma_palette_colors_index(init, palette);
        let c = palette_lookup(palette, chars.last())->0;
        assert(palette_colors(chars, palette) == palette_colors(init, palette) + c@);
        assert forall|i: int| 0 <= i < chars.len() implies (#[trigger] palette_lookup(palette, chars[i])) is Some by {
            if i < chars.len() - 1 {
                assert(chars[i] == init[i]);
            }
        }
        assert forall|i: int, k: int|
            0 <= i < chars.len() && 0 <= k < 4 implies #[trigger] color_byte(palette_colors(chars, palette), i, k)
                == palette_lookup(palette, chars[i])->0[k] by {
            if i < chars.len() - 1 {
                assert(chars[i] == init[i]);
                assert(color_byte(palette_colors(init, palette), i, k) == palette_lookup(palette, init[i])->0[k]);
            }
        }
    }
}

/// An ASCII sprite is laid out as drawn: when the rows describe an image, its
/// width is the number of characters per row, its height the number of rows,
/// and the pixel at column `x` of row `y` has the palette colour of character
/// `x` of row `y`.
pub proof fn lemma_ascii_image_layout(rows: Seq<Seq<char>>, palette: Seq<(char, [u8; 4])>)
    ensures
        image_from_ascii(rows, palette) matches Ok(img) ==> {
            &&& img.0 == rows[0].len()
            &&& img.1 == rows.len()
            &&& forall|x: int, y: int, k: int|
                0 <= x < img.0 && 0 <= y < img.1 && 0 <= k < 4 ==> #[trigger] pixel_channel(img.2, img.0 as int, x, y, k)
                    == palette_lookup(palette, rows[y][x])->0[k]
        },
{
    if image_from_ascii(rows, palette) is Ok {
        let w = rows[0].len() as int;
        let h = rows.len() as int;
        let chars = rows_chars(rows);
        assert forall|i: int| 0 <= i < rows.len() implies #[trigger] rows[i].len() == w by {
            if rows[i].len() != w {
                assert(rows_ragged(rows));
            }
        }
        lemma_rows_chars_index(rows, w);
        lemma_palette_colors_index(chars, palette);
        let rgba = palette_colors(chars, palette);
        let w32 = rows[0].len() as u32;
        let h32 = rows.len() as u32;
        assert(rgba.len() == 4 * (h * w));
        assert(rgba.len() == w32 * h32 * 4);
        assert(w32 <= w) by {
            if w > u32::MAX {
            }
        }
        assert(h32 <= h) by {
            if h > u32::MAX {
            }
        }
        assert(w32 == w && h32 == h) by (nonlinear_arith)
            requires
                1 <= w32 <= w,
                1 <= h32 <= h,
                w32 * h32 == h * w,
        ;
        assert forall|x: int, y: int, k: int| 0 <= x < w && 0 <= y < h && 0 <= k < 4 implies #[trigger] pixel_channel(rgba, w, x, y, k)
            == palette_lookup(palette, rows[y][x])->0[k] by {
            let i = y * w + x;
            assert(0 <= i < h * w) by (nonlinear_arith)
                requires
                    i == y * w + x,
                    0 <= x < w,
                    0 <= y < h,
            ;
            assert(chars[i] == rows[y][x]);
            assert(color_byte(rgba, i, k) == palette_lookup(palette, chars[i])->0[k]);
        }
    }
}

/// The size computation of an ASCII sprite stays within `usize`.
pub open spec fn ascii_fits(rows: Seq<Seq<char>>) -> bool {
    rows.len() == 0 || rows[0].len() == 0 || rows_ragged(rows) || rows[0].len() * rows.len() * 4
        <= usize::MAX
}

/// The rows' texts.
pub open spec fn row_views(rows: Seq<&str>) -> Seq<Seq<char>> {
    rows.map_values(|r: &str| r@)
}

proof fn lemma_mul_mono(a: int, b: int, c: int, d: int)
    requires
        0 <= a <= c,
        0 <= b <= d,
    ensures
        a * b * 4 <= c * d * 4,
{
    assert(a * b <= c * d) by (nonlinear_arith)
        requires
            0 <= a <= c,
            0 <= b <= d,
    ;
}

impl SpriteImage {
    #[verifier::type_invariant]
    spec fn inv(self) -> bool {
        &&& self.width > 0
        &&& self.height > 0
        &&& self.rgba@.len() == self.width * self.height * 4
    }

    /// Builds an image from raw RGBA bytes.
    pub fn from_rgba(width: u32, height: u32, rgba: Vec<u8>) -> (r: Result<Self, SpriteImageError>)
        requires
            width * height * 4 <= usize::MAX,
        ensures
            image_result_view(r) == image_from_rgba(width, height, rgba@),
    {
        if width == 0 || height == 0 {
            return Err(SpriteImageError::InvalidDimensions { width, height });
        }
        let expected = width as usize * height as usize * 4;
        if rgba.len() != expected {
            return Err(SpriteImageError::InvalidRgbaLength { expected, actual: rgba.len() });
        }
        Ok(SpriteImage { width, height, rgba })
    }

    /// Builds an image of one colour.
    pub fn solid(width: u32, height: u32, color: [u8; 4]) -> (r: Result<Self, SpriteImageError>)
        requires
            width * height * 4 <= usize::MAX,
        ensures
            image_result_view(r) == image_from_rgba(
                width,
                height,
                repeat_color(color@, saturating_mul_u32(width, height)),
            ),
    {
        let count: u32 = if (width as u64) * (height as u64) > u32::MAX as u64 {
            u32::MAX
        } else {
            width * height
        };
        let mut rgba: Vec<u8> = Vec::new();
        let mut i: u32 = 0;
        while i < count
            invariant
                i <= count,
                rgba@ == repeat_color(color@, i as int),
            decreases count - i,
        {
            let ghost before = rgba@;
            rgba.push(color[0]);
            rgba.push(color[1]);
            rgba.push(color[2]);
            rgba.push(color[3]);
            assert(rgba@ =~= repeat_color(color@, i as int + 1)) by {
                assert forall|j: int| 0 <= j < 4 * (i + 1) implies #[trigger] rgba@[j] == color@[j % 4] by {
                    if j < 4 * i {
                        assert(rgba@[j] == before[j]);
                    }
                }
            }
            i = i + 1;
        }
        Self::from_rgba(width, height, rgba)
    }

    /// Builds an image from equally long rows of characters and a palette that maps
    /// characters to colours (a later palette entry for a character wins).
    pub fn from_ascii(rows: &[&str], palette: &[(char, [u8; 4])]) -> (r: Result<Self, SpriteImageError>)
        requires
            ascii_fits(row_views(rows@)),
        ensures
            image_result_view(r) == image_from_ascii(row_views(rows@), palette@),
    {
        let ghost rs = row_views(rows@);
        if rows.len() == 0 {
            return Err(SpriteImageError::EmptyRows);
        }
        assert(rs.len() == rows@.len());
        assert(rs[0] == rows@[0]@);
        let width = rows[0].unicode_len();
        if width == 0 {
            return Err(SpriteImageError::InvalidDimensions { width: 0, height: rows.len() as u32 });
        }
        let mut i: usize = 0;
        while i < rows.len()
            invariant
                i <= rows@.len(),
                rs == row_views(rows@),
                width == rs[0].len(),
                width > 0,
                forall|j: int| 0 <= j < i ==> #[trigger] rs[j].len() == width,
                rs.len() == rows@.len(),
            decreases rows@.len() - i,
        {
            assert(rs[i as int] == rows@[i as int]@);
            if rows[i].unicode_len() != width {
                assert(rs[i as int].len() != rs[0].len());
                assert(rows_ragged(rs));
                assert(rs[0].len() != 0);
                return Err(SpriteImageError::RaggedRows);
            }
            i = i + 1;
        }
        assert(!rows_ragged(rs));
        let mut rgba: Vec<u8> = Vec::new();
        let mut r: usize = 0;
        while r < rows.len()
            invariant
                r <= rows@.len(),
                rs == row_views(rows@),
                rs.len() == rows@.len(),
                width == rs[0].len(),
                width > 0,
                !rows_ragged(rs),
                forall|j: int| 0 <= j < rs.len() ==> #[trigger] rs[j].len() == width,
                first_unknown(rows_chars(rs.take(r as int)), palette@) is None,
                rgba@ == palette_colors(rows_chars(rs.take(r as int)), palette@),
            decreases rows@.len() - r,
        {
            let row = rows[r];
            assert(rs[r as int] == row@);
            assert(rs.take(r as int + 1).drop_last() =~= rs.take(r as int));
            assert(rs.take(r as int + 1).last() == row@);
            let ghost prefix = rows_chars(rs.take(r as int));
            let mut c: usize = 0;
            while c < width
                invariant
                    c <= width,
                    width == row@.len(),
                    r < rs.len(),
                    rs.len() == rows@.len(),
                    row@ == rs[r as int],
                    rs == row_views(rows@),
                    width > 0,
                    width == rs[0].len(),
                    !rows_ragged(rs),
                    prefix == rows_chars(rs.take(r as int)),
                    first_unknown(prefix + row@.take(c as int), palette@) is None,
                    rgba@ == palette_colors(prefix + row@.take(c as int), palette@),
                decreases width - c,
            {
                let ch = row.get_char(c);
                let ghost s = prefix + row@.take(c as int);
                assert((prefix + row@.take(c as int + 1)).drop_last() =~= s);
                assert((prefix + row@.take(c as int + 1)).last() == ch);
                match lookup_palette(palette, ch) {
                    Some(color) => {
                        rgba.push(color[0]);
                        rgba.push(color[1]);
                        rgba.push(color[2]);
                        rgba.push(color[3]);
                        assert(rgba@ =~= palette_colors(s, palette@) + color@);
                    },
                    None => {
                        assert(first_unknown(prefix + row@.take(c as int + 1), palette@) == Some(ch));
                        assert(prefix + row@.take(c as int + 1) == rows_chars(rs.take(r as int)) + rs[r as int].take(c as int + 1));
                        assert(first_unknown(rows_chars(rs), palette@) == Some(ch)) by {
                            lemma_first_unknown_prefix(
                                rs,
                                r as int,
                                prefix + row@.take(c as int + 1),
                                palette@,
                            );
                        }
                        return Err(SpriteImageError::UnknownPaletteChar { ch });
                    },
                }
                c = c + 1;
            }
            assert(row@.take(width as int) =~= row@);
            r = r + 1;
        }
        assert(rs.take(rs.len() as int) =~= rs);
        let height = rows.len();
        proof {
            lemma_colors_len(rows_chars(rs), palette@);
            lemma_rows_chars_len(rs, width as int);
            lemma_mul_mono(width as u32 as int, height as u32 as int, width as int, height as int);
        }
        Self::from_rgba(width as u32, height as u32, rgba)
    }

    /// Width in pixels.
    pub fn width(&self) -> (r: u32)
        ensures
            r == self@.0,
            r > 0,
    {
        proof {
            use_type_invariant(self);
        }
        self.width
    }

    /// Height in pixels.
    pub fn height(&self) -> (r: u32)
        ensures
            r == self@.1,
            r > 0,
    {
        proof {
            use_type_invariant(self);
        }
        self.height
    }

    /// The RGBA bytes, row by row.
    pub fn rgba(&self) -> (r: &[u8])
        ensures
            r@ == self@.2,
            r@.len() == self@.0 * self@.1 * 4,
    {
        proof {
            use_type_invariant(self);
        }
        self.rgba.as_slice()
    }
}

impl Clone for SpriteImage {
    fn clone(&self) -> (r: Self)
        ensures
            r@ == self@,
    {
        proof {
            use_type_invariant(self);
        }
        let rgba = self.rgba.clone();
        assert(rgba@ =~= self.rgba@);
        SpriteImage { width: self.width, height: self.height, rgba }
    }
}

/// Looks a character up in the palette; a later entry wins.
fn lookup_palette(palette: &[(char, [u8; 4])], ch: char) -> (r: Option<[u8; 4]>)
    ensures
        r == palette_lookup(palette@, ch),
{
    let mut i: usize = palette.len();
    assert(palette@.take(i as int) =~= palette@);
    while i > 0
        invariant
            i <= palette@.len(),
            palette_lookup(palette@, ch) == palette_lookup(palette@.take(i as int), ch),
        decreases i,
    {
        let entry = palette[i - 1];
        assert(palette@.take(i as int).drop_last() =~= palette@.take(i as int - 1));
        if entry.0 == ch {
            return Some(entry.1);
        }
        i = i - 1;
    }
    assert(palette@.take(0) =~= Seq::<(char, [u8; 4])>::empty());
    None
}

proof fn lemma_first_unknown_append(a: Seq<char>, b: Seq<char>, palette: Seq<(char, [u8; 4])>)
    requires
        first_unknown(a, palette) is Some,
    ensures
        first_unknown(a + b, palette) == first_unknown(a, palette),
    decreases b.len(),
{
    if b.len() == 0 {
        assert(a + b =~= a);
    } else {
        lemma_first_unknown_append(a, b.drop_last(), palette);
        assert((a + b).drop_last() =~= a + b.drop_last());
    }
}

proof fn lemma_rows_chars_append(rows: Seq<Seq<char>>, k: int)
    requires
        0 <= k <= rows.len(),
    ensures
        rows_chars(rows) == rows_chars(rows.take(k)) + rows_chars(rows.skip(k)),
    decreases rows.len(),
{
    if k == rows.len() {
        assert(rows.take(k) =~= rows);
        assert(rows.skip(k) =~= Seq::<Seq<char>>::empty());
        assert(rows_chars(rows) + Seq::<char>::empty() =~= rows_chars(rows));
    } else {
        lemma_rows_chars_append(rows.drop_last(), k);
        assert(rows.drop_last().take(k) =~= rows.take(k));
        assert(rows.skip(k).drop_last() =~= rows.drop_last().skip(k));
        assert(rows.skip(k).last() == rows.last());
        assert(rows_chars(rows.take(k)) + rows_chars(rows.skip(k)) =~= rows_chars(rows.take(k))
            + rows_chars(rows.drop_last().skip(k)) + rows.last());
    }
}

proof fn lemma_first_unknown_prefix(rows: Seq<Seq<char>>, r: int, s: Seq<char>, palette: Seq<(char, [u8; 4])>)
    requires
        0 <= r < rows.len(),
        first_unknown(s, palette) is Some,
        exists|c: int| 0 <= c <= rows[r].len() && s == rows_chars(rows.take(r)) + #[trigger] rows[r].take(c),
    ensures
        first_unknown(rows_chars(rows), palette) == first_unknown(s, palette),
{
    let c = choose|c: int| 0 <= c <= rows[r].len() && s == rows_chars(rows.take(r)) + #[trigger] rows[r].take(c);
    lemma_rows_chars_append(rows, r + 1);
    assert(rows.take(r + 1).drop_last() =~= rows.take(r));
    assert(rows.take(r + 1).last() == rows[r]);
    assert(rows_chars(rows.take(r + 1)) =~= s + rows[r].skip(c)) by {
        assert(rows[r] =~= rows[r].take(c) + rows[r].skip(c));
    }
    lemma_first_unknown_append(s, rows[r].skip(c), palette);
    lemma_first_unknown_append(rows_chars(rows.take(r + 1)), rows_chars(rows.skip(r + 1)), palette);
}

proof fn lemma_colors_len(chars: Seq<char>, palette: Seq<(char, [u8; 4])>)
    requires
        first_unknown(chars, palette) is None,
    ensures
        palette_colors(chars, palette).len() == 4 * chars.len(),
    decreases chars.len(),
{
    if chars.len() > 0 {
        lemma_colors_len(chars.drop_last(), palette);
    }
}

proof fn lemma_rows_chars_len(rows: Seq<Seq<char>>, w: int)
    requires
        forall|j: int| 0 <= j < rows.len() ==> #[trigger] rows[j].len() == w,
    ensures
        rows_chars(rows).len() == rows.len() * w,
    decreases rows.len(),
{
    if rows.len() > 0 {
        lemma_rows_chars_len(rows.drop_last(), w);
        assert(rows.len() * w == (rows.len() - 1) * w + w) by (nonlinear_arith);
    }
}

/// A registered sprite image and its revision, which increases on every replacement.
#[derive(Clone, Debug)]
pub struct SpriteAsset {
    pub image: SpriteImage,
    pub revision: u64,
}

/// Registry of sprite images by id.
pub struct SpriteAssets {
    sprites: Vec<(SpriteId, SpriteAsset)>,
}

/// The registry entries keyed by id text.
pub open spec fn sprite_entries(v: Seq<(SpriteId, SpriteAsset)>) -> Seq<(Seq<char>, SpriteAsset)> {
    v.map_values(|e: (SpriteId, SpriteAsset)| (e.0@, e.1))
}

/// The revision a sprite gets when registered into `m`: one for a new id,
/// one more than the current revision (saturating) for a known id.
pub open spec fn next_revision(m: Map<Seq<char>, SpriteAsset>, id: Seq<char>) -> u64 {
    if m.dom().contains(id) {
        if m[id].revision == u64::MAX {
            u64::MAX
        } else {
            (m[id].revision + 1) as u64
        }
    } else {
        1
    }
}

/// Registering an id again raises its revision: a new id starts at revision
/// one, and each replacement gets one more than the revision it replaces
/// (staying at the maximum once there).
pub proof fn lemma_replace_raises_revision(
    m: Map<Seq<char>, SpriteAsset>,
    id: Seq<char>,
    first: SpriteImage,
)
    ensures
        !m.dom().contains(id) ==> next_revision(m, id) == 1,
        ({
            let registered = m.insert(id, SpriteAsset { image: first, revision: next_revision(m, id) });
            &&& next_revision(m, id) < u64::MAX ==> next_revision(registered, id) == next_revision(m, id) + 1
            &&& next_revision(registered, id) >= next_revision(m, id)
        }),
{
}

impl View for SpriteAssets {
    type V = Map<Seq<char>, SpriteAsset>;

    closed spec fn view(&self) -> Map<Seq<char>, SpriteAsset> {
        assoc_map(sprite_entries(self.sprites@))
    }
}

impl SpriteAssets {
    #[verifier::type_invariant]
    spec fn inv(self) -> bool {
        keys_unique(sprite_entries(self.sprites@))
    }

    /// An empty registry.
    pub fn new() -> (r: Self)
        ensures
            r@ == Map::<Seq<char>, SpriteAsset>::empty(),
            r@.dom().finite(),
    {
        let r = SpriteAssets { sprites: Vec::new() };
        assert(sprite_entries(r.sprites@) =~= Seq::empty());
        r
    }

    fn find(&self, id: &SpriteId) -> (r: Option<usize>)
        ensures
            match r {
                Some(i) => i < self.sprites@.len() && self.sprites@[i as int].0@ == id@,
                None => forall|i: int| 0 <= i < self.sprites@.len() ==> #[trigger] self.sprites@[i].0@ != id@,
            },
    {
        let mut i: usize = 0;
        while i < self.sprites.len()
            invariant
                i <= self.sprites@.len(),
                forall|j: int| 0 <= j < i ==> #[trigger] self.sprites@[j].0@ != id@,
            decreases self.sprites@.len() - i,
        {
            if self.sprites[i].0.same_as(id) {
                return Some(i);
            }
            i = i + 1;
        }
        None
    }

    /// Registers (or replaces) the image for `id` and returns the id. A new id gets
    /// revision 1; a replaced one gets its previous revision plus one (saturating).
    pub fn register(&mut self, id: SpriteId, image: SpriteImage) -> (r: SpriteId)
        ensures
            r@ == id@,
            final(self)@ == old(self)@.insert(
                id@,
                SpriteAsset { image, revision: next_revision(old(self)@, id@) },
            ),
            final(self)@.dom().finite(),
            final(self)@.dom().len() == old(self)@.dom().len() + (if old(self)@.dom().contains(id@) {
                0int
            } else {
                1int
            }),
    {
        proof {
            use_type_invariant(&*self);
            lemma_assoc_len(sprite_entries(self.sprites@));
        }
        let ghost entries = sprite_entries(self.sprites@);
        match self.find(&id) {
            Some(i) => {
                let revision = self.sprites[i].1.revision.saturating_add(1);
                proof {
                    assert(entries[i as int].0 == id@);
                    lemma_assoc_index(entries, i as int);
                }
                let asset = SpriteAsset { image, revision };
                let stored = id.duplicate();
                let ghost new_entry = (stored, asset);
                proof {
                    lemma_assoc_update(entries, i as int, asset);
                    assert(sprite_entries(self.sprites@.update(i as int, new_entry)) =~= entries.update(
                        i as int,
                        (entries[i as int].0, asset),
                    ));
                }
                let mut sprites: Vec<(SpriteId, SpriteAsset)> = Vec::new();
                std::mem::swap(&mut sprites, &mut self.sprites);
                sprites.set(i, (stored, asset));
                self.sprites = sprites;
            },
            None => {
                let asset = SpriteAsset { image, revision: 1 };
                let stored = id.duplicate();
                proof {
                    lemma_assoc_dom(entries, id@);
                    assert forall|j: int| 0 <= j < entries.len() implies #[trigger] entries[j].0 != id@ by {
                        assert(self.sprites@[j].0@ != id@);
                    }
                    lemma_push_fresh_unique(entries, (id@, asset));
                    assert(sprite_entries(self.sprites@.push((stored, asset))) =~= entries.push((id@, asset)));
                }
                let mut sprites: Vec<(SpriteId, SpriteAsset)> = Vec::new();
                std::mem::swap(&mut sprites, &mut self.sprites);
                sprites.push((stored, asset));
                self.sprites = sprites;
            },
        }
        id
    }

    /// The asset registered for `id`, if any.
    pub fn get(&self, id: &SpriteId) -> (r: Option<&SpriteAsset>)
        ensures
            match r {
                Some(a) => self@.dom().contains(id@) && *a == self@[id@],
                None => !self@.dom().contains(id@),
            },
    {
        proof {
            use_type_invariant(self);
            lemma_assoc_dom(sprite_entries(self.sprites@), id@);
        }
        match self.find(id) {
            Some(i) => {
                proof {
                    lemma_assoc_index(sprite_entries(self.sprites@), i as int);
                }
                Some(&self.sprites[i].1)
            },
            None => {
                proof {
                    assert forall|j: int| 0 <= j < self.sprites@.len() implies #[trigger] sprite_entries(self.sprites@)[j].0 != id@ by {
                        assert(self.sprites@[j].0@ != id@);
                    }
                }
                None
            },
        }
    }

    /// Whether an image is registered for `id`.
    pub fn contains(&self, id: &SpriteId) -> (r: bool)
        ensures
            r == self@.dom().contains(id@),
    {
        match self.get(id) {
            Some(_) => true,
            None => false,
        }
    }

    /// Number of registered sprites.
    pub fn len(&self) -> (r: usize)
        ensures
            self@.dom().finite(),
            r == self@.dom().len(),
    {
        proof {
            use_type_invariant(self);
            lemma_assoc_len(sprite_entries(self.sprites@));
        }
        self.sprites.len()
    }

    /// Whether no sprite is registered.
    pub fn is_empty(&self) -> (r: bool)
        ensures
            r == (self@.dom().len() == 0),
    {
        self.len() == 0
    }
}

impl Default for SpriteAssets {
    fn default() -> (r: Self)
        ensures
            r@ == Map::<Seq<char>, SpriteAsset>::empty(),
    {
        Self::new()
    }
}

/// How a sprite billboard is oriented.
#[derive(Clone, Copy, Debug, PartialEq, Eq, Structural)]
pub enum SpriteFacing {
    /// Rotate around Y so upright sprites face the active camera.
    YBillboard,
    /// Fully face the active camera, including pitch.
    Camera,
    /// Use the entity transform rotation.
    Fixed,
}

impl Default for SpriteFacing {
    fn default() -> (r: Self)
        ensures
            r == SpriteFacing::YBillboard,
    {
        SpriteFacing::YBillboard
    }
}

/// How a sprite is depth-tested.
#[derive(Clone, Copy, Debug, PartialEq, Eq, Structural)]
pub enum SpriteDepthMode {
    /// Test against scene depth for actors and world props.
    World,
    /// Draw over the scene using clip-space transform position/size.
    Overlay,
}

impl Default for SpriteDepthMode {
    fn default() -> (r: Self)
        ensures
            r == SpriteDepthMode::World,
    {
        SpriteDepthMode::World
    }
}

} // verus!
