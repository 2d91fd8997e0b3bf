//! A font resolved to one pixel size: metrics, glyph access and shaping.

use crate::font::{lemma_glyph_index_mapped, BitmapFont, BitmapGlyph, BitmapGlyphs};
use crate::text::{
    byte_offset, char_width, lemma_byte_offset_grows, lemma_byte_offset_is_boundary,
    lemma_byte_offset_step,
};
use vstd::prelude::*;
use vstd::std_specs::iter::IteratorSpec;
use vstd::string::StringSliceAdditionalSpecFns;
use vstd::utf8::{encode_utf8, is_char_boundary};

verus! {

/// A glyph of a resolved font: a read-only view of its record.
#[derive(Clone, Copy, Debug)]
pub struct Glyph<'a>(pub &'a BitmapGlyph);

impl<'a> Glyph<'a> {
    /// Horizontal placement of the bitmap relative to the pen.
    pub fn x(&self) -> (r: i16)
        ensures
            r == self.0.x,
    {
        self.0.x
    }

    /// Vertical placement of the bitmap relative to the pen.
    pub fn y(&self) -> (r: i16)
        ensures
            r == self.0.y,
    {
        self.0.y
    }

    /// Width of the bitmap in pixels.
    pub fn width(&self) -> (r: i16)
        ensures
            r == self.0.width,
    {
        self.0.width
    }

    /// Height of the bitmap in pixels.
    pub fn height(&self) -> (r: i16)
        ensures
            r == self.0.height,
    {
        self.0.height
    }

    /// Width and height of the bitmap in pixels.
    pub fn size(&self) -> (r: (i16, i16))
        ensures
            r == (self.0.width, self.0.height),
    {
        (self.width(), self.height())
    }

    /// How far the pen moves after this glyph.
    pub fn x_advance(&self) -> (r: i16)
        ensures
            r == self.0.x_advance,
    {
        self.0.x_advance
    }

    /// The packed bitmap, borrowed from the font's tables.
    pub fn data(&self) -> (r: &'a [u8])
        ensures
            r@ == self.0.data@,
    {
        self.0.data.as_slice()
    }
}

/// One record of a shaped run: the metrics of the glyph that stands for a
/// character, and the byte offset of that character in the text.
#[derive(Clone, Copy, Debug, PartialEq, Eq)]
pub struct ShapedGlyph {
    pub width: i16,
    pub height: i16,
    pub advance_x: i16,
    pub glyph_id: Option<u16>,
    pub glyph_cluster_index: usize,
}

/// What a list of positioned glyphs holds: each pen position with the
/// record of its glyph.
pub open spec fn positions_of(glyphs: Seq<(i128, Glyph<'_>)>) -> Seq<(int, BitmapGlyph)> {
    Seq::new(glyphs.len(), |k: int| (glyphs[k].0 as int, *glyphs[k].1.0))
}

/// Quotient of `a` by a positive `b`, rounded toward zero.
pub open spec fn trunc_div(a: int, b: int) -> int {
    if a >= 0 {
        a / b
    } else {
        -((-a) / b)
    }
}

/// A length of `units` design units in pixels, for a font of `per_em`
/// units to the em drawn at `pixel_size` pixels to the em.
pub open spec fn scaled(pixel_size: int, units: int, per_em: int) -> int {
    trunc_div(pixel_size * units, per_em)
}

/// Rounding toward zero keeps the order of the numerators.
pub proof fn lemma_trunc_div_ordered(a: int, b: int, d: int)
    requires
        a <= b,
        d > 0,
    ensures
        trunc_div(a, d) <= trunc_div(b, d),
{
    if a >= 0 {
        vstd::arithmetic::div_mod::lemma_div_is_ordered(a, b, d);
    } else if b < 0 {
        vstd::arithmetic::div_mod::lemma_div_is_ordered(-b, -a, d);
    } else {
        vstd::arithmetic::div_mod::lemma_div_pos_is_pos(-a, d);
        vstd::arithmetic::div_mod::lemma_div_pos_is_pos(b, d);
    }
}

/// Rounding toward zero never moves a quotient away from zero.
pub proof fn lemma_trunc_div_bounds(a: int, d: int)
    requires
        d > 0,
    ensures
        a >= 0 ==> 0 <= trunc_div(a, d) <= a,
        a < 0 ==> a <= trunc_div(a, d) <= 0,
{
    if a >= 0 {
        vstd::arithmetic::div_mod::lemma_div_pos_is_pos(a, d);
        vstd::arithmetic::div_mod::lemma_div_is_ordered_by_denominator(a, 1, d);
    } else {
        vstd::arithmetic::div_mod::lemma_div_pos_is_pos(-a, d);
        vstd::arithmetic::div_mod::lemma_div_is_ordered_by_denominator(-a, 1, d);
    }
}

/// Scales `units` design units to pixels, rounding toward zero.
fn scale(pixel_size: i16, units: i32, per_em: i16) -> (r: i32)
    requires
        per_em > 0,
        -65535 <= units <= 65535,
    ensures
        r == scaled(pixel_size as int, units as int, per_em as int),
{
    let p: i64 = pixel_size as i64;
    let u: i64 = units as i64;
    let d: i64 = per_em as i64;
    assert(-2147450880 <= p * u <= 2147450880) by (nonlinear_arith)
        requires
            -32768 <= p <= 32767,
            -65535 <= u <= 65535,
    ;
    let n: i64 = p * u;
    proof {
        lemma_trunc_div_bounds(n as int, d as int);
    }
    if n >= 0 {
        (n / d) as i32
    } else {
        (-((-n) / d)) as i32
    }
}

/// A font resolved to one of its pixel sizes.
#[derive(Clone, Copy, Debug)]
pub struct PixelFont<'a> {
    pub bitmap_font: &'a BitmapFont,
    pub glyphs: &'a BitmapGlyphs,
}

impl<'a> PixelFont<'a> {
    /// The font can shape text: its character map is sorted, and every
    /// glyph index in it has a record at this size.
    pub open spec fn well_formed(&self) -> bool {
        &&& self.bitmap_font.character_map_sorted()
        &&& forall|e: int|
            0 <= e < self.bitmap_font.character_map@.len() ==> (
            #[trigger] self.bitmap_font.character_map@[e]).glyph_index
                < self.glyphs.glyph_data@.len()
    }

    /// The ascent in pixels: the font's ascent scaled to this size and
    /// rounded toward zero.
    pub open spec fn ascent_px(&self) -> int {
        scaled(
            self.glyphs.pixel_size as int,
            self.bitmap_font.ascent as int,
            self.bitmap_font.units_per_em as int,
        )
    }

    /// The line height in pixels: ascent minus the (negative) descent,
    /// scaled to this size and rounded toward zero.
    pub open spec fn height_px(&self) -> int {
        scaled(
            self.glyphs.pixel_size as int,
            self.bitmap_font.ascent - self.bitmap_font.descent,
            self.bitmap_font.units_per_em as int,
        )
    }

    /// No glyph moves the pen back, and neither does a character without a
    /// glyph.
    pub open spec fn advances_non_negative(&self) -> bool {
        &&& self.glyphs.pixel_size >= 0
        &&& forall|g: int|
            0 <= g < self.glyphs.glyph_data@.len() ==> (
            #[trigger] self.glyphs.glyph_data@[g]).x_advance >= 0
    }

    /// How far the pen moves for `c`: the advance of its glyph, or the
    /// pixel size where the font has no glyph for it.
    pub open spec fn advance_of(&self, c: char) -> int {
        match self.bitmap_font.glyph_index_of(c) {
            Some(g) => self.glyphs.glyph_data@[g as int].x_advance as int,
            None => self.glyphs.pixel_size as int,
        }
    }

    /// The pen position after the first `n` characters of `text`: the sum
    /// of their advances.
    pub open spec fn pen_at(&self, text: Seq<char>, n: int) -> int
        decreases n,
    {
        if n <= 0 {
            0
        } else {
            self.pen_at(text, n - 1) + self.advance_of(text[n - 1])
        }
    }

    /// The positioned glyphs of the first `n` characters of `text`: for each
    /// character that the font has a glyph for, in order, the pen position
    /// before it and the glyph's record.
    pub open spec fn positioned(&self, text: Seq<char>, n: int) -> Seq<(int, BitmapGlyph)>
        decreases n,
    {
        if n <= 0 {
            Seq::empty()
        } else {
            match self.bitmap_font.glyph_index_of(text[n - 1]) {
                Some(g) => self.positioned(text, n - 1).push(
                    (self.pen_at(text, n - 1), self.glyphs.glyph_data@[g as int]),
                ),
                None => self.positioned(text, n - 1),
            }
        }
    }

    /// The shaped record of the `i`-th character of `text`: the glyph's
    /// metrics and index where the font has one, zeros and no index where
    /// it has none, and in both cases the character's byte offset.
    pub open spec fn shaped_at(&self, text: Seq<char>, i: int) -> ShapedGlyph {
        match self.bitmap_font.glyph_index_of(text[i]) {
            Some(g) => ShapedGlyph {
                width: self.glyphs.glyph_data@[g as int].width,
                height: self.glyphs.glyph_data@[g as int].height,
                advance_x: self.glyphs.glyph_data@[g as int].x_advance,
                glyph_id: Some(g),
                glyph_cluster_index: byte_offset(text, i) as usize,
            },
            None => ShapedGlyph {
                width: 0,
                height: 0,
                advance_x: 0,
                glyph_id: None,
                glyph_cluster_index: byte_offset(text, i) as usize,
            },
        }
    }

    /// The shaped run of `text`: one record for each character, in order.
    pub open spec fn shaped(&self, text: Seq<char>) -> Seq<ShapedGlyph> {
        Seq::new(text.len(), |i: int| self.shaped_at(text, i))
    }

    /// A glyph index that the character map gives has a record at this
    /// size.
    pub proof fn lemma_glyph_in_range(&self, c: char)
        requires
            self.well_formed(),
        ensures
            self.bitmap_font.glyph_index_of(c) matches Some(g) ==> g
                < self.glyphs.glyph_data@.len(),
    {
        lemma_glyph_index_mapped(
            self.bitmap_font.character_map@,
            c,
            self.bitmap_font.character_map@.len() as int,
        );
    }

    /// The ascent in pixels.
    pub fn ascent(&self) -> (r: i32)
        requires
            self.bitmap_font.units_per_em > 0,
        ensures
            r == self.ascent_px(),
    {
        scale(self.glyphs.pixel_size, self.bitmap_font.ascent as i32, self.bitmap_font.units_per_em)
    }

    /// The line height in pixels.
    pub fn height(&self) -> (r: i32)
        requires
            self.bitmap_font.units_per_em > 0,
        ensures
            r == self.height_px(),
    {
        let span: i32 = self.bitmap_font.ascent as i32 - self.bitmap_font.descent as i32;
        scale(self.glyphs.pixel_size, span, self.bitmap_font.units_per_em)
    }

    /// Places the glyphs of `text` along the pen's path.
    ///
    /// The pen starts at zero. A character that the font has a glyph for
    /// gives one entry, the pen position before it and its glyph, and moves
    /// the pen by the glyph's advance; a character without a glyph gives no
    /// entry and moves the pen by the pixel size. The second component is
    /// the pen position after the last character.
    pub fn glyphs_for_text(&self, text: &str) -> (r: (Vec<(i128, Glyph<'a>)>, i128))
        requires
            self.well_formed(),
        ensures
            positions_of(r.0@) == self.positioned(text@, text@.len() as int),
            r.1 == self.pen_at(text@, text@.len() as int),
    {
        // The encoding has one byte or more for each character, and its length
        // fits a `usize`: that bounds the number of characters and so the pen.
        let _byte_len: usize = text.as_bytes().len();
        let ghost len: int = text@.len() as int;
        proof {
            lemma_byte_offset_grows(text@, 0, len);
            assert(text@.subrange(0, len) =~= text@);
            assert(text@.subrange(0, 0) =~= Seq::<char>::empty());
        }
        let mut out: Vec<(i128, Glyph<'a>)> = Vec::new();
        let mut pen: i128 = 0;
        let mut chars = text.chars();
        let ghost mut i: int = 0;
        assert(chars.remaining() =~= text@.subrange(0, len));
        loop
            invariant
                len == text@.len() <= usize::MAX,
                self.well_formed(),
                0 <= i <= len,
                chars.remaining() == text@.subrange(i, len),
                pen == self.pen_at(text@, i),
                -32768 * i <= pen <= 32767 * i,
                positions_of(out@) == self.positioned(text@, i),
            ensures
                i == len,
            decreases len - i,
        {
            match chars.next() {
                None => {
                    break ;
                },
                Some(c) => {
                    assert(c == text@[i]);
                    assert(text@.subrange(i, len).drop_first() =~= text@.subrange(i + 1, len));
                    proof {
                        self.lemma_glyph_in_range(c);
                    }
                    match self.bitmap_font.lookup(c) {
                        Some(g) => {
                            let record: &'a BitmapGlyph = &self.glyphs.glyph_data[g as usize];
                            out.push((pen, Glyph(record)));
                            assert(positions_of(out@) =~= self.positioned(text@, i + 1));
                            pen = pen + record.x_advance as i128;
                        },
                        None => {
                            pen = pen + self.glyphs.pixel_size as i128;
                        },
                    }
                    proof {
                        i = i + 1;
                    }
                },
            }
        }
        (out, pen)
    }

    /// Shapes `text` into `glyphs`: appends one record for each character,
    /// in order, with the metrics and index of its glyph, or zeros and no
    /// index where the font has no glyph for it, and with the byte offset at
    /// which the character starts in the text.
    pub fn shape_text(&self, text: &str, glyphs: &mut Vec<ShapedGlyph>)
        requires
            self.well_formed(),
        ensures
            final(glyphs)@ == old(glyphs)@ + self.shaped(text@),
    {
        // The length of the encoding fits a `usize`, and so does every offset
        // into it.
        let byte_len: usize = text.as_bytes().len();
        let ghost len: int = text@.len() as int;
        proof {
            assert(text@.subrange(0, len) =~= text@);
            assert(text@.subrange(0, 0) =~= Seq::<char>::empty());
        }
        let mut offset: usize = 0;
        let mut chars = text.chars();
        let ghost mut i: int = 0;
        assert(chars.remaining() =~= text@.subrange(0, len));
        loop
            invariant
                len == text@.len(),
                byte_offset(text@, len) == byte_len,
                self.well_formed(),
                0 <= i <= len,
                chars.remaining() == text@.subrange(i, len),
                offset == byte_offset(text@, i),
                glyphs@ == old(glyphs)@ + self.shaped(text@).subrange(0, i),
            ensures
                i == len,
            decreases len - i,
        {
            match chars.next() {
                None => {
                    break ;
                },
                Some(c) => {
                    assert(c == text@[i]);
                    assert(text@.subrange(i, len).drop_first() =~= text@.subrange(i + 1, len));
                    proof {
                        lemma_byte_offset_step(text@, i);
                        lemma_byte_offset_grows(text@, i + 1, len);
                    }
                    proof {
                        self.lemma_glyph_in_range(c);
                    }
                    let shaped = match self.bitmap_font.lookup(c) {
                        Some(g) => {
                            let record: &'a BitmapGlyph = &self.glyphs.glyph_data[g as usize];
                            ShapedGlyph {
                                width: record.width,
                                height: record.height,
                                advance_x: record.x_advance,
                                glyph_id: Some(g),
                                glyph_cluster_index: offset,
                            }
                        },
                        None => ShapedGlyph {
                            width: 0,
                            height: 0,
                            advance_x: 0,
                            glyph_id: None,
                            glyph_cluster_index: offset,
                        },
                    };
                    assert(shaped == self.shaped_at(text@, i));
                    glyphs.push(shaped);
                    assert(glyphs@ =~= old(glyphs)@ + self.shaped(text@).subrange(0, i + 1));
                    offset = offset + char_width(c);
                    proof {
                        i = i + 1;
                    }
                },
            }
        }
        assert(self.shaped(text@).subrange(0, len) =~= self.shaped(text@));
    }

    /// The pixel size that the glyphs were rasterized at.
    pub fn pixel_size(&self) -> (r: i16)
        ensures
            r == self.glyphs.pixel_size,
    {
        self.glyphs.pixel_size
    }
}

/// Size in pixels of a block of text that was laid out in this font: the
/// width of its longest line, and the line height once for each line.
pub fn text_size(font: &PixelFont<'_>, longest_line_width: i16, num_lines: usize) -> (r: (
    i16,
    i128,
))
    requires
        font.bitmap_font.units_per_em > 0,
    ensures
        r.0 == longest_line_width,
        r.1 == num_lines * font.height_px(),
{
    let line: i128 = font.height() as i128;
    let count: i128 = num_lines as i128;
    assert(-0x8000_0000_0000_0000_0000_0000 <= count * line <= 0x8000_0000_0000_0000_0000_0000)
        by (nonlinear_arith)
        requires
            0 <= count <= 0xffff_ffff_ffff_ffff,
            -0x8000_0000 <= line <= 0x8000_0000,
    ;
    (longest_line_width, count * line)
}

/// The line height is at least the ascent, for a font whose descent is not
/// above the baseline, drawn at a size that is not negative.
pub proof fn law_height_covers_ascent(font: PixelFont<'_>)
    requires
        font.bitmap_font.units_per_em > 0,
        font.bitmap_font.descent <= 0,
        font.glyphs.pixel_size >= 0,
    ensures
        font.height_px() >= font.ascent_px(),
{
    let p = font.glyphs.pixel_size as int;
    let a = font.bitmap_font.ascent as int;
    let d = font.bitmap_font.descent as int;
    assert(p * a <= p * (a - d)) by (nonlinear_arith)
        requires
            p >= 0,
            d <= 0,
    ;
    lemma_trunc_div_ordered(p * a, p * (a - d), font.bitmap_font.units_per_em as int);
}

/// The pen never moves back, in a font whose advances and pixel size are
/// not negative.
pub proof fn law_pen_never_moves_back(font: PixelFont<'_>, text: Seq<char>, i: int, j: int)
    requires
        font.well_formed(),
        font.advances_non_negative(),
        0 <= i <= j <= text.len(),
    ensures
        0 <= font.pen_at(text, i) <= font.pen_at(text, j),
    decreases j,
{
    if j > 0 {
        font.lemma_glyph_in_range(text[j - 1]);
        if i < j {
            law_pen_never_moves_back(font, text, i, j - 1);
        } else {
            law_pen_never_moves_back(font, text, i - 1, j - 1);
        }
    }
}

/// The positioned glyphs come with pen positions in ascending order, none
/// of them beyond the final pen position, in a font whose advances and pixel
/// size are not negative.
pub proof fn law_positions_ascend(font: PixelFont<'_>, text: Seq<char>, n: int)
    requires
        font.well_formed(),
        font.advances_non_negative(),
        0 <= n <= text.len(),
    ensures
        forall|k: int, l: int|
            0 <= k <= l < font.positioned(text, n).len() ==> (#[trigger] font.positioned(
                text,
                n,
            )[k]).0 <= (#[trigger] font.positioned(text, n)[l]).0,
        forall|k: int|
            0 <= k < font.positioned(text, n).len() ==> 0 <= (#[trigger] font.positioned(
                text,
                n,
            )[k]).0 <= font.pen_at(text, n),
    decreases n,
{
    if n > 0 {
        law_positions_ascend(font, text, n - 1);
        law_pen_never_moves_back(font, text, n - 1, n);
        law_pen_never_moves_back(font, text, 0, n - 1);
        let before = font.positioned(text, n - 1);
        let now = font.positioned(text, n);
        assert forall|k: int| 0 <= k < now.len() implies 0 <= (#[trigger] now[k]).0 <= font.pen_at(
            text,
            n - 1,
        ) by {
            if k < before.len() {
                assert(now[k] == before[k]);
            }
        }
        assert forall|k: int, l: int| 0 <= k <= l < now.len() implies (#[trigger] now[k]).0 <= (
        #[trigger] now[l]).0 by {
            if l < before.len() {
                assert(now[k] == before[k]);
                assert(now[l] == before[l]);
            }
        }
    }
}

/// A shaped run has one record for each character, and the records carry
/// the byte offsets of their characters, which grow strictly along the run
/// and fall on character boundaries of the encoded text.
pub proof fn law_clusters_follow_the_text(font: PixelFont<'_>, text: Seq<char>, i: int, j: int)
    requires
        0 <= i < j < text.len(),
        byte_offset(text, text.len() as int) <= usize::MAX,
    ensures
        font.shaped(text).len() == text.len(),
        font.shaped(text)[i].glyph_cluster_index == byte_offset(text, i),
        font.shaped(text)[j].glyph_cluster_index == byte_offset(text, j),
        font.shaped(text)[i].glyph_cluster_index < font.shaped(text)[j].glyph_cluster_index,
        is_char_boundary(encode_utf8(text), font.shaped(text)[i].glyph_cluster_index as int),
        is_char_boundary(encode_utf8(text), font.shaped(text)[j].glyph_cluster_index as int),
{
    lemma_byte_offset_grows(text, i, j);
    lemma_byte_offset_grows(text, j, text.len() as int);
    lemma_byte_offset_is_boundary(text, i);
    lemma_byte_offset_is_boundary(text, j);
}

} // verus!
