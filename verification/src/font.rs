//! The font tables: glyph records, size variants and the character map.

use vstd::prelude::*;

verus! {

/// One entry of a font's character map: the glyph that draws a code point.
#[derive(Clone, Copy, Debug)]
pub struct CharacterMapEntry {
    pub code_point: char,
    pub glyph_index: u16,
}

/// One rasterized glyph: where its bitmap sits relative to the pen, how far
/// the pen moves after it, and the packed bitmap itself.
#[derive(Debug)]
pub struct BitmapGlyph {
    pub x: i16,
    pub y: i16,
    pub width: i16,
    pub height: i16,
    pub x_advance: i16,
    pub data: Vec<u8>,
}

/// All glyphs of a font at one pixel size, indexed by glyph index.
#[derive(Debug)]
pub struct BitmapGlyphs {
    pub pixel_size: i16,
    pub glyph_data: Vec<BitmapGlyph>,
}

/// One font family with its metrics in design units, its character map and
/// its size variants.
#[derive(Debug)]
pub struct BitmapFont {
    pub family_name: Vec<u8>,
    pub character_map: Vec<CharacterMapEntry>,
    pub units_per_em: i16,
    pub ascent: i16,
    pub descent: i16,
    pub glyphs: Vec<BitmapGlyphs>,
}

/// The glyph index that the first `n` entries of `map` give to `c`: that of
/// the last of them with this code point, or `None` where there is none.
pub open spec fn glyph_index_in(map: Seq<CharacterMapEntry>, c: char, n: int) -> Option<u16>
    decreases n,
{
    if n <= 0 {
        None
    } else if map[n - 1].code_point == c {
        Some(map[n - 1].glyph_index)
    } else {
        glyph_index_in(map, c, n - 1)
    }
}

/// Index of the variant that serves a request for `requested` pixels among
/// the first `n` of `variants`: the last one that is not larger than the
/// request, or the first one where all are larger.
pub open spec fn size_index_in(variants: Seq<BitmapGlyphs>, requested: i16, n: int) -> int
    decreases n,
{
    if n <= 1 {
        0
    } else if variants[n - 1].pixel_size <= requested {
        n - 1
    } else {
        size_index_in(variants, requested, n - 1)
    }
}

/// What the first `n` entries give to `c` is the glyph index of one of them
/// with that code point, and nothing only where none of them has it.
pub proof fn lemma_glyph_index_mapped(map: Seq<CharacterMapEntry>, c: char, n: int)
    requires
        0 <= n <= map.len(),
    ensures
        match glyph_index_in(map, c, n) {
            Some(g) => exists|e: int|
                0 <= e < n && (#[trigger] map[e]).code_point == c && map[e].glyph_index == g,
            None => forall|e: int| 0 <= e < n ==> (#[trigger] map[e]).code_point != c,
        },
    decreases n,
{
    if n > 0 && map[n - 1].code_point != c {
        lemma_glyph_index_mapped(map, c, n - 1);
    }
}

/// No entry among the first `n` has the code point `c`.
pub proof fn lemma_glyph_index_absent(map: Seq<CharacterMapEntry>, c: char, n: int)
    requires
        0 <= n <= map.len(),
        forall|j: int| 0 <= j < n ==> (#[trigger] map[j]).code_point != c,
    ensures
        glyph_index_in(map, c, n) is None,
    decreases n,
{
    if n > 0 {
        lemma_glyph_index_absent(map, c, n - 1);
    }
}

/// Entry `k` is the only one among the first `n` with the code point `c`
/// at or after it.
pub proof fn lemma_glyph_index_present(map: Seq<CharacterMapEntry>, c: char, k: int, n: int)
    requires
        0 <= k < n <= map.len(),
        map[k].code_point == c,
        forall|j: int| k < j < n ==> (#[trigger] map[j]).code_point != c,
    ensures
        glyph_index_in(map, c, n) == Some(map[k].glyph_index),
    decreases n,
{
    if n - 1 > k {
        lemma_glyph_index_present(map, c, k, n - 1);
    }
}

/// Variant `k` is the one chosen among the first `n` when every later one is
/// too large and `k` itself fits or is the first.
pub proof fn lemma_size_index(variants: Seq<BitmapGlyphs>, requested: i16, k: int, n: int)
    requires
        0 <= k < n <= variants.len(),
        k == 0 || variants[k].pixel_size <= requested,
        forall|j: int| k < j < n ==> (#[trigger] variants[j]).pixel_size > requested,
    ensures
        size_index_in(variants, requested, n) == k,
    decreases n,
{
    if n - 1 > k {
        lemma_size_index(variants, requested, k, n - 1);
    }
}

impl BitmapFont {
    /// The character map lists its code points in strictly ascending order.
    pub open spec fn character_map_sorted(&self) -> bool {
        forall|i: int, j: int|
            0 <= i < j < self.character_map@.len() ==> (#[trigger] self.character_map@[i]).code_point
                < (#[trigger] self.character_map@[j]).code_point
    }

    /// The size variants come in strictly ascending order of pixel size.
    pub open spec fn variants_sorted(&self) -> bool {
        forall|i: int, j: int|
            0 <= i < j < self.glyphs@.len() ==> (#[trigger] self.glyphs@[i]).pixel_size
                < (#[trigger] self.glyphs@[j]).pixel_size
    }

    /// Every glyph index of the character map has a record in every variant.
    pub open spec fn glyph_indices_in_range(&self) -> bool {
        forall|e: int, v: int|
            0 <= e < self.character_map@.len() && 0 <= v < self.glyphs@.len() ==> (
            #[trigger] self.character_map@[e]).glyph_index < (
            #[trigger] self.glyphs@[v]).glyph_data@.len()
    }

    /// What every font must satisfy before it is matched or shaped with:
    /// sorted tables without duplicates, at least one size variant, a
    /// positive em size, and a glyph record for every mapped character.
    pub open spec fn well_formed(&self) -> bool {
        &&& self.units_per_em > 0
        &&& self.glyphs@.len() > 0
        &&& self.character_map_sorted()
        &&& self.variants_sorted()
        &&& self.glyph_indices_in_range()
    }

    /// The glyph index that the character map gives to `c`, if any.
    pub open spec fn glyph_index_of(&self, c: char) -> Option<u16> {
        glyph_index_in(self.character_map@, c, self.character_map@.len() as int)
    }

    /// Index of the size variant that serves a request for `requested`
    /// pixels: the largest that is not larger than the request, or the
    /// smallest where all are larger.
    pub open spec fn size_index(&self, requested: i16) -> int {
        size_index_in(self.glyphs@, requested, self.glyphs@.len() as int)
    }

    /// Whether the character map lists its code points in strictly
    /// ascending order.
    fn is_character_map_sorted(&self) -> (r: bool)
        ensures
            r == self.character_map_sorted(),
    {
        let n: usize = self.character_map.len();
        let mut i: usize = 1;
        while i < n
            invariant
                n == self.character_map@.len(),
                1 <= i,
                forall|a: int, b: int|
                    0 <= a < b < i && b < n ==> (#[trigger] self.character_map@[a]).code_point < (
                    #[trigger] self.character_map@[b]).code_point,
            decreases n - i,
        {
            if !(self.character_map[i - 1].code_point < self.character_map[i].code_point) {
                return false;
            }
            i += 1;
        }
        true
    }

    /// Whether the size variants come in strictly ascending order.
    fn is_variants_sorted(&self) -> (r: bool)
        ensures
            r == self.variants_sorted(),
    {
        let n: usize = self.glyphs.len();
        let mut i: usize = 1;
        while i < n
            invariant
                n == self.glyphs@.len(),
                1 <= i,
                forall|a: int, b: int|
                    0 <= a < b < i && b < n ==> (#[trigger] self.glyphs@[a]).pixel_size < (
                    #[trigger] self.glyphs@[b]).pixel_size,
            decreases n - i,
        {
            if !(self.glyphs[i - 1].pixel_size < self.glyphs[i].pixel_size) {
                return false;
            }
            i += 1;
        }
        true
    }

    /// Whether every glyph index of the character map has a record in
    /// every variant.
    fn is_glyph_indices_in_range(&self) -> (r: bool)
        ensures
            r == self.glyph_indices_in_range(),
    {
        let mut v: usize = 0;
        while v < self.glyphs.len()
            invariant
                0 <= v <= self.glyphs@.len(),
                forall|e: int, w: int|
                    0 <= e < self.character_map@.len() && 0 <= w < v ==> (
                    #[trigger] self.character_map@[e]).glyph_index < (
                    #[trigger] self.glyphs@[w]).glyph_data@.len(),
            decreases self.glyphs@.len() - v,
        {
            let records: usize = self.glyphs[v].glyph_data.len();
            let mut e: usize = 0;
            while e < self.character_map.len()
                invariant
                    0 <= v < self.glyphs@.len(),
                    records == self.glyphs@[v as int].glyph_data@.len(),
                    0 <= e <= self.character_map@.len(),
                    forall|d: int|
                        0 <= d < e ==> (#[trigger] self.character_map@[d]).glyph_index < records,
                decreases self.character_map@.len() - e,
            {
                if self.character_map[e].glyph_index as usize >= records {
                    return false;
                }
                e += 1;
            }
            v += 1;
        }
        true
    }

    /// Whether the font is well formed.
    pub fn is_well_formed(&self) -> (r: bool)
        ensures
            r == self.well_formed(),
    {
        self.units_per_em > 0 && self.glyphs.len() > 0 && self.is_character_map_sorted()
            && self.is_variants_sorted() && self.is_glyph_indices_in_range()
    }

    /// Looks `c` up in the character map by binary search.
    pub fn lookup(&self, c: char) -> (r: Option<u16>)
        requires
            self.character_map_sorted(),
        ensures
            r == self.glyph_index_of(c),
    {
        let mut lo: usize = 0;
        let mut hi: usize = self.character_map.len();
        while lo < hi
            invariant
                0 <= lo <= hi <= self.character_map@.len(),
                self.character_map_sorted(),
                forall|j: int| 0 <= j < lo ==> (#[trigger] self.character_map@[j]).code_point < c,
                forall|j: int|
                    hi <= j < self.character_map@.len() ==> (#[trigger] self.character_map@[j]).code_point
                        > c,
            decreases hi - lo,
        {
            let mid: usize = lo + (hi - lo) / 2;
            let entry = &self.character_map[mid];
            if entry.code_point == c {
                proof {
                    lemma_glyph_index_present(
                        self.character_map@,
                        c,
                        mid as int,
                        self.character_map@.len() as int,
                    );
                }
                return Some(entry.glyph_index);
            } else if entry.code_point < c {
                lo = mid + 1;
            } else {
                hi = mid;
            }
        }
        proof {
            lemma_glyph_index_absent(self.character_map@, c, self.character_map@.len() as int);
        }
        None
    }

    /// Finds the size variant for a request of `requested` pixels by binary
    /// search over the variants.
    pub fn nearest_size(&self, requested: i16) -> (k: usize)
        requires
            self.glyphs@.len() > 0,
            self.variants_sorted(),
        ensures
            k == self.size_index(requested),
            k < self.glyphs@.len(),
    {
        let mut lo: usize = 0;
        let mut hi: usize = self.glyphs.len();
        while lo < hi
            invariant
                0 <= lo <= hi <= self.glyphs@.len(),
                self.variants_sorted(),
                forall|j: int| 0 <= j < lo ==> (#[trigger] self.glyphs@[j]).pixel_size <= requested,
                forall|j: int|
                    hi <= j < self.glyphs@.len() ==> (#[trigger] self.glyphs@[j]).pixel_size
                        > requested,
            decreases hi - lo,
        {
            let mid: usize = lo + (hi - lo) / 2;
            if self.glyphs[mid].pixel_size <= requested {
                lo = mid + 1;
            } else {
                hi = mid;
            }
        }
        let k: usize = if lo == 0 { 0 } else { lo - 1 };
        proof {
            lemma_size_index(self.glyphs@, requested, k as int, self.glyphs@.len() as int);
        }
        k
    }
}

} // verus!
