//! The list of registered fonts, and the matching of requests against it.

use crate::font::BitmapFont;
use crate::pixel_font::PixelFont;
use vstd::prelude::*;
use vstd::string::StringSliceAdditionalSpecFns;
use vstd::utf8::encode_utf8;

verus! {

/// Pixel size of a request that names none.
pub const DEFAULT_FONT_SIZE: i16 = 12;

/// What a caller asks for: a family by name and a size in device pixels,
/// both optional.
#[derive(Debug)]
pub struct FontRequest {
    pub family: Option<String>,
    pub pixel_size: Option<i16>,
}

/// The registered fonts, in the order of their registration.
pub struct FontRegistry<'a> {
    fonts: Vec<&'a BitmapFont>,
}

impl<'a> View for FontRegistry<'a> {
    type V = Seq<&'a BitmapFont>;

    closed spec fn view(&self) -> Seq<&'a BitmapFont> {
        self.fonts@
    }
}

/// Index of the first font at or after `from` whose family name is `name`,
/// or 0, the index of the fallback, where no such font follows.
pub open spec fn first_named(fonts: Seq<&BitmapFont>, name: Seq<u8>, from: int) -> int
    decreases fonts.len() - from,
{
    if from < 0 || from >= fonts.len() {
        0
    } else if fonts[from].family_name@ == name {
        from
    } else {
        first_named(fonts, name, from + 1)
    }
}

/// Index of the font that serves a request for `family`: the first font of
/// that name, or the first font of all where the request names no family or
/// one that is not registered.
pub open spec fn family_index(fonts: Seq<&BitmapFont>, family: Option<String>) -> int {
    match family {
        None => 0,
        Some(name) => first_named(fonts, encode_utf8(name@), 0),
    }
}

/// The pixel size that a request asks for: its own, or the default.
pub open spec fn requested_size(pixel_size: Option<i16>) -> i16 {
    match pixel_size {
        Some(size) => size,
        None => DEFAULT_FONT_SIZE,
    }
}

/// Whether two byte strings are equal.
fn bytes_equal(a: &[u8], b: &[u8]) -> (r: bool)
    ensures
        r == (a@ == b@),
{
    if a.len() != b.len() {
        return false;
    }
    let mut i: usize = 0;
    while i < a.len()
        invariant
            a@.len() == b@.len(),
            0 <= i <= a@.len(),
            forall|j: int| 0 <= j < i ==> a@[j] == b@[j],
        decreases a@.len() - i,
    {
        if a[i] != b[i] {
            return false;
        }
        i += 1;
    }
    assert(a@ =~= b@);
    true
}

impl<'a> FontRegistry<'a> {
    /// Every registered font is well formed.
    pub open spec fn well_formed(&self) -> bool {
        forall|i: int| 0 <= i < self@.len() ==> (#[trigger] self@[i]).well_formed()
    }

    /// A registry without fonts.
    pub fn new() -> (r: Self)
        ensures
            r@.len() == 0,
            r.well_formed(),
    {
        FontRegistry { fonts: Vec::new() }
    }

    /// Index of the first font whose family name is `name`, or 0 where no
    /// font has that name.
    pub fn find_family(&self, name: &[u8]) -> (k: usize)
        ensures
            k == first_named(self@, name@, 0),
            self@.len() > 0 ==> k < self@.len(),
    {
        let mut i: usize = 0;
        while i < self.fonts.len()
            invariant
                0 <= i <= self@.len(),
                first_named(self@, name@, 0) == first_named(self@, name@, i as int),
            decreases self@.len() - i,
        {
            if bytes_equal(self.fonts[i].family_name.as_slice(), name) {
                return i;
            }
            i += 1;
        }
        0
    }

    /// Number of registered fonts.
    pub fn len(&self) -> (n: usize)
        ensures
            n == self@.len(),
    {
        self.fonts.len()
    }
}

/// Appends `font` to the registry. Fonts are never removed, reordered or
/// compared with those already there.
pub fn register_bitmap_font<'a>(registry: &mut FontRegistry<'a>, font: &'a BitmapFont)
    ensures
        final(registry)@ == old(registry)@.push(font),
{
    registry.fonts.push(font);
}

/// Resolves `request` to a font and one of its sizes.
///
/// The family is matched by name, byte for byte; a request without a family,
/// or for one that is not registered, gets the first registered font. Of that
/// font the largest size not above the requested one is taken, or the
/// smallest where all are larger.
pub fn match_font<'a>(registry: &FontRegistry<'a>, request: &FontRequest) -> (r: PixelFont<'a>)
    requires
        registry@.len() > 0,
        registry.well_formed(),
    ensures
        r.bitmap_font == registry@[family_index(registry@, request.family)],
        r.glyphs == r.bitmap_font.glyphs@[r.bitmap_font.size_index(
            requested_size(request.pixel_size),
        )],
        0 <= family_index(registry@, request.family) < registry@.len(),
        0 <= r.bitmap_font.size_index(requested_size(request.pixel_size))
            < r.bitmap_font.glyphs@.len(),
        r.bitmap_font.well_formed(),
        r.well_formed(),
{
    let chosen: usize = match &request.family {
        None => 0,
        Some(name) => registry.find_family(name.as_str().as_bytes()),
    };
    let font: &'a BitmapFont = registry.fonts[chosen];
    let size: i16 = match request.pixel_size {
        Some(size) => size,
        None => DEFAULT_FONT_SIZE,
    };
    let k = font.nearest_size(size);
    PixelFont { bitmap_font: font, glyphs: &font.glyphs[k] }
}

/// Where a font at or after `from` has the wanted name, the search from
/// `from` finds the first such font.
pub proof fn lemma_first_named_found(fonts: Seq<&BitmapFont>, name: Seq<u8>, from: int, i: int)
    requires
        0 <= from <= i < fonts.len(),
        fonts[i].family_name@ == name,
    ensures
        from <= first_named(fonts, name, from) <= i,
        fonts[first_named(fonts, name, from)].family_name@ == name,
        forall|j: int|
            from <= j < first_named(fonts, name, from) ==> (#[trigger] fonts[j]).family_name@
                != name,
    decreases i - from,
{
    if fonts[from].family_name@ != name {
        lemma_first_named_found(fonts, name, from + 1, i);
    }
}

/// Where no font has the wanted name, every search ends at the fallback.
pub proof fn lemma_first_named_missing(fonts: Seq<&BitmapFont>, name: Seq<u8>, from: int)
    requires
        forall|j: int| 0 <= j < fonts.len() ==> (#[trigger] fonts[j]).family_name@ != name,
    ensures
        first_named(fonts, name, from) == 0,
    decreases fonts.len() - from,
{
    if 0 <= from < fonts.len() {
        lemma_first_named_missing(fonts, name, from + 1);
    }
}

/// A request that names the family of a registered font gets a font of that
/// family: the first one registered under the name, and so that very font
/// where no earlier one shares its name.
pub proof fn law_named_family_is_selected(fonts: Seq<&BitmapFont>, family: String, i: int)
    requires
        0 <= i < fonts.len(),
        fonts[i].family_name@ == encode_utf8(family@),
    ensures
        0 <= family_index(fonts, Some(family)) <= i,
        fonts[family_index(fonts, Some(family))].family_name@ == encode_utf8(family@),
        (forall|j: int| 0 <= j < i ==> (#[trigger] fonts[j]).family_name@ != encode_utf8(family@))
            ==> family_index(fonts, Some(family)) == i,
{
    lemma_first_named_found(fonts, encode_utf8(family@), 0, i);
}

/// A request that names a family under which no font is registered gets the
/// first registered font.
pub proof fn law_unknown_family_falls_back(fonts: Seq<&BitmapFont>, family: String)
    requires
        forall|j: int|
            0 <= j < fonts.len() ==> (#[trigger] fonts[j]).family_name@ != encode_utf8(family@),
    ensures
        family_index(fonts, Some(family)) == 0,
{
    lemma_first_named_missing(fonts, encode_utf8(family@), 0);
}

/// A request without a family gets the font that was registered first,
/// whatever was registered after it.
pub proof fn law_first_registered_is_fallback(
    first: &BitmapFont,
    second: &BitmapFont,
    later: Seq<&BitmapFont>,
)
    ensures
        (Seq::empty().push(first).push(second) + later)[family_index(
            Seq::empty().push(first).push(second) + later,
            None,
        )] == first,
{
}

} // verus!
