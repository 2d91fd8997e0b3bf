use bitmap_fonts::text::char_width;
use bitmap_fonts::{
    text_size, BitmapFont, BitmapGlyph, BitmapGlyphs, CharacterMapEntry, Glyph, PixelFont,
    ShapedGlyph,
};

fn glyph(tag: u8, x_advance: i16) -> BitmapGlyph {
    BitmapGlyph {
        x: 1,
        y: -2,
        width: x_advance - 1,
        height: 9,
        x_advance,
        data: vec![tag, tag, tag],
    }
}

/// A font with glyphs for `H`, `i` and `é`, at 12 pixels.
fn sample_font() -> BitmapFont {
    BitmapFont {
        family_name: b"Sample".to_vec(),
        character_map: vec![
            CharacterMapEntry { code_point: 'H', glyph_index: 2 },
            CharacterMapEntry { code_point: 'i', glyph_index: 0 },
            CharacterMapEntry { code_point: 'é', glyph_index: 1 },
        ],
        units_per_em: 2048,
        ascent: 1900,
        descent: -500,
        glyphs: vec![BitmapGlyphs {
            pixel_size: 12,
            glyph_data: vec![glyph(b'i', 4), glyph(0xe9, 7), glyph(b'H', 10)],
        }],
    }
}

fn resolved(font: &BitmapFont) -> PixelFont<'_> {
    PixelFont { bitmap_font: font, glyphs: &font.glyphs[0] }
}

fn metrics_font(pixel_size: i16, units_per_em: i16, ascent: i16, descent: i16) -> BitmapFont {
    BitmapFont {
        family_name: b"Metrics".to_vec(),
        character_map: vec![],
        units_per_em,
        ascent,
        descent,
        glyphs: vec![BitmapGlyphs { pixel_size, glyph_data: vec![] }],
    }
}

#[test]
fn lookup_finds_mapped_characters() {
    let font = sample_font();
    assert_eq!(font.lookup('H'), Some(2));
    assert_eq!(font.lookup('i'), Some(0));
    assert_eq!(font.lookup('é'), Some(1));
    assert_eq!(font.lookup('h'), None);
    assert_eq!(font.lookup('\0'), None);
    assert_eq!(font.lookup('\u{10ffff}'), None);
    assert_eq!(metrics_font(8, 1000, 800, -200).lookup('a'), None);
}

#[test]
fn lookup_in_a_large_map() {
    let mut font = sample_font();
    font.character_map = (0..200u16)
        .map(|k| CharacterMapEntry {
            code_point: char::from_u32(0x100 + 2 * k as u32).unwrap(),
            glyph_index: k,
        })
        .collect();
    for k in 0..200u16 {
        let present = char::from_u32(0x100 + 2 * k as u32).unwrap();
        let absent = char::from_u32(0x101 + 2 * k as u32).unwrap();
        assert_eq!(font.lookup(present), Some(k));
        assert_eq!(font.lookup(absent), None);
    }
}

#[test]
fn hi_is_placed_along_the_pen() {
    let font = sample_font();
    let (glyphs, pen) = resolved(&font).glyphs_for_text("Hi");
    assert_eq!(glyphs.len(), 2);
    assert_eq!(glyphs[0].0, 0);
    assert!(std::ptr::eq(glyphs[0].1 .0, &font.glyphs[0].glyph_data[2]));
    assert_eq!(glyphs[0].1.x_advance(), 10);
    assert_eq!(glyphs[1].0, 10);
    assert!(std::ptr::eq(glyphs[1].1 .0, &font.glyphs[0].glyph_data[0]));
    assert_eq!(glyphs[1].1.x_advance(), 4);
    assert_eq!(pen, 14);
}

#[test]
fn unmapped_characters_advance_by_pixel_size() {
    let font = sample_font();
    let (glyphs, pen) = resolved(&font).glyphs_for_text("H?i??");
    assert_eq!(glyphs.len(), 2);
    assert_eq!(glyphs[0].0, 0);
    assert_eq!(glyphs[0].1.data(), &[b'H', b'H', b'H']);
    assert_eq!(glyphs[1].0, 22);
    assert_eq!(glyphs[1].1.data(), &[b'i', b'i', b'i']);
    assert_eq!(pen, 10 + 12 + 4 + 12 + 12);
}

#[test]
fn empty_text_gives_no_glyphs() {
    let font = sample_font();
    let (glyphs, pen) = resolved(&font).glyphs_for_text("");
    assert!(glyphs.is_empty());
    assert_eq!(pen, 0);
    let mut shaped = Vec::new();
    resolved(&font).shape_text("", &mut shaped);
    assert!(shaped.is_empty());
}

#[test]
fn pen_positions_never_decrease() {
    let font = sample_font();
    let (glyphs, pen) = resolved(&font).glyphs_for_text("HiéH xx iiH");
    assert_eq!(glyphs.len(), 7);
    let mut last = 0;
    for (x, _) in &glyphs {
        assert!(*x >= last);
        last = *x;
    }
    assert!(pen >= last);
    assert_eq!(pen, 10 + 4 + 7 + 10 + 12 + 12 + 12 + 12 + 4 + 4 + 10);
}

#[test]
fn long_text_does_not_overflow_the_pen() {
    let font = sample_font();
    let text = "H".repeat(10_000);
    let (glyphs, pen) = resolved(&font).glyphs_for_text(&text);
    assert_eq!(glyphs.len(), 10_000);
    assert_eq!(glyphs[9_999].0, 99_990);
    assert_eq!(pen, 100_000);
}

#[test]
fn shape_text_gives_one_record_per_character() {
    let font = sample_font();
    let mut shaped = Vec::new();
    resolved(&font).shape_text("Hi?", &mut shaped);
    assert_eq!(
        shaped,
        vec![
            ShapedGlyph {
                width: 9,
                height: 9,
                advance_x: 10,
                glyph_id: Some(2),
                glyph_cluster_index: 0
            },
            ShapedGlyph {
                width: 3,
                height: 9,
                advance_x: 4,
                glyph_id: Some(0),
                glyph_cluster_index: 1
            },
            ShapedGlyph {
                width: 0,
                height: 0,
                advance_x: 0,
                glyph_id: None,
                glyph_cluster_index: 2
            },
        ]
    );
}

#[test]
fn shape_text_tags_records_with_byte_offsets() {
    let font = sample_font();
    let text = "aé€𝄞i";
    let mut shaped = Vec::new();
    resolved(&font).shape_text(text, &mut shaped);
    let offsets: Vec<usize> = shaped.iter().map(|g| g.glyph_cluster_index).collect();
    assert_eq!(offsets, vec![0, 1, 3, 6, 10]);
    assert_eq!(shaped.len(), text.chars().count());
    for (record, (offset, _)) in shaped.iter().zip(text.char_indices()) {
        assert_eq!(record.glyph_cluster_index, offset);
        assert!(text.is_char_boundary(record.glyph_cluster_index));
    }
    assert_eq!(shaped[1].glyph_id, Some(1));
    assert_eq!(shaped[1].advance_x, 7);
    assert_eq!(shaped[4].glyph_id, Some(0));
    assert_eq!(shaped[0].glyph_id, None);
}

#[test]
fn shape_text_appends_to_storage() {
    let font = sample_font();
    let marker = ShapedGlyph {
        width: 1,
        height: 2,
        advance_x: 3,
        glyph_id: Some(9),
        glyph_cluster_index: 77,
    };
    let mut shaped = vec![marker];
    resolved(&font).shape_text("iH", &mut shaped);
    assert_eq!(shaped.len(), 3);
    assert_eq!(shaped[0], marker);
    assert_eq!(shaped[1].glyph_id, Some(0));
    assert_eq!(shaped[1].glyph_cluster_index, 0);
    assert_eq!(shaped[2].glyph_id, Some(2));
    assert_eq!(shaped[2].glyph_cluster_index, 1);
}

#[test]
fn char_width_is_the_utf8_length() {
    assert_eq!(char_width('\0'), 1);
    assert_eq!(char_width('\u{7f}'), 1);
    assert_eq!(char_width('\u{80}'), 2);
    assert_eq!(char_width('\u{7ff}'), 2);
    assert_eq!(char_width('\u{800}'), 3);
    assert_eq!(char_width('\u{d7ff}'), 3);
    assert_eq!(char_width('\u{e000}'), 3);
    assert_eq!(char_width('\u{ffff}'), 3);
    assert_eq!(char_width('\u{10000}'), 4);
    assert_eq!(char_width('\u{10ffff}'), 4);
    for c in ['a', 'é', '€', '𝄞'] {
        assert_eq!(char_width(c), c.len_utf8());
    }
}

#[test]
fn glyph_accessors_read_the_record() {
    let record = BitmapGlyph { x: 1, y: -2, width: 3, height: 4, x_advance: 5, data: vec![6, 7] };
    let glyph = Glyph(&record);
    assert_eq!(glyph.x(), 1);
    assert_eq!(glyph.y(), -2);
    assert_eq!(glyph.width(), 3);
    assert_eq!(glyph.height(), 4);
    assert_eq!(glyph.size(), (3, 4));
    assert_eq!(glyph.x_advance(), 5);
    assert_eq!(glyph.data(), &[6, 7]);
    assert!(std::ptr::eq(glyph.data().as_ptr(), record.data.as_ptr()));
}

#[test]
fn metrics_scale_and_round_toward_zero() {
    let font = metrics_font(16, 2048, 1900, -500);
    let pixel_font = resolved(&font);
    assert_eq!(pixel_font.pixel_size(), 16);
    assert_eq!(pixel_font.ascent(), 14);
    assert_eq!(pixel_font.height(), 18);

    let exact = metrics_font(10, 1000, 800, -200);
    assert_eq!(resolved(&exact).ascent(), 8);
    assert_eq!(resolved(&exact).height(), 10);

    let below = metrics_font(16, 2048, -1900, -2500);
    assert_eq!(resolved(&below).ascent(), -14);
    assert_eq!(resolved(&below).height(), 4);
}

#[test]
fn metrics_at_the_limits() {
    let large = metrics_font(i16::MAX, 1, i16::MAX, i16::MIN);
    assert_eq!(resolved(&large).ascent(), 32767 * 32767);
    assert_eq!(resolved(&large).height(), 32767 * 65535);
    let negative = metrics_font(i16::MIN, 1, i16::MAX, i16::MIN);
    assert_eq!(resolved(&negative).ascent(), -32768 * 32767);
    assert_eq!(resolved(&negative).height(), -32768 * 65535);
    let inverted = metrics_font(i16::MIN, 3, i16::MIN, i16::MAX);
    assert_eq!(resolved(&inverted).height(), 715816960);
}

#[test]
fn height_is_at_least_ascent() {
    for pixel_size in [0, 1, 7, 12, 100, i16::MAX] {
        for (ascent, descent) in [(1900, -500), (800, 0), (0, -300), (-100, -400), (3, -1)] {
            let font = metrics_font(pixel_size, 2048, ascent, descent);
            let pixel_font = resolved(&font);
            assert!(pixel_font.height() >= pixel_font.ascent());
        }
    }
}

#[test]
fn text_size_multiplies_line_height() {
    let font = metrics_font(16, 2048, 1900, -500);
    let pixel_font = resolved(&font);
    assert_eq!(text_size(&pixel_font, 120, 3), (120, 54));
    assert_eq!(text_size(&pixel_font, 0, 0), (0, 0));
    assert_eq!(text_size(&pixel_font, -5, 1), (-5, 18));
    let large = metrics_font(i16::MAX, 1, i16::MAX, i16::MIN);
    assert_eq!(
        text_size(&resolved(&large), 1, usize::MAX),
        (1, 32767_i128 * 65535 * usize::MAX as i128)
    );
}
