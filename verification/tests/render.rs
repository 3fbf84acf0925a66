use comic_ocr::render::{
    count_dark, fits_in_u32, glyphs_to_draw, layout_glyphs, Direction, RenderError, SynthFont,
};

fn be16(out: &mut Vec<u8>, v: u16) {
    out.extend_from_slice(&v.to_be_bytes());
}

fn be32(out: &mut Vec<u8>, v: u32) {
    out.extend_from_slice(&v.to_be_bytes());
}

/// A minimal TrueType font: the three tables every font must have and a
/// Unicode cmap (format 12) mapping `A`..=`Z` to glyphs 1..=26 and
/// U+3042..=U+304A (あ..お) to glyphs 27..=35. Nothing else has a glyph.
fn tiny_font_bytes() -> Vec<u8> {
    let mut cmap = Vec::new();
    be16(&mut cmap, 0); // version
    be16(&mut cmap, 1); // one encoding record
    be16(&mut cmap, 0); // platform: Unicode
    be16(&mut cmap, 4); // encoding: full repertoire
    be32(&mut cmap, 12); // subtable offset
    be16(&mut cmap, 12); // format 12
    be16(&mut cmap, 0);
    be32(&mut cmap, 16 + 2 * 12); // length
    be32(&mut cmap, 0); // language
    be32(&mut cmap, 2); // groups
    for (start, end, glyph) in [(0x41u32, 0x5Au32, 1u32), (0x3042, 0x304A, 27)] {
        be32(&mut cmap, start);
        be32(&mut cmap, end);
        be32(&mut cmap, glyph);
    }

    let mut head = vec![0u8; 54];
    head[18..20].copy_from_slice(&1000u16.to_be_bytes()); // units per em

    let mut hhea = vec![0u8; 36];
    hhea[4..6].copy_from_slice(&800i16.to_be_bytes()); // ascender
    hhea[6..8].copy_from_slice(&(-200i16).to_be_bytes()); // descender

    let mut maxp = Vec::new();
    be32(&mut maxp, 0x0000_5000);
    be16(&mut maxp, 40); // glyphs

    let tables: [(&[u8; 4], Vec<u8>); 4] =
        [(b"cmap", cmap), (b"head", head), (b"hhea", hhea), (b"maxp", maxp)];
    let mut font = Vec::new();
    be32(&mut font, 0x0001_0000);
    be16(&mut font, tables.len() as u16);
    be16(&mut font, 0);
    be16(&mut font, 0);
    be16(&mut font, 0);
    let mut offset = 12 + 16 * tables.len() as u32;
    for (tag, data) in &tables {
        font.extend_from_slice(*tag);
        be32(&mut font, 0); // checksum
        be32(&mut font, offset);
        be32(&mut font, data.len() as u32);
        offset += (data.len() as u32 + 3) / 4 * 4;
    }
    for (_, data) in &tables {
        font.extend_from_slice(data);
        while font.len() % 4 != 0 {
            font.push(0);
        }
    }
    font
}

fn font() -> Option<SynthFont> {
    SynthFont::from_bytes(tiny_font_bytes(), 0).ok()
}

#[test]
fn the_test_font_loads() {
    assert!(font().is_some());
    // A collection index past the single face is refused.
    assert!(SynthFont::from_bytes(tiny_font_bytes(), 1).is_err());
}

fn glyphs(text: &str) -> Vec<char> {
    text.chars().filter(|c| !c.is_whitespace()).collect()
}

#[test]
fn vertical_single_column_is_taller_than_wide() {
    let g = glyphs("立川で見た");
    let l = layout_glyphs(Direction::VerticalRl, &g, 8, 28, 8);
    assert_eq!((l.width, l.height), (28 + 16, 5 * 28 + 16));
    assert!(l.height > l.width, "one vertical column should be tall");
}

#[test]
fn horizontal_single_line_is_wider_than_tall() {
    let g = glyphs("HELLO");
    let l = layout_glyphs(Direction::HorizontalTb, &g, 8, 28, 8);
    assert_eq!((l.width, l.height), (5 * 28 + 16, 28 + 16));
    assert!(l.width > l.height);
}

#[test]
fn wrapping_at_five_adds_a_column() {
    let g = glyphs("あいうえおかきくけこ");
    let a = layout_glyphs(Direction::VerticalRl, &g, 5, 28, 8);
    let b = layout_glyphs(Direction::VerticalRl, &g, 10, 28, 8);
    assert!(a.width > b.width, "5-per-column should need more columns");
    assert!(a.height < b.height);
    assert_eq!((a.width, a.height), (2 * 28 + 16, 5 * 28 + 16));
}

#[test]
fn vertical_columns_run_right_to_left() {
    let g = glyphs("あいうえおかき");
    let l = layout_glyphs(Direction::VerticalRl, &g, 3, 10, 2);
    // Three columns: 3 * 10 + 4 wide, 3 * 10 + 4 tall.
    assert_eq!((l.width, l.height), (34, 34));
    assert_eq!(l.origins[0], (22, 2));
    assert_eq!(l.origins[1], (22, 12));
    assert_eq!(l.origins[2], (22, 22));
    assert_eq!(l.origins[3], (12, 2));
    assert_eq!(l.origins[6], (2, 2));
}

#[test]
fn horizontal_lines_run_top_to_bottom() {
    let g = glyphs("ABCDE");
    let l = layout_glyphs(Direction::HorizontalTb, &g, 2, 10, 3);
    assert_eq!((l.width, l.height), (26, 36));
    assert_eq!(l.origins, vec![(3, 3), (13, 3), (3, 13), (13, 13), (3, 23)]);
}

#[test]
fn a_zero_pixel_cell_collapses_to_the_padding() {
    let g = glyphs("ABC");
    let l = layout_glyphs(Direction::VerticalRl, &g, 2, 0, 4);
    assert_eq!((l.width, l.height), (8, 8));
    assert_eq!(l.origins, vec![(4, 4), (4, 4), (4, 4)]);
}

#[test]
fn oversized_canvases_are_detected() {
    assert!(fits_in_u32(Direction::VerticalRl, 10, 5, 28, 8));
    assert!(!fits_in_u32(Direction::VerticalRl, 10, 1, u32::MAX / 4, 0));
    assert!(!fits_in_u32(Direction::HorizontalTb, 3, 3, 1, u32::MAX / 2));
    assert!(fits_in_u32(Direction::HorizontalTb, 0, 3, 1000, 5));
}

#[test]
fn dark_pixels_are_those_below_the_ink_ground_midpoint() {
    // Midpoint of 24 and 250 is 137.
    let px = [0u8, 24, 136, 137, 138, 250, 255];
    assert_eq!(count_dark(&px, 24, 250), 3);
    assert_eq!(count_dark(&[], 24, 250), 0);
    // Midpoint of 255 and 255 is 255.
    assert_eq!(count_dark(&[254u8, 255], 255, 255), 1);
    // Midpoint of 24 and 251 is 137.5: 137 is darker, 138 is not.
    assert_eq!(count_dark(&[136u8, 137, 138, 139], 24, 251), 2);
}

#[test]
fn bytes_that_are_no_font_are_refused() {
    assert!(SynthFont::from_bytes(b"definitely not a font".to_vec(), 0).is_err());
    assert!(SynthFont::from_bytes(Vec::new(), 0).is_err());
}

#[test]
fn a_font_covers_what_it_has_glyphs_for() {
    let f = font().expect("font");
    assert!(f.covers('A'));
    assert!(f.covers('Z'));
    assert!(f.covers('あ'));
    assert!(!f.covers('a'));
    // U+E000 is a private-use codepoint no general font maps.
    assert!(!f.covers('\u{E000}'));
}

#[test]
fn uncovered_lists_each_missing_character_once_in_order() {
    let f = font().expect("font");
    assert_eq!(
        f.uncovered("AB\u{E000} \u{E001}\u{E000}b"),
        vec!['\u{E000}', '\u{E001}', 'b']
    );
    assert_eq!(f.uncovered(" HELLO あい "), Vec::<char>::new());
}

#[test]
fn a_character_the_font_cannot_draw_is_refused() {
    let f = font().expect("font");
    match glyphs_to_draw("AB\u{E000}", &f, 8) {
        Err(RenderError::Uncovered(missing)) => assert_eq!(missing, vec!['\u{E000}']),
        other => panic!("unexpected result: {other:?}"),
    }
}

#[test]
fn whitespace_only_text_is_refused_as_empty() {
    let f = font().expect("font");
    assert!(matches!(glyphs_to_draw("   ", &f, 8), Err(RenderError::EmptyText)));
    // Emptiness is checked before coverage.
    assert!(matches!(glyphs_to_draw("", &f, 0), Err(RenderError::EmptyText)));
}

#[test]
fn zero_cells_per_run_is_refused_after_coverage() {
    let f = font().expect("font");
    assert!(matches!(glyphs_to_draw("HELLO", &f, 0), Err(RenderError::NoCellsPerRun)));
    assert!(matches!(glyphs_to_draw("\u{E000}", &f, 0), Err(RenderError::Uncovered(_))));
}

#[test]
fn drawable_text_yields_its_non_whitespace_characters() {
    let f = font().expect("font");
    let g = glyphs_to_draw(" WHAT WAS\nTHAT ", &f, 8).expect("drawable");
    assert_eq!(g.iter().collect::<String>(), "WHATWASTHAT");
}

#[test]
fn horizontal_layout_is_the_vertical_one_transposed() {
    let g = glyphs("あいうえおかきくけこさ");
    for k in 1..=12 {
        let v = layout_glyphs(Direction::VerticalRl, &g, k, 13, 5);
        let h = layout_glyphs(Direction::HorizontalTb, &g, k, 13, 5);
        assert_eq!((v.width, v.height), (h.height, h.width), "k = {k}");
    }
}

#[test]
fn glyph_cells_never_overlap_and_stay_inside_the_padding() {
    let g = glyphs("あいうえおかきくけこさ");
    for dir in [Direction::VerticalRl, Direction::HorizontalTb] {
        let l = layout_glyphs(dir, &g, 4, 13, 5);
        for (i, &(xi, yi)) in l.origins.iter().enumerate() {
            assert!(xi >= 5 && xi + 13 + 5 <= l.width);
            assert!(yi >= 5 && yi + 13 + 5 <= l.height);
            for &(xj, yj) in &l.origins[i + 1..] {
                assert!(xi + 13 <= xj || xj + 13 <= xi || yi + 13 <= yj || yj + 13 <= yi);
            }
        }
    }
}

#[test]
fn whitespace_is_what_std_calls_whitespace() {
    for u in 0..=0x10FFFFu32 {
        if let Some(c) = char::from_u32(u) {
            assert_eq!(comic_ocr::text::char_is_whitespace(c), c.is_whitespace(), "U+{u:04X}");
        }
    }
}

#[test]
fn whitespace_never_changes_what_is_reported_or_drawn() {
    let f = font().expect("font");
    assert_eq!(f.uncovered("A\u{E000}b"), f.uncovered(" A \u{E000}\u{3000}b\n"));
    let a = glyphs_to_draw("ABC", &f, 2).expect("drawable");
    let b = glyphs_to_draw(" A\tB C ", &f, 2).expect("drawable");
    assert_eq!(a, b);
}

#[test]
fn uncovered_of_joined_texts_adds_only_new_characters() {
    let f = font().expect("font");
    let a = "Ab\u{E000}";
    let b = "c\u{E000}bdA";
    assert_eq!(f.uncovered(a), vec!['b', '\u{E000}']);
    assert_eq!(f.uncovered(b), vec!['c', '\u{E000}', 'b', 'd']);
    assert_eq!(f.uncovered(&(a.to_owned() + b)), vec!['b', '\u{E000}', 'c', 'd']);
}
