use torn::{normalize_line_breaks, prepare_text, FontFace};

fn be16(out: &mut Vec<u8>, value: u16) {
    out.extend_from_slice(&value.to_be_bytes());
}

fn be32(out: &mut Vec<u8>, value: u32) {
    out.extend_from_slice(&value.to_be_bytes());
}

/// A minimal TrueType font with two glyphs whose character map sends each of
/// `mapped` to glyph 1.
fn tiny_font(mapped: &[char]) -> Vec<u8> {
    let mut head = Vec::new();
    be32(&mut head, 0x0001_0000); // version
    be32(&mut head, 0x0001_0000); // font revision
    be32(&mut head, 0); // checksum adjustment
    be32(&mut head, 0x5F0F_3CF5); // magic number
    be16(&mut head, 0); // flags
    be16(&mut head, 1000); // units per em
    head.extend_from_slice(&[0; 16]); // created, modified
    for _ in 0..4 {
        be16(&mut head, 0); // bounding box
    }
    be16(&mut head, 0); // mac style
    be16(&mut head, 8); // lowest readable size
    be16(&mut head, 2); // font direction hint
    be16(&mut head, 0); // short offsets
    be16(&mut head, 0); // glyph data format

    let mut hhea = Vec::new();
    be32(&mut hhea, 0x0001_0000);
    be16(&mut hhea, 800); // ascender
    be16(&mut hhea, (-200i16) as u16); // descender
    be16(&mut hhea, 0); // line gap
    for _ in 0..12 {
        be16(&mut hhea, 0);
    }
    be16(&mut hhea, 0); // number of horizontal metrics

    let mut maxp = Vec::new();
    be32(&mut maxp, 0x0000_5000);
    be16(&mut maxp, 2); // number of glyphs

    let mut codes: Vec<u16> = mapped.iter().map(|c| *c as u16).collect();
    codes.sort_unstable();
    let seg_count = codes.len() as u16 + 1;
    let mut subtable = Vec::new();
    be16(&mut subtable, 4); // format
    be16(&mut subtable, 16 + 8 * seg_count); // length
    be16(&mut subtable, 0); // language
    be16(&mut subtable, seg_count * 2);
    be16(&mut subtable, 0);
    be16(&mut subtable, 0);
    be16(&mut subtable, 0);
    for code in &codes {
        be16(&mut subtable, *code); // end codes
    }
    be16(&mut subtable, 0xFFFF);
    be16(&mut subtable, 0); // reserved
    for code in &codes {
        be16(&mut subtable, *code); // start codes
    }
    be16(&mut subtable, 0xFFFF);
    for code in &codes {
        be16(&mut subtable, 1u16.wrapping_sub(*code)); // deltas
    }
    be16(&mut subtable, 1);
    for _ in 0..seg_count {
        be16(&mut subtable, 0); // range offsets
    }
    let mut cmap = Vec::new();
    be16(&mut cmap, 0);
    be16(&mut cmap, 1);
    be16(&mut cmap, 3); // Windows
    be16(&mut cmap, 1); // Unicode BMP
    be32(&mut cmap, 12);
    cmap.extend_from_slice(&subtable);

    let tables: [(&[u8; 4], Vec<u8>); 4] =
        [(b"cmap", cmap), (b"head", head), (b"hhea", hhea), (b"maxp", maxp)];
    let mut font = Vec::new();
    be32(&mut font, 0x0001_0000);
    be16(&mut font, tables.len() as u16);
    be16(&mut font, 64);
    be16(&mut font, 2);
    be16(&mut font, 0);
    let mut offset = 12 + 16 * tables.len() as u32;
    let mut body = Vec::new();
    for (tag, data) in &tables {
        font.extend_from_slice(*tag);
        be32(&mut font, 0);
        be32(&mut font, offset);
        be32(&mut font, data.len() as u32);
        body.extend_from_slice(data);
        while body.len() % 4 != 0 {
            body.push(0);
        }
        offset = 12 + 16 * tables.len() as u32 + body.len() as u32;
    }
    font.extend_from_slice(&body);
    font
}

fn face(mapped: &[char]) -> FontFace {
    FontFace::from_bytes(tiny_font(mapped)).expect("the test font parses")
}

fn segments(result: Vec<(usize, Vec<char>)>) -> Vec<(usize, String)> {
    result.into_iter().map(|(index, chars)| (index, chars.into_iter().collect())).collect()
}

#[test]
fn faces_report_the_characters_their_fonts_map() {
    let face = face(&['A', 'b']);
    assert!(face.has_glyph('A'));
    assert!(face.has_glyph('b'));
    assert!(!face.has_glyph('B'));
    assert!(face.clone().has_glyph('A'));
}

#[test]
fn unparsable_bytes_are_refused_with_the_parser_reason() {
    let error = FontFace::from_bytes(vec![1, 2, 3, 4]).err().expect("garbage is refused");
    assert!(!error.reason().is_empty());
    assert_eq!(error.describe(), format!("could not parse font: {}", error.reason()));
}

#[test]
fn windows_and_old_mac_line_endings_become_line_feeds() {
    let normalized: String = normalize_line_breaks("first\r\nsecond\rthird\n\r\r\nend").into_iter().collect();
    assert_eq!(normalized, "first\nsecond\nthird\n\n\nend");
    let untouched: String = normalize_line_breaks("no breaks").into_iter().collect();
    assert_eq!(untouched, "no breaks");
}

#[test]
fn characters_take_the_first_face_that_has_them() {
    let primary = face(&['a', 'b']);
    let fallback = face(&['b', 'c', 'd']);
    let text: Vec<char> = "abcdz\nab".chars().collect();
    assert_eq!(
        segments(prepare_text(&[primary, fallback], &text)),
        vec![
            (0, "ab".to_string()),
            (1, "cd".to_string()),
            (0, "?\nab".to_string()),
        ]
    );
}

#[test]
fn text_without_faces_is_all_replacement_characters() {
    let text: Vec<char> = "hi\t!".chars().collect();
    assert_eq!(segments(prepare_text(&[], &text)), vec![(0, "??\t?".to_string())]);
    assert!(prepare_text(&[], &[]).is_empty());
}
