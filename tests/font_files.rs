use font_metadata::coverage::UnicodeRange;
use font_metadata::face::declared_table_count;
use font_metadata::fonts::{extract_fonts, font_at, metadata, Font, Metadata};

fn put16(v: &mut Vec<u8>, x: u16) {
    v.extend_from_slice(&x.to_be_bytes());
}

fn put32(v: &mut Vec<u8>, x: u32) {
    v.extend_from_slice(&x.to_be_bytes());
}

fn head_table() -> Vec<u8> {
    let mut t = Vec::new();
    put32(&mut t, 0x0001_0000); // version
    put32(&mut t, 0); // revision
    put32(&mut t, 0); // checksum adjustment
    put32(&mut t, 0x5F0F_3CF5); // magic
    put16(&mut t, 0); // flags
    put16(&mut t, 1000); // units per em
    t.extend_from_slice(&[0u8; 16]); // created, modified
    t.extend_from_slice(&[0u8; 8]); // bounding box
    put16(&mut t, 0); // mac style
    put16(&mut t, 8); // lowest ppem
    put16(&mut t, 2); // direction hint
    put16(&mut t, 0); // index to loc format
    put16(&mut t, 0); // glyph data format
    assert_eq!(t.len(), 54);
    t
}

fn hhea_table() -> Vec<u8> {
    let mut t = Vec::new();
    put32(&mut t, 0x0001_0000);
    put16(&mut t, 800);
    put16(&mut t, 200);
    put16(&mut t, 0);
    t.extend_from_slice(&[0u8; 24]);
    put16(&mut t, 1);
    assert_eq!(t.len(), 36);
    t
}

fn maxp_table(glyphs: u16) -> Vec<u8> {
    let mut t = Vec::new();
    put32(&mut t, 0x0000_5000);
    put16(&mut t, glyphs);
    t
}

fn cmap_table(groups: &[(u32, u32)]) -> Vec<u8> {
    let mut t = Vec::new();
    put16(&mut t, 0); // version
    put16(&mut t, 1); // one encoding record
    put16(&mut t, 0); // Unicode platform
    put16(&mut t, 4); // full repertoire
    put32(&mut t, 12); // subtable offset
    put16(&mut t, 12); // format
    put16(&mut t, 0);
    put32(&mut t, 16 + 12 * groups.len() as u32);
    put32(&mut t, 0);
    put32(&mut t, groups.len() as u32);
    for &(start, end) in groups {
        put32(&mut t, start);
        put32(&mut t, end);
        put32(&mut t, 1);
    }
    t
}

/// Records of (platform, encoding, name id, text); text stored as UTF-16BE.
fn name_table(records: &[(u16, u16, u16, &str)]) -> Vec<u8> {
    let mut t = Vec::new();
    let mut storage = Vec::new();
    put16(&mut t, 0);
    put16(&mut t, records.len() as u16);
    put16(&mut t, 6 + 12 * records.len() as u16);
    for &(platform, encoding, id, text) in records {
        let start = storage.len() as u16;
        for unit in text.encode_utf16() {
            put16(&mut storage, unit);
        }
        put16(&mut t, platform);
        put16(&mut t, encoding);
        put16(&mut t, 0x409);
        put16(&mut t, id);
        put16(&mut t, storage.len() as u16 - start);
        put16(&mut t, start);
    }
    t.extend_from_slice(&storage);
    t
}

/// A font whose table offsets count from `base`, where it will stand in the file.
fn font_bytes(tables: &[(&[u8; 4], Vec<u8>)], base: u32) -> Vec<u8> {
    let mut f = Vec::new();
    put32(&mut f, 0x0001_0000);
    put16(&mut f, tables.len() as u16);
    f.extend_from_slice(&[0u8; 6]);
    let mut offset = 12 + 16 * tables.len() as u32;
    let mut body = Vec::new();
    for (tag, data) in tables {
        f.extend_from_slice(&tag[..]);
        put32(&mut f, 0);
        put32(&mut f, base + offset);
        put32(&mut f, data.len() as u32);
        body.extend_from_slice(data);
        while body.len() % 4 != 0 {
            body.push(0);
        }
        offset = 12 + 16 * tables.len() as u32 + body.len() as u32;
    }
    f.extend_from_slice(&body);
    f
}

fn simple_font(names: &[(u16, u16, u16, &str)], groups: &[(u32, u32)], glyphs: u16, base: u32) -> Vec<u8> {
    font_bytes(
        &[
            (b"cmap", cmap_table(groups)),
            (b"head", head_table()),
            (b"hhea", hhea_table()),
            (b"maxp", maxp_table(glyphs)),
            (b"name", name_table(names)),
        ],
        base,
    )
}

fn ranges(f: &Font) -> Vec<(u32, u32)> {
    f.unicode_ranges.iter().map(|r: &UnicodeRange| (r.start, r.end)).collect()
}

fn family(f: &Font) -> Option<&str> {
    f.names.get(&1).map(|s| s.as_str())
}

#[test]
fn single_font_gives_single_record() {
    let data = simple_font(&[(3, 1, 1, "Sample")], &[(0x41, 0x5A), (0x61, 0x7A)], 120, 0);
    match metadata(&data) {
        Metadata::Single(f) => {
            assert_eq!(f.names.len(), 1);
            assert_eq!(family(&f), Some("Sample"));
            assert!(!f.italic);
            assert_eq!(f.weight, 400);
            assert_eq!(f.stretch, 5);
            assert_eq!(f.glyph_count, 120);
            assert!(!f.is_variable);
            assert!(f.variation_axes.is_empty());
            assert_eq!(ranges(&f), vec![(65, 90), (97, 122)]);
        }
        Metadata::Many(_) => panic!("expected a single record"),
    }
}

fn collection(fonts: &[Option<&[(u16, u16, u16, &str)]>]) -> Vec<u8> {
    let header_len = 12 + 4 * fonts.len() as u32;
    let mut out = Vec::new();
    out.extend_from_slice(b"ttcf");
    put32(&mut out, 0x0001_0000);
    put32(&mut out, fonts.len() as u32);
    let mut body: Vec<u8> = Vec::new();
    for names in fonts {
        let base = header_len + body.len() as u32;
        put32(&mut out, base);
        match names {
            Some(names) => body.extend_from_slice(&simple_font(names, &[(0x30, 0x39)], 20, base)),
            None => body.extend_from_slice(&[0xEE; 16]),
        }
    }
    out.extend_from_slice(&body);
    out
}

#[test]
fn collection_skips_face_that_fails_to_parse() {
    let data = collection(&[Some(&[(3, 1, 1, "First")]), None, Some(&[(0, 3, 1, "Third")])]);
    match metadata(&data) {
        Metadata::Many(v) => {
            assert_eq!(v.len(), 2);
            assert_eq!(family(&v[0]), Some("First"));
            assert_eq!(family(&v[1]), Some("Third"));
            assert_eq!(ranges(&v[0]), vec![(0x30, 0x39)]);
        }
        Metadata::Single(_) => panic!("expected a list"),
    }
}

#[test]
fn collection_with_one_usable_face_unwraps() {
    let data = collection(&[Some(&[(3, 1, 1, "false")]), Some(&[(3, 1, 1, "Kept")])]);
    match metadata(&data) {
        Metadata::Single(f) => assert_eq!(family(&f), Some("Kept")),
        Metadata::Many(_) => panic!("expected a single record"),
    }
}

#[test]
fn no_usable_font_gives_empty_list() {
    let data = vec![1u8, 2, 3];
    match metadata(&data) {
        Metadata::Many(v) => assert!(v.is_empty()),
        Metadata::Single(_) => panic!("expected a list"),
    }
    assert!(font_at(&data, 0).is_none());
}

#[test]
fn false_family_is_excluded_despite_other_names() {
    let data = simple_font(&[(3, 1, 1, "false"), (3, 1, 4, "Full Name"), (3, 1, 2, "Regular")], &[(0x41, 0x41)], 3, 0);
    assert!(font_at(&data, 0).is_none());
    assert!(extract_fonts(&data).is_empty());
}

#[test]
fn false_family_in_mac_record_is_ignored() {
    let data = simple_font(&[(1, 0, 1, "false"), (3, 1, 1, "Real")], &[(0x41, 0x41)], 3, 0);
    let f = font_at(&data, 0).unwrap();
    assert_eq!(family(&f), Some("Real"));
}

#[test]
fn font_without_unicode_names_is_excluded() {
    let data = simple_font(&[(1, 0, 1, "Mac Only"), (3, 2, 4, "Other")], &[(0x41, 0x41)], 3, 0);
    assert!(font_at(&data, 0).is_none());
    match metadata(&data) {
        Metadata::Many(v) => assert!(v.is_empty()),
        Metadata::Single(_) => panic!("expected a list"),
    }
}

#[test]
fn later_name_record_overwrites_earlier() {
    let data = simple_font(&[(3, 1, 1, "Old"), (3, 1, 2, "Bold"), (0, 3, 1, "New")], &[(0x41, 0x41)], 3, 0);
    let f = font_at(&data, 0).unwrap();
    assert_eq!(f.names.len(), 2);
    assert_eq!(family(&f), Some("New"));
    assert_eq!(f.names.get(&2).map(|s| s.as_str()), Some("Bold"));
}

#[test]
fn isolated_code_point_gives_one_point_range() {
    let data = simple_font(&[(3, 1, 1, "One")], &[(0x41, 0x41)], 2, 0);
    let f = font_at(&data, 0).unwrap();
    assert_eq!(ranges(&f), vec![(65, 65)]);
}

#[test]
fn surrogates_are_never_covered() {
    let data = simple_font(&[(3, 1, 1, "Wide")], &[(0xD000, 0xE100)], 4000, 0);
    let f = font_at(&data, 0).unwrap();
    assert_eq!(ranges(&f), vec![(0xD000, 0xD7FF), (0xE000, 0xE100)]);
}

#[test]
fn coverage_reaches_last_bmp_code_point() {
    let data = simple_font(&[(3, 1, 1, "Top")], &[(0xFFF0, 0x10005)], 40, 0);
    let f = font_at(&data, 0).unwrap();
    assert_eq!(ranges(&f), vec![(0xFFF0, 0xFFFF)]);
}

#[test]
fn single_missing_code_point_splits_ranges() {
    let data = simple_font(&[(3, 1, 1, "Gap")], &[(0x41, 0x42), (0x44, 0x44)], 5, 0);
    let f = font_at(&data, 0).unwrap();
    assert_eq!(ranges(&f), vec![(0x41, 0x42), (0x44, 0x44)]);
}

fn os2_table(weight: u16, width: u16, italic: bool) -> Vec<u8> {
    let mut t = vec![0u8; 78];
    t[4..6].copy_from_slice(&weight.to_be_bytes());
    t[6..8].copy_from_slice(&width.to_be_bytes());
    if italic {
        t[62..64].copy_from_slice(&1u16.to_be_bytes());
    }
    t
}

/// Axes of (tag, min, default, max), in whole units.
fn fvar_table(axes: &[(&[u8; 4], i32, i32, i32)]) -> Vec<u8> {
    let mut t = Vec::new();
    put32(&mut t, 0x0001_0000);
    put16(&mut t, 16); // axes array offset
    put16(&mut t, 2); // reserved
    put16(&mut t, axes.len() as u16);
    put16(&mut t, 20); // axis size
    put16(&mut t, 0); // instance count
    put16(&mut t, 0); // instance size
    for (tag, min, def, max) in axes {
        t.extend_from_slice(&tag[..]);
        put32(&mut t, (*min as u32) << 16);
        put32(&mut t, (*def as u32) << 16);
        put32(&mut t, (*max as u32) << 16);
        put16(&mut t, 0);
        put16(&mut t, 256);
    }
    t
}

#[test]
fn styled_variable_font_reports_style_and_axes() {
    let data = font_bytes(
        &[
            (b"OS/2", os2_table(700, 3, true)),
            (b"cmap", cmap_table(&[(0x20, 0x7E)])),
            (b"fvar", fvar_table(&[(b"wght", 100, 400, 900), (b"wdth", 120, 100, 110)])),
            (b"head", head_table()),
            (b"hhea", hhea_table()),
            (b"maxp", maxp_table(95)),
            (b"name", name_table(&[(3, 1, 1, "Var"), (3, 1, 2, "Bold Italic")])),
        ],
        0,
    );
    let f = font_at(&data, 0).unwrap();
    assert!(f.italic);
    assert_eq!(f.weight, 700);
    assert_eq!(f.stretch, 3);
    assert_eq!(f.glyph_count, 95);
    assert!(f.is_variable);
    assert_eq!(f.variation_axes.len(), 2);
    assert_eq!(f.variation_axes[0].tag.to_bytes(), *b"wght");
    assert_eq!(f.variation_axes[0].min_value, 100.0f32);
    assert_eq!(f.variation_axes[0].def_value, 400.0f32);
    assert_eq!(f.variation_axes[0].max_value, 900.0f32);
    for axis in &f.variation_axes {
        assert!(axis.min_value <= axis.def_value && axis.def_value <= axis.max_value);
    }
    assert_eq!(ranges(&f), vec![(0x20, 0x7E)]);
}

#[test]
fn table_count_is_read_from_bare_font_and_collection() {
    let bare = simple_font(&[(3, 1, 1, "Bare")], &[(0x41, 0x41)], 2, 0);
    assert_eq!(declared_table_count(&bare, 0), Some(5));
    assert_eq!(declared_table_count(&[0u8; 5], 0), None);
    let coll = collection(&[Some(&[(3, 1, 1, "A")]), None]);
    assert_eq!(declared_table_count(&coll, 0), Some(5));
    assert_eq!(declared_table_count(&coll, 1), Some(0xEEEE));
    assert_eq!(declared_table_count(&coll, 2), None);
}

#[test]
fn face_declaring_every_table_slot_is_skipped() {
    let mut data = Vec::new();
    put32(&mut data, 0x0001_0000);
    put16(&mut data, 0xFFFF);
    data.extend_from_slice(&[0u8; 6]);
    data.extend_from_slice(&vec![0u8; 16 * 0xFFFF]);
    assert_eq!(declared_table_count(&data, 0), Some(0xFFFF));
    assert!(font_at(&data, 0).is_none());
    match metadata(&data) {
        Metadata::Many(v) => assert!(v.is_empty()),
        Metadata::Single(_) => panic!("expected a list"),
    }
}

#[test]
fn full_axis_array_is_read_without_overflow() {
    let axes: Vec<(&[u8; 4], i32, i32, i32)> = vec![(b"wght", 100, 400, 900); 0xFFFF];
    let data = font_bytes(
        &[
            (b"cmap", cmap_table(&[(0x41, 0x41)])),
            (b"fvar", fvar_table(&axes)),
            (b"head", head_table()),
            (b"hhea", hhea_table()),
            (b"maxp", maxp_table(2)),
            (b"name", name_table(&[(3, 1, 1, "Many Axes")])),
        ],
        0,
    );
    let f = font_at(&data, 0).unwrap();
    assert!(f.is_variable);
    assert_eq!(f.variation_axes.len(), 0xFFFF);
}
