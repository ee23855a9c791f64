//! Assembly of one font record per usable face of a font file.

use crate::coverage::{
    in_range, in_some_range, lemma_runs_cover_exactly, lemma_runs_separated, ranges_view, runs,
    separated, RangeScanner, UnicodeRange,
};
use crate::face::{
    axis_count_of, collection_count, declared_table_count, face_admitted, face_parses,
    fonts_in_collection, glyph_count_of, glyph_found, is_scalar, italic_of, name_records_of,
    variable_of, weight_code_of, width_code_of, FontFace,
};
use crate::names::{
    lemma_last_record_wins, lemma_no_unicode_record_no_name, name_map, same_names, usable,
    usable_names, FAMILY_NAME_ID,
};
use std::collections::HashMap;
use vstd::prelude::*;

verus! {

/// The last code point of the Basic Multilingual Plane, where the coverage
/// scan stops.
pub const BMP_END: u32 = 0xFFFF;

/// The metadata of one usable font face.
#[derive(Debug)]
pub struct Font {
    pub names: HashMap<u16, String>,
    pub italic: bool,
    pub stretch: u16,
    pub weight: u16,
    pub glyph_count: u16,
    pub is_variable: bool,
    pub variation_axes: Vec<ttf_parser::VariationAxis>,
    pub unicode_ranges: Vec<UnicodeRange>,
}

/// Whether code point `cp` counts as covered by face `index` of `data`: it is
/// a scalar value that maps to a glyph. Surrogates are never covered.
pub open spec fn covers(data: Seq<u8>, index: u32, cp: u32) -> bool {
    is_scalar(cp) && glyph_found(data, index, cp)
}

/// Coverage of the Basic Multilingual Plane, one answer per code point.
pub open spec fn bmp_coverage(data: Seq<u8>, index: u32) -> Seq<bool> {
    Seq::new(BMP_END as nat + 1, |cp: int| covers(data, index, cp as u32))
}

/// Face `index` of `data` is admitted, parses, and its names make it usable.
pub open spec fn font_exists(data: Seq<u8>, index: u32) -> bool {
    face_admitted(data, index) && face_parses(data, index) && usable(
        name_map(name_records_of(data, index)),
    )
}

/// `f` is the record of face `index` of `data`.
pub open spec fn font_matches(f: Font, data: Seq<u8>, index: u32) -> bool {
    &&& same_names(f.names@, name_map(name_records_of(data, index)))
    &&& f.italic == italic_of(data, index)
    &&& f.stretch == width_code_of(data, index)
    &&& f.weight == weight_code_of(data, index)
    &&& f.glyph_count == glyph_count_of(data, index)
    &&& f.is_variable == variable_of(data, index)
    &&& f.variation_axes@.len() == (if variable_of(data, index) {
        axis_count_of(data, index)
    } else {
        0
    })
    &&& ranges_view(f.unicode_ranges@) == runs(bmp_coverage(data, index))
}

/// The number of fonts that `data` holds: the count a collection declares,
/// or one.
pub open spec fn font_count(data: Seq<u8>) -> u32 {
    match collection_count(data) {
        Some(n) => n,
        None => 1,
    }
}

/// The indices below `n` whose faces give a font, ascending.
pub open spec fn usable_indices(data: Seq<u8>, n: nat) -> Seq<u32>
    decreases n,
{
    if n == 0 {
        seq![]
    } else {
        let s = usable_indices(data, (n - 1) as nat);
        if font_exists(data, (n - 1) as u32) {
            s.push((n - 1) as u32)
        } else {
            s
        }
    }
}

/// The ranges of code points of the Basic Multilingual Plane that the face
/// maps to glyphs.
pub fn unicode_ranges(face: &FontFace) -> (r: Vec<UnicodeRange>)
    ensures
        ranges_view(r@) == runs(bmp_coverage(face.data(), face.index())),
{
    let ghost cov = bmp_coverage(face.data(), face.index());
    let mut scan = RangeScanner::new();
    let mut cp: u32 = 0;
    while cp <= BMP_END
        invariant
            cp <= BMP_END + 1,
            cov == bmp_coverage(face.data(), face.index()),
            scan.wf(),
            scan.seen() == cov.take(cp as int),
        decreases BMP_END + 1 - cp,
    {
        let covered = if cp >= 0xD800 && cp <= 0xDFFF {
            false
        } else {
            face.has_glyph(cp)
        };
        assert(covered == cov[cp as int]);
        scan.push(covered);
        assert(cov.take(cp + 1) =~= cov.take(cp as int).push(covered));
        cp += 1;
    }
    assert(cov.take(cp as int) =~= cov);
    scan.finish()
}

/// The record of face `index` of `data`, or `None` where the face declares
/// more tables than can be walked, does not parse, or is not usable.
pub fn font_at(data: &[u8], index: u32) -> (r: Option<Font>)
    ensures
        r is Some <==> font_exists(data@, index),
        r matches Some(f) ==> font_matches(f, data@, index),
{
    if let Some(count) = declared_table_count(data, index) {
        if count == 0xFFFF {
            return None;
        }
    }
    let face = match FontFace::parse(data, index) {
        Some(face) => face,
        None => return None,
    };
    let records = face.name_records();
    let names = match usable_names(&records) {
        Some(names) => names,
        None => return None,
    };
    let is_variable = face.is_variable();
    let variation_axes = if is_variable {
        face.variation_axes()
    } else {
        Vec::new()
    };
    let unicode_ranges = unicode_ranges(&face);
    Some(
        Font {
            names,
            italic: face.is_italic(),
            stretch: face.width_code(),
            weight: face.weight_code(),
            glyph_count: face.glyph_count(),
            is_variable,
            variation_axes,
            unicode_ranges,
        },
    )
}

/// The records of all usable faces of `data`, in the order of the faces.
/// Faces that do not parse, or are not usable, are skipped.
pub fn extract_fonts(data: &[u8]) -> (r: Vec<Font>)
    ensures
        r@.len() == usable_indices(data@, font_count(data@) as nat).len(),
        forall|k: int|
            0 <= k < r@.len() ==> font_matches(
                #[trigger] r@[k],
                data@,
                usable_indices(data@, font_count(data@) as nat)[k],
            ),
{
    let count: u32 = match fonts_in_collection(data) {
        Some(n) => n,
        None => 1,
    };
    let mut fonts: Vec<Font> = Vec::new();
    let mut i: u32 = 0;
    while i < count
        invariant
            i <= count,
            count == font_count(data@),
            fonts@.len() == usable_indices(data@, i as nat).len(),
            forall|k: int|
                0 <= k < fonts@.len() ==> font_matches(
                    #[trigger] fonts@[k],
                    data@,
                    usable_indices(data@, i as nat)[k],
                ),
        decreases count - i,
    {
        let ghost before = usable_indices(data@, i as nat);
        assert(((i + 1) as nat - 1) as nat == i as nat);
        match font_at(data, i) {
            Some(f) => {
                fonts.push(f);
                assert(usable_indices(data@, (i + 1) as nat) == before.push(i));
            },
            None => {
                assert(usable_indices(data@, (i + 1) as nat) == before);
            },
        }
        i += 1;
    }
    fonts
}

/// What a call hands back: the single record where exactly one usable font
/// was found, and otherwise the list of all records, which may be empty.
#[derive(Debug)]
pub enum Metadata {
    Single(Font),
    Many(Vec<Font>),
}

/// Unwraps a list of exactly one record; any other list stays a list.
pub fn shape_output(fonts: Vec<Font>) -> (r: Metadata)
    ensures
        r is Single <==> fonts@.len() == 1,
        r matches Metadata::Single(f) ==> f == fonts@[0],
        r matches Metadata::Many(v) ==> v@ == fonts@,
{
    if fonts.len() == 1 {
        let mut fonts = fonts;
        match fonts.pop() {
            Some(f) => Metadata::Single(f),
            None => Metadata::Many(fonts),
        }
    } else {
        Metadata::Many(fonts)
    }
}

/// The metadata of the usable fonts of a font file or collection: the single
/// record where exactly one face gives a font, else the records of all such
/// faces in file order.
pub fn metadata(data: &[u8]) -> (r: Metadata)
    ensures
        ({
            let idx = usable_indices(data@, font_count(data@) as nat);
            &&& (r is Single <==> idx.len() == 1)
            &&& (r matches Metadata::Single(f) ==> font_matches(f, data@, idx[0]))
            &&& (r matches Metadata::Many(v) ==> {
                &&& v@.len() == idx.len()
                &&& forall|k: int| 0 <= k < v@.len() ==> font_matches(#[trigger] v@[k], data@, idx[k])
            })
        }),
{
    let fonts = extract_fonts(data);
    shape_output(fonts)
}

/// The faces that give records are exactly the usable ones below the count,
/// listed once each in ascending order.
pub proof fn lemma_usable_indices(data: Seq<u8>, n: nat)
    requires
        n <= u32::MAX + 1,
    ensures
        forall|k: int|
            0 <= k < usable_indices(data, n).len() ==> #[trigger] usable_indices(data, n)[k] < n
                && font_exists(data, usable_indices(data, n)[k]),
        forall|k: int, l: int|
            0 <= k < l < usable_indices(data, n).len() ==> #[trigger] usable_indices(data, n)[k]
                < #[trigger] usable_indices(data, n)[l],
        forall|i: u32| i < n && #[trigger] font_exists(data, i) ==> usable_indices(data, n).contains(i),
    decreases n,
{
    if n > 0 {
        let m = (n - 1) as nat;
        lemma_usable_indices(data, m);
        let s = usable_indices(data, m);
        assert forall|i: u32| i < n && #[trigger] font_exists(data, i) implies usable_indices(
            data,
            n,
        ).contains(i) by {
            if i < m {
                let k = choose|k: int| 0 <= k < s.len() && s[k] == i;
                if font_exists(data, m as u32) {
                    assert(usable_indices(data, n)[k] == i);
                }
            } else {
                assert(usable_indices(data, n)[s.len() as int] == i);
            }
        }
    }
}

/// A face with no Unicode name record gives no record, and has no place in
/// the output.
pub proof fn lemma_no_unicode_name_excluded(data: Seq<u8>, index: u32)
    requires
        forall|i: int|
            0 <= i < name_records_of(data, index).len() ==> !(#[trigger] name_records_of(
                data,
                index,
            )[i]).1,
    ensures
        !font_exists(data, index),
        !usable_indices(data, font_count(data) as nat).contains(index),
{
    lemma_no_unicode_record_no_name(name_records_of(data, index));
    lemma_usable_indices(data, font_count(data) as nat);
}

/// A face whose one Unicode family record reads `false` gives no record,
/// whatever other names it has, and has no place in the output.
pub proof fn lemma_false_family_excluded(data: Seq<u8>, index: u32, j: int)
    requires
        0 <= j < name_records_of(data, index).len(),
        name_records_of(data, index)[j] == (FAMILY_NAME_ID, true, Some(seq!['f', 'a', 'l', 's', 'e'])),
        forall|i: int|
            0 <= i < name_records_of(data, index).len() && i != j ==> !((#[trigger] name_records_of(
                data,
                index,
            )[i]).0 == FAMILY_NAME_ID && name_records_of(data, index)[i].1),
    ensures
        !font_exists(data, index),
        !usable_indices(data, font_count(data) as nat).contains(index),
{
    lemma_last_record_wins(name_records_of(data, index), FAMILY_NAME_ID, j);
    lemma_usable_indices(data, font_count(data) as nat);
}

/// The ranges of a font record are separated, and each code point of the
/// Basic Multilingual Plane lies in exactly one of them if the face covers it,
/// and in none otherwise.
pub proof fn lemma_font_ranges_exact(f: Font, data: Seq<u8>, index: u32, cp: u32)
    requires
        font_matches(f, data, index),
        cp <= BMP_END,
    ensures
        separated(ranges_view(f.unicode_ranges@)),
        covers(data, index, cp) <==> in_some_range(ranges_view(f.unicode_ranges@), cp as int),
        forall|i: int, j: int|
            in_range(ranges_view(f.unicode_ranges@), i, cp as int) && in_range(
                ranges_view(f.unicode_ranges@),
                j,
                cp as int,
            ) ==> i == j,
{
    let c = bmp_coverage(data, index);
    lemma_runs_separated(c);
    lemma_runs_cover_exactly(c, cp as int);
    assert(c[cp as int] == covers(data, index, cp));
}

} // verus!
