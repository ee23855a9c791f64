//! Access to one font face of a font file, through the ttf-parser crate.
//!
//! Every query on a face depends only on the bytes of the file and the index
//! of the face within it, so what each query returns is named as a function
//! of those two.

use crate::names::{record_view, NameRecord};
use vstd::prelude::*;

verus! {

#[verifier::external_type_specification]
#[verifier::external_body]
pub struct ExFace<'a>(ttf_parser::Face<'a>);

#[verifier::external_type_specification]
#[verifier::external_body]
pub struct ExVariationAxis(ttf_parser::VariationAxis);

/// The big-endian `u32` at `offset` in `data`.
pub open spec fn be_u32_at(data: Seq<u8>, offset: int) -> int {
    data[offset] as int * 0x1000000 + data[offset + 1] as int * 0x10000 + data[offset + 2] as int
        * 0x100 + data[offset + 3] as int
}

/// The number of fonts that a collection declares: a collection starts with
/// the tag `ttcf`, a version, and the count. Anything else is no collection.
pub open spec fn collection_count(data: Seq<u8>) -> Option<u32> {
    if data.len() >= 12 && data[0] == 0x74u8 && data[1] == 0x74u8 && data[2] == 0x63u8 && data[3]
        == 0x66u8 {
        Some(be_u32_at(data, 8) as u32)
    } else {
        None
    }
}

/// The big-endian `u16` at `offset` in `data`.
pub open spec fn be_u16_at(data: Seq<u8>, offset: int) -> int {
    data[offset] as int * 0x100 + data[offset + 1] as int
}

/// The number of tables that face `index` of `data` declares, where it can
/// be read: the `u16` four bytes into the face, which starts at the offset
/// that a collection lists for it, or at the start of a bare font.
pub open spec fn table_count_at(data: Seq<u8>, index: u32) -> Option<u16> {
    match collection_count(data) {
        Some(n) => {
            let pos = 12 + 4 * index as int;
            if index < n && pos + 4 <= data.len() {
                let off = be_u32_at(data, pos);
                if off + 6 <= data.len() {
                    Some(be_u16_at(data, off + 4) as u16)
                } else {
                    None
                }
            } else {
                None
            }
        },
        None => {
            if data.len() >= 6 {
                Some(be_u16_at(data, 4) as u16)
            } else {
                None
            }
        },
    }
}

/// A face is admitted unless it declares the largest table count that its
/// header can hold, which the parser cannot walk.
pub open spec fn face_admitted(data: Seq<u8>, index: u32) -> bool {
    table_count_at(data, index) != Some(0xFFFFu16)
}

/// Reads the big-endian `u16` at `pos`.
fn read_be_u16(data: &[u8], pos: usize) -> (r: u16)
    requires
        pos + 2 <= data@.len(),
    ensures
        r as int == be_u16_at(data@, pos as int),
{
    (data[pos] as u16) * 0x100 + data[pos + 1] as u16
}

/// Reads the big-endian `u32` at `pos`.
fn read_be_u32(data: &[u8], pos: usize) -> (r: u32)
    requires
        pos + 4 <= data@.len(),
    ensures
        r as int == be_u32_at(data@, pos as int),
{
    (data[pos] as u32) * 0x1000000 + (data[pos + 1] as u32) * 0x10000 + (data[pos + 2] as u32)
        * 0x100 + data[pos + 3] as u32
}

/// The number of tables that face `index` of `data` declares, where the
/// bytes hold it.
pub fn declared_table_count(data: &[u8], index: u32) -> (r: Option<u16>)
    ensures
        r == table_count_at(data@, index),
{
    match fonts_in_collection(data) {
        Some(n) => {
            if index >= n {
                return None;
            }
            let pos: u64 = 12 + 4 * (index as u64);
            if pos + 4 > data.len() as u64 {
                return None;
            }
            let off = read_be_u32(data, pos as usize);
            if off as u64 + 6 > data.len() as u64 {
                return None;
            }
            Some(read_be_u16(data, off as usize + 4))
        },
        None => {
            if data.len() >= 6 {
                Some(read_be_u16(data, 4))
            } else {
                None
            }
        },
    }
}

/// Whether face `index` of `data` parses.
pub uninterp spec fn face_parses(data: Seq<u8>, index: u32) -> bool;

/// The name records of face `index` of `data`, in table order.
pub uninterp spec fn name_records_of(data: Seq<u8>, index: u32) -> Seq<(u16, bool, Option<Seq<char>>)>;

/// Whether face `index` of `data` is marked italic.
pub uninterp spec fn italic_of(data: Seq<u8>, index: u32) -> bool;

/// The width class code (1 to 9) of face `index` of `data`.
pub uninterp spec fn width_code_of(data: Seq<u8>, index: u32) -> u16;

/// The weight class code of face `index` of `data`.
pub uninterp spec fn weight_code_of(data: Seq<u8>, index: u32) -> u16;

/// The number of glyphs of face `index` of `data`.
pub uninterp spec fn glyph_count_of(data: Seq<u8>, index: u32) -> u16;

/// Whether face `index` of `data` is a variable font.
pub uninterp spec fn variable_of(data: Seq<u8>, index: u32) -> bool;

/// The number of variation axes that face `index` of `data` declares.
pub uninterp spec fn axis_count_of(data: Seq<u8>, index: u32) -> nat;

/// Whether face `index` of `data` maps code point `cp` to a glyph.
pub uninterp spec fn glyph_found(data: Seq<u8>, index: u32, cp: u32) -> bool;

/// Whether `cp` is a Unicode scalar value.
pub open spec fn is_scalar(cp: u32) -> bool {
    cp < 0xD800 || (0xE000 <= cp && cp <= 0x10FFFF)
}

/// Relies on ttf_parser::fonts_in_collection: the count that a `ttcf`
/// header declares, and `None` for data without that header.
#[verifier::external_body]
pub(crate) fn fonts_in_collection(data: &[u8]) -> (r: Option<u32>)
    ensures
        r == collection_count(data@),
{
    ttf_parser::fonts_in_collection(data)
}

/// One parsed font face, with the file bytes and the index it was parsed from.
pub struct FontFace<'a> {
    data: &'a [u8],
    index: u32,
    face: ttf_parser::Face<'a>,
}

impl<'a> FontFace<'a> {
    /// The bytes of the file that holds the face.
    pub closed spec fn data(&self) -> Seq<u8> {
        self.data@
    }

    /// The index of the face within its file.
    pub closed spec fn index(&self) -> u32 {
        self.index
    }

    /// Relies on ttf_parser::Face::from_slice: parses face `index` of `data`.
    /// A face that declares 65535 tables is left out: walking them overflows
    /// the parser's array index.
    #[verifier::external_body]
    pub(crate) fn parse(data: &'a [u8], index: u32) -> (r: Option<Self>)
        requires
            face_admitted(data@, index),
        ensures
            r is Some <==> face_parses(data@, index),
            r matches Some(f) ==> f.data() == data@ && f.index() == index,
    {
        ttf_parser::Face::from_slice(data, index).ok().map(|face| FontFace { data, index, face })
    }

    /// Relies on ttf_parser::Face::names, with Name::is_unicode and
    /// Name::to_string: the face's name records, decoded from UTF-16 where
    /// the record is Unicode.
    #[verifier::external_body]
    pub(crate) fn name_records(&self) -> (r: Vec<NameRecord>)
        ensures
            r@.map_values(|n: NameRecord| record_view(n)) == name_records_of(self.data(), self.index()),
    {
        self.face.names().into_iter().map(|n| NameRecord {
            name_id: n.name_id,
            is_unicode: n.is_unicode(),
            value: n.to_string(),
        }).collect()
    }

    /// Relies on ttf_parser::Face::is_italic.
    #[verifier::external_body]
    pub(crate) fn is_italic(&self) -> (r: bool)
        ensures
            r == italic_of(self.data(), self.index()),
    {
        self.face.is_italic()
    }

    /// Relies on ttf_parser::Face::width, as its numeric code.
    #[verifier::external_body]
    pub(crate) fn width_code(&self) -> (r: u16)
        ensures
            r == width_code_of(self.data(), self.index()),
            1 <= r <= 9,
    {
        self.face.width().to_number()
    }

    /// Relies on ttf_parser::Face::weight, as its numeric code.
    #[verifier::external_body]
    pub(crate) fn weight_code(&self) -> (r: u16)
        ensures
            r == weight_code_of(self.data(), self.index()),
    {
        self.face.weight().to_number()
    }

    /// Relies on ttf_parser::Face::number_of_glyphs.
    #[verifier::external_body]
    pub(crate) fn glyph_count(&self) -> (r: u16)
        ensures
            r == glyph_count_of(self.data(), self.index()),
    {
        self.face.number_of_glyphs()
    }

    /// Relies on ttf_parser::Face::is_variable.
    #[verifier::external_body]
    pub(crate) fn is_variable(&self) -> (r: bool)
        ensures
            r == variable_of(self.data(), self.index()),
    {
        self.face.is_variable()
    }

    /// Relies on ttf_parser::Face::variation_axes: the declared axes, in
    /// table order. The iterator is stepped exactly as many times as there
    /// are axes, since one step past a full array of 65535 overflows its index.
    #[verifier::external_body]
    pub(crate) fn variation_axes(&self) -> (r: Vec<ttf_parser::VariationAxis>)
        ensures
            r@.len() == axis_count_of(self.data(), self.index()),
    {
        let axes = self.face.variation_axes();
        axes.into_iter().take(usize::from(axes.len())).collect()
    }

    /// Relies on ttf_parser::Face::glyph_index: whether the code point maps
    /// to a glyph.
    #[verifier::external_body]
    pub(crate) fn has_glyph(&self, cp: u32) -> (r: bool)
        requires
            is_scalar(cp),
        ensures
            r == glyph_found(self.data(), self.index(), cp),
    {
        self.face.glyph_index(char::from_u32(cp).unwrap()).is_some()
    }
}

} // verus!
