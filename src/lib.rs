//! Font metadata extraction: naming strings, style attributes, variation axes
//! and the Unicode coverage of each font held in a font file or collection.

pub mod coverage;
pub mod face;
pub mod fonts;
pub mod names;
