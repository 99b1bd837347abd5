//! Fonts parsed from TrueType / OpenType data, as a source of glyph advance
//! widths.
use vstd::prelude::*;
use owned_ttf_parser::{AsFaceRef, FaceParsingError, OwnedFace};
use ttf_word_wrap::{Measure, TTFParserMeasure};
use crate::metrics::{GlyphMetrics, advance_in};
use crate::text_wrapper::WrapError;

verus! {

#[verifier::external_type_specification]
#[verifier::external_body]
pub struct ExOwnedFace(OwnedFace);

#[verifier::external_type_specification]
#[verifier::external_body]
pub struct ExFaceParsingError(FaceParsingError);

/// The horizontal advance of each character that a parsed face maps to a
/// glyph with an advance.
pub uninterp spec fn glyph_advances(face: OwnedFace) -> Map<char, u16>;

/// Whether the bytes parse as a font face (the first face of a collection).
pub uninterp spec fn parses_as_font(data: Seq<u8>) -> bool;

/// Relies on `owned_ttf_parser::OwnedFace::from_vec` with face index 0:
/// whether it parses depends on the bytes alone; it reports failure as a
/// `FaceParsingError` rather than panicking.
#[verifier::external_body]
fn parse_face(data: Vec<u8>) -> (r: Result<OwnedFace, FaceParsingError>)
    ensures
        r is Ok <==> parses_as_font(data@),
{
    OwnedFace::from_vec(data, 0)
}

/// Relies on `ttf_word_wrap::TTFParserMeasure::char` over the face: the
/// glyph's horizontal advance, or `None` where the face maps no glyph to `c`
/// or has no advance for it.
#[verifier::external_body]
fn glyph_advance(face: &OwnedFace, c: char) -> (r: Option<u16>)
    ensures
        r == advance_in(glyph_advances(*face), c),
{
    TTFParserMeasure::new(face.as_face_ref()).char(c)
}

/// Relies on the `Display` of `FaceParsingError`: a human-readable cause.
#[verifier::external_body]
fn parse_failure_text(e: &FaceParsingError) -> String {
    e.to_string()
}

/// A parsed font, read-only once loaded.
pub struct Font {
    face: OwnedFace,
}

impl Font {
    /// Parses font data; malformed data gives `WrapError::FontLoad` with
    /// the cause.
    pub fn parse(data: Vec<u8>) -> (r: Result<Font, WrapError>)
        ensures
            r is Ok <==> parses_as_font(data@),
            r is Err ==> r->Err_0 is FontLoad,
    {
        match parse_face(data) {
            Ok(face) => Ok(Font { face }),
            Err(e) => Err(WrapError::FontLoad(parse_failure_text(&e))),
        }
    }
}

impl GlyphMetrics for Font {
    closed spec fn advances(&self) -> Map<char, u16> {
        glyph_advances(self.face)
    }

    fn advance(&self, c: char) -> (r: Option<u16>) {
        glyph_advance(&self.face, c)
    }
}

} // verus!
