//! The facade: a font, a reference character whose advance is the unit of
//! line width, and wrapping of text at a width in font units.
use vstd::prelude::*;
use unicode_segmentation::UnicodeSegmentation;
use crate::engine::{string_seqs, wrap_lines, wrap_text};
use crate::metrics::{GlyphMetrics, advance_in};

verus! {

/// Why a `TextWrapper` could not be made.
#[derive(Debug, PartialEq, Eq)]
pub enum WrapError {
    /// The font data could not be read or parsed; the text gives the cause.
    FontLoad(String),
    /// The reference character is not exactly one grapheme.
    InvalidConfiguration,
    /// The font has no glyph, or a glyph without width, for the reference
    /// character.
    UnsupportedReferenceCharacter,
}

/// The number of extended grapheme clusters in `s`.
pub uninterp spec fn grapheme_count_of(s: Seq<char>) -> nat;

/// Relies on `unicode_segmentation::UnicodeSegmentation::graphemes` with
/// extended clusters, counted: the count depends on the text alone, and an
/// empty text has none.
#[verifier::external_body]
fn grapheme_count(s: &str) -> (r: usize)
    ensures
        r == grapheme_count_of(s@),
        s@.len() == 0 ==> r == 0,
{
    s.graphemes(true).count()
}

/// Checks that `reference` is exactly one grapheme, as a reference
/// character must be; this needs no font.
pub fn check_reference_character(reference: &str) -> (r: Result<(), WrapError>)
    ensures
        r == if grapheme_count_of(reference@) == 1 {
            Ok::<(), WrapError>(())
        } else {
            Err(WrapError::InvalidConfiguration)
        },
{
    if grapheme_count(reference) == 1 {
        Ok(())
    } else {
        Err(WrapError::InvalidConfiguration)
    }
}

/// The base unit that calibrating with `reference` gives: the advance of its
/// first character, where the font has one and it is not zero.
pub open spec fn calibrated(m: Map<char, u16>, reference: Seq<char>) -> Option<u16> {
    if reference.len() == 0 {
        None
    } else {
        match advance_in(m, reference[0]) {
            Some(a) => if a > 0 {
                Some(a)
            } else {
                None
            },
            None => None,
        }
    }
}

/// Measures the reference character: its advance is the unit in which line
/// widths are given. An empty reference is a configuration error; one that
/// the font has no width for is unsupported.
pub fn calibrate<M: GlyphMetrics>(metrics: &M, reference: &str) -> (r: Result<u16, WrapError>)
    ensures
        reference@.len() == 0 ==> r == Err::<u16, WrapError>(WrapError::InvalidConfiguration),
        reference@.len() > 0 ==> r == match calibrated(metrics.advances(), reference@) {
            Some(b) => Ok::<u16, WrapError>(b),
            None => Err(WrapError::UnsupportedReferenceCharacter),
        },
{
    if reference.is_empty() {
        return Err(WrapError::InvalidConfiguration);
    }
    let c = reference.get_char(0);
    match metrics.advance(c) {
        Some(a) => if a > 0 {
            Ok(a)
        } else {
            Err(WrapError::UnsupportedReferenceCharacter)
        },
        None => Err(WrapError::UnsupportedReferenceCharacter),
    }
}

/// Text in the quoted, escaped form that `Debug` gives a string.
pub uninterp spec fn debug_quoted(s: Seq<char>) -> Seq<char>;

/// Relies on `Debug` for `str`: the text in double quotes with escapes; the
/// result depends on the text alone.
#[verifier::external_body]
fn quoted(s: &str) -> (r: String)
    ensures
        r@ == debug_quoted(s@),
{
    format!("{:?}", s)
}

/// Wraps text set in one font. It holds the font's metrics, the reference
/// character and its advance, the base unit, which is never zero. It is
/// never changed after construction, so one value can be shared by readers.
pub struct TextWrapper<M: GlyphMetrics> {
    font_path: String,
    base_character: String,
    metrics: M,
    base_unit: u16,
}

impl<M: GlyphMetrics> TextWrapper<M> {
    #[verifier::type_invariant]
    spec fn inv(self) -> bool {
        self.base_unit > 0
    }

    /// The base unit: the advance of the reference character.
    pub closed spec fn base(self) -> nat {
        self.base_unit as nat
    }

    /// The advances of the font that the text is set in.
    pub closed spec fn advances(self) -> Map<char, u16> {
        self.metrics.advances()
    }

    /// The reference character.
    pub closed spec fn reference(self) -> Seq<char> {
        self.base_character@
    }

    /// Where the font came from; kept for diagnostics only.
    pub closed spec fn path(self) -> Seq<char> {
        self.font_path@
    }

    /// Makes a wrapper for text set in `metrics`, with `base_character` as
    /// the unit of line width. `base_character` must be exactly one
    /// grapheme, and the font must give it a width.
    pub fn new(font_path: String, metrics: M, base_character: String) -> (r: Result<Self, WrapError>)
        ensures
            grapheme_count_of(base_character@) != 1 ==> r == Err::<Self, WrapError>(
                WrapError::InvalidConfiguration,
            ),
            grapheme_count_of(base_character@) == 1 ==> match calibrated(
                metrics.advances(),
                base_character@,
            ) {
                Some(b) => r matches Ok(w) && w.base() == b && w.base() > 0 && w.advances() == metrics.advances()
                    && w.reference() == base_character@ && w.path() == font_path@,
                None => r == Err::<Self, WrapError>(WrapError::UnsupportedReferenceCharacter),
            },
    {
        let n = grapheme_count(base_character.as_str());
        Self::with_grapheme_count(font_path, metrics, base_character, n)
    }

    /// As `new`, given the number of graphemes in `base_character`.
    pub fn with_grapheme_count(
        font_path: String,
        metrics: M,
        base_character: String,
        graphemes: usize,
    ) -> (r: Result<Self, WrapError>)
        ensures
            graphemes != 1 || base_character@.len() == 0 ==> r == Err::<Self, WrapError>(
                WrapError::InvalidConfiguration,
            ),
            graphemes == 1 && base_character@.len() > 0 ==> match calibrated(
                metrics.advances(),
                base_character@,
            ) {
                Some(b) => r matches Ok(w) && w.base() == b && w.base() > 0 && w.advances() == metrics.advances()
                    && w.reference() == base_character@ && w.path() == font_path@,
                None => r == Err::<Self, WrapError>(WrapError::UnsupportedReferenceCharacter),
            },
    {
        if graphemes != 1 {
            return Err(WrapError::InvalidConfiguration);
        }
        match calibrate(&metrics, base_character.as_str()) {
            Ok(base_unit) => Ok(TextWrapper { font_path, base_character, metrics, base_unit }),
            Err(e) => Err(e),
        }
    }

    /// The base unit: the advance of the reference character, in font units.
    pub fn base_unit(&self) -> (r: u16)
        ensures
            r == self.base(),
            r > 0,
    {
        proof {
            use_type_invariant(self);
        }
        self.base_unit
    }

    /// The lines that `text` wraps into at `max_width` font units.
    pub fn wrap(&self, max_width: u32, text: &str) -> (r: Vec<String>)
        ensures
            string_seqs(r@) == wrap_lines(self.advances(), max_width as int, text@),
    {
        wrap_text(&self.metrics, max_width, text)
    }

    /// A description for diagnostics, naming the font's path and the
    /// reference character.
    pub fn describe(&self) -> (r: String)
        ensures
            r@ == "TextWrapper font_path="@ + debug_quoted(self.path()) + " base_character="@
                + debug_quoted(self.reference()),
    {
        let mut r = "TextWrapper font_path=".to_owned();
        r.append(quoted(self.font_path.as_str()).as_str());
        r.append(" base_character=");
        r.append(quoted(self.base_character.as_str()).as_str());
        r
    }
}

} // verus!
