//! Predicts how text wraps into lines when set in a given font at a given
//! width, from the glyph advance widths of the font.

pub mod engine;
pub mod font;
pub mod lemmas;
pub mod metrics;
pub mod text_wrapper;
pub mod words;

pub use engine::wrap_text;
pub use font::Font;
pub use metrics::{GlyphMetrics, WidthTable};
pub use text_wrapper::{calibrate, check_reference_character, TextWrapper, WrapError};
