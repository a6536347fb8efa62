//! What a decoded glyph is: its kind, its value and the cells it takes.

use vstd::prelude::*;

verus! {

/// The three kinds of glyph.
#[derive(PartialEq, Eq, Structural, Clone, Copy, Debug)]
pub enum GlyphType {
    /// A bare number: the anchor cell is background.
    Integer,
    /// An operator: the anchor cell is foreground.
    Command,
    /// A variable reference: a closed frame round an embedded number.
    Variable,
}

/// A glyph's kind together with the number it carries: for a variable, its
/// index.
#[derive(PartialEq, Eq, Structural, Clone, Copy, Debug)]
pub enum Glyph {
    Integer(i128),
    Command(i128),
    Variable(i128),
}

/// A program token: the value of a command or a variable, and the glyph.
pub type Token = (i128, Glyph);

/// A glyph to show: the number drawn in its own frame, and the glyph. For a
/// variable that number is not its value.
pub type Symbol = (i128, Glyph);

/// What a glyph is, in mathematical integers.
pub ghost struct GlyphModel {
    /// The side of the frame: how many columns the glyph takes.
    pub dx: int,
    /// How many rows it takes: the frame, and the sign cell's row if that is set.
    pub dy: int,
    /// The value of the glyph: the signed number drawn in its own frame, or
    /// for a variable the value of the glyph embedded in the frame.
    pub value: int,
    /// The kind of the glyph.
    pub kind: GlyphType,
    /// The signed number drawn in the glyph's own frame.
    pub frame_value: int,
    /// The frame is closed, yet no glyph begins inside it.
    pub unresolved: bool,
}

impl Glyph {
    /// The kind of the glyph.
    pub open spec fn kind(&self) -> GlyphType {
        match *self {
            Glyph::Integer(_) => GlyphType::Integer,
            Glyph::Command(_) => GlyphType::Command,
            Glyph::Variable(_) => GlyphType::Variable,
        }
    }

    /// The number the glyph carries.
    pub open spec fn carried(&self) -> int {
        match *self {
            Glyph::Integer(v) => v as int,
            Glyph::Command(v) => v as int,
            Glyph::Variable(v) => v as int,
        }
    }
}

/// The answer of the decoder for one cell.
#[derive(Clone, Copy, Debug)]
pub enum ParseResult {
    /// No glyph begins at the cell.
    NoGlyph,
    /// A glyph begins at the cell.
    GenericGlyph {
        /// Columns taken.
        dx: usize,
        /// Rows taken, the sign cell's row included if it is set.
        dy: usize,
        /// The value of the glyph: the signed number drawn in its own frame,
        /// or for a variable the value of the glyph embedded in the frame.
        value: i128,
        /// The kind of the glyph.
        glyph_type: GlyphType,
        /// The kind and the value again, as one.
        glyph: Glyph,
        /// The signed number drawn in the glyph's own frame.
        frame_value: i128,
        /// The frame is closed, yet no glyph begins inside it: the glyph is
        /// given as a command and the caller should warn.
        unresolved: bool,
    },
}

impl ParseResult {
    /// The answer as an optional glyph model.
    pub open spec fn view(&self) -> Option<GlyphModel> {
        match *self {
            ParseResult::NoGlyph => None,
            ParseResult::GenericGlyph {
                dx,
                dy,
                value,
                glyph_type,
                glyph,
                frame_value,
                unresolved,
            } => Some(
                GlyphModel {
                    dx: dx as int,
                    dy: dy as int,
                    value: value as int,
                    kind: glyph_type,
                    frame_value: frame_value as int,
                    unresolved,
                },
            ),
        }
    }

    /// The field `glyph` holds the kind and the value that the fields
    /// `glyph_type` and `value` give.
    pub open spec fn wf(&self) -> bool {
        match *self {
            ParseResult::NoGlyph => true,
            ParseResult::GenericGlyph { value, glyph_type, glyph, .. } => glyph.kind() == glyph_type
                && glyph.carried() == value,
        }
    }
}

} // verus!
