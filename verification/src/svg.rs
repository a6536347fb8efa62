//! The text of a drawing: pixels as small squares, glyphs as labelled boxes.

use vstd::prelude::*;
use vstd::string::StringExecFns;
use crate::decimal::{decimal, decimal_string, signed_decimal, signed_decimal_string};
use crate::glyph::{Glyph, GlyphType};
use crate::symbols::{name_in, SymbolTable};

verus! {

/// The side of the square that a pixel takes in a drawing.
pub const ZOOM: usize = 8;

/// How far the box of a glyph reaches beyond its pixels.
pub const SHIFT: usize = 3;

/// The opening of a drawing of `width` by `height` pixels, with its black
/// background.
pub open spec fn opening(width: int, height: int) -> Seq<char> {
    "<svg xmlns='http://www.w3.org/2000/svg' version='1.1' width='"@ + decimal(width * ZOOM)
        + "' height='"@ + decimal(height * ZOOM) + "'>\n"@
        + "<rect width='100%' height='100%' style='fill:black'/>\n"@
}

/// The end of a drawing.
pub open spec fn closing() -> Seq<char> {
    "</svg>"@
}

/// The square of the pixel `(x, y)` in the colour `color`.
pub open spec fn pixel_markup(x: int, y: int, color: Seq<char>) -> Seq<char> {
    "<rect x='"@ + decimal(x * ZOOM) + "' y='"@ + decimal(y * ZOOM)
        + "' width='7' height='7' style='fill:"@ + color + "'/>\n"@
}

/// The half transparent box over the `dx` by `dy` pixels at `(x, y)`, and the
/// label `text` in its middle.
pub open spec fn annotation_markup(
    x: int,
    y: int,
    dx: int,
    dy: int,
    text: Seq<char>,
    color: Seq<char>,
) -> Seq<char> {
    "<rect x='"@ + decimal(x * ZOOM - SHIFT) + "' y='"@ + decimal(y * ZOOM - SHIFT) + "' width='"@ + decimal(dx * ZOOM + 2 * SHIFT) + "' height='"@ + decimal(
        dy * ZOOM + 2 * SHIFT,
    ) + "' style='fill:"@ + color + ";opacity:0.5'/>\n"@ + "<text x='"@ + decimal(
        ZOOM * x + ZOOM * dx / 2,
    ) + "' y='"@ + decimal(ZOOM * y + ZOOM * dy / 2)
        + "' dominant-baseline='middle' text-anchor='middle' fill='white' style='paint-order: stroke; fill: white; stroke: black; stroke-width: 2px; font: 18px bold sans;'>"@
        + text + "</text>\n"@
}

/// The box at `(x, y)` of `dx` by `dy` pixels can be drawn: it does not begin
/// in the first column or row, and its coordinates fit the machine's numbers.
pub open spec fn drawable(x: int, y: int, dx: int, dy: int) -> bool {
    &&& 1 <= x
    &&& 1 <= y
    &&& 0 <= dx
    &&& 0 <= dy
    &&& ZOOM * x + ZOOM * dx + 2 * SHIFT <= usize::MAX
    &&& ZOOM * y + ZOOM * dy + 2 * SHIFT <= usize::MAX
}

/// The colour in which a kind of glyph is boxed.
pub open spec fn color_of(glyph_type: GlyphType) -> Seq<char> {
    match glyph_type {
        GlyphType::Integer => "green"@,
        GlyphType::Command => "yellow"@,
        GlyphType::Variable => "blue"@,
    }
}

/// The colour of a pixel: dark grey for a clear one, white for a set one.
pub open spec fn pixel_color(value: u8) -> Seq<char> {
    if value == 0 {
        "#333333"@
    } else {
        "white"@
    }
}

/// The label of a glyph: a number as it is, a variable as `x` and its index, a
/// command by its name in `names`, or by its bare code if it has none.
pub open spec fn label_of(names: Seq<(int, Seq<char>)>, glyph: Glyph) -> Seq<char> {
    match glyph {
        Glyph::Integer(value) => signed_decimal(value as int),
        Glyph::Variable(value) => "x"@ + signed_decimal(value as int),
        Glyph::Command(value) => match name_in(names, value as int) {
            Some(name) => if name.len() == 0 {
                signed_decimal(value as int)
            } else {
                name
            },
            None => signed_decimal(value as int),
        },
    }
}

/// The colour of a pixel of value 0 or 1.
pub fn value_to_svg_color(value: u8) -> (color: String)
    requires
        value == 0 || value == 1,
    ensures
        color@ == pixel_color(value),
{
    if value == 0 {
        String::from_str("#333333")
    } else {
        String::from_str("white")
    }
}

/// A drawing in the making: its text so far.
pub struct Svg {
    pub text: String,
}

impl Svg {
    /// The text of the drawing so far.
    pub open spec fn view(&self) -> Seq<char> {
        self.text@
    }

    /// Begins a drawing of `width` by `height` pixels.
    pub fn new(width: usize, height: usize) -> (svg: Svg)
        requires
            width * ZOOM <= usize::MAX,
            height * ZOOM <= usize::MAX,
        ensures
            svg@ == opening(width as int, height as int),
    {
        let mut text = String::from_str(
            "<svg xmlns='http://www.w3.org/2000/svg' version='1.1' width='",
        );
        text.append(decimal_string((width * ZOOM) as u128).as_str());
        text.append("' height='");
        text.append(decimal_string((height * ZOOM) as u128).as_str());
        text.append("'>\n");
        text.append("<rect width='100%' height='100%' style='fill:black'/>\n");
        Svg { text }
    }

    /// Ends the drawing.
    pub fn close(&mut self)
        ensures
            final(self)@ == old(self)@ + closing(),
    {
        self.text.append("</svg>");
    }

    /// Draws the pixel `(x, y)` in the colour `color`.
    pub fn set_pixel(&mut self, x: usize, y: usize, color: String)
        requires
            x * ZOOM <= usize::MAX,
            y * ZOOM <= usize::MAX,
        ensures
            final(self)@ == old(self)@ + pixel_markup(x as int, y as int, color@),
    {
        let mut piece = String::from_str("<rect x='");
        piece.append(decimal_string((x * ZOOM) as u128).as_str());
        piece.append("' y='");
        piece.append(decimal_string((y * ZOOM) as u128).as_str());
        piece.append("' width='7' height='7' style='fill:");
        piece.append(color.as_str());
        piece.append("'/>\n");
        self.text.append(piece.as_str());
    }

    /// The colour in which a kind of glyph is boxed.
    pub fn glyph_to_color(glyph_type: GlyphType) -> (color: String)
        ensures
            color@ == color_of(glyph_type),
    {
        let color = match glyph_type {
            GlyphType::Integer => "green",
            GlyphType::Command => "yellow",
            GlyphType::Variable => "blue",
        };
        String::from_str(color)
    }

    /// Boxes the `dx` by `dy` pixels at `(x, y)` in the colour `color` and
    /// labels them with `text`.
    #[allow(unused_variables)]
    pub fn add_raw_annotation(
        &mut self,
        x: usize,
        y: usize,
        dx: usize,
        dy: usize,
        text: &String,
        color: &String,
        glyph_type: GlyphType,
    )
        requires
            drawable(x as int, y as int, dx as int, dy as int),
        ensures
            final(self)@ == old(self)@ + annotation_markup(
                x as int,
                y as int,
                dx as int,
                dy as int,
                text@,
                color@,
            ),
    {
        let mut piece = String::from_str("<rect x='");
        piece.append(decimal_string((x * ZOOM - SHIFT) as u128).as_str());
        piece.append("' y='");
        piece.append(decimal_string((y * ZOOM - SHIFT) as u128).as_str());
        piece.append("' width='");
        piece.append(decimal_string((dx * ZOOM + 2 * SHIFT) as u128).as_str());
        piece.append("' height='");
        piece.append(decimal_string((dy * ZOOM + 2 * SHIFT) as u128).as_str());
        piece.append("' style='fill:");
        piece.append(color.as_str());
        piece.append(";opacity:0.5'/>\n");
        piece.append("<text x='");
        piece.append(decimal_string((ZOOM * x + ZOOM * dx / 2) as u128).as_str());
        piece.append("' y='");
        piece.append(decimal_string((ZOOM * y + ZOOM * dy / 2) as u128).as_str());
        piece.append(
            "' dominant-baseline='middle' text-anchor='middle' fill='white' style='paint-order: stroke; fill: white; stroke: black; stroke-width: 2px; font: 18px bold sans;'>",
        );
        piece.append(text.as_str());
        piece.append("</text>\n");
        self.text.append(piece.as_str());
    }

    /// The label of a glyph.
    #[allow(unused_variables)]
    pub fn annotation_text(table: &SymbolTable, glyph_type: GlyphType, glyph: Glyph) -> (text:
        String)
        ensures
            text@ == label_of(table@, glyph),
    {
        match glyph {
            Glyph::Integer(value) => signed_decimal_string(value),
            Glyph::Variable(value) => {
                let mut text = String::from_str("x");
                text.append(signed_decimal_string(value).as_str());
                text
            },
            Glyph::Command(value) => {
                match table.lookup(value) {
                    Some(name) => {
                        if name.unicode_len() != 0 {
                            return String::from_str(name);
                        }
                    },
                    None => {},
                }
                signed_decimal_string(value)
            },
        }
    }

    /// Boxes the glyph `glyph` of `dx` by `dy` pixels at `(x, y)` in the colour
    /// of its kind and labels it.
    #[allow(unused_variables)]
    pub fn add_annotation(
        &mut self,
        table: &SymbolTable,
        x: usize,
        y: usize,
        dx: usize,
        dy: usize,
        value: i128,
        glyph_type: GlyphType,
        glyph: Glyph,
    )
        requires
            drawable(x as int, y as int, dx as int, dy as int),
        ensures
            final(self)@ == old(self)@ + annotation_markup(
                x as int,
                y as int,
                dx as int,
                dy as int,
                label_of(table@, glyph),
                color_of(glyph_type),
            ),
    {
        let text = Svg::annotation_text(table, glyph_type, glyph);
        let color = Svg::glyph_to_color(glyph_type);
        self.add_raw_annotation(x, y, dx, dy, &text, &color, glyph_type);
    }
}

} // verus!
