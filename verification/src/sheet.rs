//! A sheet that shows a list of symbols as glyphs, one symbol to a row.

use vstd::prelude::*;
use std::collections::HashSet;
use vstd::string::StringExecFns;
use crate::collect::{add_unseen, gathered, ordered, sort_symbols};
use crate::decimal::{signed_decimal, signed_decimal_string};
use crate::encode::{
    body_side, encode_symbol, frame_side, glyph_of, lemma_frame_side_bound,
    lemma_frame_side_is_least,
};
use crate::glyph::{Glyph, GlyphType, Symbol};
use crate::grid::{pixels, rectangular, Image, SET};
use crate::svg::{
    annotation_markup, closing, color_of, label_of, opening, pixel_color, pixel_markup,
    value_to_svg_color, Svg, ZOOM,
};
use crate::symbols::{command_symbols, known_symbols, symbol_models, SymbolTable};

verus! {

/// The dark squares of column `x` above row `y_end`.
pub open spec fn backdrop_column(x: int, y_end: int) -> Seq<char>
    decreases y_end,
{
    if y_end <= 0 {
        Seq::empty()
    } else {
        backdrop_column(x, y_end - 1) + pixel_markup(x, y_end - 1, pixel_color(0))
    }
}

/// The dark squares of the columns left of `x_end`, each of `height` rows.
pub open spec fn backdrop(x_end: int, height: int) -> Seq<char>
    decreases x_end,
{
    if x_end <= 0 {
        Seq::empty()
    } else {
        backdrop(x_end - 1, height) + backdrop_column(x_end - 1, height)
    }
}

/// Draws every pixel of a `width` by `height` drawing dark, column by column.
pub fn draw_backdrop(svg: &mut Svg, width: usize, height: usize)
    requires
        width * ZOOM <= usize::MAX,
        height * ZOOM <= usize::MAX,
    ensures
        final(svg)@ == old(svg)@ + backdrop(width as int, height as int),
{
    let ghost start = svg@;
    let mut x: usize = 0;
    assert(svg@ =~= start + backdrop(0, height as int));
    while x < width
        invariant
            x <= width,
            width * ZOOM <= usize::MAX,
            height * ZOOM <= usize::MAX,
            svg@ == start + backdrop(x as int, height as int),
        decreases width - x,
    {
        let mut y: usize = 0;
        assert(svg@ =~= start + (backdrop(x as int, height as int) + backdrop_column(x as int, 0)));
        while y < height
            invariant
                x < width,
                y <= height,
                width * ZOOM <= usize::MAX,
                height * ZOOM <= usize::MAX,
                svg@ == start + (backdrop(x as int, height as int) + backdrop_column(
                    x as int,
                    y as int,
                )),
            decreases height - y,
        {
            assert(x * ZOOM <= usize::MAX && y * ZOOM <= usize::MAX) by (nonlinear_arith)
                requires
                    x < width,
                    y < height,
                    width * ZOOM <= usize::MAX,
                    height * ZOOM <= usize::MAX,
            ;
            svg.set_pixel(x, y, value_to_svg_color(0));
            assert(svg@ =~= start + (backdrop(x as int, height as int) + backdrop_column(
                x as int,
                y + 1,
            )));
            y += 1;
        }
        x += 1;
    }
}

/// The white squares of the set pixels of column `cx` of `g` above row
/// `y_end`, where the pixel `(0, 0)` of `g` is drawn at `(x0, y0)`.
pub open spec fn picture_column(g: Seq<Seq<u8>>, x0: int, y0: int, cx: int, y_end: int) -> Seq<
    char,
>
    decreases y_end,
{
    if y_end <= 0 {
        Seq::empty()
    } else {
        picture_column(g, x0, y0, cx, y_end - 1) + if g[cx][y_end - 1] == SET {
            pixel_markup(x0 + cx, y0 + y_end - 1, pixel_color(1))
        } else {
            Seq::empty()
        }
    }
}

/// The white squares of the set pixels of the columns of `g` left of `x_end`,
/// each of `height` rows.
pub open spec fn picture(g: Seq<Seq<u8>>, x0: int, y0: int, x_end: int, height: int) -> Seq<char>
    decreases x_end,
{
    if x_end <= 0 {
        Seq::empty()
    } else {
        picture(g, x0, y0, x_end - 1, height) + picture_column(g, x0, y0, x_end - 1, height)
    }
}

/// Draws the set pixels of `image` white, with its pixel `(0, 0)` at
/// `(x0, y0)`, column by column.
pub fn draw_picture(svg: &mut Svg, image: &Image, x0: usize, y0: usize, width: usize, height: usize)
    requires
        rectangular(pixels(*image), width as int, height as int),
        (x0 + width) * ZOOM <= usize::MAX,
        (y0 + height) * ZOOM <= usize::MAX,
    ensures
        final(svg)@ == old(svg)@ + picture(
            pixels(*image),
            x0 as int,
            y0 as int,
            width as int,
            height as int,
        ),
{
    let ghost start = svg@;
    let ghost g = pixels(*image);
    let mut dx: usize = 0;
    assert(svg@ =~= start + picture(g, x0 as int, y0 as int, 0, height as int));
    while dx < width
        invariant
            dx <= width,
            g == pixels(*image),
            rectangular(g, width as int, height as int),
            (x0 + width) * ZOOM <= usize::MAX,
            (y0 + height) * ZOOM <= usize::MAX,
            svg@ == start + picture(g, x0 as int, y0 as int, dx as int, height as int),
        decreases width - dx,
    {
        let mut dy: usize = 0;
        assert(svg@ =~= start + (picture(g, x0 as int, y0 as int, dx as int, height as int)
            + picture_column(g, x0 as int, y0 as int, dx as int, 0)));
        while dy < height
            invariant
                dx < width,
                dy <= height,
                g == pixels(*image),
                rectangular(g, width as int, height as int),
                (x0 + width) * ZOOM <= usize::MAX,
                (y0 + height) * ZOOM <= usize::MAX,
                svg@ == start + (picture(g, x0 as int, y0 as int, dx as int, height as int)
                    + picture_column(g, x0 as int, y0 as int, dx as int, dy as int)),
            decreases height - dy,
        {
            assert((x0 + dx) * ZOOM <= usize::MAX && (y0 + dy) * ZOOM <= usize::MAX) by (nonlinear_arith)
                requires
                    dx < width,
                    dy < height,
                    (x0 + width) * ZOOM <= usize::MAX,
                    (y0 + height) * ZOOM <= usize::MAX,
            ;
            assert(g[dx as int].len() == height);
            if image[dx][dy] == SET {
                svg.set_pixel(x0 + dx, y0 + dy, value_to_svg_color(1));
            }
            assert(svg@ =~= start + (picture(g, x0 as int, y0 as int, dx as int, height as int)
                + picture_column(g, x0 as int, y0 as int, dx as int, dy + 1)));
            dy += 1;
        }
        dx += 1;
    }
}

/// The side of the picture of the glyph of `code`.
pub open spec fn picture_side(code: int) -> int {
    frame_side(code) as int + 1
}

/// The side of the largest picture among the first `n` symbols.
pub open spec fn widest(symbols: Seq<(int, Glyph)>, n: int) -> int
    decreases n,
{
    if n <= 0 {
        0
    } else if picture_side(symbols[n - 1].0) > widest(symbols, n - 1) {
        picture_side(symbols[n - 1].0)
    } else {
        widest(symbols, n - 1)
    }
}

/// The row in which the picture of symbol `n` begins: two rows are left free at
/// the top and four below every picture.
pub open spec fn row_top(symbols: Seq<(int, Glyph)>, n: int) -> int
    decreases n,
{
    if n <= 0 {
        2
    } else {
        row_top(symbols, n - 1) + picture_side(symbols[n - 1].0) + 4
    }
}

/// The kind as which a symbol is shown: a variable as such, anything else as a
/// command.
pub open spec fn shown_kind(glyph: Glyph) -> GlyphType {
    match glyph {
        Glyph::Variable(_) => GlyphType::Variable,
        _ => GlyphType::Command,
    }
}

/// One of the four showings of a symbol, with the picture's corner at
/// `(x0, y0)`: the bare picture, the picture under its code, the picture under
/// its label, and for a variable the picture with the embedded number marked.
pub open spec fn panel(
    names: Seq<(int, Seq<char>)>,
    symbol: (int, Glyph),
    x0: int,
    y0: int,
    repeat: int,
) -> Seq<char> {
    let side = picture_side(symbol.0);
    let drawn = picture(glyph_of(symbol.0), x0, y0, side, side);
    if repeat == 1 {
        drawn + annotation_markup(x0, y0, side, side, signed_decimal(symbol.0), "yellow"@)
    } else if repeat == 2 {
        drawn + annotation_markup(
            x0,
            y0,
            side,
            side,
            label_of(names, symbol.1),
            color_of(shown_kind(symbol.1)),
        )
    } else if repeat == 3 {
        match symbol.1 {
            Glyph::Variable(value) => drawn + annotation_markup(
                x0 + 1,
                y0 + 1,
                side - 2,
                side - 2,
                "!"@ + signed_decimal(value as int),
                "green"@,
            ),
            _ => Seq::empty(),
        }
    } else {
        drawn
    }
}

/// The first `repeats` showings of a symbol in the row that begins at `y0`,
/// side by side in columns of width `column`.
pub open spec fn panels(
    names: Seq<(int, Seq<char>)>,
    symbol: (int, Glyph),
    column: int,
    y0: int,
    repeats: int,
) -> Seq<char>
    decreases repeats,
{
    if repeats <= 0 {
        Seq::empty()
    } else {
        panels(names, symbol, column, y0, repeats - 1) + panel(
            names,
            symbol,
            2 + column * (repeats - 1),
            y0,
            repeats - 1,
        )
    }
}

/// The rows of the first `n` symbols.
pub open spec fn entries(
    names: Seq<(int, Seq<char>)>,
    symbols: Seq<(int, Glyph)>,
    column: int,
    n: int,
) -> Seq<char>
    decreases n,
{
    if n <= 0 {
        Seq::empty()
    } else {
        entries(names, symbols, column, n - 1) + panels(
            names,
            symbols[n - 1],
            column,
            row_top(symbols, n - 1),
            4,
        )
    }
}

/// The width of the sheet of `symbols`, in pixels.
pub open spec fn sheet_width(symbols: Seq<(int, Glyph)>) -> int {
    4 * (widest(symbols, symbols.len() as int) + 4)
}

/// The height of the sheet of `symbols`, in pixels.
pub open spec fn sheet_height(symbols: Seq<(int, Glyph)>) -> int {
    row_top(symbols, symbols.len() as int)
}

/// The sheet of `symbols`: a dark drawing with one row for every symbol, which
/// shows the glyph of the symbol's code four times.
pub open spec fn sheet(names: Seq<(int, Seq<char>)>, symbols: Seq<(int, Glyph)>) -> Seq<char> {
    opening(sheet_width(symbols), sheet_height(symbols)) + backdrop(
        sheet_width(symbols),
        sheet_height(symbols),
    ) + entries(names, symbols, widest(symbols, symbols.len() as int) + 4, symbols.len() as int)
        + closing()
}

/// Every code of `symbols` has a glyph: none is negative.
pub open spec fn codes_drawable(symbols: Seq<(int, Glyph)>) -> bool {
    forall|i: int| 0 <= i < symbols.len() ==> (#[trigger] symbols[i]).0 >= 0
}

proof fn lemma_row_top_grows(symbols: Seq<(int, Glyph)>, i: int, n: int)
    requires
        0 <= i <= n,
    ensures
        2 <= row_top(symbols, i) <= row_top(symbols, n),
    decreases n,
{
    if i < n {
        lemma_row_top_grows(symbols, i, n - 1);
    } else if n > 0 {
        lemma_row_top_grows(symbols, n - 1, n - 1);
    }
}

/// Draws one showing of `symbol`, whose picture is `image`, with the picture's
/// corner at `(x0, y0)`.
fn draw_panel(
    svg: &mut Svg,
    table: &SymbolTable,
    symbol: Symbol,
    image: &Image,
    x0: usize,
    y0: usize,
    repeat: usize,
)
    requires
        symbol.0 >= 0,
        pixels(*image) == glyph_of(symbol.0 as int),
        image.len() == picture_side(symbol.0 as int),
        picture_side(symbol.0 as int) <= 13,
        1 <= x0 <= 64,
        1 <= y0,
        ZOOM * (y0 + picture_side(symbol.0 as int) + 4) <= usize::MAX,
    ensures
        final(svg)@ == old(svg)@ + panel(
            table@,
            (symbol.0 as int, symbol.1),
            x0 as int,
            y0 as int,
            repeat as int,
        ),
{
    let ghost start = svg@;
    let ghost model = (symbol.0 as int, symbol.1);
    let side = image.len();
    let glyph = symbol.1;
    proof {
        lemma_frame_side_is_least(symbol.0 as int);
        assert(rectangular(pixels(*image), side as int, side as int));
    }
    let is_variable = match glyph {
        Glyph::Variable(_) => true,
        _ => false,
    };
    if repeat == 3 && !is_variable {
        assert(svg@ =~= start + panel(table@, model, x0 as int, y0 as int, repeat as int));
        return ;
    }
    let glyph_type = if is_variable {
        GlyphType::Variable
    } else {
        GlyphType::Command
    };
    draw_picture(svg, image, x0, y0, side, side);
    if repeat == 1 {
        let text = signed_decimal_string(symbol.0);
        svg.add_raw_annotation(
            x0,
            y0,
            side,
            side,
            &text,
            &String::from_str("yellow"),
            GlyphType::Command,
        );
    }
    if repeat == 2 {
        svg.add_annotation(table, x0, y0, side, side, symbol.0, glyph_type, glyph);
    }
    if repeat == 3 {
        match glyph {
            Glyph::Variable(value) => {
                let mut text = String::from_str("!");
                text.append(signed_decimal_string(value).as_str());
                svg.add_raw_annotation(
                    x0 + 1,
                    y0 + 1,
                    side - 2,
                    side - 2,
                    &text,
                    &String::from_str("green"),
                    GlyphType::Integer,
                );
            },
            _ => {},
        }
    }
    assert(svg@ =~= start + panel(table@, model, x0 as int, y0 as int, repeat as int));
}

/// Draws the sheet of `symbols`: for every symbol a row with the glyph of its
/// code, bare, under the code, under the symbol's label, and for a variable
/// with the embedded number marked.
pub fn show_symbols(symbols: &Vec<Symbol>, table: &SymbolTable) -> (svg: Svg)
    requires
        codes_drawable(symbol_models(symbols@)),
        ZOOM * sheet_height(symbol_models(symbols@)) <= usize::MAX,
    ensures
        svg@ == sheet(table@, symbol_models(symbols@)),
{
    let ghost models = symbol_models(symbols@);
    let ghost n = symbols@.len() as int;
    let mut images: Vec<Image> = Vec::new();
    let mut max_dx: usize = 0;
    let offset: usize = 2;
    let mut total_dy: usize = offset;
    let mut index: usize = 0;
    while index < symbols.len()
        invariant
            index <= symbols@.len(),
            n == symbols@.len(),
            models == symbol_models(symbols@),
            codes_drawable(models),
            ZOOM * row_top(models, n) <= usize::MAX,
            images@.len() == index,
            forall|k: int|
                0 <= k < index ==> {
                    &&& pixels(#[trigger] images@[k]) == glyph_of(models[k].0)
                    &&& images@[k].len() == picture_side(models[k].0)
                    &&& picture_side(models[k].0) <= 13
                },
            max_dx == widest(models, index as int),
            max_dx <= 13,
            total_dy == row_top(models, index as int),
        decreases symbols@.len() - index,
    {
        proof {
            lemma_row_top_grows(models, index + 1, n);
            assert(models[index as int].0 >= 0);
        }
        let image = encode_symbol(symbols[index].0);
        if image.len() > max_dx {
            max_dx = image.len();
        }
        total_dy += image.len() + 4;
        let ghost earlier = images@;
        images.push(image);
        assert forall|k: int| 0 <= k < index + 1 implies {
            &&& pixels(#[trigger] images@[k]) == glyph_of(models[k].0)
            &&& images@[k].len() == picture_side(models[k].0)
            &&& picture_side(models[k].0) <= 13
        } by {
            if k < index {
                assert(images@[k] == earlier[k]);
            }
        }
        index += 1;
    }
    let svg_width: usize = 4 * (max_dx + 4);
    let svg_height: usize = total_dy;
    let mut svg = Svg::new(svg_width, svg_height);
    draw_backdrop(&mut svg, svg_width, svg_height);
    let ghost head = opening(sheet_width(models), sheet_height(models)) + backdrop(
        sheet_width(models),
        sheet_height(models),
    );
    let ghost column = max_dx + 4;
    let mut y0: usize = offset;
    let mut index: usize = 0;
    assert(svg@ =~= head + entries(table@, models, column, 0));
    while index < images.len()
        invariant
            index <= n,
            n == symbols@.len(),
            n == images@.len(),
            models == symbol_models(symbols@),
            codes_drawable(models),
            ZOOM * row_top(models, n) <= usize::MAX,
            forall|k: int|
                0 <= k < n ==> {
                    &&& pixels(#[trigger] images@[k]) == glyph_of(models[k].0)
                    &&& images@[k].len() == picture_side(models[k].0)
                    &&& picture_side(models[k].0) <= 13
                },
            max_dx <= 13,
            offset == 2,
            column == max_dx + 4,
            y0 == row_top(models, index as int),
            svg@ == head + entries(table@, models, column, index as int),
        decreases n - index,
    {
        let image = &images[index];
        let symbol = symbols[index];
        proof {
            lemma_row_top_grows(models, index + 1, n);
            lemma_row_top_grows(models, index as int, index as int);
            assert(models[index as int].0 >= 0);
            assert(ZOOM * (y0 + picture_side(symbol.0 as int) + 4) <= usize::MAX) by (nonlinear_arith)
                requires
                    y0 + picture_side(symbol.0 as int) + 4 == row_top(models, index + 1),
                    row_top(models, index + 1) <= row_top(models, n),
                    ZOOM * row_top(models, n) <= usize::MAX,
            ;
        }
        let mut repeat: usize = 0;
        let ghost done = head + entries(table@, models, column, index as int);
        assert(svg@ =~= done + panels(table@, models[index as int], column, y0 as int, 0));
        while repeat < 4
            invariant
                repeat <= 4,
                index < n,
                n == symbols@.len(),
                models == symbol_models(symbols@),
                symbol == symbols@[index as int],
                symbol.0 >= 0,
                pixels(*image) == glyph_of(symbol.0 as int),
                image.len() == picture_side(symbol.0 as int),
                picture_side(symbol.0 as int) <= 13,
                max_dx <= 13,
                offset == 2,
                column == max_dx + 4,
                2 <= y0,
                ZOOM * (y0 + picture_side(symbol.0 as int) + 4) <= usize::MAX,
                svg@ == done + panels(
                    table@,
                    models[index as int],
                    column,
                    y0 as int,
                    repeat as int,
                ),
            decreases 4 - repeat,
        {
            assert((max_dx + 4) * repeat <= 51) by (nonlinear_arith)
                requires
                    max_dx <= 13,
                    repeat <= 3,
            ;
            let x0: usize = offset + (max_dx + 4) * repeat;
            assert(column * repeat == (max_dx + 4) * repeat);
            draw_panel(&mut svg, table, symbol, image, x0, y0, repeat);
            assert(svg@ =~= done + panels(
                table@,
                models[index as int],
                column,
                y0 as int,
                repeat + 1,
            ));
            repeat += 1;
        }
        assert(svg@ =~= head + entries(table@, models, column, index + 1));
        y0 += image.len() + 4;
        index += 1;
    }
    svg.close();
    svg
}

/// The sheet of `symbols` can be drawn: no code is negative, and the sheet's
/// height in the drawing's units fits the machine's numbers.
pub open spec fn sheet_drawable(symbols: Seq<(int, Glyph)>) -> bool {
    codes_drawable(symbols) && ZOOM * sheet_height(symbols) <= usize::MAX
}

/// Tests whether the sheet of `symbols` can be drawn.
pub fn sheet_fits(symbols: &Vec<Symbol>) -> (fits: bool)
    ensures
        fits == sheet_drawable(symbol_models(symbols@)),
{
    let ghost models = symbol_models(symbols@);
    let ghost n = symbols@.len() as int;
    let limit: usize = usize::MAX / ZOOM;
    let mut top: usize = 2;
    let mut index: usize = 0;
    while index < symbols.len()
        invariant
            index <= n,
            n == symbols@.len(),
            models == symbol_models(symbols@),
            limit == usize::MAX / ZOOM,
            forall|k: int| 0 <= k < index ==> (#[trigger] models[k]).0 >= 0,
            top == row_top(models, index as int),
            top <= limit,
        decreases n - index,
    {
        if symbols[index].0 < 0 {
            assert(models[index as int].0 < 0);
            return false;
        }
        let side: usize = body_side(symbols[index].0) + 1;
        if limit - top < side + 4 {
            proof {
                lemma_row_top_grows(models, index + 1, n);
            }
            return false;
        }
        top += side + 4;
        index += 1;
    }
    true
}

/// Draws the sheet of the known commands.
pub fn show_all_symbols_from_dict() -> (svg: Svg)
    ensures
        svg@ == sheet(known_symbols(), command_symbols(known_symbols())),
{
    let table = SymbolTable::standard();
    let symbols = table.symbols();
    let ghost models = symbol_models(symbols@);
    proof {
        vstd::arithmetic::power2::lemma2_to64();
        assert forall|i: int| 0 <= i <= 10 implies row_top(models, i) <= 2 + 8 * i by {
            lemma_short_rows(models, i);
        }
    }
    show_symbols(&symbols, &table)
}

proof fn lemma_short_rows(symbols: Seq<(int, Glyph)>, n: int)
    requires
        0 <= n <= symbols.len(),
        forall|i: int| 0 <= i < symbols.len() ==> 0 <= (#[trigger] symbols[i]).0 < 512,
    ensures
        row_top(symbols, n) <= 2 + 8 * n,
    decreases n,
{
    if n > 0 {
        lemma_short_rows(symbols, n - 1);
        vstd::arithmetic::power2::lemma2_to64();
        lemma_frame_side_bound(symbols[n - 1].0, 3);
    }
}

/// The symbol lists of several scans as sequences.
pub open spec fn symbol_lists(lists: Seq<Vec<Symbol>>) -> Seq<Seq<Symbol>> {
    Seq::new(lists.len(), |i: int| lists[i]@)
}

/// The codes seen and the symbols kept after the first `n` lists were gone
/// through, one after the other.
pub open spec fn gathered_all(lists: Seq<Seq<Symbol>>, n: int) -> (Set<i128>, Seq<Symbol>)
    decreases n,
{
    if n <= 0 {
        (Set::empty(), Seq::empty())
    } else {
        let before = gathered_all(lists, n - 1);
        gathered(before.0, before.1, lists[n - 1])
    }
}

/// The symbols that the sheet of several scans shows: the first symbol of every
/// code, in order.
pub open spec fn shown_symbols(lists: Seq<Seq<Symbol>>) -> Seq<(int, Glyph)> {
    symbol_models(ordered(gathered_all(lists, lists.len() as int).1))
}

/// Draws the sheet of the symbols of several scans: of every code the first
/// symbol, all put in order. There is no sheet if it cannot be drawn.
pub fn show_all_symbols(lists: &Vec<Vec<Symbol>>, table: &SymbolTable) -> (svg: Option<Svg>)
    ensures
        svg is Some <==> sheet_drawable(shown_symbols(symbol_lists(lists@))),
        svg is Some ==> svg->0@ == sheet(table@, shown_symbols(symbol_lists(lists@))),
{
    let ghost all = symbol_lists(lists@);
    let mut unique: HashSet<i128> = HashSet::new();
    let mut all_symbols: Vec<Symbol> = Vec::new();
    let mut i: usize = 0;
    while i < lists.len()
        invariant
            i <= lists@.len(),
            all == symbol_lists(lists@),
            (unique@, all_symbols@) == gathered_all(all, i as int),
        decreases lists@.len() - i,
    {
        add_unseen(&mut unique, &mut all_symbols, &lists[i]);
        i += 1;
    }
    let sorted = sort_symbols(&all_symbols);
    if sheet_fits(&sorted) {
        Some(show_symbols(&sorted, table))
    } else {
        None
    }
}

} // verus!
