//! The drawing of a scanned grid: its pixels, and over them the glyphs found.

use vstd::prelude::*;
use crate::grid::{create_empty_mask, flags, two_coloured, ImageWrapper};
use crate::scan::{models, scan, scan_inside, try_parse_image, PlacedGlyph};
use crate::svg::{
    annotation_markup, closing, color_of, drawable, label_of, opening, pixel_color, pixel_markup,
    value_to_svg_color, Svg, SHIFT, ZOOM,
};
use crate::symbols::SymbolTable;

verus! {

/// The squares of the pixels of row `y` left of column `x_end`.
pub open spec fn pixel_row(g: Seq<Seq<u8>>, y: int, x_end: int) -> Seq<char>
    decreases x_end,
{
    if x_end <= 0 {
        Seq::empty()
    } else {
        pixel_row(g, y, x_end - 1) + pixel_markup(x_end - 1, y, pixel_color(g[x_end - 1][y]))
    }
}

/// The squares of the pixels of the rows above `y_end`, row by row.
pub open spec fn pixel_rows(g: Seq<Seq<u8>>, y_end: int) -> Seq<char>
    decreases y_end,
{
    if y_end <= 0 {
        Seq::empty()
    } else {
        pixel_rows(g, y_end - 1) + pixel_row(g, y_end - 1, g.len() as int)
    }
}

/// Draws every pixel of the grid, row by row.
pub fn draw_pixels(svg: &mut Svg, iw: &ImageWrapper)
    requires
        iw.wf(),
        two_coloured(iw@),
        iw.width * ZOOM <= usize::MAX,
        iw.height * ZOOM <= usize::MAX,
    ensures
        final(svg)@ == old(svg)@ + pixel_rows(iw@, iw.height as int),
{
    let ghost start = svg@;
    let ghost g = iw@;
    let mut y: usize = 0;
    assert(svg@ =~= start + pixel_rows(g, 0));
    while y < iw.height
        invariant
            y <= iw.height,
            iw.wf(),
            g == iw@,
            two_coloured(g),
            iw.width * ZOOM <= usize::MAX,
            iw.height * ZOOM <= usize::MAX,
            svg@ == start + pixel_rows(g, y as int),
        decreases iw.height - y,
    {
        let mut x: usize = 0;
        assert(svg@ =~= start + (pixel_rows(g, y as int) + pixel_row(g, y as int, 0)));
        while x < iw.width
            invariant
                y < iw.height,
                x <= iw.width,
                iw.wf(),
                g == iw@,
                two_coloured(g),
                iw.width * ZOOM <= usize::MAX,
                iw.height * ZOOM <= usize::MAX,
                svg@ == start + (pixel_rows(g, y as int) + pixel_row(g, y as int, x as int)),
            decreases iw.width - x,
        {
            assert(x * ZOOM <= usize::MAX && y * ZOOM <= usize::MAX) by (nonlinear_arith)
                requires
                    x < iw.width,
                    y < iw.height,
                    iw.width * ZOOM <= usize::MAX,
                    iw.height * ZOOM <= usize::MAX,
            ;
            assert(g[x as int].len() == iw.height);
            assert(g[x as int][y as int] == 0 || g[x as int][y as int] == 1);
            let color = value_to_svg_color(iw.image[x][y]);
            svg.set_pixel(x, y, color);
            assert(svg@ =~= start + (pixel_rows(g, y as int) + pixel_row(g, y as int, x + 1)));
            x += 1;
        }
        y += 1;
    }
}

/// The boxes and labels of the first `n` of the glyphs `found`.
pub open spec fn annotations(names: Seq<(int, Seq<char>)>, found: Seq<PlacedGlyph>, n: int) -> Seq<
    char,
>
    decreases n,
{
    if n <= 0 {
        Seq::empty()
    } else {
        annotations(names, found, n - 1) + annotation_markup(
            found[n - 1].x as int,
            found[n - 1].y as int,
            found[n - 1].dx as int,
            found[n - 1].dy as int,
            label_of(names, found[n - 1].glyph),
            color_of(found[n - 1].glyph_type),
        )
    }
}

/// Boxes and labels the glyphs `found`, in their order.
pub fn annotate(svg: &mut Svg, table: &SymbolTable, found: &Vec<PlacedGlyph>)
    requires
        forall|i: int|
            0 <= i < found@.len() ==> drawable(
                (#[trigger] found@[i]).x as int,
                found@[i].y as int,
                found@[i].dx as int,
                found@[i].dy as int,
            ),
    ensures
        final(svg)@ == old(svg)@ + annotations(table@, found@, found@.len() as int),
{
    let ghost start = svg@;
    let mut i: usize = 0;
    assert(svg@ =~= start + annotations(table@, found@, 0));
    while i < found.len()
        invariant
            i <= found@.len(),
            forall|k: int|
                0 <= k < found@.len() ==> drawable(
                    (#[trigger] found@[k]).x as int,
                    found@[k].y as int,
                    found@[k].dx as int,
                    found@[k].dy as int,
                ),
            svg@ == start + annotations(table@, found@, i as int),
        decreases found@.len() - i,
    {
        let placed = found[i];
        svg.add_annotation(
            table,
            placed.x,
            placed.y,
            placed.dx,
            placed.dy,
            placed.value,
            placed.glyph_type,
            placed.glyph,
        );
        assert(svg@ =~= start + annotations(table@, found@, i + 1));
        i += 1;
    }
}

/// The drawing of the grid `g` with the glyphs `found` in it.
pub open spec fn drawing(names: Seq<(int, Seq<char>)>, g: Seq<Seq<u8>>, height: int, found: Seq<
    PlacedGlyph,
>) -> Seq<char> {
    opening(g.len() as int, height) + pixel_rows(g, height) + annotations(
        names,
        found,
        found.len() as int,
    ) + closing()
}

/// A mask of `width` columns and `height` rows with every cell free.
pub open spec fn free_mask(width: int, height: int) -> Seq<Seq<bool>> {
    Seq::new(width as nat, |x: int| Seq::new(height as nat, |y: int| false))
}

/// A scanned grid: the glyphs found in it, and its drawing.
pub struct ParsedPicture {
    pub found: Vec<PlacedGlyph>,
    pub svg: Svg,
}

/// Scans a grid and draws it. The answer holds the glyphs found and the
/// drawing: the pixels of the grid, and over them the box and the label of
/// every glyph. There is no answer if the scan does not stay inside the grid.
pub fn parse_picture(iw: &ImageWrapper, table: &SymbolTable) -> (parsed: Option<ParsedPicture>)
    requires
        iw.wf(),
        two_coloured(iw@),
        ZOOM * iw.width + 2 * SHIFT <= usize::MAX,
        ZOOM * iw.height + 2 * SHIFT <= usize::MAX,
    ensures
        parsed is Some <==> scan_inside(iw@, free_mask(iw.width as int, iw.height as int)),
        parsed is Some ==> {
            &&& models(parsed->0.found@) == scan(
                iw@,
                free_mask(iw.width as int, iw.height as int),
            ).glyphs
            &&& forall|i: int|
                0 <= i < parsed->0.found@.len() ==> (#[trigger] parsed->0.found@[i]).wf()
                    && parsed->0.found@[i].inside(iw.width as int, iw.height as int)
            &&& parsed->0.svg@ == drawing(table@, iw@, iw.height as int, parsed->0.found@)
        },
{
    let mut mask = create_empty_mask(iw.width, iw.height);
    assert(flags(mask) =~~= free_mask(iw.width as int, iw.height as int));
    match try_parse_image(iw, &mut mask) {
        None => None,
        Some(found) => {
            let mut svg = Svg::new(iw.width, iw.height);
            draw_pixels(&mut svg, iw);
            assert forall|i: int| 0 <= i < found@.len() implies drawable(
                (#[trigger] found@[i]).x as int,
                found@[i].y as int,
                found@[i].dx as int,
                found@[i].dy as int,
            ) by {
                assert(found@[i].inside(iw.width as int, iw.height as int));
            }
            annotate(&mut svg, table, &found);
            svg.close();
            Some(ParsedPicture { found, svg })
        },
    }
}

} // verus!
