//! The scanner: a pass over the grid that decodes every glyph once.

use vstd::prelude::*;
use crate::grid::{flags, rectangular, BooleanGrid, ImageWrapper, SET};
use crate::glyph::{Glyph, GlyphModel, GlyphType, ParseResult, Symbol, Token};
use crate::decode::{
    decodable, decode_at, grows, is_decodable, lemma_extent_is_first_stop, try_parse_symbol,
};

verus! {

/// A glyph and the cell where it begins, in mathematical integers.
pub ghost struct PlacedModel {
    pub x: int,
    pub y: int,
    pub shape: GlyphModel,
}

/// A glyph found by the scanner, and the cell where it begins.
#[derive(Clone, Copy, Debug)]
pub struct PlacedGlyph {
    /// Column of the anchor.
    pub x: usize,
    /// Row of the anchor.
    pub y: usize,
    /// Columns taken.
    pub dx: usize,
    /// Rows taken.
    pub dy: usize,
    /// The value of the glyph: the signed number drawn in its own frame, or
    /// for a variable the value of the glyph embedded in the frame.
    pub value: i128,
    /// The kind of the glyph.
    pub glyph_type: GlyphType,
    /// The kind and the value again, as one.
    pub glyph: Glyph,
    /// The signed number drawn in the glyph's own frame.
    pub frame_value: i128,
    /// The frame is closed, yet no glyph begins inside it.
    pub unresolved: bool,
}

impl PlacedGlyph {
    pub open spec fn view(&self) -> PlacedModel {
        PlacedModel {
            x: self.x as int,
            y: self.y as int,
            shape: GlyphModel {
                dx: self.dx as int,
                dy: self.dy as int,
                value: self.value as int,
                kind: self.glyph_type,
                frame_value: self.frame_value as int,
                unresolved: self.unresolved,
            },
        }
    }

    /// The field `glyph` holds the kind and the value that the fields
    /// `glyph_type` and `value` give.
    pub open spec fn wf(&self) -> bool {
        self.glyph.kind() == self.glyph_type && self.glyph.carried() == self.value
    }

    /// The box of the glyph lies in a grid of `width` by `height` cells, off
    /// its first column and row.
    pub open spec fn inside(&self, width: int, height: int) -> bool {
        &&& 1 <= self.x
        &&& 1 <= self.y
        &&& self.x + self.dx <= width
        &&& self.y + self.dy <= height
    }
}

/// The models of a list of found glyphs.
pub open spec fn models(found: Seq<PlacedGlyph>) -> Seq<PlacedModel> {
    Seq::new(found.len(), |i: int| found[i]@)
}

/// The cell `(cx, cy)` lies in the box of `dx` columns and `dy` rows whose
/// top left cell is `(x, y)`.
pub open spec fn in_box(x: int, y: int, dx: int, dy: int, cx: int, cy: int) -> bool {
    x <= cx < x + dx && y <= cy < y + dy
}

/// The mask with the cells of a box set.
pub open spec fn marked(mask: Seq<Seq<bool>>, x: int, y: int, dx: int, dy: int) -> Seq<
    Seq<bool>,
> {
    Seq::new(
        mask.len(),
        |cx: int| Seq::new(mask[cx].len(), |cy: int| in_box(x, y, dx, dy, cx, cy) || mask[cx][cy]),
    )
}

/// Marking a box a second time changes nothing.
pub proof fn lemma_marking_twice(mask: Seq<Seq<bool>>, x: int, y: int, dx: int, dy: int)
    ensures
        marked(marked(mask, x, y, dx, dy), x, y, dx, dy) == marked(mask, x, y, dx, dy),
{
    assert(marked(marked(mask, x, y, dx, dy), x, y, dx, dy) =~~= marked(mask, x, y, dx, dy));
}

/// Sets the cells of the box of `dx` columns and `dy` rows at `(x, y)`. An
/// empty box may lie anywhere; any other must lie in the mask.
pub fn mark_parsed(parsed: &mut BooleanGrid, x: usize, y: usize, dx: usize, dy: usize)
    requires
        dx > 0 && dy > 0 ==> x + dx <= old(parsed).len(),
        dx > 0 && dy > 0 ==> forall|cx: int|
            x <= cx < x + dx ==> y + dy <= (#[trigger] old(parsed)@[cx]).len(),
    ensures
        flags(*final(parsed)) == marked(
            flags(*old(parsed)),
            x as int,
            y as int,
            dx as int,
            dy as int,
        ),
{
    let ghost before = flags(*parsed);
    let mut cdx: usize = 0;
    while cdx < dx
        invariant
            cdx <= dx,
            dx > 0 && dy > 0 ==> x + dx <= parsed.len(),
            dx > 0 && dy > 0 ==> forall|cx: int|
                x <= cx < x + dx ==> y + dy <= (#[trigger] parsed@[cx]).len(),
            parsed.len() == before.len(),
            forall|cx: int| 0 <= cx < parsed.len() ==> (#[trigger] parsed@[cx]).len() == before[cx].len(),
            forall|cx: int, cy: int|
                0 <= cx < parsed.len() && 0 <= cy < parsed@[cx].len() ==> #[trigger] parsed@[cx]@[cy]
                    == (in_box(x as int, y as int, cdx as int, dy as int, cx, cy) || before[cx][cy]),
        decreases dx - cdx,
    {
        let mut cdy: usize = 0;
        while cdy < dy
            invariant
                cdx < dx,
                cdy <= dy,
                dy > 0 ==> x + dx <= parsed.len(),
                dy > 0 ==> forall|cx: int|
                    x <= cx < x + dx ==> y + dy <= (#[trigger] parsed@[cx]).len(),
                parsed.len() == before.len(),
                forall|cx: int|
                    0 <= cx < parsed.len() ==> (#[trigger] parsed@[cx]).len() == before[cx].len(),
                forall|cx: int, cy: int|
                    0 <= cx < parsed.len() && 0 <= cy < parsed@[cx].len()
                        ==> #[trigger] parsed@[cx]@[cy] == (in_box(
                        x as int,
                        y as int,
                        cdx as int,
                        dy as int,
                        cx,
                        cy,
                    ) || in_box(x + cdx, y as int, 1, cdy as int, cx, cy) || before[cx][cy]),
            decreases dy - cdy,
        {
            let cx: usize = x + cdx;
            assert(y + dy <= parsed@[cx as int].len());
            let cy: usize = y + cdy;
            parsed[cx][cy] = true;
            cdy += 1;
        }
        cdx += 1;
    }
    assert(flags(*parsed) =~~= marked(before, x as int, y as int, dx as int, dy as int));
}

/// What a scan has done so far: the cells taken and the glyphs found, in the
/// order in which they were found.
pub ghost struct ScanState {
    pub mask: Seq<Seq<bool>>,
    pub glyphs: Seq<PlacedModel>,
}

/// The number of rows of a grid.
pub open spec fn rows_of(g: Seq<Seq<u8>>) -> int {
    if g.len() == 0 {
        0
    } else {
        g[0].len() as int
    }
}

/// The scan visits `(x, y)`: every cell but those of the outermost column and
/// row on the near sides and of the two outermost on the far sides.
pub open spec fn interior(g: Seq<Seq<u8>>, x: int, y: int) -> bool {
    1 <= x < g.len() - 2 && 1 <= y < rows_of(g) - 2
}

/// One step of the scan. A taken cell is passed over, and so is a cell where no
/// glyph begins. A glyph that begins at a free cell is noted and its box taken.
pub open spec fn visit(g: Seq<Seq<u8>>, st: ScanState, x: int, y: int) -> ScanState {
    if st.mask[x][y] {
        st
    } else {
        match decode_at(g, x, y, SET) {
            None => st,
            Some(shape) => ScanState {
                mask: marked(st.mask, x, y, shape.dx, shape.dy),
                glyphs: st.glyphs.push(PlacedModel { x, y, shape }),
            },
        }
    }
}

/// The state after the cells of row `y` left of column `x_end` were visited
/// from left to right, starting in state `st`.
pub open spec fn scan_row(g: Seq<Seq<u8>>, st: ScanState, y: int, x_end: int) -> ScanState
    decreases x_end,
{
    if x_end <= 1 {
        st
    } else {
        visit(g, scan_row(g, st, y, x_end - 1), x_end - 1, y)
    }
}

/// The state after the rows above `y_end` were scanned from the top, starting
/// in state `st`.
pub open spec fn scan_rows(g: Seq<Seq<u8>>, st: ScanState, y_end: int) -> ScanState
    decreases y_end,
{
    if y_end <= 1 {
        st
    } else {
        scan_row(g, scan_rows(g, st, y_end - 1), y_end - 1, g.len() - 2)
    }
}

/// The state in which the scan reaches the cell `(x, y)`.
pub open spec fn state_before(g: Seq<Seq<u8>>, mask: Seq<Seq<bool>>, x: int, y: int) -> ScanState {
    scan_row(g, scan_rows(g, ScanState { mask, glyphs: Seq::empty() }, y), y, x)
}

/// The state at the end of a scan of the whole grid that began with `mask`.
pub open spec fn scan(g: Seq<Seq<u8>>, mask: Seq<Seq<bool>>) -> ScanState {
    scan_rows(g, ScanState { mask, glyphs: Seq::empty() }, rows_of(g) - 2)
}

/// When the scan reaches `(x, y)`, the cell is taken or decoding there stays
/// inside the grid.
pub open spec fn visit_inside(g: Seq<Seq<u8>>, mask: Seq<Seq<bool>>, x: int, y: int) -> bool {
    state_before(g, mask, x, y).mask[x][y] || decodable(g, x, y, SET)
}

/// The scan reaches the cell `(ax, ay)` before the cell `(bx, by)`.
pub open spec fn earlier(ax: int, ay: int, bx: int, by: int) -> bool {
    ay < by || (ay == by && ax < bx)
}

/// The scan stops at `(x, y)` with the mask `left`: it stays inside the grid up
/// to that cell, where decoding would leave the grid, and `left` is the mask
/// with which it has come there.
pub open spec fn stops_at(
    g: Seq<Seq<u8>>,
    mask: Seq<Seq<bool>>,
    x: int,
    y: int,
    left: Seq<Seq<bool>>,
) -> bool {
    &&& interior(g, x, y)
    &&& !visit_inside(g, mask, x, y)
    &&& forall|i: int, j: int|
        interior(g, i, j) && earlier(i, j, x, y) ==> #[trigger] visit_inside(g, mask, i, j)
    &&& left == state_before(g, mask, x, y).mask
}

/// The whole scan stays inside the grid.
pub open spec fn scan_inside(g: Seq<Seq<u8>>, mask: Seq<Seq<bool>>) -> bool {
    forall|x: int, y: int| interior(g, x, y) ==> #[trigger] visit_inside(g, mask, x, y)
}

/// A grid of fewer than three columns or rows has no cell to visit.
proof fn lemma_scan_of_narrow_grid(g: Seq<Seq<u8>>, st: ScanState, y_end: int)
    requires
        g.len() < 3 || y_end <= 1,
    ensures
        scan_rows(g, st, y_end) == st,
    decreases y_end,
{
    if y_end > 1 {
        lemma_scan_of_narrow_grid(g, st, y_end - 1);
    }
}

/// The scan loop. With `checked` it tests before each decoding that it stays
/// inside the grid, and gives up where it does not.
fn scan_cells(iw: &ImageWrapper, parsed: &mut BooleanGrid, checked: bool) -> (found: Option<
    Vec<PlacedGlyph>,
>)
    requires
        iw.wf(),
        rectangular(flags(*old(parsed)), iw.width as int, iw.height as int),
        !checked ==> scan_inside(iw@, flags(*old(parsed))),
    ensures
        rectangular(flags(*final(parsed)), iw.width as int, iw.height as int),
        found is Some <==> scan_inside(iw@, flags(*old(parsed))),
        found is Some ==> {
            &&& flags(*final(parsed)) == scan(iw@, flags(*old(parsed))).mask
            &&& models(found->0@) == scan(iw@, flags(*old(parsed))).glyphs
            &&& forall|i: int|
                0 <= i < found->0@.len() ==> (#[trigger] found->0@[i]).wf() && found->0@[i].inside(
                    iw.width as int,
                    iw.height as int,
                )
        },        found is None ==> exists|x: int, y: int|
            stops_at(iw@, flags(*old(parsed)), x, y, flags(*final(parsed))),
{
    let ghost g = iw@;
    let ghost mask0 = flags(*parsed);
    let mut found: Vec<PlacedGlyph> = Vec::new();
    assert(models(found@) =~= Seq::empty());
    if iw.width < 3 || iw.height < 3 {
        proof {
            if iw.width > 0 {
                assert(g[0].len() == iw.height);
            }
            lemma_scan_of_narrow_grid(
                g,
                ScanState { mask: mask0, glyphs: Seq::empty() },
                rows_of(g) - 2,
            );
        }
        return Some(found);
    }
    assert(g[0].len() == iw.height);
    let mut y: usize = 1;
    while y < iw.height - 2
        invariant
            iw.wf(),
            g == iw@,
            iw.width >= 3,
            iw.height >= 3,
            rows_of(g) == iw.height,
            mask0 == flags(*old(parsed)),
            1 <= y <= iw.height - 2,
            rectangular(flags(*parsed), iw.width as int, iw.height as int),
            !checked ==> scan_inside(g, mask0),
            forall|i: int, j: int| interior(g, i, j) && j < y ==> #[trigger] visit_inside(g, mask0, i, j),
            flags(*parsed) == state_before(g, mask0, 1, y as int).mask,
            models(found@) == state_before(g, mask0, 1, y as int).glyphs,
            forall|i: int|
                0 <= i < found@.len() ==> (#[trigger] found@[i]).wf() && found@[i].inside(
                    iw.width as int,
                    iw.height as int,
                ),
        decreases iw.height - y,
    {
        let mut x: usize = 1;
        while x < iw.width - 2
            invariant
                iw.wf(),
                g == iw@,
                iw.width >= 3,
                iw.height >= 3,
                rows_of(g) == iw.height,
                mask0 == flags(*old(parsed)),
                1 <= y < iw.height - 2,
                1 <= x <= iw.width - 2,
                rectangular(flags(*parsed), iw.width as int, iw.height as int),
                !checked ==> scan_inside(g, mask0),
                forall|i: int, j: int|
                    interior(g, i, j) && (j < y || (j == y && i < x)) ==> #[trigger] visit_inside(
                        g,
                        mask0,
                        i,
                        j,
                    ),
                flags(*parsed) == state_before(g, mask0, x as int, y as int).mask,
                models(found@) == state_before(g, mask0, x as int, y as int).glyphs,
                forall|i: int|
                    0 <= i < found@.len() ==> (#[trigger] found@[i]).wf() && found@[i].inside(
                        iw.width as int,
                        iw.height as int,
                    ),
            decreases iw.width - x,
        {
            assert(flags(*parsed)[x as int].len() == iw.height);
            assert(g[x as int].len() == iw.height);
            if !parsed[x][y] {
                if checked {
                    if !is_decodable(iw, x, y, SET) {
                        assert(!visit_inside(g, mask0, x as int, y as int));
                        assert(stops_at(g, mask0, x as int, y as int, flags(*parsed)));
                        return None;
                    }
                } else {
                    assert(interior(g, x as int, y as int));
                    assert(visit_inside(g, mask0, x as int, y as int));
                }
                match try_parse_symbol(iw, x, y, SET) {
                    ParseResult::NoGlyph => {},
                    ParseResult::GenericGlyph {
                        dx,
                        dy,
                        value,
                        glyph_type,
                        glyph,
                        frame_value,
                        unresolved,
                    } => {
                        proof {
                            lemma_extent_is_first_stop(g, x as int, y as int, SET);
                            if dx >= 2 {
                                assert(grows(g, x as int, y as int, SET, dx - 1));
                            }
                            assert forall|cx: int| x <= cx < x + dx implies y + dy <= (
                            #[trigger] parsed@[cx]).len() by {
                                assert(flags(*parsed)[cx].len() == iw.height);
                            }
                        }
                        mark_parsed(parsed, x, y, dx, dy);
                        let ghost before = found@;
                        let placed = PlacedGlyph {
                            x,
                            y,
                            dx,
                            dy,
                            value,
                            glyph_type,
                            glyph,
                            frame_value,
                            unresolved,
                        };
                        found.push(placed);
                        assert(models(found@) =~= models(before).push(placed@));
                    },
                }
            }
            assert(visit_inside(g, mask0, x as int, y as int));
            x += 1;
        }
        y += 1;
    }
    assert(scan_inside(g, mask0));
    Some(found)
}

/// Scans the grid row by row, each row from left to right, and decodes the
/// glyph at every cell that no earlier glyph has taken. `parsed` receives the
/// boxes of the glyphs found.
pub fn parse_image(iw: &ImageWrapper, parsed: &mut BooleanGrid) -> (found: Vec<PlacedGlyph>)
    requires
        iw.wf(),
        rectangular(flags(*old(parsed)), iw.width as int, iw.height as int),
        scan_inside(iw@, flags(*old(parsed))),
    ensures
        rectangular(flags(*final(parsed)), iw.width as int, iw.height as int),
        flags(*final(parsed)) == scan(iw@, flags(*old(parsed))).mask,
        models(found@) == scan(iw@, flags(*old(parsed))).glyphs,
        forall|i: int|
            0 <= i < found@.len() ==> (#[trigger] found@[i]).wf() && found@[i].inside(
                iw.width as int,
                iw.height as int,
            ),
{
    match scan_cells(iw, parsed, false) {
        Some(found) => found,
        None => Vec::new(),
    }
}

/// Scans the grid as `parse_image` does, if the scan stays inside the grid.
/// Otherwise the answer is `None`, and `parsed` holds the boxes of the glyphs
/// found up to there.
pub fn try_parse_image(iw: &ImageWrapper, parsed: &mut BooleanGrid) -> (found: Option<
    Vec<PlacedGlyph>,
>)
    requires
        iw.wf(),
        rectangular(flags(*old(parsed)), iw.width as int, iw.height as int),
    ensures
        rectangular(flags(*final(parsed)), iw.width as int, iw.height as int),
        found is Some <==> scan_inside(iw@, flags(*old(parsed))),
        found is Some ==> {
            &&& flags(*final(parsed)) == scan(iw@, flags(*old(parsed))).mask
            &&& models(found->0@) == scan(iw@, flags(*old(parsed))).glyphs
            &&& forall|i: int|
                0 <= i < found->0@.len() ==> (#[trigger] found->0@[i]).wf() && found->0@[i].inside(
                    iw.width as int,
                    iw.height as int,
                )
        },        found is None ==> exists|x: int, y: int|
            stops_at(iw@, flags(*old(parsed)), x, y, flags(*final(parsed))),
{
    scan_cells(iw, parsed, true)
}

/// The program that the glyphs spell: the commands and variables in the order
/// in which they were found, each with its value. Bare numbers are left out.
pub open spec fn program(found: Seq<PlacedGlyph>) -> Seq<Token>
    decreases found.len(),
{
    if found.len() == 0 {
        Seq::empty()
    } else if found.last().glyph_type == GlyphType::Integer {
        program(found.drop_last())
    } else {
        program(found.drop_last()).push((found.last().value, found.last().glyph))
    }
}

/// Picks the program tokens from the glyphs of a scan.
pub fn tokens_of(found: &Vec<PlacedGlyph>) -> (codes: Vec<Token>)
    ensures
        codes@ == program(found@),
{
    let mut codes: Vec<Token> = Vec::new();
    let mut i: usize = 0;
    assert(found@.take(0) =~= Seq::empty());
    while i < found.len()
        invariant
            i <= found@.len(),
            codes@ == program(found@.take(i as int)),
        decreases found@.len() - i,
    {
        let placed = found[i];
        assert(found@.take(i + 1).drop_last() =~= found@.take(i as int));
        assert(found@.take(i + 1).last() == placed);
        if placed.glyph_type == GlyphType::Command || placed.glyph_type == GlyphType::Variable {
            codes.push((placed.value, placed.glyph));
        }
        i += 1;
    }
    assert(found@.take(found@.len() as int) =~= found@);
    codes
}

/// The commands and variables among the glyphs as they are shown: in the order
/// in which they were found, each with the number of its own frame.
pub open spec fn shown(found: Seq<PlacedGlyph>) -> Seq<Symbol>
    decreases found.len(),
{
    if found.len() == 0 {
        Seq::empty()
    } else if found.last().glyph_type == GlyphType::Integer {
        shown(found.drop_last())
    } else {
        shown(found.drop_last()).push((found.last().frame_value, found.last().glyph))
    }
}

/// Picks the commands and variables from the glyphs of a scan, to be shown.
pub fn symbols_of(found: &Vec<PlacedGlyph>) -> (symbols: Vec<Symbol>)
    ensures
        symbols@ == shown(found@),
{
    let mut symbols: Vec<Symbol> = Vec::new();
    let mut i: usize = 0;
    assert(found@.take(0) =~= Seq::empty());
    while i < found.len()
        invariant
            i <= found@.len(),
            symbols@ == shown(found@.take(i as int)),
        decreases found@.len() - i,
    {
        let placed = found[i];
        assert(found@.take(i + 1).drop_last() =~= found@.take(i as int));
        assert(found@.take(i + 1).last() == placed);
        if placed.glyph_type == GlyphType::Command || placed.glyph_type == GlyphType::Variable {
            symbols.push((placed.frame_value, placed.glyph));
        }
        i += 1;
    }
    assert(found@.take(found@.len() as int) =~= found@);
    symbols
}

} // verus!
