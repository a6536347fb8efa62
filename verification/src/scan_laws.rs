//! What holds of every scan: which cells it takes, and in what order it finds
//! its glyphs.

use vstd::prelude::*;
use crate::grid::{rectangular, SET};
use crate::decode::decode_at;
use crate::scan::{
    earlier, in_box, interior, marked, rows_of, scan, scan_row, scan_rows, visit, PlacedModel, ScanState,
};

verus! {

/// The cell `(cx, cy)` lies in the box of the glyph `p`.
pub open spec fn owns(p: PlacedModel, cx: int, cy: int) -> bool {
    in_box(p.x, p.y, p.shape.dx, p.shape.dy, cx, cy)
}

/// The cell `(cx, cy)` lies in the box of one of `glyphs`.
pub open spec fn covered(glyphs: Seq<PlacedModel>, cx: int, cy: int) -> bool {
    exists|i: int| 0 <= i < glyphs.len() && owns(#[trigger] glyphs[i], cx, cy)
}

/// No cell lies in the boxes of two of `glyphs`.
pub open spec fn disjoint(glyphs: Seq<PlacedModel>) -> bool {
    forall|i: int, j: int, cx: int, cy: int|
        0 <= i < glyphs.len() && 0 <= j < glyphs.len() && #[trigger] owns(glyphs[i], cx, cy)
            && #[trigger] owns(glyphs[j], cx, cy) ==> i == j
}

/// No cell of `mask` is taken.
pub open spec fn all_free(mask: Seq<Seq<bool>>) -> bool {
    forall|cx: int, cy: int|
        0 <= cx < mask.len() && 0 <= cy < mask[cx].len() ==> !#[trigger] mask[cx][cy]
}

/// What holds of the state `st` of a scan that began with `mask` and has not
/// yet come to the cell `(x, y)`.
spec fn orderly(g: Seq<Seq<u8>>, mask: Seq<Seq<bool>>, st: ScanState, x: int, y: int) -> bool {
    &&& rectangular(st.mask, g.len() as int, rows_of(g))
    &&& forall|cx: int, cy: int|
        0 <= cx < g.len() && 0 <= cy < rows_of(g) ==> #[trigger] st.mask[cx][cy] == (mask[cx][cy]
            || covered(st.glyphs, cx, cy))
    &&& forall|i: int|
        0 <= i < st.glyphs.len() ==> {
            let p = #[trigger] st.glyphs[i];
            &&& interior(g, p.x, p.y)
            &&& earlier(p.x, p.y, x, y)
            &&& !mask[p.x][p.y]
            &&& decode_at(g, p.x, p.y, SET) == Some(p.shape)
        }
    &&& forall|i: int, j: int|
        0 <= i < j < st.glyphs.len() ==> {
            let p = #[trigger] st.glyphs[i];
            let q = #[trigger] st.glyphs[j];
            earlier(p.x, p.y, q.x, q.y) && !owns(p, q.x, q.y)
        }
}

proof fn lemma_visit_keeps_order(g: Seq<Seq<u8>>, mask: Seq<Seq<bool>>, st: ScanState, x: int, y: int)
    requires
        interior(g, x, y),
        orderly(g, mask, st, x, y),
    ensures
        orderly(g, mask, visit(g, st, x, y), x + 1, y),
{
    let next = visit(g, st, x, y);
    if next != st {
        let shape = decode_at(g, x, y, SET)->0;
        let placed = PlacedModel { x, y, shape };
        let n = st.glyphs.len() as int;
        assert(next.glyphs == st.glyphs.push(placed));
        assert(next.mask == marked(st.mask, x, y, shape.dx, shape.dy));
        assert(!st.mask[x][y]);
        assert(!covered(st.glyphs, x, y));
        assert forall|cx: int, cy: int| 0 <= cx < g.len() && 0 <= cy < rows_of(g) implies #[trigger] next.mask[cx][cy]
            == (mask[cx][cy] || covered(next.glyphs, cx, cy)) by {
            assert(st.mask[cx].len() == rows_of(g));
            assert(st.mask[cx][cy] == (mask[cx][cy] || covered(st.glyphs, cx, cy)));
            if covered(st.glyphs, cx, cy) {
                let i = choose|i: int| 0 <= i < st.glyphs.len() && owns(#[trigger] st.glyphs[i], cx, cy);
                assert(owns(next.glyphs[i], cx, cy));
            }
            if in_box(x, y, shape.dx, shape.dy, cx, cy) {
                assert(owns(next.glyphs[n], cx, cy));
            }
            if covered(next.glyphs, cx, cy) {
                let i = choose|i: int| 0 <= i < next.glyphs.len() && owns(#[trigger] next.glyphs[i], cx, cy);
                if i < n {
                    assert(owns(st.glyphs[i], cx, cy));
                }
            }
        }
        assert forall|i: int, j: int| 0 <= i < j < next.glyphs.len() implies ({
            let p = #[trigger] next.glyphs[i];
            let q = #[trigger] next.glyphs[j];
            earlier(p.x, p.y, q.x, q.y) && !owns(p, q.x, q.y)
        }) by {
            if j == n {
                assert(owns(st.glyphs[i], x, y) ==> covered(st.glyphs, x, y));
            } else {
                assert(next.glyphs[i] == st.glyphs[i]);
                assert(next.glyphs[j] == st.glyphs[j]);
            }
        }
        assert forall|i: int| 0 <= i < next.glyphs.len() implies ({
            let p = #[trigger] next.glyphs[i];
            &&& interior(g, p.x, p.y)
            &&& earlier(p.x, p.y, x + 1, y)
            &&& !mask[p.x][p.y]
            &&& decode_at(g, p.x, p.y, SET) == Some(p.shape)
        }) by {
            if i < n {
                assert(next.glyphs[i] == st.glyphs[i]);
            } else {
                assert(st.mask[x][y] == (mask[x][y] || covered(st.glyphs, x, y)));
            }
        }
        assert(rectangular(next.mask, g.len() as int, rows_of(g)));
    }
}

proof fn lemma_row_keeps_order(g: Seq<Seq<u8>>, mask: Seq<Seq<bool>>, st: ScanState, y: int, x_end: int)
    requires
        1 <= y < rows_of(g) - 2,
        x_end <= g.len() - 2,
        orderly(g, mask, st, 1, y),
    ensures
        orderly(g, mask, scan_row(g, st, y, x_end), if x_end <= 1 { 1 } else { x_end }, y),
    decreases x_end,
{
    if x_end > 1 {
        lemma_row_keeps_order(g, mask, st, y, x_end - 1);
        lemma_visit_keeps_order(g, mask, scan_row(g, st, y, x_end - 1), x_end - 1, y);
    }
}

proof fn lemma_rows_keep_order(g: Seq<Seq<u8>>, mask: Seq<Seq<bool>>, y_end: int)
    requires
        rectangular(mask, g.len() as int, rows_of(g)),
        y_end <= rows_of(g) - 2,
    ensures
        orderly(
            g,
            mask,
            scan_rows(g, ScanState { mask, glyphs: Seq::empty() }, y_end),
            1,
            if y_end <= 1 { 1 } else { y_end },
        ),
    decreases y_end,
{
    let st0 = ScanState { mask, glyphs: Seq::<PlacedModel>::empty() };
    if y_end > 1 {
        lemma_rows_keep_order(g, mask, y_end - 1);
        let st = scan_rows(g, st0, y_end - 1);
        lemma_row_keeps_order(g, mask, st, y_end - 1, g.len() - 2);
        let done = scan_row(g, st, y_end - 1, g.len() - 2);
        assert(orderly(g, mask, done, 1, y_end));
    } else {
        assert forall|cx: int, cy: int| 0 <= cx < g.len() && 0 <= cy < rows_of(g) implies #[trigger] st0.mask[cx][cy]
            == (mask[cx][cy] || covered(st0.glyphs, cx, cy)) by {
        }
    }
}

/// A scan takes the boxes of the glyphs it finds and nothing else: at its end
/// a cell is taken if and only if it was taken at the start or lies in the box
/// of a glyph found.
pub proof fn lemma_scan_takes_the_boxes(g: Seq<Seq<u8>>, mask: Seq<Seq<bool>>)
    requires
        rectangular(mask, g.len() as int, rows_of(g)),
    ensures
        rectangular(scan(g, mask).mask, g.len() as int, rows_of(g)),
        forall|cx: int, cy: int|
            0 <= cx < g.len() && 0 <= cy < rows_of(g) ==> #[trigger] scan(g, mask).mask[cx][cy] == (
            mask[cx][cy] || covered(scan(g, mask).glyphs, cx, cy)),
{
    lemma_rows_keep_order(g, mask, rows_of(g) - 2);
}

/// Every glyph of a scan is what the decoder finds at its anchor, and its
/// anchor is a cell that the scan visits and that was free at the start.
pub proof fn lemma_scan_finds_decoded_glyphs(g: Seq<Seq<u8>>, mask: Seq<Seq<bool>>, i: int)
    requires
        rectangular(mask, g.len() as int, rows_of(g)),
        0 <= i < scan(g, mask).glyphs.len(),
    ensures
        interior(g, scan(g, mask).glyphs[i].x, scan(g, mask).glyphs[i].y),
        !mask[scan(g, mask).glyphs[i].x][scan(g, mask).glyphs[i].y],
        decode_at(g, scan(g, mask).glyphs[i].x, scan(g, mask).glyphs[i].y, SET) == Some(
            scan(g, mask).glyphs[i].shape,
        ),
{
    lemma_rows_keep_order(g, mask, rows_of(g) - 2);
}

/// The glyphs of a scan come in the order of their anchors, row by row and
/// within a row from left to right, whatever their sizes; and no glyph begins
/// in the box of a glyph found before it.
pub proof fn lemma_scan_keeps_anchor_order(g: Seq<Seq<u8>>, mask: Seq<Seq<bool>>, i: int, j: int)
    requires
        rectangular(mask, g.len() as int, rows_of(g)),
        0 <= i < j < scan(g, mask).glyphs.len(),
    ensures
        earlier(
            scan(g, mask).glyphs[i].x,
            scan(g, mask).glyphs[i].y,
            scan(g, mask).glyphs[j].x,
            scan(g, mask).glyphs[j].y,
        ),
        !owns(scan(g, mask).glyphs[i], scan(g, mask).glyphs[j].x, scan(g, mask).glyphs[j].y),
{
    lemma_rows_keep_order(g, mask, rows_of(g) - 2);
}

/// Where the boxes of the glyphs found do not overlap, every cell that a scan
/// of a free grid has taken lies in the box of exactly one glyph.
pub proof fn lemma_taken_cell_has_one_owner(g: Seq<Seq<u8>>, mask: Seq<Seq<bool>>, cx: int, cy: int)
    requires
        rectangular(mask, g.len() as int, rows_of(g)),
        all_free(mask),
        disjoint(scan(g, mask).glyphs),
        0 <= cx < g.len(),
        0 <= cy < rows_of(g),
        scan(g, mask).mask[cx][cy],
    ensures
        exists|i: int|
            0 <= i < scan(g, mask).glyphs.len() && owns(#[trigger] scan(g, mask).glyphs[i], cx, cy)
                && forall|j: int|
                0 <= j < scan(g, mask).glyphs.len() && owns(#[trigger] scan(g, mask).glyphs[j], cx, cy)
                    ==> j == i,
{
    lemma_scan_takes_the_boxes(g, mask);
    let glyphs = scan(g, mask).glyphs;
    assert(mask[cx].len() == rows_of(g));
    assert(!mask[cx][cy]);
    assert(covered(glyphs, cx, cy));
    let i = choose|i: int| 0 <= i < glyphs.len() && owns(#[trigger] glyphs[i], cx, cy);
    assert forall|j: int| 0 <= j < glyphs.len() && owns(#[trigger] glyphs[j], cx, cy) implies j
        == i by {
    }
}

} // verus!
