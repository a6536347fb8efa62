//! Decoding the glyph that begins at a cell.

use vstd::prelude::*;
use vstd::arithmetic::power2::pow2;
use crate::grid::{ImageWrapper, CLEAR, SET};
use crate::glyph::{Glyph, GlyphModel, GlyphType, ParseResult};

verus! {

/// The largest frame side the decoder looks for. It only stops a runaway
/// search; no glyph in use comes near it.
pub const MAX_DELTA: usize = 10;

/// The anchor test: the cells right of and below `(x, y)` have the colour
/// `set`, the cells left of and above it have not.
pub open spec fn is_anchor(g: Seq<Seq<u8>>, x: int, y: int, set: u8) -> bool {
    &&& g[x + 1][y] == set
    &&& g[x][y + 1] == set
    &&& g[x - 1][y] != set
    &&& g[x][y - 1] != set
}

/// The frame that begins at `(x, y)` goes on at distance `delta`: both the top
/// row and the left column have a cell of colour `set` there, inside the grid.
pub open spec fn grows(g: Seq<Seq<u8>>, x: int, y: int, set: u8, delta: int) -> bool {
    &&& x + delta < g.len()
    &&& y + delta < g[x].len()
    &&& g[x + delta][y] == set
    &&& g[x][y + delta] == set
}

/// The frame side found when the search has come as far as `delta`.
pub open spec fn extent_from(g: Seq<Seq<u8>>, x: int, y: int, set: u8, delta: int) -> int
    decreases MAX_DELTA - delta,
{
    if delta < MAX_DELTA && grows(g, x, y, set, delta) {
        extent_from(g, x, y, set, delta + 1)
    } else {
        delta
    }
}

/// The side of the frame that begins at `(x, y)`.
pub open spec fn extent(g: Seq<Seq<u8>>, x: int, y: int, set: u8) -> int {
    extent_from(g, x, y, set, 1)
}

/// The frame side is the first distance from 1 on at which the frame does not
/// go on, and `MAX_DELTA` if there is none below that.
pub proof fn lemma_extent_is_first_stop(g: Seq<Seq<u8>>, x: int, y: int, set: u8)
    ensures
        1 <= extent(g, x, y, set) <= MAX_DELTA,
        forall|k: int| 1 <= k < extent(g, x, y, set) ==> grows(g, x, y, set, k),
        extent(g, x, y, set) == MAX_DELTA || !grows(g, x, y, set, extent(g, x, y, set)),
{
    lemma_extent_from(g, x, y, set, 1);
}

proof fn lemma_extent_from(g: Seq<Seq<u8>>, x: int, y: int, set: u8, delta: int)
    requires
        1 <= delta <= MAX_DELTA,
    ensures
        delta <= extent_from(g, x, y, set, delta) <= MAX_DELTA,
        forall|k: int|
            delta <= k < extent_from(g, x, y, set, delta) ==> grows(g, x, y, set, k),
        extent_from(g, x, y, set, delta) == MAX_DELTA || !grows(
            g,
            x,
            y,
            set,
            extent_from(g, x, y, set, delta),
        ),
    decreases MAX_DELTA - delta,
{
    if delta < MAX_DELTA && grows(g, x, y, set, delta) {
        lemma_extent_from(g, x, y, set, delta + 1);
    }
}

/// Finds the side of the frame that begins at `(x, y)`.
pub fn find_delta(iw: &ImageWrapper, x: usize, y: usize, set: u8) -> (delta: usize)
    requires
        iw.wf(),
        x < iw.width,
        y < iw.height,
    ensures
        delta == extent(iw@, x as int, y as int, set),
        1 <= delta <= MAX_DELTA,
        x + delta <= iw.width,
        y + delta <= iw.height,
{
    let mut delta: usize = 1;
    while delta < MAX_DELTA
        invariant
            iw.wf(),
            x < iw.width,
            y < iw.height,
            1 <= delta <= MAX_DELTA,
            x + delta <= iw.width,
            y + delta <= iw.height,
            extent(iw@, x as int, y as int, set) == extent_from(
                iw@,
                x as int,
                y as int,
                set,
                delta as int,
            ),
        ensures
            delta == extent(iw@, x as int, y as int, set),
        decreases MAX_DELTA - delta,
    {
        if delta >= iw.width - x || delta >= iw.height - y {
            break;
        }
        if iw.image[x + delta][y] != set || iw.image[x][y + delta] != set {
            break;
        }
        delta += 1;
    }
    delta
}

/// The body cell that holds bit `b` of a glyph whose body has `side` columns
/// has the colour `set`. The bits run along the rows, lowest first.
pub open spec fn body_bit(g: Seq<Seq<u8>>, x: int, y: int, set: u8, side: int, b: int) -> bool {
    g[x + 1 + b % side][y + 1 + b / side] == set
}

/// The number that the lowest `bits` bits of the body spell.
pub open spec fn body_value(g: Seq<Seq<u8>>, x: int, y: int, set: u8, side: int, bits: int) -> int
    decreases bits,
{
    if bits <= 0 {
        0
    } else {
        body_value(g, x, y, set, side, bits - 1) + if body_bit(g, x, y, set, side, bits - 1) {
            pow2((bits - 1) as nat) as int
        } else {
            0
        }
    }
}

/// The unsigned number drawn in the body of a frame of side `delta`.
pub open spec fn magnitude(g: Seq<Seq<u8>>, x: int, y: int, set: u8, delta: int) -> int {
    body_value(g, x, y, set, delta - 1, (delta - 1) * (delta - 1))
}

/// A number spelt with `bits` bits is below two to the power `bits`.
pub proof fn lemma_body_value_bound(
    g: Seq<Seq<u8>>,
    x: int,
    y: int,
    set: u8,
    side: int,
    bits: int,
)
    requires
        0 <= bits,
    ensures
        0 <= body_value(g, x, y, set, side, bits) < pow2(bits as nat),
    decreases bits,
{
    if bits > 0 {
        lemma_body_value_bound(g, x, y, set, side, bits - 1);
        vstd::arithmetic::power2::lemma_pow2_unfold(bits as nat);
    } else {
        vstd::arithmetic::power2::lemma2_to64();
    }
}

/// Two to the power 81, the first number that no body can spell.
pub open spec fn body_limit() -> int {
    0x2_0000_0000_0000_0000_0000
}

proof fn lemma_body_limit(bits: nat)
    requires
        bits <= 81,
    ensures
        pow2(bits) <= body_limit(),
        pow2(81) == body_limit(),
{
    vstd::arithmetic::power2::lemma2_to64();
    vstd::arithmetic::power2::lemma2_to64_rest();
    vstd::arithmetic::power2::lemma_pow2_adds(64, 17);
    assert(pow2(81) == body_limit());
    if bits < 81 {
        vstd::arithmetic::power2::lemma_pow2_strictly_increases(bits, 81);
    }
}

/// Reads the unsigned number in the body of the frame of side `delta` at
/// `(x, y)`.
pub fn body_magnitude(iw: &ImageWrapper, x: usize, y: usize, set: u8, delta: usize) -> (value: i128)
    requires
        iw.wf(),
        1 <= delta <= MAX_DELTA,
        x + delta <= iw.width,
        y + delta <= iw.height,
    ensures
        value == magnitude(iw@, x as int, y as int, set, delta as int),
        0 <= value < body_limit(),
{
    let side: usize = delta - 1;
    let mut value: i128 = 0;
    let mut weight: i128 = 1;
    let ghost g = iw@;
    proof {
        vstd::arithmetic::power2::lemma2_to64();
        lemma_body_limit(0);
    }
    let mut cy: usize = 0;
    while cy < side
        invariant
            iw.wf(),
            g == iw@,
            side == delta - 1,
            side < MAX_DELTA,
            x + delta <= iw.width,
            y + delta <= iw.height,
            cy <= side,
            weight == pow2((cy * side) as nat),
            value == body_value(g, x as int, y as int, set, side as int, cy * side),
        decreases side - cy,
    {
        let mut cx: usize = 0;
        while cx < side
            invariant
                iw.wf(),
                g == iw@,
                side == delta - 1,
                side < MAX_DELTA,
                x + delta <= iw.width,
                y + delta <= iw.height,
                cy < side,
                cx <= side,
                weight == pow2((cy * side + cx) as nat),
                value == body_value(g, x as int, y as int, set, side as int, cy * side + cx),
            decreases side - cx,
        {
            let ghost b: int = cy * side + cx;
            proof {
                assert(0 <= b < side * side && b + 1 <= 81) by (nonlinear_arith)
                    requires
                        b == cy * side + cx,
                        0 <= cx < side,
                        0 <= cy < side,
                        side <= 9,
                ;
                vstd::arithmetic::div_mod::lemma_fundamental_div_mod_converse(
                    b,
                    side as int,
                    cy as int,
                    cx as int,
                );
                lemma_body_value_bound(g, x as int, y as int, set, side as int, b);
                lemma_body_limit(b as nat);
                lemma_body_limit((b + 1) as nat);
                vstd::arithmetic::power2::lemma_pow2_unfold((b + 1) as nat);
                assert(g[x + 1 + cx].len() == iw.height);
            }
            if iw.image[x + 1 + cx][y + 1 + cy] == set {
                value += weight;
            }
            weight = weight * 2;
            cx += 1;
        }
        proof {
            assert(cy * side + side == (cy + 1) * side) by (nonlinear_arith);
        }
        cy += 1;
    }
    proof {
        lemma_body_value_bound(g, x as int, y as int, set, side as int, side * side);
        assert(side * side <= 81) by (nonlinear_arith)
            requires
                0 <= side <= 9,
        ;
        lemma_body_limit((side * side) as nat);
    }
    value
}

/// What the closed-frame test reads at offset `i` of a frame of side `delta`:
/// a cell of the left edge, of the top edge and of the bottom edge, and of the
/// right edge always the cell in the frame's second row.
pub open spec fn frame_probe(g: Seq<Seq<u8>>, x: int, y: int, delta: int, i: int) -> bool {
    &&& g[x][y + i] == SET
    &&& g[x + delta - 1][y + 1] == SET
    &&& g[x + i][y] == SET
    &&& g[x + i][y + delta - 1] == SET
}

/// The frame of side `delta` at `(x, y)` is closed: the test holds at every
/// offset below `delta`.
pub open spec fn full_frame(g: Seq<Seq<u8>>, x: int, y: int, delta: int) -> bool {
    forall|i: int| 0 <= i < delta ==> #[trigger] frame_probe(g, x, y, delta, i)
}

/// Tests whether the frame of side `delta` at `(x, y)` is closed.
pub fn is_full_frame(iw: &ImageWrapper, x: usize, y: usize, delta: usize) -> (full: bool)
    requires
        iw.wf(),
        delta >= 1 ==> x + delta <= iw.width && y + delta <= iw.height && y + 1 < iw.height,
    ensures
        full == full_frame(iw@, x as int, y as int, delta as int),
{
    let ghost g = iw@;
    let mut i: usize = 0;
    while i < delta
        invariant
            iw.wf(),
            g == iw@,
            i <= delta,
            delta >= 1 ==> x + delta <= iw.width && y + delta <= iw.height && y + 1 < iw.height,
            forall|k: int| 0 <= k < i ==> #[trigger] frame_probe(g, x as int, y as int, delta as int, k),
        decreases delta - i,
    {
        proof {
            assert(g[x as int].len() == iw.height);
            assert(g[x + delta - 1].len() == iw.height);
            assert(g[x + i].len() == iw.height);
        }
        if iw.image[x][y + i] != SET || iw.image[x + delta - 1][y + 1] != SET || iw.image[x
            + i][y] != SET || iw.image[x + i][y + delta - 1] != SET {
            assert(!frame_probe(g, x as int, y as int, delta as int, i as int));
            return false;
        }
        i += 1;
    }
    true
}

/// The cell one past the left edge of the frame has the colour `set`: the
/// number is negative.
pub open spec fn sign_set(g: Seq<Seq<u8>>, x: int, y: int, set: u8, delta: int) -> bool {
    g[x][y + delta] == set
}

/// The anchor cell itself has the colour `set`: the glyph is no bare number.
pub open spec fn control_set(g: Seq<Seq<u8>>, x: int, y: int, set: u8) -> bool {
    g[x][y] == set
}

/// The glyph at `(x, y)` may hold an embedded glyph: its anchor cell is set and
/// its frame is closed, in a pass over foreground pixels.
pub open spec fn embeds(g: Seq<Seq<u8>>, x: int, y: int, set: u8) -> bool {
    &&& set == SET
    &&& control_set(g, x, y, set)
    &&& full_frame(g, x, y, extent(g, x, y, set))
}

/// Decoding at `(x, y)` stays inside the grid: the cell has neighbours on all
/// sides, and if a glyph begins there, the grid holds its sign cell and
/// whatever is read of an embedded glyph.
pub open spec fn decodable(g: Seq<Seq<u8>>, x: int, y: int, set: u8) -> bool
    decreases set,
{
    &&& 1 <= x
    &&& x + 1 < g.len()
    &&& 1 <= y
    &&& y + 1 < g[x].len()
    &&& is_anchor(g, x, y, set) ==> {
        &&& y + extent(g, x, y, set) < g[x].len()
        &&& embeds(g, x, y, set) ==> decodable(g, x + 1, y + 1, CLEAR)
    }
}

/// The glyph that begins at `(x, y)` when `set` is the foreground colour, if
/// one does.
///
/// The frame's number is the body's, negated if the sign cell is set. A glyph
/// whose anchor cell is background is a bare number. Otherwise it is a command,
/// unless its frame is closed and a glyph of the opposite colour begins one cell
/// in: then it is a variable. The value of a bare number and of a command is
/// the frame's number; the value of a variable is the value of the glyph
/// inside.
pub open spec fn decode_at(g: Seq<Seq<u8>>, x: int, y: int, set: u8) -> Option<GlyphModel>
    decreases set,
{
    if !is_anchor(g, x, y, set) {
        None
    } else {
        let delta = extent(g, x, y, set);
        let negative = sign_set(g, x, y, set, delta);
        let frame_value = if negative {
            -magnitude(g, x, y, set, delta)
        } else {
            magnitude(g, x, y, set, delta)
        };
        let dy = if negative {
            delta + 1
        } else {
            delta
        };
        let own = GlyphModel {
            dx: delta,
            dy,
            value: frame_value,
            kind: GlyphType::Integer,
            frame_value,
            unresolved: false,
        };
        if !control_set(g, x, y, set) {
            Some(own)
        } else if !embeds(g, x, y, set) {
            Some(GlyphModel { kind: GlyphType::Command, ..own })
        } else {
            match decode_at(g, x + 1, y + 1, CLEAR) {
                None => Some(GlyphModel { kind: GlyphType::Command, unresolved: true, ..own }),
                Some(inner) => Some(
                    GlyphModel { kind: GlyphType::Variable, value: inner.value, ..own },
                ),
            }
        }
    }
}

/// Makes the anchor test at `(x, y)`.
pub fn anchor_test(iw: &ImageWrapper, x: usize, y: usize, set: u8) -> (found: bool)
    requires
        iw.wf(),
        1 <= x,
        x + 1 < iw.width,
        1 <= y,
        y + 1 < iw.height,
    ensures
        found == is_anchor(iw@, x as int, y as int, set),
{
    proof {
        assert(iw@[x as int].len() == iw.height);
        assert(iw@[x - 1].len() == iw.height);
        assert(iw@[x + 1].len() == iw.height);
    }
    iw.image[x + 1][y] == set && iw.image[x][y + 1] == set && iw.image[x - 1][y] != set
        && iw.image[x][y - 1] != set
}

/// Decodes the glyph that begins at `(x, y)`, where `set` is the colour of the
/// foreground: 1 in a scan of the grid, 0 inside a closed frame.
pub fn try_parse_symbol(iw: &ImageWrapper, x: usize, y: usize, set: u8) -> (result: ParseResult)
    requires
        iw.wf(),
        decodable(iw@, x as int, y as int, set),
    ensures
        result@ == decode_at(iw@, x as int, y as int, set),
        result.wf(),
    decreases set,
{
    let ghost g = iw@;
    proof {
        assert(g[x as int].len() == iw.height);
    }
    if !anchor_test(iw, x, y, set) {
        return ParseResult::NoGlyph;
    }
    let control_bit = iw.image[x][y] == set;
    let delta = find_delta(iw, x, y, set);
    proof {
        lemma_extent_from(g, x as int, y as int, set, 2);
    }
    let magnitude = body_magnitude(iw, x, y, set, delta);
    let negative = iw.image[x][y + delta] == set;
    let final_value: i128 = if negative {
        -magnitude
    } else {
        magnitude
    };
    let dy: usize = if negative {
        delta + 1
    } else {
        delta
    };
    let mut value = final_value;
    let mut glyph_type = GlyphType::Integer;
    let mut glyph = Glyph::Integer(final_value);
    let mut unresolved = false;
    if control_bit {
        glyph_type = GlyphType::Command;
        glyph = Glyph::Command(final_value);
        if set == SET && is_full_frame(iw, x, y, delta) {
            match try_parse_symbol(iw, x + 1, y + 1, CLEAR) {
                ParseResult::NoGlyph => {
                    unresolved = true;
                },
                ParseResult::GenericGlyph { value: embedded, .. } => {
                    value = embedded;
                    glyph_type = GlyphType::Variable;
                    glyph = Glyph::Variable(embedded);
                },
            }
        }
    }
    ParseResult::GenericGlyph {
        dx: delta,
        dy,
        value,
        glyph_type,
        glyph,
        frame_value: final_value,
        unresolved,
    }
}

/// Tests whether decoding at `(x, y)` stays inside the grid.
pub fn is_decodable(iw: &ImageWrapper, x: usize, y: usize, set: u8) -> (inside: bool)
    requires
        iw.wf(),
    ensures
        inside == decodable(iw@, x as int, y as int, set),
    decreases set,
{
    let ghost g = iw@;
    if x < 1 || y < 1 || x >= iw.width || y >= iw.height || iw.width - x < 2 || iw.height - y
        < 2 {
        proof {
            if x < iw.width {
                assert(g[x as int].len() == iw.height);
            }
        }
        return false;
    }
    proof {
        assert(g[x as int].len() == iw.height);
    }
    if !anchor_test(iw, x, y, set) {
        return true;
    }
    let delta = find_delta(iw, x, y, set);
    if y + delta >= iw.height {
        return false;
    }
    if set == SET && iw.image[x][y] == set && is_full_frame(iw, x, y, delta) {
        return is_decodable(iw, x + 1, y + 1, CLEAR);
    }
    true
}

/// A glyph begins exactly where the anchor test holds, and its frame has the
/// side that the search finds.
pub proof fn lemma_glyph_begins_at_anchor(g: Seq<Seq<u8>>, x: int, y: int, set: u8)
    ensures
        decode_at(g, x, y, set) is Some <==> is_anchor(g, x, y, set),
        decode_at(g, x, y, set) is Some ==> decode_at(g, x, y, set)->0.dx == extent(g, x, y, set),
{
}

/// The number of a glyph's own frame is the number of its body, negated if
/// the sign cell is set, and a glyph with the sign cell set takes that cell's
/// row. A glyph that is no variable has the frame's number as its value: with
/// the sign cell set it decodes to the negated number of its body.
pub proof fn lemma_sign_cell_negates(g: Seq<Seq<u8>>, x: int, y: int, set: u8)
    requires
        is_anchor(g, x, y, set),
    ensures
        decode_at(g, x, y, set) is Some,
        sign_set(g, x, y, set, extent(g, x, y, set)) ==> {
            &&& decode_at(g, x, y, set)->0.frame_value == -magnitude(
                g,
                x,
                y,
                set,
                extent(g, x, y, set),
            )
            &&& decode_at(g, x, y, set)->0.dy == extent(g, x, y, set) + 1
        },
        !sign_set(g, x, y, set, extent(g, x, y, set)) ==> {
            &&& decode_at(g, x, y, set)->0.frame_value == magnitude(
                g,
                x,
                y,
                set,
                extent(g, x, y, set),
            )
            &&& decode_at(g, x, y, set)->0.dy == extent(g, x, y, set)
        },
        decode_at(g, x, y, set)->0.kind != GlyphType::Variable ==> decode_at(g, x, y, set)->0.value
            == decode_at(g, x, y, set)->0.frame_value,
{
}

/// The kind of a glyph found in a scan. With the anchor cell clear it is a bare
/// number. With the anchor cell set and the frame not closed it is a command.
/// With the anchor cell set, the frame closed and a glyph inside it is a
/// variable, and its value is the value of the glyph inside, not the number of
/// its own frame. A bare number and a command have the number of their frame
/// as their value.
pub proof fn lemma_kind_of_glyph(g: Seq<Seq<u8>>, x: int, y: int)
    requires
        is_anchor(g, x, y, SET),
    ensures
        !control_set(g, x, y, SET) ==> {
            &&& decode_at(g, x, y, SET)->0.kind == GlyphType::Integer
            &&& decode_at(g, x, y, SET)->0.value == decode_at(g, x, y, SET)->0.frame_value
        },
        control_set(g, x, y, SET) && !full_frame(g, x, y, extent(g, x, y, SET)) ==> {
            &&& decode_at(g, x, y, SET)->0.kind == GlyphType::Command
            &&& decode_at(g, x, y, SET)->0.value == decode_at(g, x, y, SET)->0.frame_value
        },
        control_set(g, x, y, SET) && full_frame(g, x, y, extent(g, x, y, SET)) && decode_at(
            g,
            x + 1,
            y + 1,
            CLEAR,
        ) is Some ==> {
            &&& decode_at(g, x, y, SET)->0.kind == GlyphType::Variable
            &&& decode_at(g, x, y, SET)->0.value == decode_at(g, x + 1, y + 1, CLEAR)->0.value
        },
{
}

/// A closed frame with no glyph inside is still a glyph: a command with the
/// number of its own frame as its value, flagged as unresolved. No other glyph
/// is flagged.
pub proof fn lemma_empty_frame_is_command(g: Seq<Seq<u8>>, x: int, y: int, set: u8)
    requires
        is_anchor(g, x, y, set),
    ensures
        decode_at(g, x, y, set)->0.unresolved <==> embeds(g, x, y, set) && !is_anchor(
            g,
            x + 1,
            y + 1,
            CLEAR,
        ),
        decode_at(g, x, y, set)->0.unresolved ==> {
            &&& decode_at(g, x, y, set)->0.kind == GlyphType::Command
            &&& decode_at(g, x, y, set)->0.value == decode_at(g, x, y, set)->0.frame_value
        },
{
    lemma_glyph_begins_at_anchor(g, x + 1, y + 1, CLEAR);
}

/// A glyph inside a closed frame is never itself read as a variable: the
/// decoder looks one level deep.
pub proof fn lemma_embedded_glyph_is_plain(g: Seq<Seq<u8>>, x: int, y: int)
    requires
        is_anchor(g, x, y, CLEAR),
    ensures
        decode_at(g, x, y, CLEAR)->0.kind != GlyphType::Variable,
        decode_at(g, x, y, CLEAR)->0.value == decode_at(g, x, y, CLEAR)->0.frame_value,
        !decode_at(g, x, y, CLEAR)->0.unresolved,
{
}

} // verus!
