//! Drawing the glyph of a non-negative number.

use vstd::prelude::*;
use vstd::arithmetic::power2::pow2;
use crate::grid::{create_empty_image, pixels, Image, CLEAR, SET};
use crate::decode::{
    body_bit, body_limit, body_value, extent, extent_from, grows, magnitude, MAX_DELTA,
};

verus! {

/// Bit `b` of the non-negative number `value` is one.
pub open spec fn bit(value: int, b: nat) -> bool {
    (value / pow2(b) as int) % 2 == 1
}

/// The number of binary digits of `value`: none for 0.
pub open spec fn bit_length(value: int) -> nat
    decreases value,
{
    if value <= 0 {
        0
    } else {
        1 + bit_length(value / 2)
    }
}

/// The least side from `side` on whose square holds `bits` bits.
pub open spec fn side_from(bits: nat, side: nat) -> nat
    decreases bits - side,
{
    if side * side >= bits || side >= bits {
        side
    } else {
        side_from(bits, side + 1)
    }
}

/// The side of the body of the glyph of `value`: the least number from 1 on
/// whose square is at least the number of binary digits of `value`.
pub open spec fn frame_side(value: int) -> nat {
    side_from(bit_length(value), 1)
}

/// The pixel at `(x, y)` in the glyph of `value` whose body has side `d`: the
/// top row and the left column are set, and the body holds the bits of `value`
/// along its rows, lowest first.
pub open spec fn glyph_pixel(value: int, d: int, x: int, y: int) -> u8 {
    if x == 0 || y == 0 || bit(value, ((x - 1) + (y - 1) * d) as nat) {
        SET
    } else {
        CLEAR
    }
}

/// The glyph of `value`: a square of columns, one longer than the body's side.
pub open spec fn glyph_of(value: int) -> Seq<Seq<u8>> {
    let d = frame_side(value) as int;
    Seq::new(
        (d + 1) as nat,
        |x: int| Seq::new((d + 1) as nat, |y: int| glyph_pixel(value, d, x, y)),
    )
}

proof fn lemma_side_from(bits: nat, side: nat)
    requires
        side >= 1,
        side == 1 || (side - 1) * (side - 1) < bits,
    ensures
        side_from(bits, side) >= 1,
        side_from(bits, side) * side_from(bits, side) >= bits,
        side_from(bits, side) == 1 || (side_from(bits, side) - 1) * (side_from(bits, side) - 1)
            < bits,
    decreases bits - side,
{
    if side * side < bits {
        if side >= bits {
            assert(side * side >= side) by (nonlinear_arith)
                requires
                    side >= 1,
            ;
        } else {
            lemma_side_from(bits, side + 1);
        }
    }
}

/// The side of the body is the least number from 1 on whose square is at least
/// the number of binary digits.
pub proof fn lemma_frame_side_is_least(value: int)
    ensures
        frame_side(value) >= 1,
        frame_side(value) * frame_side(value) >= bit_length(value),
        frame_side(value) == 1 || (frame_side(value) - 1) * (frame_side(value) - 1) < bit_length(
            value,
        ),
{
    lemma_side_from(bit_length(value), 1);
}

/// A number is below two to the power of the number of its digits.
pub proof fn lemma_bit_length_bounds(value: int)
    requires
        0 <= value,
    ensures
        value < pow2(bit_length(value)),
        value > 0 ==> pow2((bit_length(value) - 1) as nat) <= value,
    decreases value,
{
    vstd::arithmetic::power2::lemma2_to64();
    if value > 0 {
        lemma_bit_length_bounds(value / 2);
        vstd::arithmetic::power2::lemma_pow2_unfold(bit_length(value));
        if value / 2 > 0 {
            vstd::arithmetic::power2::lemma_pow2_unfold((bit_length(value) - 1) as nat);
        }
    }
}

/// Counts the binary digits of `value`.
pub fn count_bits(value: i128) -> (bits: usize)
    requires
        0 <= value,
    ensures
        bits == bit_length(value as int),
        bits <= 127,
{
    let mut rest: i128 = value;
    let mut bits: usize = 0;
    proof {
        lemma_bit_length_bounds(value as int);
        vstd::arithmetic::power2::lemma2_to64();
        vstd::arithmetic::power2::lemma2_to64_rest();
        vstd::arithmetic::power2::lemma_pow2_adds(64, 63);
        if bit_length(value as int) > 127 {
            vstd::arithmetic::power2::lemma_pow2_strictly_increases(
                127,
                (bit_length(value as int) - 1) as nat,
            );
        }
    }
    while rest > 0
        invariant
            0 <= rest,
            bits + bit_length(rest as int) == bit_length(value as int),
            bit_length(value as int) <= 127,
        decreases rest,
    {
        rest = rest / 2;
        bits += 1;
    }
    bits
}

/// Finds the side of the body of the glyph of `value`.
pub fn body_side(value: i128) -> (side: usize)
    requires
        0 <= value,
    ensures
        side == frame_side(value as int),
        1 <= side <= 12,
{
    let bits = count_bits(value);
    let mut side: usize = 1;
    let mut square: usize = 1;
    while square < bits
        invariant
            bits <= 127,
            1 <= side <= 12,
            square == side * side,
            side == 1 || (side - 1) * (side - 1) < bits,
            side_from(bits as nat, side as nat) == frame_side(value as int),
        decreases 12 - side,
    {
        assert(side < 12 && side < bits && (side + 1) * (side + 1) <= 144) by (nonlinear_arith)
            requires
                side * side < bits,
                bits <= 127,
                1 <= side,
        ;
        side += 1;
        square = side * side;
    }
    side
}

/// Draws the glyph of `value`: a square of side one more than the body's, with
/// the top row and the left column set and the bits of `value` in the body.
pub fn encode_symbol(value: i128) -> (image: Image)
    requires
        0 <= value,
    ensures
        pixels(image) == glyph_of(value as int),
        image.len() == frame_side(value as int) + 1,
        frame_side(value as int) <= 12,
{
    let d = body_side(value);
    let mut image = create_empty_image(d + 1, d + 1);
    let ghost v = value as int;
    assert forall|x: int| 0 <= x <= d implies (#[trigger] image@[x]).len() == d + 1 by {
        assert(pixels(image)[x].len() == d + 1);
    }
    assert forall|x: int, y: int| 0 <= x <= d && 0 <= y <= d implies #[trigger] image@[x]@[y]
        == CLEAR by {
        assert(pixels(image)[x][y] == CLEAR);
    }
    let mut i: usize = 0;
    while i <= d
        invariant
            1 <= d <= 12,
            i <= d + 1,
            image.len() == d + 1,
            forall|x: int| 0 <= x <= d ==> (#[trigger] image@[x]).len() == d + 1,
            forall|x: int, y: int|
                0 <= x <= d && 0 <= y <= d ==> #[trigger] image@[x]@[y] == if (x == 0 && y < i) || (
                y == 0 && x < i) {
                    SET
                } else {
                    CLEAR
                },
        decreases d + 1 - i,
    {
        image[i][0] = SET;
        image[0][i] = SET;
        i += 1;
    }
    let mut rest: i128 = value;
    let mut cy: usize = 0;
    proof {
        vstd::arithmetic::power2::lemma2_to64();
        assert(cy * d == 0);
        assert(pow2(0) == 1);
        assert(v / 1 == v);
    }
    while cy < d
        invariant
            1 <= d <= 12,
            cy <= d,
            v == value,
            0 <= v,
            0 <= rest,
            rest == v / pow2((cy * d) as nat) as int,
            image.len() == d + 1,
            forall|x: int| 0 <= x <= d ==> (#[trigger] image@[x]).len() == d + 1,
            forall|x: int, y: int|
                0 <= x <= d && 0 <= y <= d ==> #[trigger] image@[x]@[y] == if y <= cy {
                    glyph_pixel(v, d as int, x, y)
                } else if x == 0 || y == 0 {
                    SET
                } else {
                    CLEAR
                },
        decreases d - cy,
    {
        let mut cx: usize = 0;
        while cx < d
            invariant
                1 <= d <= 12,
                cy < d,
                cx <= d,
                v == value,
                0 <= v,
                0 <= rest,
                rest == v / pow2((cy * d + cx) as nat) as int,
                image.len() == d + 1,
                forall|x: int| 0 <= x <= d ==> (#[trigger] image@[x]).len() == d + 1,
                forall|x: int, y: int|
                    0 <= x <= d && 0 <= y <= d ==> #[trigger] image@[x]@[y] == if y <= cy || (y
                        == cy + 1 && x <= cx) {
                        glyph_pixel(v, d as int, x, y)
                    } else if x == 0 || y == 0 {
                        SET
                    } else {
                        CLEAR
                    },
            decreases d - cx,
        {
            let ghost b: nat = (cy * d + cx) as nat;
            proof {
                assert(b == cx + cy * d) by (nonlinear_arith)
                    requires
                        b == cy * d + cx,
                ;
                vstd::arithmetic::power2::lemma_pow2_pos(b);
                vstd::arithmetic::power2::lemma_pow2_unfold(b + 1);
                vstd::arithmetic::div_mod::lemma_div_denominator(v, pow2(b) as int, 2);
                assert(pow2(b) * 2 == pow2(b + 1)) by (nonlinear_arith)
                    requires
                        pow2(b + 1) == 2 * pow2(b),
                ;
            }
            if rest % 2 == 1 {
                image[1 + cx][1 + cy] = SET;
            }
            rest = rest / 2;
            cx += 1;
        }
        proof {
            assert(cy * d + d == (cy + 1) * d) by (nonlinear_arith);
        }
        cy += 1;
    }
    assert(pixels(image) =~~= glyph_of(v));
    image
}

/// A body whose cells hold the bits of `value` spells, in its lowest `bits`
/// bits, the remainder of `value` by two to the power `bits`.
proof fn lemma_body_spells_low_bits(g: Seq<Seq<u8>>, value: int, side: int, bits: int)
    requires
        0 <= value,
        0 <= bits,
        forall|b: int| 0 <= b < bits ==> #[trigger] body_bit(g, 0, 0, SET, side, b) == bit(value, b as nat),
    ensures
        body_value(g, 0, 0, SET, side, bits) == value % pow2(bits as nat) as int,
    decreases bits,
{
    vstd::arithmetic::power2::lemma2_to64();
    if bits > 0 {
        let b = (bits - 1) as nat;
        lemma_body_spells_low_bits(g, value, side, bits - 1);
        vstd::arithmetic::power2::lemma_pow2_pos(b);
        vstd::arithmetic::power2::lemma_pow2_unfold(bits as nat);
        vstd::arithmetic::div_mod::lemma_mod_breakdown(value, pow2(b) as int, 2);
        assert(pow2(b) * 2 == pow2(bits as nat)) by (nonlinear_arith)
            requires
                pow2(bits as nat) == 2 * pow2(b),
        ;
        assert(body_bit(g, 0, 0, SET, side, bits - 1) == bit(value, b));
        let top = (value / pow2(b) as int) % 2;
        assert(top == 0 || top == 1);
        assert(pow2(b) * top == if bit(value, b) {
            pow2(b) as int
        } else {
            0
        }) by (nonlinear_arith)
            requires
                top == 0 || top == 1,
                bit(value, b) == (top == 1),
        ;
    }
}

/// Reading back what was drawn gives the number again: the body of the glyph
/// of a non-negative number spells that number.
pub proof fn lemma_decoding_inverts_encoding(value: int)
    requires
        0 <= value,
    ensures
        magnitude(glyph_of(value), 0, 0, SET, frame_side(value) as int + 1) == value,
{
    let d = frame_side(value) as int;
    let g = glyph_of(value);
    lemma_frame_side_is_least(value);
    lemma_bit_length_bounds(value);
    assert forall|b: int| 0 <= b < d * d implies #[trigger] body_bit(g, 0, 0, SET, d, b) == bit(
        value,
        b as nat,
    ) by {
        vstd::arithmetic::div_mod::lemma_fundamental_div_mod(b, d);
        vstd::arithmetic::div_mod::lemma_mod_bound(b, d);
        vstd::arithmetic::div_mod::lemma_div_pos_is_pos(b, d);
        assert(b / d < d) by (nonlinear_arith)
            requires
                b == d * (b / d) + b % d,
                0 <= b % d,
                b < d * d,
                d > 0,
        ;
        let x = 1 + b % d;
        let y = 1 + b / d;
        assert((x - 1) + (y - 1) * d == b) by (nonlinear_arith)
            requires
                b == d * (b / d) + b % d,
                x == 1 + b % d,
                y == 1 + b / d,
        ;
        assert(g[x][y] == glyph_pixel(value, d, x, y));
    }
    lemma_body_spells_low_bits(g, value, d, d * d);
    if bit_length(value) < d * d {
        vstd::arithmetic::power2::lemma_pow2_strictly_increases(
            bit_length(value),
            (d * d) as nat,
        );
    }
    vstd::arithmetic::div_mod::lemma_small_mod(value as nat, pow2((d * d) as nat));
}

proof fn lemma_search_crosses_glyph(value: int, delta: int)
    requires
        0 <= value,
        frame_side(value) + 1 <= MAX_DELTA,
        1 <= delta <= frame_side(value) + 1,
    ensures
        extent_from(glyph_of(value), 0, 0, SET, delta) == frame_side(value) + 1,
    decreases frame_side(value) + 1 - delta,
{
    let g = glyph_of(value);
    let d = frame_side(value) as int;
    if delta <= d {
        assert(g[delta][0] == SET);
        assert(g[0][delta] == SET);
        assert(grows(g, 0, 0, SET, delta));
        lemma_search_crosses_glyph(value, delta + 1);
    } else {
        assert(!grows(g, 0, 0, SET, delta));
    }
}

/// The glyph of a number that the largest body can spell has a body no wider
/// than that, and the search for its frame finds its side: the decoder reads
/// the number back from the frame it finds.
pub proof fn lemma_frame_of_glyph_is_found(value: int)
    requires
        0 <= value < body_limit(),
    ensures
        frame_side(value) + 1 <= MAX_DELTA,
        extent(glyph_of(value), 0, 0, SET) == frame_side(value) + 1,
        magnitude(glyph_of(value), 0, 0, SET, extent(glyph_of(value), 0, 0, SET)) == value,
{
    let d = frame_side(value) as int;
    let bits = bit_length(value) as int;
    lemma_bit_length_bounds(value);
    lemma_frame_side_is_least(value);
    vstd::arithmetic::power2::lemma2_to64();
    vstd::arithmetic::power2::lemma2_to64_rest();
    vstd::arithmetic::power2::lemma_pow2_adds(64, 17);
    assert(bits <= 81) by {
        if bits > 81 {
            if bits - 1 > 81 {
                vstd::arithmetic::power2::lemma_pow2_strictly_increases(81, (bits - 1) as nat);
            }
            assert(pow2(81) <= pow2((bits - 1) as nat));
        }
    }
    assert(d <= 9) by (nonlinear_arith)
        requires
            d == 1 || (d - 1) * (d - 1) < bits,
            bits <= 81,
            d >= 1,
    ;
    lemma_search_crosses_glyph(value, 1);
    lemma_decoding_inverts_encoding(value);
}

/// A number below two to the power of a square has a body no wider than the
/// square's side.
pub proof fn lemma_frame_side_bound(value: int, side: nat)
    requires
        0 <= value < pow2(side * side),
        1 <= side,
    ensures
        frame_side(value) <= side,
{
    let d = frame_side(value) as int;
    let bits = bit_length(value) as int;
    lemma_bit_length_bounds(value);
    lemma_frame_side_is_least(value);
    if bits > side * side {
        if bits - 1 > side * side {
            vstd::arithmetic::power2::lemma_pow2_strictly_increases(
                side * side,
                (bits - 1) as nat,
            );
        }
        assert(pow2(side * side) <= pow2((bits - 1) as nat));
    }
    assert(d <= side) by (nonlinear_arith)
        requires
            d == 1 || (d - 1) * (d - 1) < bits,
            bits <= side * side,
            side >= 1,
            d >= 1,
    ;
}

} // verus!
