use glyph_codec::decode::{
    anchor_test, body_magnitude, find_delta, is_decodable, is_full_frame, try_parse_symbol,
};
use glyph_codec::glyph::{Glyph, GlyphType, ParseResult};
use glyph_codec::grid::{create_empty_image, ImageWrapper};

/// Builds a grid from rows of text: `#` is a set pixel, anything else clear.
fn grid(rows: &[&str]) -> ImageWrapper {
    let height = rows.len();
    let width = rows[0].len();
    let mut image = create_empty_image(width, height);
    for (y, row) in rows.iter().enumerate() {
        assert_eq!(row.len(), width);
        for (x, c) in row.chars().enumerate() {
            if c == '#' {
                image[x][y] = 1;
            }
        }
    }
    ImageWrapper { image, height, width }
}

fn expect_glyph(result: ParseResult) -> (usize, usize, i128, GlyphType, Glyph, bool) {
    match result {
        ParseResult::NoGlyph => panic!("no glyph"),
        ParseResult::GenericGlyph { dx, dy, value, glyph_type, glyph, unresolved, .. } => {
            (dx, dy, value, glyph_type, glyph, unresolved)
        }
    }
}

fn frame_value_of(result: ParseResult) -> i128 {
    match result {
        ParseResult::NoGlyph => panic!("no glyph"),
        ParseResult::GenericGlyph { frame_value, .. } => frame_value,
    }
}

#[test]
fn bare_number_three_in_a_frame_of_three() {
    let iw = grid(&[
        ".......",
        "..##...",
        ".###...",
        ".#.....",
        ".......",
        ".......",
        ".......",
    ]);
    assert!(is_decodable(&iw, 1, 1, 1));
    let (dx, dy, value, kind, glyph, unresolved) = expect_glyph(try_parse_symbol(&iw, 1, 1, 1));
    assert_eq!(value, 3);
    assert_eq!(kind, GlyphType::Integer);
    assert_eq!(glyph, Glyph::Integer(3));
    assert_eq!((dx, dy), (3, 3));
    assert_eq!((dx - 1, dy - 1), (2, 2));
    assert!(!unresolved);
}

#[test]
fn no_glyph_without_anchor() {
    let iw = grid(&[
        ".....",
        ".....",
        "..#..",
        ".....",
        ".....",
    ]);
    assert!(matches!(try_parse_symbol(&iw, 1, 1, 1), ParseResult::NoGlyph));
    assert!(matches!(try_parse_symbol(&iw, 2, 2, 1), ParseResult::NoGlyph));
    assert!(!anchor_test(&iw, 2, 2, 1));
}

#[test]
fn anchor_needs_clear_cells_left_and_above() {
    let iw = grid(&[
        ".....",
        ".###.",
        ".##..",
        ".#...",
        ".....",
    ]);
    assert!(anchor_test(&iw, 1, 1, 1));
    assert!(!anchor_test(&iw, 2, 1, 1));
    assert!(!anchor_test(&iw, 1, 2, 1));
}

#[test]
fn sign_cell_negates_and_adds_a_row() {
    let iw = grid(&[
        "......",
        "..##..",
        ".###..",
        ".#.#..",
        ".#....",
        "......",
    ]);
    let (dx, dy, value, kind, glyph, _) = expect_glyph(try_parse_symbol(&iw, 1, 1, 1));
    assert_eq!(body_magnitude(&iw, 1, 1, 1, 3), 1 + 2 + 8);
    assert_eq!(value, -11);
    assert_eq!(frame_value_of(try_parse_symbol(&iw, 1, 1, 1)), -11);
    assert_eq!((dx, dy), (3, 4));
    assert_eq!(kind, GlyphType::Integer);
    assert_eq!(glyph, Glyph::Integer(-11));
}

#[test]
fn set_anchor_with_open_frame_is_command() {
    let iw = grid(&[
        "......",
        ".###..",
        ".#.#..",
        ".##...",
        "......",
        "......",
    ]);
    assert!(!is_full_frame(&iw, 1, 1, 3));
    let (dx, dy, value, kind, glyph, unresolved) = expect_glyph(try_parse_symbol(&iw, 1, 1, 1));
    assert_eq!(value, 2 + 4);
    assert_eq!(kind, GlyphType::Command);
    assert_eq!(glyph, Glyph::Command(6));
    assert_eq!((dx, dy), (3, 3));
    assert!(!unresolved);
}

#[test]
fn closed_frame_with_glyph_inside_is_variable() {
    // The frame of side 4 is closed; inside, with colours exchanged, stands the
    // bare number 1: a frame of side 2 whose single body cell is clear.
    let iw = grid(&[
        ".......",
        ".####..",
        ".##.#..",
        ".#..#..",
        ".####..",
        ".......",
        ".......",
    ]);
    assert!(is_full_frame(&iw, 1, 1, 4));
    assert!(is_decodable(&iw, 1, 1, 1));
    let inner = expect_glyph(try_parse_symbol(&iw, 2, 2, 0));
    assert_eq!(inner.2, 1);
    assert_eq!(inner.3, GlyphType::Integer);
    let (dx, dy, value, kind, glyph, unresolved) = expect_glyph(try_parse_symbol(&iw, 1, 1, 1));
    assert_eq!(kind, GlyphType::Variable);
    assert_eq!(glyph, Glyph::Variable(1));
    assert_eq!(value, 1);
    assert_eq!(frame_value_of(try_parse_symbol(&iw, 1, 1, 1)), 1 + 4 + 32 + 64 + 128 + 256);
    assert_eq!((dx, dy), (4, 4));
    assert!(!unresolved);
}

#[test]
fn closed_frame_without_glyph_inside_is_unresolved_command() {
    let iw = grid(&[
        ".......",
        ".####..",
        ".####..",
        ".####..",
        ".####..",
        ".......",
        ".......",
    ]);
    assert!(is_full_frame(&iw, 1, 1, 4));
    assert!(matches!(try_parse_symbol(&iw, 2, 2, 0), ParseResult::NoGlyph));
    let (dx, dy, value, kind, glyph, unresolved) = expect_glyph(try_parse_symbol(&iw, 1, 1, 1));
    assert_eq!(kind, GlyphType::Command);
    assert_eq!(value, 511);
    assert_eq!(frame_value_of(try_parse_symbol(&iw, 1, 1, 1)), 511);
    assert_eq!(glyph, Glyph::Command(511));
    assert_eq!((dx, dy), (4, 4));
    assert!(unresolved);
}

#[test]
fn right_edge_is_probed_in_the_second_row_only() {
    // The right edge has a hole in its third row: the frame still counts as
    // closed.
    let iw = grid(&[
        ".......",
        ".####..",
        ".#..#..",
        ".#.#...",
        ".####..",
        ".......",
        ".......",
    ]);
    assert!(is_full_frame(&iw, 1, 1, 4));
    // A hole in the second row opens it.
    let open = grid(&[
        ".......",
        ".####..",
        ".#.#...",
        ".#..#..",
        ".####..",
        ".......",
        ".......",
    ]);
    assert!(!is_full_frame(&open, 1, 1, 4));
}

#[test]
fn frame_search_stops_at_the_limit() {
    let mut rows: Vec<String> = Vec::new();
    rows.push(".".repeat(16));
    rows.push(format!(".{}", "#".repeat(15)));
    for _ in 0..14 {
        rows.push(format!(".#{}", ".".repeat(14)));
    }
    let refs: Vec<&str> = rows.iter().map(|r| r.as_str()).collect();
    let mut iw = grid(&refs);
    iw.image[1][1] = 0;
    assert_eq!(find_delta(&iw, 1, 1, 1), 10);
    let (dx, dy, value, _, _, _) = expect_glyph(try_parse_symbol(&iw, 1, 1, 1));
    assert_eq!(value, -0);
    assert_eq!((dx, dy), (10, 11));
}

#[test]
fn frame_search_stops_at_the_grid_edge() {
    let iw = grid(&[
        ".....",
        "..###",
        ".#...",
        ".#...",
        ".....",
    ]);
    assert_eq!(find_delta(&iw, 1, 1, 1), 3);
    assert!(is_decodable(&iw, 1, 1, 1));
}

#[test]
fn glyph_reaching_the_last_row_is_not_decodable() {
    let iw = grid(&[
        ".....",
        "..###",
        ".#...",
        ".#...",
        ".#...",
    ]);
    assert_eq!(find_delta(&iw, 1, 1, 1), 4);
    assert!(!is_decodable(&iw, 1, 1, 1));
    assert!(!is_decodable(&iw, 0, 1, 1));
    assert!(!is_decodable(&iw, 1, 4, 1));
    assert!(!is_decodable(&iw, 4, 1, 1));
    assert!(is_decodable(&iw, 3, 3, 1));
}

#[test]
fn largest_body_fits_the_value() {
    let mut rows: Vec<String> = Vec::new();
    rows.push(".".repeat(13));
    rows.push(format!("..{}..", "#".repeat(9)));
    for _ in 0..9 {
        rows.push(format!(".{}..", "#".repeat(10)));
    }
    rows.push(".".repeat(13));
    rows.push(".".repeat(13));
    let refs: Vec<&str> = rows.iter().map(|r| r.as_str()).collect();
    let iw = grid(&refs);
    let (dx, dy, value, kind, _, _) = expect_glyph(try_parse_symbol(&iw, 1, 1, 1));
    assert_eq!((dx, dy), (10, 10));
    assert_eq!(kind, GlyphType::Integer);
    assert_eq!(value, (1i128 << 81) - 1);
}
