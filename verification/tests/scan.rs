use glyph_codec::glyph::{Glyph, GlyphType};
use glyph_codec::grid::{create_empty_image, create_empty_mask, ImageWrapper};
use glyph_codec::scan::{
    mark_parsed, parse_image, symbols_of, tokens_of, try_parse_image, PlacedGlyph,
};

fn grid_of(rows: &[&str]) -> ImageWrapper {
    let height = rows.len();
    let width = rows[0].len();
    let mut image = create_empty_image(width, height);
    for (y, row) in rows.iter().enumerate() {
        assert_eq!(row.len(), width);
        for (x, c) in row.chars().enumerate() {
            if c == '#' {
                image[x][y] = 1;
            }
        }
    }
    ImageWrapper { image, height, width }
}

fn scan_of(rows: &[&str]) -> (Vec<PlacedGlyph>, Vec<Vec<bool>>) {
    let iw = grid_of(rows);
    let mut mask = create_empty_mask(iw.width, iw.height);
    let found = try_parse_image(&iw, &mut mask).expect("the scan stays inside the grid");
    (found, mask)
}

fn taken(mask: &Vec<Vec<bool>>) -> Vec<String> {
    let width = mask.len();
    let height = mask[0].len();
    (0..height)
        .map(|y| (0..width).map(|x| if mask[x][y] { 'x' } else { '.' }).collect())
        .collect()
}

const THREE_GLYPHS: [&str; 12] = [
    "..............",
    "......###.....",
    "......#.#.....",
    "......##......",
    "..#...........",
    ".##...........",
    ".#.....####...",
    ".......#.#....",
    ".......##.....",
    ".......#..#...",
    "..............",
    "..............",
];

#[test]
fn glyphs_come_in_the_order_of_their_anchors() {
    let (found, _) = scan_of(&THREE_GLYPHS);
    let anchors: Vec<(usize, usize)> = found.iter().map(|p| (p.x, p.y)).collect();
    assert_eq!(anchors, vec![(6, 1), (1, 4), (7, 6)]);
    let sizes: Vec<(usize, usize)> = found.iter().map(|p| (p.dx, p.dy)).collect();
    assert_eq!(sizes, vec![(3, 3), (2, 3), (4, 4)]);
    let glyphs: Vec<Glyph> = found.iter().map(|p| p.glyph).collect();
    assert_eq!(
        glyphs,
        vec![Glyph::Command(6), Glyph::Integer(-1), Glyph::Command(2 + 8 + 256)]
    );
    let kinds: Vec<GlyphType> = found.iter().map(|p| p.glyph_type).collect();
    assert_eq!(kinds, vec![GlyphType::Command, GlyphType::Integer, GlyphType::Command]);
}

#[test]
fn tokens_leave_out_bare_numbers() {
    let (found, _) = scan_of(&THREE_GLYPHS);
    assert_eq!(
        tokens_of(&found),
        vec![(6, Glyph::Command(6)), (266, Glyph::Command(266))]
    );
}

#[test]
fn scan_takes_exactly_the_boxes() {
    let (_, mask) = scan_of(&THREE_GLYPHS);
    assert_eq!(
        taken(&mask),
        vec![
            "..............",
            "......xxx.....",
            "......xxx.....",
            "......xxx.....",
            ".xx...........",
            ".xx...........",
            ".xx....xxxx...",
            ".......xxxx...",
            ".......xxxx...",
            ".......xxxx...",
            "..............",
            "..............",
        ]
    );
}

#[test]
fn every_taken_cell_lies_in_one_box() {
    let (found, mask) = scan_of(&THREE_GLYPHS);
    for x in 0..mask.len() {
        for y in 0..mask[x].len() {
            let owners = found
                .iter()
                .filter(|p| p.x <= x && x < p.x + p.dx && p.y <= y && y < p.y + p.dy)
                .count();
            assert_eq!(owners, if mask[x][y] { 1 } else { 0 });
        }
    }
}

#[test]
fn parse_image_agrees_with_the_checked_scan() {
    let iw = grid_of(&THREE_GLYPHS);
    let mut first = create_empty_mask(iw.width, iw.height);
    let mut second = create_empty_mask(iw.width, iw.height);
    let checked = try_parse_image(&iw, &mut first).unwrap();
    let plain = parse_image(&iw, &mut second);
    assert_eq!(first, second);
    assert_eq!(checked.len(), plain.len());
    for (a, b) in checked.iter().zip(plain.iter()) {
        assert_eq!(
            (a.x, a.y, a.dx, a.dy, a.value, a.frame_value, a.glyph),
            (b.x, b.y, b.dx, b.dy, b.value, b.frame_value, b.glyph)
        );
    }
}

#[test]
fn taken_cells_are_not_decoded_again() {
    // The body of the first glyph holds what would pass for an anchor.
    let rows = [
        "........",
        ".####...",
        ".#......",
        ".#.##...",
        ".#.#....",
        "........",
        "........",
        "........",
    ];
    let (found, _) = scan_of(&rows);
    assert_eq!(found.len(), 1);
    assert_eq!((found[0].x, found[0].y, found[0].dx, found[0].dy), (1, 1, 4, 4));
    assert_eq!(found[0].glyph, Glyph::Command(16 + 32 + 128));

    let iw = grid_of(&rows);
    let mut mask = create_empty_mask(iw.width, iw.height);
    mark_parsed(&mut mask, 1, 1, 4, 1);
    let found = try_parse_image(&iw, &mut mask).unwrap();
    let anchors: Vec<(usize, usize)> = found.iter().map(|p| (p.x, p.y)).collect();
    assert_eq!(anchors, vec![(3, 3)]);
}

#[test]
fn boxes_may_overlap_where_a_frame_runs_into_an_earlier_glyph() {
    // The glyph at (1, 2) begins outside the box of the glyph at (3, 1), and
    // its top row runs into that box.
    let (found, _) = scan_of(&[
        ".........",
        "....##...",
        "..####...",
        ".#.#.....",
        ".#.......",
        ".........",
        ".........",
    ]);
    let boxes: Vec<(usize, usize, usize, usize)> =
        found.iter().map(|p| (p.x, p.y, p.dx, p.dy)).collect();
    assert_eq!(boxes, vec![(3, 1, 3, 3), (1, 2, 3, 3)]);
}

#[test]
fn unresolved_frame_is_reported_once() {
    let (found, _) = scan_of(&[
        ".......",
        ".####..",
        ".####..",
        ".####..",
        ".####..",
        ".......",
        ".......",
    ]);
    assert_eq!(found.len(), 1);
    assert!(found[0].unresolved);
    assert_eq!(found[0].glyph, Glyph::Command(511));
    assert_eq!(found.iter().filter(|p| p.unresolved).count(), 1);
    assert_eq!(tokens_of(&found), vec![(511, Glyph::Command(511))]);
    assert_eq!(symbols_of(&found), vec![(511, Glyph::Command(511))]);
}

#[test]
fn variable_token_has_the_value_of_the_glyph_inside() {
    let (found, _) = scan_of(&[
        ".......",
        ".####..",
        ".##.#..",
        ".#..#..",
        ".####..",
        ".......",
        ".......",
    ]);
    assert_eq!(found.len(), 1);
    assert_eq!(found[0].glyph_type, GlyphType::Variable);
    assert_eq!(found[0].value, 1);
    assert_eq!(found[0].frame_value, 485);
    assert_eq!(tokens_of(&found), vec![(1, Glyph::Variable(1))]);
    assert_eq!(symbols_of(&found), vec![(485, Glyph::Variable(1))]);
}

#[test]
fn scan_that_leaves_the_grid_gives_no_answer() {
    let iw = grid_of(&[
        "......",
        "......",
        "..###.",
        ".#....",
        ".#....",
        ".#....",
    ]);
    let mut mask = create_empty_mask(iw.width, iw.height);
    assert!(try_parse_image(&iw, &mut mask).is_none());
}

#[test]
fn small_grids_hold_no_glyph() {
    for (width, height) in [(0, 0), (0, 5), (5, 0), (1, 1), (2, 7), (7, 2), (3, 3)] {
        let iw = ImageWrapper { image: create_empty_image(width, height), height, width };
        let mut mask = create_empty_mask(width, height);
        assert_eq!(try_parse_image(&iw, &mut mask).unwrap().len(), 0);
    }
}

#[test]
fn mark_parsed_sets_a_box() {
    let mut mask = create_empty_mask(4, 3);
    mark_parsed(&mut mask, 1, 0, 2, 2);
    assert_eq!(taken(&mask), vec![".xx.", ".xx.", "...."]);
    mark_parsed(&mut mask, 3, 2, 1, 1);
    mark_parsed(&mut mask, 0, 0, 0, 3);
    mark_parsed(&mut mask, 0, 0, 4, 0);
    assert_eq!(taken(&mask), vec![".xx.", ".xx.", "...x"]);
}

#[test]
fn mark_parsed_takes_an_empty_box_anywhere() {
    let mut mask = create_empty_mask(3, 3);
    mark_parsed(&mut mask, 1, 1, 1, 1);
    mark_parsed(&mut mask, 0, 10, 1, 0);
    mark_parsed(&mut mask, 10, 0, 0, 1);
    mark_parsed(&mut mask, 10, 10, 5, 0);
    mark_parsed(&mut mask, 10, 10, 0, 5);
    assert_eq!(taken(&mask), vec!["...", ".x.", "..."]);
}

#[test]
fn mark_parsed_twice_changes_nothing() {
    let mut mask = create_empty_mask(4, 4);
    mark_parsed(&mut mask, 1, 1, 2, 3);
    let once = mask.clone();
    mark_parsed(&mut mask, 1, 1, 2, 3);
    assert_eq!(mask, once);
}

#[test]
fn stopped_scan_leaves_the_boxes_found_so_far() {
    let iw = grid_of(&[
        ".......",
        ".##....",
        ".#.....",
        "....###",
        "...#...",
        "...#...",
        "...#...",
    ]);
    let mut mask = create_empty_mask(iw.width, iw.height);
    assert!(try_parse_image(&iw, &mut mask).is_none());
    assert_eq!(
        taken(&mask),
        vec![".......", ".xx....", ".xx....", ".......", ".......", ".......", "......."]
    );
}
