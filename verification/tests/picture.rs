use glyph_codec::glyph::{Glyph, GlyphType};
use glyph_codec::grid::{create_empty_image, ImageWrapper};
use glyph_codec::picture::{annotate, draw_pixels, parse_picture};
use glyph_codec::scan::{symbols_of, tokens_of, PlacedGlyph};
use glyph_codec::svg::Svg;
use glyph_codec::symbols::SymbolTable;

const LABEL_STYLE: &str = "dominant-baseline='middle' text-anchor='middle' fill='white' style='paint-order: stroke; fill: white; stroke: black; stroke-width: 2px; font: 18px bold sans;'";

fn grid_of(rows: &[&str]) -> ImageWrapper {
    let height = rows.len();
    let width = rows[0].len();
    let mut image = create_empty_image(width, height);
    for (y, row) in rows.iter().enumerate() {
        for (x, c) in row.chars().enumerate() {
            if c == '#' {
                image[x][y] = 1;
            }
        }
    }
    ImageWrapper { image, height, width }
}

fn pixel(x: usize, y: usize, color: &str) -> String {
    format!("<rect x='{}' y='{}' width='7' height='7' style='fill:{}'/>\n", x * 8, y * 8, color)
}

fn label(x: usize, y: usize, dx: usize, dy: usize, text: &str, color: &str) -> String {
    format!(
        "<rect x='{}' y='{}' width='{}' height='{}' style='fill:{};opacity:0.5'/>\n<text x='{}' y='{}' {}>{}</text>\n",
        x * 8 - 3,
        y * 8 - 3,
        dx * 8 + 6,
        dy * 8 + 6,
        color,
        8 * x + 8 * dx / 2,
        8 * y + 8 * dy / 2,
        LABEL_STYLE,
        text
    )
}

#[test]
fn pixels_are_drawn_row_by_row() {
    let iw = grid_of(&["#.", ".#", ".."]);
    let mut svg = Svg { text: String::new() };
    draw_pixels(&mut svg, &iw);
    assert_eq!(
        svg.text,
        [
            pixel(0, 0, "white"),
            pixel(1, 0, "#333333"),
            pixel(0, 1, "#333333"),
            pixel(1, 1, "white"),
            pixel(0, 2, "#333333"),
            pixel(1, 2, "#333333"),
        ]
        .concat()
    );
}

#[test]
fn glyphs_are_boxed_in_their_order() {
    let table = SymbolTable::standard();
    let found = vec![
        PlacedGlyph {
            x: 1,
            y: 2,
            dx: 3,
            dy: 4,
            value: -5,
            glyph_type: GlyphType::Integer,
            glyph: Glyph::Integer(-5),
            frame_value: -5,
            unresolved: false,
        },
        PlacedGlyph {
            x: 6,
            y: 2,
            dx: 4,
            dy: 4,
            value: 1,
            glyph_type: GlyphType::Variable,
            glyph: Glyph::Variable(1),
            frame_value: 485,
            unresolved: false,
        },
    ];
    let mut svg = Svg { text: String::new() };
    annotate(&mut svg, &table, &found);
    assert_eq!(
        svg.text,
        [label(1, 2, 3, 4, "-5", "green"), label(6, 2, 4, 4, "x1", "blue")].concat()
    );
}

#[test]
fn picture_of_a_grid_with_one_command() {
    let rows = [".....", ".##..", ".#...", ".....", "....."];
    let iw = grid_of(&rows);
    let table = SymbolTable::standard();
    let parsed = parse_picture(&iw, &table).unwrap();
    assert_eq!(parsed.found.len(), 1);
    assert_eq!(tokens_of(&parsed.found), vec![(0, Glyph::Command(0))]);
    let mut expected = String::from(
        "<svg xmlns='http://www.w3.org/2000/svg' version='1.1' width='40' height='40'>\n\
         <rect width='100%' height='100%' style='fill:black'/>\n",
    );
    for (y, row) in rows.iter().enumerate() {
        for (x, c) in row.chars().enumerate() {
            expected += &pixel(x, y, if c == '#' { "white" } else { "#333333" });
        }
    }
    expected += &label(1, 1, 2, 2, "ap", "yellow");
    expected += "</svg>";
    assert_eq!(parsed.svg.text, expected);
}

#[test]
fn picture_of_a_grid_that_the_scan_leaves_has_no_answer() {
    let iw = grid_of(&[
        "......",
        "......",
        "..###.",
        ".#....",
        ".#....",
        ".#....",
    ]);
    assert!(parse_picture(&iw, &SymbolTable::standard()).is_none());
}

#[test]
fn picture_of_a_grid_with_one_variable() {
    let rows = [".......", ".####..", ".##.#..", ".#..#..", ".####..", ".......", "......."];
    let iw = grid_of(&rows);
    let table = SymbolTable::standard();
    let parsed = parse_picture(&iw, &table).unwrap();
    assert_eq!(tokens_of(&parsed.found), vec![(1, Glyph::Variable(1))]);
    assert_eq!(symbols_of(&parsed.found), vec![(485, Glyph::Variable(1))]);
    assert!(parsed.svg.text.ends_with(&[label(1, 1, 4, 4, "x1", "blue"), "</svg>".to_string()].concat()));
}
