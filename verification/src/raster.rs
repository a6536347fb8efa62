//! Reading a pixel grid from a decoded picture.

use vstd::prelude::*;
use crate::grid::{two_coloured, Image, ImageWrapper};

verus! {

/// A decoded picture of any pixel format.
#[verifier::external_type_specification]
#[verifier::external_body]
pub struct ExDynamicImage(image::DynamicImage);

/// A picture as a buffer of pixels of three channels, eight bits each.
#[verifier::external_body]
pub struct Raster {
    inner: image::RgbImage,
}

/// The pixels of a picture, column by column, each as red, green and blue.
pub uninterp spec fn raster_columns(raster: Raster) -> Seq<Seq<(u8, u8, u8)>>;

/// The number of rows of a picture.
pub uninterp spec fn raster_height(raster: Raster) -> int;

/// The pixels of a decoded picture after their conversion to three channels
/// of eight bits, column by column.
pub uninterp spec fn rgb_columns(picture: image::DynamicImage) -> Seq<Seq<(u8, u8, u8)>>;

/// The number of rows of a decoded picture.
pub uninterp spec fn rgb_height(picture: image::DynamicImage) -> int;

/// `DynamicImage::to_rgb8`: a copy of the picture with its pixels converted to
/// three channels of eight bits. The copy is a function of the picture alone:
/// it holds the pixels that the two names above stand for.
#[verifier::external_body]
fn to_raster(picture: &image::DynamicImage) -> (raster: Raster)
    ensures
        raster_columns(raster) == rgb_columns(*picture),
        raster_height(raster) == rgb_height(*picture),
{
    Raster { inner: picture.to_rgb8() }
}

/// `ImageBuffer::dimensions`: the width and the height of the picture. The
/// width is the number of its columns, and every column has the height's
/// length.
#[verifier::external_body]
fn raster_dimensions(raster: &Raster) -> (dims: (u32, u32))
    ensures
        dims.0 == raster_columns(*raster).len(),
        dims.1 == raster_height(*raster),
        forall|x: int| 0 <= x < dims.0 ==> (#[trigger] raster_columns(*raster)[x]).len() == dims.1,
{
    raster.inner.dimensions()
}

/// `ImageBuffer::get_pixel`: the pixel in column `x` and row `y`, which must
/// lie in the picture.
#[verifier::external_body]
fn raster_pixel(raster: &Raster, x: u32, y: u32) -> (rgb: (u8, u8, u8))
    requires
        x < raster_columns(*raster).len(),
        y < raster_height(*raster),
    ensures
        rgb == raster_columns(*raster)[x as int][y as int],
{
    let pixel = raster.inner.get_pixel(x, y);
    (pixel.0[0], pixel.0[1], pixel.0[2])
}

/// Every fourth pixel of every fourth row of a picture makes a cell of the
/// grid.
pub const SCALE: u32 = 4;

/// The pixel is black or white.
pub open spec fn known_pixel(rgb: (u8, u8, u8)) -> bool {
    rgb == (0u8, 0u8, 0u8) || rgb == (255u8, 255u8, 255u8)
}

/// The value of a pixel: 0 for black, 1 for white.
pub open spec fn value_of(rgb: (u8, u8, u8)) -> u8 {
    if rgb == (255u8, 255u8, 255u8) {
        1
    } else {
        0
    }
}

/// Tests whether a pixel is black or white.
pub fn is_known_pixel(rgb: (u8, u8, u8)) -> (known: bool)
    ensures
        known == known_pixel(rgb),
{
    (rgb.0 == 0 && rgb.1 == 0 && rgb.2 == 0) || (rgb.0 == 255 && rgb.1 == 255 && rgb.2 == 255)
}

/// The value of a black or white pixel.
pub fn rgb_to_value(rgb: (u8, u8, u8)) -> (value: u8)
    requires
        known_pixel(rgb),
    ensures
        value == value_of(rgb),
{
    if rgb.0 == 0 {
        0
    } else {
        1
    }
}

/// The cell `(x, y)` of the grid read from a picture: the pixel `SCALE` times
/// as far right and down.
pub open spec fn sample(columns: Seq<Seq<(u8, u8, u8)>>, x: int, y: int) -> (u8, u8, u8) {
    columns[SCALE * x][SCALE * y]
}

/// Every pixel of the picture that makes a cell of a grid of `width` by
/// `height` cells is black or white.
pub open spec fn readable(columns: Seq<Seq<(u8, u8, u8)>>, width: int, height: int) -> bool {
    forall|x: int, y: int|
        0 <= x < width && 0 <= y < height ==> known_pixel(#[trigger] sample(columns, x, y))
}

/// `grid` is the grid of the picture with the pixels `columns` in `height`
/// rows: a quarter as wide and as high, rounded down, with the value of every
/// fourth pixel of every fourth row.
pub open spec fn grid_of(columns: Seq<Seq<(u8, u8, u8)>>, height: int, grid: ImageWrapper) -> bool {
    &&& grid.wf()
    &&& grid.width == columns.len() as int / SCALE as int
    &&& grid.height == height / SCALE as int
    &&& forall|x: int, y: int|
        0 <= x < grid.width && 0 <= y < grid.height ==> #[trigger] grid@[x][y] == value_of(
            sample(columns, x, y),
        )
}

/// Reads the grid of a picture. There is no grid if one of the pixels that
/// make a cell is neither black nor white.
pub fn read_grid(raster: &Raster) -> (grid: Option<ImageWrapper>)
    ensures
        grid is Some <==> readable(
            raster_columns(*raster),
            raster_columns(*raster).len() as int / SCALE as int,
            raster_height(*raster) / SCALE as int,
        ),
        grid is Some ==> grid_of(raster_columns(*raster), raster_height(*raster), grid->0),
        grid is Some ==> two_coloured(grid->0@),
{
    let ghost columns = raster_columns(*raster);
    let dims = raster_dimensions(raster);
    let width = dims.0 / SCALE;
    let height = dims.1 / SCALE;
    let mut image: Image = Vec::new();
    let mut x: u32 = 0;
    while x < width
        invariant
            x <= width,
            columns == raster_columns(*raster),
            dims.0 == columns.len(),
            dims.1 == raster_height(*raster),
            forall|i: int| 0 <= i < dims.0 ==> (#[trigger] columns[i]).len() == dims.1,
            width == dims.0 / SCALE,
            height == dims.1 / SCALE,
            image@.len() == x,
            forall|i: int| 0 <= i < x ==> (#[trigger] image@[i])@.len() == height,
            forall|i: int, j: int|
                0 <= i < x && 0 <= j < height ==> known_pixel(#[trigger] sample(columns, i, j))
                    && image@[i]@[j] == value_of(sample(columns, i, j)),
        decreases width - x,
    {
        let mut column: Vec<u8> = Vec::new();
        let mut y: u32 = 0;
        while y < height
            invariant
                x < width,
                y <= height,
                columns == raster_columns(*raster),
                dims.0 == columns.len(),
                dims.1 == raster_height(*raster),
                width == dims.0 / SCALE,
                height == dims.1 / SCALE,
                column@.len() == y,
                forall|j: int|
                    0 <= j < y ==> known_pixel(#[trigger] sample(columns, x as int, j))
                        && column@[j] == value_of(sample(columns, x as int, j)),
            decreases height - y,
        {
            let rgb = raster_pixel(raster, SCALE * x, SCALE * y);
            assert(rgb == sample(columns, x as int, y as int));
            if !is_known_pixel(rgb) {
                return None;
            }
            column.push(rgb_to_value(rgb));
            y += 1;
        }
        image.push(column);
        x += 1;
    }
    let grid = ImageWrapper { image, height: height as usize, width: width as usize };
    assert forall|i: int, j: int| 0 <= i < grid.width && 0 <= j < grid.height implies #[trigger] grid@[i][j]
        == value_of(sample(columns, i, j)) by {
        assert(known_pixel(sample(columns, i, j)));
        assert(grid@[i] == grid.image@[i]@);
    }
    assert forall|i: int| 0 <= i < grid.width implies (#[trigger] grid@[i]).len() == grid.height by {
        assert(grid@[i] == grid.image@[i]@);
    }
    assert forall|i: int, j: int| 0 <= i < grid@.len() && 0 <= j < grid@[i].len() implies #[trigger] grid@[i][j]
        == 0 || grid@[i][j] == 1 by {
        assert(grid@[i][j] == value_of(sample(columns, i, j)));
    }
    Some(grid)
}

/// Reads the grid of a decoded picture from its pixels as converted to three
/// channels. There is no grid if one of the pixels that make a cell is neither
/// black nor white.
pub fn grid_of_picture(picture: &image::DynamicImage) -> (grid: Option<ImageWrapper>)
    ensures
        grid is Some <==> readable(
            rgb_columns(*picture),
            rgb_columns(*picture).len() as int / SCALE as int,
            rgb_height(*picture) / SCALE as int,
        ),
        grid is Some ==> grid_of(rgb_columns(*picture), rgb_height(*picture), grid->0),
        grid is Some ==> two_coloured(grid->0@),
{
    let raster = to_raster(picture);
    read_grid(&raster)
}

} // verus!
