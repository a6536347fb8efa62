//! Pixel grids and consumption masks, stored column by column.

use vstd::prelude::*;

verus! {

/// A pixel grid: `image[x][y]` is the pixel in column `x`, row `y`.
pub type Image = Vec<Vec<u8>>;

/// A mask of the same shape: `parsed[x][y]` says that a glyph took the cell.
pub type BooleanGrid = Vec<Vec<bool>>;

/// The pixel value of the background.
pub const CLEAR: u8 = 0;

/// The pixel value of the foreground.
pub const SET: u8 = 1;

/// The columns of an image as sequences.
pub open spec fn pixels(image: Image) -> Seq<Seq<u8>> {
    Seq::new(image@.len(), |x: int| image@[x]@)
}

/// The columns of a mask as sequences.
pub open spec fn flags(parsed: BooleanGrid) -> Seq<Seq<bool>> {
    Seq::new(parsed@.len(), |x: int| parsed@[x]@)
}

/// `g` has `width` columns of `height` cells each.
pub open spec fn rectangular<T>(g: Seq<Seq<T>>, width: int, height: int) -> bool {
    &&& g.len() == width
    &&& forall|x: int| 0 <= x < width ==> (#[trigger] g[x]).len() == height
}

/// Every pixel of `g` is clear or set.
pub open spec fn two_coloured(g: Seq<Seq<u8>>) -> bool {
    forall|x: int, y: int|
        0 <= x < g.len() && 0 <= y < g[x].len() ==> #[trigger] g[x][y] == CLEAR || g[x][y] == SET
}

/// A pixel grid together with its dimensions.
pub struct ImageWrapper {
    pub image: Image,
    pub height: usize,
    pub width: usize,
}

impl ImageWrapper {
    /// The pixels as a sequence of columns.
    pub open spec fn view(&self) -> Seq<Seq<u8>> {
        pixels(self.image)
    }

    /// The recorded dimensions are those of the pixel data.
    pub open spec fn wf(&self) -> bool {
        rectangular(self@, self.width as int, self.height as int)
    }
}

/// A grid of `width` columns and `height` rows with every pixel clear.
pub fn create_empty_image(width: usize, height: usize) -> (image: Image)
    ensures
        rectangular(pixels(image), width as int, height as int),
        forall|x: int, y: int|
            0 <= x < width && 0 <= y < height ==> #[trigger] pixels(image)[x][y] == CLEAR,
{
    let mut image: Image = Vec::new();
    let mut x: usize = 0;
    while x < width
        invariant
            x <= width,
            image@.len() == x,
            forall|i: int| 0 <= i < x ==> (#[trigger] image@[i])@.len() == height,
            forall|i: int, j: int|
                0 <= i < x && 0 <= j < height ==> #[trigger] image@[i]@[j] == CLEAR,
        decreases width - x,
    {
        let mut column: Vec<u8> = Vec::new();
        let mut y: usize = 0;
        while y < height
            invariant
                y <= height,
                column@.len() == y,
                forall|j: int| 0 <= j < y ==> column@[j] == CLEAR,
            decreases height - y,
        {
            column.push(CLEAR);
            y += 1;
        }
        image.push(column);
        x += 1;
    }
    image
}

/// A mask of `width` columns and `height` rows with every cell free.
pub fn create_empty_mask(width: usize, height: usize) -> (parsed: BooleanGrid)
    ensures
        rectangular(flags(parsed), width as int, height as int),
        forall|x: int, y: int| 0 <= x < width && 0 <= y < height ==> !#[trigger] flags(parsed)[x][y],
{
    let mut parsed: BooleanGrid = Vec::new();
    let mut x: usize = 0;
    while x < width
        invariant
            x <= width,
            parsed@.len() == x,
            forall|i: int| 0 <= i < x ==> (#[trigger] parsed@[i])@.len() == height,
            forall|i: int, j: int| 0 <= i < x && 0 <= j < height ==> !#[trigger] parsed@[i]@[j],
        decreases width - x,
    {
        let mut column: Vec<bool> = Vec::new();
        let mut y: usize = 0;
        while y < height
            invariant
                y <= height,
                column@.len() == y,
                forall|j: int| 0 <= j < y ==> !column@[j],
            decreases height - y,
        {
            column.push(false);
            y += 1;
        }
        parsed.push(column);
        x += 1;
    }
    parsed
}

} // verus!
