use glyph_codec::raster::{grid_of_picture, is_known_pixel, rgb_to_value};
use image::{DynamicImage, GrayImage, Luma, Rgb, RgbImage, Rgba, RgbaImage};

const BLACK: Rgb<u8> = Rgb([0, 0, 0]);
const WHITE: Rgb<u8> = Rgb([255, 255, 255]);
const RED: Rgb<u8> = Rgb([255, 0, 0]);

#[test]
fn pixel_values() {
    assert_eq!(rgb_to_value((0, 0, 0)), 0);
    assert_eq!(rgb_to_value((255, 255, 255)), 1);
    assert!(is_known_pixel((0, 0, 0)));
    assert!(is_known_pixel((255, 255, 255)));
    assert!(!is_known_pixel((255, 0, 0)));
    assert!(!is_known_pixel((0, 0, 255)));
    assert!(!is_known_pixel((0, 255, 0)));
    assert!(!is_known_pixel((254, 255, 255)));
    assert!(!is_known_pixel((1, 1, 1)));
}

#[test]
fn grid_takes_every_fourth_pixel() {
    // 12 by 8 pixels make 3 by 2 cells; the pixels between are red.
    let mut picture = RgbImage::from_pixel(12, 8, RED);
    let cells = [[1u8, 0, 1], [0, 0, 1]];
    for y in 0..2 {
        for x in 0..3 {
            let colour = if cells[y][x] == 1 { WHITE } else { BLACK };
            picture.put_pixel(4 * x as u32, 4 * y as u32, colour);
        }
    }
    let grid = grid_of_picture(&DynamicImage::ImageRgb8(picture)).unwrap();
    assert_eq!((grid.width, grid.height), (3, 2));
    assert_eq!(grid.image, vec![vec![1, 0], vec![0, 0], vec![1, 1]]);
}

#[test]
fn grid_size_is_rounded_down() {
    let picture = RgbImage::from_pixel(11, 5, WHITE);
    let grid = grid_of_picture(&DynamicImage::ImageRgb8(picture)).unwrap();
    assert_eq!((grid.width, grid.height), (2, 1));
    assert_eq!(grid.image, vec![vec![1], vec![1]]);

    let small = RgbImage::from_pixel(3, 9, RED);
    let grid = grid_of_picture(&DynamicImage::ImageRgb8(small)).unwrap();
    assert_eq!((grid.width, grid.height), (0, 2));
    assert_eq!(grid.image, Vec::<Vec<u8>>::new());
}

#[test]
fn any_other_colour_at_a_cell_gives_no_grid() {
    let mut picture = RgbImage::from_pixel(8, 8, BLACK);
    picture.put_pixel(4, 4, Rgb([255, 255, 254]));
    assert!(grid_of_picture(&DynamicImage::ImageRgb8(picture)).is_none());

    let mut picture = RgbImage::from_pixel(8, 8, BLACK);
    picture.put_pixel(5, 4, Rgb([255, 255, 254]));
    assert!(grid_of_picture(&DynamicImage::ImageRgb8(picture)).is_some());
}

#[test]
fn columns_and_rows_are_not_exchanged() {
    let mut picture = RgbImage::from_pixel(8, 4, BLACK);
    picture.put_pixel(4, 0, WHITE);
    let grid = grid_of_picture(&DynamicImage::ImageRgb8(picture)).unwrap();
    assert_eq!((grid.width, grid.height), (2, 1));
    assert_eq!(grid.image, vec![vec![0], vec![1]]);

    let mut picture = RgbImage::from_pixel(4, 8, BLACK);
    picture.put_pixel(0, 4, WHITE);
    let grid = grid_of_picture(&DynamicImage::ImageRgb8(picture)).unwrap();
    assert_eq!((grid.width, grid.height), (1, 2));
    assert_eq!(grid.image, vec![vec![0, 1]]);
}

#[test]
fn other_pixel_formats_are_converted() {
    let mut gray = GrayImage::from_pixel(8, 4, Luma([0]));
    gray.put_pixel(4, 0, Luma([255]));
    let grid = grid_of_picture(&DynamicImage::ImageLuma8(gray)).unwrap();
    assert_eq!(grid.image, vec![vec![0], vec![1]]);

    let mut gray = GrayImage::from_pixel(8, 4, Luma([0]));
    gray.put_pixel(4, 0, Luma([128]));
    assert!(grid_of_picture(&DynamicImage::ImageLuma8(gray)).is_none());

    let mut rgba = RgbaImage::from_pixel(4, 8, Rgba([255, 255, 255, 10]));
    rgba.put_pixel(0, 4, Rgba([0, 0, 0, 200]));
    let grid = grid_of_picture(&DynamicImage::ImageRgba8(rgba)).unwrap();
    assert_eq!(grid.image, vec![vec![1, 0]]);
}
