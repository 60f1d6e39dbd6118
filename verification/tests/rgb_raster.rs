use image::{DynamicImage, GrayImage, Luma, Rgba, RgbaImage};
use image_to_terminal::raster::Raster;
use image_to_terminal::rgb::RGB;

#[test]
fn new_keeps_each_channel() {
    let c: RGB = RGB::new(1, 2, 3);
    assert_eq!(c.r, 1);
    assert_eq!(c.g, 2);
    assert_eq!(c.b, 3);
}

#[test]
fn splat_fills_every_channel() {
    let c: RGB = RGB::splat(77);
    assert_eq!(c, RGB::new(77, 77, 77));
}

#[test]
fn default_is_black() {
    assert_eq!(RGB::default(), RGB::new(0, 0, 0));
}

#[test]
fn equality_is_by_channel() {
    assert_eq!(RGB::new(9, 8, 7), RGB::new(9, 8, 7));
    assert_ne!(RGB::new(9, 8, 7), RGB::new(9, 8, 6));
    assert_ne!(RGB::new(9, 8, 7), RGB::new(7, 8, 9));
}

#[test]
fn from_rows_takes_a_rectangle() {
    let rows: Vec<Vec<RGB>> = vec![
        vec![RGB::new(1, 0, 0), RGB::new(2, 0, 0), RGB::new(3, 0, 0)],
        vec![RGB::new(4, 0, 0), RGB::new(5, 0, 0), RGB::new(6, 0, 0)],
    ];
    let raster: Raster = Raster::from_rows(rows).unwrap();
    assert_eq!(raster.width(), 3);
    assert_eq!(raster.height(), 2);
    assert_eq!(raster.pixel_at(0, 0), RGB::new(1, 0, 0));
    assert_eq!(raster.pixel_at(2, 0), RGB::new(3, 0, 0));
    assert_eq!(raster.pixel_at(0, 1), RGB::new(4, 0, 0));
    assert_eq!(raster.pixel_at(2, 1), RGB::new(6, 0, 0));
}

#[test]
fn from_rows_refuses_ragged_rows() {
    let rows: Vec<Vec<RGB>> = vec![
        vec![RGB::splat(1), RGB::splat(2)],
        vec![RGB::splat(3)],
    ];
    assert!(Raster::from_rows(rows).is_none());
    let longer_later: Vec<Vec<RGB>> = vec![
        vec![RGB::splat(1)],
        vec![RGB::splat(1)],
        vec![RGB::splat(2), RGB::splat(3)],
    ];
    assert!(Raster::from_rows(longer_later).is_none());
}

#[test]
fn from_rows_without_rows_is_empty() {
    let raster: Raster = Raster::from_rows(Vec::new()).unwrap();
    assert_eq!(raster.width(), 0);
    assert_eq!(raster.height(), 0);
}

#[test]
fn from_rows_of_empty_rows_has_no_width() {
    let raster: Raster = Raster::from_rows(vec![Vec::new(), Vec::new()]).unwrap();
    assert_eq!(raster.width(), 0);
    assert_eq!(raster.height(), 2);
}

#[test]
fn into_rows_gives_the_rows_back() {
    let rows: Vec<Vec<RGB>> = vec![vec![RGB::splat(1), RGB::splat(2)]];
    let raster: Raster = Raster::from_rows(rows.clone()).unwrap();
    assert_eq!(raster.into_rows(), rows);
}

#[test]
fn from_image_copies_pixels_and_drops_alpha() {
    let mut buffer: RgbaImage = RgbaImage::new(3, 2);
    buffer.put_pixel(0, 0, Rgba([10, 20, 30, 255]));
    buffer.put_pixel(1, 0, Rgba([11, 21, 31, 0]));
    buffer.put_pixel(2, 0, Rgba([12, 22, 32, 128]));
    buffer.put_pixel(0, 1, Rgba([13, 23, 33, 255]));
    buffer.put_pixel(1, 1, Rgba([14, 24, 34, 255]));
    buffer.put_pixel(2, 1, Rgba([15, 25, 35, 255]));
    let img: DynamicImage = DynamicImage::ImageRgba8(buffer);
    let raster: Raster = Raster::from_image(&img);
    assert_eq!(raster.width(), 3);
    assert_eq!(raster.height(), 2);
    assert_eq!(raster.pixel_at(0, 0), RGB::new(10, 20, 30));
    assert_eq!(raster.pixel_at(1, 0), RGB::new(11, 21, 31));
    assert_eq!(raster.pixel_at(2, 0), RGB::new(12, 22, 32));
    assert_eq!(raster.pixel_at(0, 1), RGB::new(13, 23, 33));
    assert_eq!(raster.pixel_at(1, 1), RGB::new(14, 24, 34));
    assert_eq!(raster.pixel_at(2, 1), RGB::new(15, 25, 35));
}

#[test]
fn from_image_spreads_grey_over_the_channels() {
    let mut buffer: GrayImage = GrayImage::new(2, 1);
    buffer.put_pixel(0, 0, Luma([40]));
    buffer.put_pixel(1, 0, Luma([200]));
    let img: DynamicImage = DynamicImage::ImageLuma8(buffer);
    let raster: Raster = Raster::from_image(&img);
    assert_eq!(raster.width(), 2);
    assert_eq!(raster.height(), 1);
    assert_eq!(raster.pixel_at(0, 0), RGB::splat(40));
    assert_eq!(raster.pixel_at(1, 0), RGB::splat(200));
}

#[test]
fn from_image_without_pixels_keeps_the_width() {
    let img: DynamicImage = DynamicImage::ImageRgba8(RgbaImage::new(5, 0));
    let raster: Raster = Raster::from_image(&img);
    assert_eq!(raster.width(), 5);
    assert_eq!(raster.height(), 0);
}
