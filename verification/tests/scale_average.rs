use image_to_terminal::average::average_block;
use image_to_terminal::printimage::PrintImageError;
use image_to_terminal::raster::Raster;
use image_to_terminal::rgb::RGB;
use image_to_terminal::scale::{block_step, Ratio, Scale};

fn ratio(num: i64, den: u64) -> Ratio {
    Ratio { num, den }
}

fn filled(width: usize, height: usize, color: RGB) -> Raster {
    Raster::from_rows(vec![vec![color; width]; height]).unwrap()
}

#[test]
fn step_is_length_over_blocks_asked_for() {
    assert_eq!(block_step(100, ratio(1, 2)).unwrap(), 2);
    assert_eq!(block_step(100, ratio(1, 100)).unwrap(), 100);
    assert_eq!(block_step(10, ratio(1, 3)).unwrap(), 3);
    assert_eq!(block_step(7, ratio(2, 5)).unwrap(), 3);
    assert_eq!(block_step(1920, ratio(1, 16)).unwrap(), 16);
}

#[test]
fn step_rounds_down_twice() {
    // 100 * 51 / 100 = 51 blocks asked for, and 100 / 51 rounds down to 1.
    assert_eq!(block_step(100, ratio(51, 100)).unwrap(), 1);
    // 9 * 4 / 10 rounds down to 3 blocks, a step of 3.
    assert_eq!(block_step(9, ratio(4, 10)).unwrap(), 3);
}

#[test]
fn step_of_scale_one_is_one() {
    assert_eq!(block_step(1, ratio(1, 1)).unwrap(), 1);
    assert_eq!(block_step(640, ratio(1, 1)).unwrap(), 1);
    assert_eq!(block_step(640, ratio(7, 7)).unwrap(), 1);
}

#[test]
fn step_refuses_scale_that_is_not_positive() {
    assert!(matches!(block_step(100, ratio(0, 1)), Err(PrintImageError::InvalidScale)));
    assert!(matches!(block_step(100, ratio(-1, 1)), Err(PrintImageError::InvalidScale)));
    assert!(matches!(block_step(100, ratio(i64::MIN, 3)), Err(PrintImageError::InvalidScale)));
    assert!(matches!(block_step(100, ratio(1, 0)), Err(PrintImageError::InvalidScale)));
}

#[test]
fn step_refuses_scale_too_small_for_the_axis() {
    assert!(matches!(block_step(10, ratio(1, 100)), Err(PrintImageError::InvalidScale)));
    assert!(matches!(block_step(99, ratio(1, 100)), Err(PrintImageError::InvalidScale)));
    assert!(matches!(block_step(0, ratio(1, 1)), Err(PrintImageError::InvalidScale)));
}

#[test]
fn step_refuses_more_blocks_than_pixels() {
    assert!(matches!(block_step(10, ratio(3, 2)), Err(PrintImageError::InvalidScale)));
    assert!(matches!(block_step(1, ratio(2, 1)), Err(PrintImageError::InvalidScale)));
    // 10 * 21 / 20 rounds down to 10 blocks: still one pixel each.
    assert_eq!(block_step(10, ratio(21, 20)).unwrap(), 1);
}

#[test]
fn step_survives_the_largest_numbers() {
    // About a half: u32::MAX * (2^63 - 1) / (2^64 - 1) = 2147483647 blocks.
    assert_eq!(block_step(4294967295, ratio(i64::MAX, u64::MAX)).unwrap(), 2);
    assert!(matches!(
        block_step(usize::MAX, ratio(i64::MAX, 1)),
        Err(PrintImageError::InvalidScale)
    ));
    assert!(matches!(
        block_step(4294967295, ratio(1, u64::MAX)),
        Err(PrintImageError::InvalidScale)
    ));
}

#[test]
fn average_rounds_each_channel_down() {
    let raster: Raster = Raster::from_rows(vec![
        vec![RGB::new(10, 0, 255), RGB::new(20, 1, 255)],
        vec![RGB::new(30, 1, 255), RGB::new(41, 1, 254)],
    ])
    .unwrap();
    // Red: 101 / 4, green: 3 / 4, blue: 1019 / 4.
    assert_eq!(average_block(&raster, 0, 2, 0, 2), RGB::new(25, 0, 254));
}

#[test]
fn average_of_one_pixel_is_the_pixel() {
    let raster: Raster = Raster::from_rows(vec![
        vec![RGB::new(1, 2, 3), RGB::new(4, 5, 6)],
        vec![RGB::new(7, 8, 9), RGB::new(10, 11, 12)],
    ])
    .unwrap();
    assert_eq!(average_block(&raster, 0, 1, 0, 1), RGB::new(1, 2, 3));
    assert_eq!(average_block(&raster, 1, 2, 0, 1), RGB::new(4, 5, 6));
    assert_eq!(average_block(&raster, 0, 1, 1, 2), RGB::new(7, 8, 9));
    assert_eq!(average_block(&raster, 1, 2, 1, 2), RGB::new(10, 11, 12));
}

#[test]
fn average_takes_only_the_block() {
    let raster: Raster = Raster::from_rows(vec![
        vec![RGB::splat(0), RGB::splat(0), RGB::splat(0)],
        vec![RGB::splat(0), RGB::splat(100), RGB::splat(200)],
        vec![RGB::splat(0), RGB::splat(50), RGB::splat(250)],
    ])
    .unwrap();
    assert_eq!(average_block(&raster, 1, 3, 1, 3), RGB::splat(150));
    assert_eq!(average_block(&raster, 1, 2, 1, 3), RGB::splat(75));
    assert_eq!(average_block(&raster, 0, 3, 0, 1), RGB::splat(0));
}

#[test]
fn average_leaves_out_what_lies_outside() {
    let raster: Raster = Raster::from_rows(vec![
        vec![RGB::splat(10), RGB::splat(20), RGB::splat(90)],
        vec![RGB::splat(10), RGB::splat(20), RGB::splat(30)],
    ])
    .unwrap();
    // Columns 2 .. 5 and rows 0 .. 4 hold two pixels of the raster.
    assert_eq!(average_block(&raster, 2, 5, 0, 4), RGB::splat(60));
    assert_eq!(average_block(&raster, 2, usize::MAX, 1, usize::MAX), RGB::splat(30));
    assert_eq!(average_block(&raster, 0, 100, 0, 100), RGB::splat(30));
}

#[test]
fn average_of_constant_block_is_the_constant() {
    let color: RGB = RGB::new(13, 200, 77);
    let raster: Raster = filled(7, 5, color);
    assert_eq!(average_block(&raster, 0, 7, 0, 5), color);
    assert_eq!(average_block(&raster, 2, 5, 1, 4), color);
    assert_eq!(average_block(&raster, 6, 9, 4, 9), color);
}

#[test]
fn average_of_65536_full_pixels_does_not_wrap() {
    let raster: Raster = filled(256, 256, RGB::splat(255));
    assert_eq!(average_block(&raster, 0, 256, 0, 256), RGB::new(255, 255, 255));
}

#[test]
fn average_of_a_long_row_does_not_wrap() {
    let raster: Raster = filled(70000, 1, RGB::new(255, 254, 1));
    assert_eq!(average_block(&raster, 0, 70000, 0, 1), RGB::new(255, 254, 1));
}

#[test]
fn float_bits_give_the_exact_fraction() {
    let half: Ratio = Ratio::from_f32_bits(0.5f32.to_bits());
    assert_eq!(half.num as f64 / half.den as f64, 0.5);
    let three_quarters: Ratio = Ratio::from_f32_bits(0.75f32.to_bits());
    assert_eq!(three_quarters.num as f64 / three_quarters.den as f64, 0.75);
    let hundredth: Ratio = Ratio::from_f32_bits(0.01f32.to_bits());
    assert_eq!(hundredth.num as f64 / hundredth.den as f64, 0.01f32 as f64);
    assert_eq!(hundredth.num, 10737418);
    assert_eq!(hundredth.den, 1073741824);
    let one: Ratio = Ratio::from_f32_bits(1.0f32.to_bits());
    assert_eq!(one.num as u64, one.den);
    let smallest_normal: Ratio = Ratio::from_f32_bits(f32::MIN_POSITIVE.to_bits());
    assert!(smallest_normal.num > 0 && smallest_normal.den > 0);
}

#[test]
fn float_bits_scale_like_the_number() {
    assert_eq!(block_step(100, Ratio::from_f32_bits(0.5f32.to_bits())).unwrap(), 2);
    assert_eq!(block_step(100, Ratio::from_f32_bits(0.25f32.to_bits())).unwrap(), 4);
    assert_eq!(block_step(8, Ratio::from_f32_bits(0.75f32.to_bits())).unwrap(), 1);
    assert_eq!(block_step(1, Ratio::from_f32_bits(1.0f32.to_bits())).unwrap(), 1);
    assert_eq!(block_step(1000, Ratio::from_f32_bits(0.125f32.to_bits())).unwrap(), 8);
    // As a float 0.3 lies a little above three tenths, and 0.01 a little below a hundredth.
    assert_eq!(block_step(10, Ratio::from_f32_bits(0.3f32.to_bits())).unwrap(), 3);
    assert_eq!(block_step(1000, Ratio::from_f32_bits(0.01f32.to_bits())).unwrap(), 111);
}

#[test]
fn float_bits_not_above_zero_are_invalid() {
    let refused: Vec<f32> = vec![0.0, -0.0, -1.0, -0.5, f32::NAN, f32::NEG_INFINITY, -f32::MIN_POSITIVE];
    for value in refused {
        let ratio: Ratio = Ratio::from_f32_bits(value.to_bits());
        assert!(ratio.num <= 0 || ratio.den == 0);
        assert!(matches!(block_step(100, ratio), Err(PrintImageError::InvalidScale)));
    }
}

#[test]
fn float_bits_out_of_reach_are_invalid() {
    let refused: Vec<f32> = vec![
        f32::INFINITY,
        f32::MAX,
        1.0e30,
        8388608.0,
        16777216.0,
        2.0,
        1.0e-30,
        f32::MIN_POSITIVE,
        1.0e-45,
        1.0e-12,
    ];
    for value in refused {
        let ratio: Ratio = Ratio::from_f32_bits(value.to_bits());
        assert!(ratio.num > 0 && ratio.den > 0);
        assert!(matches!(block_step(1, ratio), Err(PrintImageError::InvalidScale)));
        assert!(matches!(block_step(1000, ratio), Err(PrintImageError::InvalidScale)));
        assert!(matches!(block_step(4294967295, ratio), Err(PrintImageError::InvalidScale)));
    }
}

#[test]
fn float_bits_just_in_reach_are_valid() {
    // 2^-32 of 2^32 - 1 pixels is no block, 2^-31 is one.
    let tiny: Ratio = Ratio::from_f32_bits((1.0f32 / 4294967296.0).to_bits());
    assert!(matches!(block_step(4294967295, tiny), Err(PrintImageError::InvalidScale)));
    let small: Ratio = Ratio::from_f32_bits((1.0f32 / 2147483648.0).to_bits());
    assert_eq!(block_step(4294967295, small).unwrap(), 4294967295);
    // One and a half of one pixel is one block; of ten pixels it is fifteen.
    let above_one: Ratio = Ratio::from_f32_bits(1.5f32.to_bits());
    assert_eq!(block_step(1, above_one).unwrap(), 1);
    assert!(matches!(block_step(10, above_one), Err(PrintImageError::InvalidScale)));
}

#[test]
fn scale_for_a_size_asks_for_that_many_blocks() {
    let scale: Scale = Scale::for_size(640, 480, 80, 24);
    assert_eq!(scale.x.num, 80);
    assert_eq!(scale.x.den, 640);
    assert_eq!(scale.y.num, 24);
    assert_eq!(scale.y.den, 480);
    assert_eq!(block_step(640, scale.x).unwrap(), 8);
    assert_eq!(block_step(480, scale.y).unwrap(), 20);
}

#[test]
fn scale_for_a_size_beyond_the_raster_is_invalid() {
    let scale: Scale = Scale::for_size(10, 10, 11, 0);
    assert!(matches!(block_step(10, scale.x), Err(PrintImageError::InvalidScale)));
    assert!(matches!(block_step(10, scale.y), Err(PrintImageError::InvalidScale)));
    let nothing: Scale = Scale::for_size(0, 0, 1, 1);
    assert!(matches!(block_step(0, nothing.x), Err(PrintImageError::InvalidScale)));
}
