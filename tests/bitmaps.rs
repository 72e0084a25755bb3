use tesserae::{flip_horizontal, flip_vertical, rasterize, rotate, toggle_pixel, Color};

const SAMPLES: [u64; 6] = [
    0,
    u64::MAX,
    1,
    0x8000_0000_0000_0001,
    0x0123_4567_89ab_cdef,
    0x3c42_a581_a599_423c,
];

#[test]
fn flip_horizontal_reverses_each_row() {
    assert_eq!(flip_horizontal(0x01), 0x80);
    assert_eq!(flip_horizontal(0x0f00), 0xf000);
    assert_eq!(flip_horizontal(0x0102_0408_1020_4080), 0x8040_2010_0804_0201);
}

#[test]
fn flip_vertical_reverses_the_rows() {
    assert_eq!(flip_vertical(0x01), 0x0100_0000_0000_0000);
    assert_eq!(flip_vertical(0x0123_4567_89ab_cdef), 0xefcd_ab89_6745_2301);
}

#[test]
fn flips_twice_give_the_bitmap_back() {
    for &b in SAMPLES.iter() {
        assert_eq!(flip_horizontal(flip_horizontal(b)), b);
        assert_eq!(flip_vertical(flip_vertical(b)), b);
    }
}

#[test]
fn rotate_turns_anticlockwise() {
    // Top left pixel goes to the bottom left.
    assert_eq!(rotate(0x01), 0x0100_0000_0000_0000);
    // Top right goes to the top left.
    assert_eq!(rotate(0x80), 0x01);
    // The top row becomes the left column.
    assert_eq!(rotate(0xff), 0x0101_0101_0101_0101);
    // The right column becomes the top row.
    assert_eq!(rotate(0x8080_8080_8080_8080), 0xff);
}

#[test]
fn four_rotations_give_the_bitmap_back() {
    for &b in SAMPLES.iter() {
        assert_eq!(rotate(rotate(rotate(rotate(b)))), b);
    }
}

#[test]
fn rotation_is_not_its_own_inverse() {
    assert_ne!(rotate(rotate(0x01)), 0x01);
    assert_eq!(rotate(rotate(0x01)), 0x8000_0000_0000_0000);
}

#[test]
fn toggle_pixel_flips_one_bit() {
    assert_eq!(toggle_pixel(0, 3, 2), 1u64 << 19);
    assert_eq!(toggle_pixel(1u64 << 19, 3, 2), 0);
    assert_eq!(toggle_pixel(u64::MAX, 7, 7), u64::MAX >> 1);
}

#[test]
fn rasterize_writes_blue_green_red_alpha() {
    let fg = Color::RGBA(10, 20, 30, 40);
    let bg = Color::RGBA(1, 2, 3, 4);
    let px = rasterize(0b10, fg, bg);
    assert_eq!(px.len(), 256);
    assert_eq!(&px[0..4], &[3, 2, 1, 4]);
    assert_eq!(&px[4..8], &[30, 20, 10, 40]);
    assert_eq!(&px[8..12], &[3, 2, 1, 4]);
    let all = rasterize(u64::MAX, fg, bg);
    assert!(all.chunks(4).all(|c| c == [30, 20, 10, 40]));
}
