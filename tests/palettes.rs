use tesserae::{Color, Palette, PALETTE_SIZE};

#[test]
fn empty_file_gives_missing_colors() {
    let p = Palette::load_from(&[]);
    for i in 0..PALETTE_SIZE {
        assert_eq!(p.get(i), Color::RGBA(0, 255, 0, 0));
    }
}

#[test]
fn colors_are_read_in_rgba_order() {
    let p = Palette::load_from(&[1, 2, 3, 4, 5, 6, 7, 8, 9]);
    assert_eq!(p.get(0), Color::RGBA(1, 2, 3, 4));
    assert_eq!(p.get(1), Color::RGBA(5, 6, 7, 8));
    assert_eq!(p.get(2), Color::RGBA(0, 255, 0, 0));
}

#[test]
fn palette_save_and_round_trip() {
    let mut p = Palette::load_from(&[]);
    for i in 0..PALETTE_SIZE {
        let v = i as u8;
        p.set(i, Color::RGBA(v, v ^ 0x55, 255 - v, v / 2));
    }
    let bytes = p.save();
    assert_eq!(bytes.len(), 1024);
    assert_eq!(&bytes[4..8], &[1, 0x54, 254, 0]);
    let back = Palette::load_from(&bytes);
    for i in 0..PALETTE_SIZE {
        assert_eq!(back.get(i), p.get(i));
    }
}

#[test]
fn extra_colors_are_ignored() {
    let bytes = vec![7u8; 1030];
    let p = Palette::load_from(&bytes);
    assert_eq!(p.get(255), Color::RGBA(7, 7, 7, 7));
    assert_eq!(p.save(), vec![7u8; 1024]);
}
