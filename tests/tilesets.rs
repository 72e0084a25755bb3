use tesserae::{create_character_map, TileSet, CHAR_MAP_SIZE, TILESET_FILE_LEN, TILESET_SIZE};

#[test]
fn blank_tile_set_is_empty_with_default_map() {
    let ts = TileSet::blank();
    assert_eq!(ts.len(), TILESET_SIZE);
    for i in 0..TILESET_SIZE {
        assert_eq!(ts.bitmap(i), 0);
    }
    assert_eq!(ts.char_index(b'A'), 2);
    assert_eq!(ts.char_index(b'z'), 103);
    assert_eq!(ts.char_index(b'0'), 51);
    assert_eq!(ts.char_index(b'*'), 77);
    assert_eq!(ts.char_index(b' '), 0);
    assert_eq!(ts.char_index(200), 0);
}

#[test]
fn default_character_map_entries() {
    let m = create_character_map();
    assert_eq!(m.len(), CHAR_MAP_SIZE);
    assert_eq!(m['M' as usize], 14);
    assert_eq!(m['m' as usize], 90);
    assert_eq!(m['9' as usize], 60);
    assert_eq!(m['\\' as usize], 40);
    assert_eq!(m['"' as usize], 47);
    assert_eq!(m['~' as usize], 61);
    assert_eq!(m['#' as usize], 72);
    assert_eq!(m.iter().filter(|&&i| i != 0).count(), 94);
}

#[test]
fn short_file_is_padded() {
    // 100 bitmaps and no character map.
    let mut bytes = Vec::new();
    for i in 0..100u64 {
        bytes.extend_from_slice(&(i + 1).to_le_bytes());
    }
    let ts = TileSet::load_from(&bytes);
    assert_eq!(ts.len(), 512);
    for i in 0..100 {
        assert_eq!(ts.bitmap(i), i as u64 + 1);
    }
    for i in 100..512 {
        assert_eq!(ts.bitmap(i), 0);
    }
    let default = create_character_map();
    for c in 0..=255u8 {
        assert_eq!(ts.char_index(c), default[c as usize]);
    }
}

#[test]
fn bitmaps_are_little_endian() {
    let mut bytes = vec![0u8; 16];
    bytes[0] = 0x01;
    bytes[15] = 0x80;
    let ts = TileSet::load_from(&bytes);
    assert_eq!(ts.bitmap(0), 1);
    assert_eq!(ts.bitmap(1), 0x8000_0000_0000_0000);
}

#[test]
fn partial_character_map_keeps_defaults() {
    let mut bytes = vec![0u8; 4096];
    // Entries for codes 0 and 1, then half an entry.
    bytes.extend_from_slice(&[0x34, 0x12, 0x07, 0x00, 0x09]);
    let ts = TileSet::load_from(&bytes);
    assert_eq!(ts.char_index(0), 0x1234);
    assert_eq!(ts.char_index(1), 7);
    assert_eq!(ts.char_index(2), 0);
    assert_eq!(ts.char_index(b'A'), 2);
}

#[test]
fn save_writes_fixed_size_file() {
    let mut ts = TileSet::blank();
    ts.set_bitmap(0, 0x0102_0304_0506_0708);
    ts.set_bitmap(511, 0xff);
    ts.set_char_index(b'A', 0x1ff);
    let bytes = ts.save();
    assert_eq!(bytes.len(), TILESET_FILE_LEN);
    assert_eq!(&bytes[0..8], &[8, 7, 6, 5, 4, 3, 2, 1]);
    assert_eq!(&bytes[4088..4096], &[0xff, 0, 0, 0, 0, 0, 0, 0]);
    let a = 4096 + 2 * 65;
    assert_eq!(&bytes[a..a + 2], &[0xff, 0x01]);
}

#[test]
fn tile_set_round_trip() {
    let mut ts = TileSet::blank();
    for i in 0..TILESET_SIZE {
        ts.set_bitmap(i, (i as u64).wrapping_mul(0x9e37_79b9_7f4a_7c15));
    }
    for c in 0..=255u8 {
        ts.set_char_index(c, 511 - c as usize);
    }
    let back = TileSet::load_from(&ts.save());
    for i in 0..TILESET_SIZE {
        assert_eq!(back.bitmap(i), ts.bitmap(i));
    }
    for c in 0..=255u8 {
        assert_eq!(back.char_index(c), ts.char_index(c));
    }
    assert_eq!(back.save(), ts.save());
}

#[test]
fn trailing_bytes_are_ignored() {
    let mut bytes = TileSet::blank().save();
    bytes.extend_from_slice(&[1, 2, 3]);
    let ts = TileSet::load_from(&bytes);
    assert_eq!(ts.save(), TileSet::blank().save());
}
