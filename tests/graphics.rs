use tesserae::{Color, Graphic, LoadError, Tile, TileSet};

fn red_on_black(index: usize) -> Tile {
    Tile { index, fg: Color::RGBA(255, 0, 0, 255), bg: Color::RGBA(0, 0, 0, 255) }
}

fn clean(g: &mut Graphic) {
    let ts = TileSet::blank();
    g.update_texture(&ts);
}

#[test]
fn default_tile_is_transparent_green() {
    let t = Tile::default();
    assert_eq!(t.index, 0);
    assert_eq!(t.fg, Color::RGBA(0, 255, 0, 0));
    assert_eq!(t.bg, Color::RGBA(0, 255, 0, 0));
}

#[test]
fn blank_and_solid() {
    let g = Graphic::blank(3, 2);
    assert_eq!(g.width(), 3);
    assert_eq!(g.height(), 2);
    assert_eq!(g.get_tile(2, 1), Tile::default());
    let s = Graphic::solid(2, 3, red_on_black(5));
    assert_eq!(s.get_tile(1, 2), red_on_black(5));
    assert_eq!(s.get_tile(2, 0), Tile::default());
    assert_eq!(s.get_tile(0, 3), Tile::default());
}

#[test]
fn end_to_end_save_and_load() {
    let mut g = Graphic::blank(2, 2);
    g.set_tile(0, 0, red_on_black(1));
    let bytes = g.save();
    assert_eq!(bytes.len(), 8 + 4 * 12);
    let loaded = Graphic::load_from(&bytes).unwrap();
    assert_eq!(loaded.width(), 2);
    assert_eq!(loaded.height(), 2);
    assert_eq!(loaded.get_tile(0, 0), red_on_black(1));
    assert_eq!(loaded.get_tile(1, 0), Tile::default());
    assert_eq!(loaded.get_tile(0, 1), Tile::default());
    assert_eq!(loaded.get_tile(1, 1), Tile::default());
}

#[test]
fn graphic_file_layout() {
    let mut g = Graphic::blank(2, 1);
    g.set_tile(1, 0, Tile { index: 0x0102, fg: Color::RGBA(1, 2, 3, 4), bg: Color::RGBA(5, 6, 7, 8) });
    let bytes = g.save();
    assert_eq!(&bytes[0..8], &[2, 0, 0, 0, 1, 0, 0, 0]);
    assert_eq!(&bytes[8..20], &[0, 0, 0, 0, 0, 255, 0, 0, 0, 255, 0, 0]);
    assert_eq!(&bytes[20..32], &[2, 1, 0, 0, 1, 2, 3, 4, 5, 6, 7, 8]);
}

#[test]
fn short_body_keeps_default_cells() {
    let mut g = Graphic::blank(3, 1);
    g.draw_rect(0, 0, 3, 1, red_on_black(9));
    let bytes = g.save();
    // The second record cut in half.
    let loaded = Graphic::load_from(&bytes[..8 + 12 + 6]).unwrap();
    assert_eq!(loaded.get_tile(0, 0), red_on_black(9));
    assert_eq!(loaded.get_tile(1, 0), Tile::default());
    assert_eq!(loaded.get_tile(2, 0), Tile::default());
    // Extra bytes after the last cell are ignored.
    let mut longer = bytes.clone();
    longer.extend_from_slice(&[1; 30]);
    assert_eq!(Graphic::load_from(&longer).unwrap().save(), bytes);
}

#[test]
fn header_errors() {
    assert_eq!(Graphic::load_from(&[1, 0, 0, 0, 1, 0, 0]).err(), Some(LoadError::TruncatedHeader));
    assert_eq!(Graphic::load_from(&[]).err(), Some(LoadError::TruncatedHeader));
    let huge = [0xff, 0xff, 0xff, 0xff, 0xff, 0xff, 0xff, 0xff];
    assert_eq!(Graphic::load_from(&huge).err(), Some(LoadError::TooLarge));
    let empty = Graphic::load_from(&[0, 0, 0, 0, 7, 0, 0, 0]).unwrap();
    assert_eq!(empty.width(), 0);
    assert_eq!(empty.height(), 7);
}

#[test]
fn set_tile_marks_dirty_only_on_change() {
    let ts = TileSet::blank();
    let mut g = Graphic::blank(2, 2);
    clean(&mut g);
    g.set_tile(1, 1, red_on_black(1));
    g.set_tile(1, 1, red_on_black(1));
    let drawn = g.update_texture(&ts);
    assert_eq!(drawn.len(), 1);
    assert_eq!((drawn[0].x, drawn[0].y), (1, 1));
    // Writing the tile a cell already has marks nothing.
    g.set_tile(1, 1, red_on_black(1));
    g.set_tile(0, 0, Tile::default());
    assert_eq!(g.update_texture(&ts).len(), 0);
}

#[test]
fn update_clears_dirt_and_is_idempotent() {
    let mut ts = TileSet::blank();
    ts.set_bitmap(1, 0x01);
    let mut g = Graphic::blank(3, 2);
    g.set_tile(2, 0, red_on_black(1));
    let drawn = g.update_texture(&ts);
    assert_eq!(drawn.len(), 6);
    let order: Vec<(u32, u32)> = drawn.iter().map(|d| (d.x, d.y)).collect();
    assert_eq!(order, vec![(0, 0), (1, 0), (2, 0), (0, 1), (1, 1), (2, 1)]);
    assert_eq!(&drawn[2].pixels[0..8], &[0, 0, 255, 255, 0, 0, 0, 255]);
    assert_eq!(&drawn[0].pixels[0..4], &[0, 255, 0, 0]);
    assert!(g.update_texture(&ts).is_empty());
}

#[test]
fn mark_dirty_redraws_everything() {
    let ts = TileSet::blank();
    let mut g = Graphic::blank(2, 3);
    clean(&mut g);
    g.mark_dirty();
    assert_eq!(g.update_texture(&ts).len(), 6);
}

#[test]
fn can_update_checks_dirty_indices() {
    let ts = TileSet::blank();
    let mut g = Graphic::blank(2, 1);
    assert!(g.can_update(&ts));
    g.set_tile(0, 0, red_on_black(512));
    assert!(!g.can_update(&ts));
    g.set_tile(0, 0, red_on_black(511));
    assert!(g.can_update(&ts));
}

#[test]
fn out_of_bounds_is_ignored() {
    let mut g = Graphic::blank(2, 2);
    let before = g.save();
    g.set_tile(2, 0, red_on_black(3));
    g.set_tile(0, 2, red_on_black(3));
    g.color_tile(5, 5, Color::RGBA(1, 1, 1, 1), Color::RGBA(2, 2, 2, 2));
    assert_eq!(g.save(), before);
    assert_eq!(g.get_tile(9, 9), Tile::default());
}

#[test]
fn draw_rect_is_clipped() {
    let ts = TileSet::blank();
    let mut g = Graphic::blank(4, 3);
    clean(&mut g);
    g.draw_rect(2, 1, 5, 5, red_on_black(7));
    for y in 0..3 {
        for x in 0..4 {
            let want = if x >= 2 && y >= 1 { red_on_black(7) } else { Tile::default() };
            assert_eq!(g.get_tile(x, y), want);
        }
    }
    assert_eq!(g.update_texture(&ts).len(), 4);
    g.draw_rect(u32::MAX, u32::MAX, 3, 3, red_on_black(1));
    assert!(g.update_texture(&ts).is_empty());
}

#[test]
fn color_rect_keeps_indices() {
    let ts = TileSet::blank();
    let mut g = Graphic::solid(3, 3, red_on_black(4));
    clean(&mut g);
    let white = Color::RGBA(255, 255, 255, 255);
    let black = Color::RGBA(0, 0, 0, 255);
    g.color_rect(1, 1, 2, 2, white, black);
    assert_eq!(g.get_tile(1, 1), Tile { index: 4, fg: white, bg: black });
    assert_eq!(g.get_tile(2, 2), Tile { index: 4, fg: white, bg: black });
    assert_eq!(g.get_tile(0, 0), red_on_black(4));
    assert_eq!(g.update_texture(&ts).len(), 4);
    // Same colours again: nothing changes.
    g.color_rect(0, 1, 3, 2, white, black);
    let drawn = g.update_texture(&ts);
    assert_eq!(drawn.len(), 2);
    g.color_tile(0, 0, Color::RGBA(255, 0, 0, 255), Color::RGBA(0, 0, 0, 255));
    assert!(g.update_texture(&ts).is_empty());
}

#[test]
fn draw_text_uses_character_map_and_truncates() {
    let mut ts = TileSet::blank();
    ts.set_char_index(b'!', 300);
    let fg = Color::RGBA(9, 9, 9, 9);
    let bg = Color::RGBA(0, 0, 0, 0);
    let mut g = Graphic::blank(4, 2);
    g.draw_text("Hi!xyz", &ts, 1, 1, fg, bg);
    assert_eq!(g.get_tile(1, 1), Tile { index: 9, fg, bg });
    assert_eq!(g.get_tile(2, 1), Tile { index: 86, fg, bg });
    assert_eq!(g.get_tile(3, 1), Tile { index: 300, fg, bg });
    assert_eq!(g.get_tile(0, 1), Tile::default());
    assert_eq!(g.get_tile(1, 0), Tile::default());
}

#[test]
fn copy_region_is_clipped_to_source() {
    let mut src = Graphic::blank(3, 3);
    for y in 0..3 {
        for x in 0..3 {
            src.set_tile(x, y, red_on_black((10 * y + x) as usize));
        }
    }
    let ts = TileSet::blank();
    let mut dst = Graphic::solid(4, 4, red_on_black(99));
    clean(&mut dst);
    // A 3x3 region from (1, 1): only its top-left 2x2 lies in the source.
    dst.copy_tiles_from(&src, 1, 1, 3, 3, 0, 0);
    assert_eq!(dst.get_tile(0, 0), red_on_black(11));
    assert_eq!(dst.get_tile(1, 0), red_on_black(12));
    assert_eq!(dst.get_tile(0, 1), red_on_black(21));
    assert_eq!(dst.get_tile(1, 1), red_on_black(22));
    assert_eq!(dst.get_tile(2, 0), red_on_black(99));
    assert_eq!(dst.get_tile(2, 2), red_on_black(99));
    assert_eq!(dst.get_tile(0, 2), red_on_black(99));
    assert_eq!(dst.update_texture(&ts).len(), 4);
}

#[test]
fn copy_all_places_whole_graphic() {
    let src = Graphic::solid(2, 2, red_on_black(3));
    let mut dst = Graphic::blank(3, 3);
    dst.copy_all_tiles_from(&src, 2, 1);
    assert_eq!(dst.get_tile(2, 1), red_on_black(3));
    assert_eq!(dst.get_tile(2, 2), red_on_black(3));
    assert_eq!(dst.get_tile(1, 1), Tile::default());
    assert_eq!(dst.get_tile(0, 0), Tile::default());
}
