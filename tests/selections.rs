use tesserae::{Palette, Selection, TileSet};

#[test]
fn selection_moves_are_clamped() {
    let mut s = Selection::new(TileSet::blank().len());
    assert_eq!(s.selected(), 0);
    s.move_selected(-1);
    assert_eq!(s.selected(), 0);
    s.move_selected(16);
    assert_eq!(s.selected(), 16);
    s.move_selected(-5);
    assert_eq!(s.selected(), 11);
    s.move_selected(1000);
    assert_eq!(s.selected(), 511);
    s.move_selected(i32::MIN);
    assert_eq!(s.selected(), 0);
    s.move_selected(i32::MAX);
    assert_eq!(s.selected(), 511);
}

#[test]
fn set_selected_clamps_to_last() {
    let p = Palette::load_from(&[]);
    let mut s = Selection::new(p.len());
    assert_eq!(s.len(), 256);
    s.set_selected(42);
    assert_eq!(s.selected(), 42);
    s.set_selected(9000);
    assert_eq!(s.selected(), 255);
}
