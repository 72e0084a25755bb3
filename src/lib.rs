//! Two-colour 8x8 tile graphics: tile sets, palettes and tile grids, their
//! binary file formats, and dirty-tracked rasterisation of a grid into pixels.

mod bitmap;
mod bytes;
mod graphic;
mod palette;
mod selection;
mod tile;
mod tileset;

pub use bitmap::{
    bit, channel, flip_horizontal, flip_vertical, ink, lemma_flip_horizontal_twice,
    lemma_flip_vertical_twice, lemma_rotate_four_times, lemma_same_pixels, mirrors_horizontally,
    mirrors_vertically, raster, rasterize, rotate, rotated, toggle_pixel, toggled,
};
pub use bytes::{
    le_u16, le_u32, le_u64, lemma_u16_le_round_trip, lemma_u32_le_round_trip,
    lemma_u64_le_round_trip, u16_le, u32_le, u64_le,
};
pub use graphic::{
    copy_covers, dirty_cells, dirty_prefix, file_height, file_tile, file_width, graphic_file,
    graphic_file_byte, graphic_of_file, lemma_cell, lemma_clean_draws_nothing, lemma_copy_clips,
    lemma_graphic_round_trip, lemma_index, lemma_set_tile_twice, painted, rect_fill,
    rect_recolor, region_copy, renderable, text_fill, with_tile, Graphic, GraphicModel, LoadError,
    RenderedTile,
};
pub use palette::{
    file_color, lemma_palette_round_trip, palette_file, palette_of_file, rgba_byte, Palette,
    PALETTE_SIZE,
};
pub use selection::{clamp, Selection, SelectionModel};
pub use tile::{default_tile, missing_color, Color, Tile};
pub use tileset::{
    create_character_map, default_char_index, default_char_map, file_bitmap, file_char_index,
    full_size, lemma_short_tile_set_file, lemma_tile_set_round_trip, tile_set_file,
    tile_set_file_byte, tile_set_of_file, TileSet, TileSetModel, CHAR_MAP_SIZE, TILESET_FILE_LEN,
    TILESET_SIZE,
};
