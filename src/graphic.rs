//! Graphics: rectangular grids of tiles with a dirty flag per cell, their file
//! format, and the incremental rasterisation that the dirty flags drive.

use vstd::prelude::*;
use vstd::string::StringSliceAdditionalSpecFns;
use vstd::arithmetic::div_mod::lemma_fundamental_div_mod_converse;
use vstd::arithmetic::mul::{lemma_mul_basics, lemma_mul_is_commutative};
use crate::tile::{default_tile, Color, Tile};
use crate::bitmap::{raster, rasterize};
use crate::bytes::{le_u32, lemma_u32_le_round_trip, push_all, read_u32_at, u32_bytes, u32_le};
use crate::palette::rgba_byte;
use crate::tileset::{TileSet, TileSetModel};

verus! {

/// What a graphic holds: its size in tiles, its tiles row by row (the cell at
/// column `x`, row `y` is number `x + y * width`), and whether each cell's
/// pixels are stale.
pub struct GraphicModel {
    pub width: nat,
    pub height: nat,
    pub tiles: Seq<Tile>,
    pub dirty: Seq<bool>,
}

impl GraphicModel {
    /// Tiles and dirty flags have one entry per cell.
    pub open spec fn wf(self) -> bool {
        &&& self.width <= u32::MAX
        &&& self.height <= u32::MAX
        &&& self.tiles.len() == self.width * self.height
        &&& self.dirty.len() == self.width * self.height
    }

    /// `(x, y)` is a cell of the graphic.
    pub open spec fn in_bounds(self, x: int, y: int) -> bool {
        0 <= x < self.width && 0 <= y < self.height
    }

    /// The number of the cell at column `x`, row `y`.
    pub open spec fn cell(self, x: int, y: int) -> int {
        x + y * self.width
    }

    /// The column of cell number `i`.
    pub open spec fn col(self, i: int) -> int {
        i % (self.width as int)
    }

    /// The row of cell number `i`.
    pub open spec fn row(self, i: int) -> int {
        i / (self.width as int)
    }

    /// The tile at `(x, y)`, or the default tile outside the graphic.
    pub open spec fn tile_at(self, x: int, y: int) -> Tile {
        if self.in_bounds(x, y) {
            self.tiles[self.cell(x, y)]
        } else {
            default_tile()
        }
    }

    /// No cell is dirty.
    pub open spec fn clean(self) -> bool {
        forall|i: int| 0 <= i < self.dirty.len() ==> !#[trigger] self.dirty[i]
    }
}

/// `g` with `t` put at `(x, y)`: the cell is marked dirty only if its tile
/// changes, and nothing happens outside the graphic.
pub open spec fn with_tile(g: GraphicModel, x: int, y: int, t: Tile) -> GraphicModel {
    if g.in_bounds(x, y) && g.tiles[g.cell(x, y)] != t {
        GraphicModel {
            width: g.width,
            height: g.height,
            tiles: g.tiles.update(g.cell(x, y), t),
            dirty: g.dirty.update(g.cell(x, y), true),
        }
    } else {
        g
    }
}

/// `g` with the tile `paint(x, y)` put at each cell `(x, y)` where it is
/// `Some`: a cell is marked dirty only if its tile changes.
pub open spec fn painted(g: GraphicModel, paint: spec_fn(int, int) -> Option<Tile>) -> GraphicModel {
    GraphicModel {
        width: g.width,
        height: g.height,
        tiles: Seq::new(
            g.tiles.len(),
            |i: int|
                match paint(g.col(i), g.row(i)) {
                    Some(t) => t,
                    None => g.tiles[i],
                },
        ),
        dirty: Seq::new(
            g.dirty.len(),
            |i: int|
                g.dirty[i] || match paint(g.col(i), g.row(i)) {
                    Some(t) => t != g.tiles[i],
                    None => false,
                },
        ),
    }
}

/// The cell `(x, y)` of a graphic has a number within its tiles, and that
/// number gives back its column and row.
pub proof fn lemma_cell(g: GraphicModel, x: int, y: int)
    requires
        g.wf(),
        g.in_bounds(x, y),
    ensures
        0 <= g.cell(x, y) < g.tiles.len(),
        g.col(g.cell(x, y)) == x,
        g.row(g.cell(x, y)) == y,
{
    let w = g.width as int;
    assert(y * w + x < g.height * w) by (nonlinear_arith)
        requires
            0 <= x < w,
            0 <= y < g.height,
    ;
    assert(0 <= y * w) by (nonlinear_arith)
        requires
            0 <= y,
            0 <= w,
    ;
    lemma_mul_is_commutative(g.width as int, g.height as int);
    lemma_fundamental_div_mod_converse(x + y * w, w, y, x);
}

/// Every cell number within a graphic's tiles is the number of the cell at its
/// column and row.
pub proof fn lemma_index(g: GraphicModel, i: int)
    requires
        g.wf(),
        0 <= i < g.tiles.len(),
    ensures
        g.in_bounds(g.col(i), g.row(i)),
        g.cell(g.col(i), g.row(i)) == i,
{
    let w = g.width as int;
    if w == 0 {
        lemma_mul_basics(g.height as int);
    }
    assert(w > 0);
    vstd::arithmetic::div_mod::lemma_fundamental_div_mod(i, w);
    assert(i == w * (i / w) + i % w);
    assert(0 <= i % w < w) by {
        vstd::arithmetic::div_mod::lemma_mod_bound(i, w);
    }
    assert(i / w < g.height) by {
        vstd::arithmetic::div_mod::lemma_div_is_ordered(i, (g.width * g.height) as int, w);
        assert((g.width * g.height) as int / w == g.height as int) by {
            lemma_mul_is_commutative(g.width as int, g.height as int);
            lemma_fundamental_div_mod_converse(g.height * w, w, g.height as int, 0);
        }
    }
    assert(0 <= i / w) by {
        vstd::arithmetic::div_mod::lemma_div_pos_is_pos(i, w);
    }
    assert(w * (i / w) == (i / w) * w) by (nonlinear_arith);
}

/// Paints `t` over the rectangle of `w` by `h` cells whose top left is `(x, y)`.
pub open spec fn rect_fill(x: int, y: int, w: int, h: int, t: Tile) -> spec_fn(int, int) -> Option<Tile> {
    |a: int, b: int|
        if x <= a < x + w && y <= b < y + h {
            Some(t)
        } else {
            None
        }
}

/// Paints the colours `fg` and `bg` over the rectangle of `w` by `h` cells
/// whose top left is `(x, y)`, keeping the tile indices that `g` has there.
pub open spec fn rect_recolor(
    g: GraphicModel,
    x: int,
    y: int,
    w: int,
    h: int,
    fg: Color,
    bg: Color,
) -> spec_fn(int, int) -> Option<Tile> {
    |a: int, b: int|
        if x <= a < x + w && y <= b < y + h {
            Some(Tile { index: g.tile_at(a, b).index, fg, bg })
        } else {
            None
        }
}

/// Paints the characters `text` along row `y` from column `x`, one cell each,
/// with the tiles that `char_map` gives them, in colours `fg` and `bg`.
pub open spec fn text_fill(
    text: Seq<u8>,
    char_map: Seq<usize>,
    x: int,
    y: int,
    fg: Color,
    bg: Color,
) -> spec_fn(int, int) -> Option<Tile> {
    |a: int, b: int|
        if b == y && x <= a < x + text.len() {
            Some(Tile { index: char_map[text[a - x] as int], fg, bg })
        } else {
            None
        }
}

/// Paints the tiles of the `w` by `h` region of `src` whose top left is
/// `(sx, sy)` at `(dx, dy)`: only those cells of the region that lie within
/// `src`.
pub open spec fn region_copy(
    src: GraphicModel,
    sx: int,
    sy: int,
    w: int,
    h: int,
    dx: int,
    dy: int,
) -> spec_fn(int, int) -> Option<Tile> {
    |a: int, b: int|
        if dx <= a < dx + w && dy <= b < dy + h && src.in_bounds(sx + (a - dx), sy + (b - dy)) {
            Some(src.tile_at(sx + (a - dx), sy + (b - dy)))
        } else {
            None
        }
}

/// What `paint` puts in the rows above row `j` of a region whose top left is
/// `(x, y)`, and in the first `i` cells of its row `j`.
spec fn visited(paint: spec_fn(int, int) -> Option<Tile>, x: int, y: int, j: int, i: int) -> spec_fn(
    int,
    int,
) -> Option<Tile> {
    |a: int, b: int|
        if b - y < j || (b - y == j && a - x < i) {
            paint(a, b)
        } else {
            None
        }
}

/// Painting nothing changes nothing.
proof fn lemma_paint_nothing(g: GraphicModel, paint: spec_fn(int, int) -> Option<Tile>)
    requires
        g.wf(),
        forall|a: int, b: int| #[trigger] paint(a, b) is None,
    ensures
        painted(g, paint) == g,
{
    assert(painted(g, paint).tiles =~= g.tiles);
    assert(painted(g, paint).dirty =~= g.dirty);
}

/// Paintings that agree on every cell give the same graphic.
proof fn lemma_painted_ext(
    g: GraphicModel,
    p1: spec_fn(int, int) -> Option<Tile>,
    p2: spec_fn(int, int) -> Option<Tile>,
)
    requires
        g.wf(),
        forall|a: int, b: int| g.in_bounds(a, b) ==> #[trigger] p1(a, b) == p2(a, b),
    ensures
        painted(g, p1) == painted(g, p2),
{
    assert forall|i: int| 0 <= i < g.tiles.len() implies p1(g.col(i), g.row(i)) == p2(
        g.col(i),
        g.row(i),
    ) by {
        lemma_index(g, i);
    }
    assert(painted(g, p1).tiles =~= painted(g, p2).tiles);
    assert(painted(g, p1).dirty =~= painted(g, p2).dirty);
}

/// Painting one more cell `(x, y)` is putting its tile there, if it has one.
proof fn lemma_paint_step(
    g: GraphicModel,
    p1: spec_fn(int, int) -> Option<Tile>,
    p2: spec_fn(int, int) -> Option<Tile>,
    x: int,
    y: int,
)
    requires
        g.wf(),
        p1(x, y) is None,
        forall|a: int, b: int| a != x || b != y ==> #[trigger] p2(a, b) == p1(a, b),
    ensures
        painted(g, p1).tile_at(x, y) == g.tile_at(x, y),
        p2(x, y) is None ==> painted(g, p2) == painted(g, p1),
        p2(x, y) is Some ==> painted(g, p2) == with_tile(painted(g, p1), x, y, p2(x, y)->Some_0),
{
    if g.in_bounds(x, y) {
        lemma_cell(g, x, y);
    }
    if p2(x, y) is None {
        lemma_painted_ext(g, p1, p2);
    } else {
        let t = p2(x, y)->Some_0;
        let before = painted(g, p1);
        let after = with_tile(before, x, y, t);
        assert forall|i: int| 0 <= i < g.tiles.len() implies #[trigger] painted(g, p2).tiles[i]
            == after.tiles[i] by {
            lemma_index(g, i);
        }
        assert forall|i: int| 0 <= i < g.tiles.len() implies #[trigger] painted(g, p2).dirty[i]
            == after.dirty[i] by {
            lemma_index(g, i);
        }
        assert(painted(g, p2).tiles =~= after.tiles);
        assert(painted(g, p2).dirty =~= after.dirty);
    }
}

/// Why a graphic file cannot be read.
#[derive(Clone, Copy, Debug, PartialEq, Eq, Structural)]
pub enum LoadError {
    /// The file is shorter than its 8-byte width and height header.
    TruncatedHeader,
    /// The header's width and height give a graphic whose file (8 bytes,
    /// then 12 per cell) would not fit in the address range.
    TooLarge,
}

/// The width that a graphic file's header gives.
pub open spec fn file_width(bytes: Seq<u8>) -> u32 {
    le_u32(bytes.subrange(0, 4))
}

/// The height that a graphic file's header gives.
pub open spec fn file_height(bytes: Seq<u8>) -> u32 {
    le_u32(bytes.subrange(4, 8))
}

/// Cell `k` as a graphic file gives it: the `k`-th 12-byte record after the
/// header (a little-endian `u32` tile index, then the foreground and the
/// background colour, red, green, blue, alpha), or the default tile where the
/// file ends before the record does.
pub open spec fn file_tile(bytes: Seq<u8>, k: int) -> Tile {
    let at = 8 + 12 * k;
    if at + 12 <= bytes.len() {
        Tile {
            index: le_u32(bytes.subrange(at, at + 4)) as usize,
            fg: Color { r: bytes[at + 4], g: bytes[at + 5], b: bytes[at + 6], a: bytes[at + 7] },
            bg: Color { r: bytes[at + 8], g: bytes[at + 9], b: bytes[at + 10], a: bytes[at + 11] },
        }
    } else {
        default_tile()
    }
}

/// The graphic that a file with a whole header holds, every cell dirty.
pub open spec fn graphic_of_file(bytes: Seq<u8>) -> GraphicModel {
    let n = file_width(bytes) * file_height(bytes);
    GraphicModel {
        width: file_width(bytes) as nat,
        height: file_height(bytes) as nat,
        tiles: Seq::new(n as nat, |k: int| file_tile(bytes, k)),
        dirty: Seq::new(n as nat, |k: int| true),
    }
}

/// Byte `j` of a graphic's file.
pub open spec fn graphic_file_byte(g: GraphicModel, j: int) -> u8 {
    if j < 4 {
        u32_le(g.width as u32)[j]
    } else if j < 8 {
        u32_le(g.height as u32)[j - 4]
    } else {
        let t = g.tiles[(j - 8) / 12];
        let o = (j - 8) % 12;
        if o < 4 {
            u32_le(t.index as u32)[o]
        } else if o < 8 {
            rgba_byte(t.fg, o - 4)
        } else {
            rgba_byte(t.bg, o - 8)
        }
    }
}

/// A graphic's file: width and height as little-endian `u32`s, then one
/// 12-byte record per cell, row by row.
pub open spec fn graphic_file(g: GraphicModel) -> Seq<u8> {
    Seq::new((8 + 12 * g.tiles.len()) as nat, |j: int| graphic_file_byte(g, j))
}

/// Cell `k`'s pixels are drawn from tile set `ts`.
pub open spec fn renderable(g: GraphicModel, ts: TileSetModel, k: int) -> bool {
    g.dirty[k] ==> g.tiles[k].index < ts.bitmaps.len()
}

/// The numbers of the dirty cells among the first `n`, in increasing order.
pub open spec fn dirty_prefix(dirty: Seq<bool>, n: int) -> Seq<int>
    decreases n,
{
    if n <= 0 {
        Seq::empty()
    } else if dirty[n - 1] {
        dirty_prefix(dirty, n - 1).push(n - 1)
    } else {
        dirty_prefix(dirty, n - 1)
    }
}

/// The numbers of a graphic's dirty cells, in increasing order.
pub open spec fn dirty_cells(g: GraphicModel) -> Seq<int> {
    dirty_prefix(g.dirty, g.dirty.len() as int)
}

/// The pixels of a cell (see `rasterize`), and where the cell is.
pub struct RenderedTile {
    pub x: u32,
    pub y: u32,
    pub pixels: Vec<u8>,
}

/// A tile grid with a dirty flag per cell.
#[derive(Clone)]
pub struct Graphic {
    width: u32,
    height: u32,
    tiles: Vec<Tile>,
    dirty: Vec<bool>,
}

impl View for Graphic {
    type V = GraphicModel;

    closed spec fn view(&self) -> GraphicModel {
        GraphicModel {
            width: self.width as nat,
            height: self.height as nat,
            tiles: self.tiles@,
            dirty: self.dirty@,
        }
    }
}

impl Graphic {
    /// Tiles and dirty flags have one entry per cell.
    pub open spec fn wf(&self) -> bool {
        self@.wf()
    }

    /// A `width` by `height` graphic with `tile` in every cell, every cell
    /// dirty.
    pub fn solid(width: u32, height: u32, tile: Tile) -> (g: Graphic)
        requires
            width * height <= usize::MAX,
        ensures
            g.wf(),
            g@.width == width,
            g@.height == height,
            g@.tiles == Seq::new((width * height) as nat, |i: int| tile),
            g@.dirty == Seq::new((width * height) as nat, |i: int| true),
    {
        let area = width as usize * height as usize;
        let mut tiles: Vec<Tile> = Vec::new();
        let mut dirty: Vec<bool> = Vec::new();
        let mut i: usize = 0;
        while i < area
            invariant
                i <= area,
                tiles@ == Seq::new(i as nat, |k: int| tile),
                dirty@ == Seq::new(i as nat, |k: int| true),
            decreases area - i,
        {
            tiles.push(tile);
            dirty.push(true);
            i = i + 1;
            assert(tiles@ =~= Seq::new(i as nat, |k: int| tile));
            assert(dirty@ =~= Seq::new(i as nat, |k: int| true));
        }
        Graphic { width, height, tiles, dirty }
    }

    /// A `width` by `height` graphic of default tiles, every cell dirty.
    pub fn blank(width: u32, height: u32) -> (g: Graphic)
        requires
            width * height <= usize::MAX,
        ensures
            g.wf(),
            g@.width == width,
            g@.height == height,
            g@.tiles == Seq::new((width * height) as nat, |i: int| default_tile()),
            g@.dirty == Seq::new((width * height) as nat, |i: int| true),
    {
        Graphic::solid(width, height, Tile::default())
    }

    /// The width in tiles.
    pub fn width(&self) -> (w: u32)
        ensures
            w == self@.width,
    {
        self.width
    }

    /// The height in tiles.
    pub fn height(&self) -> (h: u32)
        ensures
            h == self@.height,
    {
        self.height
    }

    fn index_of(&self, x: u32, y: u32) -> (i: usize)
        requires
            self.wf(),
            self@.in_bounds(x as int, y as int),
        ensures
            i == self@.cell(x as int, y as int),
            i < self@.tiles.len(),
    {
        let n = self.tiles.len();
        proof {
            lemma_cell(self@, x as int, y as int);
            assert(0 <= (y as int) * (self.width as int)) by (nonlinear_arith)
                requires
                    0 <= y,
                    0 <= self.width,
            ;
        }
        x as usize + y as usize * self.width as usize
    }

    /// The tile at `(x, y)`, or the default tile where that is outside the
    /// graphic.
    pub fn get_tile(&self, x: u32, y: u32) -> (t: Tile)
        requires
            self.wf(),
        ensures
            t == self@.tile_at(x as int, y as int),
    {
        if x < self.width && y < self.height {
            self.tiles[self.index_of(x, y)]
        } else {
            Tile::default()
        }
    }

    /// Puts `tile` at `(x, y)`, marking the cell dirty only if its tile
    /// changes. Does nothing where `(x, y)` is outside the graphic.
    pub fn set_tile(&mut self, x: u32, y: u32, tile: Tile)
        requires
            old(self).wf(),
        ensures
            final(self).wf(),
            final(self)@ == with_tile(old(self)@, x as int, y as int, tile),
    {
        if x < self.width && y < self.height {
            let i = self.index_of(x, y);
            if self.tiles[i] != tile {
                self.tiles.set(i, tile);
                self.dirty.set(i, true);
            }
        }
    }

    /// Sets the colours of the tile at `(x, y)` and keeps its index, marking
    /// the cell dirty only if a colour changes. Does nothing where `(x, y)` is
    /// outside the graphic.
    pub fn color_tile(&mut self, x: u32, y: u32, fg: Color, bg: Color)
        requires
            old(self).wf(),
        ensures
            final(self).wf(),
            final(self)@ == with_tile(
                old(self)@,
                x as int,
                y as int,
                Tile { index: old(self)@.tile_at(x as int, y as int).index, fg, bg },
            ),
    {
        if x < self.width && y < self.height {
            let i = self.index_of(x, y);
            let t = self.tiles[i];
            if t.fg != fg || t.bg != bg {
                self.tiles.set(i, Tile { index: t.index, fg, bg });
                self.dirty.set(i, true);
            }
        }
    }

    /// Marks every cell dirty, so that the next update redraws the whole
    /// graphic (needed after changing the tile set it is drawn with).
    pub fn mark_dirty(&mut self)
        requires
            old(self).wf(),
        ensures
            final(self).wf(),
            final(self)@ == (GraphicModel {
                dirty: Seq::new(old(self)@.dirty.len(), |i: int| true),
                ..old(self)@
            }),
    {
        let mut i: usize = 0;
        while i < self.dirty.len()
            invariant
                self.wf(),
                i <= self@.dirty.len(),
                self@.width == old(self)@.width,
                self@.height == old(self)@.height,
                self@.tiles == old(self)@.tiles,
                forall|k: int| 0 <= k < i ==> self@.dirty[k],
            decreases self@.dirty.len() - i,
        {
            self.dirty.set(i, true);
            i = i + 1;
        }
        assert(self@.dirty =~= Seq::new(old(self)@.dirty.len(), |i: int| true));
    }

    fn put_tile(&mut self, x: u64, y: u64, tile: Tile)
        requires
            old(self).wf(),
        ensures
            final(self).wf(),
            final(self)@ == with_tile(old(self)@, x as int, y as int, tile),
    {
        if x < self.width as u64 && y < self.height as u64 {
            self.set_tile(x as u32, y as u32, tile);
        }
    }

    fn put_colors(&mut self, x: u64, y: u64, fg: Color, bg: Color)
        requires
            old(self).wf(),
        ensures
            final(self).wf(),
            final(self)@ == with_tile(
                old(self)@,
                x as int,
                y as int,
                Tile { index: old(self)@.tile_at(x as int, y as int).index, fg, bg },
            ),
    {
        if x < self.width as u64 && y < self.height as u64 {
            self.color_tile(x as u32, y as u32, fg, bg);
        }
    }

    /// Fills the rectangle of `width` by `height` cells whose top left is
    /// `(x, y)` with `tile`. Cells of the rectangle outside the graphic are
    /// skipped, and only cells whose tile changes are marked dirty.
    pub fn draw_rect(&mut self, x: u32, y: u32, width: u32, height: u32, tile: Tile)
        requires
            old(self).wf(),
        ensures
            final(self).wf(),
            final(self)@ == painted(
                old(self)@,
                rect_fill(x as int, y as int, width as int, height as int, tile),
            ),
    {
        let ghost g0 = self@;
        let ghost f = rect_fill(x as int, y as int, width as int, height as int, tile);
        proof {
            lemma_paint_nothing(g0, visited(f, x as int, y as int, 0, 0));
        }
        let mut j: u32 = 0;
        while j < height
            invariant
                g0.wf(),
                f == rect_fill(x as int, y as int, width as int, height as int, tile),
                j <= height,
                self.wf(),
                self@ == painted(g0, visited(f, x as int, y as int, j as int, 0)),
            decreases height - j,
        {
            let mut i: u32 = 0;
            while i < width
                invariant
                    g0.wf(),
                    f == rect_fill(x as int, y as int, width as int, height as int, tile),
                    j < height,
                    i <= width,
                    self.wf(),
                    self@ == painted(g0, visited(f, x as int, y as int, j as int, i as int)),
                decreases width - i,
            {
                proof {
                    lemma_paint_step(
                        g0,
                        visited(f, x as int, y as int, j as int, i as int),
                        visited(f, x as int, y as int, j as int, i + 1),
                        x + i,
                        y + j,
                    );
                }
                self.put_tile(x as u64 + i as u64, y as u64 + j as u64, tile);
                i = i + 1;
            }
            proof {
                lemma_painted_ext(
                    g0,
                    visited(f, x as int, y as int, j as int, width as int),
                    visited(f, x as int, y as int, j + 1, 0),
                );
            }
            j = j + 1;
        }
        proof {
            lemma_painted_ext(g0, visited(f, x as int, y as int, height as int, 0), f);
        }
    }

    /// Sets the colours of every tile in the rectangle of `width` by `height`
    /// cells whose top left is `(x, y)`, keeping their indices. Cells of the
    /// rectangle outside the graphic are skipped, and only cells whose tile
    /// changes are marked dirty.
    pub fn color_rect(&mut self, x: u32, y: u32, width: u32, height: u32, fg: Color, bg: Color)
        requires
            old(self).wf(),
        ensures
            final(self).wf(),
            final(self)@ == painted(
                old(self)@,
                rect_recolor(old(self)@, x as int, y as int, width as int, height as int, fg, bg),
            ),
    {
        let ghost g0 = self@;
        let ghost f = rect_recolor(g0, x as int, y as int, width as int, height as int, fg, bg);
        proof {
            lemma_paint_nothing(g0, visited(f, x as int, y as int, 0, 0));
        }
        let mut j: u32 = 0;
        while j < height
            invariant
                g0.wf(),
                f == rect_recolor(g0, x as int, y as int, width as int, height as int, fg, bg),
                j <= height,
                self.wf(),
                self@ == painted(g0, visited(f, x as int, y as int, j as int, 0)),
            decreases height - j,
        {
            let mut i: u32 = 0;
            while i < width
                invariant
                    g0.wf(),
                    f == rect_recolor(g0, x as int, y as int, width as int, height as int, fg, bg),
                    j < height,
                    i <= width,
                    self.wf(),
                    self@ == painted(g0, visited(f, x as int, y as int, j as int, i as int)),
                decreases width - i,
            {
                proof {
                    lemma_paint_step(
                        g0,
                        visited(f, x as int, y as int, j as int, i as int),
                        visited(f, x as int, y as int, j as int, i + 1),
                        x + i,
                        y + j,
                    );
                }
                self.put_colors(x as u64 + i as u64, y as u64 + j as u64, fg, bg);
                i = i + 1;
            }
            proof {
                lemma_painted_ext(
                    g0,
                    visited(f, x as int, y as int, j as int, width as int),
                    visited(f, x as int, y as int, j + 1, 0),
                );
            }
            j = j + 1;
        }
        proof {
            lemma_painted_ext(g0, visited(f, x as int, y as int, height as int, 0), f);
        }
    }

    /// Writes `string` along row `y` from column `x`, one cell per byte, each
    /// with the tile that `tile_set`'s character map gives it, in colours `fg`
    /// and `bg`. Characters past the right edge are dropped; only cells whose
    /// tile changes are marked dirty.
    pub fn draw_text(&mut self, string: &str, tile_set: &TileSet, x: u32, y: u32, fg: Color, bg: Color)
        requires
            old(self).wf(),
            tile_set.wf(),
        ensures
            final(self).wf(),
            final(self)@ == painted(
                old(self)@,
                text_fill(string.spec_bytes(), tile_set@.char_map, x as int, y as int, fg, bg),
            ),
    {
        let bytes = string.as_bytes();
        let ghost g0 = self@;
        let ghost f = text_fill(bytes@, tile_set@.char_map, x as int, y as int, fg, bg);
        proof {
            lemma_paint_nothing(g0, visited(f, x as int, y as int, 0, 0));
        }
        let mut k: usize = 0;
        while k < bytes.len() && (x as u64 + k as u64) < self.width as u64
            invariant
                g0.wf(),
                tile_set.wf(),
                f == text_fill(bytes@, tile_set@.char_map, x as int, y as int, fg, bg),
                k <= bytes@.len(),
                k == 0 || x + k <= g0.width,
                self.wf(),
                self@.width == g0.width,
                self@ == painted(g0, visited(f, x as int, y as int, 0, k as int)),
            decreases bytes@.len() - k,
        {
            let t = Tile { index: tile_set.char_index(bytes[k]), fg, bg };
            proof {
                lemma_paint_step(
                    g0,
                    visited(f, x as int, y as int, 0, k as int),
                    visited(f, x as int, y as int, 0, k + 1),
                    x + k,
                    y as int,
                );
            }
            self.put_tile(x as u64 + k as u64, y as u64, t);
            k = k + 1;
        }
        proof {
            lemma_painted_ext(g0, visited(f, x as int, y as int, 0, k as int), f);
        }
    }

    /// Copies the region of `src_w` by `src_h` cells of `other` whose top left
    /// is `(src_x, src_y)` to this graphic, its top left at `(dest_x, dest_y)`.
    /// The region is clipped to `other`, and cells that land outside this
    /// graphic are dropped; only cells whose tile changes are marked dirty.
    pub fn copy_tiles_from(
        &mut self,
        other: &Graphic,
        src_x: u32,
        src_y: u32,
        src_w: u32,
        src_h: u32,
        dest_x: u32,
        dest_y: u32,
    )
        requires
            old(self).wf(),
            other.wf(),
        ensures
            final(self).wf(),
            final(self)@ == painted(
                old(self)@,
                region_copy(
                    other@,
                    src_x as int,
                    src_y as int,
                    src_w as int,
                    src_h as int,
                    dest_x as int,
                    dest_y as int,
                ),
            ),
    {
        let ghost g0 = self@;
        let ghost f = region_copy(
            other@,
            src_x as int,
            src_y as int,
            src_w as int,
            src_h as int,
            dest_x as int,
            dest_y as int,
        );
        let ghost (dx, dy) = (dest_x as int, dest_y as int);
        proof {
            lemma_paint_nothing(g0, visited(f, dx, dy, 0, 0));
        }
        let mut j: u32 = 0;
        while j < src_h
            invariant
                g0.wf(),
                other.wf(),
                f == region_copy(
                    other@,
                    src_x as int,
                    src_y as int,
                    src_w as int,
                    src_h as int,
                    dest_x as int,
                    dest_y as int,
                ),
                dx == dest_x,
                dy == dest_y,
                j <= src_h,
                self.wf(),
                self@ == painted(g0, visited(f, dx, dy, j as int, 0)),
            decreases src_h - j,
        {
            if (src_y as u64 + j as u64) < other.height as u64 {
                let mut i: u32 = 0;
                while i < src_w
                    invariant
                        g0.wf(),
                        other.wf(),
                        f == region_copy(
                            other@,
                            src_x as int,
                            src_y as int,
                            src_w as int,
                            src_h as int,
                            dest_x as int,
                            dest_y as int,
                        ),
                        dx == dest_x,
                        dy == dest_y,
                        j < src_h,
                        src_y + j < other@.height,
                        i <= src_w,
                        self.wf(),
                        self@ == painted(g0, visited(f, dx, dy, j as int, i as int)),
                    decreases src_w - i,
                {
                    proof {
                        lemma_paint_step(
                            g0,
                            visited(f, dx, dy, j as int, i as int),
                            visited(f, dx, dy, j as int, i + 1),
                            dx + i,
                            dy + j,
                        );
                    }
                    if (src_x as u64 + i as u64) < other.width as u64 {
                        let t = other.get_tile(src_x + i, src_y + j);
                        self.put_tile(dest_x as u64 + i as u64, dest_y as u64 + j as u64, t);
                    }
                    i = i + 1;
                }
                proof {
                    lemma_painted_ext(
                        g0,
                        visited(f, dx, dy, j as int, src_w as int),
                        visited(f, dx, dy, j + 1, 0),
                    );
                }
            } else {
                proof {
                    lemma_painted_ext(
                        g0,
                        visited(f, dx, dy, j as int, 0),
                        visited(f, dx, dy, j + 1, 0),
                    );
                }
            }
            j = j + 1;
        }
        proof {
            lemma_painted_ext(g0, visited(f, dx, dy, src_h as int, 0), f);
        }
    }

    /// Copies the whole of `other` to this graphic, its top left at
    /// `(dest_x, dest_y)`; cells that land outside this graphic are dropped.
    pub fn copy_all_tiles_from(&mut self, other: &Graphic, dest_x: u32, dest_y: u32)
        requires
            old(self).wf(),
            other.wf(),
        ensures
            final(self).wf(),
            final(self)@ == painted(
                old(self)@,
                region_copy(
                    other@,
                    0,
                    0,
                    other@.width as int,
                    other@.height as int,
                    dest_x as int,
                    dest_y as int,
                ),
            ),
    {
        self.copy_tiles_from(other, 0, 0, other.width, other.height, dest_x, dest_y);
    }

    /// The graphic's file: width and height as little-endian `u32`s, then for
    /// each cell, row by row, its tile index as a little-endian `u32` (an
    /// index above `u32::MAX` keeps only its low 32 bits), its foreground and
    /// its background colour, four bytes each, red, green, blue, alpha.
    pub fn save(&self) -> (bytes: Vec<u8>)
        requires
            self.wf(),
        ensures
            bytes@ == graphic_file(self@),
    {
        let ghost file = graphic_file(self@);
        let mut out: Vec<u8> = Vec::new();
        push_all(&mut out, &u32_bytes(self.width));
        push_all(&mut out, &u32_bytes(self.height));
        assert(out@ =~= file.subrange(0, 8));
        let mut k: usize = 0;
        while k < self.tiles.len()
            invariant
                self.wf(),
                file == graphic_file(self@),
                k <= self@.tiles.len(),
                out@ == file.subrange(0, 8 + 12 * k),
            decreases self@.tiles.len() - k,
        {
            let t = self.tiles[k];
            push_all(&mut out, &u32_bytes(t.index as u32));
            out.push(t.fg.r);
            out.push(t.fg.g);
            out.push(t.fg.b);
            out.push(t.fg.a);
            out.push(t.bg.r);
            out.push(t.bg.g);
            out.push(t.bg.b);
            out.push(t.bg.a);
            k = k + 1;
            assert(out@ =~= file.subrange(0, 8 + 12 * k)) by {
                assert forall|j: int| 8 + 12 * (k - 1) <= j < 8 + 12 * k implies #[trigger] file[j]
                    == out@[j] by {
                    assert((j - 8) / 12 == k - 1);
                    assert((j - 8) % 12 == j - 8 - 12 * (k - 1));
                }
            }
        }
        assert(out@ =~= file);
        out
    }

    /// Reads a graphic file (see `save`). Fails only on the header: a file
    /// shorter than 8 bytes, or a size whose file would not fit in the address
    /// range.
    /// A short body never fails: cells without a whole record keep the
    /// default tile, and bytes past the last cell are ignored. Every cell of
    /// the result is dirty.
    pub fn load_from(bytes: &[u8]) -> (r: Result<Graphic, LoadError>)
        ensures
            bytes@.len() < 8 ==> r == Err::<Graphic, LoadError>(LoadError::TruncatedHeader),
            bytes@.len() >= 8 && 8 + 12 * (file_width(bytes@) * file_height(bytes@)) > usize::MAX
                ==> r == Err::<Graphic, LoadError>(LoadError::TooLarge),
            bytes@.len() >= 8 && 8 + 12 * (file_width(bytes@) * file_height(bytes@)) <= usize::MAX
                ==> r is Ok && r->Ok_0.wf() && r->Ok_0@ == graphic_of_file(bytes@),
    {
        if bytes.len() < 8 {
            return Err(LoadError::TruncatedHeader);
        }
        let w = read_u32_at(bytes, 0);
        let h = read_u32_at(bytes, 4);
        let area = match (w as usize).checked_mul(h as usize) {
            Some(n) => n,
            None => {
                return Err(LoadError::TooLarge);
            },
        };
        if area > (usize::MAX - 8) / 12 {
            return Err(LoadError::TooLarge);
        }
        let ghost file = graphic_of_file(bytes@);
        let mut g = Graphic::blank(w, h);
        let mut k: usize = 0;
        while k < area && k < (bytes.len() - 8) / 12
            invariant
                bytes@.len() >= 8,
                file == graphic_of_file(bytes@),
                w == file_width(bytes@),
                h == file_height(bytes@),
                area == w * h,
                k <= area,
                g.wf(),
                g@.width == w,
                g@.height == h,
                g@.dirty == file.dirty,
                forall|i: int| 0 <= i < k ==> g@.tiles[i] == file.tiles[i],
                forall|i: int| k <= i < area ==> g@.tiles[i] == default_tile(),
            decreases area - k,
        {
            let at = 8 + 12 * k;
            let index = read_u32_at(bytes, at);
            let fg = Color::RGBA(bytes[at + 4], bytes[at + 5], bytes[at + 6], bytes[at + 7]);
            let bg = Color::RGBA(bytes[at + 8], bytes[at + 9], bytes[at + 10], bytes[at + 11]);
            g.tiles.set(k, Tile { index: index as usize, fg, bg });
            k = k + 1;
        }
        assert forall|i: int| k <= i < area implies file.tiles[i] == default_tile() by {
            assert(8 + 12 * i + 12 > bytes@.len());
        }
        assert(g@.tiles =~= file.tiles);
        Ok(g)
    }

    /// Every dirty cell's tile index lies within `tile_set`, as `update_texture`
    /// needs.
    pub fn can_update(&self, tile_set: &TileSet) -> (ok: bool)
        requires
            self.wf(),
            tile_set.wf(),
        ensures
            ok == forall|k: int| 0 <= k < self@.tiles.len() ==> renderable(self@, tile_set@, k),
    {
        let mut i: usize = 0;
        while i < self.tiles.len()
            invariant
                self.wf(),
                i <= self@.tiles.len(),
                forall|k: int| 0 <= k < i ==> renderable(self@, tile_set@, k),
            decreases self@.tiles.len() - i,
        {
            if self.dirty[i] && self.tiles[i].index >= tile_set.len() {
                assert(!renderable(self@, tile_set@, i as int));
                return false;
            }
            i = i + 1;
        }
        true
    }

    /// Redraws each dirty cell from `tile_set` and marks it clean: returns the
    /// pixels of each cell that was dirty, row by row, with its position.
    /// Cells that were clean are not drawn.
    pub fn update_texture(&mut self, tile_set: &TileSet) -> (drawn: Vec<RenderedTile>)
        requires
            old(self).wf(),
            tile_set.wf(),
            forall|k: int| 0 <= k < old(self)@.tiles.len() ==> renderable(old(self)@, tile_set@, k),
        ensures
            final(self).wf(),
            final(self)@ == (GraphicModel {
                dirty: Seq::new(old(self)@.dirty.len(), |i: int| false),
                ..old(self)@
            }),
            final(self)@.clean(),
            drawn@.len() == dirty_cells(old(self)@).len(),
            forall|k: int|
                0 <= k < drawn@.len() ==> {
                    let i = #[trigger] dirty_cells(old(self)@)[k];
                    let t = old(self)@.tiles[i];
                    &&& drawn@[k].x == old(self)@.col(i)
                    &&& drawn@[k].y == old(self)@.row(i)
                    &&& drawn@[k].pixels@ == raster(tile_set@.bitmaps[t.index as int], t.fg, t.bg)
                },
    {
        let ghost g0 = self@;
        let n = self.tiles.len();
        let mut drawn: Vec<RenderedTile> = Vec::new();
        let mut i: usize = 0;
        let mut y: u32 = 0;
        while y < self.height
            invariant
                g0 == old(self)@,
                g0.wf(),
                n == g0.tiles.len(),
                tile_set.wf(),
                forall|k: int| 0 <= k < g0.tiles.len() ==> renderable(g0, tile_set@, k),
                self.wf(),
                self@.width == g0.width,
                self@.height == g0.height,
                self@.tiles == g0.tiles,
                y <= g0.height,
                i == y * g0.width,
                forall|k: int| 0 <= k < i ==> !#[trigger] self@.dirty[k],
                forall|k: int| i <= k < g0.dirty.len() ==> #[trigger] self@.dirty[k] == g0.dirty[k],
                drawn@.len() == dirty_prefix(g0.dirty, i as int).len(),
                forall|k: int|
                    0 <= k < drawn@.len() ==> {
                        let c = #[trigger] dirty_prefix(g0.dirty, i as int)[k];
                        let t = g0.tiles[c];
                        &&& drawn@[k].x == g0.col(c)
                        &&& drawn@[k].y == g0.row(c)
                        &&& drawn@[k].pixels@ == raster(tile_set@.bitmaps[t.index as int], t.fg, t.bg)
                    },
            decreases g0.height - y,
        {
            let mut x: u32 = 0;
            while x < self.width
                invariant
                    g0 == old(self)@,
                    g0.wf(),
                    n == g0.tiles.len(),
                    tile_set.wf(),
                    forall|k: int| 0 <= k < g0.tiles.len() ==> renderable(g0, tile_set@, k),
                    self.wf(),
                    self@.width == g0.width,
                    self@.height == g0.height,
                    self@.tiles == g0.tiles,
                    y < g0.height,
                    x <= g0.width,
                    i == x + y * g0.width,
                    forall|k: int| 0 <= k < i ==> !#[trigger] self@.dirty[k],
                    forall|k: int| i <= k < g0.dirty.len() ==> #[trigger] self@.dirty[k] == g0.dirty[k],
                    drawn@.len() == dirty_prefix(g0.dirty, i as int).len(),
                    forall|k: int|
                        0 <= k < drawn@.len() ==> {
                            let c = #[trigger] dirty_prefix(g0.dirty, i as int)[k];
                            let t = g0.tiles[c];
                            &&& drawn@[k].x == g0.col(c)
                            &&& drawn@[k].y == g0.row(c)
                            &&& drawn@[k].pixels@ == raster(tile_set@.bitmaps[t.index as int], t.fg, t.bg)
                        },
                decreases g0.width - x,
            {
                proof {
                    lemma_cell(g0, x as int, y as int);
                    assert(i < g0.tiles.len());
                    assert(renderable(g0, tile_set@, i as int));
                }
                let ghost before = drawn@;
                if self.dirty[i] {
                    let t = self.tiles[i];
                    let pixels = rasterize(tile_set.bitmap(t.index), t.fg, t.bg);
                    drawn.push(RenderedTile { x, y, pixels });
                    self.dirty.set(i, false);
                }
                proof {
                    let p = dirty_prefix(g0.dirty, i as int);
                    assert(dirty_prefix(g0.dirty, i + 1) == if g0.dirty[i as int] {
                        p.push(i as int)
                    } else {
                        p
                    });
                    assert forall|k: int| 0 <= k < drawn@.len() implies {
                        let c = #[trigger] dirty_prefix(g0.dirty, i + 1)[k];
                        let t = g0.tiles[c];
                        &&& drawn@[k].x == g0.col(c)
                        &&& drawn@[k].y == g0.row(c)
                        &&& drawn@[k].pixels@ == raster(tile_set@.bitmaps[t.index as int], t.fg, t.bg)
                    } by {
                        if k < before.len() {
                            assert(dirty_prefix(g0.dirty, i + 1)[k] == p[k]);
                        }
                    }
                }
                i = i + 1;
                x = x + 1;
            }
            proof {
                assert((y + 1) * g0.width == y * g0.width + g0.width) by (nonlinear_arith);
            }
            y = y + 1;
        }
        proof {
            assert(i == g0.tiles.len()) by {
                lemma_mul_is_commutative(g0.width as int, g0.height as int);
            }
        }
        assert(self@.dirty =~= Seq::new(g0.dirty.len(), |k: int| false));
        drawn
    }
}

/// Saving a graphic and loading the file gives back its size and its tiles,
/// every cell dirty, where each tile index fits the file's 32 bits.
pub proof fn lemma_graphic_round_trip(g: GraphicModel)
    requires
        g.wf(),
        g.width * g.height <= usize::MAX,
        forall|k: int| 0 <= k < g.tiles.len() ==> #[trigger] g.tiles[k].index <= u32::MAX,
    ensures
        graphic_of_file(graphic_file(g)) == (GraphicModel {
            dirty: Seq::new(g.tiles.len(), |k: int| true),
            ..g
        }),
{
    let f = graphic_file(g);
    assert(f.subrange(0, 4) =~= u32_le(g.width as u32));
    assert(f.subrange(4, 8) =~= u32_le(g.height as u32));
    lemma_u32_le_round_trip(g.width as u32);
    lemma_u32_le_round_trip(g.height as u32);
    let back = graphic_of_file(f);
    assert(back.tiles.len() == g.tiles.len());
    assert forall|k: int| 0 <= k < g.tiles.len() implies #[trigger] back.tiles[k] == g.tiles[k] by {
        let at = 8 + 12 * k;
        let t = g.tiles[k];
        assert(at + 12 <= f.len());
        assert(f.subrange(at, at + 4) =~= u32_le(t.index as u32));
        lemma_u32_le_round_trip(t.index as u32);
        let i = t.index;
        assert(i <= 0xffff_ffffusize ==> (i as u32) as usize == i) by (bit_vector);
        assert(f[at + 4] == t.fg.r && f[at + 5] == t.fg.g && f[at + 6] == t.fg.b && f[at + 7] == t.fg.a);
        assert(f[at + 8] == t.bg.r && f[at + 9] == t.bg.g && f[at + 10] == t.bg.b && f[at + 11] == t.bg.a);
    }
    assert(back.tiles =~= g.tiles);
    assert(back.dirty =~= Seq::new(g.tiles.len(), |k: int| true));
}

/// Putting the same tile in the same cell twice marks the cell dirty at most
/// once: the second time changes nothing, and the first marks it only if its
/// tile was a different one.
pub proof fn lemma_set_tile_twice(g: GraphicModel, x: int, y: int, t: Tile)
    requires
        g.wf(),
    ensures
        with_tile(with_tile(g, x, y, t), x, y, t) == with_tile(g, x, y, t),
        g.in_bounds(x, y) ==> with_tile(g, x, y, t).dirty[g.cell(x, y)] == (g.dirty[g.cell(x, y)]
            || g.tiles[g.cell(x, y)] != t),
{
    if g.in_bounds(x, y) {
        lemma_cell(g, x, y);
    }
}

proof fn lemma_clean_prefix(dirty: Seq<bool>, n: int)
    requires
        0 <= n <= dirty.len(),
        forall|i: int| 0 <= i < n ==> !#[trigger] dirty[i],
    ensures
        dirty_prefix(dirty, n) == Seq::<int>::empty(),
    decreases n,
{
    if n > 0 {
        lemma_clean_prefix(dirty, n - 1);
    }
}

/// A graphic with no dirty cell has nothing to redraw: an update right after
/// another draws no cell.
pub proof fn lemma_clean_draws_nothing(g: GraphicModel)
    requires
        g.clean(),
    ensures
        dirty_cells(g) == Seq::<int>::empty(),
{
    lemma_clean_prefix(g.dirty, g.dirty.len() as int);
}

/// Cell `(a, b)` lies in the destination of a copy of the `w` by `h` region
/// of `src` at `(sx, sy)` to `(dx, dy)`, and its source lies within `src`.
pub open spec fn copy_covers(
    src: GraphicModel,
    sx: int,
    sy: int,
    w: int,
    h: int,
    dx: int,
    dy: int,
    a: int,
    b: int,
) -> bool {
    dx <= a < dx + w && dy <= b < dy + h && src.in_bounds(sx + (a - dx), sy + (b - dy))
}

/// Copying a region takes only the part of it within the source: a cell whose
/// source lies outside the region or outside the source graphic keeps its
/// tile and its dirty flag, and every other cell gets its source's tile.
pub proof fn lemma_copy_clips(
    g: GraphicModel,
    src: GraphicModel,
    sx: int,
    sy: int,
    w: int,
    h: int,
    dx: int,
    dy: int,
)
    requires
        g.wf(),
    ensures
        forall|a: int, b: int|
            g.in_bounds(a, b) && copy_covers(src, sx, sy, w, h, dx, dy, a, b) ==> #[trigger] painted(
                g,
                region_copy(src, sx, sy, w, h, dx, dy),
            ).tile_at(a, b) == src.tile_at(sx + (a - dx), sy + (b - dy)),
        forall|a: int, b: int|
            g.in_bounds(a, b) && !copy_covers(src, sx, sy, w, h, dx, dy, a, b) ==> #[trigger] painted(
                g,
                region_copy(src, sx, sy, w, h, dx, dy),
            ).tile_at(a, b) == g.tile_at(a, b) && painted(
                g,
                region_copy(src, sx, sy, w, h, dx, dy),
            ).dirty[g.cell(a, b)] == g.dirty[g.cell(a, b)],
{
    assert forall|a: int, b: int| g.in_bounds(a, b) implies #[trigger] painted(
        g,
        region_copy(src, sx, sy, w, h, dx, dy),
    ).tile_at(a, b) == if copy_covers(src, sx, sy, w, h, dx, dy, a, b) {
        src.tile_at(sx + (a - dx), sy + (b - dy))
    } else {
        g.tile_at(a, b)
    } && (!copy_covers(src, sx, sy, w, h, dx, dy, a, b) ==> painted(
        g,
        region_copy(src, sx, sy, w, h, dx, dy),
    ).dirty[g.cell(a, b)] == g.dirty[g.cell(a, b)]) by {
        lemma_cell(g, a, b);
    }
}

} // verus!
