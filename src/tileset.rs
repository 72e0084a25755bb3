//! Tile sets: 512 bitmaps and a map from 8-bit character codes to tile indices,
//! with their fixed-size file format.

use vstd::prelude::*;
use crate::bytes::{
    le_u16, le_u64, lemma_u16_le_round_trip, lemma_u64_le_round_trip, push_all, read_u16_at,
    read_u64_at, u16_bytes, u16_le, u64_bytes, u64_le,
};

verus! {

/// The number of bitmaps in a tile set.
pub const TILESET_SIZE: usize = 512;

/// The number of entries in a character map.
pub const CHAR_MAP_SIZE: usize = 256;

/// The length of a tile set file: the bitmaps, then the character map.
pub const TILESET_FILE_LEN: usize = 4608;

/// The tile index that the built-in character map gives code `c`: letters,
/// digits and the printable punctuation of ASCII have their own glyphs, every
/// other code maps to tile 0.
pub open spec fn default_char_index(c: int) -> usize {
    if 65 <= c <= 90 {
        // 'A'..='Z'
        (c - 63) as usize
    } else if 97 <= c <= 122 {
        // 'a'..='z'
        (c - 19) as usize
    } else if 48 <= c <= 57 {
        // '0'..='9'
        (c + 3) as usize
    } else if c == 46 {
        28  // '.'
    } else if c == 33 {
        29  // '!'
    } else if c == 63 {
        30  // '?'
    } else if c == 45 {
        31  // '-'
    } else if c == 44 {
        32  // ','
    } else if c == 39 {
        33  // '\''
    } else if c == 58 {
        34  // ':'
    } else if c == 59 {
        35  // ';'
    } else if c == 95 {
        36  // '_'
    } else if c == 41 {
        37  // ')'
    } else if c == 40 {
        38  // '('
    } else if c == 47 {
        39  // '/'
    } else if c == 92 {
        40  // '\\'
    } else if c == 93 {
        41  // ']'
    } else if c == 91 {
        42  // '['
    } else if c == 62 {
        43  // '>'
    } else if c == 60 {
        44  // '<'
    } else if c == 125 {
        45  // '}'
    } else if c == 123 {
        46  // '{'
    } else if c == 34 {
        47  // '"'
    } else if c == 124 {
        48  // '|'
    } else if c == 43 {
        49  // '+'
    } else if c == 61 {
        50  // '='
    } else if c == 126 {
        61  // '~'
    } else if c == 96 {
        62  // '`'
    } else if c == 36 {
        63  // '$'
    } else if c == 35 {
        72  // '#'
    } else if c == 64 {
        73  // '@'
    } else if c == 37 {
        74  // '%'
    } else if c == 94 {
        75  // '^'
    } else if c == 38 {
        76  // '&'
    } else if c == 42 {
        77  // '*'
    } else {
        0
    }
}

/// The built-in character map.
pub open spec fn default_char_map() -> Seq<usize> {
    Seq::new(256, |c: int| default_char_index(c))
}

fn default_char_index_of(c: u8) -> (r: usize)
    ensures
        r == default_char_index(c as int),
{
    if 65 <= c && c <= 90 {
        (c - 63) as usize
    } else if 97 <= c && c <= 122 {
        (c - 19) as usize
    } else if 48 <= c && c <= 57 {
        (c + 3) as usize
    } else if c == 46 {
        28
    } else if c == 33 {
        29
    } else if c == 63 {
        30
    } else if c == 45 {
        31
    } else if c == 44 {
        32
    } else if c == 39 {
        33
    } else if c == 58 {
        34
    } else if c == 59 {
        35
    } else if c == 95 {
        36
    } else if c == 41 {
        37
    } else if c == 40 {
        38
    } else if c == 47 {
        39
    } else if c == 92 {
        40
    } else if c == 93 {
        41
    } else if c == 91 {
        42
    } else if c == 62 {
        43
    } else if c == 60 {
        44
    } else if c == 125 {
        45
    } else if c == 123 {
        46
    } else if c == 34 {
        47
    } else if c == 124 {
        48
    } else if c == 43 {
        49
    } else if c == 61 {
        50
    } else if c == 126 {
        61
    } else if c == 96 {
        62
    } else if c == 36 {
        63
    } else if c == 35 {
        72
    } else if c == 64 {
        73
    } else if c == 37 {
        74
    } else if c == 94 {
        75
    } else if c == 38 {
        76
    } else if c == 42 {
        77
    } else {
        0
    }
}

/// The built-in character map, one tile index per 8-bit character code.
pub fn create_character_map() -> (r: Vec<usize>)
    ensures
        r@ == default_char_map(),
{
    let mut map: Vec<usize> = Vec::new();
    let mut c: usize = 0;
    while c < CHAR_MAP_SIZE
        invariant
            c <= 256,
            map@ == default_char_map().subrange(0, c as int),
        decreases 256 - c,
    {
        map.push(default_char_index_of(c as u8));
        c = c + 1;
        assert(map@ =~= default_char_map().subrange(0, c as int));
    }
    assert(map@ =~= default_char_map());
    map
}

/// What a tile set holds: its bitmaps and its character map.
pub struct TileSetModel {
    pub bitmaps: Seq<u64>,
    pub char_map: Seq<usize>,
}

/// Holds 512 bitmaps and 256 character map entries.
pub open spec fn full_size(m: TileSetModel) -> bool {
    m.bitmaps.len() == TILESET_SIZE && m.char_map.len() == CHAR_MAP_SIZE
}

/// Bitmap `i` as a file gives it: the `i`-th little-endian `u64`, or zero
/// where the file ends before it.
pub open spec fn file_bitmap(bytes: Seq<u8>, i: int) -> u64 {
    if 8 * i + 8 <= bytes.len() {
        le_u64(bytes.subrange(8 * i, 8 * i + 8))
    } else {
        0
    }
}

/// Character map entry `c` as a file gives it: the `c`-th little-endian `u16`
/// after the bitmaps, or the built-in entry where the file ends before it.
pub open spec fn file_char_index(bytes: Seq<u8>, c: int) -> usize {
    let at = 4096 + 2 * c;
    if at + 2 <= bytes.len() {
        le_u16(bytes.subrange(at, at + 2)) as usize
    } else {
        default_char_index(c)
    }
}

/// The tile set that a file holds, missing data padded with zero bitmaps and
/// built-in character map entries, data past the end ignored.
pub open spec fn tile_set_of_file(bytes: Seq<u8>) -> TileSetModel {
    TileSetModel {
        bitmaps: Seq::new(512, |i: int| file_bitmap(bytes, i)),
        char_map: Seq::new(256, |c: int| file_char_index(bytes, c)),
    }
}

/// Byte `j` of the file of a full-size tile set: the bitmaps as little-endian
/// `u64`s, then the character map entries as little-endian `u16`s.
pub open spec fn tile_set_file_byte(m: TileSetModel, j: int) -> u8 {
    if j < 4096 {
        u64_le(m.bitmaps[j / 8])[j % 8]
    } else {
        u16_le(m.char_map[(j - 4096) / 2] as u16)[(j - 4096) % 2]
    }
}

/// The file of a full-size tile set: always 4608 bytes.
pub open spec fn tile_set_file(m: TileSetModel) -> Seq<u8> {
    Seq::new(TILESET_FILE_LEN as nat, |j: int| tile_set_file_byte(m, j))
}

/// A set of 512 8x8 monochrome tiles, with a map from the 256 8-bit character
/// codes to tile indices.
#[derive(Clone)]
pub struct TileSet {
    data: Vec<u64>,
    char_map: Vec<usize>,
}

impl View for TileSet {
    type V = TileSetModel;

    closed spec fn view(&self) -> TileSetModel {
        TileSetModel { bitmaps: self.data@, char_map: self.char_map@ }
    }
}

impl TileSet {
    /// Holds 512 bitmaps and 256 character map entries.
    pub open spec fn wf(&self) -> bool {
        full_size(self@)
    }

    fn new() -> (ts: TileSet)
        ensures
            ts@.bitmaps.len() == 0,
            ts@.char_map == default_char_map(),
    {
        TileSet { data: Vec::new(), char_map: create_character_map() }
    }

    /// A tile set of 512 empty bitmaps (all pixels off) with the built-in
    /// character map.
    pub fn blank() -> (ts: TileSet)
        ensures
            ts.wf(),
            ts@.bitmaps == Seq::new(512, |i: int| 0u64),
            ts@.char_map == default_char_map(),
    {
        let mut ts = TileSet::new();
        let mut i: usize = 0;
        while i < TILESET_SIZE
            invariant
                i <= 512,
                ts@.bitmaps == Seq::new(i as nat, |k: int| 0u64),
                ts@.char_map == default_char_map(),
            decreases 512 - i,
        {
            ts.data.push(0);
            i = i + 1;
            assert(ts@.bitmaps =~= Seq::new(i as nat, |k: int| 0u64));
        }
        ts
    }

    /// Reads a tile set file: up to 512 little-endian `u64` bitmaps, then up
    /// to 256 little-endian `u16` character map entries. A short file never
    /// fails: missing bitmaps are empty and missing entries keep the built-in
    /// map; bytes past the end of the format are ignored.
    pub fn load_from(bytes: &[u8]) -> (ts: TileSet)
        ensures
            ts.wf(),
            ts@ == tile_set_of_file(bytes@),
    {
        let ghost file = tile_set_of_file(bytes@);
        let mut ts = TileSet::new();
        let mut i: usize = 0;
        while i < TILESET_SIZE && i * 8 + 8 <= bytes.len()
            invariant
                i <= 512,
                file == tile_set_of_file(bytes@),
                ts@.bitmaps == file.bitmaps.subrange(0, i as int),
                ts@.char_map == default_char_map(),
            decreases 512 - i,
        {
            ts.data.push(read_u64_at(bytes, i * 8));
            i = i + 1;
            assert(ts@.bitmaps =~= file.bitmaps.subrange(0, i as int));
        }
        while i < TILESET_SIZE
            invariant
                i <= 512,
                file == tile_set_of_file(bytes@),
                ts@.bitmaps == file.bitmaps.subrange(0, i as int),
                ts@.char_map == default_char_map(),
                i < 512 ==> i * 8 + 8 > bytes@.len(),
            decreases 512 - i,
        {
            ts.data.push(0);
            i = i + 1;
            assert(ts@.bitmaps =~= file.bitmaps.subrange(0, i as int));
        }
        let mut c: usize = 0;
        while c < CHAR_MAP_SIZE && 4096 + c * 2 + 2 <= bytes.len()
            invariant
                c <= 256,
                file == tile_set_of_file(bytes@),
                ts@.bitmaps == file.bitmaps,
                ts@.char_map.len() == 256,
                forall|k: int| 0 <= k < c ==> ts@.char_map[k] == file.char_map[k],
                forall|k: int| c <= k < 256 ==> ts@.char_map[k] == default_char_index(k),
            decreases 256 - c,
        {
            let index = read_u16_at(bytes, 4096 + c * 2);
            ts.char_map.set(c, index as usize);
            c = c + 1;
        }
        assert(ts@.bitmaps =~= file.bitmaps);
        assert(ts@.char_map =~= file.char_map);
        ts
    }

    /// The tile set's file: the 512 bitmaps as little-endian `u64`s, then the
    /// 256 character map entries as little-endian `u16`s, 4608 bytes in all.
    /// An entry is stored in 16 bits, so one above `u16::MAX` keeps only its
    /// low bits.
    pub fn save(&self) -> (bytes: Vec<u8>)
        requires
            self.wf(),
        ensures
            bytes@ == tile_set_file(self@),
    {
        let ghost file = tile_set_file(self@);
        let mut out: Vec<u8> = Vec::new();
        let mut i: usize = 0;
        while i < TILESET_SIZE
            invariant
                self.wf(),
                file == tile_set_file(self@),
                i <= 512,
                out@ == file.subrange(0, 8 * i),
            decreases 512 - i,
        {
            let b = u64_bytes(self.data[i]);
            push_all(&mut out, &b);
            i = i + 1;
            assert(out@ =~= file.subrange(0, 8 * i)) by {
                assert forall|j: int| 8 * (i - 1) <= j < 8 * i implies #[trigger] file[j]
                    == u64_le(self@.bitmaps[i - 1])[j - 8 * (i - 1)] by {
                    assert(j / 8 == i - 1);
                    assert(j % 8 == j - 8 * (i - 1));
                }
            }
        }
        let mut c: usize = 0;
        while c < CHAR_MAP_SIZE
            invariant
                self.wf(),
                file == tile_set_file(self@),
                c <= 256,
                out@ == file.subrange(0, 4096 + 2 * c),
            decreases 256 - c,
        {
            let b = u16_bytes(self.char_map[c] as u16);
            push_all(&mut out, &b);
            c = c + 1;
            assert(out@ =~= file.subrange(0, 4096 + 2 * c)) by {
                assert forall|j: int| 4096 + 2 * (c - 1) <= j < 4096 + 2 * c implies #[trigger] file[j]
                    == u16_le(self@.char_map[c - 1] as u16)[j - 4096 - 2 * (c - 1)] by {
                    assert((j - 4096) / 2 == c - 1);
                    assert((j - 4096) % 2 == j - 4096 - 2 * (c - 1));
                }
            }
        }
        assert(out@ =~= file);
        out
    }

    /// The number of bitmaps: always 512.
    pub fn len(&self) -> (n: usize)
        ensures
            n == self@.bitmaps.len(),
    {
        self.data.len()
    }

    /// Bitmap `index`. An index outside the tile set is a caller's error.
    pub fn bitmap(&self, index: usize) -> (b: u64)
        requires
            self.wf(),
            index < TILESET_SIZE,
        ensures
            b == self@.bitmaps[index as int],
    {
        self.data[index]
    }

    /// Replaces bitmap `index`, leaving everything else as it was.
    pub fn set_bitmap(&mut self, index: usize, bitmap: u64)
        requires
            old(self).wf(),
            index < TILESET_SIZE,
        ensures
            final(self).wf(),
            final(self)@ == (TileSetModel {
                bitmaps: old(self)@.bitmaps.update(index as int, bitmap),
                char_map: old(self)@.char_map,
            }),
    {
        self.data.set(index, bitmap);
    }

    /// The tile index that character code `c` maps to.
    pub fn char_index(&self, c: u8) -> (index: usize)
        requires
            self.wf(),
        ensures
            index == self@.char_map[c as int],
    {
        self.char_map[c as usize]
    }

    /// Maps character code `c` to tile `index`, leaving everything else as it was.
    pub fn set_char_index(&mut self, c: u8, index: usize)
        requires
            old(self).wf(),
        ensures
            final(self).wf(),
            final(self)@ == (TileSetModel {
                bitmaps: old(self)@.bitmaps,
                char_map: old(self)@.char_map.update(c as int, index),
            }),
    {
        self.char_map.set(c as usize, index);
    }
}

/// Saving a full-size tile set and loading the file gives the same tile set,
/// where each character map entry fits the file's 16 bits.
pub proof fn lemma_tile_set_round_trip(m: TileSetModel)
    requires
        full_size(m),
        forall|c: int| 0 <= c < 256 ==> m.char_map[c] <= u16::MAX,
    ensures
        tile_set_of_file(tile_set_file(m)) == m,
{
    let f = tile_set_file(m);
    let back = tile_set_of_file(f);
    assert forall|i: int| 0 <= i < 512 implies #[trigger] back.bitmaps[i] == m.bitmaps[i] by {
        assert forall|j: int| 0 <= j < 8 implies #[trigger] f.subrange(8 * i, 8 * i + 8)[j] == u64_le(
            m.bitmaps[i],
        )[j] by {
            assert((8 * i + j) / 8 == i);
            assert((8 * i + j) % 8 == j);
        }
        assert(f.subrange(8 * i, 8 * i + 8) =~= u64_le(m.bitmaps[i]));
        lemma_u64_le_round_trip(m.bitmaps[i]);
    }
    assert forall|c: int| 0 <= c < 256 implies #[trigger] back.char_map[c] == m.char_map[c] by {
        let at = 4096 + 2 * c;
        assert forall|j: int| 0 <= j < 2 implies #[trigger] f.subrange(at, at + 2)[j] == u16_le(
            m.char_map[c] as u16,
        )[j] by {
            assert((at + j - 4096) / 2 == c);
            assert((at + j - 4096) % 2 == j);
        }
        assert(f.subrange(at, at + 2) =~= u16_le(m.char_map[c] as u16));
        lemma_u16_le_round_trip(m.char_map[c] as u16);
    }
    assert(back.bitmaps =~= m.bitmaps);
    assert(back.char_map =~= m.char_map);
}

/// A file that ends before the character map leaves every bitmap it does not
/// hold in full empty, and the built-in character map in place.
pub proof fn lemma_short_tile_set_file(bytes: Seq<u8>)
    requires
        bytes.len() <= 4096,
    ensures
        forall|i: int|
            0 <= i < 512 && bytes.len() < 8 * i + 8 ==> #[trigger] tile_set_of_file(bytes).bitmaps[i]
                == 0,
        tile_set_of_file(bytes).char_map == default_char_map(),
{
    assert(tile_set_of_file(bytes).char_map =~= default_char_map());
}

} // verus!
