//! Palettes: 256 colours, with their fixed-size file format.

use vstd::prelude::*;
use crate::tile::{missing_color, Color};

verus! {

/// The number of colours in a palette.
pub const PALETTE_SIZE: usize = 256;

/// Byte `i` of a colour in a palette file: red, green, blue, alpha.
pub open spec fn rgba_byte(c: Color, i: int) -> u8 {
    if i == 0 {
        c.r
    } else if i == 1 {
        c.g
    } else if i == 2 {
        c.b
    } else {
        c.a
    }
}

/// Colour `i` as a file gives it: the `i`-th four bytes, red, green, blue,
/// alpha, or the missing-colour marker where the file ends before them.
pub open spec fn file_color(bytes: Seq<u8>, i: int) -> Color {
    if 4 * i + 4 <= bytes.len() {
        Color { r: bytes[4 * i], g: bytes[4 * i + 1], b: bytes[4 * i + 2], a: bytes[4 * i + 3] }
    } else {
        missing_color()
    }
}

/// The colours that a palette file holds, padded with the missing-colour
/// marker, data past the 256th colour ignored.
pub open spec fn palette_of_file(bytes: Seq<u8>) -> Seq<Color> {
    Seq::new(256, |i: int| file_color(bytes, i))
}

/// The file of 256 colours: four bytes each, red, green, blue, alpha.
pub open spec fn palette_file(colors: Seq<Color>) -> Seq<u8> {
    Seq::new(1024, |j: int| rgba_byte(colors[j / 4], j % 4))
}

/// An ordered list of 256 colours.
#[derive(Clone)]
pub struct Palette {
    colors: Vec<Color>,
}

impl View for Palette {
    type V = Seq<Color>;

    closed spec fn view(&self) -> Seq<Color> {
        self.colors@
    }
}

impl Palette {
    /// Holds 256 colours.
    pub open spec fn wf(&self) -> bool {
        self@.len() == PALETTE_SIZE
    }

    /// Reads a palette file: up to 256 colours of four bytes each, red, green,
    /// blue, alpha. A short file never fails: missing colours are the fully
    /// transparent green marker.
    pub fn load_from(bytes: &[u8]) -> (p: Palette)
        ensures
            p.wf(),
            p@ == palette_of_file(bytes@),
    {
        let ghost file = palette_of_file(bytes@);
        let mut colors: Vec<Color> = Vec::new();
        let mut i: usize = 0;
        while i < PALETTE_SIZE
            invariant
                i <= 256,
                file == palette_of_file(bytes@),
                colors@ == file.subrange(0, i as int),
            decreases 256 - i,
        {
            let c = if i * 4 + 4 <= bytes.len() {
                Color::RGBA(bytes[i * 4], bytes[i * 4 + 1], bytes[i * 4 + 2], bytes[i * 4 + 3])
            } else {
                Color::RGBA(0, 255, 0, 0)
            };
            colors.push(c);
            i = i + 1;
            assert(colors@ =~= file.subrange(0, i as int));
        }
        assert(colors@ =~= file);
        Palette { colors }
    }

    /// The palette's file: 256 colours of four bytes, red, green, blue, alpha.
    pub fn save(&self) -> (bytes: Vec<u8>)
        requires
            self.wf(),
        ensures
            bytes@ == palette_file(self@),
    {
        let ghost file = palette_file(self@);
        let mut out: Vec<u8> = Vec::new();
        let mut i: usize = 0;
        while i < PALETTE_SIZE
            invariant
                self.wf(),
                i <= 256,
                file == palette_file(self@),
                out@ == file.subrange(0, 4 * i),
            decreases 256 - i,
        {
            let c = self.colors[i];
            out.push(c.r);
            out.push(c.g);
            out.push(c.b);
            out.push(c.a);
            i = i + 1;
            assert(out@ =~= file.subrange(0, 4 * i)) by {
                assert forall|j: int| 4 * (i - 1) <= j < 4 * i implies #[trigger] file[j]
                    == rgba_byte(c, j - 4 * (i - 1)) by {
                    assert(j / 4 == i - 1);
                    assert(j % 4 == j - 4 * (i - 1));
                }
            }
        }
        assert(out@ =~= file);
        out
    }

    /// The number of colours: always 256.
    pub fn len(&self) -> (n: usize)
        ensures
            n == self@.len(),
    {
        self.colors.len()
    }

    /// Colour `index`. An index outside the palette is a caller's error.
    pub fn get(&self, index: usize) -> (c: Color)
        requires
            self.wf(),
            index < PALETTE_SIZE,
        ensures
            c == self@[index as int],
    {
        self.colors[index]
    }

    /// Replaces colour `index`, leaving the others as they were.
    pub fn set(&mut self, index: usize, color: Color)
        requires
            old(self).wf(),
            index < PALETTE_SIZE,
        ensures
            final(self)@ == old(self)@.update(index as int, color),
    {
        self.colors.set(index, color);
    }
}

/// Saving a palette and loading the file gives the same palette.
pub proof fn lemma_palette_round_trip(colors: Seq<Color>)
    requires
        colors.len() == 256,
    ensures
        palette_of_file(palette_file(colors)) == colors,
{
    let f = palette_file(colors);
    assert forall|i: int| 0 <= i < 256 implies #[trigger] palette_of_file(f)[i] == colors[i] by {
        assert((4 * i) / 4 == i && (4 * i) % 4 == 0);
        assert((4 * i + 1) / 4 == i && (4 * i + 1) % 4 == 1);
        assert((4 * i + 2) / 4 == i && (4 * i + 2) % 4 == 2);
        assert((4 * i + 3) / 4 == i && (4 * i + 3) % 4 == 3);
    }
    assert(palette_of_file(f) =~= colors);
}

} // verus!
