//! 8x8 monochrome bitmaps packed in a `u64`: bit `x + 8 * y` is the pixel at
//! column `x` of row `y`, so each byte is one row and bit 0 is the top left.

use vstd::prelude::*;
use crate::tile::Color;

verus! {

/// Bit `k` of `b` is set.
pub open spec fn bit(b: u64, k: u64) -> bool {
    (b >> k) & 1u64 == 1u64
}

/// The pixel at column `x`, row `y` of bitmap `b` is ink (foreground).
pub open spec fn ink(b: u64, x: u64, y: u64) -> bool {
    bit(b, (x + 8 * y) as u64)
}

/// `r` is `b` mirrored left to right: each row reversed.
pub open spec fn mirrors_horizontally(b: u64, r: u64) -> bool {
    forall|x: u64, y: u64| x < 8 && y < 8 ==> #[trigger] ink(r, x, y) == ink(b, (7 - x) as u64, y)
}

/// `r` is `b` mirrored top to bottom: the rows in reverse order.
pub open spec fn mirrors_vertically(b: u64, r: u64) -> bool {
    forall|x: u64, y: u64| x < 8 && y < 8 ==> #[trigger] ink(r, x, y) == ink(b, x, (7 - y) as u64)
}

/// `r` is `b` turned a quarter turn anticlockwise: row `y` of `r` holds
/// column `7 - y` of `b`, read from the top row down.
pub open spec fn rotated(b: u64, r: u64) -> bool {
    forall|x: u64, y: u64| x < 8 && y < 8 ==> #[trigger] ink(r, x, y) == ink(b, (7 - y) as u64, x)
}

/// Byte `i` of a pixel's colour in the surface's layout: blue, green, red, alpha.
pub open spec fn channel(c: Color, i: int) -> u8 {
    if i == 0 {
        c.b
    } else if i == 1 {
        c.g
    } else if i == 2 {
        c.r
    } else {
        c.a
    }
}

/// The 64 pixels of bitmap `b`, bit 0 first, four bytes each: `fg` where the
/// bit is set, `bg` where it is clear.
pub open spec fn raster(b: u64, fg: Color, bg: Color) -> Seq<u8> {
    Seq::new(256, |i: int| channel(if bit(b, (i / 4) as u64) { fg } else { bg }, i % 4))
}

/// The pixels of an 8x8 bitmap in colours `fg` (set bits) and `bg` (clear
/// bits): 256 bytes, four per pixel in blue, green, red, alpha order, pixels
/// row by row from the top left.
pub fn rasterize(bitmap: u64, fg: Color, bg: Color) -> (r: Vec<u8>)
    ensures
        r@ == raster(bitmap, fg, bg),
{
    let mut out: Vec<u8> = Vec::new();
    let mut k: u64 = 0;
    while k < 64
        invariant
            k <= 64,
            out@.len() == 4 * k,
            forall|i: int| 0 <= i < 4 * k ==> out@[i] == #[trigger] raster(bitmap, fg, bg)[i],
        decreases 64 - k,
    {
        let c = if (bitmap >> k) & 1 == 1 {
            fg
        } else {
            bg
        };
        out.push(c.b);
        out.push(c.g);
        out.push(c.r);
        out.push(c.a);
        assert forall|i: int| 4 * k <= i < 4 * k + 4 implies out@[i] == #[trigger] raster(
            bitmap,
            fg,
            bg,
        )[i] by {
            assert(i / 4 == k);
        }
        k = k + 1;
    }
    assert(out@ =~= raster(bitmap, fg, bg));
    out
}

proof fn lemma_flip_horizontal_pixel(b: u64, x: u64, y: u64)
    by (bit_vector)
    requires
        x < 8,
        y < 8,
    ensures
        ({
            let r1 = ((b >> 1u64) & 0x5555555555555555u64) | ((b & 0x5555555555555555u64) << 1u64);
            let r2 = ((r1 >> 2u64) & 0x3333333333333333u64) | ((r1 & 0x3333333333333333u64) << 2u64);
            let r3 = ((r2 >> 4u64) & 0x0f0f0f0f0f0f0f0fu64) | ((r2 & 0x0f0f0f0f0f0f0f0fu64) << 4u64);
            ink(r3, x, y) == ink(b, (7 - x) as u64, y)
        }),
{
}

/// Mirrors a bitmap left to right. Doing so twice gives the bitmap back.
pub fn flip_horizontal(bitmap: u64) -> (r: u64)
    ensures
        mirrors_horizontally(bitmap, r),
{
    let r1 = ((bitmap >> 1) & 0x5555555555555555) | ((bitmap & 0x5555555555555555) << 1);
    let r2 = ((r1 >> 2) & 0x3333333333333333) | ((r1 & 0x3333333333333333) << 2);
    let r3 = ((r2 >> 4) & 0x0f0f0f0f0f0f0f0f) | ((r2 & 0x0f0f0f0f0f0f0f0f) << 4);
    assert forall|x: u64, y: u64| x < 8 && y < 8 implies #[trigger] ink(r3, x, y) == ink(
        bitmap,
        (7 - x) as u64,
        y,
    ) by {
        lemma_flip_horizontal_pixel(bitmap, x, y);
    }
    r3
}

proof fn lemma_flip_vertical_pixel(b: u64, x: u64, y: u64)
    by (bit_vector)
    requires
        x < 8,
        y < 8,
    ensures
        ({
            let r = (b << 56u64) | ((b << 40u64) & 0x00ff000000000000u64) | ((b << 24u64)
                & 0x0000ff0000000000u64) | ((b << 8u64) & 0x000000ff00000000u64) | ((b >> 8u64)
                & 0x00000000ff000000u64) | ((b >> 24u64) & 0x0000000000ff0000u64) | ((b >> 40u64)
                & 0x000000000000ff00u64) | (b >> 56u64);
            ink(r, x, y) == ink(b, x, (7 - y) as u64)
        }),
{
}

/// Mirrors a bitmap top to bottom (reverses the order of its row bytes).
/// Doing so twice gives the bitmap back.
pub fn flip_vertical(bitmap: u64) -> (r: u64)
    ensures
        mirrors_vertically(bitmap, r),
{
    let b = bitmap;
    let r = (b << 56) | ((b << 40) & 0x00ff000000000000) | ((b << 24) & 0x0000ff0000000000) | ((b
        << 8) & 0x000000ff00000000) | ((b >> 8) & 0x00000000ff000000) | ((b >> 24)
        & 0x0000000000ff0000) | ((b >> 40) & 0x000000000000ff00) | (b >> 56);
    assert forall|x: u64, y: u64| x < 8 && y < 8 implies #[trigger] ink(r, x, y) == ink(
        bitmap,
        x,
        (7 - y) as u64,
    ) by {
        lemma_flip_vertical_pixel(bitmap, x, y);
    }
    r
}

proof fn lemma_transpose_pixel(b: u64, x: u64, y: u64)
    by (bit_vector)
    requires
        x < 8,
        y < 8,
    ensures
        ({
            let t1 = (b ^ (b >> 7u64)) & 0x00aa00aa00aa00aau64;
            let b1 = b ^ t1 ^ (t1 << 7u64);
            let t2 = (b1 ^ (b1 >> 14u64)) & 0x0000cccc0000ccccu64;
            let b2 = b1 ^ t2 ^ (t2 << 14u64);
            let t3 = (b2 ^ (b2 >> 28u64)) & 0x00000000f0f0f0f0u64;
            let b3 = b2 ^ t3 ^ (t3 << 28u64);
            ink(b3, x, y) == ink(b, y, x)
        }),
{
}

/// Turns a bitmap a quarter turn anticlockwise: bit `i` of each input byte,
/// gathered in byte order, makes byte `7 - i` of the result. Four turns give
/// the bitmap back; two in general do not.
pub fn rotate(bitmap: u64) -> (r: u64)
    ensures
        rotated(bitmap, r),
{
    let b = bitmap;
    let t1 = (b ^ (b >> 7)) & 0x00aa00aa00aa00aa;
    let b1 = b ^ t1 ^ (t1 << 7);
    let t2 = (b1 ^ (b1 >> 14)) & 0x0000cccc0000cccc;
    let b2 = b1 ^ t2 ^ (t2 << 14);
    let t3 = (b2 ^ (b2 >> 28)) & 0x00000000f0f0f0f0;
    let transposed = b2 ^ t3 ^ (t3 << 28);
    assert forall|x: u64, y: u64| x < 8 && y < 8 implies #[trigger] ink(transposed, x, y) == ink(
        bitmap,
        y,
        x,
    ) by {
        lemma_transpose_pixel(bitmap, x, y);
    }
    let r = flip_vertical(transposed);
    assert forall|x: u64, y: u64| x < 8 && y < 8 implies #[trigger] ink(r, x, y) == ink(
        bitmap,
        (7 - y) as u64,
        x,
    ) by {
        assert(ink(r, x, y) == ink(transposed, x, (7 - y) as u64));
    }
    r
}

/// `r` is `b` with the pixel at column `x`, row `y` inverted and every other
/// pixel kept.
pub open spec fn toggled(b: u64, x: u64, y: u64, r: u64) -> bool {
    forall|i: u64, j: u64|
        i < 8 && j < 8 ==> #[trigger] ink(r, i, j) == if i == x && j == y {
            !ink(b, i, j)
        } else {
            ink(b, i, j)
        }
}

proof fn lemma_toggle_pixel(b: u64, x: u64, y: u64, i: u64, j: u64)
    by (bit_vector)
    requires
        x < 8,
        y < 8,
        i < 8,
        j < 8,
    ensures
        ink(b ^ (1u64 << ((x + 8 * y) as u64)), i, j) == if i == x && j == y {
            !ink(b, i, j)
        } else {
            ink(b, i, j)
        },
{
}

/// Inverts the pixel at column `x`, row `y` of a bitmap.
pub fn toggle_pixel(bitmap: u64, x: u64, y: u64) -> (r: u64)
    requires
        x < 8,
        y < 8,
    ensures
        toggled(bitmap, x, y, r),
{
    let r = bitmap ^ (1u64 << (x + 8 * y));
    assert forall|i: u64, j: u64| i < 8 && j < 8 implies #[trigger] ink(r, i, j) == if i == x && j
        == y {
        !ink(bitmap, i, j)
    } else {
        ink(bitmap, i, j)
    } by {
        lemma_toggle_pixel(bitmap, x, y, i, j);
    }
    r
}

proof fn lemma_row_from_pixels(a: u64, b: u64, y: u64)
    by (bit_vector)
    requires
        y < 8,
        ink(a, 0, y) == ink(b, 0, y),
        ink(a, 1, y) == ink(b, 1, y),
        ink(a, 2, y) == ink(b, 2, y),
        ink(a, 3, y) == ink(b, 3, y),
        ink(a, 4, y) == ink(b, 4, y),
        ink(a, 5, y) == ink(b, 5, y),
        ink(a, 6, y) == ink(b, 6, y),
        ink(a, 7, y) == ink(b, 7, y),
    ensures
        (a >> ((8 * y) as u64)) & 0xffu64 == (b >> ((8 * y) as u64)) & 0xffu64,
{
}

proof fn lemma_from_rows(a: u64, b: u64)
    by (bit_vector)
    requires
        a & 0xffu64 == b & 0xffu64,
        (a >> 8u64) & 0xffu64 == (b >> 8u64) & 0xffu64,
        (a >> 16u64) & 0xffu64 == (b >> 16u64) & 0xffu64,
        (a >> 24u64) & 0xffu64 == (b >> 24u64) & 0xffu64,
        (a >> 32u64) & 0xffu64 == (b >> 32u64) & 0xffu64,
        (a >> 40u64) & 0xffu64 == (b >> 40u64) & 0xffu64,
        (a >> 48u64) & 0xffu64 == (b >> 48u64) & 0xffu64,
        (a >> 56u64) & 0xffu64 == (b >> 56u64) & 0xffu64,
    ensures
        a == b,
{
}

/// Two bitmaps with the same pixels are the same bitmap.
pub proof fn lemma_same_pixels(a: u64, b: u64)
    requires
        forall|x: u64, y: u64| x < 8 && y < 8 ==> #[trigger] ink(a, x, y) == ink(b, x, y),
    ensures
        a == b,
{
    lemma_row_from_pixels(a, b, 0);
    lemma_row_from_pixels(a, b, 1);
    lemma_row_from_pixels(a, b, 2);
    lemma_row_from_pixels(a, b, 3);
    lemma_row_from_pixels(a, b, 4);
    lemma_row_from_pixels(a, b, 5);
    lemma_row_from_pixels(a, b, 6);
    lemma_row_from_pixels(a, b, 7);
    assert(a >> 0u64 == a && b >> 0u64 == b) by (bit_vector);
    lemma_from_rows(a, b);
}

/// Mirroring left to right twice gives the bitmap back.
pub proof fn lemma_flip_horizontal_twice(b: u64, once: u64, twice: u64)
    requires
        mirrors_horizontally(b, once),
        mirrors_horizontally(once, twice),
    ensures
        twice == b,
{
    assert forall|x: u64, y: u64| x < 8 && y < 8 implies #[trigger] ink(twice, x, y) == ink(b, x, y) by {
        assert(ink(twice, x, y) == ink(once, (7 - x) as u64, y));
    }
    lemma_same_pixels(twice, b);
}

/// Mirroring top to bottom twice gives the bitmap back.
pub proof fn lemma_flip_vertical_twice(b: u64, once: u64, twice: u64)
    requires
        mirrors_vertically(b, once),
        mirrors_vertically(once, twice),
    ensures
        twice == b,
{
    assert forall|x: u64, y: u64| x < 8 && y < 8 implies #[trigger] ink(twice, x, y) == ink(b, x, y) by {
        assert(ink(twice, x, y) == ink(once, x, (7 - y) as u64));
    }
    lemma_same_pixels(twice, b);
}

/// Four quarter turns give the bitmap back.
pub proof fn lemma_rotate_four_times(b: u64, r1: u64, r2: u64, r3: u64, r4: u64)
    requires
        rotated(b, r1),
        rotated(r1, r2),
        rotated(r2, r3),
        rotated(r3, r4),
    ensures
        r4 == b,
{
    assert forall|x: u64, y: u64| x < 8 && y < 8 implies #[trigger] ink(r4, x, y) == ink(b, x, y) by {
        assert(ink(r4, x, y) == ink(r3, (7 - y) as u64, x));
        assert(ink(r3, (7 - y) as u64, x) == ink(r2, (7 - x) as u64, (7 - y) as u64));
        assert(ink(r2, (7 - x) as u64, (7 - y) as u64) == ink(r1, y, (7 - x) as u64));
        assert(ink(r1, y, (7 - x) as u64) == ink(b, x, y));
    }
    lemma_same_pixels(r4, b);
}

} // verus!
