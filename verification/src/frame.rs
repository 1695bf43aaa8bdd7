//! Turning the pixels read back from the offscreen framebuffer into a PNG.
//!
//! OpenGL hands rows back bottom-to-top; an image file stores them top-to-bottom.
//! A frame of `width` x `height` RGBA8 pixels is a byte sequence of
//! `height` rows of `4 * width` bytes each.
use vstd::arithmetic::div_mod::{
    lemma_fundamental_div_mod,
    lemma_fundamental_div_mod_converse,
    lemma_mod_pos_bound,
};
use image::ImageEncoder;
use vstd::prelude::*;

verus! {

/// The byte at column `col` of row `row` of a frame whose rows are `row_bytes` long.
pub open spec fn pixel_byte(p: Seq<u8>, row_bytes: int, row: int, col: int) -> u8 {
    p[row * row_bytes + col]
}

/// `flipped` holds the rows of `original` in reverse order: row `r` of `flipped` is
/// row `height - 1 - r` of `original`.
pub open spec fn rows_reversed(original: Seq<u8>, flipped: Seq<u8>, row_bytes: int, height: int) -> bool {
    &&& flipped.len() == original.len()
    &&& forall|r: int, c: int|
        0 <= r < height && 0 <= c < row_bytes ==> #[trigger] pixel_byte(flipped, row_bytes, r, c)
            == pixel_byte(original, row_bytes, height - 1 - r, c)
}

/// The frame `p` with its rows in reverse order.
pub open spec fn reverse_rows(p: Seq<u8>, row_bytes: int, height: int) -> Seq<u8> {
    Seq::new(
        p.len(),
        |i: int| pixel_byte(p, row_bytes, height - 1 - i / row_bytes, i % row_bytes),
    )
}

/// The number of bytes of a `width` x `height` RGBA8 frame.
pub open spec fn frame_len(width: int, height: int) -> int {
    4 * width * height
}

/// Where position (`r`, `c`) of the frame takes its byte from while the rows
/// `0..y` and their mirrors are already exchanged, and the first `x` bytes of
/// row `y` and of its mirror too.
spec fn source_row(r: int, c: int, height: int, y: int, x: int) -> int {
    if r < y || height - 1 - r < y || ((r == y || r == height - 1 - y) && c < x) {
        height - 1 - r
    } else {
        r
    }
}

spec fn partially_reversed(
    original: Seq<u8>,
    cur: Seq<u8>,
    row_bytes: int,
    height: int,
    y: int,
    x: int,
) -> bool {
    &&& cur.len() == original.len()
    &&& forall|r: int, c: int|
        0 <= r < height && 0 <= c < row_bytes ==> #[trigger] pixel_byte(cur, row_bytes, r, c)
            == pixel_byte(original, row_bytes, source_row(r, c, height, y, x), c)
}

proof fn lemma_row_offset_bounds(r: int, c: int, row_bytes: int, height: int)
    requires
        0 <= r < height,
        0 <= c < row_bytes,
    ensures
        0 <= r * row_bytes,
        r * row_bytes + row_bytes <= height * row_bytes,
        0 <= r * row_bytes + c < height * row_bytes,
{
    assert(0 <= r * row_bytes) by (nonlinear_arith)
        requires
            0 <= r,
            0 <= c < row_bytes,
    ;
    assert(r * row_bytes + row_bytes <= height * row_bytes) by (nonlinear_arith)
        requires
            0 <= r < height,
            0 <= c < row_bytes,
    ;
}

proof fn lemma_row_offset_injective(r1: int, c1: int, r2: int, c2: int, row_bytes: int)
    requires
        0 <= c1 < row_bytes,
        0 <= c2 < row_bytes,
        r1 * row_bytes + c1 == r2 * row_bytes + c2,
    ensures
        r1 == r2,
        c1 == c2,
{
    if r1 < r2 {
        assert(r1 * row_bytes + row_bytes <= r2 * row_bytes) by (nonlinear_arith)
            requires
                r1 < r2,
                0 < row_bytes,
        ;
    } else if r2 < r1 {
        assert(r2 * row_bytes + row_bytes <= r1 * row_bytes) by (nonlinear_arith)
            requires
                r2 < r1,
                0 < row_bytes,
        ;
    }
}

/// Every position of a frame of `height` rows of `row_bytes` bytes lies at a
/// unique row and column.
proof fn lemma_split_index(i: int, row_bytes: int, height: int)
    requires
        0 <= i < height * row_bytes,
        0 < row_bytes,
    ensures
        0 <= i / row_bytes < height,
        0 <= i % row_bytes < row_bytes,
        i == (i / row_bytes) * row_bytes + i % row_bytes,
{
    lemma_fundamental_div_mod(i, row_bytes);
    lemma_mod_pos_bound(i, row_bytes);
    let q = i / row_bytes;
    assert(q * row_bytes == row_bytes * q) by (nonlinear_arith);
    assert(0 <= q < height) by (nonlinear_arith)
        requires
            i == q * row_bytes + i % row_bytes,
            0 <= i % row_bytes < row_bytes,
            0 <= i < height * row_bytes,
            0 < row_bytes,
    ;
}

/// A frame whose rows are those of `original` in reverse order is `reverse_rows(original)`.
pub proof fn lemma_rows_reversed_unique(original: Seq<u8>, flipped: Seq<u8>, row_bytes: int, height: int)
    requires
        original.len() == height * row_bytes,
        0 <= row_bytes,
        0 <= height,
        rows_reversed(original, flipped, row_bytes, height),
    ensures
        flipped == reverse_rows(original, row_bytes, height),
{
    assert forall|i: int| 0 <= i < flipped.len() implies flipped[i] == reverse_rows(
        original,
        row_bytes,
        height,
    )[i] by {
        if row_bytes == 0 {
            assert(height * row_bytes == 0) by (nonlinear_arith) requires row_bytes == 0;
        }
        lemma_split_index(i, row_bytes, height);
        assert(flipped[i] == pixel_byte(flipped, row_bytes, i / row_bytes, i % row_bytes));
    }
    assert(flipped =~= reverse_rows(original, row_bytes, height));
}

/// Law: reversing the rows of a frame twice gives the frame back.
pub proof fn lemma_reverse_rows_involution(p: Seq<u8>, row_bytes: int, height: int)
    requires
        p.len() == height * row_bytes,
        0 <= row_bytes,
        0 <= height,
    ensures
        reverse_rows(reverse_rows(p, row_bytes, height), row_bytes, height) == p,
{
    let once = reverse_rows(p, row_bytes, height);
    let twice = reverse_rows(once, row_bytes, height);
    assert forall|i: int| 0 <= i < p.len() implies twice[i] == p[i] by {
        if row_bytes == 0 {
            assert(height * row_bytes == 0) by (nonlinear_arith) requires row_bytes == 0;
        }
        lemma_split_index(i, row_bytes, height);
        let r = i / row_bytes;
        let c = i % row_bytes;
        let j = (height - 1 - r) * row_bytes + c;
        lemma_row_offset_bounds(height - 1 - r, c, row_bytes, height);
        lemma_fundamental_div_mod_converse(j, row_bytes, height - 1 - r, c);
        assert(twice[i] == once[j]);
    }
    assert(twice =~= p);
}

/// Reverses the order of the rows of an RGBA8 frame in place.
pub fn flip_rows(pixels: &mut Vec<u8>, width: u32, height: u32)
    requires
        old(pixels)@.len() == frame_len(width as int, height as int),
        4 * width <= usize::MAX,
    ensures
        rows_reversed(old(pixels)@, final(pixels)@, 4 * width as int, height as int),
        final(pixels)@ == reverse_rows(old(pixels)@, 4 * width as int, height as int),
{
    let row_bytes: usize = width as usize * 4;
    let h: usize = height as usize;
    let total: usize = pixels.len();
    let ghost original = pixels@;
    let ghost rb = row_bytes as int;
    assert(original.len() == h * rb) by (nonlinear_arith)
        requires
            original.len() == 4 * width * height,
            rb == width * 4,
            h == height,
    ;
    let half: usize = h / 2;
    let mut y: usize = 0;
    while y < half
        invariant
            half == h / 2,
            y <= half,
            h == height,
            rb == row_bytes,
            rb == 4 * width,
            original.len() == h * rb,
            original.len() == total,
            partially_reversed(original, pixels@, rb, h as int, y as int, 0),
        decreases half - y,
    {
        let ghost bot_row = h - 1 - y;
        proof {
            if rb > 0 {
                lemma_row_offset_bounds(y as int, 0, rb, h as int);
                lemma_row_offset_bounds(bot_row, 0, rb, h as int);
            } else {
                assert(y * rb == 0) by (nonlinear_arith) requires rb == 0;
                assert(bot_row * rb == 0) by (nonlinear_arith) requires rb == 0;
            }
        }
        let top: usize = y * row_bytes;
        let bottom: usize = (h - 1 - y) * row_bytes;
        let mut x: usize = 0;
        while x < row_bytes
            invariant
                half == h / 2,
                y < half,
                h == height,
                rb == row_bytes,
                original.len() == h * rb,
                original.len() == total,
                bot_row == h - 1 - y,
                top == y * rb,
                bottom == bot_row * rb,
                top + rb <= h * rb,
                bottom + rb <= h * rb,
                x <= row_bytes,
                partially_reversed(original, pixels@, rb, h as int, y as int, x as int),
            decreases row_bytes - x,
        {
            let ghost before = pixels@;
            let a = pixels[top + x];
            let b = pixels[bottom + x];
            pixels.set(top + x, b);
            pixels.set(bottom + x, a);
            proof {
                assert(pixel_byte(before, rb, y as int, x as int) == before[top + x]);
                assert(pixel_byte(before, rb, bot_row, x as int) == before[bottom + x]);
                assert forall|r: int, c: int| 0 <= r < h && 0 <= c < rb implies #[trigger] pixel_byte(
                    pixels@,
                    rb,
                    r,
                    c,
                ) == pixel_byte(original, rb, source_row(r, c, h as int, y as int, x + 1), c) by {
                    lemma_row_offset_bounds(r, c, rb, h as int);
                    assert(pixel_byte(before, rb, r, c) == pixel_byte(
                        original,
                        rb,
                        source_row(r, c, h as int, y as int, x as int),
                        c,
                    ));
                    if r * rb + c == top + x {
                        lemma_row_offset_injective(r, c, y as int, x as int, rb);
                    } else if r * rb + c == bottom + x {
                        lemma_row_offset_injective(r, c, bot_row, x as int, rb);
                    } else {
                        if r == y && c == x {
                            assert(false);
                        }
                        if r == bot_row && c == x {
                            assert(false);
                        }
                    }
                }
            }
            x = x + 1;
        }
        proof {
            assert forall|r: int, c: int| 0 <= r < h && 0 <= c < rb implies #[trigger] pixel_byte(
                pixels@,
                rb,
                r,
                c,
            ) == pixel_byte(original, rb, source_row(r, c, h as int, y + 1, 0), c) by {
                assert(source_row(r, c, h as int, y as int, rb) == source_row(
                    r,
                    c,
                    h as int,
                    y + 1,
                    0,
                ));
            }
        }
        y = y + 1;
    }
    proof {
        assert forall|r: int, c: int| 0 <= r < h && 0 <= c < rb implies #[trigger] pixel_byte(
            pixels@,
            rb,
            r,
            c,
        ) == pixel_byte(original, rb, h - 1 - r, c) by {
            assert(source_row(r, c, h as int, half as int, 0) == h - 1 - r || source_row(
                r,
                c,
                h as int,
                half as int,
                0,
            ) == r);
            if source_row(r, c, h as int, half as int, 0) == r {
                assert(r == h - 1 - r);
            }
        }
        lemma_rows_reversed_unique(original, pixels@, rb, h as int);
    }
}

/// What the `image` crate's PNG encoder, with its default compression and filter,
/// makes of a `width` x `height` RGBA8 frame whose rows come top-to-bottom in
/// `pixels`: the PNG file, or, where it refuses the frame, the text of its error.
pub uninterp spec fn png_rgba8(width: u32, height: u32, pixels: Seq<u8>) -> Result<Seq<u8>, Seq<char>>;

/// Calls `image::ImageEncoder::write_image` on an `image::codecs::png::PngEncoder`
/// (made by `PngEncoder::new` over an empty `Vec<u8>`) with the colour type `Rgba8`;
/// this is what `ImageBuffer::write_with_encoder` does for an RGBA8 buffer.
/// Claimed: on success the bytes written are `png_rgba8` of the arguments, and on
/// failure the returned text is its error's `Display` text, which `png_rgba8`
/// names too. The encoder asserts that the buffer holds exactly
/// `4 * width * height` bytes, hence the `requires`.
#[verifier::external_body]
fn png_encode_rgba8(pixels: &[u8], width: u32, height: u32) -> (res: Result<Vec<u8>, String>)
    requires
        pixels@.len() == frame_len(width as int, height as int),
    ensures
        match res {
            Ok(png) => png_rgba8(width, height, pixels@) == Ok::<Seq<u8>, Seq<char>>(png@),
            Err(text) => png_rgba8(width, height, pixels@) == Err::<Seq<u8>, Seq<char>>(text@),
        },
{
    let mut png: Vec<u8> = Vec::new();
    let encoder = image::codecs::png::PngEncoder::new(&mut png);
    match encoder.write_image(pixels, width, height, image::ExtendedColorType::Rgba8) {
        Ok(()) => Ok(png),
        Err(e) => Err(format!("{e}")),
    }
}

/// The number of bytes of the buffer that a `width` x `height` frame is read into.
pub fn frame_byte_len(width: u32, height: u32) -> (len: usize)
    requires
        width * height <= u32::MAX,
        frame_len(width as int, height as int) <= usize::MAX,
    ensures
        len == frame_len(width as int, height as int),
        len == 4 * width * height,
{
    let pixel_count: u32 = width * height;
    assert(4 * pixel_count == frame_len(width as int, height as int)) by (nonlinear_arith)
        requires
            pixel_count == width * height,
    ;
    pixel_count as usize * 4
}

/// Turns a frame read back from OpenGL (rows bottom-to-top) into a PNG file.
/// On failure the error is the encoder's description of it.
pub fn encode_frame(width: u32, height: u32, pixels: Vec<u8>) -> (res: Result<Vec<u8>, String>)
    requires
        pixels@.len() == frame_len(width as int, height as int),
        4 * width <= usize::MAX,
    ensures
        match res {
            Ok(png) => png_rgba8(width, height, reverse_rows(pixels@, 4 * width as int, height as int))
                == Ok::<Seq<u8>, Seq<char>>(png@),
            Err(text) => png_rgba8(width, height, reverse_rows(pixels@, 4 * width as int, height as int))
                == Err::<Seq<u8>, Seq<char>>(text@),
        },
{
    let mut pixels = pixels;
    flip_rows(&mut pixels, width, height);
    png_encode_rgba8(pixels.as_slice(), width, height)
}

/// Law: a frame is `height` rows of `4 * width` bytes.
pub proof fn law_frame_len_is_rows_of_pixels(width: nat, height: nat)
    ensures
        frame_len(width as int, height as int) == height * (4 * width),
        frame_len(width as int, 1) == 4 * width,
        frame_len(width as int, (height + 1) as int) == frame_len(width as int, height as int) + 4 * width,
{
    assert(4 * width * height == height * (4 * width)) by (nonlinear_arith);
    assert(4 * width * (height + 1) == 4 * width * height + 4 * width) by (nonlinear_arith);
}

/// Law: byte `c` of row `r` of the reversed frame is byte `c` of row
/// `height - 1 - r` of the original.
pub proof fn law_reverse_rows_moves_bytes(p: Seq<u8>, row_bytes: int, height: int, r: int, c: int)
    requires
        p.len() == height * row_bytes,
        0 <= r < height,
        0 <= c < row_bytes,
    ensures
        reverse_rows(p, row_bytes, height).len() == p.len(),
        reverse_rows(p, row_bytes, height)[r * row_bytes + c] == p[(height - 1 - r) * row_bytes + c],
{
    lemma_row_offset_bounds(r, c, row_bytes, height);
    lemma_fundamental_div_mod_converse(r * row_bytes + c, row_bytes, r, c);
}

} // verus!
