//! Conversion of camera frames from packed RGB to 8-bit grayscale, the
//! input format of the face detector.
use vstd::prelude::*;
use vstd::arithmetic::div_mod::lemma_fundamental_div_mod_converse;

verus! {

/// Gray level of an RGB pixel: the weighted sum `77 r + 150 g + 29 b`,
/// divided by 256 (the weights sum to 256).
pub open spec fn luma(r: u8, g: u8, b: u8) -> int {
    (77 * r + 150 * g + 29 * b) / 256
}

/// Gray level of pixel `(x, y)` of a packed RGB frame (3 bytes per pixel,
/// rows of `frame_width` pixels).
pub open spec fn pixel_luma(rgb: Seq<u8>, frame_width: nat, x: nat, y: nat) -> int {
    let p = (3 * (y * frame_width + x)) as int;
    luma(rgb[p], rgb[p + 1], rgb[p + 2])
}

/// Gray level of one RGB pixel.
pub fn rgb_to_luma(r: u8, g: u8, b: u8) -> (v: u8)
    ensures
        v == luma(r, g, b),
        256 * v <= 77 * r + 150 * g + 29 * b < 256 * v + 256,
{
    let gray_value: u32 = r as u32 * 77 + g as u32 * 150 + b as u32 * 29;
    assert(gray_value <= 65280);
    assert(gray_value <= 65280 ==> ((gray_value >> 8u32) & 0xFFu32) == gray_value / 256)
        by (bit_vector);
    let v = ((gray_value >> 8) & 0xFF) as u8;
    proof {
        lemma_luma_weighted_sum(r, g, b);
    }
    v
}

/// The `width` by `height` grayscale image, row by row, of the top-left
/// part of a packed RGB frame of `frame_width` by `frame_height` pixels.
pub fn grayscale_frame(
    rgb: &[u8],
    frame_width: u32,
    frame_height: u32,
    width: u32,
    height: u32,
) -> (gray: Vec<u8>)
    requires
        rgb@.len() >= 3 * (frame_width * frame_height),
        width <= frame_width,
        height <= frame_height,
    ensures
        gray@.len() == width * height,
        forall|x: nat, y: nat|
            x < width && y < height ==> gray@[y * width + x] == #[trigger] pixel_luma(
                rgb@,
                frame_width as nat,
                x,
                y,
            ) && 256 * gray@[y * width + x] <= 77 * rgb@[3 * (y * frame_width + x)] + 150 * rgb@[3
                * (y * frame_width + x) + 1] + 29 * rgb@[3 * (y * frame_width + x) + 2] < 256
                * gray@[y * width + x] + 256,
{
    let mut gray: Vec<u8> = Vec::new();
    let fw: usize = frame_width as usize;
    let len: usize = rgb.len();
    let mut y: u32 = 0;
    while y < height
        invariant
            y <= height,
            height <= frame_height,
            width <= frame_width,
            fw == frame_width,
            len == rgb@.len(),
            rgb@.len() >= 3 * (frame_width * frame_height),
            gray@.len() == y * width,
            forall|k: int|
                0 <= k < gray@.len() ==> gray@[k] == pixel_luma(
                    rgb@,
                    frame_width as nat,
                    (k % (width as int)) as nat,
                    (k / (width as int)) as nat,
                ),
        decreases height - y,
    {
        let mut x: u32 = 0;
        while x < width
            invariant
                x <= width,
                y < height,
                height <= frame_height,
                width <= frame_width,
                fw == frame_width,
                len == rgb@.len(),
                rgb@.len() >= 3 * (frame_width * frame_height),
                gray@.len() == y * width + x,
                forall|k: int|
                    0 <= k < gray@.len() ==> gray@[k] == pixel_luma(
                        rgb@,
                        frame_width as nat,
                        (k % (width as int)) as nat,
                        (k / (width as int)) as nat,
                    ),
            decreases width - x,
        {
            proof {
                assert(y * frame_width + x < frame_width * frame_height) by (nonlinear_arith)
                    requires
                        y < frame_height,
                        x < frame_width,
                ;
                assert(y * frame_width <= frame_width * frame_height) by (nonlinear_arith)
                    requires
                        y < frame_height,
                ;
                lemma_fundamental_div_mod_converse(
                    y * width + x,
                    width as int,
                    y as int,
                    x as int,
                );
            }
            let p: usize = 3 * (y as usize * fw + x as usize);
            let v = rgb_to_luma(rgb[p], rgb[p + 1], rgb[p + 2]);
            gray.push(v);
            x = x + 1;
        }
        proof {
            assert(gray@.len() == (y + 1) * width) by (nonlinear_arith)
                requires
                    gray@.len() == y * width + width,
            ;
        }
        y = y + 1;
    }
    proof {
        assert forall|x: nat, y: nat| x < width && y < height implies gray@[y * width + x]
            == #[trigger] pixel_luma(rgb@, frame_width as nat, x, y) by {
            lemma_fundamental_div_mod_converse(y * width + x, width as int, y as int, x as int);
            assert(y * width + x < width * height) by (nonlinear_arith)
                requires
                    x < width,
                    y < height,
            ;
            lemma_pixel_luma_at_offset(rgb@, frame_width as nat, x, y);
            let p = (3 * (y * frame_width + x)) as int;
            lemma_luma_weighted_sum(rgb@[p], rgb@[p + 1], rgb@[p + 2]);
        }
    }
    gray
}

/// The gray level is the weighted sum `77 r + 150 g + 29 b` divided by 256
/// and rounded down, with red always weighted 77, green 150 and blue 29.
pub proof fn lemma_luma_weighted_sum(r: u8, g: u8, b: u8)
    ensures
        256 * luma(r, g, b) <= 77 * r + 150 * g + 29 * b < 256 * luma(r, g, b) + 256,
{
}

/// Pixel `(x, y)` of a packed RGB frame is read from the three bytes at
/// offset `3 * (y * frame_width + x)`, for frames of any size.
pub proof fn lemma_pixel_luma_at_offset(rgb: Seq<u8>, frame_width: nat, x: nat, y: nat)
    ensures
        pixel_luma(rgb, frame_width, x, y) == luma(
            rgb[3 * (y * frame_width + x) as int],
            rgb[(3 * (y * frame_width + x) + 1) as int],
            rgb[(3 * (y * frame_width + x) + 2) as int],
        ),
{
}

/// A gray RGB pixel keeps its level: when the three channels are equal to
/// `v`, the gray level is `v`.
pub proof fn lemma_luma_of_gray(v: u8)
    ensures
        luma(v, v, v) == v,
{
}

/// Gray levels are 8-bit: every pixel's level lies in `0..=255`.
pub proof fn lemma_luma_in_range(r: u8, g: u8, b: u8)
    ensures
        0 <= luma(r, g, b) <= 255,
{
}

} // verus!
