//! Request payloads shared by the benchmark servers, and the decoding of their images.
use vstd::prelude::*;
use vstd::arithmetic::div_mod::{lemma_fundamental_div_mod, lemma_fundamental_div_mod_converse};

verus! {

/// Input payload: the bytes of a PNG image.
#[derive(Debug)]
pub struct ImageInput {
    /// Raw PNG image bytes.
    pub image_bytes: Vec<u8>,
}

/// An 8-bit RGB image: `width * height` pixels of three bytes, row by row.
#[derive(Debug)]
pub struct RgbImage {
    pub width: u32,
    pub height: u32,
    pub pixels: Vec<u8>,
}

/// Side length of the square images the benchmark models take.
pub const MODEL_IMAGE_SIDE: u32 = 224;

/// The shorter side of an image is scaled to this length before cropping.
pub const SCALED_SHORT_SIDE: u32 = 256;

/// What `image::load_from_memory` followed by `to_rgb8` yields for `bytes`:
/// width, height and RGB bytes, or the text of the decoding error.
pub uninterp spec fn decoded_rgb8(bytes: Seq<u8>) -> Result<(u32, u32, Seq<u8>), Seq<char>>;

/// What `image::imageops::resize` with the triangle filter yields for an RGB
/// image of the given size and bytes, resized to `new_width` by `new_height`.
pub uninterp spec fn resized_rgb8_triangle(
    width: u32,
    height: u32,
    pixels: Seq<u8>,
    new_width: u32,
    new_height: u32,
) -> Seq<u8>;

/// Decodes an encoded image (PNG, among the formats `image` recognizes) into RGB bytes.
///
/// Calls `image::load_from_memory`, converts the image with `to_rgb8` and
/// returns its width, height and bytes, or the error's text. The result is
/// a function of `bytes`; an RGB buffer holds three bytes per pixel.
#[verifier::external_body]
fn decode_rgb8(bytes: &[u8]) -> (r: Result<(u32, u32, Vec<u8>), String>)
    ensures
        match r {
            Ok((w, h, px)) => decoded_rgb8(bytes@) == Ok::<(u32, u32, Seq<u8>), Seq<char>>(
                (w, h, px@),
            ) && px@.len() == (w as nat) * (h as nat) * 3,
            Err(e) => decoded_rgb8(bytes@) == Err::<(u32, u32, Seq<u8>), Seq<char>>(e@),
        },
{
    match image::load_from_memory(bytes) {
        Ok(img) => {
            let rgb = img.to_rgb8();
            Ok((rgb.width(), rgb.height(), rgb.into_raw()))
        },
        Err(e) => Err(e.to_string()),
    }
}

/// Resizes an RGB image with the triangle (bilinear) filter.
///
/// Calls `image::imageops::resize` on the image the bytes form; the result is
/// a function of its arguments and has `new_width * new_height` pixels.
#[verifier::external_body]
fn resize_rgb8_triangle(width: u32, height: u32, pixels: Vec<u8>, new_width: u32, new_height: u32) -> (out:
    Vec<u8>)
    requires
        pixels@.len() == (width as nat) * (height as nat) * 3,
        (new_width as nat) * (new_height as nat) * 3 <= usize::MAX,
    ensures
        out@ == resized_rgb8_triangle(width, height, pixels@, new_width, new_height),
        out@.len() == (new_width as nat) * (new_height as nat) * 3,
{
    let buffer: image::RgbImage = image::ImageBuffer::from_raw(width, height, pixels).expect(
        "buffer holds width * height pixels",
    );
    image::imageops::resize(&buffer, new_width, new_height, image::imageops::FilterType::Triangle).into_raw()
}

/// Extents after scaling the shorter side to `SCALED_SHORT_SIDE`, keeping the
/// aspect ratio (the longer side is rounded down). An image without pixels
/// is scaled to a square of that side.
pub open spec fn scaled_extents(width: nat, height: nat) -> (nat, nat) {
    let s = SCALED_SHORT_SIDE as nat;
    if width <= height {
        (s, if width == 0 { s } else { height * s / width })
    } else {
        (if height == 0 { s } else { width * s / height }, s)
    }
}

/// Position in an RGB buffer of `width` columns of byte `i` of the central
/// `side` by `side` square of an image `height` rows high.
pub open spec fn crop_index(width: nat, height: nat, side: nat, i: int) -> int {
    let top = (height - side) / 2;
    let left = (width - side) / 2;
    let pixel = i / 3;
    ((top + pixel / (side as int)) * width + left + pixel % (side as int)) * 3 + i % 3
}

/// The central `side` by `side` square of an RGB image, row by row.
pub open spec fn center_crop(pixels: Seq<u8>, width: nat, height: nat, side: nat) -> Seq<u8> {
    Seq::new(side * side * 3, |i: int| pixels[crop_index(width, height, side, i)])
}

/// The channels of an RGB image one after another: all red bytes, all green
/// bytes, then all blue bytes, each in pixel order.
pub open spec fn planar(pixels: Seq<u8>, count: nat) -> Seq<u8> {
    Seq::new(3 * count, |k: int| pixels[(k % (count as int)) * 3 + k / (count as int)])
}

/// Text of the error when the scaled image cannot be held.
pub open spec fn too_large_message() -> Seq<char> {
    "image too large to scale"@
}

/// What decoding `bytes`, scaling the shorter side to 256 and cropping the
/// central 224x224 square yields.
pub open spec fn decoded_model_image(bytes: Seq<u8>) -> Result<Seq<u8>, Seq<char>> {
    match decoded_rgb8(bytes) {
        Ok((w, h, px)) => {
            let (sw, sh) = scaled_extents(w as nat, h as nat);
            if sw > u32::MAX || sh > u32::MAX || sw * sh * 3 > usize::MAX {
                Err(too_large_message())
            } else {
                Ok(
                    center_crop(
                        resized_rgb8_triangle(w, h, px, sw as u32, sh as u32),
                        sw,
                        sh,
                        MODEL_IMAGE_SIDE as nat,
                    ),
                )
            }
        },
        Err(e) => Err(e),
    }
}

/// Byte `i` of the central square lies at row `row` and column `col` of the
/// image, inside the buffer.
proof fn lemma_crop_index_in_bounds(width: nat, height: nat, side: nat, i: int)
    requires
        1 <= side <= width,
        side <= height,
        0 <= i < side * side * 3,
    ensures
        ({
            let row = (height - side) / 2 + (i / 3) / (side as int);
            let col = (width - side) / 2 + (i / 3) % (side as int);
            &&& 0 <= row < height
            &&& 0 <= col < width
            &&& row * width + col < width * height
            &&& crop_index(width, height, side, i) == (row * width + col) * 3 + i % 3
            &&& 0 <= crop_index(width, height, side, i) < width * height * 3
        }),
{
    let top = (height - side) / 2;
    let left = (width - side) / 2;
    let pixel = i / 3;
    let s = side as int;
    lemma_fundamental_div_mod(i, 3);
    assert(pixel < s * s) by (nonlinear_arith)
        requires
            i == 3 * pixel + i % 3,
            0 <= i % 3 < 3,
            i < s * s * 3,
    ;
    assert(pixel >= 0) by (nonlinear_arith)
        requires
            i == 3 * pixel + i % 3,
            i % 3 < 3,
            i >= 0,
    ;
    lemma_fundamental_div_mod(pixel, s);
    let r = pixel / s;
    let q = pixel % s;
    assert(0 <= r < s) by (nonlinear_arith)
        requires
            pixel == s * r + q,
            0 <= q < s,
            0 <= pixel < s * s,
    ;
    let row = top + r;
    let col = left + q;
    assert(0 <= row < height && 0 <= col < width);
    let w = width as int;
    let h = height as int;
    assert(row * w + col < w * h) by (nonlinear_arith)
        requires
            0 <= row < h,
            0 <= col < w,
    ;
    assert(0 <= (row * w + col) * 3 + i % 3 < w * h * 3) by (nonlinear_arith)
        requires
            0 <= row * w + col < w * h,
            0 <= i % 3 < 3,
    ;
}

/// Crops the central `side` by `side` square of an RGB image.
pub fn center_crop_rgb(pixels: &Vec<u8>, width: usize, height: usize, side: usize) -> (out: Vec<u8>)
    requires
        1 <= side <= width,
        side <= height,
        pixels@.len() == (width as nat) * (height as nat) * 3,
    ensures
        out@ == center_crop(pixels@, width as nat, height as nat, side as nat),
{
    let len = pixels.len();
    assert((side as nat) * (side as nat) * 3 <= (width as nat) * (height as nat) * 3) by (nonlinear_arith)
        requires
            side <= width,
            side <= height,
    ;
    let total = side * side * 3;
    let top = (height - side) / 2;
    let left = (width - side) / 2;
    let mut out: Vec<u8> = Vec::with_capacity(total);
    let mut i: usize = 0;
    while i < total
        invariant
            1 <= side <= width,
            side <= height,
            pixels@.len() == (width as nat) * (height as nat) * 3,
            len == pixels@.len(),
            total == (side as nat) * (side as nat) * 3,
            top == (height - side) / 2,
            left == (width - side) / 2,
            i <= total,
            out@ =~= center_crop(pixels@, width as nat, height as nat, side as nat).take(i as int),
        decreases total - i,
    {
        proof {
            lemma_crop_index_in_bounds(width as nat, height as nat, side as nat, i as int);
        }
        let pixel = i / 3;
        let row = top + pixel / side;
        let col = left + pixel % side;
        let index = (row * width + col) * 3 + i % 3;
        out.push(pixels[index]);
        i = i + 1;
    }
    out
}

/// The channels of an RGB image, one after another (channel-major order).
pub fn planar_channels(image: &RgbImage) -> (out: Vec<u8>)
    requires
        image.pixels@.len() == (image.width as nat) * (image.height as nat) * 3,
    ensures
        out@ == planar(image.pixels@, (image.width as nat) * (image.height as nat)),
{
    let total = image.pixels.len();
    assert((image.width as nat) * (image.height as nat) <= total);
    let count = (image.width as usize) * (image.height as usize);
    let mut out: Vec<u8> = Vec::with_capacity(total);
    if count == 0 {
        assert(out@ =~= planar(image.pixels@, 0));
        return out;
    }
    let mut k: usize = 0;
    while k < total
        invariant
            count > 0,
            total == 3 * (count as nat),
            image.pixels@.len() == total,
            k <= total,
            out@ =~= planar(image.pixels@, count as nat).take(k as int),
        decreases total - k,
    {
        proof {
            lemma_fundamental_div_mod(k as int, count as int);
        }
        let p = k % count;
        let c = k / count;
        assert(c < 3) by (nonlinear_arith)
            requires
                k == count * c + p,
                p >= 0,
                k < 3 * count,
                count > 0,
        ;
        assert(p * 3 + c < total) by (nonlinear_arith)
            requires
                p < count,
                c < 3,
                total == 3 * count,
        ;
        out.push(image.pixels[p * 3 + c]);
        k = k + 1;
    }
    out
}

impl ImageInput {
    /// Creates an input from raw PNG bytes.
    pub fn from_png_bytes(bytes: Vec<u8>) -> (input: ImageInput)
        ensures
            input.image_bytes@ == bytes@,
    {
        ImageInput { image_bytes: bytes }
    }

    /// Decodes the image bytes, scales the shorter side to 256 keeping the
    /// aspect ratio, and crops the central 224x224 square.
    pub fn decode(&self) -> (r: Result<RgbImage, String>)
        ensures
            match decoded_model_image(self.image_bytes@) {
                Ok(px) => r matches Ok(img) && img.width == MODEL_IMAGE_SIDE && img.height
                    == MODEL_IMAGE_SIDE && img.pixels@ == px,
                Err(e) => r matches Err(s) && s@ == e,
            },
    {
        match decode_rgb8(self.image_bytes.as_slice()) {
            Ok((width, height, pixels)) => {
                let (scaled_width, scaled_height) = scaled_size(width, height);
                if scaled_width > (u32::MAX as u64) || scaled_height > (u32::MAX as u64) {
                    return Err(String::from_str("image too large to scale"));
                }
                let sw = scaled_width as u32;
                let sh = scaled_height as u32;
                assert((sw as nat) * (sh as nat) * 3 <= u128::MAX) by (nonlinear_arith)
                    requires
                        sw <= u32::MAX,
                        sh <= u32::MAX,
                ;
                let wide = (sw as u128) * (sh as u128) * 3;
                if wide > (usize::MAX as u128) {
                    return Err(String::from_str("image too large to scale"));
                }
                let resized = resize_rgb8_triangle(width, height, pixels, sw, sh);
                let side = MODEL_IMAGE_SIDE as usize;
                let cropped = center_crop_rgb(&resized, sw as usize, sh as usize, side);
                Ok(RgbImage { width: MODEL_IMAGE_SIDE, height: MODEL_IMAGE_SIDE, pixels: cropped })
            },
            Err(e) => Err(e),
        }
    }
}

/// `scaled_extents` of a decoded image.
pub fn scaled_size(width: u32, height: u32) -> (r: (u64, u64))
    ensures
        (r.0 as nat, r.1 as nat) == scaled_extents(width as nat, height as nat),
        width > 0 && height > 0 ==> r.0 >= SCALED_SHORT_SIDE && r.1 >= SCALED_SHORT_SIDE,
{
    let s = SCALED_SHORT_SIDE as u64;
    let w = width as u64;
    let h = height as u64;
    if w <= h {
        if w == 0 {
            (s, s)
        } else {
            assert((h as int) * (s as int) / (w as int) >= s as int) by (nonlinear_arith)
                requires
                    w <= h,
                    w > 0,
                    s > 0,
            ;
            (s, h * s / w)
        }
    } else {
        if h == 0 {
            (s, s)
        } else {
            assert((w as int) * (s as int) / (h as int) >= s as int) by (nonlinear_arith)
                requires
                    h < w,
                    h > 0,
                    s > 0,
            ;
            (w * s / h, s)
        }
    }
}

/// Number of images in the benchmark data set; they are named `0.png` to `9999.png`.
pub const IMAGE_COUNT: u64 = 10000;

/// The decimal digit `d` (below ten) as a character.
pub open spec fn digit_char(d: nat) -> char {
    if d == 0 {
        '0'
    } else if d == 1 {
        '1'
    } else if d == 2 {
        '2'
    } else if d == 3 {
        '3'
    } else if d == 4 {
        '4'
    } else if d == 5 {
        '5'
    } else if d == 6 {
        '6'
    } else if d == 7 {
        '7'
    } else if d == 8 {
        '8'
    } else {
        '9'
    }
}

/// `n` written in decimal, without leading zeros.
pub open spec fn decimal(n: nat) -> Seq<char>
    decreases n,
{
    if n < 10 {
        seq![digit_char(n)]
    } else {
        decimal(n / 10).push(digit_char(n % 10))
    }
}

/// The digit `d` as a one-character string.
fn digit_text(d: u64) -> (t: &'static str)
    requires
        d < 10,
    ensures
        t@ == seq![digit_char(d as nat)],
{
    if d == 0 {
        proof { reveal_strlit("0"); }
        "0"
    } else if d == 1 {
        proof { reveal_strlit("1"); }
        "1"
    } else if d == 2 {
        proof { reveal_strlit("2"); }
        "2"
    } else if d == 3 {
        proof { reveal_strlit("3"); }
        "3"
    } else if d == 4 {
        proof { reveal_strlit("4"); }
        "4"
    } else if d == 5 {
        proof { reveal_strlit("5"); }
        "5"
    } else if d == 6 {
        proof { reveal_strlit("6"); }
        "6"
    } else if d == 7 {
        proof { reveal_strlit("7"); }
        "7"
    } else if d == 8 {
        proof { reveal_strlit("8"); }
        "8"
    } else {
        proof { reveal_strlit("9"); }
        "9"
    }
}

/// `n` written in decimal.
pub fn decimal_text(n: u64) -> (t: String)
    ensures
        t@ == decimal(n as nat),
    decreases n,
{
    if n < 10 {
        String::from_str(digit_text(n))
    } else {
        decimal_text(n / 10).concat(digit_text(n % 10))
    }
}

/// A number drawn at random below `bound`.
///
/// Calls `rand::Rng::gen_range` on `0..bound` with the thread-local generator
/// `rand::thread_rng()`, which returns a value of the range (it panics only on
/// an empty range, which `bound > 0` rules out). Which value comes is random.
#[verifier::external_body]
fn random_below(bound: u64) -> (r: u64)
    requires
        bound > 0,
    ensures
        r < bound,
{
    rand::Rng::gen_range(&mut rand::thread_rng(), 0..bound)
}

/// The file name `{index}.png` of an image of the data set, with the index
/// drawn at random below `IMAGE_COUNT`.
pub fn random_image_file_name() -> (name: String)
    ensures
        exists|i: nat| i < IMAGE_COUNT && name@ == decimal(i) + ".png"@,
{
    let index = random_below(IMAGE_COUNT);
    let name = decimal_text(index).concat(".png");
    assert(name@ == decimal(index as nat) + ".png"@);
    name
}

/// Decoding keeps the proportions of the image. A decoded `w` by `h` image is
/// resized to `nw` by `nh`, where the side that was the shorter one (the
/// width when they are equal) becomes 256 and the other is its length scaled
/// by the same factor, rounded down; the result is the central 224x224 square
/// of that resized image.
pub proof fn lemma_decode_keeps_aspect_ratio(
    bytes: Seq<u8>,
    w: u32,
    h: u32,
    px: Seq<u8>,
    nw: u32,
    nh: u32,
)
    requires
        decoded_rgb8(bytes) == Ok::<(u32, u32, Seq<u8>), Seq<char>>((w, h, px)),
        w > 0,
        h > 0,
        w <= h ==> nw == 256 && (nh as int) * (w as int) <= (h as int) * 256 < (nh as int + 1) * (
        w as int),
        w > h ==> nh == 256 && (nw as int) * (h as int) <= (w as int) * 256 < (nw as int + 1) * (
        h as int),
        (nw as int) * (nh as int) * 3 <= usize::MAX,
    ensures
        decoded_model_image(bytes) == Ok::<Seq<u8>, Seq<char>>(
            center_crop(resized_rgb8_triangle(w, h, px, nw, nh), nw as nat, nh as nat, 224),
        ),
{
    if w <= h {
        let x = (h as int) * 256;
        lemma_fundamental_div_mod(x, w as int);
        let q = x / (w as int);
        let r = x % (w as int);
        assert(nh as int == q) by (nonlinear_arith)
            requires
                x == (w as int) * q + r,
                0 <= r < w,
                (nh as int) * (w as int) <= x < (nh as int + 1) * (w as int),
                w > 0,
        ;
    } else {
        let x = (w as int) * 256;
        lemma_fundamental_div_mod(x, h as int);
        let q = x / (h as int);
        let r = x % (h as int);
        assert(nw as int == q) by (nonlinear_arith)
            requires
                x == (h as int) * q + r,
                0 <= r < h,
                (nw as int) * (h as int) <= x < (nw as int + 1) * (h as int),
                h > 0,
        ;
    }
    assert(scaled_extents(w as nat, h as nat) == (nw as nat, nh as nat));
}

/// The crop is the central square: its pixel at row `r` and column `c` is
/// the image's pixel at row `(height - side) / 2 + r` and column
/// `(width - side) / 2 + c`, channel for channel.
pub proof fn lemma_center_crop_pixels(
    pixels: Seq<u8>,
    width: nat,
    height: nat,
    side: nat,
    r: nat,
    c: nat,
    ch: nat,
)
    requires
        1 <= side <= width,
        side <= height,
        r < side,
        c < side,
        ch < 3,
    ensures
        center_crop(pixels, width, height, side).len() == side * side * 3,
        center_crop(pixels, width, height, side)[((r * side + c) * 3 + ch) as int] == pixels[(((
        height - side) / 2 + r) * width + (width - side) / 2 + c) * 3 + ch],
{
    let s = side as int;
    let pixel = (r * side + c) as int;
    let i = pixel * 3 + ch;
    assert(0 <= pixel < s * s) by (nonlinear_arith)
        requires
            pixel == r * s + c,
            r < s,
            c < s,
    ;
    assert(i < s * s * 3) by (nonlinear_arith)
        requires
            i == pixel * 3 + ch,
            pixel < s * s,
            ch < 3,
    ;
    lemma_fundamental_div_mod_converse(i, 3, pixel, ch as int);
    lemma_fundamental_div_mod_converse(pixel, s, r as int, c as int);
    assert(((r * side + c) * 3 + ch) as int == i);
}

/// Planar layout: byte `k` of channel `ch` is channel `ch` of pixel `k`.
pub proof fn lemma_planar_channel(pixels: Seq<u8>, count: nat, ch: nat, k: nat)
    requires
        ch < 3,
        k < count,
    ensures
        planar(pixels, count).len() == 3 * count,
        planar(pixels, count)[(ch * count + k) as int] == pixels[(k * 3 + ch) as int],
{
    let idx = (ch * count + k) as int;
    assert(idx < 3 * count) by (nonlinear_arith)
        requires
            idx == ch * count + k,
            ch < 3,
            k < count,
    ;
    lemma_fundamental_div_mod_converse(idx, count as int, ch as int, k as int);
}

} // verus!
