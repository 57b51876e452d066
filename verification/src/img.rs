//! Icon images: their pixels, their most used colour, and their PNG `data:` URL.
use vstd::prelude::*;
use vstd::std_specs::hash::EntrySpecFns;
use vstd::string::StringExecFns;

use std::collections::hash_map::Entry;
use std::hash::BuildHasherDefault;

use fxhash::{FxHashMap, FxHasher};
use image::codecs::png::PngEncoder;
use image::{ColorType, ImageEncoder, ImageError};

use crate::text::{
    digits_value, hex2, hex_char_value, lemma_digits_value_append2, lemma_hex2_reads_back,
    lemma_hex_digit_reads_back, push_hex2,
};

verus! {

/// `std::hash::BuildHasherDefault`, the hash builder of `fxhash`'s maps; opaque.
#[verifier::external_type_specification]
#[verifier::external_body]
#[verifier::reject_recursive_types(H)]
pub struct ExBuildHasherDefault<H>(BuildHasherDefault<H>);

/// `fxhash::FxHasher`, the hasher of `fxhash`'s maps; opaque.
#[verifier::external_type_specification]
#[verifier::external_body]
pub struct ExFxHasher(FxHasher);

/// `image::ImageError`, the error of the PNG encoder; opaque.
#[verifier::external_type_specification]
#[verifier::external_body]
pub struct ExImageError(ImageError);

/// An RGBA pixel with 8 bits per channel.
#[derive(Debug, PartialEq, Eq, Clone, Copy)]
pub struct Rgba(pub [u8; 4]);

/// An RGB pixel with 8 bits per channel.
#[derive(Debug, PartialEq, Eq, Clone, Copy)]
pub struct Rgb(pub [u8; 3]);

impl Rgba {
    /// The pixel without its alpha channel.
    pub fn to_rgb(&self) -> (c: Rgb)
        ensures
            c.0@ == self.0@.take(3),
    {
        let c = Rgb([self.0[0], self.0[1], self.0[2]]);
        assert(c.0@ =~= self.0@.take(3));
        c
    }
}

/// The colour of red, green and blue channels as one number `0xRRGGBB`.
pub open spec fn rgb_value(r: u8, g: u8, b: u8) -> int {
    r * 65536 + g * 256 + b
}

/// The six upper-case hexadecimal digits `RRGGBB` of a colour.
pub open spec fn rgb_hex(r: u8, g: u8, b: u8) -> Seq<char> {
    hex2(r) + hex2(g) + hex2(b)
}

/// The six hexadecimal digits of the colour number `value` (below `0x1000000`).
pub open spec fn value_hex(value: int) -> Seq<char> {
    rgb_hex(((value / 65536) % 256) as u8, ((value / 256) % 256) as u8, (value % 256) as u8)
}

/// Writes the colour of a pixel, without its alpha channel, as `RRGGBB` in upper-case
/// hexadecimal.
pub fn cast_rgbau8_to_string(rgba: &Rgba) -> (s: String)
    ensures
        s@ == rgb_hex(rgba.0[0], rgba.0[1], rgba.0[2]),
        s@.len() == 6,
        digits_value(s@, 16) == rgb_value(rgba.0[0], rgba.0[1], rgba.0[2]),
{
    proof {
        lemma_rgb_hex_reads_back(rgba.0[0], rgba.0[1], rgba.0[2]);
    }
    let rgb = rgba.to_rgb();
    let mut s = String::new();
    push_hex2(&mut s, rgb.0[0]);
    push_hex2(&mut s, rgb.0[1]);
    push_hex2(&mut s, rgb.0[2]);
    assert(s@ =~= rgb_hex(rgba.0[0], rgba.0[1], rgba.0[2]));
    s
}

/// The colour of a pixel, without its alpha channel, as the number `0xRRGGBB`.
pub fn cast_rgbau8_to_u32(rgba: &Rgba) -> (v: u32)
    ensures
        v == rgb_value(rgba.0[0], rgba.0[1], rgba.0[2]),
{
    let rgb = rgba.to_rgb();
    let r: u32 = rgb.0[0] as u32;
    let g: u32 = rgb.0[1] as u32;
    let b: u32 = rgb.0[2] as u32;
    let v: u32 = (r << 16u32) | (g << 8u32) | b;
    assert(v == r * 65536 + g * 256 + b) by (bit_vector)
        requires
            r < 256,
            g < 256,
            b < 256,
            v == (r << 16u32) | (g << 8u32) | b,
    ;
    v
}

/// The key by which the `i`-th pixel of RGBA bytes is counted: its colour number.
pub open spec fn pixel_key(bytes: Seq<u8>, i: int) -> int {
    rgb_value(bytes[4 * i], bytes[4 * i + 1], bytes[4 * i + 2])
}

/// How many of the first `n` pixels have the colour number `key`.
pub open spec fn color_count(bytes: Seq<u8>, n: nat, key: int) -> nat
    decreases n,
{
    if n == 0 {
        0
    } else {
        color_count(bytes, (n - 1) as nat, key) + if pixel_key(bytes, n - 1) == key {
            1nat
        } else {
            0nat
        }
    }
}

/// `key` is a colour that occurs among the first `n` pixels, and no colour occurs more
/// often.
pub open spec fn is_most_used(bytes: Seq<u8>, n: nat, key: int) -> bool {
    &&& color_count(bytes, n, key) > 0
    &&& forall|other: int| #[trigger] color_count(bytes, n, other) <= color_count(bytes, n, key)
}

/// No colour occurs among the pixels of the image more often than a `u32` counts.
pub open spec fn counts_fit(image: (u32, u32, Seq<u8>)) -> bool {
    forall|key: int| #[trigger] color_count(image.2, (image.0 * image.1) as nat, key) <= u32::MAX
}

/// No colour occurs more often than there are pixels.
pub proof fn lemma_color_count_bound(bytes: Seq<u8>, n: nat, key: int)
    ensures
        color_count(bytes, n, key) <= n,
    decreases n,
{
    if n > 0 {
        lemma_color_count_bound(bytes, (n - 1) as nat, key);
    }
}

/// An image of at most `u32::MAX` pixels has no colour that a `u32` cannot count.
pub proof fn lemma_small_image_counts_fit(image: (u32, u32, Seq<u8>))
    requires
        image.0 * image.1 <= u32::MAX,
    ensures
        counts_fit(image),
{
    assert forall|key: int| #[trigger] color_count(image.2, (image.0 * image.1) as nat, key)
        <= u32::MAX by {
        lemma_color_count_bound(image.2, (image.0 * image.1) as nat, key);
    }
}

/// An image of RGBA pixels, row by row, four bytes per pixel.
#[derive(Debug)]
pub struct RgbaBitmap {
    width: u32,
    height: u32,
    data: Vec<u8>,
}

/// The byte length of an RGBA image of the given size.
pub open spec fn rgba_len(width: u32, height: u32) -> int {
    width * height * 4
}

impl View for RgbaBitmap {
    /// The width, the height and the bytes of the image.
    type V = (u32, u32, Seq<u8>);

    closed spec fn view(&self) -> (u32, u32, Seq<u8>) {
        (self.width, self.height, self.data@)
    }
}

impl RgbaBitmap {
    #[verifier::type_invariant]
    closed spec fn inv(self) -> bool {
        self.data.len() == rgba_len(self.width, self.height)
    }

    /// Makes an image of the given size from a buffer of RGBA bytes. It accepts the
    /// same buffers as `ImageBuffer::from_raw`: `None` where the buffer is too short for
    /// the image (or the image would not fit in memory at all). Unlike
    /// `ImageBuffer::from_raw`, which keeps bytes past the image without ever reading
    /// them as pixels, it drops them, so that the image holds exactly its pixels.
    pub fn from_raw(width: u32, height: u32, buf: Vec<u8>) -> (r: Option<RgbaBitmap>)
        ensures
            r is Some <==> width * 4 <= usize::MAX && rgba_len(width, height) <= buf@.len(),
            r matches Some(img) ==> img@ == (width, height, buf@.take(rgba_len(width, height))),
    {
        let w: usize = width as usize;
        let h: usize = height as usize;
        let buf_len: usize = buf.len();
        let row = w.checked_mul(4);
        match row {
            None => {
                None
            },
            Some(row) => {
                let len = row.checked_mul(h);
                match len {
                    None => {
                        assert(rgba_len(width, height) > buf@.len()) by (nonlinear_arith)
                            requires
                                row * h > usize::MAX,
                                row == w * 4,
                                w == width,
                                h == height,
                                buf_len <= usize::MAX,
                                buf_len == buf@.len(),
                        ;
                        None
                    },
                    Some(len) => {
                        assert(len == rgba_len(width, height)) by (nonlinear_arith)
                            requires
                                len == row * h,
                                row == w * 4,
                                w == width,
                                h == height,
                        ;
                        if len <= buf.len() {
                            let mut data = buf;
                            data.truncate(len);
                            Some(RgbaBitmap { width, height, data })
                        } else {
                            None
                        }
                    },
                }
            },
        }
    }

    /// The width in pixels.
    pub fn width(&self) -> (w: u32)
        ensures
            w == self@.0,
    {
        self.width
    }

    /// The height in pixels.
    pub fn height(&self) -> (h: u32)
        ensures
            h == self@.1,
    {
        self.height
    }

    /// The RGBA bytes, row by row.
    pub fn as_raw(&self) -> (d: &Vec<u8>)
        ensures
            d@ == self@.2,
            d@.len() == rgba_len(self@.0, self@.1),
    {
        proof {
            use_type_invariant(self);
        }
        &self.data
    }

    /// The number of pixels.
    pub fn pixel_count(&self) -> (n: usize)
        ensures
            n == self@.0 * self@.1,
            n * 4 == self@.2.len(),
    {
        proof {
            use_type_invariant(self);
        }
        let n = self.data.len() / 4;
        assert(n == self.width * self.height) by (nonlinear_arith)
            requires
                self.data.len() == self.width * self.height * 4,
                n == self.data.len() / 4,
        ;
        n
    }
}

/// A decoded image, as far as the colour logic reads it: either RGBA pixels with 8 bits
/// per channel, or pixels of another kind.
#[derive(Debug)]
pub enum IconImage {
    Rgba8(RgbaBitmap),
    OtherFormat,
}

/// Why an icon could not be turned into what the frontend shows.
#[derive(Debug, PartialEq, Eq, Clone, Copy)]
pub enum ImgError {
    /// The image does not hold RGBA pixels with 8 bits per channel.
    NotRgba8,
    /// The image has no pixel, so it has no most common colour.
    NoCommonColor,
    /// The PNG encoder refused the image.
    PngEncoding,
    /// The PNG file is too large for its base64 text to fit in memory.
    TooLarge,
    /// The pixel buffer is too short for the size of the image.
    ContainerTooSmall,
}

impl ImgError {
    /// The message of the error.
    pub fn message(&self) -> (s: String)
        ensures
            s@ == (match self {
                ImgError::NotRgba8 => "Unable to cast down to a Rgba image."@,
                ImgError::NoCommonColor => "Unable to find the most common color"@,
                ImgError::PngEncoding => "Unable to encode the image as PNG"@,
                ImgError::TooLarge => "The PNG image is too large to encode as base64"@,
                ImgError::ContainerTooSmall => "Image Container Not Big Enough"@,
            }),
    {
        match self {
            ImgError::NotRgba8 => String::from_str("Unable to cast down to a Rgba image."),
            ImgError::NoCommonColor => String::from_str("Unable to find the most common color"),
            ImgError::PngEncoding => String::from_str("Unable to encode the image as PNG"),
            ImgError::TooLarge => String::from_str("The PNG image is too large to encode as base64"),
            ImgError::ContainerTooSmall => String::from_str("Image Container Not Big Enough"),
        }
    }
}

/// `HashMap::entry` on the colour counts of `fxhash`'s map. `FxHasher` hashes a `u32`
/// the same way every time and `u32` keys are equal exactly when they are the same
/// number, so the entry stands for `key` in the map's contents: it holds the count of
/// `key` where there is one, and the value it ends with becomes the count of `key`.
#[verifier::external_body]
fn color_entry<'a>(counts: &'a mut FxHashMap<u32, u32>, key: u32) -> (entry: Entry<'a, u32, u32>)
    ensures
        entry.key() == key,
        entry.value() == old(counts)@.get(key),
        final(counts)@ == (match entry.final_value() {
            Some(value) => old(counts)@.insert(key, value),
            None => old(counts)@.remove(key),
        }),
{
    counts.entry(key)
}

/// `HashMap::iter` on the colour counts, each pair copied out. The pairs are those of
/// the map, each key once; their order is the map's internal order, which is left
/// unsaid.
#[verifier::external_body]
fn color_count_pairs(counts: &FxHashMap<u32, u32>) -> (pairs: Vec<(u32, u32)>)
    ensures
        forall|i: int|
            0 <= i < pairs.len() ==> #[trigger] counts@.contains_key(pairs@[i].0) && counts@[pairs@[i].0]
                == pairs@[i].1,
        forall|key: u32| #[trigger]
            counts@.contains_key(key) ==> exists|i: int|
                0 <= i < pairs.len() && #[trigger] pairs@[i].0 == key,
        forall|i: int, j: int|
            0 <= i < j < pairs.len() ==> #[trigger] pairs@[i].0 != #[trigger] pairs@[j].0,
{
    counts.iter().map(|(key, count)| (*key, *count)).collect()
}

/// The colour number that occurs most often among the pixels of `image`, or `None`
/// where the image has no pixel. Where several colours occur equally often, which of
/// them comes back depends on the order of the counting map.
pub fn most_used_rgb(image: &RgbaBitmap) -> (r: Option<u32>)
    requires
        counts_fit(image@),
    ensures
        r is None <==> image@.0 * image@.1 == 0,
        r matches Some(key) ==> is_most_used(image@.2, (image@.0 * image@.1) as nat, key as int),
{
    let n = image.pixel_count();
    let data = image.as_raw();
    let ghost bytes = data@;
    assert(n * 4 <= usize::MAX) by {
        assert(data@.len() == data.len());
    }
    assert forall|key: int| #[trigger] color_count(bytes, n as nat, key) <= u32::MAX by {
        assert(color_count(image@.2, (image@.0 * image@.1) as nat, key) <= u32::MAX);
    }
    let mut counts: FxHashMap<u32, u32> = FxHashMap::default();
    let mut i: usize = 0;
    while i < n
        invariant
            n == image@.0 * image@.1,
            forall|key: int| #[trigger] color_count(bytes, n as nat, key) <= u32::MAX,
            n * 4 == bytes.len(),
            n * 4 <= usize::MAX,
            bytes == data@,
            i <= n,
            forall|key: u32| #[trigger]
                counts@.contains_key(key) <==> color_count(bytes, i as nat, key as int) > 0,
            forall|key: u32| #[trigger]
                counts@.contains_key(key) ==> counts@[key] == color_count(
                    bytes,
                    i as nat,
                    key as int,
                ),
        decreases n - i,
    {
        assert(4 * i + 3 < n * 4) by (nonlinear_arith)
            requires
                i < n,
        ;
        let pixel = Rgba([data[4 * i], data[4 * i + 1], data[4 * i + 2], data[4 * i + 3]]);
        let key = cast_rgbau8_to_u32(&pixel);
        proof {
            lemma_color_count_monotone(bytes, (i + 1) as nat, n as nat, key as int);
            assert(color_count(bytes, n as nat, key as int) <= u32::MAX);
        }
        let entry = color_entry(&mut counts, key);
        let count = entry.or_insert(0);
        *count += 1;
        proof {
            assert forall|k: u32| #[trigger] counts@.contains_key(k) <==> color_count(
                bytes,
                (i + 1) as nat,
                k as int,
            ) > 0 by {
                if k != key {
                    assert(pixel_key(bytes, i as int) != k as int);
                }
            }
        }
        i += 1;
    }
    let pairs = color_count_pairs(&counts);
    let best = max_by_count(&pairs);
    proof {
        if pairs.len() > 0 {
            lemma_last_max_index(pairs@);
        }
    }
    match best {
        None => {
            if n > 0 {
                let ghost k = pixel_key(bytes, 0) as u32;
                assert(pairs.len() == 0);
                proof {
                    reveal_with_fuel(color_count, 2);
                    assert(color_count(bytes, 1, pixel_key(bytes, 0)) == 1);
                    lemma_color_count_monotone(bytes, 1, n as nat, pixel_key(bytes, 0));
                    assert(counts@.contains_key(k));
                }
            }
            None
        },
        Some(b) => {
            proof {
                let m = last_max_index(pairs@);
                assert(b == pairs@[m]);
                assert(counts@.contains_key(pairs@[m].0));
                assert(counts@[b.0] == b.1);
                assert(color_count(bytes, n as nat, b.0 as int) == b.1);
                assert forall|other: int| #[trigger] color_count(bytes, n as nat, other) <= color_count(
                    bytes,
                    n as nat,
                    b.0 as int,
                ) by {
                    if color_count(bytes, n as nat, other) > 0 {
                        lemma_counted_key_is_u32(bytes, n as nat, other);
                        let k = other as u32;
                        assert(counts@.contains_key(k));
                        let idx = choose|idx: int| 0 <= idx < pairs.len() && #[trigger] pairs@[idx].0 == k;
                        assert(counts@.contains_key(pairs@[idx].0));
                        assert(pairs@[idx].1 <= pairs@[m].1);
                    }
                }
                if n == 0 {
                    assert(!counts@.contains_key(b.0));
                }
            }
            Some(b.0)
        },
    }
}

/// The index of the pair with the largest count, the last of equal ones.
pub open spec fn last_max_index(pairs: Seq<(u32, u32)>) -> int
    decreases pairs.len(),
{
    if pairs.len() <= 1 {
        0
    } else {
        let j = last_max_index(pairs.drop_last());
        if pairs.last().1 >= pairs[j].1 {
            pairs.len() - 1
        } else {
            j
        }
    }
}

/// The pair with the largest count is one of the pairs, and no pair has a larger count.
pub proof fn lemma_last_max_index(pairs: Seq<(u32, u32)>)
    requires
        pairs.len() > 0,
    ensures
        0 <= last_max_index(pairs) < pairs.len(),
        forall|i: int| 0 <= i < pairs.len() ==> #[trigger] pairs[i].1 <= pairs[last_max_index(pairs)].1,
    decreases pairs.len(),
{
    if pairs.len() > 1 {
        let init = pairs.drop_last();
        lemma_last_max_index(init);
        assert forall|i: int| 0 <= i < init.len() implies #[trigger] pairs[i] == init[i] by {}
    }
}

/// The pair with the largest count, as `Iterator::max_by_key` on the counts picks it:
/// where several pairs have the largest count, the last of them. `None` where there is
/// no pair.
pub fn max_by_count(pairs: &Vec<(u32, u32)>) -> (r: Option<(u32, u32)>)
    ensures
        pairs.len() == 0 ==> r is None,
        pairs.len() > 0 ==> r == Some(pairs@[last_max_index(pairs@)]),
{
    if pairs.len() == 0 {
        return None;
    }
    let mut best: (u32, u32) = pairs[0];
    let mut j: usize = 1;
    assert(pairs@.take(1).len() == 1);
    while j < pairs.len()
        invariant
            1 <= j <= pairs.len(),
            best == pairs@[last_max_index(pairs@.take(j as int))],
            0 <= last_max_index(pairs@.take(j as int)) < j,
        decreases pairs.len() - j,
    {
        let ghost prev = pairs@.take(j as int);
        assert(pairs@.take(j + 1).drop_last() =~= prev);
        proof {
            lemma_last_max_index(prev);
        }
        let p = pairs[j];
        if p.1 >= best.1 {
            best = p;
        }
        j += 1;
    }
    assert(pairs@.take(j as int) =~= pairs@);
    Some(best)
}

proof fn lemma_color_count_monotone(bytes: Seq<u8>, m: nat, n: nat, key: int)
    requires
        m <= n,
    ensures
        color_count(bytes, m, key) <= color_count(bytes, n, key),
    decreases n,
{
    if n > m {
        lemma_color_count_monotone(bytes, m, (n - 1) as nat, key);
    }
}

/// A colour that occurs among the pixels is a colour number that fits in a `u32`.
proof fn lemma_counted_key_is_u32(bytes: Seq<u8>, n: nat, key: int)
    requires
        color_count(bytes, n, key) > 0,
    ensures
        0 <= key <= u32::MAX,
    decreases n,
{
    if pixel_key(bytes, n - 1) != key {
        lemma_counted_key_is_u32(bytes, (n - 1) as nat, key);
    }
}

/// Finds the colour used by the most pixels of `image` and writes it as `RRGGBB` in
/// upper-case hexadecimal; alpha is not looked at. Images that do not hold RGBA pixels,
/// and images without pixels, have no such colour.
pub fn find_most_used_color(image: &IconImage) -> (r: Result<String, ImgError>)
    requires
        image matches IconImage::Rgba8(b) ==> counts_fit(b@),
    ensures
        image is OtherFormat ==> r == Err::<String, ImgError>(ImgError::NotRgba8),
        image matches IconImage::Rgba8(b) ==> (r is Err <==> b@.0 * b@.1 == 0),
        image matches IconImage::Rgba8(b) ==> (r matches Err(e) ==> e == ImgError::NoCommonColor),
        image matches IconImage::Rgba8(b) ==> (r matches Ok(s) ==> exists|key: int|
            is_most_used(b@.2, (b@.0 * b@.1) as nat, key) && s@ == value_hex(key)),
{
    match image {
        IconImage::Rgba8(img) => match most_used_rgb(img) {
            Some(key) => {
                let s = color_hex(key);
                Ok(s)
            },
            None => Err(ImgError::NoCommonColor),
        },
        IconImage::OtherFormat => Err(ImgError::NotRgba8),
    }
}

/// Writes a colour number `0xRRGGBB` as six upper-case hexadecimal digits.
fn color_hex(key: u32) -> (s: String)
    ensures
        s@ == value_hex(key as int),
{
    let r: u8 = ((key / 65536) % 256) as u8;
    let g: u8 = ((key / 256) % 256) as u8;
    let b: u8 = (key % 256) as u8;
    let mut s = String::new();
    push_hex2(&mut s, r);
    push_hex2(&mut s, g);
    push_hex2(&mut s, b);
    assert(s@ =~= value_hex(key as int));
    s
}

/// The PNG file that `image`'s encoder writes for an RGBA image of the given size and
/// bytes, or `None` where the encoder refuses it.
pub uninterp spec fn png_encoding(width: u32, height: u32, rgba: Seq<u8>) -> Option<Seq<u8>>;

/// The character of a six-bit value in the standard base64 alphabet: `A`-`Z`, `a`-`z`,
/// `0`-`9`, `+` and `/`.
pub open spec fn base64_char(v: int) -> char {
    if v < 26 {
        (v + 65) as char
    } else if v < 52 {
        (v + 71) as char
    } else if v < 62 {
        (v - 4) as char
    } else if v == 62 {
        '+'
    } else {
        '/'
    }
}

/// The standard base64 text of the bytes, with padding: every group of three bytes
/// becomes four characters of six bits each, and a last group of one or two bytes is
/// padded with `=` to four characters.
pub open spec fn base64_standard(bytes: Seq<u8>) -> Seq<char>
    decreases bytes.len(),
{
    if bytes.len() == 0 {
        Seq::empty()
    } else if bytes.len() == 1 {
        let a = bytes[0] as int;
        seq![base64_char(a / 4), base64_char((a % 4) * 16), '=', '=']
    } else if bytes.len() == 2 {
        let a = bytes[0] as int;
        let b = bytes[1] as int;
        seq![base64_char(a / 4), base64_char((a % 4) * 16 + b / 16), base64_char((b % 16) * 4), '=']
    } else {
        let a = bytes[0] as int;
        let b = bytes[1] as int;
        let c = bytes[2] as int;
        seq![
            base64_char(a / 4),
            base64_char((a % 4) * 16 + b / 16),
            base64_char((b % 16) * 4 + c / 64),
            base64_char(c % 64),
        ] + base64_standard(bytes.subrange(3, bytes.len() as int))
    }
}

/// The base64 text of `n` bytes has `base64_len(n)` characters.
pub proof fn lemma_base64_len(bytes: Seq<u8>)
    ensures
        base64_standard(bytes).len() == base64_len(bytes.len() as int),
    decreases bytes.len(),
{
    if bytes.len() >= 3 {
        lemma_base64_len(bytes.subrange(3, bytes.len() as int));
        let n = bytes.len() as int;
        assert(base64_len(n) == 4 + base64_len(n - 3)) by {
            assert((n - 3) / 3 == n / 3 - 1);
            assert((n - 3) % 3 == n % 3);
        }
    }
}

/// `PngEncoder::write_image` of the `image` crate, writing into a fresh `Vec`, with
/// the bytes taken as 8-bit RGBA. It asserts that the buffer holds exactly
/// `width * height * 4` bytes, hence the `requires`. Its output is named, not stated.
#[verifier::external_body]
fn encode_png(width: u32, height: u32, rgba: &[u8]) -> (r: Result<Vec<u8>, ImageError>)
    requires
        rgba@.len() == rgba_len(width, height),
    ensures
        r is Ok <==> png_encoding(width, height, rgba@) is Some,
        r matches Ok(png) ==> png_encoding(width, height, rgba@) == Some(png@),
{
    let mut png: Vec<u8> = Vec::new();
    PngEncoder::new(&mut png).write_image(rgba, width, height, ColorType::Rgba8).map(|_| png)
}

/// The byte length of the padded base64 text of `n` bytes.
pub open spec fn base64_len(n: int) -> int {
    4 * (n / 3) + if n % 3 == 0 {
        0int
    } else {
        4int
    }
}

/// `Engine::encode` of the `base64` crate with its `STANDARD` engine: the standard
/// alphabet, with padding, as `base64_standard` states it. It panics where the length
/// of the text does not fit in a `usize`, hence the `requires`.
#[verifier::external_body]
fn encode_base64(bytes: &[u8]) -> (s: String)
    requires
        base64_len(bytes@.len() as int) <= usize::MAX,
    ensures
        s@ == base64_standard(bytes@),
{
    base64::Engine::encode(&base64::engine::general_purpose::STANDARD, bytes)
}

/// The `data:` URL of a PNG file.
pub open spec fn png_data_url(png: Seq<u8>) -> Seq<char> {
    "data:image/png;base64,"@ + base64_standard(png)
}

/// The `data:` URL of an image, or why there is none: the PNG encoder refused the
/// image, or the base64 text of the PNG file would not fit in memory.
pub open spec fn data_url_of(image: (u32, u32, Seq<u8>)) -> Result<Seq<char>, ImgError> {
    match png_encoding(image.0, image.1, image.2) {
        None => Err(ImgError::PngEncoding),
        Some(png) => if base64_len(png.len() as int) <= usize::MAX {
            Ok(png_data_url(png))
        } else {
            Err(ImgError::TooLarge)
        },
    }
}

/// Encodes an image as PNG and returns it as a `data:` URL,
/// `data:image/png;base64,...`, that an `<img>` element can show.
pub fn convert_img_base64(image: &RgbaBitmap) -> (r: Result<String, ImgError>)
    ensures
        match r {
            Ok(s) => data_url_of(image@) == Ok::<Seq<char>, ImgError>(s@),
            Err(e) => data_url_of(image@) == Err::<Seq<char>, ImgError>(e),
        },
{
    let rgba = image.as_raw();
    let png = match encode_png(image.width(), image.height(), rgba.as_slice()) {
        Ok(png) => png,
        Err(_) => {
            return Err(ImgError::PngEncoding);
        },
    };
    let n: usize = png.len();
    if n / 3 > usize::MAX / 4 || (n % 3 != 0 && (n / 3) * 4 > usize::MAX - 4) {
        return Err(ImgError::TooLarge);
    }
    let resp_base64 = encode_base64(png.as_slice());
    let mut url = String::from_str("data:image/png;base64,");
    url.append(resp_base64.as_str());
    Ok(url)
}

/// The six hexadecimal digits of a colour number are those of its red, green and blue
/// bytes: the string and the number that the bar uses name the same colour.
pub proof fn lemma_value_hex_of_rgb(r: u8, g: u8, b: u8)
    ensures
        value_hex(rgb_value(r, g, b)) == rgb_hex(r, g, b),
{
    let v = rgb_value(r, g, b);
    assert(v / 65536 == r as int && (v / 256) % 256 == g as int && v % 256 == b as int) by (nonlinear_arith)
        requires
            v == r * 65536 + g * 256 + b,
            0 <= r < 256,
            0 <= g < 256,
            0 <= b < 256,
    ;
}

/// Distinct colours have distinct hexadecimal strings, so counting pixels by their
/// string and counting them by their colour number give the same counts.
pub proof fn lemma_rgb_hex_injective(r1: u8, g1: u8, b1: u8, r2: u8, g2: u8, b2: u8)
    requires
        rgb_hex(r1, g1, b1) == rgb_hex(r2, g2, b2),
    ensures
        r1 == r2 && g1 == g2 && b1 == b2,
{
    lemma_hex2_injective(r1, r2, rgb_hex(r1, g1, b1), rgb_hex(r2, g2, b2), 0);
    lemma_hex2_injective(g1, g2, rgb_hex(r1, g1, b1), rgb_hex(r2, g2, b2), 2);
    lemma_hex2_injective(b1, b2, rgb_hex(r1, g1, b1), rgb_hex(r2, g2, b2), 4);
}

proof fn lemma_hex2_injective(x: u8, y: u8, s: Seq<char>, t: Seq<char>, at: int)
    requires
        s == t,
        s.len() == 6,
        at == 0 || at == 2 || at == 4,
        s[at] == hex2(x)[0] && s[at + 1] == hex2(x)[1],
        t[at] == hex2(y)[0] && t[at + 1] == hex2(y)[1],
    ensures
        x == y,
{
    lemma_hex_digit_injective((x / 16) as nat, (y / 16) as nat);
    lemma_hex_digit_injective((x % 16) as nat, (y % 16) as nat);
}

proof fn lemma_hex_digit_injective(a: nat, b: nat)
    requires
        a < 16,
        b < 16,
        crate::text::hex_digit(a) == crate::text::hex_digit(b),
    ensures
        a == b,
{
}

/// The colour string has six upper-case hexadecimal digits, and read in base 16 it is
/// the colour number: the first two digits are red, the next two green, the last two
/// blue.
pub proof fn lemma_rgb_hex_reads_back(r: u8, g: u8, b: u8)
    ensures
        rgb_hex(r, g, b).len() == 6,
        digits_value(rgb_hex(r, g, b), 16) == rgb_value(r, g, b),
        digits_value(rgb_hex(r, g, b).subrange(0, 2), 16) == r,
        digits_value(rgb_hex(r, g, b).subrange(2, 4), 16) == g,
        digits_value(rgb_hex(r, g, b).subrange(4, 6), 16) == b,
        forall|i: int| 0 <= i < 6 ==> 0 <= #[trigger] hex_char_value(rgb_hex(r, g, b)[i]) < 16,
{
    lemma_hex2_reads_back(r);
    lemma_hex2_reads_back(g);
    lemma_hex2_reads_back(b);
    lemma_digits_value_append2(Seq::<char>::empty(), hex2(r), 16);
    assert(Seq::<char>::empty() + hex2(r) =~= hex2(r));
    assert(digits_value(Seq::<char>::empty(), 16) == 0);
    lemma_digits_value_append2(hex2(r), hex2(g), 16);
    lemma_digits_value_append2(hex2(r) + hex2(g), hex2(b), 16);
    let s = rgb_hex(r, g, b);
    assert(s.subrange(0, 2) =~= hex2(r));
    assert(s.subrange(2, 4) =~= hex2(g));
    assert(s.subrange(4, 6) =~= hex2(b));
    assert(digits_value(s, 16) == (r * 16 * 16 + g) * 16 * 16 + b);
    assert((r * 16 * 16 + g) * 16 * 16 + b == r * 65536 + g * 256 + b) by (nonlinear_arith);
    lemma_hex_digit_reads_back((r / 16) as nat);
    lemma_hex_digit_reads_back((r % 16) as nat);
    lemma_hex_digit_reads_back((g / 16) as nat);
    lemma_hex_digit_reads_back((g % 16) as nat);
    lemma_hex_digit_reads_back((b / 16) as nat);
    lemma_hex_digit_reads_back((b % 16) as nat);
    assert forall|i: int| 0 <= i < 6 implies 0 <= #[trigger] hex_char_value(s[i]) < 16 by {
        if i < 2 {
            assert(s[i] == hex2(r)[i]);
        } else if i < 4 {
            assert(s[i] == hex2(g)[i - 2]);
        } else {
            assert(s[i] == hex2(b)[i - 4]);
        }
    }
}

} // verus!
