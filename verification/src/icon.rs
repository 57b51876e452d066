//! From the pixels of a window's icon to what the frontend shows for the window.
//!
//! The operating system hands out icon bitmaps in BGRA byte order; they are turned
//! into RGBA images, encoded as PNG `data:` URLs, and coloured by their most used
//! colour.
use vstd::prelude::*;

use crate::img::{
    convert_img_base64, counts_fit, data_url_of, is_most_used, most_used_rgb, rgba_len, ImgError,
    RgbaBitmap,
};
use crate::structs::{ContainerForSend, Icon, WindowForSend};

verus! {

/// The bytes with the first and the third byte of every complete group of four
/// swapped; bytes after the last complete group stay as they are.
pub open spec fn bgra_swapped(bytes: Seq<u8>) -> Seq<u8> {
    Seq::new(
        bytes.len(),
        |i: int|
            if i < 4 * (bytes.len() / 4) && i % 4 == 0 {
                bytes[i + 2]
            } else if i < 4 * (bytes.len() / 4) && i % 4 == 2 {
                bytes[i - 2]
            } else {
                bytes[i]
            },
    )
}

/// Turns BGRA pixels into RGBA pixels in place, by swapping the blue and the red byte of
/// every pixel.
pub fn bgra_to_rgba(buf: &mut [u8])
    ensures
        final(buf)@ == bgra_swapped(old(buf)@),
{
    let n: usize = buf.len();
    let end: usize = n - n % 4;
    let ghost orig = buf@;
    let mut i: usize = 0;
    while i < end
        invariant
            n == buf@.len() == orig.len(),
            end == 4 * (n / 4),
            i % 4 == 0,
            i <= 4 * (n / 4),
            forall|j: int| 0 <= j < i ==> buf@[j] == #[trigger] bgra_swapped(orig)[j],
            forall|j: int| i <= j < n ==> buf@[j] == orig[j],
        decreases n - i,
    {
        let b = buf[i];
        let r = buf[i + 2];
        buf[i] = r;
        buf[i + 2] = b;
        i += 4;
    }
    assert(buf@ =~= bgra_swapped(orig));
}

/// In every complete pixel of four bytes the first and the third byte trade places and
/// the second and the fourth stay, whatever the bytes are; bytes after the last
/// complete pixel stay as they are, and the length does not change.
pub proof fn lemma_bgra_swaps_each_pixel(bytes: Seq<u8>)
    ensures
        bgra_swapped(bytes).len() == bytes.len(),
        forall|k: int|
            0 <= k && 4 * k + 3 < bytes.len() ==> {
                &&& #[trigger] bgra_swapped(bytes)[4 * k] == bytes[4 * k + 2]
                &&& bgra_swapped(bytes)[4 * k + 1] == bytes[4 * k + 1]
                &&& bgra_swapped(bytes)[4 * k + 2] == bytes[4 * k]
                &&& bgra_swapped(bytes)[4 * k + 3] == bytes[4 * k + 3]
            },
        forall|i: int|
            4 * (bytes.len() / 4) <= i < bytes.len() ==> #[trigger] bgra_swapped(bytes)[i]
                == bytes[i],
{
    assert forall|k: int| 0 <= k && 4 * k + 3 < bytes.len() implies {
        &&& #[trigger] bgra_swapped(bytes)[4 * k] == bytes[4 * k + 2]
        &&& bgra_swapped(bytes)[4 * k + 1] == bytes[4 * k + 1]
        &&& bgra_swapped(bytes)[4 * k + 2] == bytes[4 * k]
        &&& bgra_swapped(bytes)[4 * k + 3] == bytes[4 * k + 3]
    } by {
        let n = bytes.len() as int;
        assert(4 * k + 3 < 4 * (n / 4)) by (nonlinear_arith)
            requires
                0 <= k,
                4 * k + 3 < n,
        ;
        assert((4 * k) % 4 == 0 && (4 * k + 1) % 4 == 1 && (4 * k + 2) % 4 == 2 && (4 * k + 3) % 4
            == 3) by (nonlinear_arith)
            requires
                0 <= k,
        ;
    }
}

/// Swapping the blue and the red bytes twice gives the pixels back.
pub proof fn lemma_bgra_swapped_twice(bytes: Seq<u8>)
    ensures
        bgra_swapped(bgra_swapped(bytes)) == bytes,
{
    assert(bgra_swapped(bgra_swapped(bytes)) =~= bytes);
}

/// The size of the colour bitmap of an icon whose hotspot is at `(x_hotspot, y_hotspot)`:
/// the hotspot is the centre, so the bitmap is twice as wide and twice as high. Returns
/// the width, the height and the byte length of the RGBA buffer that holds it.
pub fn hotspot_bitmap_size(x_hotspot: u32, y_hotspot: u32) -> (r: (u32, u32, usize))
    requires
        x_hotspot * 2 <= u32::MAX,
        y_hotspot * 2 <= u32::MAX,
        x_hotspot * 2 * y_hotspot * 2 * 4 <= u32::MAX,
    ensures
        r.0 == x_hotspot * 2,
        r.1 == y_hotspot * 2,
        r.2 == rgba_len(r.0, r.1),
{
    let width: u32 = x_hotspot * 2;
    let height: u32 = y_hotspot * 2;
    assert(width * y_hotspot <= width * y_hotspot * 2 * 4) by (nonlinear_arith);
    assert(width * y_hotspot * 2 == width * height) by (nonlinear_arith)
        requires
            height == y_hotspot * 2,
    ;
    let len: u32 = width * y_hotspot * 2 * 4;
    (width, height, len as usize)
}

/// Makes an RGBA image of the given size from the BGRA pixels that the operating
/// system wrote into `buffer`. The buffer must hold at least the bytes of the image.
pub fn rgba_image_from_bgra(width: u32, height: u32, buffer: Vec<u8>) -> (r: Result<
    RgbaBitmap,
    ImgError,
>)
    ensures
        r is Ok <==> width * 4 <= usize::MAX && rgba_len(width, height) <= buffer@.len(),
        r matches Ok(img) ==> img@ == (
            width,
            height,
            bgra_swapped(buffer@).take(rgba_len(width, height)),
        ),
        r matches Err(e) ==> e == ImgError::ContainerTooSmall,
{
    let mut buffer = buffer;
    bgra_to_rgba(buffer.as_mut_slice());
    match RgbaBitmap::from_raw(width, height, buffer) {
        Some(img) => Ok(img),
        None => Err(ImgError::ContainerTooSmall),
    }
}

/// The images of the icons that could be converted, in order; the ones that could not
/// are left out.
pub open spec fn converted_icons(results: Seq<Result<RgbaBitmap, ImgError>>) -> Seq<
    (u32, u32, Seq<u8>),
>
    decreases results.len(),
{
    if results.len() == 0 {
        Seq::empty()
    } else {
        let rest = converted_icons(results.drop_first());
        match results[0] {
            Ok(img) => seq![img@] + rest,
            Err(_) => rest,
        }
    }
}

/// Keeps the icons that could be converted, in order, and drops the failures.
pub fn keep_converted_icons(results: Vec<Result<RgbaBitmap, ImgError>>) -> (icons: Vec<RgbaBitmap>)
    ensures
        icons@.map_values(|img: RgbaBitmap| img@) == converted_icons(results@),
{
    let mut rest = results;
    let mut icons: Vec<RgbaBitmap> = Vec::new();
    let ghost all = rest@;
    while rest.len() > 0
        invariant
            icons@.map_values(|img: RgbaBitmap| img@) + converted_icons(rest@) == converted_icons(all),
        decreases rest.len(),
    {
        let ghost before = rest@;
        let first = rest.remove(0);
        assert(rest@ =~= before.drop_first());
        match first {
            Ok(img) => {
                let ghost v = img@;
                icons.push(img);
                assert(icons@.map_values(|img: RgbaBitmap| img@) + converted_icons(rest@)
                    =~= converted_icons(all));
            },
            Err(_) => {},
        }
    }
    assert(icons@.map_values(|img: RgbaBitmap| img@) =~= converted_icons(all));
    icons
}

/// The window that the frontend shows for an icon: the icon as a PNG `data:` URL and,
/// as the accent colour, the colour used by the most pixels of the icon.
pub open spec fn window_shows_icon(w: WindowForSend, id: u16, icon: (u32, u32, Seq<u8>)) -> bool {
    &&& w.id == id
    &&& data_url_of(icon) == Ok::<Seq<char>, ImgError>(w.icon@)
    &&& is_most_used(icon.2, (icon.0 * icon.1) as nat, w.accent_color as int)
}

/// The inputs on which a window can be made from an icon: the icon has a pixel, and
/// no colour occurs more often than a `u32` counts.
pub open spec fn icon_usable(icon: (u32, u32, Seq<u8>)) -> bool {
    &&& icon.0 * icon.1 >= 1
    &&& counts_fit(icon)
}

impl WindowForSend {
    /// Makes the window with id `id` from its icon. Fails where the icon cannot be
    /// turned into a `data:` URL.
    pub fn from_icon(id: u16, icon: &RgbaBitmap) -> (r: Result<WindowForSend, ImgError>)
        requires
            icon_usable(icon@),
        ensures
            r matches Ok(w) ==> window_shows_icon(w, id, icon@),
            r matches Err(e) ==> data_url_of(icon@) == Err::<Seq<char>, ImgError>(e),
            r is Ok <==> data_url_of(icon@) is Ok,
    {
        let base64_icon = convert_img_base64(icon)?;
        match most_used_rgb(icon) {
            Some(accent_color) => Ok(WindowForSend { id, icon: Icon { base64_icon }, accent_color }),
            None => {
                assert(false);
                Err(ImgError::NoCommonColor)
            },
        }
    }
}

/// The first failure among the icons, where one fails.
pub open spec fn first_icon_error(icons: Seq<(u16, RgbaBitmap)>) -> Option<ImgError>
    decreases icons.len(),
{
    if icons.len() == 0 {
        None
    } else {
        match data_url_of(icons[0].1@) {
            Err(e) => Some(e),
            Ok(_) => first_icon_error(icons.drop_first()),
        }
    }
}

impl ContainerForSend {
    /// Makes a container from the ids and the icons of its windows, in order. Fails with
    /// the error of the first window whose icon cannot be turned into a `data:` URL.
    pub fn from_icons(windows: &Vec<(u16, RgbaBitmap)>) -> (r: Result<ContainerForSend, ImgError>)
        requires
            forall|i: int| 0 <= i < windows.len() ==> icon_usable(#[trigger] windows@[i].1@),
        ensures
            r matches Err(e) ==> first_icon_error(windows@) == Some(e),
            r is Ok <==> first_icon_error(windows@) is None,
            r matches Ok(c) ==> c.windows.len() == windows.len() && forall|i: int|
                0 <= i < windows.len() ==> window_shows_icon(
                    #[trigger] c.windows@[i],
                    windows@[i].0,
                    windows@[i].1@,
                ),
    {
        let mut window_for_send: Vec<WindowForSend> = Vec::new();
        let mut i: usize = 0;
        assert(windows@.skip(0) =~= windows@);
        while i < windows.len()
            invariant
                forall|j: int| 0 <= j < windows.len() ==> icon_usable(#[trigger] windows@[j].1@),
                i <= windows.len(),
                window_for_send.len() == i,
                first_icon_error(windows@) == first_icon_error(windows@.skip(i as int)),
                forall|j: int|
                    0 <= j < i ==> window_shows_icon(
                        #[trigger] window_for_send@[j],
                        windows@[j].0,
                        windows@[j].1@,
                    ),
            decreases windows.len() - i,
        {
            assert(windows@.skip(i as int).drop_first() =~= windows@.skip(i + 1));
            let w = WindowForSend::from_icon(windows[i].0, &windows[i].1)?;
            window_for_send.push(w);
            i += 1;
        }
        assert(windows@.skip(i as int).len() == 0);
        Ok(ContainerForSend { windows: window_for_send })
    }
}

} // verus!
