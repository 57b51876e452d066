use asayake::icon::{
    bgra_to_rgba, hotspot_bitmap_size, keep_converted_icons, rgba_image_from_bgra,
};
use asayake::img::{convert_img_base64, ImgError, RgbaBitmap};
use asayake::structs::{ContainerForSend, WindowForSend};

fn bitmap(width: u32, height: u32, pixels: &[[u8; 4]]) -> RgbaBitmap {
    let data: Vec<u8> = pixels.iter().flat_map(|p| p.iter().copied()).collect();
    RgbaBitmap::from_raw(width, height, data).unwrap()
}

#[test]
fn bgra_becomes_rgba() {
    let mut buf = vec![1, 2, 3, 4, 5, 6, 7, 8, 9, 10];
    bgra_to_rgba(&mut buf);
    assert_eq!(buf, vec![3, 2, 1, 4, 7, 6, 5, 8, 9, 10]);
    bgra_to_rgba(&mut buf);
    assert_eq!(buf, vec![1, 2, 3, 4, 5, 6, 7, 8, 9, 10]);
}

#[test]
fn hotspot_size() {
    assert_eq!(hotspot_bitmap_size(16, 16), (32, 32, 4096));
    assert_eq!(hotspot_bitmap_size(0, 7), (0, 14, 0));
}

#[test]
fn image_from_bgra() {
    let img = rgba_image_from_bgra(1, 2, vec![10, 20, 30, 40, 50, 60, 70, 80, 99]).unwrap();
    assert_eq!(img.as_raw(), &vec![30, 20, 10, 40, 70, 60, 50, 80]);
    assert_eq!(
        rgba_image_from_bgra(2, 2, vec![0; 12]).unwrap_err(),
        ImgError::ContainerTooSmall
    );
}

#[test]
fn failed_icons_are_dropped() {
    let results = vec![
        Ok(bitmap(1, 1, &[[1, 1, 1, 1]])),
        Err(ImgError::ContainerTooSmall),
        Ok(bitmap(1, 1, &[[2, 2, 2, 2]])),
    ];
    let kept = keep_converted_icons(results);
    assert_eq!(kept.len(), 2);
    assert_eq!(kept[0].as_raw(), &vec![1, 1, 1, 1]);
    assert_eq!(kept[1].as_raw(), &vec![2, 2, 2, 2]);
}

#[test]
fn window_from_icon() {
    let icon = bitmap(2, 2, &[[0, 0, 255, 255], [0, 0, 255, 255], [0, 0, 255, 255], [9, 9, 9, 255]]);
    let w = WindowForSend::from_icon(7, &icon).unwrap();
    assert_eq!(w.id, 7);
    assert_eq!(w.accent_color, 0x0000FF);
    assert_eq!(w.icon.base64_icon, convert_img_base64(&icon).unwrap());
}

#[test]
fn container_from_icons() {
    let windows = vec![
        (1u16, bitmap(1, 1, &[[255, 0, 0, 255]])),
        (2u16, bitmap(1, 1, &[[0, 255, 0, 255]])),
    ];
    let c = ContainerForSend::from_icons(&windows).unwrap();
    assert_eq!(c.windows.len(), 2);
    assert_eq!((c.windows[0].id, c.windows[0].accent_color), (1, 0xFF0000));
    assert_eq!((c.windows[1].id, c.windows[1].accent_color), (2, 0x00FF00));
    let none: Vec<(u16, RgbaBitmap)> = vec![];
    assert_eq!(ContainerForSend::from_icons(&none).unwrap().windows.len(), 0);
}
