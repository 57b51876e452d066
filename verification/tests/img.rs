use asayake::img::max_by_count;
use base64::Engine as _;
use asayake::img::{
    cast_rgbau8_to_string, cast_rgbau8_to_u32, convert_img_base64, find_most_used_color,
    most_used_rgb, IconImage, ImgError, Rgb, Rgba, RgbaBitmap,
};

fn make_one_colored_image(rgb: &Rgb) -> IconImage {
    let width: u32 = 54;
    let height: u32 = 54;
    let mut data = Vec::new();
    for _ in 0..(width * height) {
        data.extend_from_slice(&[rgb.0[0], rgb.0[1], rgb.0[2], 0xFF]);
    }
    IconImage::Rgba8(RgbaBitmap::from_raw(width, height, data).unwrap())
}

fn bitmap(width: u32, height: u32, pixels: &[[u8; 4]]) -> RgbaBitmap {
    let data: Vec<u8> = pixels.iter().flat_map(|p| p.iter().copied()).collect();
    RgbaBitmap::from_raw(width, height, data).unwrap()
}

#[test]
fn test_cast_rgbau8_to_string() {
    assert_eq!("FFFFFF", cast_rgbau8_to_string(&Rgba([0xFF, 0xFF, 0xFF, 0xFF])));
    assert_eq!("000000", cast_rgbau8_to_string(&Rgba([0x0, 0x0, 0x0, 0xFF])));
    assert_eq!("010203", cast_rgbau8_to_string(&Rgba([0x1, 0x2, 0x3, 0xFF])));
}

fn check_one_colored_image(rgb: Rgb) {
    let image = &make_one_colored_image(&rgb);
    let rgb_u32 = cast_rgbau8_to_string(&Rgba([rgb.0[0], rgb.0[1], rgb.0[2], 0xFF]));
    assert_eq!(find_most_used_color(image).unwrap(), rgb_u32);
}

#[test]
fn one_colored_images() {
    check_one_colored_image(Rgb([255, 255, 255]));
    check_one_colored_image(Rgb([0, 0, 0]));
}

#[test]
fn cast_string_ignores_alpha_and_pads() {
    assert_eq!("0A0B0C", cast_rgbau8_to_string(&Rgba([0x0A, 0x0B, 0x0C, 0x00])));
    assert_eq!("ABCDEF", cast_rgbau8_to_string(&Rgba([0xAB, 0xCD, 0xEF, 0x12])));
}

#[test]
fn cast_u32_packs_rgb() {
    assert_eq!(0x010203, cast_rgbau8_to_u32(&Rgba([1, 2, 3, 4])));
    assert_eq!(0xFFFFFF, cast_rgbau8_to_u32(&Rgba([0xFF, 0xFF, 0xFF, 0])));
    assert_eq!(0, cast_rgbau8_to_u32(&Rgba([0, 0, 0, 0xFF])));
}

#[test]
fn most_used_color_counts_pixels_without_alpha() {
    // Two red pixels (with different alpha) and one blue pixel.
    let img = bitmap(3, 1, &[[255, 0, 0, 255], [0, 0, 255, 255], [255, 0, 0, 10]]);
    assert_eq!(most_used_rgb(&img), Some(0xFF0000));
    let image = IconImage::Rgba8(img);
    assert_eq!(find_most_used_color(&image), Ok("FF0000".to_string()));
}

#[test]
fn most_used_color_errors() {
    assert_eq!(find_most_used_color(&IconImage::OtherFormat), Err(ImgError::NotRgba8));
    let empty = IconImage::Rgba8(bitmap(0, 5, &[]));
    assert_eq!(find_most_used_color(&empty), Err(ImgError::NoCommonColor));
    assert_eq!(ImgError::NotRgba8.message(), "Unable to cast down to a Rgba image.");
    assert_eq!(ImgError::NoCommonColor.message(), "Unable to find the most common color");
    assert_eq!(ImgError::ContainerTooSmall.message(), "Image Container Not Big Enough");
}

#[test]
fn from_raw_checks_and_truncates_the_buffer() {
    assert!(RgbaBitmap::from_raw(2, 2, vec![0; 15]).is_none());
    let img = RgbaBitmap::from_raw(2, 2, vec![7; 20]).unwrap();
    assert_eq!(img.as_raw().len(), 16);
    assert_eq!(img.pixel_count(), 4);
    assert_eq!((img.width(), img.height()), (2, 2));
}

#[test]
fn png_data_url_of_an_image() {
    let img = bitmap(1, 1, &[[255, 0, 0, 255]]);
    let url = convert_img_base64(&img).unwrap();
    // "iVBORw0KGgo" is the base64 text of the PNG signature.
    assert!(url.starts_with("data:image/png;base64,iVBORw0KGgo"));
    assert!(url.len() > "data:image/png;base64,".len() + 40);
}

#[test]
fn png_encoder_refuses_an_empty_image() {
    let img = bitmap(0, 0, &[]);
    assert_eq!(convert_img_base64(&img), Err(ImgError::PngEncoding));
}

#[test]
fn distinct_colours_have_distinct_strings() {
    let a = cast_rgbau8_to_string(&Rgba([1, 0, 0, 255]));
    let b = cast_rgbau8_to_string(&Rgba([0, 1, 0, 255]));
    let c = cast_rgbau8_to_string(&Rgba([0, 0, 1, 255]));
    assert!(a != b && b != c && a != c);
    assert_eq!(format!("{:06X}", cast_rgbau8_to_u32(&Rgba([0x12, 0x34, 0x56, 0]))), cast_rgbau8_to_string(&Rgba([0x12, 0x34, 0x56, 0])));
}

#[test]
fn data_url_text_is_standard_base64_of_a_png() {
    let img = bitmap(2, 1, &[[1, 2, 3, 4], [5, 6, 7, 8]]);
    let url = convert_img_base64(&img).unwrap();
    let text = url.strip_prefix("data:image/png;base64,").unwrap();
    assert_eq!(text.len() % 4, 0);
    assert!(text.chars().all(|c| c.is_ascii_alphanumeric() || c == '+' || c == '/' || c == '='));
    let png = base64::engine::general_purpose::STANDARD.decode(text).unwrap();
    assert_eq!(&png[..8], &[0x89, b'P', b'N', b'G', 0x0D, 0x0A, 0x1A, 0x0A]);
}

#[test]
fn max_by_count_takes_the_last_of_equal_counts() {
    assert_eq!(max_by_count(&vec![]), None);
    assert_eq!(max_by_count(&vec![(1, 5), (2, 7), (3, 7), (4, 2)]), Some((3, 7)));
    assert_eq!(max_by_count(&vec![(9, 1)]), Some((9, 1)));
}
