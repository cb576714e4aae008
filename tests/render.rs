use image::{DynamicImage, Rgba, RgbaImage};
use pixel_says::{
    convert_image_to_text, convert_pixels, convert_to_invert, convert_to_monochrome,
    convert_to_truecolor, fit_for_terminal, luminance, push_cell, say_from_dynamic_image,
    target_dimensions, Pixel, PixelMode, Raster, CONNECTOR,
};

fn raster_of(img: RgbaImage) -> Raster {
    let rgba = DynamicImage::ImageRgba8(img).to_rgba8();
    let (w, h) = rgba.dimensions();
    Raster::from_raw(w, h, rgba.into_raw()).unwrap()
}

fn two_by_two(px: [[u8; 4]; 4]) -> Raster {
    let mut img = RgbaImage::new(2, 2);
    img.put_pixel(0, 0, Rgba(px[0]));
    img.put_pixel(1, 0, Rgba(px[1]));
    img.put_pixel(0, 1, Rgba(px[2]));
    img.put_pixel(1, 1, Rgba(px[3]));
    raster_of(img)
}

fn uniform(w: u32, h: u32, px: [u8; 4]) -> Raster {
    let mut img = RgbaImage::new(w, h);
    for p in img.pixels_mut() {
        *p = Rgba(px);
    }
    raster_of(img)
}

#[test]
fn test_transparent_pixels_in_monochrome() {
    let mut img = RgbaImage::new(2, 2);
    img.put_pixel(0, 0, Rgba([255, 255, 255, 255]));
    img.put_pixel(1, 0, Rgba([0, 0, 0, 255]));
    img.put_pixel(0, 1, Rgba([255, 255, 255, 0]));
    img.put_pixel(1, 1, Rgba([0, 0, 0, 0]));
    let raster = raster_of(img);
    let result = convert_to_monochrome(&raster);
    assert_eq!(result, "██  \n    \n");
}

#[test]
fn test_transparent_pixels_in_invert() {
    let mut img = RgbaImage::new(2, 2);
    img.put_pixel(0, 0, Rgba([255, 255, 255, 255]));
    img.put_pixel(1, 0, Rgba([0, 0, 0, 255]));
    img.put_pixel(0, 1, Rgba([255, 255, 255, 0]));
    img.put_pixel(1, 1, Rgba([0, 0, 0, 0]));
    let raster = raster_of(img);
    let result = convert_to_invert(&raster);
    assert_eq!(result, "  ██\n    \n");
}

#[test]
fn test_transparent_pixels_in_truecolor() {
    let mut img = RgbaImage::new(2, 2);
    img.put_pixel(0, 0, Rgba([255, 0, 0, 255]));
    img.put_pixel(1, 0, Rgba([0, 255, 0, 255]));
    img.put_pixel(0, 1, Rgba([0, 0, 255, 0]));
    img.put_pixel(1, 1, Rgba([255, 255, 255, 50]));
    let raster = raster_of(img);
    let result = convert_to_truecolor(&raster);
    assert!(result.contains("\x1b[38;2;255;0;0m██\x1b[0m"));
    assert!(result.contains("\x1b[38;2;0;255;0m██\x1b[0m"));
    assert!(result.ends_with("    \n"));
}

#[test]
fn transparent_pixel_is_blank_in_every_mode() {
    let modes = [PixelMode::TrueColor, PixelMode::Monochrome, PixelMode::Invert];
    for a in [0u8, 50, 127] {
        for mode in modes {
            let mut out = String::new();
            push_cell(&mut out, Pixel { r: 200, g: 10, b: 90, a }, mode);
            assert_eq!(out, "  ");
        }
    }
    let mut out = String::new();
    push_cell(&mut out, Pixel { r: 200, g: 10, b: 90, a: 128 }, PixelMode::TrueColor);
    assert_eq!(out, "\x1b[38;2;200;10;90m██\x1b[0m");
}

#[test]
fn monochrome_and_invert_are_complements() {
    for v in [0u8, 1, 64, 128, 129, 130, 200, 255] {
        for (r, g, b) in [(v, v, v), (v, 0, 0), (0, v, 0), (0, 0, v), (255, v, 0)] {
            let p = Pixel { r, g, b, a: 255 };
            let mut mono = String::new();
            let mut inv = String::new();
            push_cell(&mut mono, p, PixelMode::Monochrome);
            push_cell(&mut inv, p, PixelMode::Invert);
            assert_ne!(mono, inv);
            assert!(mono == "██" || mono == "  ");
            assert!(inv == "██" || inv == "  ");
        }
    }
}

#[test]
fn luminance_threshold_edges() {
    assert_eq!(luminance(255, 255, 255), 255);
    assert_eq!(luminance(0, 0, 0), 0);
    assert_eq!(luminance(255, 0, 0), 54);
    assert_eq!(luminance(0, 255, 0), 182);
    assert_eq!(luminance(0, 0, 255), 18);
    assert_eq!(luminance(129, 129, 129), 129);
    let bright = uniform(1, 1, [129, 129, 129, 255]);
    let dark = uniform(1, 1, [128, 128, 128, 255]);
    assert_eq!(convert_to_monochrome(&bright), "██\n");
    assert_eq!(convert_to_monochrome(&dark), "  \n");
    assert_eq!(convert_to_invert(&bright), "  \n");
    assert_eq!(convert_to_invert(&dark), "██\n");
}

#[test]
fn fixture_image_in_both_threshold_modes() {
    let img = two_by_two([[255, 255, 255, 255], [0, 0, 0, 255], [255, 255, 255, 0], [0, 0, 0, 0]]);
    assert_eq!(convert_pixels(&img, PixelMode::Monochrome), "██  \n    \n");
    assert_eq!(convert_pixels(&img, PixelMode::Invert), "  ██\n    \n");
    assert_eq!(convert_image_to_text(&img, PixelMode::Monochrome), "██  \n    \n");
}

#[test]
fn red_pixel_in_truecolor() {
    let img = uniform(1, 1, [255, 0, 0, 255]);
    assert_eq!(convert_to_truecolor(&img), "\x1b[38;2;255;0;0m██\x1b[0m\n");
    let img = uniform(1, 1, [5, 40, 200, 255]);
    assert_eq!(convert_image_to_text(&img, PixelMode::TrueColor), "\x1b[38;2;5;40;200m██\x1b[0m\n");
}

#[test]
fn downsampling_sizes() {
    assert_eq!(target_dimensions(50, 60), (50, 60));
    assert_eq!(target_dimensions(80, 80), (80, 80));
    assert_eq!(target_dimensions(160, 40), (80, 20));
    assert_eq!(target_dimensions(81, 100), (64, 80));
    assert_eq!(target_dimensions(100, 81), (80, 64));
    assert_eq!(target_dimensions(1000, 1), (80, 1));
    assert_eq!(target_dimensions(81, 81), (80, 80));
}

#[test]
fn large_image_is_drawn_at_most_eighty_cells() {
    let img = uniform(100, 50, [255, 255, 255, 255]);
    let fitted = fit_for_terminal(&img);
    assert_eq!((fitted.width(), fitted.height()), (80, 40));
    assert_eq!(fitted.as_raw().len(), 4 * 80 * 40);
    let text = convert_image_to_text(&img, PixelMode::Monochrome);
    let row = format!("{}\n", "██".repeat(80));
    assert_eq!(text, row.repeat(40));
    let thin = uniform(160, 2, [0, 0, 0, 255]);
    let fitted = fit_for_terminal(&thin);
    assert_eq!((fitted.width(), fitted.height()), (80, 1));
    assert_eq!(convert_image_to_text(&thin, PixelMode::Invert), row);
}

#[test]
fn small_image_is_not_resampled() {
    let img = two_by_two([[1, 2, 3, 255], [4, 5, 6, 255], [7, 8, 9, 255], [10, 11, 12, 255]]);
    let fitted = fit_for_terminal(&img);
    assert_eq!(fitted.as_raw(), img.as_raw());
    assert_eq!(img.get_pixel(1, 1), Pixel { r: 10, g: 11, b: 12, a: 255 });
}

#[test]
fn raster_rejects_wrong_length() {
    assert!(Raster::from_raw(2, 2, vec![0; 15]).is_none());
    assert!(Raster::from_raw(2, 2, vec![0; 17]).is_none());
    assert!(Raster::from_raw(0, 5, vec![]).is_some());
    assert!(Raster::from_raw(u32::MAX, u32::MAX, vec![]).is_none());
}

#[test]
fn bubble_then_image() {
    let img = two_by_two([[255, 255, 255, 255], [0, 0, 0, 255], [255, 255, 255, 0], [0, 0, 0, 0]]);
    let out = say_from_dynamic_image(&img, "hi", 10, PixelMode::Monochrome).unwrap();
    assert_eq!(CONNECTOR, "\n        \\\n         \\\n");
    assert_eq!(out, " ____\n< hi >\n ----\n        \\\n         \\\n██  \n    \n");
}

#[test]
fn transparent_image_is_blank_in_every_mode() {
    let img = uniform(120, 90, [255, 0, 0, 100]);
    let blank_row = format!("{}\n", " ".repeat(2 * 80));
    let expected = blank_row.repeat(60);
    for mode in [PixelMode::TrueColor, PixelMode::Monochrome, PixelMode::Invert] {
        assert_eq!(convert_image_to_text(&img, mode), expected);
    }
    let empty = Raster::from_raw(0, 100, vec![]).unwrap();
    assert_eq!(target_dimensions(0, 100), (1, 80));
    assert_eq!(convert_image_to_text(&empty, PixelMode::Invert), "  \n".repeat(80));
}
