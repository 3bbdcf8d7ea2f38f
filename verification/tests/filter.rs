use sidescreen::filter::{accent_channels, accent_from_rgb, apply_filter, compact_pixels, is_cycling, uses_edges, FilterPlan};
use sidescreen::model::FilterStyle;

fn frame(width: usize, height: usize, value: u8) -> Vec<u8> {
    [value, value, value, 255].repeat(width * height)
}

fn channel_lut(channel: u8, brightness: f32) -> [u8; 256] {
    let mut result = [0_u8; 256];
    for (value, output) in result.iter_mut().enumerate() {
        *output = (channel as f32 * (value as f32 / 255.0 * brightness)) as u8;
    }
    result
}

fn gray_of(pixels: &[u8]) -> Vec<u8> {
    pixels
        .chunks_exact(4)
        .map(|pixel| {
            (pixel[0] as f32 * 0.114 + pixel[1] as f32 * 0.587 + pixel[2] as f32 * 0.299)
                .clamp(0.0, 255.0) as u8
        })
        .collect()
}

fn plan(style: FilterStyle, brightness: f32, accent: [u8; 3]) -> FilterPlan {
    FilterPlan {
        style,
        brightness: channel_lut(255, brightness),
        blue: channel_lut(accent[0], brightness),
        green: channel_lut(accent[1], brightness),
        red: channel_lut(accent[2], brightness),
        edge_threshold: 18,
        edge_thickness: 2,
    }
}

#[test]
fn full_resolution_copy_skips_row_padding() {
    let raw = [
        10, 20, 30, 255, 40, 50, 60, 255, 1, 2, 3, 4, 70, 80, 90, 255, 100, 110, 120, 255, 5, 6, 7,
        8,
    ];
    let mut pixels = compact_pixels(&raw, 2, 2, 12, 2, 2);
    apply_filter(&mut pixels, 2, 2, &[], &plan(FilterStyle::Original, 1.0, [0, 0, 0]));
    assert_eq!(
        pixels,
        [10, 20, 30, 255, 40, 50, 60, 255, 70, 80, 90, 255, 100, 110, 120, 255]
    );
}

#[test]
fn full_resolution_keeps_every_pixel() {
    let raw = frame(20, 10, 200);
    let pixels = compact_pixels(&raw, 20, 10, 80, 20, 10);
    assert_eq!(pixels, raw);
}

#[test]
fn rows_missing_from_the_source_stay_black() {
    let raw = [1, 2, 3, 4, 5, 6, 7, 8, 9, 10, 11, 12];
    let pixels = compact_pixels(&raw, 1, 3, 8, 1, 3);
    assert_eq!(pixels, [1, 2, 3, 4, 9, 10, 11, 12, 0, 0, 0, 0]);
}

#[test]
fn downscaling_takes_the_nearest_pixel_rounding_down() {
    let raw: Vec<u8> = (0..16_u8).flat_map(|index| [index, index, index, 255]).collect();
    let pixels = compact_pixels(&raw, 4, 4, 16, 2, 2);
    assert_eq!(pixels, [0, 0, 0, 255, 2, 2, 2, 255, 8, 8, 8, 255, 10, 10, 10, 255]);
}

#[test]
fn upscaling_repeats_source_pixels() {
    let raw = [1, 1, 1, 255, 2, 2, 2, 255];
    let pixels = compact_pixels(&raw, 2, 1, 8, 4, 1);
    assert_eq!(
        pixels,
        [1, 1, 1, 255, 1, 1, 1, 255, 2, 2, 2, 255, 2, 2, 2, 255]
    );
}

#[test]
fn empty_source_gives_a_black_pixel() {
    let pixels = compact_pixels(&[], 0, 0, 0, 1, 1);
    assert_eq!(pixels, [0, 0, 0, 0]);
}

#[test]
fn uniform_edge_frame_is_black() {
    let raw = frame(8, 8, 200);
    let mut pixels = compact_pixels(&raw, 8, 8, 32, 8, 8);
    let gray = gray_of(&pixels);
    apply_filter(&mut pixels, 8, 8, &gray, &plan(FilterStyle::Edge, 1.0, accent_channels(0x22d3ee)));
    assert!(pixels.chunks_exact(4).all(|pixel| pixel[..3] == [0, 0, 0]));
}

#[test]
fn inner_edge_never_lights_dark_background() {
    let width = 9;
    let height = 9;
    let mut input = frame(width, height, 0);
    for y in 2..7 {
        for x in 2..7 {
            let index = (y * width + x) * 4;
            input[index..index + 3].copy_from_slice(&[180, 180, 180]);
        }
    }
    let mut pixels = compact_pixels(&input, width as u32, height as u32, (width * 4) as u32, width as u32, height as u32);
    let gray = gray_of(&pixels);
    apply_filter(&mut pixels, width, height, &gray, &plan(FilterStyle::Edge, 1.0, accent_channels(0x22d3ee)));
    for (source, output) in input.chunks_exact(4).zip(pixels.chunks_exact(4)) {
        if source[0] == 0 {
            assert_eq!(&output[..3], &[0, 0, 0]);
        }
    }
}

#[test]
fn grayscale_uses_the_brightness_table_on_every_channel() {
    let mut pixels = vec![100, 150, 200, 7];
    let filter = plan(FilterStyle::Grayscale, 0.5, [0, 0, 0]);
    apply_filter(&mut pixels, 1, 1, &[80], &filter);
    assert_eq!(pixels, [filter.brightness[80], filter.brightness[80], filter.brightness[80], 255]);
}

#[test]
fn mono_paints_the_intensity_in_the_accent_colour() {
    let mut pixels = vec![0, 0, 0, 0, 9, 9, 9, 9];
    let filter = plan(FilterStyle::Mono, 1.0, [10, 20, 30]);
    apply_filter(&mut pixels, 2, 1, &[255, 0], &filter);
    assert_eq!(pixels, [10, 20, 30, 255, 0, 0, 0, 255]);
}

#[test]
fn original_style_dims_with_brightness() {
    let mut pixels = vec![255, 128, 0, 0];
    let filter = plan(FilterStyle::Original, 0.5, [0, 0, 0]);
    apply_filter(&mut pixels, 1, 1, &[], &filter);
    assert_eq!(pixels, [filter.brightness[255], filter.brightness[128], 0, 255]);
    assert!(pixels[0] < 255);
}

#[test]
fn accent_colour_splits_into_blue_green_red() {
    assert_eq!(accent_channels(0x22d3ee), [0xee, 0xd3, 0x22]);
    assert_eq!(accent_channels(0xff123456), [0x56, 0x34, 0x12]);
}

#[test]
fn style_families() {
    assert!(uses_edges(FilterStyle::Edge) && uses_edges(FilterStyle::EdgeCycle));
    assert!(!uses_edges(FilterStyle::Mono) && !uses_edges(FilterStyle::Original));
    assert!(is_cycling(FilterStyle::MonoCycle) && is_cycling(FilterStyle::EdgeCycle));
    assert!(!is_cycling(FilterStyle::Edge) && !is_cycling(FilterStyle::Grayscale));
}

#[test]
fn picked_colour_is_painted_as_picked() {
    assert_eq!(accent_from_rgb(0x22, 0xd3, 0xee), 0x22d3ee);
    for (red, green, blue) in [(0, 0, 0), (255, 255, 255), (1, 2, 3), (200, 10, 99)] {
        assert_eq!(accent_channels(accent_from_rgb(red, green, blue)), [blue, green, red]);
    }
}
