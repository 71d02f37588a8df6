//! The pixel builtins on concrete values: color channel arithmetic, the
//! random generator's exact sequence, pixel-buffer fills and copies, and
//! the threshold comparisons.

use avm2_core::bitmap::{Color, LehmerRng};
use avm2_core::bitmap_data::{BitmapData, PixelRegion, ThresholdOperation,
    copy_pixels_to_bitmapdata};

#[test]
fn color_channels_unpack_and_repack() {
    let c = Color(0x8040_2010);
    assert_eq!(c.alpha(), 0x80);
    assert_eq!(c.red(), 0x40);
    assert_eq!(c.green(), 0x20);
    assert_eq!(c.blue(), 0x10);
    assert_eq!(Color::argb(0x80, 0x40, 0x20, 0x10).0, 0x8040_2010);
    assert_eq!(c.with_alpha(0xFF).0, 0xFF40_2010);
}

#[test]
fn premultiply_and_unmultiply_match_the_player() {
    // premultiplying an opaque color changes nothing
    let opaque = Color(0xFF64_3296);
    assert_eq!(opaque.to_premultiplied_alpha(true).0, 0xFF64_3296);
    // premultiplying at half alpha halves the channels, rounding to nearest
    let half = Color(0x8064_3296);
    let pre = half.to_premultiplied_alpha(true);
    assert_eq!(pre.alpha(), 0x80);
    assert_eq!(pre.red(), ((0x64u32 * 0x80 + 127) / 255) as u8);
    // an opaque buffer forces alpha 255
    assert_eq!(half.to_premultiplied_alpha(false).alpha(), 0xFF);
    // the table reverses the premultiplication for these channel values,
    // up to the player's known one-off rounding on the largest one
    let back = pre.to_un_multiplied_alpha();
    assert_eq!(back.alpha(), 0x80);
    assert_eq!(back.red(), 0x64);
    assert_eq!(back.green(), 0x32);
    assert_eq!(back.blue(), 0x95);
}

#[test]
fn blend_over_composes_premultiplied_colors() {
    let dst = Color::argb(0xFF, 0x40, 0x40, 0x40);
    let src = Color::argb(0xFF, 0x10, 0x20, 0x30);
    // an opaque source replaces the destination
    assert_eq!(dst.blend_over(&src).0, src.0);
    // a transparent source keeps almost all of the destination:
    // each channel becomes d * 255 / 256
    let clear = Color::argb(0x00, 0, 0, 0);
    let kept = dst.blend_over(&clear);
    assert_eq!(kept.red(), (0x40u16 * 255 / 256) as u8);
}

#[test]
fn lehmer_sequence_is_exact() {
    let mut rng = LehmerRng::with_seed(1);
    assert_eq!(rng.gen(), 16_807);
    assert_eq!(rng.gen(), 282_475_249);
    assert_eq!(rng.gen(), 1_622_650_073);
    let mut rng2 = LehmerRng::with_seed(1);
    let d = rng2.gen_range(10, 20);
    assert!(10 <= d && d <= 20);
    assert_eq!(d, 10 + (16_807 % 11) as u8);
}

#[test]
fn fill_rect_clips_and_marks_dirty() {
    let mut bd = BitmapData::new(4, 4, true, 0);
    bd.fill_rect(1, 1, 2, 2, 0xFF00_00FF);
    let filled = Color(0xFF00_00FF).to_premultiplied_alpha(true).0;
    for y in 0..4i32 {
        for x in 0..4i32 {
            let inside = (1..3).contains(&x) && (1..3).contains(&y);
            let got = bd.get_pixel32_raw(x as u32, y as u32).0;
            if inside {
                assert_eq!(got, filled, "at {},{}", x, y);
            } else {
                assert_eq!(got, 0, "at {},{}", x, y);
            }
        }
    }
    assert_eq!(bd.update_dirty_texture(),
        Some(PixelRegion { x_min: 1, y_min: 1, x_max: 3, y_max: 3 }));
    assert_eq!(bd.update_dirty_texture(), None);
    // a rectangle hanging over the edge is clipped
    bd.fill_rect(3, 3, 10, 10, 0xFFFF_FFFF);
    assert_eq!(bd.get_pixel32_raw(3, 3).0, 0xFFFF_FFFF);
    assert_eq!(bd.get_pixel32_raw(2, 2).0, filled);
}

#[test]
fn get_pixel_reports_unmultiplied_rgb_and_zero_outside() {
    let mut bd = BitmapData::new(2, 2, true, 0);
    bd.fill_rect(0, 0, 2, 2, 0xFF11_2233);
    assert_eq!(bd.get_pixel(0, 0), 0x0011_2233);
    assert_eq!(bd.get_pixel(-1, 0), 0);
    assert_eq!(bd.get_pixel(0, 2), 0);
}

#[test]
fn copy_pixels_moves_a_clipped_block() {
    let mut src = BitmapData::new(2, 2, true, 0xFF0000FF);
    let mut dst = BitmapData::new(4, 4, true, 0);
    let blue = src.get_pixel32_raw(0, 0).0;
    dst.copy_pixels(&src, 0, 0, 2, 2, 1, 1, None, 0, 0, false);
    for y in 0..4i32 {
        for x in 0..4i32 {
            let inside = (1..3).contains(&x) && (1..3).contains(&y);
            let got = dst.get_pixel32_raw(x as u32, y as u32).0;
            if inside {
                assert_eq!(got, blue, "at {},{}", x, y);
            } else {
                assert_eq!(got, 0, "at {},{}", x, y);
            }
        }
    }
    // a source rectangle past the source's bounds copies only what exists
    let mut dst2 = BitmapData::new(4, 4, true, 0);
    dst2.copy_pixels(&src, 1, 1, 5, 5, 0, 0, None, 0, 0, false);
    assert_eq!(dst2.get_pixel32_raw(0, 0).0, blue);
    assert_eq!(dst2.get_pixel32_raw(1, 1).0, 0);
    let _ = src.update_dirty_texture();
}

#[test]
fn gpu_readback_fills_the_region() {
    let mut bd = BitmapData::new(2, 1, true, 0);
    // two pixels of RGBA bytes from the renderer
    let buffer: Vec<u8> = vec![0x11, 0x22, 0x33, 0xFF, 0x44, 0x55, 0x66, 0x80];
    copy_pixels_to_bitmapdata(&mut bd, &buffer, 8,
        PixelRegion { x_min: 0, y_min: 0, x_max: 2, y_max: 1 });
    assert_eq!(bd.get_pixel32_raw(0, 0).0, Color::argb(0xFF, 0x11, 0x22, 0x33).0);
    assert_eq!(bd.get_pixel32_raw(1, 0).0, Color::argb(0x80, 0x44, 0x55, 0x66).0);
}

#[test]
fn dispose_empties_the_bitmap() {
    let mut bd = BitmapData::new(2, 2, true, 0xFFFFFFFF);
    assert!(!bd.disposed());
    bd.dispose();
    assert!(bd.disposed());
    assert_eq!(bd.width(), 0);
    assert_eq!(bd.height(), 0);
}

#[test]
fn gpu_dirty_state_round_trip() {
    let mut bd = BitmapData::new(2, 2, true, 0);
    let region = PixelRegion { x_min: 0, y_min: 0, x_max: 1, y_max: 1 };
    bd.set_gpu_dirty(region);
    assert!(!bd.can_read(region));
    assert!(bd.can_read(PixelRegion { x_min: 1, y_min: 1, x_max: 2, y_max: 2 }));
    assert_eq!(bd.overwrite_cpu_pixels_from_gpu(), Some(region));
    assert_eq!(bd.overwrite_cpu_pixels_from_gpu(), None);
    assert!(bd.can_read(region));
}

#[test]
fn threshold_operations_parse_and_compare() {
    assert_eq!(ThresholdOperation::from_wstr(b"=="), Some(ThresholdOperation::Equals));
    assert_eq!(ThresholdOperation::from_wstr(b"!="), Some(ThresholdOperation::NotEquals));
    assert_eq!(ThresholdOperation::from_wstr(b"<"), Some(ThresholdOperation::LessThan));
    assert_eq!(ThresholdOperation::from_wstr(b"<="),
        Some(ThresholdOperation::LessThanOrEquals));
    assert_eq!(ThresholdOperation::from_wstr(b">"), Some(ThresholdOperation::GreaterThan));
    assert_eq!(ThresholdOperation::from_wstr(b">="),
        Some(ThresholdOperation::GreaterThanOrEquals));
    assert_eq!(ThresholdOperation::from_wstr(b"<>"), None);
    assert!(ThresholdOperation::LessThan.matches(1, 2));
    assert!(!ThresholdOperation::LessThan.matches(2, 2));
    assert!(ThresholdOperation::GreaterThanOrEquals.matches(2, 2));
    assert!(ThresholdOperation::NotEquals.matches(1, 2));
}

#[test]
fn new_with_pixels_wraps_the_buffer() {
    let pixels = vec![Color(1), Color(2), Color(3), Color(4)];
    let bd = BitmapData::new_with_pixels(2, 2, false, pixels);
    assert_eq!(bd.get_pixel32_raw(1, 1).0, 4);
    assert_eq!(bd.pixels_rgba().len(), 16);
    let rgba = bd.pixels_rgba();
    // pixel 0 has the word 1: blue channel 1, others 0
    assert_eq!(&rgba[0..4], &[0, 0, 1, 0]);
}
