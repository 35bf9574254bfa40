//! Bitmaps and the petal-matrix framebuffer: pixel addressing, bounds
//! handling, and the arm and status-channel bit layout.

use blinkybot::as1115::{petal_pixel, As1115};
use blinkybot::expression::Expression;

#[test]
fn set_and_get_pixel() {
    let mut e = Expression::new();
    assert!(!e.get_pixel(3, 2));
    e.set_pixel(3, 2, true);
    assert!(e.get_pixel(3, 2));
    assert_eq!(e.pixels[2], 1 << 3);
    // Only that pixel is lit.
    for y in 0..7 {
        for x in 0..15 {
            assert_eq!(e.get_pixel(x, y), x == 3 && y == 2);
        }
    }
    e.set_pixel(3, 2, false);
    assert_eq!(e.pixels, [0u16; 7]);
}

#[test]
fn out_of_range_pixels_are_ignored() {
    let mut e = Expression::new();
    e.set_pixel(15, 0, true);
    e.set_pixel(0, 7, true);
    e.set_pixel(1000, 1000, true);
    assert_eq!(e.pixels, [0u16; 7]);
    assert!(!e.get_pixel(15, 0));
    assert!(!e.get_pixel(0, 7));
}

#[test]
fn expression_equality_is_exact_bit_comparison() {
    let a = Expression { pixels: [1, 2, 3, 4, 5, 6, 7] };
    let b = Expression { pixels: [1, 2, 3, 4, 5, 6, 7] };
    let c = Expression { pixels: [1, 2, 3, 4, 5, 6, 8] };
    assert_eq!(a, b);
    assert_ne!(a, c);
}

#[test]
fn framebuffer_starts_dark_and_clears() {
    let mut fb = As1115::new();
    assert_eq!(fb.bytes(), vec![0u8; 8]);
    fb.set_arm(2, 5, true);
    fb.set_rgb(true, true, true);
    fb.clear();
    assert_eq!(fb.bytes(), vec![0u8; 8]);
}

#[test]
fn set_arm_addresses_one_bit() {
    let mut fb = As1115::new();
    fb.set_arm(2, 5, true);
    let bytes = fb.bytes();
    assert_eq!(bytes[2], 1 << 5);
    for (i, b) in bytes.iter().enumerate() {
        if i != 2 {
            assert_eq!(*b, 0);
        }
    }
    fb.set_arm(2, 5, false);
    assert_eq!(fb.bytes(), vec![0u8; 8]);
}

#[test]
fn set_arm_ignores_out_of_range_addresses() {
    let mut fb = As1115::new();
    fb.set_arm(8, 0, true);
    fb.set_arm(0, 7, true);
    assert_eq!(fb.bytes(), vec![0u8; 8]);
}

#[test]
fn rgb_channels_live_in_bit_seven_of_the_first_arms() {
    let mut fb = As1115::new();
    fb.set_arm(0, 1, true);
    fb.set_rgb(true, false, true);
    let bytes = fb.bytes();
    assert_eq!(bytes[0], 0x80 | (1 << 1));
    assert_eq!(bytes[1], 0);
    assert_eq!(bytes[2], 0x80);
    fb.set_rgb(false, false, false);
    assert_eq!(fb.bytes()[0], 1 << 1);
}

#[test]
fn petal_pixel_prefers_the_wheel() {
    assert_eq!(petal_pixel(0, 4), 4);
    assert_eq!(petal_pixel(0xff, 4), 7);
    assert_eq!(petal_pixel(0x20, 4), 1);
    assert_eq!(petal_pixel(0x1f, 4), 0);
}
