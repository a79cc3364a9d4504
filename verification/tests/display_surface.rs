use chip8::display::Chip8Display;

#[test]
fn new_display_is_dark() {
    let d = Chip8Display::new();
    assert_eq!(d.video_buffer.len(), 2048);
    for x in 0..64u8 {
        for y in 0..32u8 {
            assert!(!d.get_pixel(x, y));
        }
    }
}

#[test]
fn xor_pixel_toggles_and_reports_collision() {
    let mut d = Chip8Display::new();
    // Lighting a dark pixel is no collision.
    assert!(!d.xor_pixel(10, 20, 0xFF));
    assert!(d.get_pixel(10, 20));
    // A dark incoming bit leaves the pixel alone.
    assert!(!d.xor_pixel(10, 20, 0x00));
    assert!(d.get_pixel(10, 20));
    // Erasing the lit pixel is the collision case.
    assert!(d.xor_pixel(10, 20, 0xFF));
    assert!(!d.get_pixel(10, 20));
}

#[test]
fn xor_pixel_wraps_coordinates() {
    let mut d = Chip8Display::new();
    assert!(!d.xor_pixel(70, 40, 0xFF));
    assert!(d.get_pixel(6, 8));
    assert!(d.xor_pixel(6, 8, 0x01));
    assert!(!d.get_pixel(70, 40));
}

#[test]
fn set_pixel_forces_a_state() {
    let mut d = Chip8Display::new();
    d.set_pixel(63, 31, true);
    assert!(d.get_pixel(63, 31));
    d.set_pixel(63, 31, false);
    assert!(!d.get_pixel(63, 31));
}

#[test]
fn clear_darkens_everything() {
    let mut d = Chip8Display::new();
    d.set_pixel(1, 1, true);
    d.set_pixel(40, 17, true);
    d.clear();
    for x in 0..64u8 {
        for y in 0..32u8 {
            assert!(!d.get_pixel(x, y));
        }
    }
}

#[test]
fn checkerboard_alternates() {
    let mut d = Chip8Display::new();
    d.set_checkerboard(true);
    assert!(d.get_pixel(0, 0));
    assert!(!d.get_pixel(1, 0));
    assert!(!d.get_pixel(0, 1));
    assert!(d.get_pixel(1, 1));
    d.set_checkerboard(false);
    assert!(!d.get_pixel(0, 0));
    assert!(d.get_pixel(1, 0));
}

#[test]
fn some_pixels_light_product_cells() {
    let mut d = Chip8Display::new();
    d.set_some_pixels();
    // 20 * 20 = 400 -> column 16, row 6.
    assert_eq!(d.video_buffer[400], 0xFF);
    // 39 * 39 = 1521 is lit too.
    assert_eq!(d.video_buffer[1521], 0xFF);
    // 401 is prime, so no pair of factors in [20, 40) reaches it.
    assert_eq!(d.video_buffer[401], 0x00);
}

#[test]
fn emulator_test_pattern_toggles_a_block() {
    let mut c8 = chip8::Chip8::new();
    c8.test();
    for x in 0..8u8 {
        for y in 0..8u8 {
            assert!(c8.chip8_display.get_pixel(x, y));
        }
    }
    assert!(!c8.chip8_display.get_pixel(8, 0));
    assert!(!c8.chip8_display.get_pixel(0, 8));
    // A second pass erases the block again: the pattern is an XOR.
    c8.test();
    for x in 0..8u8 {
        for y in 0..8u8 {
            assert!(!c8.chip8_display.get_pixel(x, y));
        }
    }
}
