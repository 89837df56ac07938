use chip8::chip8::Chip8;
use chip8::display::{
    Display, DisplayError, BACKGROUND, COLUMNS, FOREGROUND, HEIGHT, ROWS, SCALE, WIDTH,
};

#[test]
fn display_test_screen_full_use() {
    let mut display = Display::new();
    for i in 0..2048 {
        assert!(display.set_pixel(i, 1).is_ok());
    }
    assert!(display.set_pixel(2048, 1).is_err());
    assert!(display.set_pixel(0, 2).is_err());
    for i in 0..2048 {
        assert_eq!(display.get_pixel(i).unwrap(), 1);
    }
    for i in 0..2048 {
        assert!(display.set_pixel(i, 0).is_ok());
    }
    for i in 0..2048 {
        assert_eq!(display.get_pixel(i).unwrap(), 0);
    }
}

#[test]
fn display_errors_are_typed_and_change_nothing() {
    let mut display = Display::new();
    display.set_pixel(7, 1).unwrap();
    assert_eq!(display.set_pixel(7, 3), Err(DisplayError::InvalidPixelValue));
    assert_eq!(display.set_pixel(2048, 3), Err(DisplayError::InvalidPixelAccess));
    assert_eq!(display.set_pixel(2048, 1), Err(DisplayError::InvalidPixelAccess));
    assert_eq!(display.get_pixel(2048), Err(DisplayError::InvalidPixelAccess));
    assert_eq!(display.get_pixel(7), Ok(1));
    assert_eq!(display.get_pixel(8), Ok(0));
}

#[test]
fn geometry_is_fixed() {
    assert_eq!(SCALE, 20);
    assert_eq!(WIDTH, COLUMNS * SCALE);
    assert_eq!(HEIGHT, ROWS * SCALE);
    assert_eq!(FOREGROUND, 0xFFB000);
    assert_eq!(BACKGROUND, 0);
    let display = Display::default();
    assert_eq!(display.buffer().len(), 1280 * 640);
    assert!(display.buffer().iter().all(|c| *c == 0));
}

#[test]
fn a_single_lit_pixel_fills_its_block_only() {
    let mut display = Display::new();
    display.set_pixel(0, 1).unwrap();
    display.render();
    let device = display.buffer();
    assert_eq!(device.len(), WIDTH * HEIGHT);
    for py in 0..HEIGHT {
        for px in 0..WIDTH {
            let expected = if px < SCALE && py < SCALE { FOREGROUND } else { BACKGROUND };
            assert_eq!(device[py * WIDTH + px], expected, "device pixel ({px}, {py})");
        }
    }
    assert_eq!(device[19 * 1280 + 19], 0xFFB000);
    assert_eq!(device[19 * 1280 + 20], 0);
    assert_eq!(device[20 * 1280 + 19], 0);
}

#[test]
fn the_last_pixel_fills_the_last_block() {
    let mut display = Display::new();
    display.set_pixel(2047, 1).unwrap();
    display.render();
    let device = display.buffer();
    assert_eq!(device[639 * 1280 + 1279], FOREGROUND);
    assert_eq!(device[620 * 1280 + 1260], FOREGROUND);
    assert_eq!(device[619 * 1280 + 1260], BACKGROUND);
    assert_eq!(device[620 * 1280 + 1259], BACKGROUND);
    let lit = device.iter().filter(|c| **c == FOREGROUND).count();
    assert_eq!(lit, 400);
}

#[test]
fn render_follows_the_framebuffer_and_keeps_it() {
    let mut display = Display::new();
    display.set_pixel(65, 1).unwrap();
    display.render();
    assert_eq!(display.buffer()[20 * 1280 + 20], FOREGROUND);
    assert_eq!(display.get_pixel(65), Ok(1));
    display.set_pixel(65, 0).unwrap();
    // The device image changes at the next render, not before.
    assert_eq!(display.buffer()[20 * 1280 + 20], FOREGROUND);
    display.render();
    assert_eq!(display.buffer()[20 * 1280 + 20], BACKGROUND);
    assert!(display.buffer().iter().all(|c| *c == BACKGROUND));
}

#[test]
fn checkerboard_from_the_machine_state() {
    let mut chip = Chip8::new();
    for y in 0..32 {
        for x in 0..64 {
            if (x + y) % 2 == 0 {
                chip.set_pixel(y * 64 + x, 1).unwrap();
            }
        }
    }
    let mut display = Display::new();
    for i in 0..2048 {
        display.set_pixel(i, chip.get_pixel(i).unwrap()).unwrap();
    }
    display.render();
    let device = display.buffer();
    for py in 0..HEIGHT {
        for px in 0..WIDTH {
            let lit = (px / SCALE + py / SCALE) % 2 == 0;
            let expected = if lit { FOREGROUND } else { BACKGROUND };
            assert_eq!(device[py * WIDTH + px], expected, "device pixel ({px}, {py})");
        }
    }
}

#[test]
fn liveness_needs_an_open_surface_and_no_quit() {
    let display = Display::new();
    assert!(display.is_open(true, false));
    assert!(!display.is_open(true, true));
    assert!(!display.is_open(false, false));
    assert!(!display.is_open(false, true));
}
