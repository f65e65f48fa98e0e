use face_auth::display::{
    pack_pixel, pack_pixels, surface_pixels, DisplayAction, DisplayLoop, RENDER_PAUSE_MILLIS,
    SURFACE_HEIGHT, SURFACE_PIXELS, SURFACE_WIDTH,
};
use face_auth::frame::Frame;

#[test]
fn surface_is_640_by_480() {
    assert_eq!(SURFACE_WIDTH, 640);
    assert_eq!(SURFACE_HEIGHT, 480);
    assert_eq!(SURFACE_PIXELS, 640 * 480);
    assert_eq!(RENDER_PAUSE_MILLIS, 33);
}

#[test]
fn pixel_holds_red_green_blue_from_high_to_low() {
    assert_eq!(pack_pixel(0x12, 0x34, 0x56), 0x0012_3456);
    assert_eq!(pack_pixel(0, 0, 0), 0);
    assert_eq!(pack_pixel(255, 255, 255), 0x00FF_FFFF);
    assert_eq!(pack_pixel(255, 0, 0), 0x00FF_0000);
    assert_eq!(pack_pixel(0, 255, 0), 0x0000_FF00);
    assert_eq!(pack_pixel(0, 0, 255), 0x0000_00FF);
    assert_eq!(pack_pixel(1, 2, 3), 65536 + 2 * 256 + 3);
}

#[test]
fn raster_is_packed_pixel_by_pixel() {
    assert_eq!(pack_pixels(&[1, 2, 3, 4, 5, 6]), vec![0x0001_0203, 0x0004_0506]);
    assert!(pack_pixels(&[]).is_empty());
}

#[test]
fn samples_behind_the_last_whole_pixel_are_left_out() {
    assert_eq!(pack_pixels(&[1, 2, 3, 4, 5]), vec![0x0001_0203]);
    assert!(pack_pixels(&[9, 9]).is_empty());
}

#[test]
fn no_frame_gives_a_black_surface() {
    let pixels = surface_pixels(None);
    assert_eq!(pixels.len(), 307_200);
    assert!(pixels.iter().all(|&pixel| pixel == 0));
}

#[test]
fn a_plain_frame_fills_the_surface_with_its_colour() {
    let frame = Frame::from_raw(2, 2, [10u8, 20, 30].repeat(4)).unwrap();
    let pixels = surface_pixels(Some(&frame));
    assert_eq!(pixels.len(), 307_200);
    assert!(pixels.iter().all(|&pixel| pixel == 0x000A_141E));
}

#[test]
fn a_frame_is_stretched_as_the_image_crate_stretches_it() {
    let samples: Vec<u8> = (0..(5 * 3 * 3)).map(|i| (i * 5) as u8).collect();
    let frame = Frame::from_raw(5, 3, samples.clone()).unwrap();
    let source = image::RgbImage::from_raw(5, 3, samples).unwrap();
    let expected: Vec<u32> =
        image::imageops::resize(&source, 640, 480, image::imageops::FilterType::Nearest)
            .pixels()
            .map(|p| (u32::from(p[0]) << 16) | (u32::from(p[1]) << 8) | u32::from(p[2]))
            .collect();
    let pixels = surface_pixels(Some(&frame));
    assert_eq!(pixels, expected);
    // The left upper corner shows the first pixel, the right lower corner the last.
    assert_eq!(pixels[0], pack_pixel(0, 5, 10));
    assert_eq!(pixels[307_199], pack_pixel(210, 215, 220));
}

#[test]
fn a_frame_of_the_surface_size_is_shown_as_it_is() {
    let samples: Vec<u8> = (0..(640 * 480 * 3)).map(|i| (i % 251) as u8).collect();
    let frame = Frame::from_raw(640, 480, samples.clone()).unwrap();
    assert_eq!(surface_pixels(Some(&frame)), pack_pixels(&samples));
}

#[test]
fn an_empty_frame_gives_a_black_surface() {
    let frame = Frame::from_raw(0, 0, Vec::new()).unwrap();
    let pixels = surface_pixels(Some(&frame));
    assert_eq!(pixels.len(), 307_200);
    assert!(pixels.iter().all(|&pixel| pixel == 0));
}

#[test]
fn display_renders_while_nothing_ends_it() {
    let mut display = DisplayLoop::new();
    assert!(!display.is_stopped());
    assert_eq!(display.poll(true, false, false), DisplayAction::Render);
    assert_eq!(display.rendered(true), DisplayAction::Pause(33));
    assert_eq!(display.poll(true, false, false), DisplayAction::Render);
    assert!(!display.is_stopped());
}

#[test]
fn display_stops_on_the_shutdown_signal() {
    let mut display = DisplayLoop::new();
    assert_eq!(display.poll(true, false, true), DisplayAction::Stop);
    assert!(display.is_stopped());
}

#[test]
fn display_stops_when_the_operator_quits() {
    let mut display = DisplayLoop::new();
    assert_eq!(display.poll(true, true, false), DisplayAction::Stop);
    assert!(display.is_stopped());
}

#[test]
fn display_stops_when_the_surface_is_closed() {
    let mut display = DisplayLoop::new();
    assert_eq!(display.poll(false, false, false), DisplayAction::Stop);
    assert!(display.is_stopped());
}

#[test]
fn display_stops_when_the_surface_fails() {
    let mut display = DisplayLoop::new();
    assert_eq!(display.poll(true, false, false), DisplayAction::Render);
    assert_eq!(display.rendered(false), DisplayAction::Stop);
    assert!(display.is_stopped());
}

#[test]
fn stopped_display_stays_stopped() {
    let mut display = DisplayLoop::new();
    assert_eq!(display.poll(true, false, true), DisplayAction::Stop);
    assert_eq!(display.poll(true, false, false), DisplayAction::Stop);
    assert_eq!(display.rendered(true), DisplayAction::Stop);
    assert!(display.is_stopped());
}
