use image::{DynamicImage, ImageFormat, Rgba, RgbaImage};
use salmon_watch::tray::{
    alpha_over, compose_initialization_icon, compose_overlay, decode_icon, IconError, IconFiles,
    OverallState, Pixel, Raster, TrayFlashController, TrayIcons, TrayState,
};
use std::io::Cursor;

fn mock_state() -> TrayState {
    TrayState {
        alerting: OverallState::Warning,
        unknown_server_count: 0,
        server_count: 2,
        alerting_count: 2,
        snoozed: Some(OverallState::Warning),
        snoozed_count: 1,
    }
}

fn pixel(red: u8, green: u8, blue: u8, alpha: u8) -> Pixel {
    Pixel { red, green, blue, alpha }
}

fn filled(width: u32, height: u32, pixel: Pixel) -> Raster {
    Raster::from_pixels(width, height, vec![pixel; (width * height) as usize]).unwrap()
}

#[test]
fn status_title_uses_expected_counts() {
    let mut state = mock_state();
    state.alerting_count = 0;
    state.snoozed_count = 0;
    assert_eq!(state.status_title(), "Status: 0 incidents");
    state.alerting_count = 1;
    assert_eq!(state.status_title(), "Status: 1 incident");
    state.alerting_count = 2;
    state.snoozed_count = 1;
    assert_eq!(state.status_title(), "Status: 2 incidents + 1 snoozed");
}

#[test]
fn alert_states_flash_but_ok_and_unknown_do_not() {
    let mut state = mock_state();
    for overall in [OverallState::InternalError, OverallState::Warning, OverallState::Error] {
        state.alerting = overall;
        assert!(state.is_flashing());
    }
    for overall in [OverallState::Unknown, OverallState::Okay] {
        state.alerting = overall;
        assert!(!state.is_flashing());
    }
}

#[test]
fn overlay_respects_transparency() {
    let base = filled(4, 4, pixel(0, 0, 255, 255));
    let mut points = vec![pixel(0, 0, 0, 0); 16];
    points[0] = pixel(255, 0, 0, 128);
    let overlay = Raster::from_pixels(4, 4, points).unwrap();
    let result = compose_overlay(&base, &overlay).unwrap();

    assert_eq!(result.get_pixel(2, 2), pixel(0, 0, 255, 255));
    let mixed = result.get_pixel(3, 3);
    assert_eq!(mixed.alpha, 255);
    assert!(mixed.red > 0);
    assert!(mixed.blue > 0);
}

#[test]
fn colours_are_mixed_by_opacity() {
    assert_eq!(
        alpha_over(pixel(255, 0, 0, 128), pixel(0, 0, 255, 255)),
        pixel(128, 0, 127, 255)
    );
    assert_eq!(alpha_over(pixel(9, 9, 9, 0), pixel(1, 2, 3, 4)), pixel(1, 2, 3, 4));
    assert_eq!(alpha_over(pixel(9, 8, 7, 255), pixel(1, 2, 3, 4)), pixel(9, 8, 7, 255));
    assert_eq!(alpha_over(pixel(9, 8, 7, 0), pixel(1, 2, 3, 0)), pixel(0, 0, 0, 0));
}

#[test]
fn overlays_cover_the_lower_right_corner_only() {
    let base = filled(10, 10, pixel(1, 1, 1, 255));
    let overlay = filled(2, 2, pixel(9, 9, 9, 255));
    let result = compose_overlay(&base, &overlay).unwrap();
    for y in 0..10 {
        for x in 0..10 {
            let expected = if x >= 7 && y >= 7 { pixel(9, 9, 9, 255) } else { pixel(1, 1, 1, 255) };
            assert_eq!(result.get_pixel(x, y), expected);
        }
    }
    let tiny = filled(3, 3, pixel(1, 1, 1, 255));
    assert_eq!(compose_overlay(&tiny, &overlay).unwrap(), tiny);
}

#[test]
fn each_refusal_of_an_icon_is_told() {
    let empty = Raster::from_pixels(0, 3, Vec::new()).unwrap();
    let base = filled(2, 2, pixel(1, 1, 1, 255));
    let error = compose_overlay(&base, &empty).unwrap_err();
    assert_eq!(error, IconError::Empty);
    assert_eq!(error.message(), "tray icons must not be empty");

    let wide = filled(3, 2, pixel(1, 1, 1, 255));
    let error = compose_initialization_icon(&base, &wide, 1, 2, &vec![0; 4]).unwrap_err();
    assert_eq!(error.message(), "tray icon dimensions differ: (2, 2) and (3, 2)");

    let mut points = vec![pixel(1, 1, 1, 255); 4];
    points[2].alpha = 254;
    let other = Raster::from_pixels(2, 2, points).unwrap();
    let error = compose_initialization_icon(&base, &other, 1, 2, &vec![0; 4]).unwrap_err();
    assert_eq!(error, IconError::Alpha { x: 0, y: 1 });
    assert_eq!(error.message(), "initialization tray icon alpha channels differ at (0, 1)");

    let error = decode_icon(b"no image").unwrap_err();
    assert!(error.message().starts_with("failed to decode tray icon: "));
    assert!(Raster::from_pixels(2, 2, Vec::new()).is_none());
}

#[test]
fn unknown_servers_show_by_their_samples() {
    let okay = filled(2, 1, pixel(0, 160, 0, 255));
    let unknown = filled(2, 1, pixel(160, 0, 0, 255));
    assert_eq!(compose_initialization_icon(&okay, &unknown, 0, 4, &Vec::new()).unwrap(), okay);
    assert_eq!(compose_initialization_icon(&okay, &unknown, 4, 4, &Vec::new()).unwrap(), unknown);
    assert_eq!(compose_initialization_icon(&okay, &unknown, 0, 0, &Vec::new()).unwrap(), unknown);
    let mixed = compose_initialization_icon(&okay, &unknown, 1, 4, &vec![4, 16]).unwrap();
    assert_eq!(mixed.get_pixel(0, 0), pixel(40, 120, 0, 255));
    assert_eq!(mixed.get_pixel(1, 0), pixel(160, 0, 0, 255));
}

fn png(colour: [u8; 4]) -> Vec<u8> {
    let image = DynamicImage::ImageRgba8(RgbaImage::from_pixel(40, 40, Rgba(colour)));
    let mut bytes = Cursor::new(Vec::new());
    image.write_to(&mut bytes, ImageFormat::Png).unwrap();
    bytes.into_inner()
}

fn icons() -> TrayIcons {
    let (gray, green, magenta) =
        (png([90, 90, 90, 255]), png([0, 200, 0, 255]), png([200, 0, 200, 255]));
    let (yellow, red, clear) = (png([200, 200, 0, 255]), png([200, 0, 0, 255]), png([0, 0, 0, 0]));
    TrayIcons::load(&IconFiles {
        unknown: &gray,
        okay: &green,
        internal_error: &magenta,
        warning: &yellow,
        error: &red,
        transparent: &clear,
    })
    .unwrap()
}

#[test]
fn images_are_decoded_point_by_point() {
    let image = RgbaImage::from_fn(3, 2, |x, y| Rgba([x as u8, y as u8, 7, 255]));
    let mut bytes = Cursor::new(Vec::new());
    DynamicImage::ImageRgba8(image).write_to(&mut bytes, ImageFormat::Png).unwrap();
    let raster = decode_icon(&bytes.into_inner()).unwrap();
    assert_eq!((raster.width(), raster.height()), (3, 2));
    assert_eq!(raster.get_pixel(2, 1), pixel(2, 1, 7, 255));
    assert_eq!(raster.get_pixel(1, 0), pixel(1, 0, 7, 255));
    assert_eq!(raster.pixels().len(), 6);
}

#[test]
fn icons_show_the_alert_and_the_snoozed_state() {
    let icons = icons();
    let none = Vec::new();
    let icon = icons
        .rgba_icon(TrayState { alerting: OverallState::Error, ..mock_state() }, &none)
        .unwrap();
    assert_eq!((icon.width(), icon.height()), (40, 40));
    assert_eq!(icon.get_pixel(0, 0), pixel(200, 0, 0, 255));
    assert_eq!(icon.get_pixel(39, 39), pixel(200, 200, 0, 255));
    let plain = TrayState { snoozed: None, snoozed_count: 0, ..mock_state() };
    assert_eq!(icons.rgba_icon(plain, &none).unwrap(), icons.warning);
    let unknown = TrayState { alerting: OverallState::Unknown, ..plain };
    assert_eq!(icons.rgba_icon(unknown, &none).unwrap(), icons.okay);
    let all = TrayState { unknown_server_count: 2, ..unknown };
    assert_eq!(icons.rgba_icon(all, &none).unwrap(), icons.unknown);
    let half = TrayState { unknown_server_count: 1, ..unknown };
    let icon = icons.rgba_icon(half, &vec![8; 1600]).unwrap();
    assert_eq!(icon.get_pixel(5, 5), pixel(45, 145, 45, 255));
}

#[test]
fn the_first_unreadable_icon_is_told() {
    let fine = png([0, 0, 0, 255]);
    let outcome = TrayIcons::load(&IconFiles {
        unknown: &fine,
        okay: &fine,
        internal_error: b"",
        warning: &fine,
        error: b"",
        transparent: &fine,
    });
    assert!(matches!(outcome, Err(IconError::Undecodable(_))));
}

#[test]
fn flashing_keeps_its_cadence_until_the_state_changes() {
    let mut flash = TrayFlashController::default();
    let first = flash.apply(mock_state()).unwrap();
    assert!(flash.is_flashing(first));
    assert_eq!(flash.tick(first), Some(false));
    assert_eq!(flash.apply(mock_state()), None);
    assert_eq!(flash.tick(first), Some(true));
    let second =
        flash.apply(TrayState { alerting: OverallState::Error, ..mock_state() }).unwrap();
    assert_eq!(flash.tick(first), None);
    assert_eq!(flash.tick(second), Some(false));
    let calm = flash.apply(TrayState { alerting: OverallState::Okay, ..mock_state() }).unwrap();
    assert!(!flash.is_flashing(calm));
    assert_eq!(flash.tick(calm), None);
}

/// How many of the sixteen samples of each point lie in the part of unknown servers, which ends
/// at the top and starts clockwise after the part of the known ones.
fn sample_counts(width: u32, height: u32, unknown: usize, total: usize) -> Vec<u8> {
    let known_angle = std::f64::consts::TAU * (total - unknown) as f64 / total as f64;
    let (center_x, center_y) = (f64::from(width) / 2.0, f64::from(height) / 2.0);
    let mut counts = Vec::new();
    for y in 0..height {
        for x in 0..width {
            let mut count = 0;
            for sample in 0..16 {
                let x_offset = f64::from(x) + (f64::from(sample % 4) + 0.5) / 4.0 - center_x;
                let y_offset = f64::from(y) + (f64::from(sample / 4) + 0.5) / 4.0 - center_y;
                let mut angle = x_offset.atan2(-y_offset);
                if angle < 0.0 {
                    angle += std::f64::consts::TAU;
                }
                if angle >= known_angle {
                    count += 1;
                }
            }
            counts.push(count);
        }
    }
    counts
}

#[test]
fn initialization_icon_uses_known_fraction() {
    let icons = icons();
    let base_state = TrayState {
        alerting: OverallState::Unknown,
        server_count: 4,
        snoozed: None,
        snoozed_count: 0,
        ..mock_state()
    };
    let icon = |unknown_server_count: usize| {
        let samples = sample_counts(40, 40, unknown_server_count, 4);
        icons.rgba_icon(TrayState { unknown_server_count, ..base_state }, &samples).unwrap()
    };
    assert_eq!(icon(4), icons.unknown);
    assert_eq!(icon(0), icons.okay);

    let one_unknown = icon(1);
    assert_eq!(one_unknown.get_pixel(25, 10), icons.okay.get_pixel(25, 10));
    assert_eq!(one_unknown.get_pixel(10, 15), icons.unknown.get_pixel(10, 15));
}
