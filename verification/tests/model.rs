use breakpoints::fits_on_a_screen;
use breakpoints::model::{
    fallback_viewports, slug_id, AppConfig, UrlStatus, VerticalAlign, Viewport, WindowGeometry,
};
use breakpoints::Screen;

fn px(v: f64) -> i64 {
    (v * 1_000_000.0).round() as i64
}

/// Somebody who worked with stretched panels keeps them after the update.
#[test]
fn the_old_full_height_boolean_becomes_stretch() {
    let mut config = AppConfig::default();
    config.legacy_full_height = Some(true);
    config.migrate();
    assert_eq!(config.vertical_align, VerticalAlign::Stretch);
    assert_eq!(config.legacy_full_height, None, "read once, never written back");
}

/// An explicit choice made after the update is not overwritten by the old
/// boolean sitting in the same file.
#[test]
fn a_new_choice_beats_the_old_boolean() {
    let mut config = AppConfig::default();
    config.legacy_full_height = Some(true);
    config.vertical_align = VerticalAlign::Center;
    config.migrate();
    assert_eq!(config.vertical_align, VerticalAlign::Center);
}

#[test]
fn only_stretch_replaces_the_declared_height() {
    assert!(VerticalAlign::Stretch.stretches());
    assert!(!VerticalAlign::Top.stretches());
    assert!(!VerticalAlign::Center.stretches());
}

/// The default is the one that claims least.
#[test]
fn top_is_the_default() {
    assert_eq!(VerticalAlign::default(), VerticalAlign::Top);
    assert_eq!(AppConfig::default().vertical_align, VerticalAlign::Top);
}

fn at(x: f64, y: f64, width: f64, height: f64) -> WindowGeometry {
    WindowGeometry { x: px(x), y: px(y), width: px(width), height: px(height) }
}

fn fits(geometry: WindowGeometry, width: f64, height: f64) -> bool {
    geometry.fits_within(px(width), px(height))
}

#[test]
fn a_window_on_the_screen_is_restored() {
    assert!(fits(at(100.0, 80.0, 1400.0, 900.0), 2560.0, 1440.0));
    assert!(fits(at(0.0, 0.0, 1400.0, 900.0), 1512.0, 982.0));
}

#[test]
fn a_window_left_on_a_monitor_that_is_gone_is_not_restored() {
    // Unplug the external display and a saved x of 2400 puts the window
    // somewhere nobody can reach, which reads as the app failing to launch.
    assert!(!fits(at(2400.0, 300.0, 1400.0, 900.0), 1512.0, 982.0));
    assert!(!fits(at(200.0, 1800.0, 1400.0, 900.0), 1512.0, 982.0));
}

#[test]
fn a_window_pushed_almost_entirely_off_the_left_or_top_is_not_restored() {
    assert!(!fits(at(-1390.0, 100.0, 1400.0, 900.0), 1512.0, 982.0));
    assert!(!fits(at(100.0, -890.0, 1400.0, 900.0), 1512.0, 982.0));
}

#[test]
fn a_window_hanging_off_an_edge_but_still_grabbable_is_restored() {
    // Partly off screen is a position someone chose, not a broken one.
    assert!(fits(at(1300.0, 100.0, 1400.0, 900.0), 1512.0, 982.0));
}

#[test]
fn a_saved_size_too_small_to_use_is_ignored() {
    assert!(!fits(at(100.0, 100.0, 200.0, 900.0), 2560.0, 1440.0));
    assert!(!fits(at(100.0, 100.0, 1400.0, 100.0), 2560.0, 1440.0));
}

fn screen(left: f64, top: f64, width: f64, height: f64) -> Screen {
    Screen { left: px(left), top: px(top), right: px(left + width), bottom: px(top + height) }
}

/// The one that was wrong. Nothing has told us about any screens yet, which
/// is not the same as the window not fitting on one, and treating them the
/// same made the app forget its position on every single launch.
#[test]
fn no_screens_known_is_not_a_reason_to_forget_where_the_window_was() {
    assert!(fits_on_a_screen(&at(61.0, 32.0, 5059.0, 1331.0), &[]));
}

#[test]
fn a_window_that_fits_the_screen_is_restored() {
    let screens = [screen(0.0, 0.0, 5120.0, 1440.0)];
    assert!(fits_on_a_screen(&at(61.0, 32.0, 5059.0, 1331.0), &screens));
    assert!(fits_on_a_screen(&at(0.0, 0.0, 1400.0, 900.0), &screens));
}

/// The case the check exists for: a display that is no longer plugged in.
#[test]
fn a_window_on_a_screen_that_is_gone_is_not_restored() {
    let laptop = [screen(0.0, 0.0, 1512.0, 982.0)];
    assert!(!fits_on_a_screen(&at(3000.0, 100.0, 1400.0, 900.0), &laptop));
    assert!(!fits_on_a_screen(&at(-2000.0, 0.0, 1400.0, 900.0), &laptop));
}

#[test]
fn a_second_screen_counts() {
    let both = [screen(0.0, 0.0, 1512.0, 982.0), screen(1512.0, 0.0, 2560.0, 1440.0)];
    assert!(fits_on_a_screen(&at(2000.0, 100.0, 1400.0, 900.0), &both));
}

#[test]
fn an_id_is_made_of_the_name_and_the_width() {
    assert_eq!(slug_id("Large Mobile", px(640.0)), "large-mobile-640");
    assert_ne!(slug_id("Tablet", px(768.0)), slug_id("Tablet", px(900.0)));
    let v = Viewport::new("Tablet", px(768.0), px(1020.0), "md");
    assert_eq!(v.id, "tablet-768");
    assert!(v.enabled);
    assert_eq!(v.reference, None);
}

#[test]
fn the_default_profile_is_the_standard_devices() {
    let config = AppConfig::default();
    assert_eq!(config.active_viewports().len(), fallback_viewports().len());
    assert_eq!(fallback_viewports().len(), 5);
    assert_eq!(UrlStatus::default(), UrlStatus::Unknown);
}

#[test]
fn migrating_twice_is_migrating_once() {
    let mut config = AppConfig::default();
    config.legacy_full_height = Some(true);
    config.migrate();
    config.vertical_align = VerticalAlign::Top;
    config.migrate();
    assert_eq!(config.vertical_align, VerticalAlign::Top);
}
