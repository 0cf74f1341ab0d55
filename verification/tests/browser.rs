use breakpoints::browser::{args_for, open, Browser};
use breakpoints::commands::active_browser;

fn px(v: f64) -> i64 {
    (v * 1_000_000.0).round() as i64
}

fn args(browser: Browser, url: &str, width: f64, height: f64, profile: &str) -> Vec<String> {
    args_for(browser, url, px(width), px(height), profile)
}

#[test]
fn chromium_gets_app_mode_and_a_size() {
    let args = args(Browser::Chrome, "https://example.test/", 768.0, 1020.0, "/tmp/p");
    assert!(args.contains(&"--app=https://example.test/".to_string()));
    assert!(args.contains(&"--window-size=768,1020".to_string()));
    assert!(args.contains(&"--user-data-dir=/tmp/p".to_string()));
}

#[test]
fn brave_and_edge_take_the_same_flags_as_chrome() {
    let chrome = args(Browser::Chrome, "https://a.test/", 640.0, 800.0, "/tmp/p");
    for other in [Browser::Brave, Browser::Edge] {
        let args = args(other, "https://a.test/", 640.0, 800.0, "/tmp/p");
        assert_eq!(args, chrome, "{} should take Chrome's flags", other.app_name());
    }
}

#[test]
fn a_fractional_width_is_rounded_not_truncated() {
    // Panel widths are fractional and a zoomed panel's width is rarely whole.
    // Truncating 767.6 to 767 would open the browser one pixel below a
    // 768 breakpoint, which is the exact failure the panel layout code
    // already guards against.
    let args = args(Browser::Chrome, "https://a.test/", 767.6, 1020.4, "/tmp/p");
    assert!(args.contains(&"--window-size=768,1020".to_string()));
}

#[test]
fn firefox_takes_its_own_flags() {
    let args = args(Browser::Firefox, "https://a.test/", 550.0, 730.0, "/tmp/p");
    assert_eq!(
        args,
        vec!["-new-window", "https://a.test/", "-width", "550", "-height", "730"]
    );
}

#[test]
fn safari_gets_only_the_url() {
    let args = args(Browser::Safari, "https://a.test/", 550.0, 730.0, "/tmp/p");
    assert_eq!(args, vec!["https://a.test/"]);
    assert!(!Browser::Safari.can_size());
}

#[test]
fn browser_ids_round_trip() {
    for browser in Browser::all() {
        assert_eq!(Browser::from_id(browser.id()), Some(browser));
    }
    assert_eq!(Browser::from_id("netscape"), None);
}

#[test]
fn an_empty_url_is_refused_before_anything_is_launched() {
    let err = open(Browser::Chrome, "   ", px(800.0), px(600.0), "/tmp").unwrap_err();
    assert!(err.contains("no URL"), "{err}");
}

#[test]
fn a_running_copy_is_only_reused_where_nothing_is_sized() {
    let safari = open(Browser::Safari, "https://a.test/", px(800.0), px(600.0), "/tmp").unwrap();
    assert_eq!(safari, vec!["-a", "Safari", "https://a.test/"]);
    let chrome = open(Browser::Chrome, "https://a.test/", px(800.0), px(600.0), "/tmp").unwrap();
    assert_eq!(chrome[..4], ["-n", "-a", "Google Chrome", "--args"]);
    assert!(chrome.contains(&"--user-data-dir=/tmp/chrome".to_string()));
    assert_eq!(Browser::Edge.app_path(), "/Applications/Microsoft Edge.app");
}

#[test]
fn a_browser_that_is_gone_gives_way_to_the_first_there_is() {
    let there = vec![Browser::Firefox, Browser::Safari];
    assert_eq!(active_browser(&Some("safari".into()), &there), Some(Browser::Safari));
    assert_eq!(active_browser(&Some("chrome".into()), &there), Some(Browser::Firefox));
    assert_eq!(active_browser(&None, &there), Some(Browser::Firefox));
    assert_eq!(active_browser(&None, &vec![]), None);
}
