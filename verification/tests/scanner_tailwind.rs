use breakpoints::scanner::log::ScanLog;
use breakpoints::scanner::tailwind::{imports_tailwind, parse_v3, parse_v4};
use breakpoints::scanner::types::ScanWarning;

fn px(v: i64) -> i64 {
    v * 1_000_000
}

fn parse(src: &str) -> (Vec<(String, i64)>, Vec<ScanWarning>) {
    let mut log = ScanLog::new("test", "now");
    let mut warnings = Vec::new();
    let detection = parse_v3(src, "tailwind.config.js", &Some("3".into()), &mut log, &mut warnings);
    (
        detection
            .breakpoints
            .iter()
            .map(|b| (b.name.clone().unwrap_or_default(), b.width))
            .collect(),
        warnings,
    )
}

#[test]
fn a_plain_screens_object_replaces_the_defaults() {
    let (found, _) = parse(
        r#"module.exports = { theme: { screens: { sm: '600px', lg: '1100px' } } }"#,
    );
    assert_eq!(found, vec![("sm".into(), px(600)), ("lg".into(), px(1100))]);
}

#[test]
fn the_containers_own_screens_are_not_breakpoints() {
    // theme.container.screens holds max-widths, and `none` is a legal
    // value there. Reading it as breakpoints left a real project with
    // none at all and nothing in the log to say why.
    let (found, warnings) = parse(
        r#"module.exports = { theme: {
             container: { center: true, screens: { sm: 'none', md: 'none' } },
             extend: { colors: { brand: '#123' } },
           } }"#,
    );
    let widths: Vec<i64> = found.iter().map(|f| f.1).collect();
    assert_eq!(widths, vec![px(640), px(768), px(1024), px(1280), px(1536)]);
    assert!(warnings.is_empty(), "the defaults applying is not a warning");
}

#[test]
fn a_screens_object_that_reads_as_nothing_falls_back_and_says_so() {
    let (found, warnings) = parse(
        r#"module.exports = { theme: { screens: { sm: 'none', md: 'none' } } }"#,
    );
    let widths: Vec<i64> = found.iter().map(|f| f.1).collect();
    assert_eq!(widths, vec![px(640), px(768), px(1024), px(1280), px(1536)]);
    assert_eq!(warnings.len(), 1, "a silent zero is the bug being fixed");
}

#[test]
fn extending_keeps_the_defaults_and_adds_to_them() {
    let (found, _) = parse(
        r#"module.exports = { theme: { extend: { screens: { '3xl': '1800px' } } } }"#,
    );
    let widths: Vec<i64> = found.iter().map(|f| f.1).collect();
    assert!(widths.contains(&px(640)), "kept sm");
    assert!(widths.contains(&px(1536)), "kept 2xl");
    assert!(widths.contains(&px(1800)), "added 3xl");
    assert_eq!(widths.len(), 6);
}

#[test]
fn rem_screens_convert_at_a_sixteen_pixel_root() {
    let (found, _) = parse(r#"{ theme: { screens: { md: '48rem' } } }"#);
    assert_eq!(found, vec![("md".into(), px(768))]);
}

#[test]
fn object_screens_resolve_from_their_min() {
    let (found, _) = parse(r#"{ theme: { screens: { tablet: { min: '768px' } } } }"#);
    assert_eq!(found, vec![("tablet".into(), px(768))]);
}

#[test]
fn a_max_only_screen_renders_at_the_pixel_above_its_range() {
    let (found, _) = parse(r#"{ theme: { screens: { phone: { max: '767px' } } } }"#);
    assert_eq!(found, vec![("phone".into(), px(768))]);
}

#[test]
fn a_raw_query_is_dropped_rather_than_guessed_at() {
    let (found, _) = parse(r#"{ theme: { screens: { print: { raw: 'print' }, md: '768px' } } }"#);
    assert_eq!(found, vec![("md".into(), px(768))]);
}

#[test]
fn a_config_that_cannot_be_read_statically_produces_a_warning_not_a_silence() {
    let (_, warnings) = parse(r#"const s = require('./screens'); module.exports = { theme: { screens: s } }"#);
    assert_eq!(warnings.len(), 1);
    assert!(warnings[0].message.contains("theme.screens"));
    assert!(warnings[0].detail.iter().any(|d| d.contains("never runs them")));
}

#[test]
fn comments_around_a_screen_do_not_break_it() {
    let (found, _) = parse(
        "module.exports = {\n  theme: {\n    // the only one we use\n    screens: { md: '768px' /* tablet */ },\n  },\n}",
    );
    assert_eq!(found, vec![("md".into(), px(768))]);
}

#[test]
fn v4_reads_breakpoints_out_of_the_theme_block() {
    let mut log = ScanLog::new("test", "now");
    let detection = parse_v4(
        "@import \"tailwindcss\";\n@theme {\n  --breakpoint-md: 48rem;\n  --breakpoint-wide: 1600px;\n}",
        "src/styles.css",
        &mut log,
    );
    assert_eq!(detection.version.as_deref(), Some("4"));
    let widths: Vec<i64> = detection.breakpoints.iter().map(|b| b.width).collect();
    assert_eq!(widths, vec![px(768), px(1600)]);
}

#[test]
fn v4_with_no_overrides_falls_back_to_the_shipped_defaults() {
    let mut log = ScanLog::new("test", "now");
    let detection = parse_v4("@import \"tailwindcss\";", "src/app.css", &mut log);
    assert_eq!(detection.breakpoints.len(), 5);
}

#[test]
fn a_stylesheet_says_when_it_is_tailwinds() {
    assert!(imports_tailwind("@import \"tailwindcss\";"));
    assert!(!imports_tailwind("@import \"other\";"));
}
