use breakpoints::scanner::drupal::CoreDirs;
use breakpoints::scanner::log::{log_file_name, prune, ScanLog};
use breakpoints::scanner::merge::{breakpoint_source_file, merge};
use breakpoints::scanner::types::{BreakpointDiscovery, Edge, FrameworkDetection, Kind};
use breakpoints::scanner::walk::{Disk, Fetch, FileIndex};
use breakpoints::scanner::{
    cache_key, friendly_source, scan, stamped_files, ScanCache, Stamp, Surroundings, Timings,
};

fn px(v: i64) -> i64 {
    v * 1_000_000
}

fn found(width: i64, file: &str) -> BreakpointDiscovery {
    BreakpointDiscovery {
        width: px(width),
        name: None,
        source: "test".into(),
        source_file: file.into(),
        line: None,
        confidence: 100,
        kind: Kind::Configured,
        edge: Edge::Min,
        file_count: 1,
    }
}

fn framework(file: &str) -> FrameworkDetection {
    FrameworkDetection {
        framework: "Tailwind CSS".into(),
        version: Some("4".into()),
        confidence: 100,
        source_file: file.into(),
        breakpoints: vec![],
        metadata: Default::default(),
    }
}

/// The case this exists for. Tailwind is detected first, from a stylesheet
/// that declares no breakpoints, while every width came out of Drupal's
/// yaml. Naming the stylesheet sent people to a file with nothing in it.
#[test]
fn the_file_named_is_the_one_the_widths_came_from() {
    let merged = vec![
        found(550, "web/themes/be_the_ray/be_the_ray.breakpoints.yml"),
        found(768, "web/themes/be_the_ray/be_the_ray.breakpoints.yml"),
        found(1024, "web/themes/be_the_ray/be_the_ray.breakpoints.yml"),
    ];
    let frameworks = vec![framework("web/themes/be_the_ray/css/styles.css")];
    assert_eq!(
        breakpoint_source_file(&merged, &frameworks),
        "web/themes/be_the_ray/be_the_ray.breakpoints.yml"
    );
}

#[test]
fn the_file_that_produced_the_most_of_them_wins() {
    let merged = vec![
        found(550, "a.css"),
        found(768, "b.yml"),
        found(1024, "b.yml"),
    ];
    assert_eq!(breakpoint_source_file(&merged, &vec![]), "b.yml");
}

/// With nothing found, the framework is still better than nothing, and
/// with no framework either there is still something to print.
#[test]
fn nothing_found_falls_back_rather_than_naming_an_empty_string() {
    assert_eq!(breakpoint_source_file(&vec![], &vec![framework("tailwind.css")]), "tailwind.css");
    assert_eq!(breakpoint_source_file(&vec![], &vec![]), "css media queries");
}

fn bp(width: i64, name: Option<&str>, kind: Kind, confidence: u32) -> BreakpointDiscovery {
    BreakpointDiscovery {
        width: px(width),
        name: name.map(str::to_string),
        source: "test".into(),
        source_file: "test".into(),
        line: None,
        confidence,
        kind,
        edge: Edge::Min,
        file_count: 1,
    }
}

#[test]
fn a_configured_width_beats_the_same_width_found_in_css() {
    let mut log = ScanLog::new("t", "now");
    let (merged, _) = merge(
        vec![
            bp(768, None, Kind::Css, 60),
            bp(768, Some("md"), Kind::Configured, 95),
        ],
        &mut log,
    );
    assert_eq!(merged.len(), 1);
    assert_eq!(merged[0].name.as_deref(), Some("md"));
    assert_eq!(merged[0].kind, Kind::Configured);
}

#[test]
fn merging_keeps_how_widely_a_width_is_used() {
    let mut log = ScanLog::new("t", "now");
    let mut css = bp(768, None, Kind::Css, 60);
    css.file_count = 9;
    let (merged, _) = merge(vec![css, bp(768, Some("md"), Kind::Configured, 95)], &mut log);
    assert_eq!(merged[0].file_count, 9);
}

#[test]
fn two_sources_naming_the_same_breakpoint_differently_is_a_conflict() {
    let mut log = ScanLog::new("t", "now");
    let (_, conflicts) = merge(
        vec![
            bp(1024, Some("lg"), Kind::Configured, 95),
            bp(992, Some("lg"), Kind::Css, 60),
        ],
        &mut log,
    );
    assert_eq!(conflicts.len(), 1);
    assert_eq!(conflicts[0].name, "lg");
}

#[test]
fn a_css_width_beside_a_configured_one_is_flagged_when_several_files_use_it() {
    let mut log = ScanLog::new("t", "now");
    let mut css = bp(992, None, Kind::Css, 60);
    css.file_count = 4;
    let (_, conflicts) = merge(vec![bp(1024, Some("lg"), Kind::Configured, 95), css], &mut log);
    assert_eq!(conflicts.len(), 1);
    assert_eq!(conflicts[0].right.width, px(992));
}

#[test]
fn a_one_off_css_width_near_a_configured_one_is_not_worth_a_question() {
    let mut log = ScanLog::new("t", "now");
    let (_, conflicts) = merge(
        vec![bp(1024, Some("lg"), Kind::Configured, 95), bp(992, None, Kind::Css, 60)],
        &mut log,
    );
    assert!(conflicts.is_empty());
}

#[test]
fn a_whole_project_is_read_from_what_is_in_it() {
    let files = vec!["package.json".to_string(), "src/a.css".into(), "tailwind.config.js".into()];
    let index = FileIndex {
        root: "/sites/shop".into(),
        files,
        scanned: 3,
        skipped: 0,
        truncated: false,
    };
    let disk = Disk {
        files: vec![
            (
                "package.json".into(),
                Fetch::Text(r#"{"devDependencies":{"tailwindcss":"^3.4.0","vite":"^5.0.0"}}"#.into()),
            ),
            ("src/a.css".into(), Fetch::Text("@media (min-width: 900px) { a {} }\n".into())),
            (
                "tailwind.config.js".into(),
                Fetch::Text("module.exports = { theme: { screens: { md: '768px' } } }".into()),
            ),
        ],
    };
    let outcome = scan(
        "/sites/shop",
        &index,
        Surroundings {
            dirs: CoreDirs { web: false, docroot: false, core_lib: false },
            late: false,
        },
        &disk,
        Timings { tailwind: 1, drupal: 1, css: 1, devserver: 1, total: 4 },
        ScanLog::new("shop", "now"),
    );
    assert_eq!(outcome.report.project_name, "shop");
    let widths: Vec<i64> = outcome.report.breakpoints.iter().map(|b| b.width).collect();
    assert_eq!(widths, vec![px(768), px(900)]);
    assert_eq!(outcome.report.frameworks.len(), 1);
    assert_eq!(outcome.report.source_hash.len(), 8);
    assert!(outcome.report.dev_servers.iter().any(|d| d.url == "http://localhost:5173"));
    assert!(!outcome.rows.is_empty());
    assert!(!outcome.log.entries().is_empty());
}

#[test]
fn a_cached_scan_is_the_one_that_was_kept_and_only_while_nothing_changed() {
    let mut cache = ScanCache::new();
    let stamp = |secs| vec![Stamp { name: "package.json".into(), modified_secs: secs, bytes: 10 }];
    let index = FileIndex {
        root: "/p".into(),
        files: vec![],
        scanned: 0,
        skipped: 0,
        truncated: false,
    };
    let outcome = scan(
        "/p",
        &index,
        Surroundings {
            dirs: CoreDirs { web: false, docroot: false, core_lib: false },
            late: false,
        },
        &Disk { files: vec![] },
        Timings { tailwind: 0, drupal: 0, css: 0, devserver: 0, total: 0 },
        ScanLog::new("p", "now"),
    );
    assert!(outcome.report.breakpoints.is_empty());
    let key = cache_key(&stamp(1));
    cache.remember("/p", &key, outcome.report);
    assert!(cache.cached("/p", &key).is_some());
    assert!(cache.cached("/p", &cache_key(&stamp(2))).is_none());
    assert!(cache.cached("/q", &key).is_none());
    assert!(stamped_files().contains(&"package.json"));
}

#[test]
fn a_log_is_named_after_its_project_and_old_ones_go() {
    let name = log_file_name("shop", 1_757_376_000_000);
    assert!(name.contains("shop"), "{name}");
    let names: Vec<String> = (0..5).map(|i| log_file_name("shop", 1_757_376_000_000 + i * 60_000)).collect();
    let gone = prune(&names, "shop", 3);
    assert_eq!(gone.len(), 2);
    assert!(!gone.contains(&names[4]), "the newest is kept");
}

#[test]
fn a_source_is_named_the_way_a_person_would() {
    assert!(!friendly_source("package.json vite").is_empty());
}
