use breakpoints::scanner::drupal::{is_drupal_source, run, CoreDirs};
use breakpoints::scanner::log::ScanLog;
use breakpoints::scanner::walk::{Disk, Fetch, FileIndex, ReadBudget};

fn parse_one(yaml: &str) -> Vec<(String, i64)> {
    let file = "web/themes/mytheme/mytheme.breakpoints.yml".to_string();
    let index = FileIndex {
        root: "/p".into(),
        files: vec![file.clone()],
        scanned: 1,
        skipped: 0,
        truncated: false,
    };
    let disk = Disk { files: vec![(file, Fetch::Text(yaml.into()))] };
    let mut log = ScanLog::new("test", "now");
    let mut budget = ReadBudget::new();
    let out = run(
        &index,
        CoreDirs { web: true, docroot: false, core_lib: false },
        &disk,
        &mut budget,
        &mut log,
    );
    let found = if out.frameworks.is_empty() { out.breakpoints } else {
        out.frameworks.into_iter().flat_map(|f| f.breakpoints).collect()
    };
    found
        .into_iter()
        .map(|b| (b.name.unwrap_or_default(), b.width))
        .collect()
}

#[test]
fn a_theme_breakpoints_file_yields_its_own_labels() {
    let found = parse_one(
        "mytheme.narrow:\n  label: narrow\n  mediaQuery: 'all and (min-width: 560px)'\n  weight: 1\nmytheme.wide:\n  label: wide\n  mediaQuery: 'all and (min-width: 851px)'\n",
    );
    assert_eq!(
        found,
        vec![("narrow".into(), 560_000_000), ("wide".into(), 851_000_000)]
    );
}

#[test]
fn the_base_breakpoint_with_no_media_query_is_not_a_width() {
    let found = parse_one("mytheme.mobile:\n  label: mobile\n  mediaQuery: ''\n");
    assert!(found.is_empty());
}

#[test]
fn a_breakpoints_file_is_known_by_its_source() {
    assert!(is_drupal_source("Drupal breakpoint mytheme.narrow"));
    assert!(!is_drupal_source("tailwind.config.js theme.screens"));
}
