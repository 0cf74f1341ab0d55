use breakpoints::scanner::log::ScanLog;
use breakpoints::scanner::walk::{
    enters_directory, extension, file_name, file_stem, is_drupal_core, join_path, rel_string,
    skip_dir, skip_hidden, worth_keeping, Disk, Fetch, FileIndex, ReadBudget, WalkEntry,
};

#[test]
fn only_files_a_detector_asks_for_are_kept() {
    for keep in [
        "src/styles.css",
        "themes/x/_layout.scss",
        "tailwind.config.ts",
        "web/themes/x/x.breakpoints.yml",
        "package.json",
        ".ddev/config.yaml",
    ] {
        assert!(worth_keeping(keep), "{keep}");
    }
    for drop in ["src/main.ts", "README.md", "web/index.php", "logo.png"] {
        assert!(!worth_keeping(drop), "{drop}");
    }
}

#[test]
fn hidden_directories_are_skipped_except_ddev() {
    assert!(skip_hidden(".git"));
    assert!(skip_hidden(".twprobe"));
    assert!(!skip_hidden(".ddev"));
    assert!(!skip_hidden("themes"));
}

#[test]
fn a_drupal_docroot_core_is_recognised_but_a_js_src_core_is_not() {
    assert!(is_drupal_core("/p/web/core", false));
    assert!(is_drupal_core("/p/docroot/core", false));
    assert!(!is_drupal_core("/p/src/core", false));
    assert!(!is_drupal_core("/p/web/themes", false));
}

#[test]
fn a_path_comes_apart_the_way_the_file_system_reads_it() {
    assert_eq!(file_name("a/b.css").as_deref(), Some("b.css"));
    assert_eq!(extension("a/b.css").as_deref(), Some("css"));
    assert_eq!(extension(".gitignore"), None);
    assert_eq!(file_stem("a/tailwind.config.js").as_deref(), Some("tailwind.config"));
    assert_eq!(join_path("/p", "a.css"), "/p/a.css");
    assert_eq!(rel_string("/p", "/p/a/b.css"), "a/b.css");
}

#[test]
fn what_other_people_wrote_is_not_walked_into() {
    assert!(skip_dir("node_modules"));
    assert!(!skip_dir("src"));
    assert!(!enters_directory("node_modules", "/p/node_modules", false));
    assert!(enters_directory("src", "/p/src", false));
    assert!(!enters_directory("core", "/p/web/core", true));
}

#[test]
fn a_walk_keeps_what_is_worth_reading_and_counts_the_rest() {
    let mut log = ScanLog::new("test", "now");
    let entries = vec![
        (WalkEntry::File { rel: "a.css".into(), bytes: Some(10) }, 0),
        (WalkEntry::File { rel: "a.png".into(), bytes: Some(10) }, 0),
        (WalkEntry::NotAFile, 0),
    ];
    let index = FileIndex::build("/p", entries, 1, &mut log);
    assert_eq!(index.files, vec!["a.css".to_string()]);
    assert!(!index.truncated);
    assert_eq!(index.by_extension(&vec!["css".into()]), vec!["a.css".to_string()]);
    assert_eq!(index.by_name("a.css"), vec!["a.css".to_string()]);
    assert_eq!(index.absolute("a.css"), "/p/a.css");
}

#[test]
fn the_read_budget_only_shrinks_by_what_is_read() {
    let mut log = ScanLog::new("test", "now");
    let disk = Disk {
        files: vec![
            ("a.css".into(), Fetch::Text("body {}".into())),
            ("b.css".into(), Fetch::Failed("no".into())),
        ],
    };
    let mut budget = ReadBudget::new();
    assert_eq!(budget.read(&disk, "a.css", &mut log).as_deref(), Some("body {}"));
    assert_eq!(budget.read(&disk, "b.css", &mut log), None);
    assert!(!budget.spent());
}

#[test]
fn a_path_comes_back_from_its_place_on_disk() {
    for root in ["/p/site", "/p/site/", "site", ".", "/"] {
        let index = FileIndex {
            root: root.into(),
            files: vec![],
            scanned: 0,
            skipped: 0,
            truncated: false,
        };
        assert_eq!(rel_string(root, &index.absolute("a/b c/d.css")), "a/b c/d.css", "{root}");
    }
    assert_eq!(rel_string("/p/site", "/q/a.css"), "/q/a.css");
    assert_eq!(rel_string("/p/site", "/p/sites/a.css"), "/p/sites/a.css");
}
