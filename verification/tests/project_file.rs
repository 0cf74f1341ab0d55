use breakpoints::model::Viewport;
use breakpoints::project_file::{
    file_to_read, find_block, find_table, is_there, parse_markdown, parse_number, render_markdown,
    row_cells, ProjectFile, BEGIN, JSON_NAME, MARKDOWN_NAME,
};

const SAMPLE: &str = r#"# Breakpoints

These come from the Tailwind config. Do not edit by hand unless you mean it.

| Name | Width | Height | Source |
|------|------:|-------:|--------|
| Mobile | 640 | 850 | sm |
| Tablet | 768 | 1020 | md |

Some notes underneath, which must survive a rewrite.

<!-- breakpoints:config
url: http://localhost:5173
zoomToFit: true
scrollSync: false
source: tailwind.config.js
sourceHash: 8f2a91c4
generated: 2026-09-09
-->
"#;

const TODAY: &str = "2026-09-10";

fn px(v: i64) -> i64 {
    v * 1_000_000
}

fn empty() -> ProjectFile {
    ProjectFile {
        viewports: vec![],
        url: None,
        zoom_to_fit: None,
        scroll_sync: None,
        source: None,
        source_hash: None,
        generated: None,
    }
}

#[test]
fn the_table_and_the_config_block_both_come_back() {
    let file = parse_markdown(SAMPLE).unwrap();
    assert_eq!(file.viewports.len(), 2);
    assert_eq!(file.viewports[1].name, "Tablet");
    assert_eq!(file.viewports[1].width, px(768));
    assert_eq!(file.viewports[1].source, "md");
    assert_eq!(file.url.as_deref(), Some("http://localhost:5173"));
    assert_eq!(file.scroll_sync, Some(false));
    assert_eq!(file.source_hash.as_deref(), Some("8f2a91c4"));
}

#[test]
fn rewriting_keeps_every_line_of_prose() {
    let mut file = parse_markdown(SAMPLE).unwrap();
    file.viewports.push(Viewport::new("Laptop", px(1024), px(770), "lg"));
    let out = render_markdown(Some(SAMPLE), &file, TODAY);
    assert!(out.contains("Do not edit by hand unless you mean it."));
    assert!(out.contains("Some notes underneath, which must survive a rewrite."));
    assert!(out.contains("| Laptop | 1024 | 770 | lg |"));
    // And it still round-trips.
    let again = parse_markdown(&out).unwrap();
    assert_eq!(again.viewports.len(), 3);
}

#[test]
fn a_rewrite_does_not_duplicate_the_table_or_the_block() {
    let file = parse_markdown(SAMPLE).unwrap();
    let once = render_markdown(Some(SAMPLE), &file, TODAY);
    let twice = render_markdown(Some(&once), &file, TODAY);
    assert_eq!(once, twice);
    assert_eq!(twice.matches("| Name | Width").count(), 1);
    assert_eq!(twice.matches(BEGIN).count(), 1);
}

#[test]
fn a_file_with_no_table_is_an_error_rather_than_an_empty_config() {
    assert!(parse_markdown("# Breakpoints\n\nNothing here yet.\n").is_err());
}

#[test]
fn prose_that_happens_to_use_pipes_is_not_mistaken_for_the_table() {
    let text = "Use | Name | Width | Height | in your head.\n\n| Name | Width | Height |\n|---|---|---|\n| Mobile | 640 | 850 |\n";
    let file = parse_markdown(text).unwrap();
    assert_eq!(file.viewports.len(), 1);
}

#[test]
fn a_reference_column_survives_a_round_trip() {
    let mut file = empty();
    let mut viewport = Viewport::new("Tablet", px(768), px(1020), "md");
    viewport.reference = Some("figma:Ab3x?node-id=12-88".into());
    file.viewports.push(viewport);
    let out = render_markdown(None, &file, TODAY);
    assert!(out.contains("| Reference |"));
    let again = parse_markdown(&out).unwrap();
    assert_eq!(
        again.viewports[0].reference.as_deref(),
        Some("figma:Ab3x?node-id=12-88")
    );
}

#[test]
fn a_brand_new_file_is_written_from_nothing() {
    let mut file = empty();
    file.viewports.push(Viewport::new("Mobile", px(640), px(850), "sm"));
    file.url = Some("https://x.lndo.site".into());
    let out = render_markdown(None, &file, TODAY);
    assert!(out.starts_with("# Breakpoints"));
    assert!(parse_markdown(&out).is_ok());
}

#[test]
fn what_is_written_is_what_is_read_again() {
    let mut file = empty();
    file.viewports.push(Viewport::new("Mobile", px(640), px(850), "sm"));
    file.url = Some("https://x.lndo.site".into());
    file.zoom_to_fit = Some(true);
    file.scroll_sync = Some(false);
    file.source = Some("tailwind.config.js".into());
    file.source_hash = Some("8f2a91c4".into());
    file.generated = Some(TODAY.into());
    let again = parse_markdown(&render_markdown(None, &file, TODAY)).unwrap();
    assert_eq!(again.url, file.url);
    assert_eq!(again.zoom_to_fit, Some(true));
    assert_eq!(again.scroll_sync, Some(false));
    assert_eq!(again.source, file.source);
    assert_eq!(again.source_hash, file.source_hash);
    assert_eq!(again.generated, file.generated);
    assert_eq!(again.viewports[0].id, file.viewports[0].id);
}

#[test]
fn a_row_is_cut_at_its_pipes() {
    assert_eq!(row_cells("| a | b c |"), vec!["a".to_string(), "b c".into()]);
    assert_eq!(parse_number("640"), Some(px(640)));
    assert_eq!(parse_number("640px"), Some(px(640)));
    assert_eq!(parse_number("wide"), None);
}

#[test]
fn the_table_and_the_block_are_found_by_where_they_stand() {
    let lines: Vec<String> = SAMPLE.lines().map(|l| l.to_string()).collect();
    let (from, _) = find_table(&lines).unwrap();
    assert!(lines[from].starts_with("| Name"));
    let (from, to) = find_block(&lines).unwrap();
    assert_eq!(lines[from], BEGIN);
    assert!(to > from);
}

#[test]
fn markdown_wins_over_json() {
    assert_eq!(file_to_read(true, true), Some(MARKDOWN_NAME));
    assert_eq!(file_to_read(false, true), Some(JSON_NAME));
    assert_eq!(file_to_read(false, false), None);
    assert!(is_there(false, true));
    assert!(!is_there(false, false));
}

/// No name is too odd to be written twice, and no rewrite adds a block.
#[test]
fn a_second_rewrite_changes_nothing() {
    let mut file = empty();
    for viewports in [
        vec![],
        vec![Viewport::new(" a | b ", px(640), px(850), "sm"), Viewport::new("", px(1), px(1), "")],
    ] {
        file.viewports = viewports;
        file.url = Some("  http://x  ".into());
        file.generated = Some(" now ".into());
        for existing in [None, Some(SAMPLE), Some("# Notes\n"), Some("")] {
            let once = render_markdown(existing, &file, TODAY);
            assert_eq!(render_markdown(Some(&once), &file, TODAY), once);
            assert_eq!(once.lines().filter(|l| l.starts_with(BEGIN)).count(), 1);
        }
    }
}

/// A size may be written with an exponent.
#[test]
fn a_size_with_an_exponent_is_read() {
    assert_eq!(parse_number("1e3"), Some(px(1000)));
    assert_eq!(parse_number("7.68E+2px"), Some(px(768)));
    assert_eq!(parse_number("-76800e-2"), Some(px(-768)));
    assert_eq!(parse_number("1234567e-7"), Some(123_456));
    assert_eq!(parse_number("1e999999999999999999999999999999999"), Some(i64::MAX));
    assert_eq!(parse_number("1e-999999999999999999999999999999999"), Some(0));
    assert_eq!(parse_number("0e999999999999999999999999999999999"), Some(0));
    for not in ["1e", "e3", "1e+", "1e3.5", "1ee3", ".e3", "1e 3"] {
        assert_eq!(parse_number(not), None, "{not}");
    }
    let table = "| Name | Width | Height |\n|--|--|--|\n| Desk | 1e3 | 800 |\n";
    assert_eq!(parse_markdown(table).unwrap().viewports[0].width, px(1000));
}

/// Whitespace round a setting is not part of it.
#[test]
fn a_row_and_its_url_come_back_whatever_stands_round_a_setting() {
    let mut file = empty();
    file.viewports = vec![Viewport::new("Tablet", px(768), px(1020), "md")];
    file.url = Some("http://localhost:5173".into());
    file.source = Some(" tailwind.config.js ".into());
    file.source_hash = Some("8f2a ".into());
    let back = parse_markdown(&render_markdown(None, &file, TODAY)).unwrap();
    assert_eq!(back.viewports.len(), 1);
    assert_eq!(back.viewports[0].width, px(768));
    assert_eq!(back.url.as_deref(), Some("http://localhost:5173"));
    assert_eq!(back.source.as_deref(), Some("tailwind.config.js"));
    assert_eq!(back.source_hash.as_deref(), Some("8f2a"));
}
