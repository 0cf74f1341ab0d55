use breakpoints::scanner::cluster::{cluster, Occurrence};
use breakpoints::scanner::comments::{blank_text, Dialect};
use breakpoints::scanner::css::{
    blank_comments, has_a_source_sibling, in_hidden_directory, is_ignored_by_name, looks_compiled,
    run, stylesheet_part,
};
use breakpoints::scanner::log::{LogEvent, ScanLog};
use breakpoints::scanner::stylesheet::{
    media_preludes, mixin_keys, scss_lengths, scss_map_entries, substitute, substitute_maps,
};
use breakpoints::scanner::types::Edge;
use breakpoints::scanner::units::widths_in_query;
use breakpoints::scanner::walk::{Disk, Fetch, FileIndex, ReadBudget};

fn px(v: i64) -> i64 {
    v * 1_000_000
}

/// A query inside a comment is not a breakpoint, and it used to be counted
/// as one, which inflated the only confidence signal this detector has.
#[test]
fn a_commented_out_query_is_not_a_query() {
    let css = "/* @media (min-width: 900px) { } */\n@media (min-width: 700px) { .a { color: red; } }\n// @media (min-width: 1100px) { }\n";
    let blanked = blank_comments(css);
    let found: Vec<i64> = media_preludes(&blanked)
        .into_iter()
        .flat_map(|(q, _)| widths_in_query(&q))
        .map(|hit| hit.boundary)
        .collect();
    assert_eq!(found, vec![px(700)], "only the live one");
    assert_eq!(blanked.lines().count(), css.lines().count(), "line for line");
}

/// An unquoted URL has two slashes in it and is not a comment.
#[test]
fn a_url_survives_the_comment_blanker() {
    let css = "@font-face { src: url(http://example.test/f.woff2); }\n@media (min-width: 820px) { .a { color: red; } }\n";
    let blanked = blank_comments(css);
    assert!(blanked.contains("example.test"), "{blanked}");
    let found: Vec<i64> = media_preludes(&blanked)
        .into_iter()
        .flat_map(|(q, _)| widths_in_query(&q))
        .map(|hit| hit.boundary)
        .collect();
    assert_eq!(found, vec![px(820)]);
}

/// A component is markup with a style block in it. Only the block is CSS,
/// and a line number has to still mean the line in the file.
#[test]
fn a_component_gives_up_its_style_block_and_keeps_its_line_numbers() {
    let vue = "<template>\n  <div>hi</div>\n</template>\n\n<script>\n// @media (min-width: 999px) in a string\n</script>\n\n<style>\n@media (min-width: 760px) {\n  .a { display: flex; }\n}\n</style>\n";
    let css = stylesheet_part("Card.vue", vue);
    assert!(css.contains("min-width: 760px"));
    assert!(!css.contains("999px"), "the script block is not CSS");
    assert_eq!(
        css.lines().count(),
        vue.lines().count(),
        "line for line, so a reported line number is the real one"
    );
    let media_line = css.lines().position(|l| l.contains("760px")).unwrap();
    let real_line = vue.lines().position(|l| l.contains("760px")).unwrap();
    assert_eq!(media_line, real_line);
}

#[test]
fn a_plain_stylesheet_is_returned_whole() {
    let css = "@media (min-width: 900px) { .a { color: red; } }";
    assert_eq!(stylesheet_part("app.scss", css), css);
}

/// The layout that used to find nothing: one file defines the widths,
/// every other file uses them, and the defining file has no queries of its
/// own to be found by.
#[test]
fn a_variable_defined_in_another_file_resolves() {
    let project = vec![("tablet-up".to_string(), "900px".to_string())];
    let resolved = substitute("(min-width: $tablet-up)", &project);
    assert_eq!(widths_in_query(&resolved).len(), 1);
    assert_eq!(widths_in_query(&resolved)[0].boundary, px(900));
}

/// How a project with a breakpoint map actually consumes it.
#[test]
fn a_map_lookup_resolves() {
    let maps = vec![("lg".to_string(), px(992))];
    for query in [
        "(min-width: map-get($grid-breakpoints, lg))",
        "(min-width: map.get($grid-breakpoints, lg))",
        "(min-width: map-get($grid-breakpoints, 'lg'))",
    ] {
        let resolved = substitute_maps(query, &maps);
        let hits = widths_in_query(&resolved);
        assert_eq!(hits.len(), 1, "{query} -> {resolved}");
        assert_eq!(hits[0].boundary, px(992), "{query}");
    }
    // A key the project never declared stays unresolved rather than
    // becoming a made-up width.
    let untouched = substitute_maps("(min-width: map-get($other, zz))", &maps);
    assert!(widths_in_query(&untouched).is_empty());
}

#[test]
fn a_mixin_call_gives_up_its_key() {
    let keys = mixin_keys("@include media-breakpoint-up(md) { .a { display: flex; } }");
    assert_eq!(keys, vec!["md".to_string()]);
    assert_eq!(mixin_keys("@include mq('tablet') { }"), vec!["tablet".to_string()]);
    assert!(
        mixin_keys("@include button-variant($primary, $secondary) { }").is_empty(),
        "two arguments is not a breakpoint call"
    );
}

fn widths(css: &str) -> Vec<(i64, usize)> {
    let mut log = ScanLog::new("test", "now");
    let mut per_width: Vec<Occurrence> = Vec::new();
    let variables = scss_lengths(css);
    for (query, _) in media_preludes(css) {
        for hit in widths_in_query(&substitute(&query, &variables)) {
            match per_width.iter_mut().find(|o| o.width == hit.boundary) {
                Some(entry) => entry.occurrences += 1,
                None => per_width.push(Occurrence {
                    width: hit.boundary,
                    edge: hit.edge,
                    files: vec!["a.css".into()],
                    first_file: "a.css".into(),
                    first_line: 1,
                    occurrences: 1,
                    name: None,
                    declared: false,
                }),
            }
        }
    }
    per_width.sort_by_key(|o| o.width);
    cluster(per_width, &mut log)
        .into_iter()
        .map(|b| (b.width, b.file_count))
        .collect()
}

#[test]
fn noise_queries_never_become_breakpoints() {
    let found = widths(
        "@media print { a { color: #000 } }\n@media (prefers-reduced-motion: reduce) { a { } }\n@media (min-width: 768px) { a { } }",
    );
    assert_eq!(found, vec![(px(768), 1)]);
}

#[test]
fn a_bootstrap_pair_collapses_to_one_width() {
    let found = widths("@media (max-width: 767.98px) { a {} }\n@media (min-width: 768px) { b {} }");
    assert_eq!(found.len(), 1);
    assert_eq!(found[0].0, px(768));
}

#[test]
fn near_neighbours_collapse_onto_the_round_number() {
    let found = widths("@media (min-width: 767px) { a {} }\n@media (min-width: 768px) { b {} }");
    assert_eq!(found.len(), 1);
    assert_eq!(found[0].0, px(768));
}

#[test]
fn a_scss_variable_defined_in_the_same_file_resolves() {
    let found = widths("$tablet: 768px;\n@media (min-width: $tablet) { a {} }");
    assert_eq!(found, vec![(px(768), 1)]);
}

#[test]
fn a_scss_breakpoint_map_gives_up_its_names_and_widths() {
    let found = scss_map_entries("$breakpoints: (sm: 640px, md: 48rem, lg: 1024px);");
    assert_eq!(
        found.iter().map(|f| (f.0.clone(), f.1)).collect::<Vec<_>>(),
        vec![("sm".to_string(), px(640)), ("md".into(), px(768)), ("lg".into(), px(1024))]
    );
}

#[test]
fn a_query_whose_variable_lives_in_another_file_is_dropped_not_guessed() {
    let found = widths("@media (min-width: $from-another-file) { a {} }");
    assert!(found.is_empty());
}

fn index_of(files: &[&str]) -> FileIndex {
    FileIndex {
        root: "/p".into(),
        files: files.iter().map(|f| f.to_string()).collect(),
        scanned: files.len(),
        skipped: 0,
        truncated: false,
    }
}

#[test]
fn what_a_build_wrote_is_not_what_somebody_chose() {
    assert!(is_ignored_by_name("app.min.css"));
    assert!(!is_ignored_by_name("app.css"));
    assert!(has_a_source_sibling("css/app.css", &index_of(&["css/app.scss", "css/app.css"])));
    assert!(!has_a_source_sibling("css/app.css", &index_of(&["scss/app.scss", "css/app.css"])));
    assert!(in_hidden_directory(".cache/a.css"));
    assert!(!in_hidden_directory("src/a.css"));
    assert!(!looks_compiled("body { color: red; }\n"));
}

#[test]
fn widths_used_in_two_files_are_found_once_and_counted_twice() {
    let index = index_of(&["a.css", "b.scss"]);
    let disk = Disk {
        files: vec![
            ("a.css".into(), Fetch::Text("@media (min-width: 900px) { a {} }\n".into())),
            (
                "b.scss".into(),
                Fetch::Text("$up: 900px;\n@media (min-width: $up) { b {} }\n".into()),
            ),
        ],
    };
    let mut log = ScanLog::new("test", "now");
    let mut budget = ReadBudget::new();
    let out = run(&index, &disk, &mut budget, &mut log);
    let found: Vec<(i64, usize)> = out.breakpoints.iter().map(|b| (b.width, b.file_count)).collect();
    assert_eq!(found, vec![(px(900), 2)]);
}

/// A star or a slash does two jobs only in a comment that is not one.
#[test]
fn a_comment_does_not_close_on_the_star_that_opens_it() {
    assert_eq!(blank_comments("*/* x */.a{}"), "*       .a{}");
    assert_eq!(blank_comments("/*/ a */.b{}"), "        .b{}");
    assert_eq!(blank_comments("a/*"), "a  ");
    assert_eq!(blank_text("/*/ a */b", Dialect::Script), "        b");
}

/// The banner that gives a build away is a comment.
#[test]
fn a_banner_in_a_comment_gives_a_build_away() {
    let css = "/*! tailwindcss v4.0.0 */\n@media (min-width: 900px) { a {} }\n";
    let index = index_of(&["app.css"]);
    let disk = Disk { files: vec![("app.css".into(), Fetch::Text(css.into()))] };
    let mut log = ScanLog::new("test", "now");
    let mut budget = ReadBudget::new();
    let out = run(&index, &disk, &mut budget, &mut log);
    assert!(out.breakpoints.is_empty());
    assert!(log.entries().iter().any(|e| matches!(
        &e.event,
        LogEvent::FileSkip { file, reason } if file == "app.css" && reason.contains("build output")
    )));
}

#[test]
fn widths_at_the_ends_of_the_measure_are_kept_apart() {
    let at = |width: i64| Occurrence {
        width,
        edge: Edge::Min,
        files: vec!["a.css".into()],
        first_file: "a.css".into(),
        first_line: 1,
        occurrences: 1,
        name: None,
        declared: false,
    };
    let mut log = ScanLog::new("test", "now");
    let found = cluster(vec![at(i64::MAX), at(i64::MIN)], &mut log);
    let widths: Vec<i64> = found.iter().map(|b| b.width).collect();
    assert_eq!(widths, vec![i64::MIN, i64::MAX]);
}
