use breakpoints::canvas::row::Canvas;
use breakpoints::json::Content;
use breakpoints::model::{AppConfig, UrlStatus, Viewport};
use breakpoints::scanner::types::{
    BreakpointDiscovery, DevServerDiscovery, Edge, FrameworkDetection, Kind, ScanReport,
};
use breakpoints::state::{AppState, ConsoleLine, ProjectContext};
use breakpoints::tools::{
    dom_script, generate_project_config, get_breakpoint_sources, get_console, get_dom,
    get_project_info, list_panels, list_profiles, open_envelope, require_panel, row_to_write,
    scan_log_path, set_viewport, unwrap_envelope, url_for_this_project, wrap_chrome_script,
    wrap_script,
};

fn px(v: i64) -> i64 {
    v * 1_000_000
}

/// The value of an envelope, read from the JSON it comes back as.
fn value(raw: &str) -> serde_json::Value {
    serde_json::from_str(&unwrap_envelope(raw).unwrap()).unwrap()
}

// ---- what the webview hands back -------------------------------------

#[test]
fn a_value_arrives_encoded_twice_and_comes_back_once() {
    // The webview serialises the result and the injected wrapper already made
    // JSON, so the payload is a JSON string containing JSON. Unpacking one
    // layer too few turns every number into a quoted string.
    let raw = serde_json::to_string(r#"{"ok":true,"value":42}"#).unwrap();
    assert_eq!(value(&raw), serde_json::Value::from(42));
}

#[test]
fn an_object_value_survives_the_round_trip() {
    let raw = serde_json::to_string(r#"{"ok":true,"value":{"title":"Home","width":1024}}"#).unwrap();
    let value = value(&raw);
    assert_eq!(value["title"], "Home");
    assert_eq!(value["width"], 1024);
}

#[test]
fn a_string_the_page_returned_is_not_parsed_again() {
    let raw = serde_json::to_string(r#"{"ok":true,"value":"Bucknell Be The Ray"}"#).unwrap();
    assert_eq!(value(&raw), serde_json::Value::from("Bucknell Be The Ray"));
}

#[test]
fn a_script_that_threw_comes_back_as_an_error_with_its_message() {
    let raw = serde_json::to_string(r#"{"ok":false,"error":"x is not defined"}"#).unwrap();
    assert_eq!(unwrap_envelope(&raw).unwrap_err(), "x is not defined");
}

#[test]
fn a_null_value_is_a_value_and_not_a_failure() {
    // get_dom leans on this: null means "nothing matched the selector".
    let raw = serde_json::to_string(r#"{"ok":true,"value":null}"#).unwrap();
    assert_eq!(value(&raw), serde_json::Value::Null);
}

#[test]
fn something_that_is_not_json_at_all_is_handed_back_rather_than_lost() {
    assert_eq!(
        value("undefined"),
        serde_json::Value::from("undefined")
    );
}

#[test]
fn an_envelope_is_read_however_little_is_in_it() {
    assert_eq!(
        open_envelope(Some("false".into()), Content::Other, None, "{}".into()),
        Err("script threw".to_string())
    );
    assert_eq!(
        open_envelope(None, Content::NotJson, None, "[1]".into()),
        Ok("[1]".to_string())
    );
    // An answer that was only encoded once is read too.
    assert_eq!(unwrap_envelope(r#"{"ok":true,"value":7}"#), Ok("7".to_string()));
    assert_eq!(unwrap_envelope("[1, 2]"), Ok("[1,2]".to_string()));
    assert_eq!(unwrap_envelope(r#"{"ok":false,"error":3}"#), Err("script threw".to_string()));
}

// ---- whose URL is this? ----------------------------------------------

fn report() -> ScanReport {
    ScanReport {
        project_root: String::new(),
        project_name: String::new(),
        frameworks: vec![],
        breakpoints: vec![],
        dev_servers: vec![],
        conflicts: vec![],
        warnings: vec![],
        scanned_files: 0,
        skipped_files: 0,
        css_files: 0,
        duration_ms: 12,
        source_hash: String::new(),
        breakpoint_source_file: String::new(),
        log_path: None,
        truncated: false,
    }
}

fn project_at(root: &str) -> ProjectContext {
    ProjectContext {
        root: root.into(),
        name: "test".into(),
        project_driven: false,
        dev_url: None,
        report: None,
    }
}

fn project_serving(root: &str, dev_url: &str) -> ProjectContext {
    let mut context = project_at(root);
    let mut scanned = report();
    scanned.dev_servers = vec![DevServerDiscovery {
        url: dev_url.into(),
        port: None,
        source: "test".into(),
        confidence: 90,
        responding: None,
    }];
    context.report = Some(scanned);
    context
}

#[test]
fn another_projects_url_is_never_written_into_this_ones_file() {
    // This is the bug. breakpoints.md commits with the repo, and opening a
    // project with no dev server of its own used to keep the previous
    // project's site on the canvas, then write that hostname into the new
    // project's file.
    let config = AppConfig::default();
    assert_eq!(
        url_for_this_project(
            "https://someone-elses-client.lndo.site/",
            &Some(project_at("/p/mine")),
            &config
        ),
        None
    );
}

#[test]
fn a_url_this_project_was_applied_with_is_kept() {
    let mut config = AppConfig::default();
    config.url_to_project.push(("https://mine.lndo.site/".into(), "/p/mine".into()));
    assert_eq!(
        url_for_this_project("https://mine.lndo.site/", &Some(project_at("/p/mine")), &config)
            .as_deref(),
        Some("https://mine.lndo.site/")
    );
}

#[test]
fn a_url_this_projects_own_scan_found_is_kept() {
    let config = AppConfig::default();
    assert_eq!(
        url_for_this_project(
            "https://mine.lndo.site/",
            &Some(project_serving("/p/mine", "https://mine.lndo.site")),
            &config
        )
        .as_deref(),
        Some("https://mine.lndo.site/")
    );
}

#[test]
fn a_url_applied_by_a_different_project_is_refused() {
    let mut config = AppConfig::default();
    config.url_to_project.push(("https://theirs.lndo.site/".into(), "/p/theirs".into()));
    assert_eq!(
        url_for_this_project("https://theirs.lndo.site/", &Some(project_at("/p/mine")), &config),
        None
    );
}

#[test]
fn a_blank_canvas_contributes_no_url() {
    let config = AppConfig::default();
    let project = Some(project_at("/p/mine"));
    assert_eq!(url_for_this_project("about:blank", &project, &config), None);
    assert_eq!(url_for_this_project("", &project, &config), None);
}

#[test]
fn with_no_project_open_there_is_nowhere_for_a_url_to_belong() {
    let config = AppConfig::default();
    assert_eq!(url_for_this_project("https://mine.lndo.site/", &None, &config), None);
}

// ---- the row -----------------------------------------------------------

fn spawned() -> Canvas {
    let row = vec![
        Viewport::new("Mobile", px(375), px(810), "sm"),
        Viewport::new("Tablet", px(768), px(1020), "md"),
    ];
    let mut canvas = Canvas::default();
    let places = canvas.begin_row(&row, "https://s.test/", px(700));
    for (v, place) in row.into_iter().zip(places) {
        canvas.add_panel(v, place);
    }
    canvas
}

#[test]
fn a_panel_nobody_has_is_answered_with_the_ones_there_are() {
    let canvas = spawned();
    assert_eq!(require_panel(&canvas, "md"), Ok("tablet-768".to_string()));
    assert_eq!(
        require_panel(&canvas, "watch"),
        Err("no panel matches \"watch\". Open panels: Mobile (sm), Tablet (md)".to_string())
    );
    assert!(require_panel(&Canvas::default(), "md").unwrap_err().starts_with("no panels are open"));
}

#[test]
fn a_panel_is_kept_to_a_size_a_screen_could_have() {
    let mut canvas = spawned();
    assert_eq!(set_viewport(&mut canvas, "md", Some(px(5)), None, px(700)), Ok("tablet-768".into()));
    assert_eq!(canvas.panels[1].viewport.width, px(120));
    assert_eq!(canvas.panels[1].viewport.height, px(1020));
    assert!(set_viewport(&mut canvas, "md", Some(px(9000)), Some(px(1)), px(700)).is_ok());
    assert_eq!(canvas.panels[1].viewport.width, px(5000));
    assert_eq!(canvas.panels[1].viewport.height, px(200));
    assert_eq!(canvas.panels[0].viewport.width, px(375), "the other is not touched");
    assert!(set_viewport(&mut canvas, "watch", None, None, px(700)).is_err());
}

#[test]
fn a_console_is_read_by_the_panels_name() {
    let canvas = spawned();
    let mut state = AppState::default();
    state.push_console(
        "tablet-768",
        ConsoleLine { level: "error".into(), text: "boom".into(), at: 1 },
    );
    assert_eq!(get_console(&canvas, &state, "md").unwrap().len(), 1);
    assert!(get_console(&canvas, &state, "sm").unwrap().is_empty());
    assert!(get_console(&canvas, &state, "watch").is_err());
    let panels = list_panels(&canvas, &state);
    assert_eq!(panels[1].console_errors, 1);
}

#[test]
fn markup_that_is_not_there_is_an_error() {
    assert!(dom_script("#nav", 80).contains(r##"querySelector("#nav")"##));
    assert!(dom_script("#nav", 80).contains("slice(0, 80)"));
    assert_eq!(
        get_dom("null", "#nav", "md"),
        Err("nothing matches #nav in md".to_string())
    );
    assert_eq!(get_dom(r#""<b>hi</b>""#, "#nav", "md"), Ok("<b>hi</b>".to_string()));
    assert_eq!(get_dom("42", "#nav", "md"), Ok("42".to_string()));
    assert!(wrap_script("return 1").contains("{ return 1 }"));
    assert!(wrap_chrome_script("return 1").contains("eval_chrome cannot wait"));
}

fn discovery(width: i64) -> BreakpointDiscovery {
    BreakpointDiscovery {
        width: px(width),
        name: Some("md".into()),
        source: "tailwind.config.js theme.screens".into(),
        source_file: "tailwind.config.js".into(),
        line: Some(12),
        confidence: 95,
        kind: Kind::Configured,
        edge: Edge::Min,
        file_count: 3,
    }
}

#[test]
fn a_width_is_traced_back_to_the_line_it_came_from() {
    let mut project = project_at("/p/mine");
    let mut scanned = report();
    scanned.breakpoints = vec![discovery(769)];
    scanned.frameworks = vec![FrameworkDetection {
        framework: "Tailwind CSS".into(),
        version: Some("3".into()),
        confidence: 100,
        source_file: "tailwind.config.js".into(),
        breakpoints: vec![],
        metadata: vec![],
    }];
    scanned.log_path = Some("/logs/a.jsonl".into());
    project.report = Some(scanned);
    let project = Some(project);
    let canvas = spawned();
    let sources = get_breakpoint_sources(&project, &canvas);
    assert_eq!(sources[0].source, "set by hand");
    assert_eq!(sources[0].confidence, 100);
    assert_eq!(sources[1].file.as_deref(), Some("tailwind.config.js"));
    assert_eq!(sources[1].line, Some(12));

    let info = get_project_info(&project, &canvas, &AppState::default(), UrlStatus::Answering, true);
    assert_eq!(info.framework.as_deref(), Some("Tailwind CSS@3"));
    assert_eq!(info.project_file.as_deref(), Some("/p/mine/breakpoints.md"));
    assert_eq!(info.last_scan_ms, Some(12));
    assert_eq!(info.panels.len(), 2);
    let slashed = Some(project_at("/p/mine/"));
    let info = get_project_info(&slashed, &canvas, &AppState::default(), UrlStatus::Unknown, true);
    assert_eq!(info.project_file.as_deref(), Some("/p/mine/breakpoints.md"));
    let none = get_project_info(&None, &canvas, &AppState::default(), UrlStatus::Unknown, true);
    assert_eq!(none.root, None);
    assert_eq!(none.project_file, None);

    assert_eq!(scan_log_path(&project), Ok("/logs/a.jsonl".to_string()));
    assert!(scan_log_path(&None).is_err());

    let made = generate_project_config(&project, &AppConfig::default()).unwrap();
    assert_eq!(made.viewports.len(), made.recommendation.recommended.len());
    assert_eq!(made.viewports[0].width, px(769));
    assert!(generate_project_config(&None, &AppConfig::default()).is_err());
    assert_eq!(row_to_write(None, &canvas).len(), 2);
    assert_eq!(row_to_write(Some(vec![]), &canvas).len(), 0);
}

#[test]
fn the_active_profile_is_marked() {
    let config = AppConfig::default();
    let rows = list_profiles(&config);
    assert_eq!(rows.len(), 1);
    assert!(rows[0].active);
    assert!(rows[0].locked);
    assert_eq!(rows[0].viewports.len(), 5);
}
