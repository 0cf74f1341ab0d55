use breakpoints::canvas::row::Canvas;
use breakpoints::commands::{
    agent_command, checks_line, chosen_shot_dir, delete_profile, fresh_profile_id, inspect_panel,
    navigate, open_project_file, page_of_panel, reload_panel, remember_window, report_prompt,
    save_profile, session_notice, set_follow_links, set_preferences, set_project_shot_dir,
    set_row_zoom, set_scroll_sync, set_vertical_align, set_zoom_to_fit, Preferences,
};
use breakpoints::model::{
    AppConfig, FitMode, HeightStrategy, VerticalAlign, Viewport, WindowGeometry,
};
use breakpoints::scanner::types::{BreakpointDiscovery, Edge, Kind};
use breakpoints::state::{AppState, ConsoleLine, ProjectContext};
use breakpoints::verify::{check, panel_to_read, PageRead, HAS_NO_PANEL, HAS_NO_RULES, HAS_RULES};

fn px(v: i64) -> i64 {
    v * 1_000_000
}

fn spawned() -> Canvas {
    let row = vec![
        Viewport::new("Mobile", px(375), px(810), "sm"),
        Viewport::new("Tablet", px(768), px(1020), "md"),
    ];
    let mut canvas = Canvas::default();
    let places = canvas.begin_row(&row, "https://s.test/", px(700));
    for (v, place) in row.into_iter().zip(places) {
        canvas.add_panel(v, place);
    }
    canvas
}

fn untouched() -> Preferences {
    Preferences {
        height_strategy: None,
        fixed_height: None,
        fit_mode: None,
        edge_testing: None,
        recheck_on_change: None,
        browser: None,
        terminal: None,
        agent_command: None,
        report_prompt: None,
    }
}

#[test]
fn a_setting_that_is_not_named_stays() {
    let mut config = AppConfig::default();
    let mut canvas = spawned();
    let prefs = Preferences {
        fit_mode: Some(FitMode::Uniform),
        agent_command: Some("  codex  ".into()),
        report_prompt: Some("Fix it.".into()),
        ..untouched()
    };
    set_preferences(&mut config, &mut canvas, prefs);
    assert_eq!(config.fit_mode, FitMode::Uniform);
    assert_eq!(canvas.fit_mode, FitMode::Uniform);
    assert_eq!(config.height_strategy, HeightStrategy::DeviceRatio);
    assert_eq!(agent_command(&config, "usual"), "codex");
    assert_eq!(report_prompt(&config), "Fix it.");
    let prefs = Preferences {
        agent_command: Some(" ".into()),
        report_prompt: Some("".into()),
        ..untouched()
    };
    set_preferences(&mut config, &mut canvas, prefs);
    assert_eq!(agent_command(&config, "usual"), "usual");
    assert!(!report_prompt(&config).is_empty());
    assert_eq!(config.fit_mode, FitMode::Uniform);
}

#[test]
fn editing_the_locked_profile_makes_a_new_one() {
    let mut config = AppConfig::default();
    let row = || vec![Viewport::new("Tablet", px(768), px(1020), "md")];
    let id = save_profile(&mut config, Some("default".into()), "Mine".into(), row(), "p_1".into());
    assert_eq!(id, Ok("p_1".to_string()));
    assert_eq!(config.active_profile, "p_1");
    assert_eq!(config.active_viewports().len(), 1);
    let id = save_profile(&mut config, Some("p_1".into()), "Mine".into(), vec![], "p_2".into());
    assert_eq!(id, Ok("p_1".to_string()));
    assert_eq!(config.active_viewports().len(), 0);
    assert!(save_profile(&mut config, Some("p_9".into()), "x".into(), vec![], "p_3".into()).is_err());
    assert!(delete_profile(&mut config, "default").is_err());
    assert!(delete_profile(&mut config, "p_1").is_ok());
    assert_eq!(config.active_profile, "default");
    assert_eq!(config.profiles.len(), 1);
    let fresh = fresh_profile_id();
    assert!(fresh.starts_with("p_"));
    assert_eq!(fresh.len(), 8);
    assert_ne!(fresh, fresh_profile_id());
}

#[test]
fn screenshots_are_filed_per_project() {
    let mut config = AppConfig::default();
    assert!(set_project_shot_dir(&mut config, &None, Some("/s".into())).is_err());
    let project = Some(ProjectContext {
        root: "/p/mine".into(),
        name: "mine".into(),
        project_driven: false,
        dev_url: None,
        report: None,
    });
    assert!(set_project_shot_dir(&mut config, &project, Some("/s".into())).is_ok());
    assert_eq!(config.projects[0].1.shot_dir.as_deref(), Some("/s"));
    assert_eq!(chosen_shot_dir(&config, &project).as_deref(), Some("/s"));
    assert_eq!(chosen_shot_dir(&config, &None), None);
    assert!(set_project_shot_dir(&mut config, &project, None).is_ok());
    assert_eq!(config.projects[0].1.shot_dir, None);
    assert_eq!(chosen_shot_dir(&config, &project), None);

    assert_eq!(open_project_file(&None, true).unwrap_err(), "no project is open");
    assert_eq!(
        open_project_file(&project, false).unwrap_err(),
        "breakpoints.md has not been written yet"
    );
    assert_eq!(open_project_file(&project, true).unwrap(), "/p/mine/breakpoints.md");
}

#[test]
fn a_button_changes_the_row_and_is_remembered() {
    let mut config = AppConfig::default();
    let mut canvas = spawned();
    set_zoom_to_fit(&mut canvas, &mut config, false);
    assert_eq!((canvas.zoom_to_fit, config.zoom_to_fit), (false, false));
    set_vertical_align(&mut canvas, &mut config, VerticalAlign::Stretch);
    assert_eq!((canvas.full_height, config.vertical_align), (true, VerticalAlign::Stretch));
    set_vertical_align(&mut canvas, &mut config, VerticalAlign::Center);
    assert!(!canvas.full_height);
    set_follow_links(&mut canvas, &mut config, false);
    assert_eq!((canvas.follow.is_on(), config.follow_links), (false, false));
}

#[test]
fn reloading_a_panel_forgets_what_its_page_logged() {
    let canvas = spawned();
    let mut heard = AppState::default();
    for panel in ["mobile-375", "tablet-768"] {
        let line = ConsoleLine { level: "error".into(), text: "boom".into(), at: 1 };
        heard.push_console(panel, line);
    }
    assert_eq!(reload_panel(&canvas, &mut heard, "nowhere").unwrap_err(), "no such panel");
    assert_eq!(reload_panel(&canvas, &mut heard, "Tablet").unwrap(), "tablet-768");
    assert!(heard.console_lines("tablet-768").map_or(true, |l| l.is_empty()));
    assert_eq!(heard.console_lines("mobile-375").map(|l| l.len()), Some(1));
}

#[test]
fn turning_sync_on_forgets_where_the_panels_were() {
    let mut config = AppConfig::default();
    let mut canvas = spawned();
    canvas.sync_scroll("tablet-768", 420_000);
    set_scroll_sync(&mut canvas, &mut config, false);
    assert!(canvas.sync_scroll("tablet-768", 500_000).is_empty());
    set_scroll_sync(&mut canvas, &mut config, true);
    assert_eq!(canvas.sync_scroll("tablet-768", 420_000), vec!["mobile-375".to_string()]);
    assert!(config.scroll_sync);
    set_row_zoom(&mut config, 2_000_000);
    assert_eq!(config.row_zoom, 1_000_000);
    set_row_zoom(&mut config, -5);
    assert_eq!(config.row_zoom, 0);
}

#[test]
fn a_panel_goes_to_a_browser_at_its_declared_size() {
    let canvas = spawned();
    assert_eq!(
        page_of_panel(&canvas, "md"),
        Ok(("https://s.test/".to_string(), px(768), px(1020)))
    );
    assert_eq!(page_of_panel(&canvas, "watch"), Err("no such panel".to_string()));
    assert_eq!(inspect_panel(&canvas, "md"), ("tablet-768".to_string(), false));
    let mut canvas = canvas;
    canvas.inspecting = Some("tablet-768".into());
    assert_eq!(inspect_panel(&canvas, "md"), ("tablet-768".to_string(), true));
}

#[test]
fn what_is_said_is_said_the_same_way_everywhere() {
    let mut config = AppConfig::default();
    assert!(navigate(&mut config, "  ").is_err());
    assert!(navigate(&mut config, "https://a.test").is_ok());
    assert_eq!(config.last_url.as_deref(), Some("https://a.test"));
    assert!(session_notice(Ok("kitty")).starts_with("Starting a session in kitty."));
    assert_eq!(session_notice(Err("no")), "no");
    assert!(checks_line(0, 0).ends_with("found nothing."));
    assert!(checks_line(2, 1).ends_with("found 2 serious and 1 worth a look."));
    let here = WindowGeometry { x: 0, y: 0, width: px(900), height: px(600) };
    assert!(remember_window(&mut config, here));
    assert!(!remember_window(&mut config, here));
}

#[test]
fn the_page_is_held_against_the_row() {
    let mut canvas = spawned();
    let id = panel_to_read(&canvas, "md").unwrap();
    assert_eq!(
        panel_to_read(&canvas, "watch").unwrap_err(),
        "no panel matches \"watch\""
    );
    let page = PageRead {
        conditions: vec![
            ("(min-width: 768px)".into(), Some(3)),
            ("(max-width: 767.98px)".into(), Some(2)),
            ("(min-width: 1200px)".into(), None),
            ("print".into(), Some(4)),
        ],
        sheets: Some(5),
        unreadable: Some(1),
        containers: None,
        url: Some("https://s.test/".into()),
    };
    let found = vec![BreakpointDiscovery {
        width: px(768) - 400_000,
        name: None,
        source: "test".into(),
        source_file: "test.css".into(),
        line: None,
        confidence: 90,
        kind: Kind::Css,
        edge: Edge::Min,
        file_count: 1,
    }];
    let panels = canvas.info(&AppState::default()).panels;
    let said = check(id, &panels, &found, &page);
    let in_code: Vec<bool> = said.widths.iter().map(|w| w.in_code).collect();
    assert_eq!(in_code, vec![false, true, false], "what the scan found, to the whole pixel");
    assert_eq!(said.panel, "tablet-768");
    let widths: Vec<(i64, u64, &str)> = said
        .widths
        .iter()
        .map(|w| (w.width, w.rules_in_page, w.verdict.as_str()))
        .collect();
    assert_eq!(
        widths,
        vec![
            (px(375), 0, HAS_NO_RULES),
            (px(768), 5, HAS_RULES),
            (px(1200), 1, HAS_NO_PANEL),
        ]
    );
    assert_eq!(said.rules_without_a_width, 4);
    assert_eq!(
        said.summary,
        "1 of 2 open widths have rules in this page, and the page changes at 1 widths with no panel. 1 stylesheets could not be read, so a missing width may only be missing from view"
    );
    canvas.set_panels_hidden(true);
    assert!(panel_to_read(&canvas, "md").is_err(), "a hidden row cannot be measured");
}
