use breakpoints::callback::{
    console, dispatch_from, kind_of, nav, ready, report, scroll, truncate, wheel, Console, Message,
    Nav, Reaction, Ready, ReportIn, Scroll, Setting, Wheel,
};
use breakpoints::canvas::follow::FollowAction;
use breakpoints::canvas::row::Canvas;
use breakpoints::canvas::script::injected_script;
use breakpoints::model::{PanelState, Viewport};
use breakpoints::state::{AppState, ClientSession, Endpoint};

fn px(v: i64) -> i64 {
    v * 1_000_000
}

fn endpoint() -> Endpoint {
    Endpoint { port: 50309, nonce: "n".into() }
}

fn spawned() -> Canvas {
    let row = vec![
        Viewport::new("Mobile", px(375), px(810), "sm"),
        Viewport::new("Tablet", px(768), px(1020), "md"),
    ];
    let mut canvas = Canvas::default();
    let places = canvas.begin_row(&row, "https://s.test/", px(700));
    for (v, place) in row.into_iter().zip(places) {
        canvas.add_panel(v, place);
    }
    canvas
}

#[test]
fn every_path_the_injected_script_uses_is_one_dispatch_understands() {
    // This is the contract between JavaScript in someone else's page and
    // this side of it, and nothing but this test holds the two halves
    // together. A path renamed on one side goes quiet rather than failing
    // loudly.
    let script = injected_script("md-768", &endpoint());
    for path in ["/p/scroll", "/p/console", "/p/ready", "/p/wheel", "/p/nav", "/p/report"] {
        assert!(
            script.contains(&format!("post(\"{path}\"")),
            "nothing in the injected script sends {path}"
        );
        assert!(kind_of(path).is_some(), "{path} is not understood");
    }
    assert!(kind_of("/p/other").is_none());
}

#[test]
fn a_page_that_logs_a_novel_is_cut_down_to_something_readable() {
    let long = "x".repeat(5000);
    let cut = truncate(&long, 2000);
    assert_eq!(cut.chars().count(), 2002, "2000 characters plus the ellipsis");
    assert!(cut.ends_with('…'));
}

#[test]
fn a_short_line_is_left_exactly_as_it_was() {
    assert_eq!(truncate("all fine", 2000), "all fine");
}

#[test]
fn truncating_counts_characters_rather_than_bytes() {
    // Slicing a multi-byte character in half panics, and a page can log
    // anything at all.
    let emoji = "🎯".repeat(50);
    let cut = truncate(&emoji, 10);
    assert_eq!(cut.chars().count(), 12);
}

#[test]
fn a_message_with_the_wrong_nonce_does_nothing() {
    let mut canvas = spawned();
    let mut state = AppState::default();
    let msg = Scroll { panel: "tablet-768".into(), nonce: "x".into(), pct: 420_000 };
    assert_eq!(scroll(&mut canvas, "n", &msg), None);
    let msg = Wheel { nonce: "x".into(), dx: px(100) };
    assert_eq!(wheel(&mut canvas, "n", &msg, px(200)), None);
    let msg = Console {
        panel: "tablet-768".into(),
        nonce: "x".into(),
        level: "error".into(),
        text: "boom".into(),
    };
    assert_eq!(console(&mut state, "n", &msg, 1), None);
    assert!(state.console_lines("tablet-768").is_none());
}

#[test]
fn a_scroll_is_passed_on_to_the_other_panels() {
    let mut canvas = spawned();
    let msg = Scroll { panel: "tablet-768".into(), nonce: "n".into(), pct: 420_000 };
    assert_eq!(scroll(&mut canvas, "n", &msg), Some(vec!["mobile-375".to_string()]));
}

#[test]
fn only_trouble_is_told_to_the_window() {
    let mut state = AppState::default();
    for (level, told) in [("error", true), ("warn", true), ("log", false)] {
        let msg = Console {
            panel: "a".into(),
            nonce: "n".into(),
            level: level.into(),
            text: "x".repeat(3000),
        };
        assert_eq!(console(&mut state, "n", &msg, 1), Some(told));
    }
    let lines = state.console_lines("a").unwrap();
    assert_eq!(lines.len(), 3);
    assert_eq!(lines[0].text.chars().count(), 2002);
}

#[test]
fn a_panel_that_reports_in_is_loaded_and_measured_and_followed() {
    let mut canvas = spawned();
    let msg = Ready {
        panel: "tablet-768".into(),
        nonce: "n".into(),
        url: "https://s.test/about".into(),
        title: "About".into(),
        width: px(512),
    };
    let done = ready(&mut canvas, "n", &msg, 5000).unwrap();
    assert_eq!(done.shows, Some(Some(true)));
    assert!(done.confirm, "512 is not 768");
    assert!(done.width_is_news);
    let (action, sent) = done.followed.unwrap();
    assert_eq!(action, FollowAction::Broadcast);
    assert_eq!(sent.len(), 1);
    assert_eq!(canvas.panels[1].state, PanelState::Loaded);
}

#[test]
fn an_empty_address_is_not_a_navigation() {
    let mut canvas = spawned();
    let msg = Nav { panel: "tablet-768".into(), nonce: "n".into(), url: String::new() };
    assert!(nav(&mut canvas, "n", &msg, 5000).is_none());
    let msg = Nav { url: "https://s.test/x".into(), ..msg };
    let (action, _) = nav(&mut canvas, "n", &msg, 5000).unwrap();
    assert_eq!(action, FollowAction::Broadcast);
}

fn picked(note: &str) -> ReportIn {
    ReportIn {
        panel: "tablet-768".into(),
        nonce: "n".into(),
        note: note.into(),
        selector: "#nav".into(),
        element: "nav".into(),
        inner_width: px(512),
        url: "https://s.test/".into(),
        title: "Home".into(),
        rect: "{}".into(),
    }
}

#[test]
fn a_note_is_about_the_width_its_panel_was_put_at() {
    let canvas = spawned();
    let mut state = AppState::default();
    state.claim_reports(ClientSession { id: "s".into(), name: "one".into(), at: 1 });
    assert!(!report(&mut state, &canvas, &None, "n", &picked("  "), 7));
    assert!(report(&mut state, &canvas, &None, "n", &picked("it wraps"), 7));
    let taken = state.take_reports();
    assert_eq!(taken.len(), 1);
    assert_eq!(taken[0].width, px(768));
    assert_eq!(taken[0].panel_name, "Tablet");
    assert_eq!(taken[0].client.as_deref(), Some("s"));
    assert_eq!(taken[0].text, taken[0].describe());
    assert!(taken[0].text.contains("reports 512px"));
}

#[test]
fn a_page_cannot_say_which_panel_it_is() {
    let mut canvas = spawned();
    let mut state = AppState::default();
    let around = Setting { prompt: None, window_width: px(200), now: 9 };
    let msg = Console {
        panel: "mobile-375".into(),
        nonce: "n".into(),
        level: "error".into(),
        text: "boom".into(),
    };
    let said = dispatch_from(
        &mut canvas,
        &mut state,
        &Some(endpoint()),
        "tablet-768",
        Message::Console(msg),
        &around,
    );
    assert!(matches!(said, Reaction::Logged(true)));
    assert!(state.console_lines("mobile-375").is_none());
    assert_eq!(state.console_lines("tablet-768").unwrap().len(), 1);
    let said = dispatch_from(
        &mut canvas,
        &mut state,
        &None,
        "tablet-768",
        Message::Report(picked("it wraps")),
        &around,
    );
    assert!(matches!(said, Reaction::Nothing));
    let said = dispatch_from(
        &mut canvas,
        &mut state,
        &Some(endpoint()),
        "tablet-768",
        Message::Report(picked("it wraps")),
        &around,
    );
    assert!(matches!(said, Reaction::Noted));
    let said = dispatch_from(
        &mut canvas,
        &mut state,
        &Some(endpoint()),
        "tablet-768",
        Message::Wheel(Wheel { nonce: "n".into(), dx: px(50) }),
        &around,
    );
    assert!(matches!(said, Reaction::Panned(_)));
}
