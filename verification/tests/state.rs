use breakpoints::state::{AppState, ClientSession, ConsoleLine, Report, MOST_KEPT};

fn px(v: i64) -> i64 {
    v * 1_000_000
}

fn note(client: Option<&str>) -> Report {
    let mut report = Report {
        panel: "p1".into(),
        panel_name: "Medium".into(),
        width: px(768),
        inner_width: px(768),
        url: "https://example.test/about".into(),
        title: "About".into(),
        element: "div.card".into(),
        selector: "#main > div.card".into(),
        rect: "{}".into(),
        note: "The heading wraps".into(),
        at: 1,
        client: client.map(|c| c.to_string()),
        prompt: "Fix this.".into(),
        text: String::new(),
    };
    report.text = report.describe();
    report
}

/// The one that matters. The claim lives in memory, so a rebuild or a
/// reload leaves every later note addressed to nobody. Matching only the
/// exact id left those notes in the queue while the session that wanted
/// them polled straight past.
#[test]
fn a_note_addressed_to_nobody_goes_to_whoever_asks() {
    let mut state = AppState::default();
    state.push_report(note(None));
    assert_eq!(state.take_reports_for("session-a").len(), 1);
    assert_eq!(state.report_count(), 0);
}

#[test]
fn a_note_addressed_to_another_session_is_left_where_it_is() {
    let mut state = AppState::default();
    state.push_report(note(Some("session-b")));
    assert!(state.take_reports_for("session-a").is_empty());
    assert_eq!(state.report_count(), 1, "it is still there for session-b");
    assert_eq!(state.take_reports_for("session-b").len(), 1);
}

#[test]
fn the_width_is_in_the_prose_because_that_is_the_whole_point() {
    let text = note(None).describe();
    assert!(text.contains("768px breakpoint"), "{text}");
    assert!(text.starts_with("Fix this."), "the instruction leads: {text}");
    assert!(text.contains("The heading wraps"), "{text}");
    assert!(
        !text.contains("which is itself wrong"),
        "the page agreed about its width, so there is nothing to say"
    );
}

/// When the panel and the page disagree about the width, that disagreement
/// is itself the bug and has to reach whoever reads the note.
#[test]
fn a_page_that_disagrees_about_its_own_width_says_so() {
    let mut report = note(None);
    report.inner_width = px(751);
    assert!(report.describe().contains("reports 751px"));
}

#[test]
fn a_restart_keeps_the_queue_and_forgets_the_claim() {
    let mut before = AppState::default();
    before.claim_reports(ClientSession {
        id: "session-a".into(),
        name: "bucknell".into(),
        at: 1,
    });
    before.push_report(note(Some("session-a")));

    // A fresh process, reading what the last one left.
    let mut after = AppState::default();
    after.restore_reports(before.take_reports());
    assert_eq!(after.report_count(), 1, "the note survived");
    assert!(
        after.report_owner().is_none(),
        "the claim did not, because the session it named may be gone"
    );
    // And because nothing owns reports, the note is still collectable by
    // the session that comes back for it.
    assert_eq!(after.take_reports_for("session-a").len(), 1);
}

#[test]
fn a_watcher_leaving_cannot_take_the_count_below_nothing() {
    let mut state = AppState::default();
    state.watcher_left();
    assert!(!state.watching());
    state.watcher_joined();
    assert!(state.watching());
    state.watcher_left();
    assert!(!state.watching());
}

#[test]
fn the_oldest_notes_make_room_for_the_newest() {
    let mut state = AppState::default();
    for at in 0..(MOST_KEPT as u64 + 5) {
        let mut n = note(None);
        n.at = at;
        state.push_report(n);
    }
    assert_eq!(state.report_count(), MOST_KEPT);
    let taken = state.take_reports();
    assert_eq!(taken[0].at, 5);
    assert_eq!(taken[MOST_KEPT - 1].at, MOST_KEPT as u64 + 4);
    state.requeue_reports(taken);
    assert_eq!(state.report_count(), MOST_KEPT);
}

#[test]
fn each_panel_has_a_console_of_its_own() {
    let mut state = AppState::default();
    state.push_console("a", ConsoleLine { level: "error".into(), text: "x".into(), at: 1 });
    state.push_console("b", ConsoleLine { level: "log".into(), text: "y".into(), at: 2 });
    assert_eq!(state.console_lines("a").unwrap().len(), 1);
    state.clear_console("a");
    assert!(state.console_lines("a").map_or(true, |l| l.is_empty()));
    assert_eq!(state.console_lines("b").unwrap().len(), 1);
}
