use breakpoints::canvas::follow::{Follow, FollowAction, FOLLOW_BURST, FOLLOW_GUARD};
use breakpoints::canvas::layout::{
    available_height, clamped_scroll, layout, panel_on_screen, width_disagrees, Placement,
    OUTER_MARGIN, PANEL_GAP,
};
use breakpoints::canvas::names::match_viewport;
use breakpoints::canvas::row::{
    apply_scroll_script, is_gesture, load_failed, needs_pump, next_sweep, pump_interval, Canvas,
    LoadStep,
};
use breakpoints::canvas::script::{drain_script, injected_script};
use breakpoints::model::{FitMode, PanelState, Viewport};
use breakpoints::state::{AppState, Endpoint};
use breakpoints::tools::wrap_script;

fn px(v: f64) -> i64 {
    (v * 1_000_000.0).round() as i64
}

fn wide(v: f64) -> i128 {
    px(v) as i128
}

fn viewport(name: &str, width: f64, height: f64, source: &str) -> Viewport {
    Viewport::new(name, px(width), px(height), source)
}

fn vps() -> Vec<Viewport> {
    vec![
        viewport("Mobile", 640.0, 850.0, "sm"),
        viewport("Tablet", 768.0, 1020.0, "md"),
    ]
}

fn row() -> Vec<Viewport> {
    vec![
        viewport("Mobile", 375.0, 810.0, "2xsm"),
        viewport("Tablet", 768.0, 1020.0, "md"),
        viewport("Laptop", 1024.0, 770.0, "lg"),
    ]
}

fn scale(place: &Placement) -> f64 {
    place.scale.num as f64 / place.scale.den as f64
}

fn endpoint() -> Endpoint {
    Endpoint { port: 50309, nonce: "test-nonce".into() }
}

/// Every bracket of a script is closed by its own kind, outside of strings and
/// comments.
fn brackets_match(source: &str) -> bool {
    let chars: Vec<char> = source.chars().collect();
    let mut open: Vec<char> = Vec::new();
    let mut i = 0;
    while i < chars.len() {
        let c = chars[i];
        let next = chars.get(i + 1).copied().unwrap_or(' ');
        if c == '/' && next == '/' {
            while i < chars.len() && chars[i] != '\n' {
                i += 1;
            }
        } else if c == '/' && next == '*' {
            i += 2;
            while i + 1 < chars.len() && !(chars[i] == '*' && chars[i + 1] == '/') {
                i += 1;
            }
            i += 1;
        } else if c == '"' || c == '\'' || c == '`' {
            i += 1;
            while i < chars.len() && chars[i] != c {
                if chars[i] == '\\' {
                    i += 1;
                }
                i += 1;
            }
        } else if "([{".contains(c) {
            open.push(c);
        } else if ")]}".contains(c) {
            let wanted = match c {
                ')' => '(',
                ']' => '[',
                _ => '{',
            };
            if open.pop() != Some(wanted) {
                return false;
            }
        }
        i += 1;
    }
    open.is_empty()
}

/// The script injected into every panel is JavaScript inside a string, so a
/// stray brace or a bad substitution ships and then fails silently inside a
/// page we do not own.
#[test]
fn the_injected_script_is_valid_javascript() {
    let script = injected_script("tablet-768", &endpoint());
    assert!(brackets_match(&script), "injected panel script");
}

#[test]
fn the_injected_script_carries_the_panel_id_and_the_endpoint() {
    let script = injected_script("tablet-768", &endpoint());
    assert!(script.contains(r#""tablet-768""#), "the panel names itself");
    assert!(script.contains("http://127.0.0.1:50309"), "knows where to post");
    assert!(script.contains(r#""test-nonce""#), "carries the nonce");
    assert!(
        script.contains("window.__bpDrain"),
        "an https panel has to be drainable, since it cannot post"
    );
}

/// The row: four panels, sitting on the same URL, nothing pending.
fn settled_row() -> Follow {
    Follow::default()
}

fn ids(list: &[&str]) -> Vec<String> {
    list.iter().map(|s| s.to_string()).collect()
}

const NOW: u64 = 1_000_000;

#[test]
fn a_link_followed_in_one_panel_is_broadcast_to_the_rest() {
    let mut follow = settled_row();
    assert_eq!(
        follow.decide("a", "https://s.test/about", "https://s.test/", 4, NOW),
        FollowAction::Broadcast
    );
}

#[test]
fn a_panel_reporting_the_url_the_row_is_already_on_is_not_a_navigation() {
    let mut follow = settled_row();
    assert_eq!(
        follow.decide("a", "https://s.test/", "https://s.test/", 4, NOW),
        FollowAction::Ignore
    );
}

/// A load that never committed leaves the panel blank and still reports
/// finished. Pointing a row at a closed port is enough to see it: every
/// panel ends on about:blank with its label reading "loaded".
#[test]
fn a_load_that_landed_nowhere_is_a_failure() {
    assert!(load_failed("about:blank", "https://example.test/"));
    assert!(load_failed("", "https://example.test/"));
    assert!(!load_failed("https://example.test/", "https://example.test/"));
    assert!(
        !load_failed("about:blank", "about:blank"),
        "the empty state at first launch asked for exactly this"
    );
    assert!(
        !load_failed("about:blank", ""),
        "nothing was requested, so nothing failed"
    );
}

/// A page that logs on a timer used to hold the pump at its fastest rate
/// for the whole session, because anything in the queue counted as
/// activity.
#[test]
fn only_a_gesture_keeps_the_pump_fast() {
    assert!(is_gesture(Some("/p/scroll")));
    assert!(is_gesture(Some("/p/wheel")));
    assert!(!is_gesture(Some("/p/console")));
    assert!(!is_gesture(Some("/p/ready")));
    assert!(!is_gesture(Some("/p/report")));
    assert!(!is_gesture(Some("/p/nav")));
    assert!(!is_gesture(None));
}

/// An empty name used to land on the first panel, so a caller that forgot
/// the argument got a confident answer about a panel it never asked for.
#[test]
fn nothing_is_not_a_panel() {
    let viewports = vec![
        viewport("Small", 375.0, 667.0, "custom"),
        viewport("Medium", 768.0, 1020.0, "medium"),
    ];
    assert_eq!(match_viewport(&viewports, ""), None);
    assert_eq!(match_viewport(&viewports, "   "), None);
    assert_eq!(match_viewport(&viewports, "0"), Some(0));
    assert_eq!(match_viewport(&viewports, "Medium"), Some(1));
}

fn on_screen(home_x: f64, width: f64, scroll_x: f64, window_width: f64) -> bool {
    panel_on_screen(wide(home_x), wide(width), wide(scroll_x), px(window_width))
}

/// The row is routinely four times the window's width, so most of what the
/// pump used to do was asking panels nobody could see for a scroll
/// position nobody could have changed.
#[test]
fn only_the_panels_on_screen_are_collected_from() {
    // A 1400px window over the real Bucknell row.
    let w = 1400.0;
    assert!(on_screen(24.0, 375.0, 0.0, w), "first panel, row at rest");
    assert!(on_screen(997.0, 640.0, 0.0, w), "third panel, partly visible");
    assert!(!on_screen(4805.0, 1536.0, 0.0, w), "last panel, far off to the right");
    // Panned to the far end, the first panel is now the hidden one.
    assert!(!on_screen(24.0, 375.0, 4800.0, w));
    assert!(on_screen(4805.0, 1536.0, 4800.0, w));
    // Just off the left edge, and still collected from, because it is
    // about to be on screen.
    assert!(on_screen(0.0, 300.0, 400.0, w));
    assert!(
        on_screen(4805.0, 1536.0, 0.0, 0.0),
        "with no window width known, collect from everything"
    );
}

/// Whether a panel's messages have to be collected is a fact about that
/// panel's own document. Reading it off the row meant a row opened on http
/// that redirected to https had every panel queueing into a void, with
/// scroll sync, console capture and problem reports all dead at once.
#[test]
fn collecting_is_decided_per_panel_not_per_row() {
    assert!(needs_pump("https://bucknell-be-the-ray.lndo.site/"));
    assert!(!needs_pump("http://localhost:1420/"));
    assert!(!needs_pump(""), "a panel that has not loaded has nothing to collect");
    assert!(!needs_pump("about:blank"));
}

/// A load reported before its panel was added to the row used to be
/// dropped on the floor, and that panel was then never asked for anything
/// again: no scroll sync, no console capture, no problem reports, for the
/// whole session.
#[test]
fn a_commit_reported_before_its_panel_exists_is_kept() {
    let mut canvas = Canvas::default();
    canvas.mark_committed("medium-768");
    assert!(
        canvas.committed_early.iter().any(|id| id == "medium-768"),
        "the report has to survive until the panel is pushed"
    );
}

fn disagrees(declared: f64, reported: Option<f64>) -> bool {
    width_disagrees(px(declared), reported.map(px))
}

/// A page that agrees with its label is not a finding, and a page that
/// has not spoken yet is not one either. Only a real disagreement is.
#[test]
fn a_panel_is_only_wrong_when_the_page_says_so() {
    assert!(!disagrees(768.0, None), "silence is not a disagreement");
    assert!(!disagrees(768.0, Some(768.0)));
    assert!(
        !disagrees(768.0, Some(767.5)),
        "half a pixel is the frame rounding, not a bug"
    );
    assert!(disagrees(768.0, Some(767.0)), "a whole pixel out is wrong");
    assert!(
        disagrees(1024.0, Some(5120.0)),
        "a docked inspector gives the panel the whole window"
    );
    assert!(
        disagrees(1024.0, Some(512.0)),
        "a layout that happened before the zoom landed"
    );
}

/// The one that matters. Every panel we push loads and reports back, and
/// each of those reports looks exactly like somebody clicking a link. If
/// they were taken at face value the row would navigate itself forever.
#[test]
fn the_echo_of_a_push_is_spent_and_the_row_is_free_again_after_the_last_one() {
    let mut follow = settled_row();
    let now = NOW;
    assert_eq!(
        follow.decide("a", "https://s.test/about", "https://s.test/", 4, now),
        FollowAction::Broadcast
    );
    follow.pushed(ids(&["b", "c", "d"]), now);

    // The three panels we pushed report in on the new URL.
    for id in ["b", "c"] {
        assert_eq!(
            follow.decide(id, "https://s.test/about", "https://s.test/about", 4, now),
            FollowAction::Ignore
        );
    }
    assert_eq!(
        follow.decide("d", "https://s.test/about", "https://s.test/about", 4, now),
        FollowAction::Ignore
    );

    // The last one settled the row, so the next click is followed at once
    // rather than waiting out a timer.
    assert_eq!(
        follow.decide("a", "https://s.test/team", "https://s.test/about", 4, now),
        FollowAction::Broadcast
    );
}

/// A panel that failed to load never reports, so the list it is on never
/// empties. The deadline is what stops that wedging following for the rest
/// of the session, and the report that trips it has to be acted on rather
/// than spent: otherwise the first click after a panel goes quiet is
/// silently swallowed.
#[test]
fn a_click_after_a_panel_goes_quiet_is_still_followed() {
    let mut follow = settled_row();
    let pushed_at = NOW;
    follow.pushed(ids(&["b", "c"]), pushed_at);

    let later = pushed_at + FOLLOW_GUARD + 1;
    assert_eq!(
        follow.decide("b", "https://s.test/team", "https://s.test/about", 4, later),
        FollowAction::Broadcast
    );
}

/// The same deadline, but the late report is only the echo we were waiting
/// for. The URL is what tells them apart.
#[test]
fn a_late_echo_is_still_not_a_navigation() {
    let mut follow = settled_row();
    let pushed_at = NOW;
    follow.pushed(ids(&["b", "c"]), pushed_at);

    let later = pushed_at + FOLLOW_GUARD + 1;
    assert_eq!(
        follow.decide("b", "https://s.test/about", "https://s.test/about", 4, later),
        FollowAction::Ignore
    );
}

/// A site that redirects on width puts two panels on different URLs and
/// each one keeps sending the other back. Nothing a person does looks like
/// this, so it turns following off rather than hammering their dev server.
#[test]
fn panels_chasing_each_other_give_up_rather_than_loop() {
    let mut follow = settled_row();
    let now = NOW;
    let mut current = "https://s.test/".to_string();
    let mut broadcasts = 0;
    for turn in 0..20 {
        let href = if turn % 2 == 0 {
            "https://s.test/m/x"
        } else {
            "https://s.test/x"
        };
        match follow.decide("a", href, &current, 4, now) {
            FollowAction::Broadcast => {
                broadcasts += 1;
                current = href.to_string();
            }
            FollowAction::GiveUp => {
                assert!(!follow.on, "following turns itself off");
                assert_eq!(broadcasts, FOLLOW_BURST, "it stops at the burst limit");
                return;
            }
            FollowAction::Ignore => {}
        }
    }
    panic!("the ping pong was never noticed");
}

#[test]
fn following_off_means_a_report_is_only_a_report() {
    let mut follow = settled_row();
    follow.reset(false);
    assert_eq!(
        follow.decide("a", "https://s.test/about", "https://s.test/", 4, NOW),
        FollowAction::Ignore
    );
}

/// One panel has nobody to tell, and pushing to an empty row would still
/// arm the guard and leave it stale.
#[test]
fn a_single_panel_never_broadcasts() {
    let mut follow = settled_row();
    assert_eq!(
        follow.decide("a", "https://s.test/about", "https://s.test/", 1, NOW),
        FollowAction::Ignore
    );
}

#[test]
fn a_single_page_app_changing_the_path_is_reported_but_a_hash_is_not() {
    let script = injected_script("md-768", &endpoint());
    assert!(script.contains("pushState"), "the history API is watched");
    assert!(script.contains("popstate"), "so is the back button");
    assert!(
        script.contains("location.origin + location.pathname + location.search"),
        "the fragment is left out, so an anchor link does not reload the row"
    );
}

#[test]
fn a_panel_can_be_reached_by_index() {
    assert_eq!(match_viewport(&row(), "0"), Some(0));
    assert_eq!(match_viewport(&row(), "2"), Some(2));
}

#[test]
fn a_number_that_is_not_an_index_is_read_as_a_width() {
    // "1024" is the obvious way to name the 1024 panel, and it used to
    // resolve to nothing at all: the parse succeeded, the index lookup
    // failed, and the name matching never got a turn.
    assert_eq!(match_viewport(&row(), "1024"), Some(2));
    assert_eq!(match_viewport(&row(), "768"), Some(1));
}

#[test]
fn an_index_wins_over_a_width_when_both_could_match() {
    // Small numbers are indices first. Nobody has a 2px breakpoint.
    let viewports = vec![
        viewport("A", 1.0, 800.0, "a"),
        viewport("B", 0.0, 800.0, "b"),
    ];
    assert_eq!(match_viewport(&viewports, "0"), Some(0), "index, not width");
}

#[test]
fn a_number_matching_neither_finds_nothing() {
    assert_eq!(match_viewport(&row(), "999"), None);
}

#[test]
fn a_panel_can_be_reached_by_name_key_or_id_whatever_the_case() {
    assert_eq!(match_viewport(&row(), "Tablet"), Some(1));
    assert_eq!(match_viewport(&row(), "tablet"), Some(1));
    assert_eq!(match_viewport(&row(), "md"), Some(1));
    assert_eq!(match_viewport(&row(), "MD"), Some(1));
    assert_eq!(match_viewport(&row(), &row()[2].id), Some(2));
}

#[test]
fn a_prefix_is_enough_and_surrounding_space_is_ignored() {
    assert_eq!(match_viewport(&row(), "Lap"), Some(2));
    assert_eq!(match_viewport(&row(), "  Tablet  "), Some(1));
}

#[test]
fn an_exact_match_beats_a_prefix_of_an_earlier_panel() {
    let viewports = vec![
        viewport("Tablet Landscape", 1024.0, 770.0, "lg"),
        viewport("Tablet", 768.0, 1020.0, "md"),
    ];
    assert_eq!(match_viewport(&viewports, "Tablet"), Some(1));
}

#[test]
fn nothing_matches_in_an_empty_row() {
    assert_eq!(match_viewport(&vec![], "0"), None);
    assert_eq!(match_viewport(&vec![], "Tablet"), None);
}

fn clamped(current: f64, dx: f64, total: f64, window: f64) -> i128 {
    clamped_scroll(wide(current), px(dx), wide(total), px(window))
}

#[test]
fn panning_stops_at_both_ends_of_the_row() {
    // A wheel gesture keeps arriving after you reach the end, so a delta
    // that would run past either edge has to land on the edge.
    assert_eq!(clamped(0.0, -500.0, 3000.0, 1200.0), wide(0.0));
    assert_eq!(clamped(1700.0, 500.0, 3000.0, 1200.0), wide(1800.0));
    assert_eq!(clamped(100.0, 200.0, 3000.0, 1200.0), wide(300.0));
}

#[test]
fn a_row_narrower_than_the_window_does_not_pan() {
    assert_eq!(clamped(0.0, 400.0, 800.0, 1200.0), wide(0.0));
}

#[test]
fn unzoomed_panels_are_declared_size_and_start_at_the_margin() {
    let margin = OUTER_MARGIN as i128;
    let gap = PANEL_GAP as i128;
    let (places, total) = layout(&vps(), px(500.0), false, FitMode::Height, false);
    assert_eq!(places[0].home_x, margin);
    assert_eq!(places[0].width, wide(640.0));
    assert_eq!(scale(&places[0]), 1.0);
    assert_eq!(places[1].home_x, margin + wide(640.0) + gap);
    assert_eq!(total, margin * 2 + wide(640.0) + wide(768.0) + gap);
}

#[test]
fn fit_height_scales_each_panel_separately() {
    let (places, _) = layout(&vps(), px(510.0), true, FitMode::Height, false);
    assert!((scale(&places[0]) - 0.6).abs() < 1e-9);
    assert!((scale(&places[1]) - 0.5).abs() < 1e-9);
}

#[test]
fn uniform_fit_uses_the_smallest_scale_for_every_panel() {
    let (places, _) = layout(&vps(), px(510.0), true, FitMode::Uniform, false);
    // Rounding the frame to whole pixels can move a scale by a fraction of
    // a percent; the promise is that they are the same factor, not that
    // they are bit-identical.
    assert!((scale(&places[0]) - scale(&places[1])).abs() < 0.002);
    assert!((scale(&places[0]) - 0.5).abs() < 0.002);
}

#[test]
fn a_scaled_panel_still_renders_at_exactly_its_declared_width() {
    // The CSS viewport a page sees is the frame width divided by the zoom.
    // At any scale, that has to come back to the breakpoint itself, or a
    // min-width query fires one pixel late and the app is lying.
    for height in [377.0, 512.0, 640.0, 719.0, 863.0] {
        let (places, _) = layout(&vps(), px(height), true, FitMode::Height, false);
        for (place, vp) in places.iter().zip(vps()) {
            let rendered = place.width as f64 / scale(place) / 1_000_000.0;
            let declared = vp.width as f64 / 1_000_000.0;
            assert!(
                (rendered - declared).abs() < 0.001,
                "{} at avail {height} rendered {rendered}, expected {}",
                vp.name,
                declared
            );
        }
    }
}

#[test]
fn zoom_never_magnifies_a_panel_past_its_true_size() {
    let (places, _) = layout(&vps(), px(4000.0), true, FitMode::Height, false);
    assert_eq!(scale(&places[0]), 1.0);
}

/// A row of the three panels, spawned at an address.
fn spawned(url: &str) -> Canvas {
    let mut canvas = Canvas::default();
    let places = canvas.begin_row(&row(), url, px(700.0));
    for (v, place) in row().into_iter().zip(places) {
        canvas.add_panel(v, place);
    }
    canvas
}

#[test]
fn a_row_is_spawned_where_it_was_laid_out() {
    let canvas = spawned("https://s.test/");
    assert_eq!(canvas.panels.len(), 3);
    assert_eq!(canvas.panels[0].home_x, OUTER_MARGIN as i128);
    assert_eq!(canvas.url, "https://s.test/");
    assert_eq!(canvas.resolve_id("md").as_deref(), Some("tablet-768"));
    assert_eq!(canvas.find("laptop-1024"), Some(2));
    assert_eq!(canvas.restore_frames().len(), 3);
}

#[test]
fn laying_out_again_changes_nothing() {
    let mut canvas = spawned("https://s.test/");
    canvas.relayout(px(700.0));
    let first: Vec<i128> = canvas.panels.iter().map(|p| p.home_x).collect();
    canvas.relayout(px(700.0));
    let second: Vec<i128> = canvas.panels.iter().map(|p| p.home_x).collect();
    assert_eq!(first, second);
}

#[test]
fn a_scroll_in_one_panel_reaches_the_others_once() {
    let mut canvas = spawned("https://s.test/");
    let told = canvas.sync_scroll("tablet-768", 420_000);
    assert_eq!(told, vec!["mobile-375".to_string(), "laptop-1024".into()]);
    let again = canvas.sync_scroll("tablet-768", 420_000);
    assert!(again.is_empty(), "they are there already");
    canvas.forget_scroll_positions();
    assert_eq!(canvas.sync_scroll("tablet-768", 420_000).len(), 2);
    assert!(apply_scroll_script(500_000).contains("0.5"));
}

#[test]
fn a_click_sends_the_other_panels_after_it() {
    let mut canvas = spawned("https://s.test/");
    let (action, sent) = canvas.follow_navigation("tablet-768", "https://s.test/about", NOW);
    assert_eq!(action, FollowAction::Broadcast);
    assert_eq!(sent.len(), 2);
    assert_eq!(canvas.url, "https://s.test/about");
    let (action, _) = canvas.follow_navigation("mobile-375", "https://s.test/about", NOW);
    assert_eq!(action, FollowAction::Ignore);
}

#[test]
fn a_panel_that_could_not_load_says_so_and_stays_out_of_the_way() {
    let mut canvas = spawned("https://s.test/");
    assert!(matches!(canvas.load_report("tablet-768", "about:blank", true), LoadStep::LookAgain));
    assert!(canvas.has_failed("tablet-768", "https://s.test/"));
    assert_eq!(canvas.set_panel_state("tablet-768", PanelState::Failed(0)), Some(Some(false)));
    assert_eq!(canvas.set_panel_state("tablet-768", PanelState::Failed(0)), None);
    assert!(matches!(
        canvas.load_report("tablet-768", "https://s.test/", true),
        LoadStep::Loaded
    ));
}

#[test]
fn a_hidden_row_cannot_be_measured() {
    let mut canvas = spawned("https://s.test/");
    assert_eq!(canvas.cannot_measure(None), None);
    canvas.set_panels_hidden(true);
    assert!(canvas.cannot_measure(None).is_some());
    assert!(canvas.restore_frames().is_empty());
}

#[test]
fn a_page_that_disagrees_about_its_width_is_noted() {
    let mut canvas = spawned("https://s.test/");
    assert_eq!(canvas.set_reported_width("tablet-768", px(768.0)), (false, true));
    assert_eq!(canvas.set_reported_width("tablet-768", px(512.0)), (true, true));
    assert_eq!(canvas.set_reported_width("tablet-768", px(512.0)), (true, false));
    assert_eq!(canvas.set_reported_width("nothing", px(512.0)), (false, false));
    let info = canvas.info(&AppState::default());
    assert!(info.panels[1].width_mismatch);
    assert_eq!(info.panels[1].position, 2);
}

#[test]
fn the_pump_slows_down_when_nobody_is_there() {
    assert!(pump_interval(0, true) < pump_interval(60_000, true));
    assert!(pump_interval(60_000, true) <= pump_interval(60_000, false));
    let (tick, _) = next_sweep(0);
    assert_eq!(tick, 1);
    assert!(available_height(px(900.0)) > 0);
}

#[test]
fn the_drain_is_wrapped_like_any_other_script() {
    let script = drain_script();
    assert!(script.contains("return window.__bpDrain ? window.__bpDrain() : [];"));
    assert_eq!(
        script,
        wrap_script("return window.__bpDrain ? window.__bpDrain() : [];")
    );
}

#[test]
fn a_row_far_out_of_place_is_noticed() {
    let mut canvas = Canvas::default();
    assert!(canvas.is_in_reach());
    canvas.total_width = -1;
    assert!(!canvas.is_in_reach());
    canvas.total_width = 0;
    canvas.scroll_x = i128::MAX;
    assert!(!canvas.is_in_reach());
}
