use breakpoints::audit::{rank, report, tally, Finding, Probed, PROBES};
use breakpoints::canvas::row::Canvas;
use breakpoints::model::Viewport;
use breakpoints::state::{AppState, ConsoleLine};

fn finding(severity: &str, kind: &str) -> Finding {
    Finding {
        kind: Some(kind.into()),
        severity: Some(severity.into()),
        message: None,
        selector: None,
        measured: None,
        rect: None,
    }
}

fn unrated(kind: &str) -> Finding {
    Finding { severity: None, ..finding("", kind) }
}

#[test]
fn a_broken_layout_is_reported_before_a_design_call() {
    let mut findings = vec![
        finding("low", "console-error"),
        finding("medium", "tap-target"),
        finding("high", "overflow"),
    ];
    rank(&mut findings);
    let order: Vec<&str> = findings
        .iter()
        .map(|f| f.severity.as_deref().unwrap())
        .collect();
    assert_eq!(order, ["high", "medium", "low"]);
}

#[test]
fn findings_of_equal_severity_keep_the_order_they_were_found_in() {
    // Document order is the useful tiebreak: the first overflow on the page
    // is usually the one causing the rest.
    let mut findings = vec![
        finding("high", "first"),
        finding("high", "second"),
        finding("high", "third"),
    ];
    rank(&mut findings);
    let order: Vec<&str> = findings.iter().map(|f| f.kind.as_deref().unwrap()).collect();
    assert_eq!(order, ["first", "second", "third"]);
}

#[test]
fn a_finding_with_no_severity_sinks_rather_than_disappearing() {
    let mut findings = vec![unrated("mystery"), finding("high", "overflow")];
    rank(&mut findings);
    assert_eq!(findings[0].kind.as_deref(), Some("overflow"));
    assert_eq!(findings[1].kind.as_deref(), Some("mystery"));
}

#[test]
fn the_summary_counts_every_finding_exactly_once() {
    let findings = vec![
        finding("high", "a"),
        finding("high", "b"),
        finding("medium", "c"),
        unrated("no severity at all"),
    ];
    let (high, medium, low) = tally(&findings);
    assert_eq!((high, medium, low), (2, 1, 1));
    assert_eq!(high + medium + low, findings.len());
}

#[test]
fn an_empty_report_counts_nothing() {
    assert_eq!(tally(&vec![]), (0, 0, 0));
}

/// The probes are JavaScript living in a string, so nothing compiles them. A
/// syntax error would turn every panel's result into a single "probes did not
/// run" finding and look like a page problem.
#[test]
fn the_probe_script_is_valid_javascript() {
    // `return` at the top level is only legal inside a function, which is
    // how eval_js wraps it.
    let wrapped = format!("(function () {{ {PROBES} }})();");
    let opened = wrapped.chars().filter(|c| "({[".contains(*c)).count();
    let closed = wrapped.chars().filter(|c| ")}]".contains(*c)).count();
    assert_eq!(opened, closed, "audit probes");
    assert!(wrapped.contains("return"));
}

#[test]
fn a_report_has_a_row_for_every_panel_and_its_console() {
    let mut canvas = Canvas::default();
    let v = Viewport::new("Tablet", 768_000_000, 1_020_000_000, "md");
    let places = canvas.begin_row(&vec![v.clone()], "https://s.test/", 700_000_000);
    for place in places {
        canvas.add_panel(v.clone(), place);
    }
    let mut state = AppState::default();
    state.push_console(
        "tablet-768",
        ConsoleLine { level: "error".into(), text: "boom".into(), at: 1 },
    );
    let panels = canvas.info(&state).panels;
    let probes = vec![Probed {
        findings: Ok(vec![finding("medium", "tap-target"), finding("high", "overflow")]),
        rendered_width: Some("768".into()),
    }];
    let said = report(&panels, probes, &state, "https://s.test/").unwrap();
    assert_eq!(said.panels.len(), 1);
    assert_eq!(said.panels[0].findings[0].kind.as_deref(), Some("overflow"));
    assert_eq!(said.high, 1);
    assert_eq!(said.medium + said.low, said.panels[0].findings.len() - 1);
    assert_eq!(said.url, "https://s.test/");
}
