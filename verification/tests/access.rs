use breakpoints::access::{
    axe_loaded, axe_step, axe_version, impact_rank, inject_script, summarise, AxeStep, PanelAudit,
    PanelViolation, PANEL_BUDGET,
};

fn px(v: i64) -> i64 {
    v * 1_000_000
}

fn violation(rule: &str, impact: &str) -> PanelViolation {
    PanelViolation {
        rule: rule.into(),
        impact: impact.into(),
        help: format!("{rule} help"),
        help_url: format!("https://dequeuniversity.com/rules/axe/{rule}"),
        targets: vec![format!("#{rule}")],
    }
}

fn audit(width: i64, violations: Vec<PanelViolation>) -> PanelAudit {
    PanelAudit {
        panel: format!("p{width}"),
        panel_name: format!("{width}px"),
        width: px(width),
        violations,
        error: None,
    }
}

/// The whole reason this exists. A rule broken at one width and not the
/// others is a responsive problem, and it has to be marked as one.
#[test]
fn a_rule_broken_at_one_width_only_is_marked_width_specific() {
    let report = summarise(
        vec![
            audit(375, vec![violation("target-size", "serious")]),
            audit(768, vec![]),
            audit(1280, vec![]),
        ],
        "test",
    );
    assert_eq!(report.rules.len(), 1);
    assert_eq!(report.rules[0].widths, vec![px(375)]);
    assert!(report.rules[0].width_specific);
    assert_eq!(report.width_specific_count, 1);
}

#[test]
fn a_rule_broken_everywhere_is_not_width_specific() {
    let report = summarise(
        vec![
            audit(375, vec![violation("image-alt", "critical")]),
            audit(768, vec![violation("image-alt", "critical")]),
        ],
        "test",
    );
    assert_eq!(report.rules[0].widths, vec![px(375), px(768)]);
    assert!(!report.rules[0].width_specific);
    assert_eq!(report.width_specific_count, 0);
}

/// An agent triages badly without an order, so the order is opinionated:
/// impact first, and within one impact the width-specific one first.
#[test]
fn the_worst_and_the_narrowest_come_first() {
    let report = summarise(
        vec![
            audit(
                375,
                vec![
                    violation("minor-thing", "minor"),
                    violation("everywhere", "serious"),
                    violation("only-here", "serious"),
                    violation("worst", "critical"),
                ],
            ),
            audit(768, vec![violation("everywhere", "serious")]),
        ],
        "test",
    );
    let order: Vec<&str> = report.rules.iter().map(|r| r.rule.as_str()).collect();
    assert_eq!(order, vec!["worst", "only-here", "everywhere", "minor-thing"]);
}

/// A panel that could not be asked must not be counted as a panel where
/// nothing was wrong, because that would make every rule look
/// width-specific.
#[test]
fn a_panel_that_failed_is_not_counted_as_a_clean_one() {
    let mut failed = audit(1280, vec![]);
    failed.error = Some("panel never loaded".into());
    let report = summarise(
        vec![
            audit(375, vec![violation("image-alt", "critical")]),
            audit(768, vec![violation("image-alt", "critical")]),
            failed,
        ],
        "test",
    );
    assert_eq!(report.widths_audited, vec![px(375), px(768)]);
    assert!(
        !report.rules[0].width_specific,
        "broken at both widths that answered"
    );
    assert_eq!(report.panels.len(), 3, "the failure is still reported");
}

#[test]
fn the_report_says_which_axe_found_these() {
    let version = axe_version("!function(){var axe=axe||{};axe.version=\"4.13.0\";}()");
    assert!(
        version.chars().next().is_some_and(|c| c.is_ascii_digit()),
        "read a version out of the bundle, got {version}"
    );
    let report = summarise(vec![], &version);
    assert_eq!(report.axe_version, version);
}

#[test]
fn an_impact_nobody_knows_comes_last() {
    assert!(impact_rank("critical") < impact_rank("serious"));
    assert!(impact_rank("serious") < impact_rank("moderate"));
    assert!(impact_rank("moderate") < impact_rank("minor"));
    assert!(impact_rank("minor") <= impact_rank("odd"));
}

#[test]
fn waiting_for_the_checks_ends_one_way_or_another() {
    assert!(inject_script("var axe;").contains("var axe;"));
    assert!(axe_loaded(None).is_err());
    assert!(matches!(axe_step(Some("done"), None, 10), AxeStep::Done));
    assert!(matches!(axe_step(Some("running"), None, 10), AxeStep::Wait));
    assert!(matches!(axe_step(Some("running"), None, PANEL_BUDGET + 1), AxeStep::Failed(_)));
    assert!(matches!(axe_step(Some("error"), Some("boom"), 10), AxeStep::Failed(_)));
}

/// Two panels of one width that break a rule alike leave no width spared.
#[test]
fn two_panels_of_one_width_are_one_width() {
    let report = summarise(
        vec![
            audit(375, vec![violation("image-alt", "critical")]),
            audit(375, vec![violation("image-alt", "critical")]),
        ],
        "test",
    );
    assert!(!report.rules[0].width_specific);
    assert_eq!(report.width_specific_count, 0);
}
