use breakpoints::explain::{
    console_errors, differing_properties, explain, markup_script, measure_script, note_to_explain,
    rules_script, summarise, AtWidth, NoteRecord, NO_ELEMENT,
};
use breakpoints::state::ConsoleLine;

fn px(v: i64) -> i64 {
    v * 1_000_000
}

fn at(width: i64, found: bool, styles: &[(&str, &str)]) -> AtWidth {
    AtWidth {
        panel: format!("p{width}"),
        panel_name: format!("{width}"),
        width: px(width),
        found,
        box_: None,
        styles: styles.iter().map(|(k, v)| (k.to_string(), v.to_string())).collect(),
        error: None,
    }
}

fn note(id: &str, selector: &str) -> NoteRecord {
    NoteRecord {
        id: id.into(),
        panel: "sm".into(),
        panel_name: "Small".into(),
        width: px(375),
        note: "the nav is gone".into(),
        selector: selector.into(),
        element: "nav".into(),
        url: String::new(),
        at: 1,
        delivered: false,
        delivered_to: None,
        reply: None,
    }
}

/// The whole point: a property with one value everywhere is noise, and a
/// property with two is the answer.
#[test]
fn only_properties_that_move_between_widths_are_named() {
    let across = vec![
        at(375, true, &[("padding-top", "8px"), ("display", "flex")]),
        at(768, true, &[("padding-top", "24px"), ("display", "flex")]),
    ];
    assert_eq!(differing_properties(&across), vec!["padding-top".to_string()]);
}

/// One panel cannot disagree with itself, so nothing is claimed.
#[test]
fn a_single_width_names_nothing() {
    let across = vec![at(375, true, &[("padding-top", "8px")])];
    assert!(differing_properties(&across).is_empty());
}

/// A width where the element is absent is left out of the comparison
/// rather than counted as an empty value, which would make every property
/// look as though it moved.
#[test]
fn a_width_without_the_element_does_not_fake_a_difference() {
    let across = vec![
        at(375, true, &[("padding-top", "8px")]),
        at(768, true, &[("padding-top", "8px")]),
        at(1024, false, &[]),
    ];
    assert!(differing_properties(&across).is_empty());
}

/// The summary says when the element is missing somewhere, because an
/// element that exists at one width and not another is its own bug.
#[test]
fn the_summary_says_where_the_element_is_missing() {
    let across = vec![
        at(375, true, &[]),
        at(768, false, &[]),
    ];
    let said = summarise(&note("x", "#nav"), &across, &vec![], &vec![]);
    assert!(said.contains("not in the page at 768px"), "{said}");
}

/// The measuring script has to be valid JavaScript, and a selector with a
/// quote in it cannot break out of the string it is put in.
#[test]
fn a_quote_in_the_selector_cannot_escape_the_script() {
    let script = measure_script("a[href=\"x\"]");
    assert!(script.contains(r#"querySelector("a[href=\"x\"]")"#), "{script}");
}

#[test]
fn every_script_looks_for_the_element_it_was_given() {
    assert!(markup_script("#nav").contains(r##"querySelector("#nav")"##));
    assert!(rules_script("#nav").contains(r##""#nav""##));
    assert!(measure_script("#nav").contains(r#"["display","position","#));
}

#[test]
fn a_note_is_explained_by_its_own_id() {
    let notes = vec![note("a", "#nav"), note("b", "  ")];
    assert_eq!(note_to_explain(&notes, "a"), Ok(0));
    assert_eq!(note_to_explain(&notes, "b"), Err(NO_ELEMENT.to_string()));
    assert_eq!(
        note_to_explain(&notes, "c"),
        Err("no note with id \"c\". This sitting has: a (375px), b (375px)".to_string())
    );
    assert_eq!(
        note_to_explain(&vec![], "c"),
        Err("no notes have been written in this sitting".to_string())
    );
}

#[test]
fn an_explanation_carries_what_was_measured_and_what_was_logged() {
    let lines = vec![
        ConsoleLine { level: "log".into(), text: "hi".into(), at: 1 },
        ConsoleLine { level: "error".into(), text: "boom".into(), at: 2 },
    ];
    assert_eq!(console_errors(&lines), vec!["boom".to_string()]);
    let across = vec![
        at(375, true, &[("gap", "8px")]),
        at(768, true, &[("gap", "24px")]),
    ];
    let said = explain(&note("a", "#nav"), across, None, vec![], &lines);
    assert_eq!(said.differs, vec!["gap".to_string()]);
    assert_eq!(
        said.summary,
        "\"the nav is gone\" at 375px. differs between widths: gap. 1 console error at this width"
    );
}
