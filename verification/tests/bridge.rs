use breakpoints::bridge::definitions::{tool_definitions, tool_names, Tool};
use breakpoints::bridge::{
    authorised, call_tool, load_profile, method_of, set_enabled, status, string_arg, Arg, Call,
    Method, Switch,
};
use breakpoints::model::AppConfig;
use std::collections::BTreeSet;

fn defined_names() -> BTreeSet<String> {
    tool_definitions().into_iter().map(|t| t.name).collect()
}

fn number(n: u64) -> Arg {
    Arg::Number(format!("{n}"), Some(n), Some(n as i64 * 1_000_000))
}

fn args(list: Vec<(&str, Arg)>) -> Vec<(String, Arg)> {
    list.into_iter().map(|(k, v)| (k.to_string(), v)).collect()
}

#[test]
fn every_tool_is_both_dispatched_and_advertised() {
    let declared: BTreeSet<String> = tool_names().into_iter().collect();
    assert_eq!(
        declared,
        defined_names(),
        "the dispatch list and the tool definitions have drifted apart"
    );
}

#[test]
fn the_last_two_are_advertised_the_other_way_round() {
    let listed: Vec<String> = tool_definitions().into_iter().map(|t| t.name).collect();
    let names = tool_names();
    assert_eq!(listed[..21], names[..21]);
    assert_eq!(listed[21..], ["take_reports", "diff_panel"]);
    assert_eq!(names[21..], ["diff_panel", "take_reports"]);
}

#[test]
fn the_tool_list_has_no_duplicates() {
    assert_eq!(tool_names().len(), defined_names().len());
}

#[test]
fn every_required_argument_is_one_the_schema_describes() {
    // A required field with no matching property tells an agent to send
    // something it has no description of, and the mistake is a typo that
    // nothing else would catch.
    for tool in tool_definitions() {
        for field in &tool.required {
            assert!(
                tool.properties.iter().any(|p| &p.name == field),
                "{} requires \"{field}\" but never describes it",
                tool.name
            );
        }
    }
}

#[test]
fn every_tool_says_what_it_is_for() {
    for tool in tool_definitions() {
        assert!(
            !tool.description.trim().is_empty(),
            "{} is advertised with no description, so an agent has to guess",
            tool.name
        );
    }
}

#[test]
fn a_panel_index_sent_as_a_number_is_accepted() {
    // The schema calls it "Panel index or name", so an agent sends 0. That
    // used to come back as "panel is required", which sends it looking for
    // an argument it had already passed.
    let zero = args(vec![("panel", number(0))]);
    assert_eq!(string_arg(&zero, "panel").unwrap(), "0");
    let wide = args(vec![("panel", number(1024))]);
    assert_eq!(string_arg(&wide, "panel").unwrap(), "1024");
}

#[test]
fn a_string_argument_comes_back_as_written() {
    let given = args(vec![("panel", Arg::Text("Tablet".into()))]);
    assert_eq!(string_arg(&given, "panel").unwrap(), "Tablet");
}

#[test]
fn a_missing_argument_and_a_wrong_typed_one_say_different_things() {
    let missing = string_arg(&vec![], "panel").unwrap_err();
    assert!(missing.contains("required"), "{missing}");

    let wrong = string_arg(&args(vec![("panel", Arg::List)]), "panel").unwrap_err();
    assert!(wrong.contains("should be text"), "{wrong}");
    assert!(!wrong.contains("required"), "it was passed, just wrongly");
}

#[test]
fn a_request_is_read_with_what_it_leaves_out_filled_in() {
    let given = args(vec![
        ("panel", Arg::Text("md".into())),
        ("selector", Arg::Text("#nav".into())),
    ]);
    match call_tool("get_dom", &given).unwrap() {
        Call::GetDom { panel, selector, max } => {
            assert_eq!((panel.as_str(), selector.as_str(), max), ("md", "#nav", 8000));
        }
        other => panic!("{other:?}"),
    }
    match call_tool("detect_project", &args(vec![("path", Arg::Text("/p".into()))])).unwrap() {
        Call::DetectProject { path, apply } => assert_eq!((path.as_str(), apply), ("/p", true)),
        other => panic!("{other:?}"),
    }
    match call_tool(
        "set_viewport",
        &args(vec![("panel", number(1)), ("width", number(640))]),
    )
    .unwrap()
    {
        Call::SetViewport { panel, width, height } => {
            assert_eq!((panel.as_str(), width, height), ("1", Some(640_000_000), None));
        }
        other => panic!("{other:?}"),
    }
    match call_tool(
        "screenshot_panel",
        &args(vec![("panel", number(1)), ("fullPage", Arg::Flag(true))]),
    )
    .unwrap()
    {
        Call::ScreenshotPanel { full_page, .. } => assert!(full_page),
        other => panic!("{other:?}"),
    }
    assert!(matches!(call_tool("reload", &vec![]), Ok(Call::Bare(Tool::Reload))));
}

#[test]
fn every_tool_that_needs_nothing_is_called_with_nothing() {
    for tool in tool_definitions() {
        let said = call_tool(&tool.name, &vec![]);
        assert_eq!(said.is_ok(), tool.required.is_empty(), "{}", tool.name);
    }
    assert_eq!(
        call_tool("fly", &vec![]).unwrap_err(),
        "no tool called fly. GET /tools lists what there is."
    );
    for wrong in [Arg::Flag(true), Arg::Object, Arg::Null] {
        assert!(call_tool("navigate", &args(vec![("url", wrong)])).is_err());
    }
}

#[test]
fn a_request_without_the_token_is_not_answered() {
    assert!(authorised(None, None, None), "no token was ever asked for");
    assert!(!authorised(Some("t"), None, None));
    assert!(authorised(Some("t"), Some("Bearer t"), None));
    assert!(authorised(Some("t"), Some("Bearer Bearer  t "), None));
    assert!(authorised(Some("t"), Some("t"), None));
    assert!(!authorised(Some("t"), Some("Bearer x"), None));
    assert!(authorised(Some("t"), Some("Bearer x"), Some("t")));
    assert_eq!(method_of("ping", true), Ok(Method::Ping));
    assert_eq!(method_of("ping", false).unwrap_err().0, -32001);
    assert_eq!(method_of("fly", true), Err((-32601, "no method fly".to_string())));
}

#[test]
fn a_bridge_keeps_the_token_it_has() {
    let mut config = AppConfig::default();
    assert_eq!(set_enabled(&mut config, true, false, "one".into()), Switch::Listen);
    assert_eq!(status(&config, false).token.as_deref(), Some("one"));
    assert!(status(&config, true).active);
    assert_eq!(set_enabled(&mut config, true, true, "two".into()), Switch::Keep);
    assert_eq!(set_enabled(&mut config, false, true, "two".into()), Switch::Stop);
    assert!(!status(&config, false).enabled);
    assert_eq!(set_enabled(&mut config, true, false, "three".into()), Switch::Listen);
    assert_eq!(status(&config, false).token.as_deref(), Some("one"));
    assert_eq!(status(&config, false).url, "http://127.0.0.1:7333");
}

#[test]
fn a_profile_that_is_not_there_is_not_loaded() {
    let mut config = AppConfig::default();
    assert!(load_profile(&mut config, "nothing").is_err());
    assert_eq!(load_profile(&mut config, "default").unwrap().len(), 5);
}
