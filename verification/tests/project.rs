use breakpoints::bridge::row_to_apply;
use breakpoints::model::{AppConfig, Profile, UrlStatus, Viewport};
use breakpoints::project::{
    choose_dev_url, classify, dev_candidates, file_to_write, file_was_written, folder_to_restore,
    inside_project, is_real_url, not_a_folder, open, project_for_url, project_name, remember,
    url_to_open, what_is_known, Asking, Choosing,
};
use breakpoints::project_file::ProjectFile;
use breakpoints::scanner::types::{DevServerDiscovery, ScanReport};
use breakpoints::state::ProjectContext;

fn px(v: i64) -> i64 {
    v * 1_000_000
}

/// The candidate list as the scanner hands it over: url and confidence.
fn candidates(urls: &[(&str, f64)]) -> Vec<(String, u32)> {
    urls.iter().map(|(u, c)| (u.to_string(), (c * 100.0).round() as u32)).collect()
}

/// A prober that says yes to exactly the URLs named.
fn only_these(live: &'static [&'static str]) -> impl FnMut(String) -> UrlStatus {
    move |url: String| {
        if live.contains(&url.as_str()) {
            UrlStatus::Answering
        } else {
            UrlStatus::NotResponding
        }
    }
}

/// Ask whoever is to be asked until it comes to something.
fn settle(list: &Vec<(String, u32)>, mut ask: impl FnMut(String) -> UrlStatus) -> Option<String> {
    let mut heard = Vec::new();
    loop {
        match choose_dev_url(list, &heard) {
            Choosing::Ask(url) => heard.push(ask(url)),
            Choosing::Chosen(url) => return url,
        }
    }
}

#[test]
fn an_empty_canvas_is_not_a_url_worth_remembering() {
    // The project-to-URL map is what later decides whether a URL may be
    // written into a committed breakpoints.md, so a meaningless entry in it
    // is not harmless.
    assert!(!is_real_url("about:blank"));
    assert!(!is_real_url(""));
    assert!(!is_real_url("   "));
    assert!(is_real_url("https://mine.lndo.site"));
    assert!(is_real_url("http://localhost:1420"));
}

#[test]
fn a_site_that_is_there_is_there() {
    assert_eq!(classify(200), UrlStatus::Answering);
    assert_eq!(classify(204), UrlStatus::Answering);
    assert_eq!(classify(301), UrlStatus::Answering);
    assert_eq!(classify(302), UrlStatus::Answering);
}

#[test]
fn a_site_asking_who_you_are_is_still_a_site() {
    // Ordinary on a staging box behind basic auth.
    assert_eq!(classify(401), UrlStatus::Answering);
    assert_eq!(classify(403), UrlStatus::Answering);
}

#[test]
fn a_proxy_saying_it_has_never_heard_of_you_is_not_a_site() {
    // This is the bug. Lando's proxy answers for every .ddev.site name
    // with a 404, so "something answered" sent a Lando project to a dead
    // DDEV hostname and every panel loaded the proxy's error page.
    assert_eq!(classify(404), UrlStatus::NotResponding);
    assert_eq!(classify(500), UrlStatus::NotResponding);
    assert_eq!(classify(502), UrlStatus::NotResponding);
    assert_eq!(classify(503), UrlStatus::NotResponding);
}

#[test]
fn the_first_candidate_that_answers_wins() {
    let list = candidates(&[
        ("https://dead.ddev.site", 0.9),
        ("https://live.lndo.site", 0.9),
    ]);
    let chosen = settle(&list, only_these(&["https://live.lndo.site"]));
    assert_eq!(chosen.as_deref(), Some("https://live.lndo.site"));
}

#[test]
fn a_higher_ranked_candidate_that_answers_is_not_passed_over() {
    let list = candidates(&[
        ("https://live.lndo.site", 0.9),
        ("https://other.ddev.site", 0.9),
    ]);
    let chosen = settle(
        &list,
        only_these(&["https://live.lndo.site", "https://other.ddev.site"]),
    );
    assert_eq!(chosen.as_deref(), Some("https://live.lndo.site"));
}

#[test]
fn when_nothing_answers_the_best_guess_is_still_offered() {
    // Better to fail at the right hostname than to show nothing: the
    // panels then say "not responding" about a URL worth starting.
    let list = candidates(&[
        ("https://first.lndo.site", 0.9),
        ("https://second.ddev.site", 0.9),
    ]);
    let chosen = settle(&list, only_these(&[]));
    assert_eq!(chosen.as_deref(), Some("https://first.lndo.site"));
}

#[test]
fn a_low_confidence_guess_is_never_probed_but_can_still_be_the_fallback() {
    // Below AUTO_USE a candidate is a hint, not a claim, so it does not get
    // to win a race it was never entered in.
    let list = candidates(&[("http://localhost:5173", 0.5)]);
    let chosen = settle(&list, |url: String| {
        panic!("probed {url}, which is below the auto-use threshold")
    });
    assert_eq!(chosen.as_deref(), Some("http://localhost:5173"));
}

#[test]
fn a_project_with_no_dev_server_gets_no_url() {
    let chosen = settle(&vec![], only_these(&[]));
    assert_eq!(chosen, None);
}

#[test]
fn only_the_first_four_candidates_are_asked() {
    // Each probe costs up to three seconds, and a project that has lived
    // through several environments can carry a lot of stale config.
    let list = candidates(&[
        ("https://a", 0.9),
        ("https://b", 0.9),
        ("https://c", 0.9),
        ("https://d", 0.9),
        ("https://e", 0.9),
    ]);
    let chosen = settle(&list, only_these(&["https://e"]));
    assert_eq!(
        chosen.as_deref(),
        Some("https://a"),
        "the fifth was never asked, so the best guess is the fallback"
    );
}

fn scanned(hash: &str) -> ScanReport {
    ScanReport {
        project_root: "/p/mine".into(),
        project_name: "mine".into(),
        frameworks: vec![],
        breakpoints: vec![],
        dev_servers: vec![DevServerDiscovery {
            url: "https://mine.lndo.site".into(),
            port: None,
            source: "test".into(),
            confidence: 90,
            responding: None,
        }],
        conflicts: vec![],
        warnings: vec![],
        scanned_files: 0,
        skipped_files: 0,
        css_files: 0,
        duration_ms: 0,
        source_hash: hash.into(),
        breakpoint_source_file: String::new(),
        log_path: None,
        truncated: false,
    }
}

fn file(url: Option<&str>, hash: &str) -> ProjectFile {
    let mut f = ProjectFile::default();
    f.url = url.map(str::to_string);
    f.source_hash = Some(hash.into());
    f.viewports.push(Viewport::new("Tablet", px(768), px(1020), "md"));
    f
}

#[test]
fn a_project_file_wins_over_what_the_scan_found() {
    let config = AppConfig::default();
    let opened = open(
        "/p/mine",
        &config,
        scanned("aaaa"),
        Some("https://mine.lndo.site".into()),
        Some(Ok(file(Some("https://own.test"), "bbbb"))),
        UrlStatus::Answering,
    );
    assert_eq!(opened.name, "mine");
    assert!(opened.project_driven);
    assert!(opened.source_changed, "the widths moved since it was written");
    assert_eq!(opened.recommendation.dev_url.as_deref(), Some("https://mine.lndo.site"));
    let (row, url) = row_to_apply(&opened);
    assert_eq!(row.len(), 1);
    assert_eq!(url, "https://own.test");
}

#[test]
fn a_project_file_that_will_not_parse_is_said_and_not_used() {
    let opened = open(
        "/p/mine",
        &AppConfig::default(),
        scanned("aaaa"),
        None,
        Some(Err("no table".into())),
        UrlStatus::Unknown,
    );
    assert!(!opened.project_driven);
    assert_eq!(opened.project_file_error.as_deref(), Some("no table"));
    assert!(!opened.source_changed);
    let (row, url) = row_to_apply(&opened);
    assert_eq!(row.len(), 5, "the standard devices");
    assert_eq!(url, "about:blank", "never the last project's site");
}

#[test]
fn only_an_address_that_was_not_asked_yet_is_asked() {
    let dev = Some("https://a".to_string());
    let own = url_to_open(&Some(file(Some("https://b"), "x")), &dev);
    assert_eq!(own.as_deref(), Some("https://b"));
    let there = vec![UrlStatus::NotResponding, UrlStatus::Answering];
    assert_eq!(what_is_known(&own, &dev, &there), Asking::AskIt);
    let given = url_to_open(&None, &dev);
    assert_eq!(what_is_known(&given, &dev, &there), Asking::Known(UrlStatus::Answering));
    assert_eq!(what_is_known(&None, &dev, &there), Asking::Known(UrlStatus::Unknown));
    // A hint that is too weak to be asked while choosing is asked now.
    let Choosing::Chosen(hint) = choose_dev_url(&candidates(&[("https://h", 0.4)]), &vec![]) else {
        panic!("there is nothing to ask");
    };
    assert_eq!(hint.as_deref(), Some("https://h"));
    assert_eq!(what_is_known(&hint, &hint, &vec![]), Asking::AskIt);
    assert_eq!(dev_candidates(&scanned("a")), vec![("https://mine.lndo.site".to_string(), 90)]);
}

#[test]
fn a_best_guess_that_did_not_answer_is_not_called_answering() {
    let list = candidates(&[("https://u", 0.9)]);
    let heard = vec![UrlStatus::NotResponding];
    let Choosing::Chosen(dev) = choose_dev_url(&list, &heard) else {
        panic!("every door was knocked on");
    };
    assert_eq!(dev.as_deref(), Some("https://u"));
    let url = url_to_open(&None, &dev);
    let Asking::Known(status) = what_is_known(&url, &dev, &heard) else {
        panic!("the dev URL was asked already");
    };
    assert_eq!(status, UrlStatus::NotResponding);
    let opened = open("/p/mine", &AppConfig::default(), scanned("a"), dev, None, status);
    assert_eq!(opened.dev_url.as_deref(), Some("https://u"));
    assert_eq!(opened.url_status, UrlStatus::NotResponding);
}

#[test]
fn an_address_opened_with_a_project_finds_it_again() {
    let mut config = AppConfig::default();
    remember(&mut config, Some("/p/mine"), &vec![], "https://mine.test/", "now");
    assert_eq!(project_for_url(&config, "https://mine.test/").as_deref(), Some("/p/mine"));
    assert_eq!(folder_to_restore(&config).as_deref(), Some("/p/mine"));
    assert_eq!(config.projects[0].1.last_scan.as_deref(), Some("now"));
    remember(&mut config, Some("/p/other"), &vec![], "about:blank", "later");
    assert_eq!(project_for_url(&config, "about:blank"), None);
    assert_eq!(config.last_url.as_deref(), Some("about:blank"));
}

#[test]
fn without_a_project_the_row_becomes_the_active_profiles() {
    let row = vec![Viewport::new("Tablet", px(768), px(1020), "md")];
    let mut config = AppConfig::default();
    remember(&mut config, None, &row, "https://a.test/", "now");
    assert_eq!(config.profiles[0].1.viewports.len(), 5, "the default is locked");
    config.profiles.push((
        "mine".into(),
        Profile { name: "Mine".into(), locked: false, viewports: vec![] },
    ));
    config.active_profile = "mine".into();
    remember(&mut config, None, &row, "https://a.test/", "now");
    assert_eq!(config.active_viewports().len(), 1);
}

#[test]
fn a_file_is_written_from_what_is_open() {
    let row = vec![Viewport::new("Tablet", px(768), px(1020), "md")];
    assert!(file_to_write(&None, &row, None, true, false, "2026-09-09").is_err());
    let mut project = ProjectContext {
        root: "/p/mine".into(),
        name: "mine".into(),
        project_driven: false,
        dev_url: None,
        report: Some(scanned("abcd1234")),
    };
    let written = file_to_write(&Some(ProjectContext { report: Some(scanned("abcd1234")), ..ProjectContext {
        root: "/p/mine".into(),
        name: "mine".into(),
        project_driven: false,
        dev_url: None,
        report: None,
    } }), &row, None, true, false, "2026-09-09")
    .unwrap();
    assert_eq!(written.source.as_deref(), Some("css media queries"));
    assert_eq!(written.source_hash.as_deref(), Some("abcd1234"));
    assert_eq!(written.generated.as_deref(), Some("2026-09-09"));
    let mut config = AppConfig::default();
    file_was_written(&mut config, &mut project);
    assert!(project.project_driven);
    assert_eq!(config.projects[0].1.source_hash.as_deref(), Some("abcd1234"));
}

#[test]
fn nothing_beside_the_project_is_inside_it() {
    assert!(inside_project(Some("/p/mine"), Some("/p/mine/a.css")));
    assert!(inside_project(Some("/p/mine"), Some("/p/mine")));
    assert!(!inside_project(Some("/p/mine"), Some("/p/mine-other/a.css")));
    assert!(!inside_project(Some("/p/mine"), Some("/p")));
    assert!(!inside_project(Some("/p/mine"), None));
    assert!(inside_project(Some("/"), Some("/p")));
    assert_eq!(project_name("/"), "project");
    assert_eq!(not_a_folder("/p/x"), "/p/x is not a folder");
}
