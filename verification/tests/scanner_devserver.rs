use breakpoints::scanner::devserver::{
    compose_web_ports, dedupe, demote_bundlers, lando_candidates, parse_port, read_mapping,
    vite_origin,
};
use breakpoints::scanner::log::ScanLog;
use breakpoints::scanner::types::DevServerDiscovery;
use breakpoints::scanner::yaml::{is_shallow, read_yaml, Mark, Node, TOO_DEEP};

fn server(url: &str, port: Option<u16>, source: &str, confidence: u32) -> DevServerDiscovery {
    DevServerDiscovery {
        url: url.into(),
        port,
        source: source.into(),
        confidence,
        responding: None,
    }
}

#[test]
fn a_vite_config_with_a_port_beats_the_default() {
    let found = vite_origin("export default { server: { port: 3001 } }").unwrap();
    assert_eq!(found.0, "http://localhost:3001");
    assert_eq!(found.1, Some(3001));
}

#[test]
fn host_true_means_every_interface_not_a_hostname() {
    let found = vite_origin("export default { server: { host: true, port: 5174 } }").unwrap();
    assert_eq!(found.0, "http://localhost:5174");
}

#[test]
fn compose_ports_come_from_web_services_in_either_mapping_form() {
    let mut log = ScanLog::new("test", "now");
    let yaml = "services:\n  web:\n    ports:\n      - \"8080:80\"\n  db:\n    ports:\n      - \"3306:3306\"\n  nginx:\n    ports:\n      - \"127.0.0.1:8081:80\"\n";
    let mut found = compose_web_ports(yaml, "docker-compose.yml", &mut log);
    found.sort();
    assert_eq!(found, vec![8080, 8081]);
}

#[test]
fn a_bundler_port_never_outranks_the_environment_serving_the_site() {
    let mut log = ScanLog::new("test", "now");
    let mut candidates = vec![
        server("http://localhost:5173", Some(5173), "web/themes/x/vite.config.js", 90),
        server("https://x.lndo.site", None, ".lando.yml name", 90),
    ];
    demote_bundlers(&mut candidates, &mut log);
    let candidates = dedupe(candidates);
    assert_eq!(candidates[0].url, "https://x.lndo.site");
}

#[test]
fn a_vite_only_project_keeps_its_bundler_url() {
    let mut log = ScanLog::new("test", "now");
    let mut candidates = vec![server("http://localhost:5173", Some(5173), "vite.config.js", 90)];
    demote_bundlers(&mut candidates, &mut log);
    assert_eq!(candidates[0].confidence, 90);
}

#[test]
fn a_lando_proxy_for_tooling_does_not_outrank_the_site_itself() {
    let candidates = vec![
        server("https://vite-x.lndo.site:5173", None, ".lando.yml proxy", 45),
        server("https://x.lndo.site", None, ".lando.yml name", 90),
    ];
    let candidates = dedupe(candidates);
    assert_eq!(candidates[0].url, "https://x.lndo.site");
}

#[test]
fn the_higher_confidence_source_survives_deduping() {
    let candidates = vec![
        server("http://localhost:5173", None, "default", 40),
        server("http://localhost:5173", None, "vite.config.js", 90),
    ];
    let candidates = dedupe(candidates);
    assert_eq!(candidates.len(), 1);
    assert_eq!(candidates[0].source, "vite.config.js");
}

#[test]
fn a_published_port_is_the_one_on_this_side() {
    assert_eq!(read_mapping("8080:80"), Some(8080));
    assert_eq!(read_mapping("127.0.0.1:8081:80"), Some(8081));
    assert_eq!(read_mapping("80"), None);
    assert_eq!(parse_port("65535"), Some(65535));
    assert_eq!(parse_port("65536"), None);
    assert_eq!(parse_port("x"), None);
}

#[test]
fn a_lando_document_offers_its_name_and_its_proxies() {
    let text = |s: &str| Node::Text(s.into());
    let doc = Node::Members(vec![
        (text("name"), text("mysite")),
        (
            text("proxy"),
            Node::Members(vec![(text("mailhog"), Node::Items(vec![text("mail.lndo.site")]))]),
        ),
    ]);
    let mut log = ScanLog::new("p", "now");
    let found = lando_candidates(".lando.yml", &doc, &mut log);
    let urls: Vec<&str> = found.iter().map(|d| d.url.as_str()).collect();
    assert_eq!(urls, vec!["https://mysite.lndo.site", "https://mail.lndo.site"]);
    assert_eq!((found[0].confidence, found[1].confidence), (90, 45));
    assert_eq!(log.lines_for_file(".lando.yml").len(), 1, "the proxy host is tooling");

    let found = lando_candidates(".lando.yml", &Node::Members(vec![]), &mut log);
    assert!(found.is_empty());
    assert_eq!(log.lines_for_file(".lando.yml").len(), 2, "and there is no name");
    assert!(log.lines_for_file("other.yml").is_empty());
}

/// A text that nests too deep is one that could not be read, and the deepest
/// that is read is read.
#[test]
fn a_text_that_nests_too_deep_is_not_read() {
    let mut log = ScanLog::new("test", "now");
    for deep in ["- ".repeat(1_000_000), "[ ? ],".repeat(100_000)] {
        assert!(compose_web_ports(&deep, "docker-compose.yml", &mut log).is_empty());
        assert_eq!(read_yaml(&deep).err().as_deref(), Some(TOO_DEEP));
    }
    assert!(read_yaml(&format!("{}a", "- ".repeat(499))).is_ok());
    assert_eq!(read_yaml(&format!("{}a", "- ".repeat(500))).err().as_deref(), Some(TOO_DEEP));
    // A mapping and a sequence at each column.
    let mut text = String::new();
    for column in 0..249 {
        let pad = " ".repeat(column);
        text.push_str(&format!("{pad}a:\n{pad}-\n"));
    }
    assert!(read_yaml(&text).is_ok());
    let pad = " ".repeat(249);
    let deeper = format!("{text}{pad}a:\n{pad}-\n{pad} b:\n");
    assert_eq!(read_yaml(&deeper).err().as_deref(), Some(TOO_DEEP));
    assert!(read_yaml(&format!("{}{}", "[".repeat(200), "]".repeat(200))).is_ok());
}

/// An alias is as deep as what it stands for, and no deeper.
#[test]
fn aliases_count_for_what_they_stand_for() {
    let flat: String = (0..100).map(|n| format!("- &a{n} [[[1]]]\n- [[[*a{n}]]]\n")).collect();
    assert!(read_yaml(&flat).is_ok());
    // Each of these holds the one before it.
    let chain = |n: usize| -> String {
        let links = (1..n).map(|k| format!("- &a{k} [*a{}]\n", k - 1));
        "- &a0 [1]\n".to_string() + &links.collect::<String>()
    };
    assert!(read_yaml(&chain(498)).is_ok());
    assert_eq!(read_yaml(&chain(499)).err().as_deref(), Some(TOO_DEEP));
}

#[test]
fn what_is_closed_again_does_not_nest() {
    let pair = [Mark::SequenceStart(0), Mark::Scalar(0), Mark::SequenceEnd, Mark::Other];
    assert!(is_shallow(&pair.repeat(10_000)));
    assert!(is_shallow(&vec![Mark::MappingStart(0); 500]));
    assert!(!is_shallow(&vec![Mark::MappingStart(0); 501]));
    let mut named = vec![Mark::MappingStart(1); 250];
    named.extend(vec![Mark::MappingEnd; 250]);
    named.extend(vec![Mark::SequenceStart(0); 250]);
    assert!(is_shallow(&named));
    named.push(Mark::Alias(1));
    assert!(is_shallow(&named));
    named.push(Mark::SequenceStart(0));
    named.push(Mark::Alias(1));
    assert!(!is_shallow(&named));
}
