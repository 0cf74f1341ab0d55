//! Where the site is actually running.
//!
//! Ordered by how reliable each source is. High confidence gets used
//! automatically; anything less is offered as a list, and you can always type a
//! URL over the top of whatever this decides.

use vstd::prelude::*;
use vstd::string::StringExecFns;
use crate::order::{ranks, sorted, stable_sort, text_below, text_less};
use crate::text::{
    begins, begins_with, chars_of, contains_str, decimal, decimal_string, digit, has, is_digit,
    opt_view, same, split, split_char, string_of, texts, trim_of, trimmed_of,
};
use super::comments::{blank_chars, blanked, Dialect};
use super::jsobj;
use super::jsobj::{entries_of, key_from, members, object_at, Entry, Member};
use super::log::{snippet_of, Event, ScanLog};
use super::manifest::{json_entry, json_lookup, Lookup};
use super::patterns::{find_all, group_or_empty, group_views, matches_of, Groups};
use super::types::{
    nothing_found, servers, DetectorOutput, DevServerDiscovery, OutputFound, ServerFound,
};
use super::units::{all_digits, digits_value};
use super::walk::{
    chosen, name_begins, named, parts, parts_of, read_of, Disk, FileIndex, Given, ReadBudget,
};
use super::yaml::{member_of, member_text, read_yaml, text_of, yaml_in, Node};

verus! {

/// Confidence at or above this is used without asking.
pub const AUTO_USE: u32 = 85;

/// What looking for dev servers has come to so far.
#[verifier::ext_equal]
pub struct Candidates {
    pub found: Seq<ServerFound>,
    pub left: usize,
    pub events: Seq<Event>,
}

pub open spec fn server(
    url: Seq<char>,
    port: Option<u16>,
    source: Seq<char>,
    confidence: u32,
) -> ServerFound {
    ServerFound { url, port, source, confidence, responding: None }
}

/// One more candidate, and the log line for it.
pub open spec fn offered(c: Candidates, s: ServerFound) -> Candidates {
    Candidates {
        found: c.found.push(s),
        events: c.events.push(
            Event::Candidate { url: s.url, source: s.source, confidence: s.confidence },
        ),
        ..c
    }
}

pub open spec fn said(c: Candidates, e: Seq<Event>) -> Candidates {
    Candidates { events: c.events + e, ..c }
}

/// Whether `v` and `log` hold what `c` says, for a log that began as `start`.
pub open spec fn carries(
    v: Seq<DevServerDiscovery>,
    log: super::log::Logged,
    c: Candidates,
    start: super::log::Logged,
) -> bool {
    servers(v) == c.found && log == start.with(c.events)
}

fn offer(
    out: &mut Vec<DevServerDiscovery>,
    url: String,
    port: Option<u16>,
    source: &str,
    confidence: u32,
    log: &mut ScanLog,
    Ghost(c): Ghost<Candidates>,
    Ghost(start): Ghost<super::log::Logged>,
)
    requires
        carries(old(out)@, old(log)@, c, start),
    ensures
        carries(
            final(out)@,
            final(log)@,
            offered(c, server(url@, port, source@, confidence)),
            start,
        ),
{
    log.candidate(url.as_str(), source, confidence);
    let d = DevServerDiscovery {
        url,
        port,
        source: source.to_owned(),
        confidence,
        responding: None,
    };
    out.push(d);
    proof {
        let e = Event::Candidate { url: url@, source: source@, confidence };
        super::log::lemma_with_with(start, c.events, seq![e]);
        assert(c.events + seq![e] =~= c.events.push(e));
        assert(servers(out@) =~= c.found.push(d@));
    }
}

fn joined3(a: &str, b: &str, c: &str) -> (r: String)
    ensures
        r@ == a@ + b@ + c@,
{
    let mut out = a.to_owned();
    out.append(b);
    out.append(c);
    out
}

/// The host of a proxy entry: what stands before any path.
pub open spec fn host_part(s: Seq<char>) -> Seq<char> {
    split(s, '/')[0]
}

/// Whether a proxy host is the site rather than tooling.
pub open spec fn is_site(name: Option<Seq<char>>, host: Seq<char>) -> bool {
    name matches Some(n) && begins(host, n + "."@)
}

/// The hosts of one proxied service, one after another.
///
/// Proxy entries are a mixed bag. One of them is usually the site, and the rest
/// are tooling: a Vite HMR server, Mailhog, phpMyAdmin. A host that starts with
/// the project name is the site; the others are not, and offering a Vite port
/// as the site URL is worse than useless.
pub open spec fn hosts_offered(
    c: Candidates,
    file: Seq<char>,
    name: Option<Seq<char>>,
    hosts: Seq<Node>,
) -> Candidates
    decreases hosts.len(),
{
    if hosts.len() == 0 {
        c
    } else {
        let before = hosts_offered(c, file, name, hosts.drop_last());
        match text_of(hosts.last()) {
            None => before,
            Some(t) => {
                let host = host_part(t);
                let noted = if is_site(name, host) {
                    before
                } else {
                    said(
                        before,
                        seq![
                            Event::Discarded {
                                file,
                                value: host,
                                reason: "proxy host does not start with the project name, so it is tooling rather than the site"@,
                            },
                        ],
                    )
                };
                offered(
                    noted,
                    server(
                        "https://"@ + host,
                        None,
                        ".lando.yml proxy"@,
                        if is_site(name, host) {
                            95
                        } else {
                            45
                        },
                    ),
                )
            },
        }
    }
}

fn offer_hosts(
    out: &mut Vec<DevServerDiscovery>,
    file: &str,
    name: &Option<String>,
    hosts: &Vec<Node>,
    log: &mut ScanLog,
    Ghost(c): Ghost<Candidates>,
    Ghost(start): Ghost<super::log::Logged>,
)
    requires
        carries(old(out)@, old(log)@, c, start),
    ensures
        carries(
            final(out)@,
            final(log)@,
            hosts_offered(c, file@, opt_view(*name), hosts@),
            start,
        ),
{
    let ghost nm = opt_view(*name);
    let mut i: usize = 0;
    assert(hosts@.take(0) =~= Seq::<Node>::empty());
    while i < hosts.len()
        invariant
            i <= hosts@.len(),
            nm == opt_view(*name),
            carries(
                out@,
                log@,
                hosts_offered(c, file@, nm, hosts@.take(i as int)),
                start,
            ),
        decreases hosts@.len() - i,
    {
        let ghost before = hosts_offered(c, file@, nm, hosts@.take(i as int));
        proof {
            assert(hosts@.take(i + 1).drop_last() =~= hosts@.take(i as int));
            assert(hosts@.take(i + 1).last() == hosts@[i as int]);
        }
        if let Some(t) = hosts[i].text() {
            let chars = chars_of(t.as_str());
            let pieces = split_char(chars.as_slice(), '/');
            let host = pieces[0].as_str();
            assert(split(t@, '/')[0] == host@);
            let site = match name {
                Some(n) => {
                    let mut prefix = n.as_str().to_owned();
                    prefix.append(".");
                    begins_with(host, prefix.as_str())
                },
                None => false,
            };
            let ghost mut noted = before;
            if !site {
                log.discarded(
                    file,
                    host,
                    "proxy host does not start with the project name, so it is tooling rather than the site",
                );
                proof {
                    let e = seq![
                        Event::Discarded {
                            file: file@,
                            value: host@,
                            reason: "proxy host does not start with the project name, so it is tooling rather than the site"@,
                        },
                    ];
                    super::log::lemma_with_with(start, before.events, e);
                    noted = said(before, e);
                }
            }
            let mut url = "https://".to_owned();
            url.append(host);
            offer(
                out,
                url,
                None,
                ".lando.yml proxy",
                if site {
                    95
                } else {
                    45
                },
                log,
                Ghost(noted),
                Ghost(start),
            );
        }
        i += 1;
    }
    assert(hosts@.take(hosts@.len() as int) =~= hosts@);
}

/// The proxied services, one after another.
pub open spec fn proxies_offered(
    c: Candidates,
    file: Seq<char>,
    name: Option<Seq<char>>,
    services: Seq<(Node, Node)>,
) -> Candidates
    decreases services.len(),
{
    if services.len() == 0 {
        c
    } else {
        let before = proxies_offered(c, file, name, services.drop_last());
        match services.last().1 {
            Node::Items(hosts) => hosts_offered(before, file, name, hosts@),
            _ => before,
        }
    }
}

/// What a Lando file offers.
pub open spec fn lando_offered(c: Candidates, file: Seq<char>, doc: Node) -> Candidates {
    let name = member_text(doc, "name"@);
    // The name-derived host is the site itself, and Lando always serves it.
    let named = match name {
        Some(n) => offered(
            c,
            server("https://"@ + n + ".lndo.site"@, None, ".lando.yml name"@, 90),
        ),
        None => said(
            c,
            seq![
                Event::Discarded {
                    file,
                    value: "<name>"@,
                    reason: "no name key, so no site hostname to derive"@,
                },
            ],
        ),
    };
    match member_of(doc, "proxy"@) {
        Some(Node::Members(services)) => proxies_offered(named, file, name, services@),
        _ => named,
    }
}

/// What a Lando document offers, on its own.
pub fn lando_candidates(file: &str, doc: &Node, log: &mut ScanLog) -> (r: Vec<DevServerDiscovery>)
    ensures
        carries(
            r@,
            final(log)@,
            lando_offered(
                Candidates { found: Seq::empty(), left: 0, events: Seq::empty() },
                file@,
                *doc,
            ),
            old(log)@,
        ),
{
    let mut out: Vec<DevServerDiscovery> = Vec::new();
    let ghost start = log@;
    proof {
        assert(servers(out@) =~= Seq::<ServerFound>::empty());
        assert(start.with(Seq::empty()) =~= start);
    }
    offer_lando(
        &mut out,
        file,
        doc,
        log,
        Ghost(Candidates { found: Seq::empty(), left: 0, events: Seq::empty() }),
        Ghost(start),
    );
    out
}

fn offer_lando(
    out: &mut Vec<DevServerDiscovery>,
    file: &str,
    doc: &Node,
    log: &mut ScanLog,
    Ghost(c): Ghost<Candidates>,
    Ghost(start): Ghost<super::log::Logged>,
)
    requires
        carries(old(out)@, old(log)@, c, start),
    ensures
        carries(final(out)@, final(log)@, lando_offered(c, file@, *doc), start),
{
    let name = doc.member_string("name");
    let ghost nm = opt_view(name);
    let ghost mut now = c;
    match &name {
        Some(n) => {
            let url = joined3("https://", n.as_str(), ".lndo.site");
            offer(out, url, None, ".lando.yml name", 90, log, Ghost(c), Ghost(start));
            proof {
                now = offered(c, server(url@, None, ".lando.yml name"@, 90));
            }
        },
        None => {
            log.discarded(file, "<name>", "no name key, so no site hostname to derive");
            proof {
                let e = seq![
                    Event::Discarded {
                        file: file@,
                        value: "<name>"@,
                        reason: "no name key, so no site hostname to derive"@,
                    },
                ];
                super::log::lemma_with_with(start, c.events, e);
                now = said(c, e);
            }
        },
    }
    if let Some(Node::Members(services)) = doc.member("proxy") {
        let mut i: usize = 0;
        assert(services@.take(0) =~= Seq::<(Node, Node)>::empty());
        while i < services.len()
            invariant
                i <= services@.len(),
                nm == opt_view(name),
                carries(
                    out@,
                    log@,
                    proxies_offered(now, file@, nm, services@.take(i as int)),
                    start,
                ),
            decreases services@.len() - i,
        {
            let ghost before = proxies_offered(now, file@, nm, services@.take(i as int));
            proof {
                assert(services@.take(i + 1).drop_last() =~= services@.take(i as int));
                assert(services@.take(i + 1).last() == services@[i as int]);
            }
            if let Node::Items(hosts) = &services[i].1 {
                offer_hosts(out, file, &name, hosts, log, Ghost(before), Ghost(start));
            }
            i += 1;
        }
        assert(services@.take(services@.len() as int) =~= services@);
    }
}

/// A file read and what that leaves.
pub open spec fn after_read(c: Candidates, disk: Seq<(Seq<char>, Given)>, path: Seq<char>) -> Candidates {
    let read = read_of(disk, path, c.left);
    Candidates { left: read.left, events: c.events + read.events, ..c }
}

pub open spec fn text_read(c: Candidates, disk: Seq<(Seq<char>, Given)>, path: Seq<char>) -> Option<
    Seq<char>,
> {
    read_of(disk, path, c.left).text
}

fn read_file(
    disk: &Disk,
    rel: &str,
    budget: &mut ReadBudget,
    log: &mut ScanLog,
    Ghost(c): Ghost<Candidates>,
    Ghost(start): Ghost<super::log::Logged>,
) -> (r: Option<String>)
    requires
        old(budget)@ == c.left,
        old(log)@ == start.with(c.events),
    ensures
        opt_view(r) == text_read(c, disk@, rel@),
        final(budget)@ == after_read(c, disk@, rel@).left,
        final(log)@ == start.with(after_read(c, disk@, rel@).events),
{
    proof {
        super::log::lemma_with_with(start, c.events, read_of(disk@, rel@, c.left).events);
    }
    budget.read(disk, rel, log)
}

pub open spec fn lando_step(c: Candidates, disk: Seq<(Seq<char>, Given)>, path: Seq<char>) -> Candidates {
    let c1 = after_read(c, disk, path);
    match text_read(c, disk, path) {
        None => c1,
        Some(t) => match yaml_in(t) {
            Err(_) => said(
                c1,
                seq![
                    Event::ParseFailure {
                        file: path,
                        line: None,
                        snippet: snippet_of(""@),
                        step: "yaml"@,
                        reason: "could not parse .lando.yml"@,
                    },
                ],
            ),
            Ok(docs) => if docs.len() > 0 {
                lando_offered(c1, path, docs[0])
            } else {
                c1
            },
        },
    }
}

pub open spec fn ddev_step(c: Candidates, disk: Seq<(Seq<char>, Given)>, path: Seq<char>) -> Candidates {
    let c1 = after_read(c, disk, path);
    match text_read(c, disk, path) {
        None => c1,
        Some(t) => match yaml_in(t) {
            Err(_) => c1,
            Ok(docs) => if docs.len() > 0 && member_text(docs[0], "name"@) is Some {
                offered(
                    c1,
                    server(
                        "https://"@ + member_text(docs[0], "name"@)->0 + ".ddev.site"@,
                        None,
                        ".ddev/config.yaml"@,
                        90,
                    ),
                )
            } else {
                c1
            },
        },
    }
}

/// A whole number as a port: digits, with a plus sign allowed before them, and
/// no more than a port can be.
pub open spec fn port_of(s: Seq<char>) -> Option<u16> {
    let d = if s.len() > 0 && s[0] == '+' {
        s.skip(1)
    } else {
        s
    };
    if d.len() > 0 && all_digits(d) && digits_value(d) <= 65_535 {
        Some(digits_value(d) as u16)
    } else {
        None
    }
}

pub fn parse_port(text: &str) -> (r: Option<u16>)
    ensures
        r == port_of(text@),
{
    let s = chars_of(text);
    let start: usize = if s.len() > 0 && s[0] == '+' {
        1
    } else {
        0
    };
    let ghost d = s@.skip(start as int);
    assert(start == 0 ==> d =~= s@);
    if s.len() == start {
        return None;
    }
    let mut v: u32 = 0;
    let mut i: usize = start;
    assert(d.take(0) =~= Seq::<char>::empty());
    let mut over = false;
    while i < s.len()
        invariant
            start <= i <= s@.len(),
            s@ == text@,
            d == s@.skip(start as int),
            d == (if s@.len() > 0 && s@[0] == '+' {
                s@.skip(1)
            } else {
                s@
            }),
            forall|k: int| 0 <= k < i - start ==> is_digit(#[trigger] d[k]),
            over == (digits_value(d.take(i - start)) > 65_535),
            !over ==> v == digits_value(d.take(i - start)),
        decreases s@.len() - i,
    {
        let c = s[i];
        assert(d[i - start] == c);
        if !digit(c) {
            assert(!all_digits(d));
            return None;
        }
        proof {
            let t = d.take(i - start + 1);
            assert(t.drop_last() =~= d.take(i - start));
            assert(t.last() == c);
        }
        if !over {
            v = v * 10 + (c as u32 - 48);
            if v > 65_535 {
                over = true;
            }
        }
        i += 1;
    }
    assert(d.take(d.len() as int) =~= d);
    if over {
        None
    } else {
        Some(v as u16)
    }
}

/// The value of the first entry named `key`, without the quotes round it.
pub open spec fn entry_value(ms: Seq<Member>, key: Seq<char>) -> Option<Seq<char>>
    decreases ms.len(),
{
    if ms.len() == 0 {
        None
    } else if ms[0].key == key {
        Some(trimmed_of(ms[0].value, seq!['"', '\'']))
    } else {
        entry_value(ms.drop_first(), key)
    }
}

fn get_entry(list: &Vec<Entry>, key: &str) -> (r: Option<String>)
    ensures
        opt_view(r) == entry_value(members(list@), key@),
{
    let ghost all = members(list@);
    let quotes: [char; 2] = ['"', '\''];
    assert(quotes@ =~= seq!['"', '\'']);
    let mut i: usize = 0;
    assert(all.skip(0) =~= all);
    while i < list.len()
        invariant
            i <= list@.len(),
            all == members(list@),
            quotes@ == seq!['"', '\''],
            entry_value(all, key@) == entry_value(all.skip(i as int), key@),
        decreases list@.len() - i,
    {
        assert(all.skip(i as int)[0] == list@[i as int]@);
        assert(all.skip(i as int).drop_first() =~= all.skip(i + 1));
        if same(list[i].key.as_str(), key) {
            let v = chars_of(list[i].value.as_str());
            return Some(string_of(trim_of(v.as_slice(), &quotes)));
        }
        i += 1;
    }
    None
}

/// Where a Vite config says its dev server is, given the entries of its
/// `server` object. Vite's own port is 5173, and `host: true` means "listen on
/// every interface", not "the hostname is true".
pub open spec fn origin_of(ms: Seq<Member>) -> (Seq<char>, u16) {
    let port = match entry_value(ms, "port"@) {
        Some(p) => match port_of(p) {
            Some(n) => n,
            None => 5173,
        },
        None => 5173,
    };
    let https = match entry_value(ms, "https"@) {
        Some(v) => v != "false"@,
        None => false,
    };
    let host = match entry_value(ms, "host"@) {
        Some(h) => if h.len() == 0 || h == "true"@ || h == "false"@ {
            "localhost"@
        } else {
            h
        },
        None => "localhost"@,
    };
    (
        (if https {
            "https"@
        } else {
            "http"@
        }) + "://"@ + host + ":"@ + decimal(port as nat),
        port,
    )
}

/// Where a Vite config says its dev server is, when it has a `server` object.
pub open spec fn vite_says(text: Seq<char>) -> Option<(Seq<char>, u16)> {
    let src = blanked(text, Dialect::Script);
    match key_from(src, "server"@, 0) {
        None => None,
        Some(colon) => match object_at(src, colon) {
            None => None,
            Some(open) => Some(origin_of(entries_of(src, open))),
        },
    }
}

/// `server: { port, host, https }` read statically out of a Vite config.
pub fn vite_origin(text: &str) -> (r: Option<(String, Option<u16>)>)
    ensures
        match r {
            Some((url, port)) => port is Some && vite_says(text@) == Some((url@, port->0)),
            None => vite_says(text@) is None,
        },
{
    let chars = chars_of(text);
    let src = blank_chars(chars.as_slice(), Dialect::Script);
    let src = src.as_slice();
    let colon: usize = match jsobj::find_key(src, "server", 0) {
        Some(c) => c,
        None => {
            return None;
        },
    };
    assert(src@.len() == src.len());
    let open: usize = match jsobj::object_after_colon(src, colon) {
        Some(inside) => inside - 1,
        None => {
            return None;
        },
    };
    proof {
        jsobj::an_open_brace_is_never_overclosed(src@, open as int);
    }
    let list = jsobj::entries(src, open);
    let port: u16 = match get_entry(&list, "port") {
        Some(p) => match parse_port(p.as_str()) {
            Some(n) => n,
            None => 5173,
        },
        None => 5173,
    };
    let https = match get_entry(&list, "https") {
        Some(v) => !same(v.as_str(), "false"),
        None => false,
    };
    let host = match get_entry(&list, "host") {
        Some(h) => if h.as_str().is_empty() || same(h.as_str(), "true") || same(
            h.as_str(),
            "false",
        ) {
            "localhost".to_owned()
        } else {
            h
        },
        None => "localhost".to_owned(),
    };
    let mut url = if https {
        "https".to_owned()
    } else {
        "http".to_owned()
    };
    url.append("://");
    url.append(host.as_str());
    url.append(":");
    url.append(decimal_string(port as u64).as_str());
    Some((url, Some(port)))
}

pub open spec fn vite_step(c: Candidates, disk: Seq<(Seq<char>, Given)>, path: Seq<char>) -> Candidates {
    let c1 = after_read(c, disk, path);
    match text_read(c, disk, path) {
        None => c1,
        Some(t) => match vite_says(t) {
            Some((url, port)) => offered(c1, server(url, Some(port), path, 90)),
            None => said(
                c1,
                seq![
                    Event::Note { message: path + " has no server.port, so Vite's default applies"@ },
                ],
            ),
        },
    }
}

/// Whether a service's name looks like a web server's.
pub open spec fn is_webish(name: Seq<char>) -> bool {
    ||| has(name, "web"@)
    ||| has(name, "nginx"@)
    ||| has(name, "apache"@)
    ||| has(name, "app"@)
    ||| has(name, "php"@)
    ||| has(name, "frontend"@)
    ||| has(name, "node"@)
    ||| has(name, "httpd"@)
}

fn webish(name: &str) -> (r: bool)
    ensures
        r == is_webish(name@),
{
    contains_str(name, "web") || contains_str(name, "nginx") || contains_str(name, "apache")
        || contains_str(name, "app") || contains_str(name, "php") || contains_str(name, "frontend")
        || contains_str(name, "node") || contains_str(name, "httpd")
}

/// The host port a mapping publishes. "8080:80" and "127.0.0.1:8080:80" both
/// publish 8080.
pub open spec fn published_port(mapping: Seq<char>) -> Option<u16> {
    let p = split(mapping, ':');
    if p.len() == 2 {
        port_of(p[0])
    } else if p.len() == 3 {
        port_of(p[1])
    } else {
        None
    }
}

pub fn read_mapping(mapping: &str) -> (r: Option<u16>)
    ensures
        r == published_port(mapping@),
{
    let chars = chars_of(mapping);
    let p = split_char(chars.as_slice(), ':');
    assert(split(mapping@, ':').len() == p@.len());
    if p.len() == 2 {
        assert(split(mapping@, ':')[0] == p@[0]@);
        parse_port(p[0].as_str())
    } else if p.len() == 3 {
        assert(split(mapping@, ':')[1] == p@[1]@);
        parse_port(p[1].as_str())
    } else {
        None
    }
}

/// The host ports these mappings publish.
pub open spec fn ports_published(mappings: Seq<Node>) -> Seq<u16>
    decreases mappings.len(),
{
    if mappings.len() == 0 {
        Seq::empty()
    } else {
        let before = ports_published(mappings.drop_last());
        match text_of(mappings.last()) {
            Some(t) => match published_port(t) {
                Some(p) => before.push(p),
                None => before,
            },
            None => before,
        }
    }
}

fn read_mappings(mappings: &Vec<Node>) -> (r: Vec<u16>)
    ensures
        r@ == ports_published(mappings@),
{
    let mut out: Vec<u16> = Vec::new();
    let mut i: usize = 0;
    assert(mappings@.take(0) =~= Seq::<Node>::empty());
    while i < mappings.len()
        invariant
            i <= mappings@.len(),
            out@ == ports_published(mappings@.take(i as int)),
        decreases mappings@.len() - i,
    {
        proof {
            assert(mappings@.take(i + 1).drop_last() =~= mappings@.take(i as int));
            assert(mappings@.take(i + 1).last() == mappings@[i as int]);
        }
        if let Some(t) = mappings[i].text() {
            if let Some(p) = read_mapping(t.as_str()) {
                out.push(p);
            }
        }
        i += 1;
    }
    assert(mappings@.take(mappings@.len() as int) =~= mappings@);
    out
}

/// The ports published by services that look like a web server, and what is
/// logged of the others.
pub open spec fn services_published(file: Seq<char>, services: Seq<(Node, Node)>) -> (
    Seq<u16>,
    Seq<Event>,
)
    decreases services.len(),
{
    if services.len() == 0 {
        (Seq::empty(), Seq::empty())
    } else {
        let before = services_published(file, services.drop_last());
        let name = match text_of(services.last().0) {
            Some(n) => n,
            None => ""@,
        };
        if !is_webish(name) {
            (
                before.0,
                before.1.push(
                    Event::Discarded {
                        file,
                        value: name,
                        reason: "service name does not look like a web server"@,
                    },
                ),
            )
        } else {
            match member_of(services.last().1, "ports"@) {
                Some(Node::Items(ps)) => (before.0 + ports_published(ps@), before.1),
                _ => before,
            }
        }
    }
}

/// Published host ports of the compose documents `docs`.
pub open spec fn compose_published(file: Seq<char>, docs: Seq<Node>) -> (Seq<u16>, Seq<Event>) {
    if docs.len() == 0 {
        (Seq::empty(), Seq::empty())
    } else {
        match member_of(docs[0], "services"@) {
            Some(Node::Members(services)) => services_published(file, services@),
            _ => (Seq::empty(), Seq::empty()),
        }
    }
}

/// Published host ports of the compose documents `docs`.
pub fn published_ports(docs: &Vec<Node>, file: &str, log: &mut ScanLog) -> (r: Vec<u16>)
    ensures
        r@ == compose_published(file@, docs@).0,
        final(log)@ == old(log)@.with(compose_published(file@, docs@).1),
{
    let mut out: Vec<u16> = Vec::new();
    let ghost start = log@;
    assert(start.with(Seq::empty()) =~= start);
    if docs.len() == 0 {
        return out;
    }
    if let Some(Node::Members(services)) = docs[0].member("services") {
        let mut i: usize = 0;
        assert(services@.take(0) =~= Seq::<(Node, Node)>::empty());
        while i < services.len()
            invariant
                i <= services@.len(),
                out@ == services_published(file@, services@.take(i as int)).0,
                log@ == start.with(services_published(file@, services@.take(i as int)).1),
            decreases services@.len() - i,
        {
            let ghost before = services_published(file@, services@.take(i as int));
            proof {
                assert(services@.take(i + 1).drop_last() =~= services@.take(i as int));
                assert(services@.take(i + 1).last() == services@[i as int]);
            }
            let name = match services[i].0.text() {
                Some(n) => n.as_str().to_owned(),
                None => "".to_owned(),
            };
            if !webish(name.as_str()) {
                log.discarded(
                    file,
                    name.as_str(),
                    "service name does not look like a web server",
                );
                proof {
                    let e = Event::Discarded {
                        file: file@,
                        value: name@,
                        reason: "service name does not look like a web server"@,
                    };
                    super::log::lemma_with_with(start, before.1, seq![e]);
                    assert(before.1 + seq![e] =~= before.1.push(e));
                }
            } else if let Some(Node::Items(ps)) = services[i].1.member("ports") {
                let mut more = read_mappings(ps);
                out.append(&mut more);
            }
            i += 1;
        }
        assert(services@.take(services@.len() as int) =~= services@);
    }
    out
}

/// Published host ports of a compose file.
pub open spec fn compose_says(text: Seq<char>, file: Seq<char>) -> (Seq<u16>, Seq<Event>) {
    match yaml_in(text) {
        Err(_) => (
            Seq::empty(),
            seq![
                Event::ParseFailure {
                    file,
                    line: None,
                    snippet: snippet_of(""@),
                    step: "yaml"@,
                    reason: "could not parse compose file"@,
                },
            ],
        ),
        Ok(docs) => compose_published(file, docs),
    }
}

/// Published host ports on services that look like a web server.
pub fn compose_web_ports(text: &str, file: &str, log: &mut ScanLog) -> (r: Vec<u16>)
    ensures
        r@ == compose_says(text@, file@).0,
        final(log)@ == old(log)@.with(compose_says(text@, file@).1),
{
    match read_yaml(text) {
        Err(_) => {
            log.parse_failure(file, None, "", "yaml", "could not parse compose file");
            Vec::new()
        },
        Ok(docs) => published_ports(&docs, file, log),
    }
}

pub open spec fn local_url(port: u16) -> Seq<char> {
    "http://localhost:"@ + decimal(port as nat)
}

fn local(port: u16) -> (r: String)
    ensures
        r@ == local_url(port),
{
    let mut url = "http://localhost:".to_owned();
    url.append(decimal_string(port as u64).as_str());
    url
}

pub open spec fn ports_offered(c: Candidates, ports: Seq<u16>, file: Seq<char>) -> Candidates
    decreases ports.len(),
{
    if ports.len() == 0 {
        c
    } else {
        offered(
            ports_offered(c, ports.drop_last(), file),
            server(local_url(ports.last()), Some(ports.last()), file, 60),
        )
    }
}

pub open spec fn compose_step(c: Candidates, disk: Seq<(Seq<char>, Given)>, path: Seq<char>) -> Candidates {
    let c1 = after_read(c, disk, path);
    match text_read(c, disk, path) {
        None => c1,
        Some(t) => {
            let says = compose_says(t, path);
            ports_offered(said(c1, says.1), says.0, path)
        },
    }
}

/// A port given to a dev script.
pub const PORT_PATTERN: &'static str = r"(?:--port[= ]|(?:^|\s)-p )(\d{2,5})";

/// The port the first of these matches names in `command`.
pub open spec fn script_port_from(
    command: Seq<char>,
    ms: Seq<Seq<Option<(usize, usize)>>>,
) -> Option<u16> {
    if ms.len() == 0 {
        None
    } else {
        port_of(group_or_empty(command, ms[0], 1))
    }
}

/// The port the first of these matches of [`PORT_PATTERN`] names.
pub fn script_port(command: &str, ms: &Vec<Groups>) -> (r: Option<u16>)
    ensures
        r == script_port_from(command@, group_views(ms@)),
{
    if ms.len() == 0 {
        return None;
    }
    assert(group_views(ms@)[0] == ms@[0]@);
    let chars = chars_of(command);
    parse_port(ms[0].text_or_empty(chars.as_slice(), 1).as_str())
}

/// An explicit port in one script of the manifest.
pub open spec fn script_step(c: Candidates, manifest: Seq<char>, script: Seq<char>) -> Candidates {
    match json_entry(manifest, "scripts"@, script) {
        super::manifest::Entry::Text(command) => match script_port_from(
            command,
            matches_of(PORT_PATTERN@, command),
        ) {
            Some(port) => offered(
                c,
                server(local_url(port), Some(port), "package.json scripts."@ + script, 70),
            ),
            None => c,
        },
        _ => c,
    }
}

/// A framework's own default port, when the manifest depends on it.
pub open spec fn framework_step(
    c: Candidates,
    manifest: Seq<char>,
    package: Seq<char>,
    port: u16,
) -> Candidates {
    let in_deps = json_entry(manifest, "dependencies"@, package);
    let in_dev = json_entry(manifest, "devDependencies"@, package);
    if is_there(in_deps) || is_there(in_dev) {
        offered(c, server(local_url(port), Some(port), package + " default port"@, 40))
    } else {
        c
    }
}

pub open spec fn is_there(e: super::manifest::Entry) -> bool {
    e is Text || e is Other
}

/// What a manifest offers: an explicit port in a dev script, then the
/// framework's own default.
pub open spec fn manifest_offered(c: Candidates, manifest: Seq<char>) -> Candidates {
    if json_entry(manifest, "scripts"@, "dev"@) is NotJson {
        c
    } else {
        let c = script_step(c, manifest, "dev"@);
        let c = script_step(c, manifest, "start"@);
        let c = script_step(c, manifest, "serve"@);
        let c = framework_step(c, manifest, "vite"@, 5173);
        let c = framework_step(c, manifest, "@sveltejs/kit"@, 5173);
        let c = framework_step(c, manifest, "next"@, 3000);
        let c = framework_step(c, manifest, "nuxt"@, 3000);
        let c = framework_step(c, manifest, "react-scripts"@, 3000);
        let c = framework_step(c, manifest, "astro"@, 4321);
        let c = framework_step(c, manifest, "gatsby"@, 8000);
        framework_step(c, manifest, "@angular/cli"@, 4200)
    }
}

fn offer_script(
    out: &mut Vec<DevServerDiscovery>,
    manifest: &str,
    script: &str,
    log: &mut ScanLog,
    Ghost(c): Ghost<Candidates>,
    Ghost(start): Ghost<super::log::Logged>,
)
    requires
        carries(old(out)@, old(log)@, c, start),
    ensures
        carries(final(out)@, final(log)@, script_step(c, manifest@, script@), start),
{
    if let Lookup::Text(command) = json_lookup(manifest, "scripts", script) {
        let ms = find_all(PORT_PATTERN, command.as_str());
        if let Some(port) = script_port(command.as_str(), &ms) {
            let mut source = "package.json scripts.".to_owned();
            source.append(script);
            offer(
                out,
                local(port),
                Some(port),
                source.as_str(),
                70,
                log,
                Ghost(c),
                Ghost(start),
            );
        }
    }
}

fn there(e: &Lookup) -> (r: bool)
    ensures
        r == is_there(e@),
{
    match e {
        Lookup::Text(_) => true,
        Lookup::Other => true,
        _ => false,
    }
}

fn offer_framework(
    out: &mut Vec<DevServerDiscovery>,
    manifest: &str,
    package: &str,
    port: u16,
    log: &mut ScanLog,
    Ghost(c): Ghost<Candidates>,
    Ghost(start): Ghost<super::log::Logged>,
)
    requires
        carries(old(out)@, old(log)@, c, start),
    ensures
        carries(final(out)@, final(log)@, framework_step(c, manifest@, package@, port), start),
{
    let deps = json_lookup(manifest, "dependencies", package);
    let dev = json_lookup(manifest, "devDependencies", package);
    if there(&deps) || there(&dev) {
        let mut source = package.to_owned();
        source.append(" default port");
        offer(
            out,
            local(port),
            Some(port),
            source.as_str(),
            40,
            log,
            Ghost(c),
            Ghost(start),
        );
    }
}

fn offer_manifest(
    out: &mut Vec<DevServerDiscovery>,
    manifest: &str,
    log: &mut ScanLog,
    Ghost(c): Ghost<Candidates>,
    Ghost(start): Ghost<super::log::Logged>,
)
    requires
        carries(old(out)@, old(log)@, c, start),
    ensures
        carries(final(out)@, final(log)@, manifest_offered(c, manifest@), start),
{
    if let Lookup::NotJson = json_lookup(manifest, "scripts", "dev") {
        return;
    }
    let ghost mut n = c;
    offer_script(out, manifest, "dev", log, Ghost(n), Ghost(start));
    proof {
        n = script_step(n, manifest@, "dev"@);
    }
    offer_script(out, manifest, "start", log, Ghost(n), Ghost(start));
    proof {
        n = script_step(n, manifest@, "start"@);
    }
    offer_script(out, manifest, "serve", log, Ghost(n), Ghost(start));
    proof {
        n = script_step(n, manifest@, "serve"@);
    }
    offer_framework(out, manifest, "vite", 5173, log, Ghost(n), Ghost(start));
    proof {
        n = framework_step(n, manifest@, "vite"@, 5173);
    }
    offer_framework(out, manifest, "@sveltejs/kit", 5173, log, Ghost(n), Ghost(start));
    proof {
        n = framework_step(n, manifest@, "@sveltejs/kit"@, 5173);
    }
    offer_framework(out, manifest, "next", 3000, log, Ghost(n), Ghost(start));
    proof {
        n = framework_step(n, manifest@, "next"@, 3000);
    }
    offer_framework(out, manifest, "nuxt", 3000, log, Ghost(n), Ghost(start));
    proof {
        n = framework_step(n, manifest@, "nuxt"@, 3000);
    }
    offer_framework(out, manifest, "react-scripts", 3000, log, Ghost(n), Ghost(start));
    proof {
        n = framework_step(n, manifest@, "react-scripts"@, 3000);
    }
    offer_framework(out, manifest, "astro", 4321, log, Ghost(n), Ghost(start));
    proof {
        n = framework_step(n, manifest@, "astro"@, 4321);
    }
    offer_framework(out, manifest, "gatsby", 8000, log, Ghost(n), Ghost(start));
    proof {
        n = framework_step(n, manifest@, "gatsby"@, 8000);
    }
    offer_framework(out, manifest, "@angular/cli", 4200, log, Ghost(n), Ghost(start));
}

pub open spec fn manifest_step(c: Candidates, disk: Seq<(Seq<char>, Given)>, path: Seq<char>) -> Candidates {
    if parts(path).len() > 1 {
        c
    } else {
        let c1 = after_read(c, disk, path);
        match text_read(c, disk, path) {
            None => c1,
            Some(t) => manifest_offered(c1, t),
        }
    }
}

/// What kind of file a path is read as.
#[derive(Debug, Clone, Copy, PartialEq, Eq, Structural)]
pub enum Source {
    Lando,
    Ddev,
    Vite,
    Compose,
    Manifest,
}

pub open spec fn source_step(
    c: Candidates,
    kind: Source,
    disk: Seq<(Seq<char>, Given)>,
    path: Seq<char>,
) -> Candidates {
    match kind {
        Source::Lando => lando_step(c, disk, path),
        Source::Ddev => ddev_step(c, disk, path),
        Source::Vite => vite_step(c, disk, path),
        Source::Compose => compose_step(c, disk, path),
        Source::Manifest => manifest_step(c, disk, path),
    }
}

/// These files read as one kind, one after another.
pub open spec fn sources_read(
    c: Candidates,
    kind: Source,
    disk: Seq<(Seq<char>, Given)>,
    paths: Seq<Seq<char>>,
) -> Candidates
    decreases paths.len(),
{
    if paths.len() == 0 {
        c
    } else {
        source_step(sources_read(c, kind, disk, paths.drop_last()), kind, disk, paths.last())
    }
}

fn read_source(
    out: &mut Vec<DevServerDiscovery>,
    kind: Source,
    rel: &str,
    disk: &Disk,
    budget: &mut ReadBudget,
    log: &mut ScanLog,
    Ghost(c): Ghost<Candidates>,
    Ghost(start): Ghost<super::log::Logged>,
)
    requires
        carries(old(out)@, old(log)@, c, start),
        old(budget)@ == c.left,
    ensures
        carries(final(out)@, final(log)@, source_step(c, kind, disk@, rel@), start),
        final(budget)@ == source_step(c, kind, disk@, rel@).left,
{
    if kind == Source::Manifest {
        let deep = parts_of(rel);
        assert(parts(rel@).len() == deep@.len());
        if deep.len() > 1 {
            return;
        }
    }
    let ghost c1 = after_read(c, disk@, rel@);
    let text = match read_file(disk, rel, budget, log, Ghost(c), Ghost(start)) {
        Some(t) => t,
        None => {
            return;
        },
    };
    proof {
        lemma_left(c1, rel@, text@);
    }
    match kind {
        Source::Lando => {
            match read_yaml(text.as_str()) {
                Err(_) => {
                    log.parse_failure(rel, None, "", "yaml", "could not parse .lando.yml");
                    proof {
                        let e = Event::ParseFailure {
                            file: rel@,
                            line: None,
                            snippet: snippet_of(""@),
                            step: "yaml"@,
                            reason: "could not parse .lando.yml"@,
                        };
                        super::log::lemma_with_with(start, c1.events, seq![e]);
                    }
                },
                Ok(docs) => {
                    if docs.len() > 0 {
                        proof {
                            lemma_lando_left(c1, rel@, docs@[0]);
                        }
                        offer_lando(out, rel, &docs[0], log, Ghost(c1), Ghost(start));
                    }
                },
            }
        },
        Source::Ddev => {
            match read_yaml(text.as_str()) {
                Err(_) => {},
                Ok(docs) => {
                    if docs.len() > 0 {
                        if let Some(name) = docs[0].member_string("name") {
                            let url = joined3("https://", name.as_str(), ".ddev.site");
                            offer(
                                out,
                                url,
                                None,
                                ".ddev/config.yaml",
                                90,
                                log,
                                Ghost(c1),
                                Ghost(start),
                            );
                        }
                    }
                },
            }
        },
        Source::Vite => {
            match vite_origin(text.as_str()) {
                Some((url, port)) => {
                    offer(out, url, port, rel, 90, log, Ghost(c1), Ghost(start));
                },
                None => {
                    let mut message = rel.to_owned();
                    message.append(" has no server.port, so Vite's default applies");
                    log.note(message.as_str());
                    proof {
                        super::log::lemma_with_with(
                            start,
                            c1.events,
                            seq![Event::Note { message: message@ }],
                        );
                    }
                },
            }
        },
        Source::Compose => {
            let ghost says = compose_says(text@, rel@);
            proof {
                super::log::lemma_with_with(start, c1.events, says.1);
            }
            let ports = compose_web_ports(text.as_str(), rel, log);
            let ghost c2 = said(c1, says.1);
            let mut i: usize = 0;
            assert(ports@.take(0) =~= Seq::<u16>::empty());
            while i < ports.len()
                invariant
                    i <= ports@.len(),
                    ports_offered(c2, ports@.take(i as int), rel@).left == c2.left,
                    carries(out@, log@, ports_offered(c2, ports@.take(i as int), rel@), start),
                decreases ports@.len() - i,
            {
                let ghost before = ports_offered(c2, ports@.take(i as int), rel@);
                proof {
                    assert(ports@.take(i + 1).drop_last() =~= ports@.take(i as int));
                    assert(ports@.take(i + 1).last() == ports@[i as int]);
                }
                offer(
                    out,
                    local(ports[i]),
                    Some(ports[i]),
                    rel,
                    60,
                    log,
                    Ghost(before),
                    Ghost(start),
                );
                i += 1;
            }
            assert(ports@.take(ports@.len() as int) =~= ports@);
        },
        Source::Manifest => {
            offer_manifest(out, text.as_str(), log, Ghost(c1), Ghost(start));
        },
    }
}

proof fn lemma_left(c: Candidates, file: Seq<char>, text: Seq<char>)
    ensures
        manifest_offered(c, text).left == c.left,
{
}

proof fn lemma_hosts_left(
    c: Candidates,
    file: Seq<char>,
    name: Option<Seq<char>>,
    hosts: Seq<Node>,
)
    ensures
        hosts_offered(c, file, name, hosts).left == c.left,
    decreases hosts.len(),
{
    if hosts.len() > 0 {
        lemma_hosts_left(c, file, name, hosts.drop_last());
    }
}

proof fn lemma_proxies_left(
    c: Candidates,
    file: Seq<char>,
    name: Option<Seq<char>>,
    services: Seq<(Node, Node)>,
)
    ensures
        proxies_offered(c, file, name, services).left == c.left,
    decreases services.len(),
{
    if services.len() > 0 {
        lemma_proxies_left(c, file, name, services.drop_last());
        let before = proxies_offered(c, file, name, services.drop_last());
        match services.last().1 {
            Node::Items(hosts) => {
                lemma_hosts_left(before, file, name, hosts@);
            },
            _ => {},
        }
    }
}

proof fn lemma_lando_left(c: Candidates, file: Seq<char>, doc: Node)
    ensures
        lando_offered(c, file, doc).left == c.left,
{
    let name = member_text(doc, "name"@);
    match member_of(doc, "proxy"@) {
        Some(Node::Members(services)) => {
            let named = match name {
                Some(n) => offered(
                    c,
                    server("https://"@ + n + ".lndo.site"@, None, ".lando.yml name"@, 90),
                ),
                None => said(
                    c,
                    seq![
                        Event::Discarded {
                            file,
                            value: "<name>"@,
                            reason: "no name key, so no site hostname to derive"@,
                        },
                    ],
                ),
            };
            lemma_proxies_left(named, file, name, services@);
        },
        _ => {},
    }
}

fn read_sources(
    out: &mut Vec<DevServerDiscovery>,
    kind: Source,
    paths: &Vec<String>,
    disk: &Disk,
    budget: &mut ReadBudget,
    log: &mut ScanLog,
    Ghost(c): Ghost<Candidates>,
    Ghost(start): Ghost<super::log::Logged>,
)
    requires
        carries(old(out)@, old(log)@, c, start),
        old(budget)@ == c.left,
    ensures
        carries(final(out)@, final(log)@, sources_read(c, kind, disk@, texts(paths@)), start),
        final(budget)@ == sources_read(c, kind, disk@, texts(paths@)).left,
{
    let ghost ps = texts(paths@);
    let mut i: usize = 0;
    assert(ps.take(0) =~= Seq::<Seq<char>>::empty());
    while i < paths.len()
        invariant
            i <= paths@.len(),
            ps == texts(paths@),
            carries(out@, log@, sources_read(c, kind, disk@, ps.take(i as int)), start),
            budget@ == sources_read(c, kind, disk@, ps.take(i as int)).left,
        decreases paths@.len() - i,
    {
        let ghost before = sources_read(c, kind, disk@, ps.take(i as int));
        proof {
            assert(ps.take(i + 1).drop_last() =~= ps.take(i as int));
            assert(ps.take(i + 1).last() == paths@[i as int]@);
        }
        read_source(out, kind, paths[i].as_str(), disk, budget, log, Ghost(before), Ghost(start));
        i += 1;
    }
    assert(ps.take(ps.len() as int) =~= ps);
}

/// Whether a path ends in DDEV's config.
pub open spec fn is_ddev_config(path: Seq<char>) -> bool {
    let p = parts(path);
    p.len() >= 2 && p[p.len() - 2] == ".ddev"@ && p[p.len() - 1] == "config.yaml"@
}

fn ddev_configs(index: &FileIndex) -> (r: Vec<String>)
    ensures
        texts(r@) == chosen(texts(index.files@), |p: Seq<char>| is_ddev_config(p)),
{
    let mut out: Vec<String> = Vec::new();
    let ghost all = texts(index.files@);
    let ghost f = |p: Seq<char>| is_ddev_config(p);
    let mut i: usize = 0;
    assert(all.take(0) =~= Seq::<Seq<char>>::empty());
    assert(texts(out@) =~= Seq::<Seq<char>>::empty());
    while i < index.files.len()
        invariant
            i <= index.files@.len(),
            all == texts(index.files@),
            f == (|p: Seq<char>| is_ddev_config(p)),
            texts(out@) == chosen(all.take(i as int), f),
        decreases index.files@.len() - i,
    {
        let path = index.files[i].as_str();
        let ghost before = texts(out@);
        proof {
            assert(all.take(i + 1).drop_last() =~= all.take(i as int));
            assert(all.take(i + 1).last() == path@);
        }
        let p = parts_of(path);
        let n: usize = p.len();
        assert(parts(path@).len() == n);
        if n >= 2 {
            assert(parts(path@)[n - 2] == p@[n - 2]@);
            assert(parts(path@)[n - 1] == p@[n - 1]@);
            if same(p[n - 2].as_str(), ".ddev") && same(p[n - 1].as_str(), "config.yaml") {
                out.push(path.to_owned());
                assert(texts(out@) =~= before.push(path@));
            }
        }
        i += 1;
    }
    assert(all.take(all.len() as int) =~= all);
    out
}

/// Everything the sources offer, in the order they are read.
pub open spec fn everything_offered(
    files: Seq<Seq<char>>,
    disk: Seq<(Seq<char>, Given)>,
    left: usize,
) -> Candidates {
    let c = Candidates { found: Seq::empty(), left, events: Seq::empty() };
    let c = sources_read(
        c,
        Source::Lando,
        disk,
        chosen(files, |p: Seq<char>| named(p, ".lando.yml"@)),
    );
    let c = sources_read(
        c,
        Source::Ddev,
        disk,
        chosen(files, |p: Seq<char>| is_ddev_config(p)),
    );
    let c = sources_read(
        c,
        Source::Vite,
        disk,
        chosen(files, |p: Seq<char>| name_begins(p, "vite.config"@ + "."@)),
    );
    let c = sources_read(
        c,
        Source::Compose,
        disk,
        chosen(files, |p: Seq<char>| named(p, "docker-compose.yml"@)),
    );
    let c = sources_read(
        c,
        Source::Compose,
        disk,
        chosen(files, |p: Seq<char>| named(p, "docker-compose.yaml"@)),
    );
    let c = sources_read(
        c,
        Source::Compose,
        disk,
        chosen(files, |p: Seq<char>| named(p, "compose.yml"@)),
    );
    sources_read(
        c,
        Source::Manifest,
        disk,
        chosen(files, |p: Seq<char>| named(p, "package.json"@)),
    )
}

/// Whether a candidate comes from a whole environment that runs the site.
pub open spec fn is_environment(s: ServerFound) -> bool {
    has(s.source, "lando"@) || has(s.source, "ddev"@)
}

/// Whether a candidate is a bundler's dev server.
pub open spec fn is_bundler(s: ServerFound) -> bool {
    ||| begins(s.source, "vite.config"@)
    ||| has(s.source, "/vite.config"@)
    ||| has(s.source, "default port"@)
    ||| begins(s.source, "package.json"@)
}

pub open spec fn has_environment(found: Seq<ServerFound>) -> bool {
    exists|i: int| 0 <= i < found.len() && is_environment(#[trigger] found[i])
}

pub open spec fn demoted_one(s: ServerFound) -> ServerFound {
    if is_bundler(s) && s.confidence > 50 {
        ServerFound { confidence: 50, ..s }
    } else {
        s
    }
}

pub open spec fn demotions(found: Seq<ServerFound>) -> Seq<Event>
    decreases found.len(),
{
    if found.len() == 0 {
        Seq::empty()
    } else {
        let before = demotions(found.drop_last());
        if is_bundler(found.last()) && found.last().confidence > 50 {
            before.push(
                Event::Note {
                    message: found.last().url
                        + " demoted: Lando or DDEV is serving the site, so this is the asset server"@,
                },
            )
        } else {
            before
        }
    }
}

/// The candidates with the bundlers demoted, if something else runs the site.
pub open spec fn demoted(found: Seq<ServerFound>) -> Seq<ServerFound> {
    if has_environment(found) {
        found.map_values(|s: ServerFound| demoted_one(s))
    } else {
        found
    }
}

fn environment_in(candidates: &Vec<DevServerDiscovery>) -> (r: bool)
    ensures
        r == has_environment(servers(candidates@)),
{
    let mut i: usize = 0;
    while i < candidates.len()
        invariant
            i <= candidates@.len(),
            forall|k: int| 0 <= k < i ==> !is_environment(#[trigger] servers(candidates@)[k]),
        decreases candidates@.len() - i,
    {
        let s = candidates[i].source.as_str();
        assert(servers(candidates@)[i as int].source == s@);
        if contains_str(s, "lando") || contains_str(s, "ddev") {
            return true;
        }
        i += 1;
    }
    false
}

/// A bundler's dev server is not the site when there is a whole environment
/// running the site.
///
/// In a Drupal project under Lando, Vite serves assets on 5173 and PHP serves
/// the pages. Offering localhost:5173 as the URL to test loads a module graph,
/// not a page, which is a confusing way to start.
pub fn demote_bundlers(candidates: &mut Vec<DevServerDiscovery>, log: &mut ScanLog)
    ensures
        servers(final(candidates)@) == demoted(servers(old(candidates)@)),
        final(log)@ == old(log)@.with(
            if has_environment(servers(old(candidates)@)) {
                demotions(servers(old(candidates)@))
            } else {
                Seq::empty()
            },
        ),
{
    let ghost all = servers(candidates@);
    let ghost start = log@;
    assert(start.with(Seq::empty()) =~= start);
    if !environment_in(candidates) {
        return;
    }
    let mut rest: Vec<DevServerDiscovery> = Vec::new();
    std::mem::swap(&mut rest, candidates);
    let ghost mut done: int = 0;
    assert(all.take(0) =~= Seq::<ServerFound>::empty());
    assert(servers(rest@) =~= all.skip(0));
    assert(servers(candidates@) =~= all.take(0).map_values(|s: ServerFound| demoted_one(s)));
    while rest.len() > 0
        invariant
            0 <= done <= all.len(),
            servers(rest@) == all.skip(done),
            servers(candidates@) == all.take(done).map_values(|s: ServerFound| demoted_one(s)),
            log@ == start.with(demotions(all.take(done))),
        decreases rest@.len(),
    {
        let ghost r0 = servers(rest@);
        let mut c = rest.remove(0);
        let ghost c0 = c@;
        let ghost said0 = demotions(all.take(done));
        let ghost had = servers(candidates@);
        proof {
            assert(r0.len() == all.len() - done);
            assert(r0[0] == c@);
            assert(all.skip(done)[0] == all[done]);
            assert(all[done] == c@);
            assert(servers(rest@) =~= r0.drop_first());
            assert(servers(rest@) =~= all.skip(done + 1));
            assert(all.take(done + 1).drop_last() =~= all.take(done));
            assert(all.take(done + 1).last() == c@);
        }
        let s = c.source.as_str();
        let bundler = begins_with(s, "vite.config") || contains_str(s, "/vite.config")
            || contains_str(s, "default port") || begins_with(s, "package.json");
        if bundler && c.confidence > 50 {
            let mut message = c.url.as_str().to_owned();
            message.append(
                " demoted: Lando or DDEV is serving the site, so this is the asset server",
            );
            log.note(message.as_str());
            proof {
                let e = Event::Note { message: message@ };
                super::log::lemma_with_with(start, said0, seq![e]);
                assert(said0 + seq![e] =~= said0.push(e));
            }
            c.confidence = 50;
        }
        candidates.push(c);
        proof {
            assert(c@ == demoted_one(c0));
            assert(servers(candidates@) =~= had.push(c@));
            assert(servers(candidates@) =~= all.take(done + 1).map_values(
                |s: ServerFound| demoted_one(s),
            ));
            done = done + 1;
        }
    }
    assert(all.take(all.len() as int) =~= all);
}

/// Surer first, then by address.
pub open spec fn better(a: ServerFound, b: ServerFound) -> bool {
    a.confidence > b.confidence || (a.confidence == b.confidence && text_below(a.url, b.url))
}

/// The first candidate of each address.
pub open spec fn firsts(s: Seq<ServerFound>) -> Seq<ServerFound>
    decreases s.len(),
{
    if s.len() == 0 {
        s
    } else {
        let before = firsts(s.drop_last());
        if exists|i: int| 0 <= i < s.len() - 1 && (#[trigger] s[i]).url == s.last().url {
            before
        } else {
            before.push(s.last())
        }
    }
}

/// The candidates in confidence order, each address once.
pub open spec fn best_servers(s: Seq<ServerFound>) -> Seq<ServerFound> {
    firsts(sorted(s, |a: ServerFound, b: ServerFound| better(a, b)))
}

proof fn lemma_better_ranks()
    ensures
        ranks(|a: ServerFound, b: ServerFound| better(a, b)),
{
    let lt = |a: ServerFound, b: ServerFound| better(a, b);
    assert forall|a: ServerFound| !#[trigger] lt(a, a) by {
        crate::order::lemma_text_below(a.url, a.url, a.url);
    }
    assert forall|a: ServerFound, b: ServerFound| #[trigger] lt(a, b) implies !lt(b, a) by {
        crate::order::lemma_text_below(a.url, b.url, a.url);
    }
    assert forall|a: ServerFound, b: ServerFound, c: ServerFound|
        !(#[trigger] lt(a, b)) && !(#[trigger] lt(b, c)) implies !lt(a, c) by {
        crate::order::lemma_text_below(a.url, b.url, c.url);
    }
}

proof fn lemma_firsts(s: Seq<ServerFound>, k: int)
    requires
        forall|i: int, j: int|
            0 <= i < j < s.len() ==> (#[trigger] s[i]).confidence >= (#[trigger] s[j]).confidence,
        0 <= k < s.len(),
    ensures
        exists|m: int|
            0 <= m < firsts(s).len() && (#[trigger] firsts(s)[m]).url == s[k].url
                && firsts(s)[m].confidence >= s[k].confidence,
        forall|i: int, j: int|
            0 <= i < j < firsts(s).len() ==> (#[trigger] firsts(s)[i]).url != (
            #[trigger] firsts(s)[j]).url,
        forall|i: int| 0 <= i < firsts(s).len() ==> s.contains(#[trigger] firsts(s)[i]),
    decreases s.len(),
{
    let d = s.drop_last();
    let before = firsts(d);
    let last = s.last();
    assert forall|i: int, j: int| 0 <= i < j < d.len() implies (#[trigger] d[i]).confidence >= (
    #[trigger] d[j]).confidence by {
        assert(s[i] == d[i] && s[j] == d[j]);
    }
    let seen = exists|i: int| 0 <= i < s.len() - 1 && (#[trigger] s[i]).url == last.url;
    if d.len() > 0 {
        lemma_firsts(d, 0);
        if k < d.len() {
            lemma_firsts(d, k);
        }
    }
    assert forall|i: int| 0 <= i < before.len() implies s.contains(#[trigger] before[i]) by {
        let m = choose|m: int| 0 <= m < d.len() && d[m] == before[i];
        assert(d.contains(before[i]));
        assert(s[m] == before[i]);
    }
    if seen {
        if k == d.len() {
            let i = choose|i: int| 0 <= i < s.len() - 1 && (#[trigger] s[i]).url == last.url;
            lemma_firsts(d, i);
            let m = choose|m: int|
                0 <= m < before.len() && (#[trigger] before[m]).url == d[i].url
                    && before[m].confidence >= d[i].confidence;
            assert(d[i] == s[i]);
            assert(s[i].confidence >= s[s.len() - 1].confidence);
            assert(firsts(s)[m].url == s[k].url);
        } else {
            assert(d[k] == s[k]);
        }
    } else {
        let r = firsts(s);
        assert(r == before.push(last));
        assert(s[s.len() - 1] == last);
        assert forall|i: int, j: int| 0 <= i < j < r.len() implies (#[trigger] r[i]).url != (
        #[trigger] r[j]).url by {
            if j == before.len() {
                assert(d.contains(before[i]));
                let m = choose|m: int| 0 <= m < d.len() && d[m] == before[i];
                assert(s[m] == before[i]);
            }
        }
        if k < d.len() {
            assert(d[k] == s[k]);
            let m = choose|m: int|
                0 <= m < before.len() && (#[trigger] before[m]).url == d[k].url
                    && before[m].confidence >= d[k].confidence;
            assert(r[m] == before[m]);
        } else {
            assert(r[before.len() as int] == last);
        }
    }
}

/// Every address that was offered is kept, once, and with the highest
/// confidence it was offered with.
pub proof fn the_surest_offer_of_each_address_is_kept(s: Seq<ServerFound>, k: int)
    requires
        0 <= k < s.len(),
    ensures
        exists|m: int|
            0 <= m < best_servers(s).len() && (#[trigger] best_servers(s)[m]).url == s[k].url
                && best_servers(s)[m].confidence >= s[k].confidence,
        forall|i: int, j: int|
            0 <= i < j < best_servers(s).len() ==> (#[trigger] best_servers(s)[i]).url != (
            #[trigger] best_servers(s)[j]).url,
{
    let lt = |a: ServerFound, b: ServerFound| better(a, b);
    lemma_better_ranks();
    crate::order::sorting_is_ordered_and_complete(s, lt);
    let o = sorted(s, lt);
    assert forall|i: int, j: int| 0 <= i < j < o.len() implies (#[trigger] o[i]).confidence >= (
    #[trigger] o[j]).confidence by {
        assert(!lt(o[j], o[i]));
    }
    s.to_multiset_ensures();
    o.to_multiset_ensures();
    assert(s.contains(s[k]));
    assert(o.to_multiset().count(s[k]) > 0);
    assert(o.contains(s[k]));
    let m = choose|m: int| 0 <= m < o.len() && o[m] == s[k];
    lemma_firsts(o, m);
}

fn server_less(a: &DevServerDiscovery, b: &DevServerDiscovery) -> (r: bool)
    ensures
        r == better(a@, b@),
{
    a.confidence > b.confidence || (a.confidence == b.confidence && text_less(
        a.url.as_str(),
        b.url.as_str(),
    ))
}

/// Keep the highest-confidence entry per URL, in confidence order.
pub fn dedupe(candidates: Vec<DevServerDiscovery>) -> (r: Vec<DevServerDiscovery>)
    ensures
        servers(r@) == best_servers(servers(candidates@)),
{
    let ghost lt = |a: DevServerDiscovery, b: DevServerDiscovery| better(a@, b@);
    let ghost unsorted = candidates@;
    let ordered = stable_sort(candidates, server_less, Ghost(lt));
    let ghost all = servers(ordered@);
    proof {
        crate::order::lemma_sorted_view(
            unsorted,
            lt,
            |d: DevServerDiscovery| d@,
            |a: ServerFound, b: ServerFound| better(a, b),
        );
    }
    let mut urls: Vec<String> = Vec::new();
    let mut rest = ordered;
    let mut out: Vec<DevServerDiscovery> = Vec::new();
    let ghost mut done: int = 0;
    proof {
        assert(all.take(0) =~= Seq::<ServerFound>::empty());
        assert(servers(rest@) =~= all.skip(0));
        assert(servers(out@) =~= firsts(all.take(0)));
    }
    while rest.len() > 0
        invariant
            0 <= done <= all.len(),
            servers(rest@) == all.skip(done),
            servers(out@) == firsts(all.take(done)),
            texts(urls@) == all.take(done).map_values(|s: ServerFound| s.url),
        decreases rest@.len(),
    {
        let ghost r0 = servers(rest@);
        let c = rest.remove(0);
        let ghost us = all.take(done).map_values(|s: ServerFound| s.url);
        let ghost had = servers(out@);
        let ghost t = all.take(done + 1);
        proof {
            assert(r0.len() == all.len() - done);
            assert(r0[0] == c@);
            assert(all.skip(done)[0] == all[done]);
            assert(all[done] == c@);
            assert(servers(rest@) =~= r0.drop_first());
            assert(servers(rest@) =~= all.skip(done + 1));
            assert(t.drop_last() =~= all.take(done));
            assert(t.last() == c@);
        }
        let known = crate::text::listed(&urls, c.url.as_str());
        proof {
            if known {
                let i = choose|i: int| 0 <= i < us.len() && us[i] == c@.url;
                assert(us.contains(c@.url));
                assert(t[i].url == t.last().url);
            } else {
                assert forall|i: int| 0 <= i < t.len() - 1 implies (#[trigger] t[i]).url
                    != t.last().url by {
                    assert(us[i] == t[i].url);
                }
            }
        }
        urls.push(c.url.as_str().to_owned());
        proof {
            assert(texts(urls@) =~= us.push(c@.url));
            assert(texts(urls@) =~= t.map_values(|s: ServerFound| s.url));
        }
        if !known {
            out.push(c);
            assert(servers(out@) =~= had.push(c@));
        }
        proof {
            done = done + 1;
        }
    }
    assert(all.take(all.len() as int) =~= all);
    out
}

/// Everything the dev server detector does. `late` says the scan is out of
/// time already: this runs last, and there is nothing to be gained by reading
/// more files.
pub open spec fn devserver_outcome(
    files: Seq<Seq<char>>,
    disk: Seq<(Seq<char>, Given)>,
    left: usize,
    late: bool,
) -> Candidates {
    if late {
        Candidates {
            found: Seq::empty(),
            left,
            events: seq![
                Event::Note {
                    message: "scan timeout reached, so dev server detection was skipped"@,
                },
            ],
        }
    } else {
        let all = everything_offered(files, disk, left);
        let best = best_servers(demoted(all.found));
        Candidates {
            found: best,
            left: all.left,
            events: all.events + (if has_environment(all.found) {
                demotions(all.found)
            } else {
                Seq::empty()
            }) + (if best.len() == 0 {
                seq![
                    Event::Note {
                        message: "no dev server config found in Lando, DDEV, Vite, Compose or package.json"@,
                    },
                ]
            } else {
                Seq::empty()
            }),
        }
    }
}

pub fn run(
    index: &FileIndex,
    late: bool,
    disk: &Disk,
    budget: &mut ReadBudget,
    log: &mut ScanLog,
) -> (r: DetectorOutput)
    ensures
        ({
            let got = devserver_outcome(texts(index.files@), disk@, old(budget)@, late);
            &&& r@ == (OutputFound { dev_servers: got.found, ..nothing_found() })
            &&& final(budget)@ == got.left
            &&& final(log)@ == old(log)@.with(got.events)
        }),
{
    broadcast use super::log::lemma_with_with;

    let mut out = DetectorOutput::default();
    if late {
        log.note("scan timeout reached, so dev server detection was skipped");
        return out;
    }
    let ghost start = log@;
    let ghost files = texts(index.files@);
    let mut found: Vec<DevServerDiscovery> = Vec::new();
    let ghost mut c = Candidates { found: Seq::empty(), left: budget@, events: Seq::empty() };
    proof {
        assert(servers(found@) =~= Seq::<ServerFound>::empty());
        assert(start.with(Seq::empty()) =~= start);
    }
    let paths = index.by_name(".lando.yml");
    read_sources(&mut found, Source::Lando, &paths, disk, budget, log, Ghost(c), Ghost(start));
    proof {
        c = sources_read(c, Source::Lando, disk@, texts(paths@));
    }
    let paths = ddev_configs(index);
    read_sources(&mut found, Source::Ddev, &paths, disk, budget, log, Ghost(c), Ghost(start));
    proof {
        c = sources_read(c, Source::Ddev, disk@, texts(paths@));
    }
    let paths = index.by_stem("vite.config");
    read_sources(&mut found, Source::Vite, &paths, disk, budget, log, Ghost(c), Ghost(start));
    proof {
        c = sources_read(c, Source::Vite, disk@, texts(paths@));
    }
    let paths = index.by_name("docker-compose.yml");
    read_sources(&mut found, Source::Compose, &paths, disk, budget, log, Ghost(c), Ghost(start));
    proof {
        c = sources_read(c, Source::Compose, disk@, texts(paths@));
    }
    let paths = index.by_name("docker-compose.yaml");
    read_sources(&mut found, Source::Compose, &paths, disk, budget, log, Ghost(c), Ghost(start));
    proof {
        c = sources_read(c, Source::Compose, disk@, texts(paths@));
    }
    let paths = index.by_name("compose.yml");
    read_sources(&mut found, Source::Compose, &paths, disk, budget, log, Ghost(c), Ghost(start));
    proof {
        c = sources_read(c, Source::Compose, disk@, texts(paths@));
    }
    let paths = index.by_name("package.json");
    read_sources(&mut found, Source::Manifest, &paths, disk, budget, log, Ghost(c), Ghost(start));
    proof {
        c = sources_read(c, Source::Manifest, disk@, texts(paths@));
        assert(c == everything_offered(files, disk@, old(budget)@));
    }
    demote_bundlers(&mut found, log);
    let found = dedupe(found);
    assert(servers(found@).len() == found@.len());
    let ghost before_last = log@;
    if found.len() == 0 {
        log.note("no dev server config found in Lando, DDEV, Vite, Compose or package.json");
    } else {
        assert(before_last.with(Seq::empty()) =~= before_last);
    }
    out.dev_servers = found;
    out
}

/// What was offered before stays offered.
spec fn keeps(c: Candidates, r: Candidates) -> bool {
    &&& c.found.len() <= r.found.len()
    &&& forall|i: int| 0 <= i < c.found.len() ==> #[trigger] r.found[i] == c.found[i]
}

proof fn lemma_hosts_offered(
    c: Candidates,
    file: Seq<char>,
    name: Option<Seq<char>>,
    hosts: Seq<Node>,
)
    ensures
        keeps(c, hosts_offered(c, file, name, hosts)),
        forall|k: int|
            0 <= k < hosts.len() && text_of(#[trigger] hosts[k]) is Some ==> hosts_offered(
                c,
                file,
                name,
                hosts,
            ).found.contains(
                server(
                    "https://"@ + split(text_of(hosts[k])->0, '/')[0],
                    None,
                    ".lando.yml proxy"@,
                    if name matches Some(n) && begins(
                        split(text_of(hosts[k])->0, '/')[0],
                        n + "."@,
                    ) {
                        95
                    } else {
                        45
                    },
                ),
            ),
    decreases hosts.len(),
{
    if hosts.len() > 0 {
        let d = hosts.drop_last();
        lemma_hosts_offered(c, file, name, d);
        let before = hosts_offered(c, file, name, d);
        let r = hosts_offered(c, file, name, hosts);
        assert(keeps(before, r));
        assert forall|k: int| 0 <= k < hosts.len() && text_of(
            #[trigger] hosts[k],
        ) is Some implies r.found.contains(
            server(
                "https://"@ + split(text_of(hosts[k])->0, '/')[0],
                None,
                ".lando.yml proxy"@,
                if name matches Some(n) && begins(split(text_of(hosts[k])->0, '/')[0], n + "."@) {
                    95
                } else {
                    45
                },
            ),
        ) by {
            let x = server(
                "https://"@ + split(text_of(hosts[k])->0, '/')[0],
                None,
                ".lando.yml proxy"@,
                if name matches Some(n) && begins(split(text_of(hosts[k])->0, '/')[0], n + "."@) {
                    95
                } else {
                    45
                },
            );
            if k < d.len() {
                assert(d[k] == hosts[k]);
                assert(before.found.contains(x));
                assert(r.found[before.found.index_of(x)] == x);
            } else {
                assert(r.found.last() == x);
            }
        }
    }
}

proof fn lemma_proxies_keep(
    c: Candidates,
    file: Seq<char>,
    name: Option<Seq<char>>,
    services: Seq<(Node, Node)>,
)
    ensures
        keeps(c, proxies_offered(c, file, name, services)),
    decreases services.len(),
{
    if services.len() > 0 {
        let before = proxies_offered(c, file, name, services.drop_last());
        lemma_proxies_keep(c, file, name, services.drop_last());
        if let Node::Items(hosts) = services.last().1 {
            lemma_hosts_offered(before, file, name, hosts@);
        }
    }
}

proof fn lemma_proxy_offered(
    c: Candidates,
    file: Seq<char>,
    name: Option<Seq<char>>,
    services: Seq<(Node, Node)>,
    i: int,
    x: ServerFound,
)
    requires
        0 <= i < services.len(),
        services[i].1 is Items,
        forall|b: Candidates| #[trigger]
            hosts_offered(b, file, name, services[i].1->Items_0@).found.contains(x),
    ensures
        proxies_offered(c, file, name, services).found.contains(x),
    decreases services.len(),
{
    let d = services.drop_last();
    let before = proxies_offered(c, file, name, d);
    let r = proxies_offered(c, file, name, services);
    if i == services.len() - 1 {
        assert(hosts_offered(before, file, name, services[i].1->Items_0@).found.contains(x));
    } else {
        assert(d[i] == services[i]);
        lemma_proxy_offered(c, file, name, d, i, x);
        if let Node::Items(hosts) = services.last().1 {
            lemma_hosts_offered(before, file, name, hosts@);
        }
        assert(r.found[before.found.index_of(x)] == x);
    }
}

/// Lando serves a project at its own name under lndo.site, which is near
/// certain, and what was offered before stays offered.
pub proof fn a_lando_site_is_offered_by_its_name(c: Candidates, file: Seq<char>, doc: Node)
    ensures
        member_text(doc, "name"@) matches Some(n) ==> lando_offered(c, file, doc).found.contains(
            server("https://"@ + n + ".lndo.site"@, None, ".lando.yml name"@, 90),
        ),
        forall|j: int|
            0 <= j < c.found.len() ==> lando_offered(c, file, doc).found.contains(
                #[trigger] c.found[j],
            ),
{
    let named = lando_named(c, file, doc);
    let r = lando_offered(c, file, doc);
    assert(keeps(c, named));
    if let Some(Node::Members(ms)) = member_of(doc, "proxy"@) {
        lemma_proxies_keep(named, file, member_text(doc, "name"@), ms@);
    }
    assert(keeps(named, r));
    if let Some(n) = member_text(doc, "name"@) {
        let x = server("https://"@ + n + ".lndo.site"@, None, ".lando.yml name"@, 90);
        assert(named.found[c.found.len() as int] == x);
        assert(r.found[c.found.len() as int] == x);
    }
    assert forall|j: int| 0 <= j < c.found.len() implies r.found.contains(
        #[trigger] c.found[j],
    ) by {
        assert(named.found[j] == c.found[j]);
        assert(r.found[j] == c.found[j]);
    }
}

spec fn lando_named(c: Candidates, file: Seq<char>, doc: Node) -> Candidates {
    match member_text(doc, "name"@) {
        Some(n) => offered(
            c,
            server("https://"@ + n + ".lndo.site"@, None, ".lando.yml name"@, 90),
        ),
        None => said(
            c,
            seq![
                Event::Discarded {
                    file,
                    value: "<name>"@,
                    reason: "no name key, so no site hostname to derive"@,
                },
            ],
        ),
    }
}

/// A host that Lando's proxy serves is offered: surer than the name itself
/// where it begins with the project's name, and probably tooling where it does
/// not.
pub proof fn a_proxy_host_is_offered(
    c: Candidates,
    file: Seq<char>,
    doc: Node,
    services: Vec<(Node, Node)>,
    i: int,
    hosts: Vec<Node>,
    k: int,
)
    requires
        member_of(doc, "proxy"@) == Some(Node::Members(services)),
        0 <= i < services@.len(),
        services@[i].1 == Node::Items(hosts),
        0 <= k < hosts@.len(),
        text_of(hosts@[k]) is Some,
    ensures
        ({
            let host = split(text_of(hosts@[k])->0, '/')[0];
            lando_offered(c, file, doc).found.contains(
                server(
                    "https://"@ + host,
                    None,
                    ".lando.yml proxy"@,
                    if member_text(doc, "name"@) matches Some(n) && begins(host, n + "."@) {
                        95
                    } else {
                        45
                    },
                ),
            )
        }),
{
    let name = member_text(doc, "name"@);
    let host = split(text_of(hosts@[k])->0, '/')[0];
    let x = server(
        "https://"@ + host,
        None,
        ".lando.yml proxy"@,
        if name matches Some(n) && begins(host, n + "."@) {
            95
        } else {
            45
        },
    );
    assert forall|b: Candidates| #[trigger]
        hosts_offered(b, file, name, hosts@).found.contains(x) by {
        lemma_hosts_offered(b, file, name, hosts@);
    }
    lemma_proxy_offered(lando_named(c, file, doc), file, name, services@, i, x);
}

/// DDEV serves a project at its own name under ddev.site.
pub proof fn a_ddev_site_is_offered_by_its_name(
    c: Candidates,
    disk: Seq<(Seq<char>, Given)>,
    path: Seq<char>,
    text: Seq<char>,
    docs: Seq<Node>,
    name: Seq<char>,
)
    requires
        c.left > 0,
        super::walk::given(disk, path) == Given::Text(text),
        yaml_in(text) == Ok::<Seq<Node>, Seq<char>>(docs),
        docs.len() > 0,
        member_text(docs[0], "name"@) == Some(name),
    ensures
        ddev_step(c, disk, path).found == c.found.push(
            server("https://"@ + name + ".ddev.site"@, None, ".ddev/config.yaml"@, 90),
        ),
{
}

/// A port is read from its digits, and a number too large for one is none.
pub proof fn a_port_is_what_its_digits_say(n: nat)
    ensures
        n <= 65_535 ==> port_of(decimal(n)) == Some(n as u16),
        n > 65_535 ==> port_of(decimal(n)) is None,
        port_of(Seq::empty()) is None,
{
    crate::project_file::laws::lemma_decimal_digits(n);
    assert(is_digit(decimal(n)[0]));
}

proof fn lemma_no_colon(n: nat)
    ensures
        split(decimal(n), ':') == seq![decimal(n)],
{
    crate::project_file::laws::lemma_decimal_digits(n);
    let d = decimal(n);
    crate::text::lemma_first_char(d, ':', 0);
    if let Some(k) = crate::text::first_char(d, ':', 0) {
        assert(is_digit(d[k]));
    }
    assert(d.skip(0) =~= d);
}

/// Of a published port it is the one on this machine that counts, not the one
/// in the container, whether or not an address stands before it.
pub proof fn the_port_on_this_machine_is_published(address: Seq<char>, host: nat, inside: nat)
    requires
        host <= 65_535,
        !address.contains(':'),
    ensures
        published_port(decimal(host) + seq![':'] + decimal(inside)) == Some(host as u16),
        published_port(address + seq![':'] + (decimal(host) + seq![':'] + decimal(inside)))
            == Some(host as u16),
        published_port(decimal(inside)) is None,
{
    a_port_is_what_its_digits_say(host);
    let h = decimal(host);
    let i = decimal(inside);
    lemma_no_colon(host);
    lemma_no_colon(inside);
    crate::text::lemma_split_two(h, i, ':', 0);
    let two = h + seq![':'] + i;
    assert(split(two, ':') =~= seq![h, i]);
    crate::text::lemma_split_two(address, two, ':', 0);
    crate::text::lemma_first_char(address, ':', 0);
    if let Some(k) = crate::text::first_char(address, ':', 0) {
        assert(address.contains(address[k]));
    }
    assert(address.skip(0) =~= address);
    assert(split(address + seq![':'] + two, ':') =~= seq![address, h, i]);
}

/// A compose service is taken for a web server when its name contains one of
/// eight words.
pub proof fn a_web_service_is_told_by_its_name(before: Seq<char>, after: Seq<char>)
    ensures
        is_webish(before + "web"@ + after),
        is_webish(before + "nginx"@ + after),
        is_webish(before + "apache"@ + after),
        is_webish(before + "app"@ + after),
        is_webish(before + "php"@ + after),
        is_webish(before + "frontend"@ + after),
        is_webish(before + "node"@ + after),
        is_webish(before + "httpd"@ + after),
        forall|name: Seq<char>| #[trigger]
            is_webish(name) ==> has(name, "web"@) || has(name, "nginx"@) || has(name, "apache"@)
                || has(name, "app"@) || has(name, "php"@) || has(name, "frontend"@) || has(
                name,
                "node"@,
            ) || has(name, "httpd"@),
{
    lemma_has_middle(before, "web"@, after);
    lemma_has_middle(before, "nginx"@, after);
    lemma_has_middle(before, "apache"@, after);
    lemma_has_middle(before, "app"@, after);
    lemma_has_middle(before, "php"@, after);
    lemma_has_middle(before, "frontend"@, after);
    lemma_has_middle(before, "node"@, after);
    lemma_has_middle(before, "httpd"@, after);
}

proof fn lemma_has_middle(before: Seq<char>, pat: Seq<char>, after: Seq<char>)
    ensures
        has(before + pat + after, pat),
{
    let s = before + pat + after;
    let i = before.len() as int;
    assert(s.subrange(i, i + pat.len()) =~= pat);
    assert(crate::text::matches_at(s, pat, i));
}

/// What a Vite server says of itself is used as it says it, and what it does
/// not say is Vite's own default: plain http, on localhost, at 5173.
pub proof fn a_vite_server_is_where_its_config_says(ms: Seq<Member>, port: nat)
    ensures
        entry_value(ms, "port"@) is None && entry_value(ms, "https"@) is None && entry_value(
            ms,
            "host"@,
        ) is None ==> origin_of(ms) == ("http"@ + "://"@ + "localhost"@ + ":"@ + decimal(5173), 5173u16),
        port <= 65_535 && entry_value(ms, "port"@) == Some(decimal(port)) ==> origin_of(ms).1 == port,
        entry_value(ms, "host"@) matches Some(h) ==> h.len() > 0 && h != "true"@ && h != "false"@
            && entry_value(ms, "https"@) is None ==> origin_of(ms).0 == "http"@ + "://"@ + h + ":"@
            + decimal(origin_of(ms).1 as nat),
        entry_value(ms, "https"@) matches Some(v) ==> begins(
            origin_of(ms).0,
            if v == "false"@ {
                "http"@ + "://"@
            } else {
                "https"@ + "://"@
            },
        ),
{
    a_port_is_what_its_digits_say(port);
    if let Some(v) = entry_value(ms, "https"@) {
        let front = if v == "false"@ {
            "http"@ + "://"@
        } else {
            "https"@ + "://"@
        };
        assert(origin_of(ms).0.subrange(0, front.len() as int) =~= front);
    }
}

/// An entry is found under its key by the first member that has it, without
/// its quotes.
pub proof fn the_first_entry_of_a_key_counts(ms: Seq<Member>, key: Seq<char>, k: int)
    requires
        0 <= k < ms.len(),
        ms[k].key == key,
        forall|j: int| 0 <= j < k ==> (#[trigger] ms[j]).key != key,
    ensures
        entry_value(ms, key) == Some(trimmed_of(ms[k].value, seq!['"', '\''])),
    decreases k,
{
    if k > 0 {
        let d = ms.drop_first();
        assert(d[k - 1] == ms[k]);
        assert forall|j: int| 0 <= j < k - 1 implies (#[trigger] d[j]).key != key by {
            assert(d[j] == ms[j + 1]);
        }
        the_first_entry_of_a_key_counts(d, key, k - 1);
    }
}

proof fn lemma_ports_offered(c: Candidates, ports: Seq<u16>, file: Seq<char>)
    ensures
        keeps(c, ports_offered(c, ports, file)),
        ports_offered(c, ports, file).found.len() == c.found.len() + ports.len(),
        forall|k: int|
            0 <= k < ports.len() ==> #[trigger] ports_offered(c, ports, file).found[c.found.len()
                + k] == server(
                "http://localhost:"@ + decimal(ports[k] as nat),
                Some(ports[k]),
                file,
                60,
            ),
    decreases ports.len(),
{
    if ports.len() > 0 {
        let d = ports.drop_last();
        lemma_ports_offered(c, d, file);
        let before = ports_offered(c, d, file);
        let r = ports_offered(c, ports, file);
        assert forall|k: int| 0 <= k < ports.len() implies #[trigger] r.found[c.found.len() + k]
            == server(
            "http://localhost:"@ + decimal(ports[k] as nat),
            Some(ports[k]),
            file,
            60,
        ) by {
            if k < d.len() {
                assert(r.found[c.found.len() + k] == before.found[c.found.len() + k]);
                assert(d[k] == ports[k]);
            }
        }
    }
}

/// Each port that a compose file publishes is offered on localhost, in order.
pub proof fn each_published_port_is_offered(c: Candidates, ports: Seq<u16>, file: Seq<char>)
    ensures
        ({
            let r = ports_offered(c, ports, file).found;
            &&& r.len() == c.found.len() + ports.len()
            &&& forall|k: int|
                0 <= k < ports.len() ==> (#[trigger] r[c.found.len() + k]).url
                    == "http://localhost:"@ + decimal(ports[k] as nat) && r[c.found.len() + k].port
                    == Some(ports[k]) && r[c.found.len() + k].confidence == 60
        }),
{
    lemma_ports_offered(c, ports, file);
}

/// Where Lando or DDEV serves the site, a bundler's own address is only the
/// asset server, and is held no surer than a half. Nothing else changes, and
/// nothing at all where neither does.
pub proof fn a_bundler_gives_way_to_an_environment(found: Seq<ServerFound>, i: int)
    requires
        0 <= i < found.len(),
    ensures
        ({
            let r = demoted(found);
            let served = exists|k: int|
                0 <= k < found.len() && (has((#[trigger] found[k]).source, "lando"@) || has(
                    found[k].source,
                    "ddev"@,
                ));
            let bundled = begins(found[i].source, "vite.config"@) || has(
                found[i].source,
                "/vite.config"@,
            ) || has(found[i].source, "default port"@) || begins(found[i].source, "package.json"@);
            &&& r.len() == found.len()
            &&& r[i].url == found[i].url && r[i].source == found[i].source && r[i].port
                == found[i].port
            &&& served && bundled && found[i].confidence > 50 ==> r[i].confidence == 50
            &&& !served || !bundled || found[i].confidence <= 50 ==> r[i] == found[i]
        }),
{
    if exists|k: int|
        0 <= k < found.len() && (has((#[trigger] found[k]).source, "lando"@) || has(
            found[k].source,
            "ddev"@,
        )) {
        let k = choose|k: int|
            0 <= k < found.len() && (has((#[trigger] found[k]).source, "lando"@) || has(
                found[k].source,
                "ddev"@,
            ));
        assert(is_environment(found[k]));
    }
}

proof fn lemma_firsts_in(s: Seq<ServerFound>)
    ensures
        forall|i: int| 0 <= i < firsts(s).len() ==> s.contains(#[trigger] firsts(s)[i]),
        (forall|i: int, j: int|
            0 <= i < j < s.len() ==> (#[trigger] s[i]).confidence >= (#[trigger] s[j]).confidence)
            ==> forall|i: int, j: int|
            0 <= i < j < firsts(s).len() ==> (#[trigger] firsts(s)[i]).confidence >= (
            #[trigger] firsts(s)[j]).confidence,
    decreases s.len(),
{
    if s.len() > 0 {
        let d = s.drop_last();
        lemma_firsts_in(d);
        let before = firsts(d);
        let r = firsts(s);
        assert(s[s.len() - 1] == s.last());
        assert forall|i: int| 0 <= i < r.len() implies s.contains(#[trigger] r[i]) by {
            if i < before.len() {
                assert(r[i] == before[i]);
                assert(d.contains(before[i]));
                assert(s[d.index_of(before[i])] == r[i]);
            }
        }
        if forall|i: int, j: int|
            0 <= i < j < s.len() ==> (#[trigger] s[i]).confidence >= (#[trigger] s[j]).confidence {
            assert forall|i: int, j: int| 0 <= i < j < d.len() implies (
            #[trigger] d[i]).confidence >= (#[trigger] d[j]).confidence by {
                assert(d[i] == s[i] && d[j] == s[j]);
            }
            assert forall|i: int, j: int| 0 <= i < j < r.len() implies (
            #[trigger] r[i]).confidence >= (#[trigger] r[j]).confidence by {
                assert(r[i] == before[i]);
                if j < before.len() {
                    assert(r[j] == before[j]);
                } else {
                    assert(d.contains(before[i]));
                    let k = d.index_of(before[i]);
                    assert(s[k].confidence >= s[s.len() - 1].confidence);
                }
            }
        }
    }
}

/// The addresses found are among those offered, the surest first.
pub proof fn the_surest_address_comes_first(s: Seq<ServerFound>, i: int, j: int)
    requires
        0 <= i < j < best_servers(s).len(),
    ensures
        best_servers(s)[i].confidence >= best_servers(s)[j].confidence,
        s.contains(best_servers(s)[i]),
        s.contains(best_servers(s)[j]),
{
    let lt = |a: ServerFound, b: ServerFound| better(a, b);
    lemma_better_ranks();
    crate::order::sorting_is_ordered_and_complete(s, lt);
    let o = sorted(s, lt);
    assert forall|i: int, j: int| 0 <= i < j < o.len() implies (#[trigger] o[i]).confidence >= (
    #[trigger] o[j]).confidence by {
        assert(!lt(o[j], o[i]));
    }
    lemma_firsts_in(o);
    assert(o.contains(firsts(o)[i]) && o.contains(firsts(o)[j]));
    crate::order::lemma_sorted_keeps(s, lt, firsts(o)[i]);
    crate::order::lemma_sorted_keeps(s, lt, firsts(o)[j]);
}

proof fn lemma_script_keeps(c: Candidates, manifest: Seq<char>, script: Seq<char>)
    ensures
        keeps(c, script_step(c, manifest, script)),
{
}

proof fn lemma_framework_keeps(
    c: Candidates,
    manifest: Seq<char>,
    package: Seq<char>,
    port: u16,
)
    ensures
        keeps(c, framework_step(c, manifest, package, port)),
        is_there(json_entry(manifest, "dependencies"@, package)) || is_there(
            json_entry(manifest, "devDependencies"@, package),
        ) ==> framework_step(c, manifest, package, port).found.last() == server(
            "http://localhost:"@ + decimal(port as nat),
            Some(port),
            package + " default port"@,
            40,
        ) && framework_step(c, manifest, package, port).found.len() == c.found.len() + 1,
{
}

proof fn lemma_kept(c: Candidates, r: Candidates, x: ServerFound)
    requires
        keeps(c, r),
        c.found.contains(x),
    ensures
        r.found.contains(x),
{
    assert(r.found[c.found.index_of(x)] == x);
}

proof fn lemma_keeps_on(a: Candidates, b: Candidates, c: Candidates)
    requires
        keeps(a, b),
        keeps(b, c),
    ensures
        keeps(a, c),
{
    assert forall|i: int| 0 <= i < a.found.len() implies #[trigger] c.found[i] == a.found[i] by {
        assert(b.found[i] == a.found[i]);
    }
}

/// A package.json that depends on a framework offers that framework's own
/// port: 5173 for Vite and SvelteKit, 3000 for Next, Nuxt and Create React App,
/// 4321 for Astro, 8000 for Gatsby, and 4200 for Angular.
pub proof fn a_framework_has_its_own_port(
    c: Candidates,
    manifest: Seq<char>,
    package: Seq<char>,
    port: u16,
)
    requires
        !(json_entry(manifest, "scripts"@, "dev"@) is NotJson),
        json_entry(manifest, "dependencies"@, package) is Text || json_entry(
            manifest,
            "devDependencies"@,
            package,
        ) is Text,
        (package, port) == ("vite"@, 5173u16) || (package, port) == ("@sveltejs/kit"@, 5173u16) || (
            package,
            port,
        ) == ("next"@, 3000u16) || (package, port) == ("nuxt"@, 3000u16) || (package, port) == (
            "react-scripts"@,
            3000u16,
        ) || (package, port) == ("astro"@, 4321u16) || (package, port) == ("gatsby"@, 8000u16) || (
            package,
            port,
        ) == ("@angular/cli"@, 4200u16),
    ensures
        manifest_offered(c, manifest).found.contains(
            server(
                "http://localhost:"@ + decimal(port as nat),
                Some(port),
                package + " default port"@,
                40,
            ),
        ),
{
    let x = server(
        "http://localhost:"@ + decimal(port as nat),
        Some(port),
        package + " default port"@,
        40,
    );
    let a = script_step(c, manifest, "dev"@);
    let b = script_step(a, manifest, "start"@);
    let s0 = script_step(b, manifest, "serve"@);
    let s1 = framework_step(s0, manifest, "vite"@, 5173);
    let s2 = framework_step(s1, manifest, "@sveltejs/kit"@, 5173);
    let s3 = framework_step(s2, manifest, "next"@, 3000);
    let s4 = framework_step(s3, manifest, "nuxt"@, 3000);
    let s5 = framework_step(s4, manifest, "react-scripts"@, 3000);
    let s6 = framework_step(s5, manifest, "astro"@, 4321);
    let s7 = framework_step(s6, manifest, "gatsby"@, 8000);
    let s8 = framework_step(s7, manifest, "@angular/cli"@, 4200);
    lemma_framework_keeps(s0, manifest, "vite"@, 5173);
    lemma_framework_keeps(s1, manifest, "@sveltejs/kit"@, 5173);
    lemma_framework_keeps(s2, manifest, "next"@, 3000);
    lemma_framework_keeps(s3, manifest, "nuxt"@, 3000);
    lemma_framework_keeps(s4, manifest, "react-scripts"@, 3000);
    lemma_framework_keeps(s5, manifest, "astro"@, 4321);
    lemma_framework_keeps(s6, manifest, "gatsby"@, 8000);
    lemma_framework_keeps(s7, manifest, "@angular/cli"@, 4200);
    assert(manifest_offered(c, manifest) == s8);
    lemma_keeps_on(s6, s7, s8);
    lemma_keeps_on(s5, s6, s8);
    lemma_keeps_on(s4, s5, s8);
    lemma_keeps_on(s3, s4, s8);
    lemma_keeps_on(s2, s3, s8);
    lemma_keeps_on(s1, s2, s8);
    if package == "vite"@ && port == 5173 {
        assert(s1.found[s0.found.len() as int] == x);
        lemma_kept(s1, s8, x);
    } else if package == "@sveltejs/kit"@ && port == 5173 {
        assert(s2.found[s1.found.len() as int] == x);
        lemma_kept(s2, s8, x);
    } else if package == "next"@ && port == 3000 {
        assert(s3.found[s2.found.len() as int] == x);
        lemma_kept(s3, s8, x);
    } else if package == "nuxt"@ && port == 3000 {
        assert(s4.found[s3.found.len() as int] == x);
        lemma_kept(s4, s8, x);
    } else if package == "react-scripts"@ && port == 3000 {
        assert(s5.found[s4.found.len() as int] == x);
        lemma_kept(s5, s8, x);
    } else if package == "astro"@ && port == 4321 {
        assert(s6.found[s5.found.len() as int] == x);
        lemma_kept(s6, s8, x);
    } else if package == "gatsby"@ && port == 8000 {
        assert(s7.found[s6.found.len() as int] == x);
        lemma_kept(s7, s8, x);
    } else {
        assert(s8.found[s7.found.len() as int] == x);
        assert(s8.found.contains(x));
    }
}

/// A port that the dev, start or serve script names is offered on localhost.
pub proof fn a_script_offers_the_port_it_names(
    c: Candidates,
    manifest: Seq<char>,
    script: Seq<char>,
    command: Seq<char>,
    port: u16,
)
    requires
        script == "dev"@ || script == "start"@ || script == "serve"@,
        !(json_entry(manifest, "scripts"@, "dev"@) is NotJson),
        json_entry(manifest, "scripts"@, script) == super::manifest::Entry::Text(command),
        matches_of(PORT_PATTERN@, command).len() > 0,
        port_of(group_or_empty(command, matches_of(PORT_PATTERN@, command)[0], 1)) == Some(port),
    ensures
        manifest_offered(c, manifest).found.contains(
            server(
                "http://localhost:"@ + decimal(port as nat),
                Some(port),
                "package.json scripts."@ + script,
                70,
            ),
        ),
{
    let x = server(
        "http://localhost:"@ + decimal(port as nat),
        Some(port),
        "package.json scripts."@ + script,
        70,
    );
    let a = script_step(c, manifest, "dev"@);
    let b = script_step(a, manifest, "start"@);
    let s0 = script_step(b, manifest, "serve"@);
    let s1 = framework_step(s0, manifest, "vite"@, 5173);
    let s2 = framework_step(s1, manifest, "@sveltejs/kit"@, 5173);
    let s3 = framework_step(s2, manifest, "next"@, 3000);
    let s4 = framework_step(s3, manifest, "nuxt"@, 3000);
    let s5 = framework_step(s4, manifest, "react-scripts"@, 3000);
    let s6 = framework_step(s5, manifest, "astro"@, 4321);
    let s7 = framework_step(s6, manifest, "gatsby"@, 8000);
    let s8 = framework_step(s7, manifest, "@angular/cli"@, 4200);
    assert(manifest_offered(c, manifest) == s8);
    lemma_keeps_on(s6, s7, s8);
    lemma_keeps_on(s5, s6, s8);
    lemma_keeps_on(s4, s5, s8);
    lemma_keeps_on(s3, s4, s8);
    lemma_keeps_on(s2, s3, s8);
    lemma_keeps_on(s1, s2, s8);
    lemma_keeps_on(s0, s1, s8);
    lemma_script_keeps(a, manifest, "start"@);
    lemma_script_keeps(b, manifest, "serve"@);
    if script == "dev"@ {
        assert(a.found[c.found.len() as int] == x);
        lemma_kept(a, b, x);
        lemma_kept(b, s0, x);
    } else if script == "start"@ {
        assert(b.found[a.found.len() as int] == x);
        lemma_kept(b, s0, x);
    } else {
        assert(s0.found[b.found.len() as int] == x);
    }
    lemma_kept(s0, s8, x);
}

proof fn lemma_one_source(
    c: Candidates,
    kind: Source,
    disk: Seq<(Seq<char>, Given)>,
    p: Seq<char>,
    is: spec_fn(Seq<char>) -> bool,
)
    ensures
        sources_read(c, kind, disk, chosen(seq![p], is)) == if is(p) {
            source_step(c, kind, disk, p)
        } else {
            c
        },
{
    let one = seq![p];
    assert(one.drop_last() =~= Seq::<Seq<char>>::empty());
    reveal_with_fuel(chosen, 2);
    reveal_with_fuel(sources_read, 2);
    if is(p) {
        assert(chosen(one, is) =~= seq![p]);
        assert(seq![p].drop_last() =~= Seq::<Seq<char>>::empty());
    } else {
        assert(chosen(one, is) =~= Seq::<Seq<char>>::empty());
    }
}

/// Which files say where a dev server is: each of these, by its name, and no
/// other.
pub proof fn a_config_is_known_by_its_name(
    p: Seq<char>,
    disk: Seq<(Seq<char>, Given)>,
    left: usize,
)
    ensures
        ({
            let c = Candidates { found: Seq::empty(), left, events: Seq::empty() };
            let r = everything_offered(seq![p], disk, left);
            let name = super::walk::name_of(p);
            let n = parts(p).len() as int;
            &&& name == Some(".lando.yml"@) ==> r == lando_step(c, disk, p)
            &&& n >= 2 && parts(p)[n - 2] == ".ddev"@ && parts(p)[n - 1] == "config.yaml"@ ==> r
                == ddev_step(c, disk, p)
            &&& name == Some("docker-compose.yml"@) ==> r == compose_step(c, disk, p)
            &&& name == Some("docker-compose.yaml"@) ==> r == compose_step(c, disk, p)
            &&& name == Some("compose.yml"@) ==> r == compose_step(c, disk, p)
            &&& name == Some("package.json"@) && n == 1 ==> r.found == manifest_step(
                c,
                disk,
                p,
            ).found
            &&& name == Some("vite.config.js"@) || name == Some("vite.config.ts"@) || name == Some(
                "vite.config.mjs"@,
            ) ==> r == vite_step(c, disk, p)
        }),
{
    let c = Candidates { found: Seq::empty(), left, events: Seq::empty() };
    let files = seq![p];
    let i1 = |p: Seq<char>| named(p, ".lando.yml"@);
    let i2 = |p: Seq<char>| is_ddev_config(p);
    let i3 = |p: Seq<char>| name_begins(p, "vite.config"@ + "."@);
    let i4 = |p: Seq<char>| named(p, "docker-compose.yml"@);
    let i5 = |p: Seq<char>| named(p, "docker-compose.yaml"@);
    let i6 = |p: Seq<char>| named(p, "compose.yml"@);
    let i7 = |p: Seq<char>| named(p, "package.json"@);
    let c1 = sources_read(c, Source::Lando, disk, chosen(files, i1));
    let c2 = sources_read(c1, Source::Ddev, disk, chosen(files, i2));
    let c3 = sources_read(c2, Source::Vite, disk, chosen(files, i3));
    let c4 = sources_read(c3, Source::Compose, disk, chosen(files, i4));
    let c5 = sources_read(c4, Source::Compose, disk, chosen(files, i5));
    let c6 = sources_read(c5, Source::Compose, disk, chosen(files, i6));
    lemma_one_source(c, Source::Lando, disk, p, i1);
    lemma_one_source(c1, Source::Ddev, disk, p, i2);
    lemma_one_source(c2, Source::Vite, disk, p, i3);
    lemma_one_source(c3, Source::Compose, disk, p, i4);
    lemma_one_source(c4, Source::Compose, disk, p, i5);
    lemma_one_source(c5, Source::Compose, disk, p, i6);
    lemma_one_source(c6, Source::Manifest, disk, p, i7);
    lemma_config_names();
    let front = "vite.config"@ + "."@;
    let name = super::walk::name_of(p);
    if is_ddev_config(p) {
        assert(name == Some("config.yaml"@));
    }
    assert(everything_offered(files, disk, left) == sources_read(
        c6,
        Source::Manifest,
        disk,
        chosen(files, i7),
    ));
}

proof fn lemma_config_names()
    ensures
        ".lando.yml"@ != "config.yaml"@,
        ".lando.yml"@ != "docker-compose.yml"@,
        ".lando.yml"@ != "docker-compose.yaml"@,
        ".lando.yml"@ != "compose.yml"@,
        ".lando.yml"@ != "package.json"@,
        "config.yaml"@ != "docker-compose.yml"@,
        "config.yaml"@ != "docker-compose.yaml"@,
        "config.yaml"@ != "compose.yml"@,
        "config.yaml"@ != "package.json"@,
        "config.yaml"@ != ".."@,
        "config.yaml"@ != "."@,
        "docker-compose.yml"@ != "docker-compose.yaml"@,
        "docker-compose.yml"@ != "compose.yml"@,
        "docker-compose.yml"@ != "package.json"@,
        "docker-compose.yaml"@ != "compose.yml"@,
        "docker-compose.yaml"@ != "package.json"@,
        "compose.yml"@ != "package.json"@,
        begins("vite.config.js"@, "vite.config"@ + "."@),
        begins("vite.config.ts"@, "vite.config"@ + "."@),
        begins("vite.config.mjs"@, "vite.config"@ + "."@),
        !begins(".lando.yml"@, "vite.config"@ + "."@),
        !begins("config.yaml"@, "vite.config"@ + "."@),
        !begins("docker-compose.yml"@, "vite.config"@ + "."@),
        !begins("docker-compose.yaml"@, "vite.config"@ + "."@),
        !begins("compose.yml"@, "vite.config"@ + "."@),
        !begins("package.json"@, "vite.config"@ + "."@),
{
    reveal_strlit(".lando.yml");
    reveal_strlit("config.yaml");
    reveal_strlit("docker-compose.yml");
    reveal_strlit("docker-compose.yaml");
    reveal_strlit("compose.yml");
    reveal_strlit("package.json");
    reveal_strlit("vite.config.js");
    reveal_strlit("vite.config.ts");
    reveal_strlit("vite.config.mjs");
    reveal_strlit("vite.config");
    reveal_strlit(".");
    reveal_strlit("..");
    let front = "vite.config"@ + "."@;
    assert("vite.config.js"@.subrange(0, 12) =~= front);
    assert("vite.config.ts"@.subrange(0, 12) =~= front);
    assert("vite.config.mjs"@.subrange(0, 12) =~= front);
    assert(front[0] == 'v');
    assert(".lando.yml"@.len() == 10 && "config.yaml"@.len() == 11 && "docker-compose.yml"@.len()
        == 18 && "docker-compose.yaml"@.len() == 19 && "compose.yml"@.len() == 11
        && "package.json"@.len() == 12);
    assert("config.yaml"@[2] == 'n' && "compose.yml"@[2] == 'm');
    assert("docker-compose.yml"@.subrange(0, 12)[0] == 'd');
    assert("docker-compose.yaml"@.subrange(0, 12)[0] == 'd');
    assert("package.json"@.subrange(0, 12)[0] == 'p');
}

/// What a Vite config says of its server is in the object after the first key of
/// that name, wherever in the text it stands.
pub proof fn the_first_server_of_a_vite_config_counts(text: Seq<char>, k: int)
    requires
        ({
            let src = blanked(text, Dialect::Script);
            &&& 0 <= k && k + "server"@.len() < src.len()
            &&& super::jsobj::key_at(src, "server"@, k) is Some
            &&& forall|j: int| 0 <= j < k ==> (#[trigger] super::jsobj::key_at(src, "server"@, j)) is None
        }),
    ensures
        ({
            let src = blanked(text, Dialect::Script);
            match object_at(src, super::jsobj::key_at(src, "server"@, k)->0) {
                Some(open) => vite_says(text) == Some(origin_of(entries_of(src, open))),
                None => vite_says(text) is None,
            }
        }),
{
    super::jsobj::the_first_place_of_a_key_counts(
        blanked(text, Dialect::Script),
        "server"@,
        0,
        k,
    );
}

} // verus!
