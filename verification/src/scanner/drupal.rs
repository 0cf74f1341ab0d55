//! Drupal's `*.breakpoints.yml`.
//!
//! This is the best data any detector gets: a human wrote the label and the
//! media query on purpose, in a format meant to be read. So the label becomes
//! the panel name directly, skipping the friendly-name band lookup that every
//! other source goes through.

use vstd::prelude::*;
use vstd::string::StringExecFns;
use crate::order::{dedup, deduped};
use crate::text::{
    begins, begins_with, chars_of, check_at, contains_str, finishes, has, join, joined, opt_view,
    same_opt, slice_string, split, split_char, texts, trim_str, trimmed,
};
use super::css::skip_event;
use super::log::{snippet_of, Event, ScanLog};
use super::tailwind::{by_width, sort_by_width, DetectorState};
use super::types::{
    clone_founds, founds, frameworks, nothing_found, pairs, BreakpointDiscovery, DetectorOutput,
    Edge, Found, FrameworkDetection, FrameworkFound, Kind, OutputFound,
};
use super::units::{hits_in, widths_in_query, WidthHit};
use super::walk::{
    chosen, file_name, given, name_ends, name_of, named, parts, parts_of, read_of, Disk, FileIndex,
    Given, ReadBudget,
};
use super::yaml::{member_text, read_yaml, text_of, yaml_in, Node};

verus! {

/// Which of the directories that Drupal leaves are there.
#[derive(Debug, Clone, Copy, PartialEq, Eq, Structural)]
pub struct CoreDirs {
    /// `web/core`
    pub web: bool,
    /// `docroot/core`
    pub docroot: bool,
    /// `core/lib`
    pub core_lib: bool,
}

/// What says this is Drupal, what is left of the read budget, and what is
/// logged.
pub struct Evidence {
    pub found: Option<Seq<char>>,
    pub left: usize,
    pub events: Seq<Event>,
}

pub open spec fn evidence_in_dirs(dirs: CoreDirs) -> Option<Seq<char>> {
    if dirs.web {
        Some("web/core"@)
    } else if dirs.docroot {
        Some("docroot/core"@)
    } else if dirs.core_lib {
        Some("core/lib"@)
    } else {
        None
    }
}

/// Two independent signals, because a composer.json can be missing from a
/// sub-tree and a docroot can be named either of two things.
pub open spec fn evidence_in(
    paths: Seq<Seq<char>>,
    disk: Seq<(Seq<char>, Given)>,
    left: usize,
    dirs: CoreDirs,
) -> Evidence
    decreases paths.len(),
{
    if paths.len() == 0 {
        Evidence { found: evidence_in_dirs(dirs), left, events: Seq::empty() }
    } else if given(disk, paths[0]) is Late {
        Evidence {
            found: evidence_in_dirs(dirs),
            left,
            events: skip_event(paths[0], "scan timeout reached before this file"@),
        }
    } else if parts(paths[0]).len() > 1 {
        evidence_in(paths.drop_first(), disk, left, dirs)
    } else {
        let read = read_of(disk, paths[0], left);
        if read.text is Some && has(read.text->0, "\"drupal/core"@) {
            Evidence {
                found: Some("composer.json requiring drupal/core"@),
                left: read.left,
                events: read.events,
            }
        } else {
            let rest = evidence_in(paths.drop_first(), disk, read.left, dirs);
            Evidence { found: rest.found, left: rest.left, events: read.events + rest.events }
        }
    }
}

fn look_in_dirs(dirs: CoreDirs) -> (r: Option<String>)
    ensures
        opt_view(r) == evidence_in_dirs(dirs),
{
    if dirs.web {
        Some("web/core".to_owned())
    } else if dirs.docroot {
        Some("docroot/core".to_owned())
    } else if dirs.core_lib {
        Some("core/lib".to_owned())
    } else {
        None
    }
}

pub fn looks_like_drupal(
    index: &FileIndex,
    dirs: CoreDirs,
    disk: &Disk,
    budget: &mut ReadBudget,
    log: &mut ScanLog,
) -> (r: Option<String>)
    ensures
        ({
            let got = evidence_in(
                chosen(texts(index.files@), |p: Seq<char>| named(p, "composer.json"@)),
                disk@,
                old(budget)@,
                dirs,
            );
            &&& opt_view(r) == got.found
            &&& final(budget)@ == got.left
            &&& final(log)@ == old(log)@.with(got.events)
        }),
{
    let paths = index.by_name("composer.json");
    let ghost ps = texts(paths@);
    let ghost start = log@;
    let ghost whole = evidence_in(ps, disk@, budget@, dirs);
    let ghost mut said: Seq<Event> = Seq::empty();
    let mut i: usize = 0;
    proof {
        assert(ps.skip(0) =~= ps);
        assert(start.with(said) =~= start);
        assert(said + whole.events =~= whole.events);
    }
    while i < paths.len()
        invariant
            i <= paths@.len(),
            ps == texts(paths@),
            start == old(log)@,
            whole == evidence_in(
                chosen(texts(index.files@), |p: Seq<char>| named(p, "composer.json"@)),
                disk@,
                old(budget)@,
                dirs,
            ),
            log@ == start.with(said),
            whole.found == evidence_in(ps.skip(i as int), disk@, budget@, dirs).found,
            whole.left == evidence_in(ps.skip(i as int), disk@, budget@, dirs).left,
            whole.events == said + evidence_in(ps.skip(i as int), disk@, budget@, dirs).events,
        decreases paths@.len() - i,
    {
        let rel = paths[i].as_str();
        proof {
            assert(ps.skip(i as int)[0] == rel@);
            assert(ps.skip(i as int).drop_first() =~= ps.skip(i + 1));
        }
        if disk.late(rel) {
            log.skip(rel, "scan timeout reached before this file");
            proof {
                super::log::lemma_with_with(
                    start,
                    said,
                    skip_event(rel@, "scan timeout reached before this file"@),
                );
            }
            return look_in_dirs(dirs);
        }
        let deep = parts_of(rel);
        assert(parts(rel@).len() == deep@.len());
        if deep.len() <= 1 {
            let ghost read = read_of(disk@, rel@, budget@);
            proof {
                super::log::lemma_with_with(start, said, read.events);
            }
            if let Some(text) = budget.read(disk, rel, log) {
                if contains_str(text.as_str(), "\"drupal/core") {
                    return Some("composer.json requiring drupal/core".to_owned());
                }
            }
            proof {
                let rest = evidence_in(ps.skip(i + 1), disk@, budget@, dirs);
                assert(said + (read.events + rest.events) =~= (said + read.events) + rest.events);
                said = said + read.events;
            }
        }
        i += 1;
    }
    assert(said + Seq::<Event>::empty() =~= said);
    look_in_dirs(dirs)
}

/// A name with every `.breakpoints.yml` at its end taken off.
pub open spec fn theme_name(name: Seq<char>) -> Seq<char>
    decreases name.len(),
    via theme_name_decreases
{
    if finishes(name, ".breakpoints.yml"@) {
        theme_name(name.take(name.len() - ".breakpoints.yml"@.len()))
    } else {
        name
    }
}

#[via_fn]
proof fn theme_name_decreases(name: Seq<char>) {
    reveal_strlit(".breakpoints.yml");
}

fn theme_of(name: &str) -> (r: String)
    ensures
        r@ == theme_name(name@),
{
    let n = chars_of(name);
    let suffix = chars_of(".breakpoints.yml");
    proof {
        reveal_strlit(".breakpoints.yml");
    }
    let mut end: usize = n.len();
    assert(n@.take(end as int) =~= n@);
    while end >= suffix.len() && check_at(
        vstd::slice::slice_subrange(n.as_slice(), 0, end),
        suffix.as_slice(),
        end - suffix.len(),
    )
        invariant
            end <= n@.len(),
            n@ == name@,
            suffix@ == ".breakpoints.yml"@,
            suffix@.len() > 0,
            theme_name(name@) == theme_name(n@.take(end as int)),
        decreases end,
    {
        assert(n@.take(end as int).take(end - suffix@.len()) =~= n@.take(end - suffix@.len()));
        end -= suffix.len();
    }
    slice_string(n.as_slice(), 0, end)
}

/// The last piece of a dotted name.
pub open spec fn last_piece(key: Seq<char>) -> Seq<char> {
    split(key, '.').last()
}

/// What one entry of a breakpoints file says.
pub struct EntryRead {
    pub found: Seq<Found>,
    pub events: Seq<Event>,
}

/// The name of one boundary. Drupal's own documented form is two-sided: one
/// named breakpoint with two boundaries. Giving both the same label would make
/// two panels with identical names, and a conflict between a file and itself.
pub open spec fn boundary_name(label: Seq<char>, two_sided: bool, edge: Edge) -> Seq<char> {
    if two_sided && edge == Edge::Max {
        label + " upper"@
    } else {
        label
    }
}

pub open spec fn boundary_found(
    h: WidthHit,
    label: Seq<char>,
    two_sided: bool,
    key: Seq<char>,
    file: Seq<char>,
) -> Found {
    Found {
        width: h.boundary,
        name: Some(boundary_name(label, two_sided, h.edge)),
        source: "Drupal breakpoint "@ + key,
        source_file: file,
        line: None,
        confidence: 95,
        kind: Kind::Configured,
        edge: h.edge,
        file_count: 1,
    }
}

pub open spec fn boundaries_found(
    hits: Seq<WidthHit>,
    label: Seq<char>,
    two_sided: bool,
    key: Seq<char>,
    file: Seq<char>,
) -> Seq<Found> {
    hits.map_values(|h: WidthHit| boundary_found(h, label, two_sided, key, file))
}

pub open spec fn or_else(a: Option<Seq<char>>, b: Seq<char>) -> Seq<char> {
    match a {
        Some(s) => s,
        None => b,
    }
}

/// What an entry says, given the width conditions in its media query.
pub open spec fn entry_from(
    file: Seq<char>,
    key: Seq<char>,
    value: Node,
    hits: Seq<WidthHit>,
) -> EntryRead {
    let query = or_else(member_text(value, "mediaQuery"@), ""@);
    if !(value is Members) {
        EntryRead {
            found: Seq::empty(),
            events: seq![
                Event::Discarded { file, value: key, reason: "entry is not a mapping"@ },
            ],
        }
    } else if trimmed(query).len() == 0 {
        // The base breakpoint in a Drupal theme usually has none, and it means
        // "everything below the first one", not a width.
        EntryRead {
            found: Seq::empty(),
            events: seq![
                Event::Discarded {
                    file,
                    value: key,
                    reason: "mediaQuery is empty, so it names no width"@,
                },
            ],
        }
    } else if hits.len() == 0 {
        EntryRead {
            found: Seq::empty(),
            events: seq![
                Event::Discarded {
                    file,
                    value: key + ": "@ + query,
                    reason: "media query has no min-width or max-width component"@,
                },
            ],
        }
    } else {
        // The label is written for people, so it beats anything generated.
        EntryRead {
            found: boundaries_found(
                hits,
                or_else(member_text(value, "label"@), last_piece(key)),
                hits.len() > 1,
                key,
                file,
            ),
            events: Seq::empty(),
        }
    }
}

/// What an entry of a breakpoints file says.
pub open spec fn entry_of(file: Seq<char>, key: Node, value: Node) -> EntryRead {
    entry_from(
        file,
        or_else(text_of(key), "<key>"@),
        value,
        hits_in(or_else(member_text(value, "mediaQuery"@), ""@)),
    )
}

/// Read one entry, given the width conditions in its media query.
pub fn read_entry(
    file: &str,
    key: &str,
    value: &Node,
    hits: &Vec<WidthHit>,
    log: &mut ScanLog,
) -> (r: Vec<BreakpointDiscovery>)
    ensures
        founds(r@) == entry_from(file@, key@, *value, hits@).found,
        final(log)@ == old(log)@.with(entry_from(file@, key@, *value, hits@).events),
{
    broadcast use super::log::lemma_with_none;

    let mut out: Vec<BreakpointDiscovery> = Vec::new();
    assert(founds(out@) =~= Seq::<Found>::empty());
    match value {
        Node::Members(_) => {},
        _ => {
            log.discarded(file, key, "entry is not a mapping");
            return out;
        },
    }
    let query = match value.member_string("mediaQuery") {
        Some(q) => q,
        None => "".to_owned(),
    };
    if trim_str(query.as_str()).as_str().is_empty() {
        log.discarded(file, key, "mediaQuery is empty, so it names no width");
        return out;
    }
    if hits.len() == 0 {
        let mut shown = key.to_owned();
        shown.append(": ");
        shown.append(query.as_str());
        log.discarded(
            file,
            shown.as_str(),
            "media query has no min-width or max-width component",
        );
        return out;
    }
    let label = match value.member_string("label") {
        Some(l) => l,
        None => {
            let chars = chars_of(key);
            let mut pieces = split_char(chars.as_slice(), '.');
            let last = pieces.pop().unwrap();
            assert(split(key@, '.').last() == last@);
            last
        },
    };
    let two_sided = hits.len() > 1;
    let mut source = "Drupal breakpoint ".to_owned();
    source.append(key);
    let ghost all = boundaries_found(hits@, label@, two_sided, key@, file@);
    let mut i: usize = 0;
    assert(founds(out@) =~= all.take(0));
    while i < hits.len()
        invariant
            i <= hits@.len(),
            source@ == "Drupal breakpoint "@ + key@,
            all == boundaries_found(hits@, label@, two_sided, key@, file@),
            founds(out@) == all.take(i as int),
        decreases hits@.len() - i,
    {
        let h = hits[i];
        let mut name = label.as_str().to_owned();
        if two_sided && h.edge == Edge::Max {
            name.append(" upper");
        }
        let ghost before = founds(out@);
        let b = BreakpointDiscovery {
            width: h.boundary,
            name: Some(name),
            source: source.as_str().to_owned(),
            source_file: file.to_owned(),
            line: None,
            confidence: 95,
            kind: Kind::Configured,
            edge: h.edge,
            file_count: 1,
        };
        assert(b@ == all[i as int]);
        out.push(b);
        assert(founds(out@) =~= before.push(b@));
        assert(all.take(i + 1) =~= all.take(i as int).push(all[i as int]));
        i += 1;
    }
    assert(all.take(all.len() as int) =~= all);
    out
}

/// The entries of one breakpoints file, one after another.
pub open spec fn entries_read(file: Seq<char>, ms: Seq<(Node, Node)>) -> EntryRead
    decreases ms.len(),
{
    if ms.len() == 0 {
        EntryRead { found: Seq::empty(), events: Seq::empty() }
    } else {
        let before = entries_read(file, ms.drop_last());
        let one = entry_of(file, ms.last().0, ms.last().1);
        EntryRead { found: before.found + one.found, events: before.events + one.events }
    }
}

fn read_entries(file: &str, ms: &Vec<(Node, Node)>, log: &mut ScanLog) -> (r: Vec<
    BreakpointDiscovery,
>)
    ensures
        founds(r@) == entries_read(file@, ms@).found,
        final(log)@ == old(log)@.with(entries_read(file@, ms@).events),
{
    let mut out: Vec<BreakpointDiscovery> = Vec::new();
    let ghost start = log@;
    let mut i: usize = 0;
    proof {
        assert(founds(out@) =~= Seq::<Found>::empty());
        assert(ms@.take(0) =~= Seq::<(Node, Node)>::empty());
        assert(start.with(Seq::empty()) =~= start);
    }
    while i < ms.len()
        invariant
            i <= ms@.len(),
            founds(out@) == entries_read(file@, ms@.take(i as int)).found,
            log@ == start.with(entries_read(file@, ms@.take(i as int)).events),
        decreases ms@.len() - i,
    {
        let ghost before = entries_read(file@, ms@.take(i as int));
        let ghost one = entry_of(file@, ms@[i as int].0, ms@[i as int].1);
        proof {
            assert(ms@.take(i + 1).drop_last() =~= ms@.take(i as int));
            assert(ms@.take(i + 1).last() == ms@[i as int]);
            super::log::lemma_with_with(start, before.events, one.events);
        }
        let key = match ms[i].0.text() {
            Some(s) => s.as_str().to_owned(),
            None => "<key>".to_owned(),
        };
        let query = match ms[i].1.member_string("mediaQuery") {
            Some(q) => q,
            None => "".to_owned(),
        };
        let hits = widths_in_query(query.as_str());
        let mut more = read_entry(file, key.as_str(), &ms[i].1, &hits, log);
        let ghost tail = founds(more@);
        let ghost had = founds(out@);
        out.append(&mut more);
        assert(founds(out@) =~= had + tail);
        i += 1;
    }
    assert(ms@.take(ms@.len() as int) =~= ms@);
    out
}

/// What reading the breakpoints files has come to.
#[verifier::ext_equal]
pub struct FilesRead {
    pub found: Seq<Found>,
    pub themes: Seq<Seq<char>>,
    pub left: usize,
    pub events: Seq<Event>,
    pub stopped: bool,
}

pub open spec fn no_files_read(left: usize) -> FilesRead {
    FilesRead {
        found: Seq::empty(),
        themes: Seq::empty(),
        left,
        events: Seq::empty(),
        stopped: false,
    }
}

/// The themes after one more file of this name.
pub open spec fn with_theme(themes: Seq<Seq<char>>, path: Seq<char>) -> Seq<Seq<char>> {
    match name_of(path) {
        Some(n) => super::cluster::with_once(themes, theme_name(n)),
        None => themes,
    }
}

/// One document of a breakpoints file taken in.
pub open spec fn document_taken(st: FilesRead, path: Seq<char>, docs: Seq<Node>) -> FilesRead {
    if docs.len() > 0 && docs[0] is Members {
        let got = entries_read(path, docs[0]->Members_0@);
        FilesRead {
            found: st.found + got.found,
            themes: with_theme(st.themes, path),
            events: st.events + got.events,
            ..st
        }
    } else {
        FilesRead {
            events: st.events.push(
                Event::Discarded {
                    file: path,
                    value: "<document>"@,
                    reason: "top level is not a mapping"@,
                },
            ),
            ..st
        }
    }
}

pub open spec fn start_of(t: Seq<char>, n: int) -> Seq<char> {
    if t.len() > n {
        t.take(n)
    } else {
        t
    }
}

pub open spec fn file_step(st: FilesRead, path: Seq<char>, disk: Seq<(Seq<char>, Given)>) -> FilesRead {
    if given(disk, path) is Late {
        FilesRead {
            stopped: true,
            events: st.events + skip_event(path, "scan timeout reached before this file"@),
            ..st
        }
    } else {
        let read = read_of(disk, path, st.left);
        let st1 = FilesRead { left: read.left, events: st.events + read.events, ..st };
        match read.text {
            None => st1,
            Some(t) => match yaml_in(t) {
                Err(e) => FilesRead {
                    events: st1.events.push(
                        Event::ParseFailure {
                            file: path,
                            line: None,
                            snippet: snippet_of(start_of(t, 120)),
                            step: "yaml"@,
                            reason: e,
                        },
                    ),
                    ..st1
                },
                Ok(docs) => document_taken(st1, path, docs),
            },
        }
    }
}

pub open spec fn files_read(
    paths: Seq<Seq<char>>,
    disk: Seq<(Seq<char>, Given)>,
    left: usize,
) -> FilesRead
    decreases paths.len(),
{
    if paths.len() == 0 {
        no_files_read(left)
    } else {
        let before = files_read(paths.drop_last(), disk, left);
        if before.stopped {
            before
        } else {
            file_step(before, paths.last(), disk)
        }
    }
}

struct Files {
    found: Vec<BreakpointDiscovery>,
    themes: Vec<String>,
    stopped: bool,
}

/// Whether `f` holds what `st` says was found.
spec fn holds(f: Files, st: FilesRead) -> bool {
    &&& founds(f.found@) == st.found
    &&& texts(f.themes@) == st.themes
    &&& f.stopped == st.stopped
}

fn take_document(f: &mut Files, path: &str, docs: &Vec<Node>, log: &mut ScanLog, Ghost(st): Ghost<
    FilesRead,
>, Ghost(start): Ghost<super::log::Logged>)
    requires
        holds(*old(f), st),
        old(log)@ == start.with(st.events),
    ensures
        holds(*final(f), document_taken(st, path@, docs@)),
        final(log)@ == start.with(document_taken(st, path@, docs@).events),
{
    let members = if docs.len() > 0 {
        match &docs[0] {
            Node::Members(ms) => Some(ms),
            _ => None,
        }
    } else {
        None
    };
    match members {
        Some(ms) => {
            if let Some(name) = file_name(path) {
                let theme = theme_of(name.as_str());
                super::cluster::push_once(&mut f.themes, theme.as_str());
            }
            let ghost had = founds(f.found@);
            let mut more = read_entries(path, ms, log);
            let ghost tail = founds(more@);
            f.found.append(&mut more);
            assert(founds(f.found@) =~= had + tail);
            proof {
                super::log::lemma_with_with(start, st.events, entries_read(path@, ms@).events);
            }
        },
        None => {
            log.discarded(path, "<document>", "top level is not a mapping");
            proof {
                let e = Event::Discarded {
                    file: path@,
                    value: "<document>"@,
                    reason: "top level is not a mapping"@,
                };
                super::log::lemma_with_with(start, st.events, seq![e]);
                assert(st.events + seq![e] =~= st.events.push(e));
            }
        },
    }
}

fn read_files(paths: &Vec<String>, disk: &Disk, budget: &mut ReadBudget, log: &mut ScanLog) -> (r:
    Files)
    ensures
        holds(r, files_read(texts(paths@), disk@, old(budget)@)),
        final(budget)@ == files_read(texts(paths@), disk@, old(budget)@).left,
        final(log)@ == old(log)@.with(files_read(texts(paths@), disk@, old(budget)@).events),
{
    let ghost ps = texts(paths@);
    let ghost start = log@;
    let ghost left0 = budget@;
    let mut f = Files { found: Vec::new(), themes: Vec::new(), stopped: false };
    let mut i: usize = 0;
    proof {
        assert(ps.take(0) =~= Seq::<Seq<char>>::empty());
        assert(founds(f.found@) =~= Seq::<Found>::empty());
        assert(texts(f.themes@) =~= Seq::<Seq<char>>::empty());
        assert(start.with(Seq::empty()) =~= start);
    }
    while i < paths.len()
        invariant
            i <= paths@.len(),
            ps == texts(paths@),
            holds(f, files_read(ps.take(i as int), disk@, left0)),
            budget@ == files_read(ps.take(i as int), disk@, left0).left,
            log@ == start.with(files_read(ps.take(i as int), disk@, left0).events),
        decreases paths@.len() - i,
    {
        let rel = paths[i].as_str();
        let ghost before = files_read(ps.take(i as int), disk@, left0);
        let ghost read = read_of(disk@, rel@, budget@);
        proof {
            assert(ps.take(i + 1).drop_last() =~= ps.take(i as int));
            assert(ps.take(i + 1).last() == rel@);
            super::log::lemma_with_with(start, before.events, read.events);
        }
        i += 1;
        if f.stopped {
            continue;
        }
        if disk.late(rel) {
            log.skip(rel, "scan timeout reached before this file");
            proof {
                super::log::lemma_with_with(
                    start,
                    before.events,
                    skip_event(rel@, "scan timeout reached before this file"@),
                );
            }
            f.stopped = true;
            continue;
        }
        let text = match budget.read(disk, rel, log) {
            Some(t) => t,
            None => {
                continue;
            },
        };
        let ghost st1 = FilesRead {
            left: read.left,
            events: before.events + read.events,
            ..before
        };
        match read_yaml(text.as_str()) {
            Ok(docs) => {
                take_document(&mut f, rel, &docs, log, Ghost(st1), Ghost(start));
            },
            Err(e) => {
                let t = chars_of(text.as_str());
                let snippet = if t.len() > 120 {
                    slice_string(t.as_slice(), 0, 120)
                } else {
                    text
                };
                log.parse_failure(rel, None, snippet.as_str(), "yaml", e.as_str());
                proof {
                    let ev = Event::ParseFailure {
                        file: rel@,
                        line: None,
                        snippet: snippet_of(snippet@),
                        step: "yaml"@,
                        reason: e@,
                    };
                    super::log::lemma_with_with(start, st1.events, seq![ev]);
                    assert(st1.events + seq![ev] =~= st1.events.push(ev));
                }
            },
        }
    }
    assert(ps.take(ps.len() as int) =~= ps);
    f
}

pub open spec fn same_boundary(a: Found, b: Found) -> bool {
    a.width == b.width && a.name == b.name
}

/// The widths found, narrowest first, with a width said twice under one name
/// kept once.
pub open spec fn distinct_boundaries(found: Seq<Found>) -> Seq<Found> {
    deduped(by_width(found), |a: Found, b: Found| same_boundary(a, b))
}

fn found_alike(a: &BreakpointDiscovery, b: &BreakpointDiscovery) -> (r: bool)
    ensures
        r == same_boundary(a@, b@),
{
    a.width == b.width && same_opt(&a.name, &b.name)
}

/// What the files that were read come to.
pub open spec fn drupal_found(st: FilesRead) -> OutputFound {
    if st.found.len() == 0 {
        nothing_found()
    } else {
        let all = distinct_boundaries(st.found);
        OutputFound {
            breakpoints: all,
            frameworks: seq![
                FrameworkFound {
                    framework: "drupal"@,
                    version: None,
                    confidence: 95,
                    source_file: all[0].source_file,
                    breakpoints: all,
                    metadata: seq![("themes"@, joined(st.themes, ", "@))],
                },
            ],
            ..nothing_found()
        }
    }
}

proof fn lemma_deduped_some<T>(s: Seq<T>, eq: spec_fn(T, T) -> bool)
    requires
        s.len() > 0,
    ensures
        deduped(s, eq).len() > 0,
    decreases s.len(),
{
    if s.len() > 1 {
        lemma_deduped_some(s.drop_last(), eq);
    }
}

fn put_together(f: Files) -> (r: DetectorOutput)
    ensures
        forall|st: FilesRead| #[trigger] holds(f, st) ==> r@ == drupal_found(st),
{
    let mut out = DetectorOutput::default();
    assert(founds(f.found@).len() == f.found@.len());
    if f.found.len() == 0 {
        return out;
    }
    let ghost raw = founds(f.found@);
    let ordered = sort_by_width(f.found);
    let ghost eq = |a: BreakpointDiscovery, b: BreakpointDiscovery| same_boundary(a@, b@);
    let ghost o = ordered@;
    let all = dedup(ordered, found_alike, Ghost(eq));
    proof {
        crate::order::lemma_deduped_view(
            o,
            eq,
            |b: BreakpointDiscovery| b@,
            |a: Found, b: Found| same_boundary(a, b),
        );
        lemma_deduped_some(o, eq);
    }
    assert(founds(all@) == distinct_boundaries(raw));
    let mut metadata: Vec<(String, String)> = Vec::new();
    metadata.push(("themes".to_owned(), join(&f.themes, ", ")));
    assert(pairs(metadata@) =~= seq![("themes"@, joined(texts(f.themes@), ", "@))]);
    let source_file = all[0].source_file.as_str().to_owned();
    assert(founds(all@)[0] == all@[0]@);
    let fw = FrameworkDetection {
        framework: "drupal".to_owned(),
        version: None,
        confidence: 95,
        source_file,
        breakpoints: clone_founds(&all),
        metadata,
    };
    out.frameworks.push(fw);
    assert(frameworks(out.frameworks@) =~= seq![fw@]);
    out.breakpoints = all;
    out
}

/// Everything the Drupal detector does.
pub open spec fn drupal_outcome(
    files: Seq<Seq<char>>,
    dirs: CoreDirs,
    disk: Seq<(Seq<char>, Given)>,
    left: usize,
) -> DetectorState {
    let evidence = evidence_in(
        chosen(files, |p: Seq<char>| named(p, "composer.json"@)),
        disk,
        left,
        dirs,
    );
    match evidence.found {
        None => DetectorState {
            out: nothing_found(),
            left: evidence.left,
            events: evidence.events + seq![
                Event::Note {
                    message: "no composer.json with drupal/core and no core/ under a docroot"@,
                },
            ],
        },
        Some(e) => {
            let said = evidence.events + seq![
                Event::Note { message: "Drupal recognised from "@ + e },
            ];
            let paths = chosen(files, |p: Seq<char>| name_ends(p, ".breakpoints.yml"@));
            if paths.len() == 0 {
                DetectorState {
                    out: nothing_found(),
                    left: evidence.left,
                    events: said + seq![
                        Event::Note {
                            message: "Drupal project has no *.breakpoints.yml in any theme or module"@,
                        },
                    ],
                }
            } else {
                let st = files_read(paths, disk, evidence.left);
                DetectorState { out: drupal_found(st), left: st.left, events: said + st.events }
            }
        },
    }
}

pub fn run(
    index: &FileIndex,
    dirs: CoreDirs,
    disk: &Disk,
    budget: &mut ReadBudget,
    log: &mut ScanLog,
) -> (r: DetectorOutput)
    ensures
        ({
            let got = drupal_outcome(texts(index.files@), dirs, disk@, old(budget)@);
            &&& r@ == got.out
            &&& final(budget)@ == got.left
            &&& final(log)@ == old(log)@.with(got.events)
        }),
{
    broadcast use super::log::lemma_with_with;

    match looks_like_drupal(index, dirs, disk, budget, log) {
        None => {
            log.note("no composer.json with drupal/core and no core/ under a docroot");
            DetectorOutput::default()
        },
        Some(evidence) => {
            let mut message = "Drupal recognised from ".to_owned();
            message.append(evidence.as_str());
            log.note(message.as_str());
            let paths = index.by_suffix(".breakpoints.yml");
            assert(texts(paths@).len() == paths@.len());
            if paths.len() == 0 {
                log.note("Drupal project has no *.breakpoints.yml in any theme or module");
                return DetectorOutput::default();
            }
            let ghost left = budget@;
            let f = read_files(&paths, disk, budget, log);
            assert(holds(f, files_read(texts(paths@), disk@, left)));
            put_together(f)
        },
    }
}

/// Drupal names its own breakpoints well enough that the friendly-name band
/// lookup should be skipped for them.
pub fn is_drupal_source(source: &str) -> (r: bool)
    ensures
        r == begins(source@, "Drupal breakpoint"@),
{
    begins_with(source, "Drupal breakpoint")
}

/// An entry of a breakpoints file is a breakpoint at each boundary that its
/// media query names, under its label, or the last part of its key where it has
/// none. Only the upper end of a range is told apart by its name. An entry with
/// no query, or with one about no width, is none.
pub proof fn an_entry_is_a_breakpoint_at_each_boundary(
    file: Seq<char>,
    key: Seq<char>,
    value: Node,
    hits: Seq<WidthHit>,
    i: int,
)
    ensures
        ({
            let r = entry_from(file, key, value, hits).found;
            let asked = value is Members && (member_text(value, "mediaQuery"@) matches Some(q)
                && trimmed(q).len() > 0);
            let label = match member_text(value, "label"@) {
                Some(l) => l,
                None => split(key, '.').last(),
            };
            &&& !asked ==> r.len() == 0
            &&& asked ==> r.len() == hits.len()
            &&& asked && 0 <= i < hits.len() ==> {
                &&& r[i].width == hits[i].boundary && r[i].edge == hits[i].edge
                &&& r[i].kind == Kind::Configured && r[i].confidence == 95
                &&& r[i].source_file == file && r[i].source == "Drupal breakpoint "@ + key
                &&& r[i].name == if hits.len() > 1 && hits[i].edge == Edge::Max {
                    Some(label + " upper"@)
                } else {
                    Some(label)
                }
            }
            &&& r.len() == 0 ==> entry_from(file, key, value, hits).events.len() > 0
        }),
{
    reveal_strlit("");
    assert(trimmed(""@).len() == 0);
}

proof fn lemma_entries_hold(file: Seq<char>, ms: Seq<(Node, Node)>, k: int, x: Found)
    requires
        0 <= k < ms.len(),
        entry_of(file, ms[k].0, ms[k].1).found.contains(x),
    ensures
        entries_read(file, ms).found.contains(x),
    decreases ms.len(),
{
    let d = ms.drop_last();
    let before = entries_read(file, d).found;
    let one = entry_of(file, ms.last().0, ms.last().1).found;
    let r = entries_read(file, ms).found;
    if k < d.len() {
        assert(d[k] == ms[k]);
        lemma_entries_hold(file, d, k, x);
        assert(r[before.index_of(x)] == x);
    } else {
        assert(r[before.len() + one.index_of(x)] == x);
    }
}

proof fn lemma_files_keep(
    paths: Seq<Seq<char>>,
    disk: Seq<(Seq<char>, Given)>,
    left: usize,
    k: int,
    x: Found,
)
    requires
        0 <= k < paths.len(),
        files_read(paths.take(k + 1), disk, left).found.contains(x),
    ensures
        files_read(paths, disk, left).found.contains(x),
    decreases paths.len(),
{
    if k + 1 == paths.len() {
        assert(paths.take(k + 1) =~= paths);
    } else {
        let d = paths.drop_last();
        assert(d.take(k + 1) =~= paths.take(k + 1));
        lemma_files_keep(d, disk, left, k, x);
        let before = files_read(d, disk, left).found;
        let r = files_read(paths, disk, left).found;
        assert(r[before.index_of(x)] == x);
    }
}

proof fn lemma_distinct(s: Seq<Found>, i: int)
    requires
        0 <= i < s.len(),
    ensures
        ({
            let d = deduped(s, |a: Found, b: Found| same_boundary(a, b));
            exists|j: int|
                0 <= j < d.len() && (#[trigger] d[j]).width == s[i].width && d[j].name == s[i].name
        }),
    decreases s.len(),
{
    let eq = |a: Found, b: Found| same_boundary(a, b);
    let p = s.drop_last();
    let dp = deduped(p, eq);
    let d = deduped(s, eq);
    if i == s.len() - 1 {
        assert(d[d.len() - 1].width == s[i].width && d[d.len() - 1].name == s[i].name);
    } else {
        assert(p[i] == s[i]);
        lemma_distinct(p, i);
        let j = choose|j: int|
            0 <= j < dp.len() && (#[trigger] dp[j]).width == p[i].width && dp[j].name == p[i].name;
        assert(d[j] == dp[j]);
    }
}

/// A Drupal project's breakpoints are all found: each that an entry of a file
/// reached in time and within the budget comes to has its width and name among
/// them. A project that is not Drupal's has none.
pub proof fn every_entry_of_a_drupal_project_is_found(
    files: Seq<Seq<char>>,
    dirs: CoreDirs,
    disk: Seq<(Seq<char>, Given)>,
    left: usize,
    k: int,
    text: Seq<char>,
    docs: Seq<Node>,
    e: int,
    x: Found,
)
    requires
        ({
            let evidence = evidence_in(
                chosen(files, |p: Seq<char>| named(p, "composer.json"@)),
                disk,
                left,
                dirs,
            );
            let paths = chosen(files, |p: Seq<char>| name_ends(p, ".breakpoints.yml"@));
            &&& evidence.found is Some
            &&& 0 <= k < paths.len()
            &&& !files_read(paths.take(k), disk, evidence.left).stopped
            &&& files_read(paths.take(k), disk, evidence.left).left > 0
            &&& given(disk, paths[k]) == Given::Text(text)
            &&& yaml_in(text) == Ok::<Seq<Node>, Seq<char>>(docs)
            &&& docs.len() > 0
            &&& docs[0] is Members
            &&& 0 <= e < docs[0]->Members_0@.len()
            &&& entry_of(
                paths[k],
                docs[0]->Members_0@[e].0,
                docs[0]->Members_0@[e].1,
            ).found.contains(x)
        }),
    ensures
        ({
            let out = drupal_outcome(files, dirs, disk, left).out;
            exists|j: int|
                0 <= j < out.breakpoints.len() && (#[trigger] out.breakpoints[j]).width == x.width
                    && out.breakpoints[j].name == x.name
        }),
{
    let evidence = evidence_in(
        chosen(files, |p: Seq<char>| named(p, "composer.json"@)),
        disk,
        left,
        dirs,
    );
    let paths = chosen(files, |p: Seq<char>| name_ends(p, ".breakpoints.yml"@));
    let upto = paths.take(k + 1);
    assert(upto.drop_last() =~= paths.take(k));
    assert(upto.last() == paths[k]);
    let before = files_read(paths.take(k), disk, evidence.left);
    let ms = docs[0]->Members_0@;
    lemma_entries_hold(paths[k], ms, e, x);
    let got = entries_read(paths[k], ms).found;
    let r = files_read(upto, disk, evidence.left).found;
    assert(r[before.found.len() + got.index_of(x)] == x);
    lemma_files_keep(paths, disk, evidence.left, k, x);
    let all = files_read(paths, disk, evidence.left).found;
    let lt = |a: Found, b: Found| super::tailwind::narrower_found(a, b);
    assert(crate::order::ranks(lt));
    crate::order::lemma_sorted_keeps(all, lt, x);
    let o = by_width(all);
    let i = o.index_of(x);
    lemma_distinct(o, i);
    let d = distinct_boundaries(all);
    let j = choose|j: int|
        0 <= j < d.len() && (#[trigger] d[j]).width == o[i].width && d[j].name == o[i].name;
    assert(drupal_outcome(files, dirs, disk, left).out.breakpoints[j] == d[j]);
}

/// A project with no composer.json that requires Drupal's core, and no core
/// directory, has no Drupal breakpoints.
pub proof fn a_project_without_drupal_has_none(
    files: Seq<Seq<char>>,
    dirs: CoreDirs,
    disk: Seq<(Seq<char>, Given)>,
    left: usize,
)
    requires
        !dirs.web,
        !dirs.docroot,
        !dirs.core_lib,
        forall|p: Seq<char>, t: Seq<char>|
            #[trigger] given(disk, p) == Given::Text(t) ==> #[trigger] has(t, "\"drupal/core"@) == false,
    ensures
        drupal_outcome(files, dirs, disk, left).out == nothing_found(),
{
    lemma_no_evidence(
        chosen(files, |p: Seq<char>| named(p, "composer.json"@)),
        disk,
        left,
        dirs,
    );
}

proof fn lemma_no_evidence(
    paths: Seq<Seq<char>>,
    disk: Seq<(Seq<char>, Given)>,
    left: usize,
    dirs: CoreDirs,
)
    requires
        !dirs.web,
        !dirs.docroot,
        !dirs.core_lib,
        forall|p: Seq<char>, t: Seq<char>|
            #[trigger] given(disk, p) == Given::Text(t) ==> #[trigger] has(t, "\"drupal/core"@) == false,
    ensures
        evidence_in(paths, disk, left, dirs).found is None,
    decreases paths.len(),
{
    if paths.len() > 0 {
        lemma_no_evidence(paths.drop_first(), disk, left, dirs);
        let read = read_of(disk, paths[0], left);
        lemma_no_evidence(paths.drop_first(), disk, read.left, dirs);
    }
}

/// Drupal is recognised by the composer.json at the root that requires its
/// core, or by its core directory in one of three places.
pub proof fn drupal_is_recognised_by_its_core(
    path: Seq<char>,
    disk: Seq<(Seq<char>, Given)>,
    left: usize,
    dirs: CoreDirs,
    text: Seq<char>,
)
    requires
        left > 0,
        given(disk, path) == Given::Text(text),
        parts(path).len() == 1,
    ensures
        has(text, "\"drupal/core"@) ==> evidence_in(seq![path], disk, left, dirs).found is Some,
        dirs.web || dirs.docroot || dirs.core_lib ==> evidence_in(
            Seq::empty(),
            disk,
            left,
            dirs,
        ).found is Some,
        has(text, "\"drupal/core"@) == false && !dirs.web && !dirs.docroot && !dirs.core_lib
            ==> evidence_in(seq![path], disk, left, dirs).found is None,
{
    reveal_with_fuel(evidence_in, 2);
    assert(seq![path].drop_first() =~= Seq::<Seq<char>>::empty());
}

/// A theme is named by its file, without the ending.
pub proof fn a_theme_is_named_by_its_file(stem: Seq<char>)
    requires
        !finishes(stem, ".breakpoints.yml"@),
    ensures
        theme_name(stem + ".breakpoints.yml"@) == stem,
        theme_name(stem) == stem,
{
    reveal_strlit(".breakpoints.yml");
    let end = ".breakpoints.yml"@;
    let s = stem + end;
    assert(s.subrange(s.len() - end.len(), s.len() as int) =~= end);
    assert(finishes(s, end));
    assert(s.take(s.len() - end.len()) =~= stem);
    reveal_with_fuel(theme_name, 2);
}

} // verus!
