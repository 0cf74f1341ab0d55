//! Tailwind, both configuration styles.
//!
//! v3 keeps breakpoints in `theme.screens` in a JavaScript config. v4 moved
//! them into CSS as `--breakpoint-*` custom properties in an `@theme` block,
//! which is far easier to read and cannot compute anything.

use vstd::prelude::*;
use vstd::slice::slice_subrange;
use vstd::string::StringExecFns;
use crate::order::{sorted, stable_sort};
use crate::text::{
    begins, begins_with, chars_of, contains_str, decimal, digit, has, is_digit, lines,
    number_string, opt_view, same, slice_string, string_of, strip_front, texts, trim, trim_str,
    trimmed,
};
use super::comments::{blank_chars, blanked, Dialect};
use super::css::{goes_hidden, in_hidden_directory, looks_compiled, reads_as_compiled, skip_event,
    stylesheet_extensions, stylesheets};
use super::jsobj;
use super::jsobj::{
    child_of, closing, entries_of, int_min, key_from, lemma_key_from, line_at, members, object_at,
    past_spaces, run_end, Entry, Member,
};
use super::log::{snippet_of, Event, ScanLog};
use super::manifest::{json_entry, json_lookup, Lookup};
use super::patterns::{find_all, group_or_empty, group_start, group_views, matches_of, Groups};
use super::stylesheet::line_count_before;
use super::types::{
    clone_founds, configured_width, founds, frameworks, nothing_found, pairs, warning_views,
    BreakpointDiscovery, DetectorOutput, Edge, Found, FrameworkDetection, FrameworkFound, Kind,
    OutputFound, ScanWarning, WarningFound, PX,
};
use super::units::{length_of, parse_length, px_string, px_text};
use super::walk::{
    chosen, given, has_extension, named, parts, parts_of, read_of, Disk, FileIndex, Given,
    ReadBudget,
};

verus! {

/// Tailwind's own screens, identical in v3 and v4. Used when a config extends
/// the defaults rather than replacing them.
pub open spec fn default_screen(i: int) -> (Seq<char>, i64) {
    if i == 0 {
        ("sm"@, 640_000_000)
    } else if i == 1 {
        ("md"@, 768_000_000)
    } else if i == 2 {
        ("lg"@, 1_024_000_000)
    } else if i == 3 {
        ("xl"@, 1_280_000_000)
    } else {
        ("2xl"@, 1_536_000_000)
    }
}

pub fn stock_screen(i: usize) -> (r: (&'static str, i64))
    ensures
        (r.0@, r.1) == default_screen(i as int),
{
    if i == 0 {
        ("sm", 640_000_000)
    } else if i == 1 {
        ("md", 768_000_000)
    } else if i == 2 {
        ("lg", 1_024_000_000)
    } else if i == 3 {
        ("xl", 1_280_000_000)
    } else {
        ("2xl", 1_536_000_000)
    }
}

pub open spec fn default_found(i: int, source: Seq<char>, file: Seq<char>) -> Found {
    Found {
        width: default_screen(i).1,
        name: Some(default_screen(i).0),
        source,
        source_file: file,
        line: None,
        confidence: 80,
        kind: Kind::Framework,
        edge: Edge::Min,
        file_count: 1,
    }
}

/// `found` followed by those of the first `n` default screens whose name
/// `taken` does not have.
pub open spec fn with_defaults(
    found: Seq<Found>,
    taken: Seq<Option<Seq<char>>>,
    source: Seq<char>,
    file: Seq<char>,
    n: int,
) -> Seq<Found>
    decreases n,
{
    if n <= 0 {
        found
    } else {
        let before = with_defaults(found, taken, source, file, n - 1);
        if taken.contains(Some(default_screen(n - 1).0)) {
            before
        } else {
            before.push(default_found(n - 1, source, file))
        }
    }
}

pub open spec fn names_of(found: Seq<Found>) -> Seq<Option<Seq<char>>> {
    found.map_values(|b: Found| b.name)
}

fn has_name(found: &Vec<BreakpointDiscovery>, n: usize, name: &str) -> (r: bool)
    requires
        n <= found@.len(),
    ensures
        r == names_of(founds(found@.take(n as int))).contains(Some(name@)),
{
    let mut i: usize = 0;
    let ghost v = names_of(founds(found@.take(n as int)));
    while i < n
        invariant
            i <= n <= found@.len(),
            v == names_of(founds(found@.take(n as int))),
            forall|k: int| 0 <= k < i ==> v[k] != Some(name@),
        decreases n - i,
    {
        assert(v[i as int] == opt_view(found@[i as int].name));
        match &found[i].name {
            Some(s) => {
                if same(s.as_str(), name) {
                    return true;
                }
            },
            None => {},
        }
        i += 1;
    }
    false
}

fn add_defaults(found: &mut Vec<BreakpointDiscovery>, source: &str, file: &str)
    ensures
        founds(final(found)@) == with_defaults(
            founds(old(found)@),
            names_of(founds(old(found)@)),
            source@,
            file@,
            5,
        ),
{
    let n: usize = found.len();
    let ghost start = found@;
    let ghost taken = names_of(founds(start));
    let mut i: usize = 0;
    assert(found@.take(n as int) =~= start);
    while i < 5
        invariant
            i <= 5,
            n == start.len(),
            n <= found@.len(),
            found@.take(n as int) == start,
            taken == names_of(founds(start)),
            founds(found@) == with_defaults(founds(start), taken, source@, file@, i as int),
        decreases 5 - i,
    {
        let (name, width) = stock_screen(i);
        let ghost before = founds(found@);
        if !has_name(found, n, name) {
            found.push(
                BreakpointDiscovery {
                    width,
                    name: Some(name.to_owned()),
                    source: source.to_owned(),
                    source_file: file.to_owned(),
                    line: None,
                    confidence: 80,
                    kind: Kind::Framework,
                    edge: Edge::Min,
                    file_count: 1,
                },
            );
            assert(founds(found@) =~= before.push(default_found(i as int, source@, file@)));
            assert(found@.take(n as int) =~= start);
        }
        i += 1;
    }
}

/// The `{` of the first object written under a `theme` key at `from` or later.
pub open spec fn theme_from(s: Seq<char>, from: int) -> Option<int>
    decreases s.len() - from,
    when 0 <= from
    via theme_from_decreases
{
    match key_from(s, "theme"@, from) {
        None => None,
        Some(colon) => if object_at(s, colon) is Some {
            object_at(s, colon)
        } else {
            theme_from(s, colon + 1)
        },
    }
}

#[via_fn]
proof fn theme_from_decreases(s: Seq<char>, from: int) {
    lemma_key_from(s, "theme"@, from);
}

/// The `{` of the config's `theme` object.
///
/// The first `theme:` in the file usually is it, but a plugin's own options
/// can carry one too, so keep looking until one turns out to be an object.
pub fn theme_object(src: &[char]) -> (r: Option<usize>)
    ensures
        match r {
            Some(i) => theme_from(src@, 0) == Some(i as int) && i < src@.len() && src@[i as int]
                == '{',
            None => theme_from(src@, 0) is None,
        },
{
    let mut from: usize = 0;
    loop
        invariant
            from <= src@.len(),
            theme_from(src@, 0) == theme_from(src@, from as int),
        decreases src@.len() - from,
    {
        assert(src@.len() == src.len());
        match jsobj::find_key(src, "theme", from) {
            None => {
                return None;
            },
            Some(colon) => {
                match jsobj::object_after_colon(src, colon) {
                    Some(inside) => {
                        return Some(inside - 1);
                    },
                    None => {
                        from = colon + 1;
                    },
                }
            },
        }
    }
}

/// Where `screens` keys that are breakpoints stand, each with whether it adds
/// to what is in force rather than replacing it.
///
/// Only `theme.screens` and `theme.extend.screens` are breakpoints. A `screens`
/// key anywhere else is a different setting wearing the same name, and
/// `theme.container.screens` is the one that turns up in real configs.
pub open spec fn sites_of(s: Seq<char>) -> Seq<(int, bool)> {
    match theme_from(s, 0) {
        None => Seq::empty(),
        Some(theme) => {
            let direct = match child_of(s, theme, "screens"@) {
                Some(colon) => seq![(colon, false)],
                None => Seq::empty(),
            };
            let extend = match child_of(s, theme, "extend"@) {
                Some(colon) => object_at(s, colon),
                None => None,
            };
            let added = match extend {
                Some(open) => match child_of(s, open, "screens"@) {
                    Some(colon) => seq![(colon, true)],
                    None => Seq::empty(),
                },
                None => Seq::empty(),
            };
            direct + added
        },
    }
}

fn find_sites(src: &[char]) -> (r: Vec<(usize, bool)>)
    ensures
        r@.map_values(|x: (usize, bool)| (x.0 as int, x.1)) == sites_of(src@),
        r@.len() <= 2,
        forall|i: int| 0 <= i < r@.len() ==> (#[trigger] r@[i]).0 < src@.len(),
{
    let mut out: Vec<(usize, bool)> = Vec::new();
    assert(src@.len() == src.len());
    if let Some(theme) = theme_object(src) {
        proof {
            jsobj::an_open_brace_is_never_overclosed(src@, theme as int);
        }
        if let Some(colon) = jsobj::child_key(src, theme, "screens") {
            out.push((colon, false));
        }
        if let Some(colon) = jsobj::child_key(src, theme, "extend") {
            if let Some(inside) = jsobj::object_after_colon(src, colon) {
                let extend: usize = inside - 1;
                proof {
                    jsobj::an_open_brace_is_never_overclosed(src@, extend as int);
                }
                if let Some(colon) = jsobj::child_key(src, extend, "screens") {
                    out.push((colon, true));
                }
            }
        }
    }
    assert(out@.map_values(|x: (usize, bool)| (x.0 as int, x.1)) =~= sites_of(src@));
    out
}

/// What a screen written as an object says under `key`.
pub open spec fn inner_value(v: Seq<char>, key: Seq<char>) -> Option<Seq<char>> {
    match key_from(v, key, 0) {
        None => None,
        Some(colon) => {
            let start = past_spaces(v, colon + 1, v.len() as int);
            let end = run_end(v, start, v.len() as int, |c: char| c == ',' || c == '}');
            Some(trimmed(v.subrange(start, end)))
        },
    }
}

fn get_inner(v: &[char], key: &str) -> (r: Option<String>)
    ensures
        opt_view(r) == inner_value(v@, key@),
{
    match jsobj::find_key(v, key, 0) {
        None => None,
        Some(colon) => {
            assert(colon < v.len());
            let mut i: usize = colon + 1;
            let ghost not_space = |c: char| !crate::text::is_space(c);
            while i < v.len() && crate::text::space(v[i])
                invariant
                    i <= v@.len(),
                    not_space == (|c: char| !crate::text::is_space(c)),
                    run_end(v@, colon + 1, v@.len() as int, not_space) == run_end(
                        v@,
                        i as int,
                        v@.len() as int,
                        not_space,
                    ),
                decreases v@.len() - i,
            {
                i += 1;
            }
            let start: usize = i;
            let ghost stop = |c: char| c == ',' || c == '}';
            while i < v.len() && v[i] != ',' && v[i] != '}'
                invariant
                    start <= i <= v@.len(),
                    stop == (|c: char| c == ',' || c == '}'),
                    run_end(v@, start as int, v@.len() as int, stop) == run_end(
                        v@,
                        i as int,
                        v@.len() as int,
                        stop,
                    ),
                decreases v@.len() - i,
            {
                i += 1;
            }
            Some(string_of(trim(slice_subrange(v, start, i))))
        },
    }
}

pub open spec fn inner_length(v: Seq<char>, key: Seq<char>) -> Option<int> {
    match inner_value(v, key) {
        Some(t) => length_of(t),
        None => None,
    }
}

fn get_length(v: &[char], key: &str) -> (r: Option<i64>)
    ensures
        match r {
            Some(px) => inner_length(v@, key@) == Some(px as int) && PX <= px <= 10_000 * PX,
            None => inner_length(v@, key@) is None,
        },
{
    match get_inner(v, key) {
        Some(t) => parse_length(t.as_str()),
        None => None,
    }
}

/// One screen read: the width it gives, if any, and what is logged.
pub struct ScreenRead {
    pub found: Option<Found>,
    pub events: Seq<Event>,
}

/// What one entry of a screens object says.
pub open spec fn screen_of(src: Seq<char>, file: Seq<char>, m: Member) -> ScreenRead {
    let line = line_at(src, m.offset);
    let name = m.key;
    if name.len() == 0 {
        ScreenRead {
            found: None,
            events: seq![
                Event::ParseFailure {
                    file,
                    line: Some(line),
                    snippet: snippet_of(m.value),
                    step: "theme.screens entry"@,
                    reason: "not a key and value; a spread or an imported identifier cannot be resolved statically"@,
                },
            ],
        }
    } else if length_of(m.value) is Some {
        ScreenRead {
            found: Some(
                configured_width(
                    length_of(m.value)->0 as i64,
                    name,
                    "tailwind.config theme.screens"@,
                    file,
                    Some(line),
                ),
            ),
            events: Seq::empty(),
        }
    } else if begins(m.value, "{"@) {
        if inner_value(m.value, "raw"@) is Some {
            ScreenRead {
                found: None,
                events: seq![
                    Event::Discarded {
                        file,
                        value: name,
                        reason: "a raw media query has no width component"@,
                    },
                ],
            }
        } else if inner_length(m.value, "min"@) is Some {
            ScreenRead {
                found: Some(
                    configured_width(
                        inner_length(m.value, "min"@)->0 as i64,
                        name,
                        "tailwind.config theme.screens (min)"@,
                        file,
                        Some(line),
                    ),
                ),
                events: Seq::empty(),
            }
        } else if inner_length(m.value, "max"@) is Some {
            // A max-only screen names the range below the boundary, so the
            // pixel worth rendering is the one above it.
            let px = inner_length(m.value, "max"@)->0;
            ScreenRead {
                found: Some(
                    Found {
                        width: (px + 1_000_000) as i64,
                        name: Some(name),
                        source: "tailwind.config theme.screens (max only)"@,
                        source_file: file,
                        line: Some(line),
                        confidence: 70,
                        kind: Kind::Configured,
                        edge: Edge::Max,
                        file_count: 1,
                    },
                ),
                events: seq![
                    Event::Note {
                        message: file + ": screen '"@ + name
                            + "' is max-only, so its boundary is "@ + px_text(px + 1_000_000)
                            + " rather than "@ + px_text(px),
                    },
                ],
            }
        } else {
            ScreenRead {
                found: None,
                events: seq![
                    Event::Discarded {
                        file,
                        value: name,
                        reason: "object screen with no min or max width component"@,
                    },
                ],
            }
        }
    } else {
        ScreenRead {
            found: None,
            events: seq![
                Event::ParseFailure {
                    file,
                    line: Some(line),
                    snippet: snippet_of(name + ": "@ + m.value),
                    step: "theme.screens value"@,
                    reason: "value is neither a length nor an object; probably an identifier or a computed expression"@,
                },
            ],
        }
    }
}

fn read_screen(src: &[char], entry: &Entry, file: &str, log: &mut ScanLog) -> (r: Option<
    BreakpointDiscovery,
>)
    ensures
        ({
            let got = screen_of(src@, file@, entry@);
            &&& match r {
                Some(b) => got.found == Some(b@),
                None => got.found is None,
            }
            &&& final(log)@ == old(log)@.with(got.events)
        }),
{
    broadcast use super::log::lemma_with_none;

    let line: usize = jsobj::line_of(src, entry.offset);
    if entry.key.as_str().is_empty() {
        log.parse_failure(
            file,
            Some(line),
            entry.value.as_str(),
            "theme.screens entry",
            "not a key and value; a spread or an imported identifier cannot be resolved statically",
        );
        return None;
    }
    // A plain string: the ordinary case.
    if let Some(px) = parse_length(entry.value.as_str()) {
        return Some(
            BreakpointDiscovery::configured(
                px,
                entry.key.as_str(),
                "tailwind.config theme.screens",
                file,
                Some(line),
            ),
        );
    }
    // An object: `{ min: '768px' }`, `{ max: '767px' }`, `{ raw: '...' }`.
    if begins_with(entry.value.as_str(), "{") {
        let inner = chars_of(entry.value.as_str());
        if get_inner(inner.as_slice(), "raw").is_some() {
            log.discarded(file, entry.key.as_str(), "a raw media query has no width component");
            return None;
        }
        if let Some(px) = get_length(inner.as_slice(), "min") {
            return Some(
                BreakpointDiscovery::configured(
                    px,
                    entry.key.as_str(),
                    "tailwind.config theme.screens (min)",
                    file,
                    Some(line),
                ),
            );
        }
        if let Some(px) = get_length(inner.as_slice(), "max") {
            let mut message = file.to_owned();
            message.append(": screen '");
            message.append(entry.key.as_str());
            message.append("' is max-only, so its boundary is ");
            message.append(px_string(px + 1_000_000).as_str());
            message.append(" rather than ");
            message.append(px_string(px).as_str());
            log.note(message.as_str());
            return Some(
                BreakpointDiscovery {
                    width: px + 1_000_000,
                    name: Some(entry.key.as_str().to_owned()),
                    source: "tailwind.config theme.screens (max only)".to_owned(),
                    source_file: file.to_owned(),
                    line: Some(line),
                    confidence: 70,
                    kind: Kind::Configured,
                    edge: Edge::Max,
                    file_count: 1,
                },
            );
        }
        log.discarded(
            file,
            entry.key.as_str(),
            "object screen with no min or max width component",
        );
        return None;
    }
    let mut snippet = entry.key.as_str().to_owned();
    snippet.append(": ");
    snippet.append(entry.value.as_str());
    log.parse_failure(
        file,
        Some(line),
        snippet.as_str(),
        "theme.screens value",
        "value is neither a length nor an object; probably an identifier or a computed expression",
    );
    None
}

/// What the entries of a screens object say, one after another.
pub open spec fn screens_of(src: Seq<char>, file: Seq<char>, ms: Seq<Member>) -> (
    Seq<Found>,
    Seq<Event>,
)
    decreases ms.len(),
{
    if ms.len() == 0 {
        (Seq::empty(), Seq::empty())
    } else {
        let before = screens_of(src, file, ms.drop_last());
        let one = screen_of(src, file, ms.last());
        (
            match one.found {
                Some(b) => before.0.push(b),
                None => before.0,
            },
            before.1 + one.events,
        )
    }
}

/// Read the screens object opened at `open`.
pub fn read_screens(
    src: &[char],
    open: usize,
    file: &str,
    log: &mut ScanLog,
    out: &mut Vec<BreakpointDiscovery>,
)
    requires
        !(closing(src@, open as int) is Overclosed),
    ensures
        ({
            let got = screens_of(src@, file@, entries_of(src@, open as int));
            &&& founds(final(out)@) == founds(old(out)@) + got.0
            &&& final(log)@ == old(log)@.with(got.1)
        }),
{
    let list = jsobj::entries(src, open);
    let ghost all = members(list@);
    let ghost start = log@;
    let ghost had = founds(out@);
    let mut i: usize = 0;
    proof {
        assert(all.take(0) =~= Seq::<Member>::empty());
        assert(start.with(Seq::empty()) =~= start);
        assert(had + Seq::<Found>::empty() =~= had);
    }
    while i < list.len()
        invariant
            i <= list@.len(),
            all == members(list@),
            founds(out@) == had + screens_of(src@, file@, all.take(i as int)).0,
            log@ == start.with(screens_of(src@, file@, all.take(i as int)).1),
        decreases list@.len() - i,
    {
        let ghost before = screens_of(src@, file@, all.take(i as int));
        let ghost held = founds(out@);
        proof {
            assert(all.take(i + 1).drop_last() =~= all.take(i as int));
            assert(all.take(i + 1).last() == list@[i as int]@);
            super::log::lemma_with_with(
                start,
                before.1,
                screen_of(src@, file@, list@[i as int]@).events,
            );
        }
        match read_screen(src, &list[i], file, log) {
            Some(b) => {
                out.push(b);
                assert(founds(out@) =~= held.push(b@));
                assert(held.push(b@) =~= had + before.0.push(b@));
            },
            None => {},
        }
        i += 1;
    }
    assert(all.take(all.len() as int) =~= all);
}

/// What reading the sites of a config has come to.
#[verifier::ext_equal]
pub struct SitesRead {
    pub found: Seq<Found>,
    pub warnings: Seq<WarningFound>,
    pub events: Seq<Event>,
    pub extends: bool,
    pub replaced: bool,
    pub resolved: bool,
}

pub open spec fn unreadable_warning(file: Seq<char>, line: usize) -> WarningFound {
    WarningFound {
        file,
        message: "Could not read theme.screens in "@ + file,
        detail: seq![
            "Line "@ + decimal(line as nat) + ": screens is not an object literal."@,
            "It is probably imported, spread from another module, or computed. Break/Points parses configs statically and never runs them, so this one cannot be resolved."@,
            "The CSS media query scan is what covered this project instead."@,
        ],
    }
}

/// The sites of a config read, one after another.
pub open spec fn sites_read(src: Seq<char>, file: Seq<char>, sites: Seq<(int, bool)>) -> SitesRead
    decreases sites.len(),
{
    if sites.len() == 0 {
        SitesRead {
            found: Seq::empty(),
            warnings: Seq::empty(),
            events: Seq::empty(),
            extends: false,
            replaced: false,
            resolved: false,
        }
    } else {
        let before = sites_read(src, file, sites.drop_last());
        let colon = sites.last().0;
        let inside_extend = sites.last().1;
        match object_at(src, colon) {
            Some(open) => {
                let got = screens_of(src, file, entries_of(src, open));
                SitesRead {
                    found: before.found + got.0,
                    warnings: before.warnings,
                    events: before.events + got.1,
                    extends: before.extends || inside_extend,
                    replaced: before.replaced || !inside_extend,
                    resolved: true,
                }
            },
            None => SitesRead {
                warnings: before.warnings.push(unreadable_warning(file, line_at(src, colon))),
                events: before.events.push(
                    Event::ParseFailure {
                        file,
                        line: Some(line_at(src, colon)),
                        snippet: snippet_of(
                            src.subrange(colon, int_min(colon + 80, src.len() as int)),
                        ),
                        step: "theme.screens value"@,
                        reason: "screens is not an object literal, so it cannot be resolved without running the config"@,
                    },
                ),
                ..before
            },
        }
    }
}

/// What a v3 config comes to.
pub struct V3 {
    pub found: FrameworkFound,
    pub warnings: Seq<WarningFound>,
    pub events: Seq<Event>,
}

pub open spec fn empty_warning(file: Seq<char>) -> WarningFound {
    WarningFound {
        file,
        message: "theme.screens in "@ + file + " produced no widths"@,
        detail: seq![
            "Every entry was a value Break/Points could not read as a length."@,
            "Tailwind's own default screens are being used instead, which is what the site renders with."@,
        ],
    }
}

pub open spec fn narrower_found(a: Found, b: Found) -> bool {
    a.width < b.width
}

pub open spec fn by_width(s: Seq<Found>) -> Seq<Found> {
    sorted(s, |a: Found, b: Found| narrower_found(a, b))
}

/// What a v3 config says, given what reading its sites came to.
///
/// `theme.screens` replaces the defaults; `theme.extend.screens` adds to
/// whatever is in force. A config with both replaces and then adds, so the
/// defaults are gone either way. A screens object that resolved to nothing is
/// the same situation as no screens object at all: Tailwind's own defaults are
/// what the site is really built on.
pub open spec fn v3_from(
    src: Seq<char>,
    file: Seq<char>,
    declared: Option<Seq<char>>,
    read: SitesRead,
) -> V3 {
    let elsewhere = if sites_of(src).len() == 0 && key_from(src, "screens"@, 0) is Some {
        seq![
            Event::Discarded {
                file,
                value: "screens"@,
                reason: "the only screens key is not theme.screens or theme.extend.screens, so it is a different setting"@,
            },
        ]
    } else {
        Seq::empty()
    };
    let empty = read.resolved && read.found.len() == 0;
    let emptied = if empty {
        seq![
            Event::Discarded {
                file,
                value: "theme.screens"@,
                reason: "the screens object held no readable widths, so Tailwind's defaults apply"@,
            },
        ]
    } else {
        Seq::empty()
    };
    let resolved = read.resolved && read.found.len() > 0;
    let unresolved = if resolved {
        Seq::empty()
    } else {
        seq![
            Event::Note {
                message: file + " has no readable theme.screens; Tailwind's defaults apply"@,
            },
        ]
    };
    let all = if (read.extends && !read.replaced) || !resolved {
        with_defaults(
            read.found,
            names_of(read.found),
            "Tailwind default screens"@,
            file,
            5,
        )
    } else {
        read.found
    };
    V3 {
        found: FrameworkFound {
            framework: "tailwind"@,
            version: Some(
                match declared {
                    Some(v) => v,
                    None => "3"@,
                },
            ),
            confidence: if resolved {
                95
            } else {
                60
            },
            source_file: file,
            breakpoints: by_width(all),
            metadata: seq![
                ("config"@, file),
                (
                    "screens"@,
                    if read.extends {
                        "theme.extend.screens"@
                    } else {
                        "theme.screens"@
                    },
                ),
            ],
        },
        warnings: if empty {
            read.warnings.push(empty_warning(file))
        } else {
            read.warnings
        },
        events: elsewhere + read.events + emptied + unresolved,
    }
}

/// What a v3 config says.
pub open spec fn v3_of(text: Seq<char>, file: Seq<char>, declared: Option<Seq<char>>) -> V3 {
    let src = blanked(text, Dialect::Script);
    v3_from(src, file, declared, sites_read(src, file, sites_of(src)))
}

/// A config that replaces the screens never shows a default beside them, and
/// one that resolves no width at all shows every default.
pub proof fn replacing_screens_drops_the_defaults(
    src: Seq<char>,
    file: Seq<char>,
    declared: Option<Seq<char>>,
    read: SitesRead,
)
    ensures
        read.replaced && read.resolved && read.found.len() > 0 ==> v3_from(
            src,
            file,
            declared,
            read,
        ).found.breakpoints == by_width(read.found),
        read.found.len() == 0 ==> v3_from(src, file, declared, read).found.breakpoints.len() == 5,
{
    if read.found.len() == 0 {
        assert(names_of(read.found).len() == 0);
        reveal_with_fuel(with_defaults, 6);
        let all = with_defaults(
            read.found,
            names_of(read.found),
            "Tailwind default screens"@,
            file,
            5,
        );
        assert(all.len() == 5);
        crate::order::lemma_sorted_len(all, |a: Found, b: Found| narrower_found(a, b));
    }
}

fn found_less(a: &BreakpointDiscovery, b: &BreakpointDiscovery) -> (r: bool)
    ensures
        r == narrower_found(a@, b@),
{
    a.width < b.width
}

/// Put widths narrowest first.
pub fn sort_by_width(v: Vec<BreakpointDiscovery>) -> (r: Vec<BreakpointDiscovery>)
    ensures
        founds(r@) == by_width(founds(v@)),
        r@.len() == v@.len(),
{
    let ghost lt = |a: BreakpointDiscovery, b: BreakpointDiscovery| narrower_found(a@, b@);
    let ghost before = v@;
    let r = stable_sort(v, found_less, Ghost(lt));
    proof {
        crate::order::lemma_sorted_len(before, lt);
        crate::order::lemma_sorted_view(
            before,
            lt,
            |b: BreakpointDiscovery| b@,
            |a: Found, b: Found| narrower_found(a, b),
        );
    }
    r
}

fn metadata(k1: &str, v1: &str, k2: &str, v2: &str) -> (r: Vec<(String, String)>)
    ensures
        pairs(r@) == seq![(k1@, v1@), (k2@, v2@)],
{
    let mut m: Vec<(String, String)> = Vec::new();
    m.push((k1.to_owned(), v1.to_owned()));
    m.push((k2.to_owned(), v2.to_owned()));
    assert(pairs(m@) =~= seq![(k1@, v1@), (k2@, v2@)]);
    m
}

fn warn_unreadable(file: &str, line: usize) -> (r: ScanWarning)
    ensures
        r@ == unreadable_warning(file@, line),
{
    let mut message = "Could not read theme.screens in ".to_owned();
    message.append(file);
    let mut place = "Line ".to_owned();
    place.append(number_string(line).as_str());
    place.append(": screens is not an object literal.");
    let mut detail: Vec<String> = Vec::new();
    detail.push(place);
    detail.push(
        "It is probably imported, spread from another module, or computed. Break/Points parses configs statically and never runs them, so this one cannot be resolved.".to_owned(),
    );
    detail.push("The CSS media query scan is what covered this project instead.".to_owned());
    let r = ScanWarning { file: file.to_owned(), message, detail };
    assert(r@ =~= unreadable_warning(file@, line));
    r
}

fn warn_empty(file: &str) -> (r: ScanWarning)
    ensures
        r@ == empty_warning(file@),
{
    let mut message = "theme.screens in ".to_owned();
    message.append(file);
    message.append(" produced no widths");
    let mut detail: Vec<String> = Vec::new();
    detail.push("Every entry was a value Break/Points could not read as a length.".to_owned());
    detail.push(
        "Tailwind's own default screens are being used instead, which is what the site renders with.".to_owned(),
    );
    let r = ScanWarning { file: file.to_owned(), message, detail };
    assert(r@ =~= empty_warning(file@));
    r
}

/// Read a JavaScript config. `warnings` gets what the scan sheet should warn
/// of.
pub fn parse_v3(
    text: &str,
    file: &str,
    declared: &Option<String>,
    log: &mut ScanLog,
    warnings: &mut Vec<ScanWarning>,
) -> (r: FrameworkDetection)
    ensures
        ({
            let v3 = v3_of(text@, file@, opt_view(*declared));
            &&& r@ == v3.found
            &&& warning_views(final(warnings)@) == warning_views(old(warnings)@) + v3.warnings
            &&& final(log)@ == old(log)@.with(v3.events)
        }),
{
    let chars = chars_of(text);
    let src = blank_chars(chars.as_slice(), Dialect::Script);
    let src = src.as_slice();
    let ghost start = log@;
    let ghost had = warning_views(warnings@);
    let sites = find_sites(src);
    let ghost all = sites_of(src@);
    assert(all.len() == sites@.len());
    let ghost mut said: Seq<Event> = Seq::empty();
    if sites.len() == 0 && jsobj::find_key(src, "screens", 0).is_some() {
        log.discarded(
            file,
            "screens",
            "the only screens key is not theme.screens or theme.extend.screens, so it is a different setting",
        );
        proof {
            said = said.push(
                Event::Discarded {
                    file: file@,
                    value: "screens"@,
                    reason: "the only screens key is not theme.screens or theme.extend.screens, so it is a different setting"@,
                },
            );
            assert(log@ =~= start.with(said));
        }
    } else {
        assert(start.with(said) =~= start);
    }
    let ghost elsewhere = said;

    let mut breakpoints: Vec<BreakpointDiscovery> = Vec::new();
    let mut extends = false;
    let mut replaced = false;
    let mut resolved = false;
    let mut i: usize = 0;
    proof {
        assert(all.take(0) =~= Seq::<(int, bool)>::empty());
        assert(founds(breakpoints@) =~= Seq::<Found>::empty());
        assert(had + Seq::<WarningFound>::empty() =~= had);
        assert(elsewhere + Seq::<Event>::empty() =~= elsewhere);
    }
    while i < sites.len()
        invariant
            i <= sites@.len(),
            all == sites_of(src@),
            all == sites@.map_values(|x: (usize, bool)| (x.0 as int, x.1)),
            forall|k: int| 0 <= k < sites@.len() ==> (#[trigger] sites@[k]).0 < src@.len(),
            founds(breakpoints@) == sites_read(src@, file@, all.take(i as int)).found,
            warning_views(warnings@) == had + sites_read(
                src@,
                file@,
                all.take(i as int),
            ).warnings,
            log@ == start.with(elsewhere + sites_read(src@, file@, all.take(i as int)).events),
            extends == sites_read(src@, file@, all.take(i as int)).extends,
            replaced == sites_read(src@, file@, all.take(i as int)).replaced,
            resolved == sites_read(src@, file@, all.take(i as int)).resolved,
        decreases sites@.len() - i,
    {
        let (colon, inside_extend) = sites[i];
        let ghost before = sites_read(src@, file@, all.take(i as int));
        let ghost held = warning_views(warnings@);
        proof {
            assert(all.take(i + 1).drop_last() =~= all.take(i as int));
            assert(all.take(i + 1).last() == (colon as int, inside_extend));
            assert(sites@[i as int].0 < src@.len());
            assert(src@.len() == src.len());
        }
        match jsobj::object_after_colon(src, colon) {
            Some(inside) => {
                let open: usize = inside - 1;
                extends = extends || inside_extend;
                replaced = replaced || !inside_extend;
                resolved = true;
                proof {
                    jsobj::an_open_brace_is_never_overclosed(src@, open as int);
                    let got = screens_of(src@, file@, entries_of(src@, open as int));
                    super::log::lemma_with_with(start, elsewhere + before.events, got.1);
                    assert(elsewhere + before.events + got.1 =~= elsewhere + (before.events
                        + got.1));
                }
                read_screens(src, open, file, log, &mut breakpoints);
            },
            None => {
                let line: usize = jsobj::line_of(src, colon);
                let end: usize = if src.len() - colon > 80 {
                    colon + 80
                } else {
                    src.len()
                };
                let snippet = slice_string(src, colon, end);
                log.parse_failure(
                    file,
                    Some(line),
                    snippet.as_str(),
                    "theme.screens value",
                    "screens is not an object literal, so it cannot be resolved without running the config",
                );
                let warning = warn_unreadable(file, line);
                warnings.push(warning);
                proof {
                    let e = Event::ParseFailure {
                        file: file@,
                        line: Some(line),
                        snippet: snippet_of(snippet@),
                        step: "theme.screens value"@,
                        reason: "screens is not an object literal, so it cannot be resolved without running the config"@,
                    };
                    super::log::lemma_with_with(start, elsewhere + before.events, seq![e]);
                    assert(elsewhere + before.events + seq![e] =~= elsewhere
                        + before.events.push(e));
                    assert(warning_views(warnings@) =~= held.push(warning@));
                    assert(held.push(warning@) =~= had + before.warnings.push(warning@));
                }
            },
        }
        i += 1;
    }
    assert(all.take(all.len() as int) =~= all);
    let ghost read = sites_read(src@, file@, all);
    let ghost mut said = elsewhere + read.events;
    assert(founds(breakpoints@).len() == breakpoints@.len());

    if resolved && breakpoints.len() == 0 {
        resolved = false;
        log.discarded(
            file,
            "theme.screens",
            "the screens object held no readable widths, so Tailwind's defaults apply",
        );
        let ghost held = warning_views(warnings@);
        let warning = warn_empty(file);
        warnings.push(warning);
        proof {
            let e = seq![
                Event::Discarded {
                    file: file@,
                    value: "theme.screens"@,
                    reason: "the screens object held no readable widths, so Tailwind's defaults apply"@,
                },
            ];
            super::log::lemma_with_with(start, said, e);
            said = said + e;
            assert(warning_views(warnings@) =~= held.push(warning@));
            assert(held.push(warning@) =~= had + read.warnings.push(warning@));
        }
    } else {
        assert(said + Seq::<Event>::empty() =~= said);
    }
    if !resolved {
        let mut message = file.to_owned();
        message.append(" has no readable theme.screens; Tailwind's defaults apply");
        log.note(message.as_str());
        proof {
            super::log::lemma_with_with(start, said, seq![Event::Note { message: message@ }]);
        }
    } else {
        assert(said + Seq::<Event>::empty() =~= said);
    }
    if (extends && !replaced) || !resolved {
        add_defaults(&mut breakpoints, "Tailwind default screens", file);
    }
    let breakpoints = sort_by_width(breakpoints);
    FrameworkDetection {
        framework: "tailwind".to_owned(),
        version: Some(
            match declared {
                Some(v) => v.as_str().to_owned(),
                None => "3".to_owned(),
            },
        ),
        confidence: if resolved {
            95
        } else {
            60
        },
        source_file: file.to_owned(),
        breakpoints,
        metadata: metadata(
            "config",
            file,
            "screens",
            if extends {
                "theme.extend.screens"
            } else {
                "theme.screens"
            },
        ),
    }
}

/// Whether a stylesheet pulls the framework in.
pub open spec fn pulls_in_tailwind(text: Seq<char>) -> bool {
    has(text, "@import \"tailwindcss\""@) || has(text, "@import 'tailwindcss'"@)
}

pub fn imports_tailwind(text: &str) -> (r: bool)
    ensures
        r == pulls_in_tailwind(text@),
{
    contains_str(text, "@import \"tailwindcss\"") || contains_str(text, "@import 'tailwindcss'")
}

/// A `--breakpoint-*` property and its value.
pub const THEME_PATTERN: &'static str = r"--breakpoint-([A-Za-z0-9_-]+)\s*:\s*([^;]+);";

/// What the properties that `ms` found in `text` say, one after another.
pub open spec fn properties_of(
    text: Seq<char>,
    file: Seq<char>,
    ms: Seq<Seq<Option<(usize, usize)>>>,
) -> (Seq<Found>, Seq<Event>)
    decreases ms.len(),
{
    if ms.len() == 0 {
        (Seq::empty(), Seq::empty())
    } else {
        let before = properties_of(text, file, ms.drop_last());
        let name = group_or_empty(text, ms.last(), 1);
        let raw = trimmed(group_or_empty(text, ms.last(), 2));
        let at = group_start(ms.last(), 0) as int;
        match length_of(raw) {
            Some(px) => (
                before.0.push(
                    configured_width(
                        px as i64,
                        name,
                        "@theme --breakpoint-*"@,
                        file,
                        Some(lines(text.take(int_min(at, text.len() as int))).len() as usize),
                    ),
                ),
                before.1,
            ),
            None => (
                before.0,
                before.1.push(
                    Event::Discarded {
                        file,
                        value: "--breakpoint-"@ + name + ": "@ + raw,
                        reason: "value is not a length that converts to px"@,
                    },
                ),
            ),
        }
    }
}

/// What a `@theme` block says, given the properties found in it.
pub open spec fn v4_from(
    text: Seq<char>,
    file: Seq<char>,
    ms: Seq<Seq<Option<(usize, usize)>>>,
) -> (FrameworkFound, Seq<Event>) {
    let read = properties_of(text, file, ms);
    let none = read.0.len() == 0;
    let all = if none {
        with_defaults(read.0, names_of(read.0), "Tailwind v4 default screens"@, file, 5)
    } else {
        read.0
    };
    (
        FrameworkFound {
            framework: "tailwind"@,
            version: Some("4"@),
            confidence: 95,
            source_file: file,
            breakpoints: by_width(all),
            metadata: seq![("theme"@, file)],
        },
        if none {
            read.1.push(
                Event::Note {
                    message: file
                        + " imports tailwindcss and no stylesheet in the project declares --breakpoint-*, so the v4 defaults apply"@,
                },
            )
        } else {
            read.1
        },
    )
}

pub open spec fn v4_of(text: Seq<char>, file: Seq<char>) -> (FrameworkFound, Seq<Event>) {
    v4_from(text, file, matches_of(THEME_PATTERN@, text))
}

/// Read the properties these matches of [`THEME_PATTERN`] found.
pub fn read_theme(text: &str, file: &str, ms: &Vec<Groups>, log: &mut ScanLog) -> (r:
    FrameworkDetection)
    ensures
        r@ == v4_from(text@, file@, group_views(ms@)).0,
        final(log)@ == old(log)@.with(v4_from(text@, file@, group_views(ms@)).1),
{
    let chars = chars_of(text);
    let ghost start = log@;
    let ghost all = group_views(ms@);
    let mut breakpoints: Vec<BreakpointDiscovery> = Vec::new();
    let mut i: usize = 0;
    proof {
        assert(all.take(0) =~= Seq::<Seq<Option<(usize, usize)>>>::empty());
        assert(founds(breakpoints@) =~= Seq::<Found>::empty());
        assert(start.with(Seq::empty()) =~= start);
    }
    while i < ms.len()
        invariant
            i <= ms@.len(),
            chars@ == text@,
            all == group_views(ms@),
            founds(breakpoints@) == properties_of(text@, file@, all.take(i as int)).0,
            log@ == start.with(properties_of(text@, file@, all.take(i as int)).1),
        decreases ms@.len() - i,
    {
        let m = &ms[i];
        let ghost before = properties_of(text@, file@, all.take(i as int));
        proof {
            assert(all.take(i + 1).drop_last() =~= all.take(i as int));
            assert(all.take(i + 1).last() == m@);
        }
        let name = m.text_or_empty(chars.as_slice(), 1);
        let raw = trim_str(m.text_or_empty(chars.as_slice(), 2).as_str());
        match parse_length(raw.as_str()) {
            Some(px) => {
                let line: usize = line_count_before(text, m.start(0));
                let b = BreakpointDiscovery::configured(
                    px,
                    name.as_str(),
                    "@theme --breakpoint-*",
                    file,
                    Some(line),
                );
                breakpoints.push(b);
                assert(founds(breakpoints@) =~= before.0.push(b@));
            },
            None => {
                let mut value = "--breakpoint-".to_owned();
                value.append(name.as_str());
                value.append(": ");
                value.append(raw.as_str());
                log.discarded(file, value.as_str(), "value is not a length that converts to px");
                proof {
                    let e = Event::Discarded {
                        file: file@,
                        value: value@,
                        reason: "value is not a length that converts to px"@,
                    };
                    super::log::lemma_with_with(start, before.1, seq![e]);
                    assert(before.1 + seq![e] =~= before.1.push(e));
                }
            },
        }
        i += 1;
    }
    assert(all.take(all.len() as int) =~= all);
    assert(founds(breakpoints@).len() == breakpoints@.len());
    if breakpoints.len() == 0 {
        let mut message = file.to_owned();
        message.append(
            " imports tailwindcss and no stylesheet in the project declares --breakpoint-*, so the v4 defaults apply",
        );
        log.note(message.as_str());
        proof {
            let said = properties_of(text@, file@, all).1;
            let e = Event::Note { message: message@ };
            super::log::lemma_with_with(start, said, seq![e]);
            assert(said + seq![e] =~= said.push(e));
        }
        add_defaults(&mut breakpoints, "Tailwind v4 default screens", file);
    }
    let breakpoints = sort_by_width(breakpoints);
    let mut metadata: Vec<(String, String)> = Vec::new();
    metadata.push(("theme".to_owned(), file.to_owned()));
    assert(pairs(metadata@) =~= seq![("theme"@, file@)]);
    FrameworkDetection {
        framework: "tailwind".to_owned(),
        version: Some("4".to_owned()),
        confidence: 95,
        source_file: file.to_owned(),
        breakpoints,
        metadata,
    }
}

/// Read a `@theme` block, or hand back the defaults when there is nothing to
/// read and the caller has established that the framework is in use.
pub fn parse_v4(text: &str, file: &str, log: &mut ScanLog) -> (r: FrameworkDetection)
    ensures
        r@ == v4_of(text@, file@).0,
        final(log)@ == old(log)@.with(v4_of(text@, file@).1),
{
    read_theme(text, file, &find_all(THEME_PATTERN, text), log)
}

/// A version range reduced to its major, when it starts with one.
pub open spec fn major_of(range: Seq<char>) -> Seq<char> {
    let s = strip_front(range, |c: char| is_range_mark(c));
    let n = digits_end(s, 0);
    if n == 0 {
        range
    } else {
        s.take(n)
    }
}

pub open spec fn is_range_mark(c: char) -> bool {
    c == '^' || c == '~' || c == '>' || c == '=' || c == 'v' || c == ' '
}

pub open spec fn digits_end(s: Seq<char>, i: int) -> int
    decreases s.len() - i,
{
    if i >= s.len() || !is_digit(s[i]) {
        i
    } else {
        digits_end(s, i + 1)
    }
}

fn reduce_range(range: &str) -> (r: String)
    ensures
        r@ == major_of(range@),
{
    let s = chars_of(range);
    let mut i: usize = 0;
    let ghost f = |c: char| is_range_mark(c);
    assert(s@.skip(0) =~= s@);
    while i < s.len() && (s[i] == '^' || s[i] == '~' || s[i] == '>' || s[i] == '=' || s[i] == 'v'
        || s[i] == ' ')
        invariant
            i <= s@.len(),
            s@ == range@,
            f == (|c: char| is_range_mark(c)),
            strip_front(s@, f) == strip_front(s@.skip(i as int), f),
        decreases s@.len() - i,
    {
        assert(s@.skip(i as int).drop_first() =~= s@.skip(i + 1));
        i += 1;
    }
    let ghost rest = s@.skip(i as int);
    assert(strip_front(s@, f) == rest);
    let start: usize = i;
    while i < s.len() && digit(s[i])
        invariant
            start <= i <= s@.len(),
            rest == s@.skip(start as int),
            digits_end(rest, 0) == digits_end(rest, i - start),
        decreases s@.len() - i,
    {
        assert(rest[i - start] == s@[i as int]);
        i += 1;
    }
    if i < s.len() {
        assert(rest[i - start] == s@[i as int]);
    }
    if i == start {
        range.to_owned()
    } else {
        assert(rest.take(i - start) =~= s@.subrange(start as int, i as int));
        slice_string(s.as_slice(), start, i)
    }
}

/// What looking for the declared version came to.
pub struct Declared {
    pub version: Option<Seq<char>>,
    pub left: usize,
    pub events: Seq<Event>,
}

pub open spec fn declares_event(range: Seq<char>) -> Event {
    Event::Note { message: "package.json declares tailwindcss "@ + range }
}

/// The version range that one of these manifests declares, reduced to a major.
/// Only the project's own manifest counts, not one nested in a package.
pub open spec fn declared_in(
    paths: Seq<Seq<char>>,
    disk: Seq<(Seq<char>, Given)>,
    left: usize,
) -> Declared
    decreases paths.len(),
{
    if paths.len() == 0 {
        Declared { version: None, left, events: Seq::empty() }
    } else if given(disk, paths[0]) is Late {
        Declared {
            version: None,
            left,
            events: skip_event(paths[0], "scan timeout reached before this file"@),
        }
    } else if parts(paths[0]).len() > 1 {
        declared_in(paths.drop_first(), disk, left)
    } else {
        let read = read_of(disk, paths[0], left);
        match read.text {
            None => Declared { version: None, left: read.left, events: read.events },
            Some(t) => match json_entry(t, "dependencies"@, "tailwindcss"@) {
                super::manifest::Entry::NotJson => Declared {
                    version: None,
                    left: read.left,
                    events: read.events,
                },
                super::manifest::Entry::Text(range) => Declared {
                    version: Some(major_of(range)),
                    left: read.left,
                    events: read.events.push(declares_event(range)),
                },
                _ => match json_entry(t, "devDependencies"@, "tailwindcss"@) {
                    super::manifest::Entry::Text(range) => Declared {
                        version: Some(major_of(range)),
                        left: read.left,
                        events: read.events.push(declares_event(range)),
                    },
                    _ => {
                        let rest = declared_in(paths.drop_first(), disk, read.left);
                        Declared {
                            version: rest.version,
                            left: rest.left,
                            events: read.events + rest.events,
                        }
                    },
                },
            },
        }
    }
}

fn note_declared(range: &str, log: &mut ScanLog)
    ensures
        final(log)@ == old(log)@.with(seq![declares_event(range@)]),
{
    let mut message = "package.json declares tailwindcss ".to_owned();
    message.append(range);
    log.note(message.as_str());
}

/// The version range from package.json, reduced to a major.
pub fn declared_version(index: &FileIndex, disk: &Disk, budget: &mut ReadBudget, log: &mut ScanLog) -> (r:
    Option<String>)
    ensures
        ({
            let got = declared_in(
                chosen(texts(index.files@), |p: Seq<char>| named(p, "package.json"@)),
                disk@,
                old(budget)@,
            );
            &&& opt_view(r) == got.version
            &&& final(budget)@ == got.left
            &&& final(log)@ == old(log)@.with(got.events)
        }),
{
    let paths = index.by_name("package.json");
    let ghost ps = texts(paths@);
    let ghost start = log@;
    let ghost whole = declared_in(ps, disk@, budget@);
    let ghost mut said: Seq<Event> = Seq::empty();
    let mut i: usize = 0;
    proof {
        assert(ps.skip(0) =~= ps);
        assert(start.with(said) =~= start);
        assert(said + whole.events =~= whole.events);
    }
    while i < paths.len()
        invariant
            i <= paths@.len(),
            ps == texts(paths@),
            start == old(log)@,
            whole == declared_in(
                chosen(texts(index.files@), |p: Seq<char>| named(p, "package.json"@)),
                disk@,
                old(budget)@,
            ),
            log@ == start.with(said),
            whole.version == declared_in(ps.skip(i as int), disk@, budget@).version,
            whole.left == declared_in(ps.skip(i as int), disk@, budget@).left,
            whole.events == said + declared_in(ps.skip(i as int), disk@, budget@).events,
        decreases paths@.len() - i,
    {
        let rel = paths[i].as_str();
        proof {
            assert(ps.skip(i as int)[0] == rel@);
            assert(ps.skip(i as int).drop_first() =~= ps.skip(i + 1));
        }
        if disk.late(rel) {
            log.skip(rel, "scan timeout reached before this file");
            proof {
                super::log::lemma_with_with(
                    start,
                    said,
                    skip_event(rel@, "scan timeout reached before this file"@),
                );
            }
            return None;
        }
        let deep = parts_of(rel);
        assert(parts(rel@).len() == deep@.len());
        if deep.len() <= 1 {
            let ghost read = read_of(disk@, rel@, budget@);
            let text = match budget.read(disk, rel, log) {
                Some(t) => t,
                None => {
                    proof {
                        super::log::lemma_with_with(start, said, read.events);
                    }
                    return None;
                },
            };
            proof {
                super::log::lemma_with_with(start, said, read.events);
            }
            match json_lookup(text.as_str(), "dependencies", "tailwindcss") {
                Lookup::NotJson => {
                    return None;
                },
                Lookup::Text(range) => {
                    note_declared(range.as_str(), log);
                    proof {
                        super::log::lemma_with_with(
                            start,
                            said + read.events,
                            seq![declares_event(range@)],
                        );
                        assert(said + read.events + seq![declares_event(range@)] =~= said
                            + read.events.push(declares_event(range@)));
                    }
                    return Some(reduce_range(range.as_str()));
                },
                _ => {},
            }
            match json_lookup(text.as_str(), "devDependencies", "tailwindcss") {
                Lookup::Text(range) => {
                    note_declared(range.as_str(), log);
                    proof {
                        super::log::lemma_with_with(
                            start,
                            said + read.events,
                            seq![declares_event(range@)],
                        );
                        assert(said + read.events + seq![declares_event(range@)] =~= said
                            + read.events.push(declares_event(range@)));
                    }
                    return Some(reduce_range(range.as_str()));
                },
                _ => {},
            }
            proof {
                let rest = declared_in(ps.skip(i + 1), disk@, budget@);
                assert(said + (read.events + rest.events) =~= (said + read.events) + rest.events);
                said = said + read.events;
            }
        }
        i += 1;
    }
    assert(said + Seq::<Event>::empty() =~= said);
    None
}

/// The JavaScript configs, in the order they are read.
pub open spec fn config_paths(files: Seq<Seq<char>>) -> Seq<Seq<char>> {
    chosen(files, |p: Seq<char>| named(p, "tailwind.config.js"@)) + chosen(
        files,
        |p: Seq<char>| named(p, "tailwind.config.cjs"@),
    ) + chosen(files, |p: Seq<char>| named(p, "tailwind.config.mjs"@)) + chosen(
        files,
        |p: Seq<char>| named(p, "tailwind.config.ts"@),
    )
}

fn list_configs(index: &FileIndex) -> (r: Vec<String>)
    ensures
        texts(r@) == config_paths(texts(index.files@)),
{
    let mut out = index.by_name("tailwind.config.js");
    let mut cjs = index.by_name("tailwind.config.cjs");
    let mut mjs = index.by_name("tailwind.config.mjs");
    let mut ts = index.by_name("tailwind.config.ts");
    let ghost a = texts(out@);
    let ghost b = texts(cjs@);
    let ghost c = texts(mjs@);
    let ghost d = texts(ts@);
    out.append(&mut cjs);
    assert(texts(out@) =~= a + b);
    out.append(&mut mjs);
    assert(texts(out@) =~= a + b + c);
    out.append(&mut ts);
    assert(texts(out@) =~= a + b + c + d);
    out
}

/// What a detector has found so far, what is left of the read budget, and what
/// it logged.
pub struct DetectorState {
    pub out: OutputFound,
    pub left: usize,
    pub events: Seq<Event>,
}

/// The configs read, one after another.
pub open spec fn configs_read(
    paths: Seq<Seq<char>>,
    disk: Seq<(Seq<char>, Given)>,
    left: usize,
    declared: Option<Seq<char>>,
) -> DetectorState
    decreases paths.len(),
{
    if paths.len() == 0 {
        DetectorState { out: nothing_found(), left, events: Seq::empty() }
    } else {
        let before = configs_read(paths.drop_last(), disk, left, declared);
        let read = read_of(disk, paths.last(), before.left);
        match read.text {
            None => DetectorState {
                out: before.out,
                left: read.left,
                events: before.events + read.events,
            },
            Some(t) => {
                let v3 = v3_of(t, paths.last(), declared);
                DetectorState {
                    out: OutputFound {
                        frameworks: before.out.frameworks.push(v3.found),
                        breakpoints: before.out.breakpoints + v3.found.breakpoints,
                        warnings: before.out.warnings + v3.warnings,
                        ..before.out
                    },
                    left: read.left,
                    events: before.events + read.events + v3.events,
                }
            },
        }
    }
}

/// The stylesheets looked at for a `@theme` block.
#[verifier::ext_equal]
pub struct ThemesRead {
    /// The files that declare `--breakpoint-*`, with their text.
    pub declaring: Seq<(Seq<char>, Seq<char>)>,
    /// The first file that imports the framework.
    pub importing: Option<Seq<char>>,
    pub left: usize,
    pub events: Seq<Event>,
    pub stopped: bool,
}

/// Every stylesheet is looked at for `--breakpoint-*`, not only ones that
/// mention the framework: the documented v4 layout is an entry stylesheet that
/// imports tailwindcss and a separate theme file holding the block.
pub open spec fn theme_step(st: ThemesRead, path: Seq<char>, disk: Seq<(Seq<char>, Given)>) -> ThemesRead {
    if given(disk, path) is Late {
        ThemesRead {
            stopped: true,
            events: st.events + skip_event(path, "scan timeout reached before this file"@),
            ..st
        }
    } else if has(path, "dist/"@) || has(path, "build/"@) || goes_hidden(path) {
        st
    } else {
        let read = read_of(disk, path, st.left);
        match read.text {
            None => ThemesRead { left: read.left, events: st.events + read.events, ..st },
            Some(t) => if reads_as_compiled(t) {
                ThemesRead {
                    left: read.left,
                    events: st.events + read.events + skip_event(
                        path,
                        "one enormous line, so it is a compiled bundle rather than source"@,
                    ),
                    ..st
                }
            } else {
                ThemesRead {
                    declaring: if has(t, "--breakpoint-"@) {
                        st.declaring.push((path, t))
                    } else {
                        st.declaring
                    },
                    importing: if pulls_in_tailwind(t) && st.importing is None {
                        Some(path)
                    } else {
                        st.importing
                    },
                    left: read.left,
                    events: st.events + read.events,
                    stopped: st.stopped,
                }
            },
        }
    }
}

pub open spec fn themes_read(
    paths: Seq<Seq<char>>,
    disk: Seq<(Seq<char>, Given)>,
    left: usize,
) -> ThemesRead
    decreases paths.len(),
{
    if paths.len() == 0 {
        ThemesRead {
            declaring: Seq::empty(),
            importing: None,
            left,
            events: Seq::empty(),
            stopped: false,
        }
    } else {
        let before = themes_read(paths.drop_last(), disk, left);
        if before.stopped {
            before
        } else {
            theme_step(before, paths.last(), disk)
        }
    }
}

/// What is said of the other files that declare breakpoints.
pub open spec fn also_declaring(files: Seq<(Seq<char>, Seq<char>)>, n: int) -> Seq<Event>
    decreases n,
{
    if n <= 1 {
        Seq::empty()
    } else {
        also_declaring(files, n - 1).push(
            Event::Note {
                message: files[n - 1].0 + " also declares --breakpoint-* properties"@,
            },
        )
    }
}

/// Declarations anywhere win. Only if there are none does importing the
/// framework mean the defaults are in force.
pub open spec fn theme_found(st: ThemesRead) -> (Option<FrameworkFound>, Seq<Event>) {
    if st.declaring.len() > 0 {
        let v4 = v4_of(st.declaring[0].1, st.declaring[0].0);
        (Some(v4.0), v4.1 + also_declaring(st.declaring, st.declaring.len() as int))
    } else {
        match st.importing {
            Some(file) => {
                let v4 = v4_of(""@, file);
                (Some(v4.0), v4.1)
            },
            None => (None, Seq::empty()),
        }
    }
}

pub open spec fn unresolved_warning(version: Seq<char>) -> WarningFound {
    WarningFound {
        file: "package.json"@,
        message: "Tailwind "@ + version + " is installed but its breakpoints did not resolve"@,
        detail: seq![
            "No tailwind.config.* with a readable theme.screens, and no @theme block with --breakpoint-* properties."@,
            "The CSS media query scan below is what Break/Points fell back to."@,
        ],
    }
}

/// Everything the Tailwind detector does.
pub open spec fn tailwind_outcome(
    files: Seq<Seq<char>>,
    disk: Seq<(Seq<char>, Given)>,
    left: usize,
) -> DetectorState {
    let declared = declared_in(
        chosen(files, |p: Seq<char>| named(p, "package.json"@)),
        disk,
        left,
    );
    let configs = configs_read(config_paths(files), disk, declared.left, declared.version);
    let themes = themes_read(
        chosen(files, |p: Seq<char>| has_extension(p, stylesheets())),
        disk,
        configs.left,
    );
    let theme = theme_found(themes);
    let said = declared.events + configs.events + themes.events + theme.1;
    let out = match theme.0 {
        Some(f) => OutputFound {
            frameworks: configs.out.frameworks.push(f),
            breakpoints: configs.out.breakpoints + f.breakpoints,
            ..configs.out
        },
        None => configs.out,
    };
    if out.frameworks.len() > 0 {
        DetectorState { out, left: themes.left, events: said }
    } else {
        match declared.version {
            Some(v) => DetectorState {
                out: OutputFound { warnings: out.warnings.push(unresolved_warning(v)), ..out },
                left: themes.left,
                events: said.push(
                    Event::Note {
                        message: "tailwindcss "@ + v
                            + " is a dependency but no screens were resolved from any config"@,
                    },
                ),
            },
            None => DetectorState {
                out,
                left: themes.left,
                events: said.push(
                    Event::Note { message: "no Tailwind config and no tailwindcss dependency"@ },
                ),
            },
        }
    }
}

fn add_framework(out: &mut DetectorOutput, f: FrameworkDetection)
    ensures
        final(out)@ == (OutputFound {
            frameworks: old(out)@.frameworks.push(f@),
            breakpoints: old(out)@.breakpoints + f@.breakpoints,
            ..old(out)@
        }),
{
    let ghost fs = frameworks(out.frameworks@);
    let ghost bs = founds(out.breakpoints@);
    let mut more = clone_founds(&f.breakpoints);
    let ghost tail = founds(more@);
    out.breakpoints.append(&mut more);
    out.frameworks.push(f);
    assert(frameworks(out.frameworks@) =~= fs.push(f@));
    assert(founds(out.breakpoints@) =~= bs + tail);
}

fn take_config(
    out: &mut DetectorOutput,
    text: &str,
    rel: &str,
    declared: &Option<String>,
    log: &mut ScanLog,
)
    ensures
        ({
            let v3 = v3_of(text@, rel@, opt_view(*declared));
            &&& final(out)@ == (OutputFound {
                frameworks: old(out)@.frameworks.push(v3.found),
                breakpoints: old(out)@.breakpoints + v3.found.breakpoints,
                warnings: old(out)@.warnings + v3.warnings,
                ..old(out)@
            })
            &&& final(log)@ == old(log)@.with(v3.events)
        }),
{
    let mut warnings: Vec<ScanWarning> = Vec::new();
    let ghost had = warning_views(out.warnings@);
    assert(warning_views(warnings@) =~= Seq::<WarningFound>::empty());
    let f = parse_v3(text, rel, declared, log, &mut warnings);
    let ghost more = warning_views(warnings@);
    assert(more =~= v3_of(text@, rel@, opt_view(*declared)).warnings);
    out.warnings.append(&mut warnings);
    assert(warning_views(out.warnings@) =~= had + more);
    add_framework(out, f);
}

fn read_configs(
    index: &FileIndex,
    declared: &Option<String>,
    disk: &Disk,
    budget: &mut ReadBudget,
    log: &mut ScanLog,
) -> (out: DetectorOutput)
    ensures
        ({
            let got = configs_read(
                config_paths(texts(index.files@)),
                disk@,
                old(budget)@,
                opt_view(*declared),
            );
            &&& out@ == got.out
            &&& final(budget)@ == got.left
            &&& final(log)@ == old(log)@.with(got.events)
        }),
{
    let mut out = DetectorOutput::default();
    let paths = list_configs(index);
    let ghost ps = texts(paths@);
    let ghost start = log@;
    let ghost left0 = budget@;
    let ghost dv = opt_view(*declared);
    let mut i: usize = 0;
    proof {
        assert(ps.take(0) =~= Seq::<Seq<char>>::empty());
        assert(start.with(Seq::empty()) =~= start);
    }
    while i < paths.len()
        invariant
            i <= paths@.len(),
            ps == texts(paths@),
            dv == opt_view(*declared),
            out@ == configs_read(ps.take(i as int), disk@, left0, dv).out,
            budget@ == configs_read(ps.take(i as int), disk@, left0, dv).left,
            log@ == start.with(configs_read(ps.take(i as int), disk@, left0, dv).events),
        decreases paths@.len() - i,
    {
        let rel = paths[i].as_str();
        let ghost before = configs_read(ps.take(i as int), disk@, left0, dv);
        let ghost read = read_of(disk@, rel@, budget@);
        proof {
            assert(ps.take(i + 1).drop_last() =~= ps.take(i as int));
            assert(ps.take(i + 1).last() == rel@);
            super::log::lemma_with_with(start, before.events, read.events);
        }
        if let Some(text) = budget.read(disk, rel, log) {
            take_config(&mut out, text.as_str(), rel, declared, log);
            proof {
                let v3 = v3_of(text@, rel@, dv);
                super::log::lemma_with_with(start, before.events + read.events, v3.events);
            }
        }
        i += 1;
    }
    assert(ps.take(ps.len() as int) =~= ps);
    out
}

struct Themes {
    declaring: Vec<(String, String)>,
    importing: Option<String>,
    stopped: bool,
}

fn read_themes(index: &FileIndex, disk: &Disk, budget: &mut ReadBudget, log: &mut ScanLog) -> (r:
    Themes)
    ensures
        ({
            let got = themes_read(
                chosen(texts(index.files@), |p: Seq<char>| has_extension(p, stylesheets())),
                disk@,
                old(budget)@,
            );
            &&& pairs(r.declaring@) == got.declaring
            &&& opt_view(r.importing) == got.importing
            &&& final(budget)@ == got.left
            &&& final(log)@ == old(log)@.with(got.events)
        }),
{
    let exts = stylesheet_extensions();
    let paths = index.by_extension(&exts);
    let ghost ps = texts(paths@);
    let ghost start = log@;
    let ghost left0 = budget@;
    let mut r = Themes { declaring: Vec::new(), importing: None, stopped: false };
    let mut i: usize = 0;
    proof {
        let f = |p: Seq<char>| has_extension(p, stylesheets());
        let g = |p: Seq<char>| has_extension(p, texts(exts@));
        assert(f =~= g);
        assert(ps.take(0) =~= Seq::<Seq<char>>::empty());
        assert(pairs(r.declaring@) =~= Seq::<(Seq<char>, Seq<char>)>::empty());
        assert(start.with(Seq::empty()) =~= start);
    }
    while i < paths.len()
        invariant
            i <= paths@.len(),
            ps == texts(paths@),
            pairs(r.declaring@) == themes_read(ps.take(i as int), disk@, left0).declaring,
            opt_view(r.importing) == themes_read(ps.take(i as int), disk@, left0).importing,
            r.stopped == themes_read(ps.take(i as int), disk@, left0).stopped,
            budget@ == themes_read(ps.take(i as int), disk@, left0).left,
            log@ == start.with(themes_read(ps.take(i as int), disk@, left0).events),
        decreases paths@.len() - i,
    {
        let rel = paths[i].as_str();
        let ghost before = themes_read(ps.take(i as int), disk@, left0);
        let ghost read = read_of(disk@, rel@, budget@);
        proof {
            assert(ps.take(i + 1).drop_last() =~= ps.take(i as int));
            assert(ps.take(i + 1).last() == rel@);
            super::log::lemma_with_with(start, before.events, read.events);
        }
        i += 1;
        if r.stopped {
            continue;
        }
        if disk.late(rel) {
            log.skip(rel, "scan timeout reached before this file");
            proof {
                super::log::lemma_with_with(
                    start,
                    before.events,
                    skip_event(rel@, "scan timeout reached before this file"@),
                );
            }
            r.stopped = true;
            continue;
        }
        if contains_str(rel, "dist/") || contains_str(rel, "build/") || in_hidden_directory(rel) {
            continue;
        }
        let text = match budget.read(disk, rel, log) {
            Some(t) => t,
            None => {
                continue;
            },
        };
        if looks_compiled(text.as_str()) {
            log.skip(rel, "one enormous line, so it is a compiled bundle rather than source");
            proof {
                super::log::lemma_with_with(
                    start,
                    before.events + read.events,
                    skip_event(
                        rel@,
                        "one enormous line, so it is a compiled bundle rather than source"@,
                    ),
                );
            }
            continue;
        }
        if imports_tailwind(text.as_str()) && r.importing.is_none() {
            r.importing = Some(rel.to_owned());
        }
        if contains_str(text.as_str(), "--breakpoint-") {
            let ghost had = pairs(r.declaring@);
            r.declaring.push((rel.to_owned(), text));
            assert(pairs(r.declaring@) =~= had.push((rel@, text@)));
        }
    }
    assert(ps.take(ps.len() as int) =~= ps);
    r
}

fn find_theme(t: &Themes, log: &mut ScanLog) -> (r: Option<FrameworkDetection>)
    ensures
        forall|st: ThemesRead|
            st.declaring == pairs(t.declaring@) && st.importing == opt_view(t.importing) ==> ({
                let got = #[trigger] theme_found(st);
                &&& match r {
                    Some(f) => got.0 == Some(f@),
                    None => got.0 is None,
                }
                &&& final(log)@ == old(log)@.with(got.1)
            }),
{
    let ghost ds = pairs(t.declaring@);
    assert(ds.len() == t.declaring@.len());
    if t.declaring.len() > 0 {
        let ghost start = log@;
        assert(ds[0] == (t.declaring@[0].0@, t.declaring@[0].1@));
        let f = parse_v4(t.declaring[0].1.as_str(), t.declaring[0].0.as_str(), log);
        let ghost v4 = v4_of(ds[0].1, ds[0].0);
        let mut i: usize = 1;
        assert(v4.1 + also_declaring(ds, 1) =~= v4.1);
        while i < t.declaring.len()
            invariant
                1 <= i <= t.declaring@.len(),
                ds == pairs(t.declaring@),
                log@ == start.with(v4.1 + also_declaring(ds, i as int)),
            decreases t.declaring@.len() - i,
        {
            let mut message = t.declaring[i].0.as_str().to_owned();
            message.append(" also declares --breakpoint-* properties");
            log.note(message.as_str());
            proof {
                let e = Event::Note { message: message@ };
                let said = v4.1 + also_declaring(ds, i as int);
                super::log::lemma_with_with(start, said, seq![e]);
                assert(ds[i as int].0 == t.declaring@[i as int].0@);
                assert(said + seq![e] =~= v4.1 + also_declaring(ds, i + 1));
            }
            i += 1;
        }
        Some(f)
    } else {
        match &t.importing {
            Some(file) => Some(parse_v4("", file.as_str(), log)),
            None => {
                assert(log@.with(Seq::empty()) =~= log@);
                None
            },
        }
    }
}

fn warn_unresolved(version: &str) -> (r: ScanWarning)
    ensures
        r@ == unresolved_warning(version@),
{
    let mut message = "Tailwind ".to_owned();
    message.append(version);
    message.append(" is installed but its breakpoints did not resolve");
    let mut detail: Vec<String> = Vec::new();
    detail.push(
        "No tailwind.config.* with a readable theme.screens, and no @theme block with --breakpoint-* properties.".to_owned(),
    );
    detail.push("The CSS media query scan below is what Break/Points fell back to.".to_owned());
    let r = ScanWarning { file: "package.json".to_owned(), message, detail };
    assert(r@ =~= unresolved_warning(version@));
    r
}

pub fn run(index: &FileIndex, disk: &Disk, budget: &mut ReadBudget, log: &mut ScanLog) -> (r:
    DetectorOutput)
    ensures
        ({
            let got = tailwind_outcome(texts(index.files@), disk@, old(budget)@);
            &&& r@ == got.out
            &&& final(budget)@ == got.left
            &&& final(log)@ == old(log)@.with(got.events)
        }),
{
    broadcast use super::log::lemma_with_with;

    let declared = declared_version(index, disk, budget, log);
    let mut out = read_configs(index, &declared, disk, budget, log);
    let themes = read_themes(index, disk, budget, log);
    let ghost st = themes_read(
        chosen(texts(index.files@), |p: Seq<char>| has_extension(p, stylesheets())),
        disk@,
        configs_read(
            config_paths(texts(index.files@)),
            disk@,
            declared_in(
                chosen(texts(index.files@), |p: Seq<char>| named(p, "package.json"@)),
                disk@,
                old(budget)@,
            ).left,
            opt_view(declared),
        ).left,
    );
    let theme = find_theme(&themes, log);
    assert(theme_found(st) == theme_found(st));
    if let Some(f) = theme {
        add_framework(&mut out, f);
    }
    assert(out@.frameworks.len() == out.frameworks@.len());
    if out.frameworks.len() == 0 {
        let ghost said = log@;
        match &declared {
            Some(version) => {
                let mut message = "tailwindcss ".to_owned();
                message.append(version.as_str());
                message.append(" is a dependency but no screens were resolved from any config");
                log.note(message.as_str());
                let ghost had = warning_views(out.warnings@);
                let w = warn_unresolved(version.as_str());
                out.warnings.push(w);
                assert(warning_views(out.warnings@) =~= had.push(w@));
            },
            None => {
                log.note("no Tailwind config and no tailwindcss dependency");
            },
        }
        proof {
            let got = tailwind_outcome(texts(index.files@), disk@, old(budget)@);
            assert(log@ == old(log)@.with(got.events)) by {
                assert(got.events =~= got.events.drop_last() + seq![got.events.last()]);
            }
        }
    }
    out
}

/// A screen is a breakpoint at the width it gives: the length it is, or its
/// `min`. A screen with only a `max` is one pixel past it, on that side. One
/// without a width is none.
pub proof fn a_screen_is_a_breakpoint_at_its_width(src: Seq<char>, file: Seq<char>, m: Member)
    requires
        m.key.len() > 0,
    ensures
        ({
            let r = screen_of(src, file, m).found;
            let object = length_of(m.value) is None && begins(m.value, "{"@);
            let raw = inner_value(m.value, "raw"@) is Some;
            let min = inner_length(m.value, "min"@);
            let max = inner_length(m.value, "max"@);
            &&& length_of(m.value) matches Some(px) ==> (r matches Some(f) && f.width == px as i64
                && f.edge == Edge::Min && f.confidence == 95)
            &&& object && !raw && min is Some ==> (r matches Some(f) && f.width == min->0 as i64
                && f.edge == Edge::Min && f.confidence == 95)
            &&& object && !raw && min is None && max is Some ==> (r matches Some(f) && f.width == (
            max->0 + 1_000_000) as i64 && f.edge == Edge::Max && f.confidence == 70)
            &&& object && (raw || (min is None && max is None)) ==> r is None
            &&& length_of(m.value) is None && !object ==> r is None
            &&& r matches Some(f) ==> f.name == Some(m.key) && f.kind == Kind::Configured
                && f.source_file == file && f.line == Some(line_at(src, m.offset))
            &&& r is None ==> screen_of(src, file, m).events.len() > 0
        }),
{
}

proof fn lemma_screens(src: Seq<char>, file: Seq<char>, ms: Seq<Member>, k: int)
    requires
        0 <= k < ms.len(),
    ensures
        screen_of(src, file, ms[k]).found matches Some(f) ==> screens_of(src, file, ms).0.contains(
            f,
        ),
    decreases ms.len(),
{
    let d = ms.drop_last();
    let before = screens_of(src, file, d).0;
    let r = screens_of(src, file, ms).0;
    if let Some(f) = screen_of(src, file, ms[k]).found {
        if k < d.len() {
            assert(d[k] == ms[k]);
            lemma_screens(src, file, d, k);
            assert(r[before.index_of(f)] == f);
        } else {
            assert(r[before.len() as int] == f);
        }
    }
}

/// Every screen of a config that has a width is read, in order, and nothing
/// else is.
pub proof fn every_screen_is_read(src: Seq<char>, file: Seq<char>, ms: Seq<Member>)
    ensures
        forall|k: int|
            0 <= k < ms.len() && screen_of(src, file, #[trigger] ms[k]).found is Some
                ==> screens_of(src, file, ms).0.contains(
                screen_of(src, file, ms[k]).found->0,
            ),
        screens_of(src, file, ms).0.len() == ms.filter(
            |m: Member| screen_of(src, file, m).found is Some,
        ).len(),
{
    assert forall|k: int| 0 <= k < ms.len() && screen_of(src, file, #[trigger] ms[k]).found
        is Some implies screens_of(src, file, ms).0.contains(
        screen_of(src, file, ms[k]).found->0,
    ) by {
        lemma_screens(src, file, ms, k);
    }
    lemma_screen_count(src, file, ms);
}

proof fn lemma_screen_count(src: Seq<char>, file: Seq<char>, ms: Seq<Member>)
    ensures
        screens_of(src, file, ms).0.len() == ms.filter(
            |m: Member| screen_of(src, file, m).found is Some,
        ).len(),
    decreases ms.len(),
{
    reveal(Seq::filter);
    if ms.len() > 0 {
        lemma_screen_count(src, file, ms.drop_last());
    }
}

proof fn lemma_defaults(
    found: Seq<Found>,
    taken: Seq<Option<Seq<char>>>,
    source: Seq<char>,
    file: Seq<char>,
    n: int,
)
    requires
        0 <= n,
    ensures
        ({
            let r = with_defaults(found, taken, source, file, n);
            &&& forall|i: int| 0 <= i < found.len() ==> #[trigger] r[i] == found[i]
            &&& found.len() <= r.len() <= found.len() + n
            &&& forall|k: int|
                0 <= k < n && !taken.contains(Some(default_screen(k).0)) ==> r.contains(
                    #[trigger] default_found(k, source, file),
                )
            &&& forall|j: int|
                found.len() <= j < r.len() ==> exists|k: int|
                    0 <= k < n && !taken.contains(Some(default_screen(k).0)) && #[trigger] r[j]
                        == #[trigger] default_found(k, source, file)
        }),
    decreases n,
{
    if n > 0 {
        lemma_defaults(found, taken, source, file, n - 1);
        let before = with_defaults(found, taken, source, file, n - 1);
        let r = with_defaults(found, taken, source, file, n);
        assert forall|k: int|
            0 <= k < n && !taken.contains(Some(default_screen(k).0)) implies r.contains(
            #[trigger] default_found(k, source, file),
        ) by {
            let x = default_found(k, source, file);
            if k < n - 1 {
                assert(before.contains(x));
                assert(r[before.index_of(x)] == x);
            } else {
                assert(r[before.len() as int] == x);
            }
        }
        assert forall|j: int| found.len() <= j < r.len() implies exists|k: int|
            0 <= k < n && !taken.contains(Some(default_screen(k).0)) && #[trigger] r[j]
                == #[trigger] default_found(k, source, file) by {
            if j < before.len() {
                assert(r[j] == before[j]);
                let k = choose|k: int|
                    0 <= k < n - 1 && !taken.contains(Some(default_screen(k).0)) && before[j]
                        == #[trigger] default_found(k, source, file);
                assert(r[j] == default_found(k, source, file));
            } else {
                assert(r[j] == default_found(n - 1, source, file));
            }
        }
    }
}

/// What a config's breakpoints are: every screen read from it, and each of
/// Tailwind's own five that it does not redefine, if it extends the screens
/// rather than replacing them or if none could be read. They stand narrowest
/// first.
pub proof fn a_config_adds_to_the_screens_it_extends(
    src: Seq<char>,
    file: Seq<char>,
    declared: Option<Seq<char>>,
    read: SitesRead,
    name: Seq<char>,
    width: i64,
)
    requires
        (name, width) == ("sm"@, 640_000_000i64) || (name, width) == ("md"@, 768_000_000i64) || (
            name,
            width,
        ) == ("lg"@, 1_024_000_000i64) || (name, width) == ("xl"@, 1_280_000_000i64) || (
            name,
            width,
        ) == ("2xl"@, 1_536_000_000i64),
    ensures
        ({
            let r = v3_from(src, file, declared, read).found.breakpoints;
            let own = (read.extends && !read.replaced) || !read.resolved || read.found.len() == 0;
            let redefined = exists|i: int|
                0 <= i < read.found.len() && (#[trigger] read.found[i]).name == Some(name);
            &&& forall|i: int| 0 <= i < read.found.len() ==> r.contains(#[trigger] read.found[i])
            &&& own && !redefined ==> exists|j: int|
                0 <= j < r.len() && (#[trigger] r[j]).name == Some(name) && r[j].width == width
                    && r[j].kind == Kind::Framework && r[j].edge == Edge::Min
            &&& own ==> r.len() <= read.found.len() + 5
            &&& !own ==> r.len() == read.found.len()
            &&& forall|i: int, j: int|
                0 <= i < j < r.len() ==> (#[trigger] r[i]).width <= (#[trigger] r[j]).width
        }),
{
    let lt = |a: Found, b: Found| narrower_found(a, b);
    assert(crate::order::ranks(lt));
    let source = "Tailwind default screens"@;
    let taken = names_of(read.found);
    let r = v3_from(src, file, declared, read).found.breakpoints;
    let own = (read.extends && !read.replaced) || !read.resolved || read.found.len() == 0;
    let all = if own {
        with_defaults(read.found, taken, source, file, 5)
    } else {
        read.found
    };
    assert(r == by_width(all));
    crate::order::sorting_is_ordered_and_complete(all, lt);
    assert forall|i: int, j: int| 0 <= i < j < r.len() implies (#[trigger] r[i]).width <= (
    #[trigger] r[j]).width by {
        assert(!lt(r[j], r[i]));
    }
    lemma_defaults(read.found, taken, source, file, 5);
    assert forall|i: int| 0 <= i < read.found.len() implies r.contains(
        #[trigger] read.found[i],
    ) by {
        assert(all[i] == read.found[i]);
        crate::order::lemma_sorted_keeps(all, lt, all[i]);
        assert(all.contains(all[i]));
    }
    let k: int = if (name, width) == ("sm"@, 640_000_000i64) {
        0
    } else if (name, width) == ("md"@, 768_000_000i64) {
        1
    } else if (name, width) == ("lg"@, 1_024_000_000i64) {
        2
    } else if (name, width) == ("xl"@, 1_280_000_000i64) {
        3
    } else {
        4
    };
    assert(default_screen(k) == (name, width));
    let redefined = exists|i: int|
        0 <= i < read.found.len() && (#[trigger] read.found[i]).name == Some(name);
    if own && !redefined {
        assert(!taken.contains(Some(default_screen(k).0))) by {
            if taken.contains(Some(name)) {
                let i = taken.index_of(Some(name));
                assert(read.found[i].name == Some(name));
            }
        }
        let x = default_found(k, source, file);
        assert(all.contains(x));
        crate::order::lemma_sorted_keeps(all, lt, x);
        let j = r.index_of(x);
        assert(r[j].name == Some(name));
    }
}

/// A v4 theme's breakpoints are the lengths of its `--breakpoint-*` properties,
/// each under its own name, or Tailwind's own five where there are none.
pub proof fn a_theme_has_a_breakpoint_for_each_property(
    text: Seq<char>,
    file: Seq<char>,
    ms: Seq<Seq<Option<(usize, usize)>>>,
    k: int,
)
    requires
        0 <= k < ms.len(),
    ensures
        length_of(trimmed(group_or_empty(text, ms[k], 2))) matches Some(px) ==> exists|j: int|
            0 <= j < v4_from(text, file, ms).0.breakpoints.len() && (#[trigger] v4_from(
                text,
                file,
                ms,
            ).0.breakpoints[j]).width == px as i64 && v4_from(text, file, ms).0.breakpoints[j].name
                == Some(group_or_empty(text, ms[k], 1)) && v4_from(
                text,
                file,
                ms,
            ).0.breakpoints[j].kind == Kind::Configured,
        v4_from(text, file, ms).0.version == Some("4"@),
{
    let lt = |a: Found, b: Found| narrower_found(a, b);
    assert(crate::order::ranks(lt));
    let read = properties_of(text, file, ms).0;
    let r = v4_from(text, file, ms).0.breakpoints;
    if let Some(px) = length_of(trimmed(group_or_empty(text, ms[k], 2))) {
        let x = lemma_property(text, file, ms, k);
        assert(r == by_width(read));
        crate::order::lemma_sorted_keeps(read, lt, x);
        let j = r.index_of(x);
        assert(r[j].width == px as i64);
    }
}

proof fn lemma_property(
    text: Seq<char>,
    file: Seq<char>,
    ms: Seq<Seq<Option<(usize, usize)>>>,
    k: int,
) -> (x: Found)
    requires
        0 <= k < ms.len(),
        length_of(trimmed(group_or_empty(text, ms[k], 2))) is Some,
    ensures
        properties_of(text, file, ms).0.contains(x),
        x.width == length_of(trimmed(group_or_empty(text, ms[k], 2)))->0 as i64,
        x.name == Some(group_or_empty(text, ms[k], 1)),
        x.kind == Kind::Configured,
    decreases ms.len(),
{
    let d = ms.drop_last();
    let before = properties_of(text, file, d).0;
    let r = properties_of(text, file, ms).0;
    if k < d.len() {
        assert(d[k] == ms[k]);
        let x = lemma_property(text, file, d, k);
        assert(r[before.index_of(x)] == x);
        x
    } else {
        assert(r[before.len() as int] == r.last());
        r.last()
    }
}

proof fn lemma_strip_marks(marks: Seq<char>, rest: Seq<char>)
    requires
        forall|i: int|
            0 <= i < marks.len() ==> "^~>=v "@.contains(#[trigger] marks[i]),
        rest.len() > 0,
        is_digit(rest[0]),
    ensures
        strip_front(marks + rest, |c: char| is_range_mark(c)) == rest,
    decreases marks.len(),
{
    reveal_strlit("^~>=v ");
    let f = |c: char| is_range_mark(c);
    let s = marks + rest;
    if marks.len() == 0 {
        assert(s =~= rest);
    } else {
        assert("^~>=v "@.contains(marks[0]));
        assert(s[0] == marks[0]);
        let d = marks.skip(1);
        assert forall|i: int| 0 <= i < d.len() implies "^~>=v "@.contains(#[trigger] d[i]) by {
            assert(d[i] == marks[i + 1]);
        }
        lemma_strip_marks(d, rest);
        assert(s.skip(1) =~= d + rest);
        assert(s.drop_first() =~= d + rest);
    }
}

proof fn lemma_digits_end(s: Seq<char>, i: int, n: int)
    requires
        0 <= i <= n <= s.len(),
        forall|k: int| i <= k < n ==> is_digit(#[trigger] s[k]),
        n == s.len() || !is_digit(s[n]),
    ensures
        digits_end(s, i) == n,
    decreases n - i,
{
    if i < n {
        assert(is_digit(s[i]));
        lemma_digits_end(s, i + 1, n);
    }
}

/// The version that a range asks for is the first number in it, whatever marks
/// stand before it.
pub proof fn a_range_asks_for_its_first_number(
    marks: Seq<char>,
    digits: Seq<char>,
    rest: Seq<char>,
)
    requires
        forall|i: int| 0 <= i < marks.len() ==> "^~>=v "@.contains(#[trigger] marks[i]),
        digits.len() > 0,
        forall|i: int| 0 <= i < digits.len() ==> is_digit(#[trigger] digits[i]),
        rest.len() == 0 || !is_digit(rest[0]),
    ensures
        major_of(marks + (digits + rest)) == digits,
{
    let s = digits + rest;
    assert(s[0] == digits[0]);
    lemma_strip_marks(marks, s);
    assert forall|k: int| 0 <= k < digits.len() implies is_digit(#[trigger] s[k]) by {
        assert(s[k] == digits[k]);
    }
    if rest.len() > 0 {
        assert(s[digits.len() as int] == rest[0]);
    }
    lemma_digits_end(s, 0, digits.len() as int);
    assert(s.take(digits.len() as int) =~= digits);
}

/// Which stylesheets can hold a theme: one that was read, is not build output
/// and does not look compiled. It declares breakpoints if it mentions their
/// properties, and the first that imports the framework is remembered.
pub proof fn a_theme_is_read_from_the_projects_own_stylesheets(
    st: ThemesRead,
    path: Seq<char>,
    disk: Seq<(Seq<char>, Given)>,
    text: Seq<char>,
)
    requires
        st.left > 0,
        given(disk, path) == Given::Text(text),
    ensures
        ({
            let r = theme_step(st, path, disk);
            let own = {
                &&& (has(path, "dist/"@) || has(path, "build/"@)) == false
                &&& !goes_hidden(path)
                &&& !reads_as_compiled(text)
            };
            let imports = has(text, "@import \"tailwindcss\""@) || has(
                text,
                "@import 'tailwindcss'"@,
            );
            &&& own && has(text, "--breakpoint-"@) ==> r.declaring == st.declaring.push(
                (path, text),
            )
            &&& !own || has(text, "--breakpoint-"@) == false ==> r.declaring == st.declaring
            &&& own && imports && st.importing is None ==> r.importing == Some(path)
            &&& !own || !imports || st.importing is Some ==> r.importing == st.importing
            &&& r.stopped == st.stopped
        }),
{
}

proof fn lemma_configs_kept(
    paths: Seq<Seq<char>>,
    disk: Seq<(Seq<char>, Given)>,
    left: usize,
    declared: Option<Seq<char>>,
    k: int,
    x: Found,
)
    requires
        0 <= k < paths.len(),
        configs_read(paths.take(k + 1), disk, left, declared).out.breakpoints.contains(x),
    ensures
        configs_read(paths, disk, left, declared).out.breakpoints.contains(x),
    decreases paths.len(),
{
    if k + 1 == paths.len() {
        assert(paths.take(k + 1) =~= paths);
    } else {
        let d = paths.drop_last();
        assert(d.take(k + 1) =~= paths.take(k + 1));
        lemma_configs_kept(d, disk, left, declared, k, x);
        let before = configs_read(d, disk, left, declared).out.breakpoints;
        let after = configs_read(paths, disk, left, declared).out.breakpoints;
        assert(after[before.index_of(x)] == x);
    }
}

/// The breakpoints of every config read, and those of the theme, are among what
/// is found; a version that is declared and comes to nothing is warned of.
pub proof fn every_config_is_found(
    files: Seq<Seq<char>>,
    disk: Seq<(Seq<char>, Given)>,
    left: usize,
    k: int,
    x: Found,
)
    ensures
        ({
            let declared = declared_in(
                chosen(files, |p: Seq<char>| named(p, "package.json"@)),
                disk,
                left,
            );
            let paths = config_paths(files);
            let configs = configs_read(paths, disk, declared.left, declared.version);
            let themes = themes_read(
                chosen(files, |p: Seq<char>| has_extension(p, stylesheets())),
                disk,
                configs.left,
            );
            let out = tailwind_outcome(files, disk, left).out;
            &&& 0 <= k < paths.len() ==> {
                let before = configs_read(paths.take(k), disk, declared.left, declared.version);
                let read = read_of(disk, paths[k], before.left);
                read.text matches Some(t) ==> (v3_of(
                    t,
                    paths[k],
                    declared.version,
                ).found.breakpoints.contains(x) ==> out.breakpoints.contains(x))
            }
            &&& theme_found(themes).0 matches Some(f) ==> (f.breakpoints.contains(x)
                ==> out.breakpoints.contains(x))
            &&& out.frameworks.len() == 0 && declared.version is Some ==> out.warnings.len() > 0
                && out.warnings.last().file == "package.json"@
        }),
{
    let declared = declared_in(
        chosen(files, |p: Seq<char>| named(p, "package.json"@)),
        disk,
        left,
    );
    let paths = config_paths(files);
    let configs = configs_read(paths, disk, declared.left, declared.version);
    let themes = themes_read(
        chosen(files, |p: Seq<char>| has_extension(p, stylesheets())),
        disk,
        configs.left,
    );
    let out = tailwind_outcome(files, disk, left).out;
    let first = configs.out.breakpoints;
    if 0 <= k < paths.len() {
        let upto = paths.take(k + 1);
        assert(upto.drop_last() =~= paths.take(k));
        assert(upto.last() == paths[k]);
        let before = configs_read(paths.take(k), disk, declared.left, declared.version);
        let read = read_of(disk, paths[k], before.left);
        if let Some(t) = read.text {
            let more = v3_of(t, paths[k], declared.version).found.breakpoints;
            if more.contains(x) {
                let all = configs_read(upto, disk, declared.left, declared.version).out.breakpoints;
                assert(all[before.out.breakpoints.len() + more.index_of(x)] == x);
                lemma_configs_kept(paths, disk, declared.left, declared.version, k, x);
                assert(first.contains(x));
                lemma_configs_count(paths, disk, declared.left, declared.version);
                assert(out.breakpoints[first.index_of(x)] == x);
            }
        }
    }
    if let Some(f) = theme_found(themes).0 {
        if f.breakpoints.contains(x) {
            assert(out.breakpoints[first.len() + f.breakpoints.index_of(x)] == x);
        }
    }
}

proof fn lemma_configs_count(
    paths: Seq<Seq<char>>,
    disk: Seq<(Seq<char>, Given)>,
    left: usize,
    declared: Option<Seq<char>>,
)
    ensures
        configs_read(paths, disk, left, declared).out.frameworks.len() == 0 ==> configs_read(
            paths,
            disk,
            left,
            declared,
        ).out.breakpoints.len() == 0,
    decreases paths.len(),
{
    if paths.len() > 0 {
        lemma_configs_count(paths.drop_last(), disk, left, declared);
    }
}

/// A Tailwind config is known by its name, in any of four spellings.
pub proof fn a_config_has_one_of_four_names(files: Seq<Seq<char>>, path: Seq<char>)
    ensures
        config_paths(files).contains(path) <==> files.contains(path) && (super::walk::name_of(path)
            == Some("tailwind.config.js"@) || super::walk::name_of(path) == Some(
            "tailwind.config.cjs"@,
        ) || super::walk::name_of(path) == Some("tailwind.config.mjs"@) || super::walk::name_of(
            path,
        ) == Some("tailwind.config.ts"@)),
{
    let i1 = |p: Seq<char>| named(p, "tailwind.config.js"@);
    let i2 = |p: Seq<char>| named(p, "tailwind.config.cjs"@);
    let i3 = |p: Seq<char>| named(p, "tailwind.config.mjs"@);
    let i4 = |p: Seq<char>| named(p, "tailwind.config.ts"@);
    super::walk::the_chosen_are_those_that_hold(files, i1, path);
    super::walk::the_chosen_are_those_that_hold(files, i2, path);
    super::walk::the_chosen_are_those_that_hold(files, i3, path);
    super::walk::the_chosen_are_those_that_hold(files, i4, path);
    let a = chosen(files, i1);
    let b = chosen(files, i2);
    let c = chosen(files, i3);
    let d = chosen(files, i4);
    let r = config_paths(files);
    assert(r == a + b + c + d);
    if a.contains(path) {
        assert(r[a.index_of(path)] == path);
    }
    if b.contains(path) {
        assert(r[a.len() + b.index_of(path)] == path);
    }
    if c.contains(path) {
        assert(r[a.len() + b.len() + c.index_of(path)] == path);
    }
    if d.contains(path) {
        assert(r[a.len() + b.len() + c.len() + d.index_of(path)] == path);
    }
    if r.contains(path) {
        let k = r.index_of(path);
        if k < a.len() {
            assert(a[k] == path);
        } else if k < a.len() + b.len() {
            assert(b[k - a.len()] == path);
        } else if k < a.len() + b.len() + c.len() {
            assert(c[k - a.len() - b.len()] == path);
        } else {
            assert(d[k - a.len() - b.len() - c.len()] == path);
        }
    }
}

} // verus!
