//! What one stylesheet says: its media queries, the variables and maps it
//! defines, and the mixins it calls by a map's keys.

use vstd::prelude::*;
use vstd::string::StringExecFns;
use crate::table::{find_in, keyed, lookup, put, put_in};
use crate::text::{chars_of, lines, lines_of, replace_all, replaced, string_of, texts};
use super::patterns::{find_all, group_or_empty, group_start, group_views, matches_of, Groups};
use super::types::{pairs, PX};
use super::units::{length_of, nearest, parse_length, px_string, px_text, round_px};

verus! {

/// What stands between `@media` and its block.
pub const MEDIA_PATTERN: &'static str = r"@media([^{;]*)\{";

/// A media query and where it starts.
pub open spec fn prelude_of(css: Seq<char>, m: Seq<Option<(usize, usize)>>) -> (Seq<char>, usize) {
    (group_or_empty(css, m, 1), group_start(m, 1))
}

pub open spec fn preludes_from(css: Seq<char>, ms: Seq<Seq<Option<(usize, usize)>>>) -> Seq<
    (Seq<char>, usize),
> {
    ms.map_values(|m: Seq<Option<(usize, usize)>>| prelude_of(css, m))
}

pub open spec fn queries(v: Seq<(String, usize)>) -> Seq<(Seq<char>, usize)> {
    v.map_values(|q: (String, usize)| (q.0@, q.1))
}

/// Every `@media` prelude these matches found, with where it starts.
pub fn read_preludes(css: &str, ms: &Vec<Groups>) -> (r: Vec<(String, usize)>)
    ensures
        queries(r@) == preludes_from(css@, group_views(ms@)),
{
    let chars = chars_of(css);
    let mut out: Vec<(String, usize)> = Vec::new();
    let mut i: usize = 0;
    while i < ms.len()
        invariant
            i <= ms@.len(),
            chars@ == css@,
            queries(out@) =~= preludes_from(css@, group_views(ms@)).take(i as int),
        decreases ms@.len() - i,
    {
        let ghost before = queries(out@);
        let q = ms[i].text_or_empty(chars.as_slice(), 1);
        let at: usize = ms[i].start(1);
        out.push((q, at));
        assert(queries(out@) =~= before.push((q@, at)));
        i += 1;
    }
    out
}

/// Every `@media` prelude in a stylesheet, with where it starts.
pub fn media_preludes(css: &str) -> (r: Vec<(String, usize)>)
    ensures
        queries(r@) == preludes_from(css@, matches_of(MEDIA_PATTERN@, css@)),
{
    read_preludes(css, &find_all(MEDIA_PATTERN, css))
}

/// `$tablet: 768px;` and `$tablet: 48rem;`, at the start of a line.
pub const LENGTH_PATTERN: &'static str =
    r"(?m)^\s*\$([A-Za-z0-9_-]+)\s*:\s*([0-9.]+(?:px|rem|em)?)\s*(?:!default)?\s*;";

/// The table of what these matches define. A name defined twice means what it
/// was last defined as.
pub open spec fn lengths_from(css: Seq<char>, ms: Seq<Seq<Option<(usize, usize)>>>) -> Seq<
    (Seq<char>, Seq<char>),
>
    decreases ms.len(),
{
    if ms.len() == 0 {
        Seq::empty()
    } else {
        put(
            lengths_from(css, ms.drop_last()),
            group_or_empty(css, ms.last(), 1),
            group_or_empty(css, ms.last(), 2),
            true,
        )
    }
}

/// Set a name in a table of texts.
pub fn put_text(t: &mut Vec<(String, String)>, k: String, v: String, over: bool)
    ensures
        pairs(final(t)@) == put(pairs(old(t)@), k@, v@, over),
{
    let ghost view = |s: String| s@;
    let ghost f = |e: (Seq<char>, String)| (e.0, view(e.1));
    proof {
        crate::table::lemma_put_view(keyed(t@), k@, v, over, view);
        assert(keyed(t@).map_values(f) =~= pairs(t@));
    }
    put_in(t, k, v, over);
    assert(keyed(t@).map_values(f) =~= pairs(t@));
}

/// What these matches define.
pub fn read_lengths(css: &str, ms: &Vec<Groups>) -> (r: Vec<(String, String)>)
    ensures
        pairs(r@) == lengths_from(css@, group_views(ms@)),
{
    let chars = chars_of(css);
    let mut out: Vec<(String, String)> = Vec::new();
    let mut i: usize = 0;
    let ghost all = group_views(ms@);
    assert(pairs(out@) =~= lengths_from(css@, all.take(0)));
    while i < ms.len()
        invariant
            i <= ms@.len(),
            chars@ == css@,
            all == group_views(ms@),
            pairs(out@) == lengths_from(css@, all.take(i as int)),
        decreases ms@.len() - i,
    {
        let m = &ms[i];
        proof {
            assert(all.take(i + 1).drop_last() =~= all.take(i as int));
            assert(all.take(i + 1).last() == m@);
        }
        let k = m.text_or_empty(chars.as_slice(), 1);
        let v = m.text_or_empty(chars.as_slice(), 2);
        put_text(&mut out, k, v, true);
        i += 1;
    }
    assert(all.take(all.len() as int) =~= all);
    out
}

/// What a stylesheet defines as a length, by name.
pub open spec fn lengths_in(css: Seq<char>) -> Seq<(Seq<char>, Seq<char>)> {
    lengths_from(css, matches_of(LENGTH_PATTERN@, css))
}

/// `$tablet: 768px;` and `$tablet: 48rem;`, defined at the top level of the
/// same file. Indirection through an import is where this gives up.
pub fn scss_lengths(css: &str) -> (r: Vec<(String, String)>)
    ensures
        pairs(r@) == lengths_in(css@),
{
    read_lengths(css, &find_all(LENGTH_PATTERN, css))
}

/// `$breakpoints: (sm: 640px, md: 768px);`
pub const MAP_PATTERN: &'static str =
    r"(?s)\$([A-Za-z0-9_-]*(?:breakpoint|screen|bp|mq)[A-Za-z0-9_-]*)\s*:\s*\(([^)]*)\)";

/// One `name: length` of such a map.
pub const PAIR_PATTERN: &'static str =
    r#"['"]?([A-Za-z0-9_-]+)['"]?\s*:\s*([0-9.]+(?:px|rem|em)?)"#;

/// A count plus one, as far as a `usize` goes.
pub open spec fn one_more(n: nat) -> usize {
    if n >= usize::MAX {
        usize::MAX
    } else {
        (n + 1) as usize
    }
}

/// The line, counted from one, that follows the whole lines of `before`.
pub open spec fn line_after(before: Seq<char>) -> usize {
    one_more(lines(before).len())
}

/// The entries that matches of [`PAIR_PATTERN`] in `body` name, all of them on
/// `line`. A value that is no length names nothing.
pub open spec fn pair_entries(
    body: Seq<char>,
    ms: Seq<Seq<Option<(usize, usize)>>>,
    line: usize,
) -> Seq<(Seq<char>, i64, usize)>
    decreases ms.len(),
{
    if ms.len() == 0 {
        Seq::empty()
    } else {
        let before = pair_entries(body, ms.drop_last(), line);
        match length_of(group_or_empty(body, ms.last(), 2)) {
            Some(px) => before.push(
                (group_or_empty(body, ms.last(), 1), nearest(px) as i64, line),
            ),
            None => before,
        }
    }
}

/// The entries of every map that `ms` found.
pub open spec fn map_entries_from(css: Seq<char>, ms: Seq<Seq<Option<(usize, usize)>>>) -> Seq<
    (Seq<char>, i64, usize),
>
    decreases ms.len(),
{
    if ms.len() == 0 {
        Seq::empty()
    } else {
        let body = group_or_empty(css, ms.last(), 2);
        let start = group_start(ms.last(), 0) as int;
        map_entries_from(css, ms.drop_last()) + pair_entries(
            body,
            matches_of(PAIR_PATTERN@, body),
            line_after(css.take(if start <= css.len() {
                start
            } else {
                css.len() as int
            })),
        )
    }
}

pub open spec fn entry_views(v: Seq<(String, i64, usize)>) -> Seq<(Seq<char>, i64, usize)> {
    v.map_values(|e: (String, i64, usize)| (e.0@, e.1, e.2))
}

/// A width a map entry can have.
pub open spec fn entries_in_reach(v: Seq<(String, i64, usize)>) -> bool {
    forall|i: int| 0 <= i < v.len() ==> 0 <= (#[trigger] v[i]).1 <= 10_000 * PX
}

/// The entries these matches of [`PAIR_PATTERN`] in `body` name.
pub fn read_pairs(body: &str, ms: &Vec<Groups>, line: usize) -> (r: Vec<(String, i64, usize)>)
    ensures
        entry_views(r@) == pair_entries(body@, group_views(ms@), line),
        entries_in_reach(r@),
{
    let chars = chars_of(body);
    let mut out: Vec<(String, i64, usize)> = Vec::new();
    let mut i: usize = 0;
    let ghost all = group_views(ms@);
    assert(entry_views(out@) =~= pair_entries(body@, all.take(0), line));
    while i < ms.len()
        invariant
            i <= ms@.len(),
            chars@ == body@,
            all == group_views(ms@),
            entries_in_reach(out@),
            entry_views(out@) == pair_entries(body@, all.take(i as int), line),
        decreases ms@.len() - i,
    {
        let m = &ms[i];
        let ghost before = entry_views(out@);
        proof {
            assert(all.take(i + 1).drop_last() =~= all.take(i as int));
            assert(all.take(i + 1).last() == m@);
        }
        if let Some(px) = parse_length(m.text_or_empty(chars.as_slice(), 2).as_str()) {
            let k = m.text_or_empty(chars.as_slice(), 1);
            let w: i64 = round_px(px);
            out.push((k, w, line));
            assert(entry_views(out@) =~= before.push((k@, w, line)));
        }
        i += 1;
    }
    assert(all.take(all.len() as int) =~= all);
    out
}

fn lines_before(css: &[char], at: usize) -> (r: usize)
    ensures
        r == lines(css@.take(if at <= css@.len() {
            at as int
        } else {
            css@.len() as int
        })).len(),
{
    let end: usize = if at <= css.len() {
        at
    } else {
        css.len()
    };
    let before = vstd::slice::slice_subrange(css, 0, end);
    assert(before@ =~= css@.take(end as int));
    let all = lines_of(before);
    assert(texts(all@).len() == all@.len());
    all.len()
}

/// How many lines, or parts of one, stand before `at`.
pub fn line_count_before(css: &str, at: usize) -> (r: usize)
    ensures
        r == lines(css@.take(if at <= css@.len() {
            at as int
        } else {
            css@.len() as int
        })).len(),
{
    let chars = chars_of(css);
    lines_before(chars.as_slice(), at)
}

/// The entries of every map these matches of [`MAP_PATTERN`] found.
pub fn read_map_entries(css: &str, ms: &Vec<Groups>) -> (r: Vec<(String, i64, usize)>)
    ensures
        entry_views(r@) == map_entries_from(css@, group_views(ms@)),
        entries_in_reach(r@),
{
    let chars = chars_of(css);
    let mut out: Vec<(String, i64, usize)> = Vec::new();
    let mut i: usize = 0;
    let ghost all = group_views(ms@);
    assert(entry_views(out@) =~= map_entries_from(css@, all.take(0)));
    while i < ms.len()
        invariant
            i <= ms@.len(),
            chars@ == css@,
            all == group_views(ms@),
            entries_in_reach(out@),
            entry_views(out@) == map_entries_from(css@, all.take(i as int)),
        decreases ms@.len() - i,
    {
        let m = &ms[i];
        let ghost before = entry_views(out@);
        proof {
            assert(all.take(i + 1).drop_last() =~= all.take(i as int));
            assert(all.take(i + 1).last() == m@);
        }
        let n: usize = lines_before(chars.as_slice(), m.start(0));
        let line: usize = if n == usize::MAX {
            n
        } else {
            n + 1
        };
        let body = m.text_or_empty(chars.as_slice(), 2);
        let mut more = read_pairs(body.as_str(), &find_all(PAIR_PATTERN, body.as_str()), line);
        let ghost tail = more@;
        let ghost head = out@;
        out.append(&mut more);
        assert(entry_views(out@) =~= before + entry_views(tail));
        assert forall|k: int| 0 <= k < out@.len() implies 0 <= (#[trigger] out@[k]).1 <= 10_000
            * PX by {
            if k < head.len() {
                assert(out@[k] == head[k]);
            } else {
                assert(out@[k] == tail[k - head.len()]);
            }
        }
        i += 1;
    }
    assert(all.take(all.len() as int) =~= all);
    out
}

/// The entries of every breakpoint map in a stylesheet.
pub open spec fn map_entries_in(css: Seq<char>) -> Seq<(Seq<char>, i64, usize)> {
    map_entries_from(css, matches_of(MAP_PATTERN@, css))
}

/// `$breakpoints: (sm: 640px, md: 768px);` as its names, its widths and the
/// line it starts on, counted from one the way an editor does.
pub fn scss_map_entries(css: &str) -> (r: Vec<(String, i64, usize)>)
    ensures
        entry_views(r@) == map_entries_in(css@),
        entries_in_reach(r@),
{
    read_map_entries(css, &find_all(MAP_PATTERN, css))
}

/// A mixin called with one argument, such as `mq(md)`.
pub const MIXIN_PATTERN: &'static str =
    "@\x69nclude\\s+[A-Za-z0-9_.-]+\\s*\\(\\s*['\"]?([A-Za-z0-9_-]+)['\"]?\\s*\\)";

pub open spec fn keys_from(css: Seq<char>, ms: Seq<Seq<Option<(usize, usize)>>>) -> Seq<Seq<char>> {
    ms.map_values(|m: Seq<Option<(usize, usize)>>| group_or_empty(css, m, 1))
}

/// The keys these matches of [`MIXIN_PATTERN`] found.
pub fn read_keys(css: &str, ms: &Vec<Groups>) -> (r: Vec<String>)
    ensures
        texts(r@) == keys_from(css@, group_views(ms@)),
{
    let chars = chars_of(css);
    let mut out: Vec<String> = Vec::new();
    let mut i: usize = 0;
    while i < ms.len()
        invariant
            i <= ms@.len(),
            chars@ == css@,
            texts(out@) =~= keys_from(css@, group_views(ms@)).take(i as int),
        decreases ms@.len() - i,
    {
        let ghost before = texts(out@);
        let k = ms[i].text_or_empty(chars.as_slice(), 1);
        out.push(k);
        assert(texts(out@) =~= before.push(k@));
        i += 1;
    }
    out
}

/// Every key a mixin was called with, such as the `md` in
/// `media-breakpoint-up(md)`.
///
/// The caller decides whether a key means anything, by looking it up in the
/// project's own breakpoint map. A key that is not in the map is somebody
/// else's mixin and is ignored.
pub fn mixin_keys(css: &str) -> (r: Vec<String>)
    ensures
        texts(r@) == keys_from(css@, matches_of(MIXIN_PATTERN@, css@)),
{
    read_keys(css, &find_all(MIXIN_PATTERN, css))
}

/// `map-get($breakpoints, md)` and `map.get($breakpoints, md)`.
pub const MAP_GET_PATTERN: &'static str =
    r#"map[-.]get\s*\(\s*\$[A-Za-z0-9_-]+\s*,\s*['"]?([A-Za-z0-9_-]+)['"]?\s*\)"#;

/// `query` with each map lookup that `ms` found in it, and that `maps` knows,
/// replaced by the width it names.
pub open spec fn maps_resolved(
    query: Seq<char>,
    ms: Seq<Seq<Option<(usize, usize)>>>,
    maps: Seq<(Seq<char>, i64)>,
) -> Seq<char>
    decreases ms.len(),
{
    if ms.len() == 0 {
        query
    } else {
        let before = maps_resolved(query, ms.drop_last(), maps);
        let whole = group_or_empty(query, ms.last(), 0);
        match lookup(maps, group_or_empty(query, ms.last(), 1)) {
            Some(px) => if whole.len() > 0 {
                replaced(before, whole, px_text(px as int) + "px"@)
            } else {
                before
            },
            None => before,
        }
    }
}

/// Replace the map lookups these matches of [`MAP_GET_PATTERN`] found.
pub fn resolve_maps(query: &str, ms: &Vec<Groups>, maps: &Vec<(String, i64)>) -> (r: String)
    ensures
        r@ == maps_resolved(query@, group_views(ms@), keyed(maps@)),
{
    let q = chars_of(query);
    let mut out = chars_of(query);
    let mut i: usize = 0;
    let ghost all = group_views(ms@);
    assert(out@ == maps_resolved(query@, all.take(0), keyed(maps@)));
    while i < ms.len()
        invariant
            i <= ms@.len(),
            q@ == query@,
            all == group_views(ms@),
            out@ == maps_resolved(query@, all.take(i as int), keyed(maps@)),
        decreases ms@.len() - i,
    {
        let m = &ms[i];
        proof {
            assert(all.take(i + 1).drop_last() =~= all.take(i as int));
            assert(all.take(i + 1).last() == m@);
        }
        let key = m.text_or_empty(q.as_slice(), 1);
        if let Some(k) = find_in(maps, key.as_str()) {
            let whole = chars_of(m.text_or_empty(q.as_slice(), 0).as_str());
            if whole.len() > 0 {
                let mut with = px_string(maps[k].1);
                with.append("px");
                let with = chars_of(with.as_str());
                out = replace_all(out.as_slice(), whole.as_slice(), with.as_slice());
            }
        }
        i += 1;
    }
    assert(all.take(all.len() as int) =~= all);
    string_of(out.as_slice())
}

/// Resolve `map-get($breakpoints, md)` and `map.get($breakpoints, md)`, which
/// is how a project with a breakpoint map actually consumes it.
pub fn substitute_maps(query: &str, maps: &Vec<(String, i64)>) -> (r: String)
    ensures
        r@ == maps_resolved(query@, matches_of(MAP_GET_PATTERN@, query@), keyed(maps@)),
{
    resolve_maps(query, &find_all(MAP_GET_PATTERN, query), maps)
}

/// `query` with the variables of `vars` replaced by what they stand for, one
/// after another in the order of their names.
pub open spec fn substituted(query: Seq<char>, vars: Seq<(Seq<char>, Seq<char>)>) -> Seq<char>
    decreases vars.len(),
{
    if vars.len() == 0 {
        query
    } else {
        let before = substituted(query, vars.drop_last());
        let name = "$"@ + vars.last().0;
        replaced(
            replaced(before, name, vars.last().1),
            "#{"@ + name + "}"@,
            vars.last().1,
        )
    }
}

pub fn substitute(query: &str, variables: &Vec<(String, String)>) -> (r: String)
    ensures
        r@ == substituted(query@, pairs(variables@)),
{
    let mut out = chars_of(query);
    let mut i: usize = 0;
    let ghost all = pairs(variables@);
    assert(out@ == substituted(query@, all.take(0)));
    while i < variables.len()
        invariant
            i <= variables@.len(),
            all == pairs(variables@),
            out@ == substituted(query@, all.take(i as int)),
        decreases variables@.len() - i,
    {
        let v = &variables[i];
        proof {
            assert(all.take(i + 1).drop_last() =~= all.take(i as int));
            assert(all.take(i + 1).last() == (v.0@, v.1@));
            reveal_strlit("$");
            reveal_strlit("#{");
        }
        let mut name = "$".to_owned();
        name.append(v.0.as_str());
        let value = chars_of(v.1.as_str());
        let plain = chars_of(name.as_str());
        out = replace_all(out.as_slice(), plain.as_slice(), value.as_slice());
        let mut wrapped = "#{".to_owned();
        wrapped.append(name.as_str());
        wrapped.append("}");
        let wrapped = chars_of(wrapped.as_str());
        out = replace_all(out.as_slice(), wrapped.as_slice(), value.as_slice());
        i += 1;
    }
    assert(all.take(all.len() as int) =~= all);
    string_of(out.as_slice())
}

/// Every query is one prelude, in the order they stand.
pub proof fn every_query_has_its_prelude(
    css: Seq<char>,
    ms: Seq<Seq<Option<(usize, usize)>>>,
    k: int,
)
    requires
        0 <= k < ms.len(),
    ensures
        preludes_from(css, ms).len() == ms.len(),
        preludes_from(css, ms)[k].0 == group_or_empty(css, ms[k], 1),
        preludes_from(css, ms)[k].1 == group_start(ms[k], 1),
        keys_from(css, ms).len() == ms.len(),
        keys_from(css, ms)[k] == group_or_empty(css, ms[k], 1),
{
}

/// A variable is worth what it was last set to.
pub proof fn the_last_setting_of_a_variable_counts(
    css: Seq<char>,
    ms: Seq<Seq<Option<(usize, usize)>>>,
    k: int,
)
    requires
        0 <= k < ms.len(),
        forall|j: int|
            k < j < ms.len() ==> group_or_empty(css, #[trigger] ms[j], 1) != group_or_empty(
                css,
                ms[k],
                1,
            ),
    ensures
        lookup(lengths_from(css, ms), group_or_empty(css, ms[k], 1)) == Some(
            group_or_empty(css, ms[k], 2),
        ),
    decreases ms.len(),
{
    let d = ms.drop_last();
    crate::table::lookup_gives_what_was_put(
        lengths_from(css, d),
        group_or_empty(css, ms.last(), 1),
        group_or_empty(css, ms.last(), 2),
        true,
        group_or_empty(css, ms[k], 1),
    );
    if k < d.len() {
        assert(d[k] == ms[k]);
        assert forall|j: int| k < j < d.len() implies group_or_empty(css, #[trigger] d[j], 1)
            != group_or_empty(css, d[k], 1) by {
            assert(d[j] == ms[j]);
        }
        the_last_setting_of_a_variable_counts(css, d, k);
        assert(ms.last() == ms[ms.len() - 1]);
    }
}

proof fn lemma_pair_read(
    body: Seq<char>,
    ms: Seq<Seq<Option<(usize, usize)>>>,
    line: usize,
    k: int,
)
    requires
        0 <= k < ms.len(),
        length_of(group_or_empty(body, ms[k], 2)) is Some,
    ensures
        pair_entries(body, ms, line).contains(
            (
                group_or_empty(body, ms[k], 1),
                nearest(length_of(group_or_empty(body, ms[k], 2))->0) as i64,
                line,
            ),
        ),
    decreases ms.len(),
{
    let d = ms.drop_last();
    let before = pair_entries(body, d, line);
    let after = pair_entries(body, ms, line);
    let x = (
        group_or_empty(body, ms[k], 1),
        nearest(length_of(group_or_empty(body, ms[k], 2))->0) as i64,
        line,
    );
    if k < d.len() {
        assert(d[k] == ms[k]);
        lemma_pair_read(body, d, line, k);
        assert(after[before.index_of(x)] == x);
    } else {
        assert(after[before.len() as int] == x);
    }
}

/// Every entry of every map whose value is a length is a width under its key, at
/// the line where the map begins.
pub proof fn every_entry_of_a_map_is_read(
    css: Seq<char>,
    ms: Seq<Seq<Option<(usize, usize)>>>,
    k: int,
    j: int,
)
    requires
        0 <= k < ms.len(),
        ({
            let body = group_or_empty(css, ms[k], 2);
            let pairs = matches_of(PAIR_PATTERN@, body);
            0 <= j < pairs.len() && length_of(group_or_empty(body, pairs[j], 2)) is Some
        }),
        group_start(ms[k], 0) <= css.len(),
    ensures
        ({
            let body = group_or_empty(css, ms[k], 2);
            let pair = matches_of(PAIR_PATTERN@, body)[j];
            map_entries_from(css, ms).contains(
                (
                    group_or_empty(body, pair, 1),
                    nearest(length_of(group_or_empty(body, pair, 2))->0) as i64,
                    line_after(css.take(group_start(ms[k], 0) as int)),
                ),
            )
        }),
    decreases ms.len(),
{
    let body = group_or_empty(css, ms[k], 2);
    let pairs = matches_of(PAIR_PATTERN@, body);
    let line = line_after(css.take(group_start(ms[k], 0) as int));
    let x = (
        group_or_empty(body, pairs[j], 1),
        nearest(length_of(group_or_empty(body, pairs[j], 2))->0) as i64,
        line,
    );
    let d = ms.drop_last();
    let before = map_entries_from(css, d);
    let after = map_entries_from(css, ms);
    if k < d.len() {
        assert(d[k] == ms[k]);
        every_entry_of_a_map_is_read(css, d, k, j);
        assert(after[before.index_of(x)] == x);
    } else {
        lemma_pair_read(body, pairs, line, j);
        let here = pair_entries(body, pairs, line);
        assert(after[before.len() + here.index_of(x)] == x);
    }
}

/// A query in which no variable stands is what it was.
pub proof fn a_query_without_variables_stays(
    query: Seq<char>,
    vars: Seq<(Seq<char>, Seq<char>)>,
    maps: Seq<(Seq<char>, i64)>,
)
    requires
        !query.contains('$'),
    ensures
        substituted(query, vars) == query,
        maps_resolved(query, Seq::empty(), maps) == query,
    decreases vars.len(),
{
    if vars.len() > 0 {
        reveal_strlit("$");
        reveal_strlit("#{");
        reveal_strlit("}");
        a_query_without_variables_stays(query, vars.drop_last(), maps);
        let name = "$"@ + vars.last().0;
        let braced = "#{"@ + name + "}"@;
        assert(name[0] == '$');
        assert(braced[2] == '$');
        lemma_not_there(query, name, 0);
        lemma_not_there(query, braced, 2);
    }
}

proof fn lemma_not_there(s: Seq<char>, pat: Seq<char>, i: int)
    requires
        0 <= i < pat.len(),
        !s.contains(pat[i]),
    ensures
        forall|with: Seq<char>| #[trigger] replaced(s, pat, with) == s,
{
    crate::text::lemma_first_match(s, pat, 0);
    if crate::text::first_match(s, pat, 0) is Some {
        let k = crate::text::first_match(s, pat, 0)->0;
        assert(s.subrange(k, k + pat.len())[i] == pat[i]);
        assert(s[k + i] == pat[i]);
    }
    assert(s.skip(0) =~= s);
}

/// A variable on its own becomes what it was set to, in either way of writing it.
pub proof fn a_variable_becomes_its_value(name: Seq<char>, value: Seq<char>)
    requires
        !value.contains('$'),
    ensures
        substituted("$"@ + name, seq![(name, value)]) == value,
{
    reveal_strlit("$");
    reveal_strlit("#{");
    reveal_strlit("}");
    let vars = seq![(name, value)];
    let pat = "$"@ + name;
    let braced = "#{"@ + pat + "}"@;
    assert(vars.drop_last() =~= Seq::empty());
    assert(substituted(pat, vars.drop_last()) == pat);
    assert(pat.subrange(0, pat.len() as int) =~= pat);
    assert(crate::text::first_match(pat, pat, 0) == Some(0int));
    assert(crate::text::first_match(pat, pat, pat.len() as int) is None);
    assert(pat.skip(pat.len() as int) =~= Seq::empty());
    assert(replaced(pat, pat, value) =~= value) by {
        reveal_with_fuel(crate::text::replaced_from, 3);
        assert(pat.subrange(0, 0) =~= Seq::empty());
        assert(crate::text::replaced_from(pat, pat, value, pat.len() as int) =~= Seq::empty());
    }
    assert(braced[2] == '$');
    lemma_not_there(value, braced, 2);
}

} // verus!
