//! Raw media queries in the project's own stylesheets.
//!
//! Real projects have print queries, `prefers-reduced-motion`, retina queries
//! and dozens of one-off tweaks. A naive scan turns all of that into panels and
//! destroys trust in the first thirty seconds, so this detector filters to
//! width conditions only, collapses near neighbours, and ranks what is left by
//! how many files use it.

use vstd::prelude::*;
use vstd::string::StringExecFns;
use crate::table::{find_in, keyed, lookup, put, put_in};
use crate::text::{
    begins, begins_with, chars_of, contains_str, count_matches, decimal, has, lines, lines_of,
    listed, number_string, occurrences_from, opt_view, push_slice, same, string_of, texts, trim_str,
    trimmed,
};
use super::cluster::{
    absorbed_in_all, all_in_reach, cluster, clustered, groups_of, lemma_sighted_in_reach, seens,
    sight, sighted, Occurrence, Seen, Sight, Sighting,
};
use super::comments::{blank_but_newlines, blank_text, blanked, blanked_range, Dialect};
use super::log::{Event, ScanLog};
use super::patterns::{find_all, group_views, hi, lo, matches_of, well_placed, Groups};
use super::stylesheet::{
    entries_in_reach, entry_views, keys_from, lengths_in, line_count_before, map_entries_in,
    maps_resolved, media_preludes, mixin_keys, preludes_from, put_text, queries, scss_lengths,
    scss_map_entries, substitute, substitute_maps, substituted, MAP_GET_PATTERN, MEDIA_PATTERN,
    MIXIN_PATTERN,
};
use super::types::{nothing_found, pairs, DetectorOutput, Edge, OutputFound, PX};
use super::units::{
    hits_in, in_reach, overrides_root_font_size, root_size_from, widths_in_query, WidthHit,
    ROOT_SIZE_PATTERN,
};
use super::walk::{
    byte_len, chosen, extension, extension_of, file_stem, given, has_extension, parts, parts_of,
    read_of, stem_of, Disk, FileIndex, Given, ReadBudget,
};

verus! {

/// Every extension this detector treats as a stylesheet.
///
/// `pcss` and `postcss` are the convention in PostCSS and Tailwind setups, and
/// `less` is what a lot of older Drupal and WordPress themes are written in.
pub open spec fn stylesheets() -> Seq<Seq<char>> {
    seq!["css"@, "scss"@, "sass"@, "pcss"@, "postcss"@, "less"@]
}

/// Formats that keep their styles in a `<style>` block inside something else.
pub open spec fn components() -> Seq<Seq<char>> {
    seq!["vue"@, "svelte"@, "astro"@]
}

/// Everything the CSS detector will open.
pub open spec fn readable() -> Seq<Seq<char>> {
    stylesheets() + components()
}

pub fn stylesheet_extensions() -> (r: Vec<String>)
    ensures
        texts(r@) == stylesheets(),
{
    let mut out: Vec<String> = Vec::new();
    out.push("css".to_owned());
    out.push("scss".to_owned());
    out.push("sass".to_owned());
    out.push("pcss".to_owned());
    out.push("postcss".to_owned());
    out.push("less".to_owned());
    assert(texts(out@) =~= stylesheets());
    out
}

/// Everything the CSS detector will open.
pub fn readable_extensions() -> (r: Vec<String>)
    ensures
        texts(r@) == readable(),
{
    let mut out = stylesheet_extensions();
    let ghost before = texts(out@);
    out.push("vue".to_owned());
    out.push("svelte".to_owned());
    out.push("astro".to_owned());
    assert(texts(out@) =~= before + components());
    out
}

/// Blank out comments, keeping every other character in place.
///
/// A query inside a comment is not a query, and counting one inflates the file
/// count, which is the only confidence signal the CSS side has. Offsets and
/// newlines are preserved so reported line numbers stay true.
///
/// `//` starts a comment in SCSS, Sass and Less but not in plain CSS, and it
/// also appears in the middle of an unquoted `url(http://...)`. So a line
/// comment is only recognised when the two slashes do not follow a colon,
/// which is what tells a protocol from a comment.
pub fn blank_comments(css: &str) -> (r: String)
    ensures
        r@ == blanked(css@, Dialect::Style),
{
    blank_text(css, Dialect::Style)
}

/// A `<style>` block and what is in it.
pub const STYLE_PATTERN: &'static str = r"(?is)<style[^>]*>(.*?)</style>";

/// `text` from `at` on with everything outside the blocks that `ms` found
/// blanked.
pub open spec fn blocks_from(
    text: Seq<char>,
    ms: Seq<Seq<Option<(usize, usize)>>>,
    k: int,
    at: int,
) -> Seq<char>
    decreases ms.len() - k,
{
    if k >= ms.len() {
        blanked_range(text, at, text.len() as int)
    } else if ms[k].len() > 1 && ms[k][1] is Some {
        blanked_range(text, at, lo(ms[k][1]) as int) + text.subrange(
            lo(ms[k][1]) as int,
            hi(ms[k][1]) as int,
        ) + blocks_from(text, ms, k + 1, hi(ms[k][1]) as int)
    } else {
        blocks_from(text, ms, k + 1, at)
    }
}

/// What is read of a file: the whole of a stylesheet, and of a component only
/// what is inside `<style>`.
pub open spec fn style_part(rel: Seq<char>, text: Seq<char>) -> Seq<char> {
    if has_extension(rel, components()) {
        blocks_from(text, matches_of(STYLE_PATTERN@, text), 0, 0)
    } else {
        text
    }
}

/// A place to read on from, after the matches before `k`.
pub open spec fn reads_on(ms: Seq<Seq<Option<(usize, usize)>>>, k: int, at: int) -> bool {
    forall|j: int| k <= j < ms.len() ==> at <= lo(#[trigger] ms[j][0])
}

proof fn lemma_block_span(text: Seq<char>, ms: Seq<Seq<Option<(usize, usize)>>>, k: int, at: int)
    requires
        well_placed(ms, text.len()),
        0 <= k < ms.len(),
        0 <= at <= text.len(),
        reads_on(ms, k, at),
        ms[k].len() > 1 && ms[k][1] is Some,
    ensures
        at <= lo(ms[k][1]) <= hi(ms[k][1]) <= text.len(),
        reads_on(ms, k + 1, hi(ms[k][1]) as int),
{
    assert(super::patterns::lies_in(ms[k][1], text.len()));
    assert(at <= lo(ms[k][0]));
    assert forall|j: int| k + 1 <= j < ms.len() implies hi(ms[k][1]) <= lo(
        #[trigger] ms[j][0],
    ) by {
        assert(ms[j].len() > 0 && ms[k].len() > 0);
    }
}

/// Taking the style blocks out of a component moves nothing: every character
/// is where it was or is blank, and no newline comes or goes, so a line number
/// in the result is the line number in the file.
pub proof fn style_blocks_keep_their_place(
    text: Seq<char>,
    ms: Seq<Seq<Option<(usize, usize)>>>,
    k: int,
    at: int,
)
    requires
        well_placed(ms, text.len()),
        0 <= k <= ms.len(),
        0 <= at <= text.len(),
        reads_on(ms, k, at),
    ensures
        blocks_from(text, ms, k, at).len() == text.len() - at,
        forall|i: int|
            0 <= i < text.len() - at ==> {
                let c = #[trigger] blocks_from(text, ms, k, at)[i];
                c == text[at + i] || (c == ' ' && text[at + i] != '\n')
            },
    decreases ms.len() - k,
{
    if k >= ms.len() {
    } else if ms[k].len() > 1 && ms[k][1] is Some {
        lemma_block_span(text, ms, k, at);
        let a = lo(ms[k][1]) as int;
        let b = hi(ms[k][1]) as int;
        style_blocks_keep_their_place(text, ms, k + 1, b);
        let r = blocks_from(text, ms, k, at);
        let rest = blocks_from(text, ms, k + 1, b);
        assert forall|i: int| 0 <= i < text.len() - at implies ({
            let c = #[trigger] r[i];
            c == text[at + i] || (c == ' ' && text[at + i] != '\n')
        }) by {
            if i >= b - at {
                assert(r[i] == rest[i - (b - at)]);
            }
        }
    } else {
        assert forall|j: int| k + 1 <= j < ms.len() implies at <= lo(#[trigger] ms[j][0]) by {}
        style_blocks_keep_their_place(text, ms, k + 1, at);
    }
}

/// The blocks that `ms` found in `text`, with everything else blanked.
pub fn style_blocks(text: &str, ms: &Vec<Groups>) -> (r: String)
    requires
        well_placed(group_views(ms@), text@.len()),
    ensures
        r@ == blocks_from(text@, group_views(ms@), 0, 0),
{
    let t = chars_of(text);
    let ghost views = group_views(ms@);
    let mut out: Vec<char> = Vec::new();
    let mut at: usize = 0;
    let mut k: usize = 0;
    assert(out@ + blocks_from(text@, views, 0, 0) =~= blocks_from(text@, views, 0, 0));
    while k < ms.len()
        invariant
            k <= ms@.len(),
            t@ == text@,
            at <= t@.len(),
            views == group_views(ms@),
            well_placed(views, text@.len()),
            reads_on(views, k as int, at as int),
            out@ + blocks_from(text@, views, k as int, at as int) == blocks_from(
                text@,
                views,
                0,
                0,
            ),
        decreases ms@.len() - k,
    {
        assert(views[k as int] == ms@[k as int]@);
        match ms[k].span(1) {
            Some((a, b)) => {
                proof {
                    lemma_block_span(text@, views, k as int, at as int);
                }
                let ghost before = out@;
                push_blank(&mut out, t.as_slice(), at, a);
                push_slice(&mut out, t.as_slice(), a, b);
                assert(before + blocks_from(text@, views, k as int, at as int) =~= out@
                    + blocks_from(text@, views, k + 1, b as int));
                at = b;
            },
            None => {},
        }
        k += 1;
    }
    let ghost before = out@;
    push_blank(&mut out, t.as_slice(), at, t.len());
    assert(before + blocks_from(text@, views, k as int, at as int) =~= out@);
    string_of(out.as_slice())
}

fn push_blank(out: &mut Vec<char>, s: &[char], from: usize, to: usize)
    requires
        from <= to <= s@.len(),
    ensures
        final(out)@ == old(out)@ + blanked_range(s@, from as int, to as int),
{
    let ghost start = out@;
    let mut i: usize = from;
    assert(out@ =~= start + blanked_range(s@, from as int, from as int));
    while i < to
        invariant
            from <= i <= to <= s@.len(),
            out@ == start + blanked_range(s@, from as int, i as int),
        decreases to - i,
    {
        out.push(blank_but_newlines(s[i]));
        assert(out@ =~= start + blanked_range(s@, from as int, i + 1));
        i += 1;
    }
}

/// The CSS out of a single-file component, or the whole text for a plain
/// stylesheet.
///
/// A component's template is markup, not CSS, and feeding it to the media
/// query parser would be noise at best. Only what is inside `<style>` counts.
/// Everything outside it becomes blank rather than being cut out, so a line
/// number in the result is the line number in the file.
pub fn stylesheet_part(rel: &str, text: &str) -> (r: String)
    ensures
        r@ == style_part(rel@, text@),
{
    let mut exts: Vec<String> = Vec::new();
    exts.push("vue".to_owned());
    exts.push("svelte".to_owned());
    exts.push("astro".to_owned());
    assert(texts(exts@) =~= components());
    let is_component = match extension(rel) {
        Some(e) => listed(&exts, e.as_str()),
        None => false,
    };
    if !is_component {
        return text.to_owned();
    }
    style_blocks(text, &find_all(STYLE_PATTERN, text))
}

/// The scan sheet shows at most this many "also found" widths.
pub const MAX_REPORTED: usize = 10;

/// Whether a path names something that is output, vendored or minified.
/// Compiled output and vendored code are not the project's own decisions, and
/// `output.css` is what a Tailwind CLI build is called by convention.
pub open spec fn names_output(file: Seq<char>) -> bool {
    ||| has(file, "dist/"@)
    ||| has(file, "build/"@)
    ||| has(file, "vendor/"@)
    ||| has(file, "node_modules/"@)
    ||| has(file, ".min.css"@)
    ||| has(file, "-min.css"@)
    ||| has(file, "bootstrap.css"@)
    ||| has(file, "normalize.css"@)
    ||| has(file, "core/assets/"@)
    ||| has(file, "core/misc/"@)
    ||| has(file, "core/themes/"@)
    ||| has(file, "output.css"@)
}

pub fn is_ignored_by_name(file: &str) -> (r: bool)
    ensures
        r == names_output(file@),
{
    contains_str(file, "dist/") || contains_str(file, "build/") || contains_str(file, "vendor/")
        || contains_str(file, "node_modules/") || contains_str(file, ".min.css") || contains_str(
        file,
        "-min.css",
    ) || contains_str(file, "bootstrap.css") || contains_str(file, "normalize.css")
        || contains_str(file, "core/assets/") || contains_str(file, "core/misc/") || contains_str(
        file,
        "core/themes/",
    ) || contains_str(file, "output.css")
}

/// Whether a stylesheet reads as a compiled bundle.
///
/// Some tells do not depend on the file being minified: a framework's banner, a
/// source map, and more of Tailwind's own custom properties than a person would
/// mention. Otherwise the tell is the shape of the file. Hand-written
/// stylesheets run 20 to 40 bytes per line and minified bundles run tens of
/// thousands; the threshold sits far from both, and a small file is exempt
/// whatever its shape.
pub open spec fn reads_as_compiled(text: Seq<char>) -> bool {
    ||| has(text, "/*! tailwindcss v"@)
    ||| has(text, "sourceMappingURL="@)
    ||| occurrences_from(text, "--tw-"@, 0) > 20
    ||| byte_len(text) >= 20_000 && byte_len(text) / (if lines(text).len() == 0 {
        1usize
    } else {
        lines(text).len() as usize
    }) > 400
}

pub fn looks_compiled(text: &str) -> (r: bool)
    ensures
        r == reads_as_compiled(text@),
{
    if contains_str(text, "/*! tailwindcss v") || contains_str(text, "sourceMappingURL=") {
        return true;
    }
    let chars = chars_of(text);
    let own = chars_of("--tw-");
    proof {
        reveal_strlit("--tw-");
    }
    if count_matches(chars.as_slice(), own.as_slice()) > 20 {
        return true;
    }
    let bytes: usize = text.len();
    if bytes < 20_000 {
        return false;
    }
    let all = lines_of(chars.as_slice());
    assert(lines(text@).len() == all@.len());
    let n: usize = all.len();
    let n: usize = if n == 0 {
        1
    } else {
        n
    };
    bytes / n > 400
}

/// Whether an extension is one that stylesheets are compiled from.
pub open spec fn is_source_extension(e: Seq<char>) -> bool {
    e == "scss"@ || e == "sass"@ || e == "less"@ || e == "pcss"@ || e == "postcss"@
}

/// Whether `other` is what `rel` was plainly built from: the same name, in the
/// same directory, in a language that compiles to CSS.
pub open spec fn is_source_of(other: Seq<char>, rel: Seq<char>) -> bool {
    &&& stem_of(other) is Some
    &&& stem_of(other) == stem_of(rel)
    &&& extension_of(other) matches Some(e) && is_source_extension(e)
    &&& parts(other).drop_last() == parts(rel).drop_last()
}

/// Whether a `.css` file sits beside a source file it was plainly built from.
pub open spec fn has_source(rel: Seq<char>, files: Seq<Seq<char>>) -> bool {
    extension_of(rel) == Some("css"@) && exists|i: int|
        0 <= i < files.len() && is_source_of(#[trigger] files[i], rel)
}

fn source_of(other: &str, rel: &str) -> (r: bool)
    ensures
        r == is_source_of(other@, rel@),
{
    let stem = match file_stem(other) {
        Some(s) => s,
        None => {
            return false;
        },
    };
    let mine = match file_stem(rel) {
        Some(s) => s,
        None => {
            return false;
        },
    };
    if !same(stem.as_str(), mine.as_str()) {
        return false;
    }
    let compiles = match extension(other) {
        Some(e) => same(e.as_str(), "scss") || same(e.as_str(), "sass") || same(e.as_str(), "less")
            || same(e.as_str(), "pcss") || same(e.as_str(), "postcss"),
        None => false,
    };
    if !compiles {
        return false;
    }
    let a = parts_of(other);
    let b = parts_of(rel);
    assert(parts(other@).len() == a@.len() && parts(rel@).len() == b@.len());
    if a.len() != b.len() {
        assert(parts(other@).drop_last().len() != parts(rel@).drop_last().len()) by {
            assert(a@.len() > 0 && b@.len() > 0);
        }
        return false;
    }
    let mut i: usize = 0;
    while i < a.len() - 1
        invariant
            a@.len() == b@.len(),
            a@.len() > 0,
            i < a@.len(),
            texts(a@) == parts(other@),
            texts(b@) == parts(rel@),
            forall|k: int| 0 <= k < i ==> #[trigger] parts(other@)[k] == parts(rel@)[k],
        decreases a@.len() - i,
    {
        assert(parts(other@)[i as int] == a@[i as int]@);
        assert(parts(rel@)[i as int] == b@[i as int]@);
        if !same(a[i].as_str(), b[i].as_str()) {
            assert(parts(other@).drop_last()[i as int] != parts(rel@).drop_last()[i as int]);
            return false;
        }
        i += 1;
    }
    assert(parts(other@).drop_last() =~= parts(rel@).drop_last());
    true
}

/// Whether a `.css` file sits beside a source file it was plainly built from.
///
/// `app.css` next to `app.scss` is output, however it is formatted, and
/// reading both counts every width in it twice.
pub fn has_a_source_sibling(rel: &str, index: &FileIndex) -> (r: bool)
    ensures
        r == has_source(rel@, texts(index.files@)),
{
    match extension(rel) {
        Some(e) => {
            if !same(e.as_str(), "css") {
                return false;
            }
        },
        None => {
            return false;
        },
    }
    let mut i: usize = 0;
    while i < index.files.len()
        invariant
            i <= index.files@.len(),
            extension_of(rel@) == Some("css"@),
            forall|k: int| 0 <= k < i ==> !is_source_of(#[trigger] texts(index.files@)[k], rel@),
        decreases index.files@.len() - i,
    {
        if source_of(index.files[i].as_str(), rel) {
            assert(is_source_of(texts(index.files@)[i as int], rel@));
            return true;
        }
        i += 1;
    }
    false
}

/// Whether a path goes through a hidden directory, which holds tooling rather
/// than the site's own stylesheets.
pub open spec fn goes_hidden(rel: Seq<char>) -> bool {
    exists|i: int| 0 <= i < parts(rel).len() - 1 && begins(#[trigger] parts(rel)[i], "."@)
}

pub fn in_hidden_directory(rel: &str) -> (r: bool)
    ensures
        r == goes_hidden(rel@),
{
    let p = parts_of(rel);
    let mut i: usize = 0;
    assert(p@.len() == parts(rel@).len());
    while i < p.len() && i + 1 < p.len()
        invariant
            i <= p@.len(),
            texts(p@) == parts(rel@),
            forall|k: int| 0 <= k < i ==> !begins(#[trigger] parts(rel@)[k], "."@),
        decreases p@.len() - i,
    {
        assert(parts(rel@)[i as int] == p@[i as int]@);
        if begins_with(p[i].as_str(), ".") {
            return true;
        }
        i += 1;
    }
    false
}

/// What reading the project's stylesheets has come to.
#[verifier::ext_equal]
pub struct Gathered {
    /// The files worth resolving, with their text.
    pub sources: Seq<(Seq<char>, Seq<char>)>,
    /// What the project defines as a length, the first definition winning.
    pub vars: Seq<(Seq<char>, Seq<char>)>,
    /// What the project's breakpoint maps say, the first entry winning.
    pub maps: Seq<(Seq<char>, i64)>,
    /// The first file that moves the root font size, and what it moves it to.
    pub root: Option<(Seq<char>, Seq<char>)>,
    /// Out of time.
    pub stopped: bool,
}

struct Gather {
    sources: Vec<(String, String)>,
    vars: Vec<(String, String)>,
    maps: Vec<(String, i64)>,
    root: Option<(String, String)>,
    stopped: bool,
}

impl View for Gather {
    type V = Gathered;

    closed spec fn view(&self) -> Gathered {
        Gathered {
            sources: pairs(self.sources@),
            vars: pairs(self.vars@),
            maps: keyed(self.maps@),
            root: match self.root {
                Some((f, v)) => Some((f@, v@)),
                None => None,
            },
            stopped: self.stopped,
        }
    }
}

/// One file taken in: what has been gathered, what is left of the read budget,
/// and what is logged.
pub struct GatherStep {
    pub got: Gathered,
    pub left: usize,
    pub events: Seq<Event>,
}

/// A table with each of `more` put in it, one after another.
pub open spec fn put_all(
    t: Seq<(Seq<char>, Seq<char>)>,
    more: Seq<(Seq<char>, Seq<char>)>,
    over: bool,
) -> Seq<(Seq<char>, Seq<char>)>
    decreases more.len(),
{
    if more.len() == 0 {
        t
    } else {
        put(put_all(t, more.drop_last(), over), more.last().0, more.last().1, over)
    }
}

/// A table with each map entry put in it that it does not have.
pub open spec fn put_entries(
    t: Seq<(Seq<char>, i64)>,
    more: Seq<(Seq<char>, i64, usize)>,
) -> Seq<(Seq<char>, i64)>
    decreases more.len(),
{
    if more.len() == 0 {
        t
    } else {
        put(put_entries(t, more.drop_last()), more.last().0, more.last().1, false)
    }
}

/// What the CSS of a file reads as.
pub open spec fn css_of(path: Seq<char>, raw: Seq<char>) -> Seq<char> {
    blanked(style_part(path, raw), Dialect::Style)
}

pub open spec fn skip_event(path: Seq<char>, reason: Seq<char>) -> Seq<Event> {
    seq![Event::FileSkip { file: path, reason }]
}

/// What has been gathered once a stylesheet is taken for the project's own.
pub open spec fn taken(g: Gathered, path: Seq<char>, text: Seq<char>) -> Gathered {
    Gathered {
        sources: g.sources.push((path, text)),
        vars: put_all(g.vars, lengths_in(text), false),
        maps: put_entries(g.maps, map_entries_in(text)),
        root: if g.root is Some {
            g.root
        } else {
            match root_size_from(text, matches_of(ROOT_SIZE_PATTERN@, text)) {
                Some(v) => Some((path, v)),
                None => None,
            }
        },
        stopped: g.stopped,
    }
}

pub open spec fn gather_step(
    g: Gathered,
    path: Seq<char>,
    disk: Seq<(Seq<char>, Given)>,
    files: Seq<Seq<char>>,
    left: usize,
) -> GatherStep {
    if names_output(path) {
        GatherStep {
            got: g,
            left,
            events: skip_event(path, "compiled, vendored or minified output"@),
        }
    } else if goes_hidden(path) {
        GatherStep {
            got: g,
            left,
            events: skip_event(path, "inside a hidden directory, so it is tooling output"@),
        }
    } else if given(disk, path) is Late {
        GatherStep {
            got: Gathered { stopped: true, ..g },
            left,
            events: skip_event(path, "scan timeout reached before this file"@),
        }
    } else {
        let read = read_of(disk, path, left);
        match read.text {
            None => GatherStep { got: g, left: read.left, events: read.events },
            Some(raw) => {
                let text = css_of(path, raw);
                if reads_as_compiled(style_part(path, raw)) {
                    GatherStep {
                        got: g,
                        left: read.left,
                        events: read.events + skip_event(
                            path,
                            "it reads as build output rather than something a person wrote"@,
                        ),
                    }
                } else if trimmed(text).len() == 0 {
                    GatherStep { got: g, left: read.left, events: read.events }
                } else if has_source(path, files) {
                    GatherStep {
                        got: g,
                        left: read.left,
                        events: read.events + skip_event(
                            path,
                            "there is a source file of the same name beside it, so this is what was built from it"@,
                        ),
                    }
                } else {
                    GatherStep {
                        got: taken(g, path, text),
                        left: read.left,
                        events: read.events,
                    }
                }
            },
        }
    }
}

/// Every file taken in, one after another, until time runs out.
pub open spec fn gather_all(
    paths: Seq<Seq<char>>,
    disk: Seq<(Seq<char>, Given)>,
    files: Seq<Seq<char>>,
    left: usize,
) -> GatherStep
    decreases paths.len(),
{
    if paths.len() == 0 {
        GatherStep {
            got: Gathered {
                sources: Seq::empty(),
                vars: Seq::empty(),
                maps: Seq::empty(),
                root: None,
                stopped: false,
            },
            left,
            events: Seq::empty(),
        }
    } else {
        let before = gather_all(paths.drop_last(), disk, files, left);
        if before.got.stopped {
            before
        } else {
            let step = gather_step(before.got, paths.last(), disk, files, before.left);
            GatherStep { got: step.got, left: step.left, events: before.events + step.events }
        }
    }
}

fn put_all_in(t: &mut Vec<(String, String)>, more: &Vec<(String, String)>, over: bool)
    ensures
        pairs(final(t)@) == put_all(pairs(old(t)@), pairs(more@), over),
{
    let ghost start = pairs(t@);
    let mut i: usize = 0;
    assert(pairs(more@).take(0) =~= Seq::<(Seq<char>, Seq<char>)>::empty());
    while i < more.len()
        invariant
            i <= more@.len(),
            pairs(t@) == put_all(start, pairs(more@).take(i as int), over),
        decreases more@.len() - i,
    {
        proof {
            let p = pairs(more@).take(i + 1);
            assert(p.drop_last() =~= pairs(more@).take(i as int));
            assert(p.last() == (more@[i as int].0@, more@[i as int].1@));
        }
        put_text(t, more[i].0.as_str().to_owned(), more[i].1.as_str().to_owned(), over);
        i += 1;
    }
    assert(pairs(more@).take(more@.len() as int) =~= pairs(more@));
}

/// The widths of the project's maps are ones a stylesheet can name.
pub open spec fn maps_in_reach(t: Seq<(Seq<char>, i64)>) -> bool {
    forall|i: int| 0 <= i < t.len() ==> 0 <= (#[trigger] t[i]).1 <= 10_000 * PX
}

fn put_entries_in(t: &mut Vec<(String, i64)>, more: &Vec<(String, i64, usize)>)
    requires
        entries_in_reach(more@),
        maps_in_reach(keyed(old(t)@)),
    ensures
        keyed(final(t)@) == put_entries(keyed(old(t)@), entry_views(more@)),
        maps_in_reach(keyed(final(t)@)),
{
    let ghost start = keyed(t@);
    let ghost all = entry_views(more@);
    let mut i: usize = 0;
    assert(all.take(0) =~= Seq::<(Seq<char>, i64, usize)>::empty());
    while i < more.len()
        invariant
            i <= more@.len(),
            all == entry_views(more@),
            entries_in_reach(more@),
            maps_in_reach(keyed(t@)),
            keyed(t@) == put_entries(start, all.take(i as int)),
        decreases more@.len() - i,
    {
        proof {
            let p = all.take(i + 1);
            assert(p.drop_last() =~= all.take(i as int));
            assert(p.last() == (more@[i as int].0@, more@[i as int].1, more@[i as int].2));
            crate::table::lemma_put_values(
                keyed(t@),
                more@[i as int].0@,
                more@[i as int].1,
                false,
                |w: i64| 0 <= w <= 10_000 * PX,
            );
        }
        put_in(t, more[i].0.as_str().to_owned(), more[i].1, false);
        i += 1;
    }
    assert(all.take(all.len() as int) =~= all);
}

fn gather_one(
    g: &mut Gather,
    path: &str,
    index: &FileIndex,
    disk: &Disk,
    budget: &mut ReadBudget,
    log: &mut ScanLog,
)
    requires
        maps_in_reach(old(g)@.maps),
    ensures
        ({
            let step = gather_step(
                old(g)@,
                path@,
                disk@,
                texts(index.files@),
                old(budget)@,
            );
            &&& final(g)@ == step.got
            &&& final(budget)@ == step.left
            &&& final(log)@ == old(log)@.with(step.events)
        }),
        maps_in_reach(final(g)@.maps),
{
    broadcast use {super::log::lemma_with_with, super::log::lemma_with_none};

    if is_ignored_by_name(path) {
        log.skip(path, "compiled, vendored or minified output");
        return;
    }
    if in_hidden_directory(path) {
        log.skip(path, "inside a hidden directory, so it is tooling output");
        return;
    }
    if disk.late(path) {
        log.skip(path, "scan timeout reached before this file");
        g.stopped = true;
        return;
    }
    let raw = match budget.read(disk, path, log) {
        Some(t) => t,
        None => {
            return;
        },
    };
    // A component is markup with a `<style>` block in it, so the CSS is pulled
    // out before anything looks at it. Checking the whole file for compiled
    // output would reject a component with one long template line. The tells of
    // compiled output stand in its comments, so they are blanked after that.
    let css = stylesheet_part(path, raw.as_str());
    if looks_compiled(css.as_str()) {
        log.skip(path, "it reads as build output rather than something a person wrote");
        return;
    }
    let text = blank_comments(css.as_str());
    if trim_str(text.as_str()).as_str().is_empty() {
        return;
    }
    if has_a_source_sibling(path, index) {
        log.skip(
            path,
            "there is a source file of the same name beside it, so this is what was built from it",
        );
        return;
    }
    if g.root.is_none() {
        match overrides_root_font_size(text.as_str()) {
            Some(value) => {
                g.root = Some((path.to_owned(), value));
            },
            None => {},
        }
    }
    put_all_in(&mut g.vars, &scss_lengths(text.as_str()), false);
    put_entries_in(&mut g.maps, &scss_map_entries(text.as_str()));
    let ghost before = pairs(g.sources@);
    g.sources.push((path.to_owned(), text));
    assert(pairs(g.sources@) =~= before.push((path@, text@)));
}

/// Why a query with no width in it was dropped.
pub open spec fn drop_reason(resolved: Seq<char>) -> Seq<char> {
    if has(resolved, "$"@) || has(resolved, "#{"@) {
        "media query depends on a value no file in the project defines"@
    } else if has(resolved, "calc("@) {
        "the width is a calc() and is only known once the browser works it out"@
    } else if has(resolved, "var("@) {
        "the width is a custom property, which a media query cannot resolve anyway"@
    } else if has(resolved, "container"@) {
        "a container query is about an element, not the viewport"@
    } else {
        "no width component"@
    }
}

fn why_dropped(resolved: &str) -> (r: &'static str)
    ensures
        r@ == drop_reason(resolved@),
{
    if contains_str(resolved, "$") || contains_str(resolved, "#{") {
        "media query depends on a value no file in the project defines"
    } else if contains_str(resolved, "calc(") {
        "the width is a calc() and is only known once the browser works it out"
    } else if contains_str(resolved, "var(") {
        "the width is a custom property, which a media query cannot resolve anyway"
    } else if contains_str(resolved, "container") {
        "a container query is about an element, not the viewport"
    } else {
        "no width component"
    }
}

/// A width first met in `file` on `line`.
pub open spec fn fresh_seen(
    width: i64,
    edge: Edge,
    file: Seq<char>,
    line: usize,
    name: Option<Seq<char>>,
    declared: bool,
) -> Seen {
    Seen {
        width,
        edge,
        files: Seq::empty(),
        first_file: file,
        first_line: line,
        occurrences: 0,
        name,
        declared,
    }
}

fn fresh(
    width: i64,
    edge: Edge,
    file: &str,
    line: usize,
    name: Option<String>,
    declared: bool,
) -> (r: Occurrence)
    ensures
        r@ == fresh_seen(width, edge, file@, line, opt_view(name), declared),
{
    let r = Occurrence {
        width,
        edge,
        files: Vec::new(),
        first_file: file.to_owned(),
        first_line: line,
        occurrences: 0,
        name,
        declared,
    };
    assert(r@.files =~= Seq::<Seq<char>>::empty());
    r
}

/// The widths seen after the conditions of one query.
pub open spec fn after_hits(s: Seq<Seen>, hits: Seq<WidthHit>, file: Seq<char>, line: usize) -> Seq<
    Seen,
>
    decreases hits.len(),
{
    if hits.len() == 0 {
        s
    } else {
        let h = hits.last();
        sighted(
            after_hits(s, hits.drop_last(), file, line),
            fresh_seen(h.boundary, h.edge, file, line, None, false),
            file,
            Sight::Query(h.edge),
        )
    }
}

/// A query with the variables and map lookups in it replaced by what they
/// stand for.
pub open spec fn query_resolved(
    query: Seq<char>,
    vars: Seq<(Seq<char>, Seq<char>)>,
    maps: Seq<(Seq<char>, i64)>,
) -> Seq<char> {
    let q = substituted(query, vars);
    maps_resolved(q, matches_of(MAP_GET_PATTERN@, q), maps)
}

/// The line a query that starts at `at` is on.
pub open spec fn query_line(text: Seq<char>, at: usize) -> usize {
    lines(text.take(if at <= text.len() {
        at as int
    } else {
        text.len() as int
    })).len() as usize
}

/// The widths seen after the queries of one stylesheet, and what is logged.
pub open spec fn after_queries(
    s: Seq<Seen>,
    qs: Seq<(Seq<char>, usize)>,
    file: Seq<char>,
    text: Seq<char>,
    vars: Seq<(Seq<char>, Seq<char>)>,
    maps: Seq<(Seq<char>, i64)>,
) -> (Seq<Seen>, Seq<Event>)
    decreases qs.len(),
{
    if qs.len() == 0 {
        (s, Seq::empty())
    } else {
        let before = after_queries(s, qs.drop_last(), file, text, vars, maps);
        let resolved = query_resolved(qs.last().0, vars, maps);
        let hits = hits_in(resolved);
        if hits.len() == 0 {
            (
                before.0,
                before.1.push(
                    Event::Discarded {
                        file,
                        value: trimmed(qs.last().0),
                        reason: drop_reason(resolved),
                    },
                ),
            )
        } else {
            (after_hits(before.0, hits, file, query_line(text, qs.last().1)), before.1)
        }
    }
}

/// The widths seen after the mixins a stylesheet calls. What each mixin does
/// cannot be known statically, but its key can: it is one the project itself
/// declared in its own map.
pub open spec fn after_keys(
    s: Seq<Seen>,
    keys: Seq<Seq<char>>,
    file: Seq<char>,
    maps: Seq<(Seq<char>, i64)>,
) -> Seq<Seen>
    decreases keys.len(),
{
    if keys.len() == 0 {
        s
    } else {
        let before = after_keys(s, keys.drop_last(), file, maps);
        match lookup(maps, keys.last()) {
            None => before,
            Some(px) => sighted(
                before,
                fresh_seen(px, Edge::Min, file, 1, Some(keys.last()), true),
                file,
                Sight::Named(keys.last()),
            ),
        }
    }
}

/// The widths seen after the maps a stylesheet declares. Such a map is a
/// deliberate configuration even though it lives in a stylesheet, so its names
/// are worth keeping.
pub open spec fn after_entries(
    s: Seq<Seen>,
    entries: Seq<(Seq<char>, i64, usize)>,
    file: Seq<char>,
) -> Seq<Seen>
    decreases entries.len(),
{
    if entries.len() == 0 {
        s
    } else {
        let e = entries.last();
        sighted(
            after_entries(s, entries.drop_last(), file),
            fresh_seen(e.1, Edge::Min, file, e.2, None, false),
            file,
            Sight::Named(e.0),
        )
    }
}

/// The widths seen after one stylesheet, and what is logged. The file's own
/// definitions win over the project's, which is what SCSS itself does.
pub open spec fn after_source(
    s: Seq<Seen>,
    file: Seq<char>,
    text: Seq<char>,
    g: Gathered,
) -> (Seq<Seen>, Seq<Event>) {
    let vars = put_all(g.vars, lengths_in(text), true);
    let queried = after_queries(
        s,
        preludes_from(text, matches_of(MEDIA_PATTERN@, text)),
        file,
        text,
        vars,
        g.maps,
    );
    let keyed = after_keys(
        queried.0,
        keys_from(text, matches_of(MIXIN_PATTERN@, text)),
        file,
        g.maps,
    );
    (after_entries(keyed, map_entries_in(text), file), queried.1)
}

pub open spec fn after_sources(sources: Seq<(Seq<char>, Seq<char>)>, g: Gathered) -> (
    Seq<Seen>,
    Seq<Event>,
)
    decreases sources.len(),
{
    if sources.len() == 0 {
        (Seq::empty(), Seq::empty())
    } else {
        let before = after_sources(sources.drop_last(), g);
        let one = after_source(before.0, sources.last().0, sources.last().1, g);
        (one.0, before.1 + one.1)
    }
}

fn see_hits(s: &mut Vec<Occurrence>, hits: &Vec<WidthHit>, file: &str, line: usize)
    requires
        all_in_reach(seens(old(s)@)),
        forall|i: int| 0 <= i < hits@.len() ==> in_reach(#[trigger] hits@[i]),
    ensures
        seens(final(s)@) == after_hits(seens(old(s)@), hits@, file@, line),
        all_in_reach(seens(final(s)@)),
{
    let ghost start = seens(s@);
    let mut i: usize = 0;
    assert(hits@.take(0) =~= Seq::<WidthHit>::empty());
    while i < hits.len()
        invariant
            i <= hits@.len(),
            forall|k: int| 0 <= k < hits@.len() ==> in_reach(#[trigger] hits@[k]),
            all_in_reach(seens(s@)),
            seens(s@) == after_hits(start, hits@.take(i as int), file@, line),
        decreases hits@.len() - i,
    {
        let h = hits[i];
        let f = fresh(h.boundary, h.edge, file, line, None, false);
        proof {
            assert(hits@.take(i + 1).drop_last() =~= hits@.take(i as int));
            assert(in_reach(hits@[i as int]));
            lemma_sighted_in_reach(seens(s@), f@, file@, Sight::Query(h.edge));
        }
        sight(s, f, file, &Sighting::Query(h.edge));
        i += 1;
    }
    assert(hits@.take(hits@.len() as int) =~= hits@);
}

fn see_queries(
    s: &mut Vec<Occurrence>,
    qs: &Vec<(String, usize)>,
    file: &str,
    text: &str,
    vars: &Vec<(String, String)>,
    maps: &Vec<(String, i64)>,
    log: &mut ScanLog,
)
    requires
        all_in_reach(seens(old(s)@)),
    ensures
        ({
            let r = after_queries(
                seens(old(s)@),
                queries(qs@),
                file@,
                text@,
                pairs(vars@),
                keyed(maps@),
            );
            &&& seens(final(s)@) == r.0
            &&& final(log)@ == old(log)@.with(r.1)
        }),
        all_in_reach(seens(final(s)@)),
{
    let ghost start = seens(s@);
    let ghost said = log@;
    let ghost all = queries(qs@);
    let ghost vs = pairs(vars@);
    let ghost ms = keyed(maps@);
    let mut i: usize = 0;
    proof {
        assert(all.take(0) =~= Seq::<(Seq<char>, usize)>::empty());
        assert(said.with(Seq::empty()) =~= said);
    }
    while i < qs.len()
        invariant
            i <= qs@.len(),
            all == queries(qs@),
            vs == pairs(vars@),
            ms == keyed(maps@),
            all_in_reach(seens(s@)),
            seens(s@) == after_queries(start, all.take(i as int), file@, text@, vs, ms).0,
            log@ == said.with(
                after_queries(start, all.take(i as int), file@, text@, vs, ms).1,
            ),
        decreases qs@.len() - i,
    {
        let query = qs[i].0.as_str();
        let ghost before = after_queries(start, all.take(i as int), file@, text@, vs, ms);
        proof {
            assert(all.take(i + 1).drop_last() =~= all.take(i as int));
            assert(all.take(i + 1).last() == (query@, qs@[i as int].1));
        }
        let resolved = substitute_maps(substitute(query, vars).as_str(), maps);
        let hits = widths_in_query(resolved.as_str());
        if hits.len() == 0 {
            let reason = why_dropped(resolved.as_str());
            let value = trim_str(query);
            log.discarded(file, value.as_str(), reason);
            proof {
                let e = Event::Discarded { file: file@, value: value@, reason: reason@ };
                super::log::lemma_with_with(said, before.1, seq![e]);
                assert(before.1 + seq![e] =~= before.1.push(e));
            }
        } else {
            let line: usize = line_count_before(text, qs[i].1);
            see_hits(s, &hits, file, line);
        }
        i += 1;
    }
    assert(all.take(all.len() as int) =~= all);
}

fn see_keys(s: &mut Vec<Occurrence>, keys: &Vec<String>, file: &str, maps: &Vec<(String, i64)>)
    requires
        all_in_reach(seens(old(s)@)),
        maps_in_reach(keyed(maps@)),
    ensures
        seens(final(s)@) == after_keys(seens(old(s)@), texts(keys@), file@, keyed(maps@)),
        all_in_reach(seens(final(s)@)),
{
    let ghost start = seens(s@);
    let ghost all = texts(keys@);
    let mut i: usize = 0;
    assert(all.take(0) =~= Seq::<Seq<char>>::empty());
    while i < keys.len()
        invariant
            i <= keys@.len(),
            all == texts(keys@),
            all_in_reach(seens(s@)),
            maps_in_reach(keyed(maps@)),
            seens(s@) == after_keys(start, all.take(i as int), file@, keyed(maps@)),
        decreases keys@.len() - i,
    {
        let key = keys[i].as_str();
        proof {
            assert(all.take(i + 1).drop_last() =~= all.take(i as int));
            assert(all.take(i + 1).last() == key@);
        }
        if let Some(k) = find_in(maps, key) {
            let px: i64 = maps[k].1;
            assert(keyed(maps@)[k as int].1 == px);
            let f = fresh(px, Edge::Min, file, 1, Some(key.to_owned()), true);
            let how = Sighting::Named(key.to_owned());
            proof {
                lemma_sighted_in_reach(seens(s@), f@, file@, how@);
            }
            sight(s, f, file, &how);
        }
        i += 1;
    }
    assert(all.take(all.len() as int) =~= all);
}

fn see_entries(s: &mut Vec<Occurrence>, entries: &Vec<(String, i64, usize)>, file: &str)
    requires
        all_in_reach(seens(old(s)@)),
        entries_in_reach(entries@),
    ensures
        seens(final(s)@) == after_entries(seens(old(s)@), entry_views(entries@), file@),
        all_in_reach(seens(final(s)@)),
{
    let ghost start = seens(s@);
    let ghost all = entry_views(entries@);
    let mut i: usize = 0;
    assert(all.take(0) =~= Seq::<(Seq<char>, i64, usize)>::empty());
    while i < entries.len()
        invariant
            i <= entries@.len(),
            all == entry_views(entries@),
            all_in_reach(seens(s@)),
            entries_in_reach(entries@),
            seens(s@) == after_entries(start, all.take(i as int), file@),
        decreases entries@.len() - i,
    {
        let e = &entries[i];
        proof {
            assert(all.take(i + 1).drop_last() =~= all.take(i as int));
            assert(all.take(i + 1).last() == (e.0@, e.1, e.2));
            assert(0 <= entries@[i as int].1 <= 10_000 * PX);
        }
        let f = fresh(e.1, Edge::Min, file, e.2, None, false);
        let how = Sighting::Named(e.0.as_str().to_owned());
        proof {
            lemma_sighted_in_reach(seens(s@), f@, file@, how@);
        }
        sight(s, f, file, &how);
        i += 1;
    }
    assert(all.take(all.len() as int) =~= all);
}

/// What the CSS detector makes of what it gathered.
pub open spec fn css_outcome(read: GatherStep) -> (OutputFound, Seq<Event>) {
    let seen = after_sources(read.got.sources, read.got);
    let note = seq![
        Event::Note {
            message: "css detector read "@ + decimal(read.got.sources.len())
                + " stylesheets and found "@ + decimal(seen.0.len())
                + " distinct widths before clustering"@,
        },
    ];
    let root = match read.got.root {
        Some((file, value)) => seq![
            Event::Note {
                message: file + " sets the root font size to "@ + value
                    + ". Breakpoint widths are unaffected: a media query resolves rem against the initial font size, not against this."@,
            },
        ],
        None => Seq::empty(),
    };
    (
        OutputFound { breakpoints: clustered(seen.0), ..nothing_found() },
        read.events + seen.1 + note + root + absorbed_in_all(groups_of(seen.0)),
    )
}

/// The files the CSS detector goes through.
pub open spec fn css_paths(files: Seq<Seq<char>>) -> Seq<Seq<char>> {
    chosen(files, |p: Seq<char>| has_extension(p, readable()))
}

/// Read every stylesheet once, understand the whole project, then resolve.
///
/// The universal layout is one file that defines the widths and fifty that use
/// them, and the defining file has no media queries at all. Resolving a file
/// with only its own variables would report no breakpoints for those projects.
///
/// A moved root font size is noted and is no warning: a media query resolves
/// relative units against the initial font size, never against anything a
/// stylesheet declares.
pub fn run(index: &FileIndex, disk: &Disk, budget: &mut ReadBudget, log: &mut ScanLog) -> (r:
    DetectorOutput)
    ensures
        ({
            let files = texts(index.files@);
            let read = gather_all(css_paths(files), disk@, files, old(budget)@);
            &&& r@ == css_outcome(read).0
            &&& final(budget)@ == read.left
            &&& final(log)@ == old(log)@.with(css_outcome(read).1)
        }),
{
    broadcast use super::log::lemma_with_with;

    let exts = readable_extensions();
    let paths = index.by_extension(&exts);
    let ghost files = texts(index.files@);
    let ghost ps = texts(paths@);
    let ghost start = log@;
    let ghost left0 = budget@;
    proof {
        let f = |p: Seq<char>| has_extension(p, readable());
        let g = |p: Seq<char>| has_extension(p, texts(exts@));
        assert(f =~= g);
        assert(ps == css_paths(files));
    }
    let mut g = Gather {
        sources: Vec::new(),
        vars: Vec::new(),
        maps: Vec::new(),
        root: None,
        stopped: false,
    };
    let mut i: usize = 0;
    proof {
        assert(ps.take(0) =~= Seq::<Seq<char>>::empty());
        assert(g@ =~= gather_all(ps.take(0), disk@, files, left0).got);
        assert(start.with(Seq::empty()) =~= start);
    }
    while i < paths.len()
        invariant
            i <= paths@.len(),
            ps == texts(paths@),
            files == texts(index.files@),
            maps_in_reach(g@.maps),
            g@ == gather_all(ps.take(i as int), disk@, files, left0).got,
            budget@ == gather_all(ps.take(i as int), disk@, files, left0).left,
            log@ == start.with(gather_all(ps.take(i as int), disk@, files, left0).events),
        decreases paths@.len() - i,
    {
        let ghost before = gather_all(ps.take(i as int), disk@, files, left0);
        proof {
            assert(ps.take(i + 1).drop_last() =~= ps.take(i as int));
            assert(ps.take(i + 1).last() == paths@[i as int]@);
        }
        if !g.stopped {
            gather_one(&mut g, paths[i].as_str(), index, disk, budget, log);
        }
        i += 1;
    }
    let ghost read = gather_all(ps, disk@, files, left0);
    assert(ps.take(ps.len() as int) =~= ps);

    let mut seen: Vec<Occurrence> = Vec::new();
    let ghost srcs = pairs(g.sources@);
    i = 0;
    proof {
        assert(srcs.take(0) =~= Seq::<(Seq<char>, Seq<char>)>::empty());
        assert(seens(seen@) =~= Seq::<Seen>::empty());
        assert(read.events + Seq::<Event>::empty() =~= read.events);
    }
    while i < g.sources.len()
        invariant
            i <= g.sources@.len(),
            srcs == pairs(g.sources@),
            g@ == read.got,
            maps_in_reach(g@.maps),
            all_in_reach(seens(seen@)),
            seens(seen@) == after_sources(srcs.take(i as int), read.got).0,
            log@ == start.with(
                read.events + after_sources(srcs.take(i as int), read.got).1,
            ),
        decreases g.sources@.len() - i,
    {
        let ghost before = after_sources(srcs.take(i as int), read.got);
        let file = g.sources[i].0.as_str();
        let text = g.sources[i].1.as_str();
        proof {
            assert(srcs.take(i + 1).drop_last() =~= srcs.take(i as int));
            assert(srcs.take(i + 1).last() == (file@, text@));
        }
        let mut variables: Vec<(String, String)> = Vec::new();
        copy_pairs(&g.vars, &mut variables);
        put_all_in(&mut variables, &scss_lengths(text), true);
        see_queries(&mut seen, &media_preludes(text), file, text, &variables, &g.maps, log);
        see_keys(&mut seen, &mixin_keys(text), file, &g.maps);
        see_entries(&mut seen, &scss_map_entries(text), file);
        proof {
            let one = after_source(before.0, file@, text@, read.got);
            assert((read.events + before.1) + one.1 =~= read.events + (before.1 + one.1));
        }
        i += 1;
    }
    assert(srcs.take(srcs.len() as int) =~= srcs);
    let ghost done = after_sources(srcs, read.got);

    let mut note = "css detector read ".to_owned();
    note.append(number_string(g.sources.len()).as_str());
    note.append(" stylesheets and found ");
    note.append(number_string(seen.len()).as_str());
    note.append(" distinct widths before clustering");
    assert(done.0.len() == seen@.len());
    assert(srcs.len() == g.sources@.len());
    log.note(note.as_str());
    let ghost said = read.events + done.1 + seq![Event::Note { message: note@ }];
    match &g.root {
        Some((file, value)) => {
            let mut moved = file.as_str().to_owned();
            moved.append(" sets the root font size to ");
            moved.append(value.as_str());
            moved.append(
                ". Breakpoint widths are unaffected: a media query resolves rem against the initial font size, not against this.",
            );
            log.note(moved.as_str());
        },
        None => {
            assert(said + Seq::<Event>::empty() =~= said);
        },
    }
    let mut out = DetectorOutput::default();
    out.breakpoints = cluster(seen, log);
    out
}

fn copy_pairs(from: &Vec<(String, String)>, to: &mut Vec<(String, String)>)
    requires
        old(to)@.len() == 0,
    ensures
        pairs(final(to)@) == pairs(from@),
{
    let mut i: usize = 0;
    while i < from.len()
        invariant
            i <= from@.len(),
            pairs(to@) =~= pairs(from@).take(i as int),
        decreases from@.len() - i,
    {
        let ghost before = pairs(to@);
        to.push((from[i].0.as_str().to_owned(), from[i].1.as_str().to_owned()));
        assert(pairs(to@) =~= before.push((from@[i as int].0@, from@[i as int].1@)));
        i += 1;
    }
}

/// A stylesheet is passed over by its name only if its path contains one of
/// twelve texts, and no other name keeps one from being read.
pub proof fn only_output_is_passed_over_by_name(file: Seq<char>)
    ensures
        names_output(file) <==> exists|before: Seq<char>, marker: Seq<char>, after: Seq<char>|
            #[trigger] (before + marker + after) == file && seq![
                "dist/"@,
                "build/"@,
                "vendor/"@,
                "node_modules/"@,
                ".min.css"@,
                "-min.css"@,
                "bootstrap.css"@,
                "normalize.css"@,
                "core/assets/"@,
                "core/misc/"@,
                "core/themes/"@,
                "output.css"@,
            ].contains(marker),
{
    let all = seq![
        "dist/"@,
        "build/"@,
        "vendor/"@,
        "node_modules/"@,
        ".min.css"@,
        "-min.css"@,
        "bootstrap.css"@,
        "normalize.css"@,
        "core/assets/"@,
        "core/misc/"@,
        "core/themes/"@,
        "output.css"@,
    ];
    if names_output(file) {
        assert(all[0] == "dist/"@ && all[1] == "build/"@ && all[2] == "vendor/"@ && all[3]
            == "node_modules/"@ && all[4] == ".min.css"@ && all[5] == "-min.css"@ && all[6]
            == "bootstrap.css"@ && all[7] == "normalize.css"@ && all[8] == "core/assets/"@
            && all[9] == "core/misc/"@ && all[10] == "core/themes/"@ && all[11] == "output.css"@);
        let k = choose|k: int| 0 <= k < all.len() && has(file, #[trigger] all[k]);
        assert(has(file, all[k]));
        let i = choose|i: int| crate::text::matches_at(file, all[k], i);
        let before = file.take(i);
        let after = file.skip(i + all[k].len());
        assert(before + all[k] + after =~= file);
        assert(all.contains(all[k]));
    }
    if exists|before: Seq<char>, marker: Seq<char>, after: Seq<char>|
        #[trigger] (before + marker + after) == file && all.contains(marker) {
        let (before, marker, after) = choose|
            before: Seq<char>,
            marker: Seq<char>,
            after: Seq<char>,
        | #[trigger] (before + marker + after) == file && all.contains(marker);
        assert(file.subrange(before.len() as int, (before.len() + marker.len()) as int)
            =~= marker);
        assert(crate::text::matches_at(file, marker, before.len() as int));
        assert(has(file, marker));
        let k = all.index_of(marker);
        assert(all[k] == marker);
    }
}

/// What is opened: stylesheets in the six languages, and components in the
/// three formats that hold them.
pub proof fn six_languages_and_three_formats_are_read(path: Seq<char>)
    ensures
        has_extension(path, readable()) <==> (extension_of(path) matches Some(e) && (e == "css"@
            || e == "scss"@ || e == "sass"@ || e == "pcss"@ || e == "postcss"@ || e == "less"@ || e
            == "vue"@ || e == "svelte"@ || e == "astro"@)),
        has_extension(path, components()) <==> (extension_of(path) matches Some(e) && (e == "vue"@
            || e == "svelte"@ || e == "astro"@)),
{
    let all = readable();
    assert(all[0] == "css"@ && all[1] == "scss"@ && all[2] == "sass"@ && all[3] == "pcss"@
        && all[4] == "postcss"@ && all[5] == "less"@ && all[6] == "vue"@ && all[7] == "svelte"@
        && all[8] == "astro"@);
    let some = components();
    assert(some[0] == "vue"@ && some[1] == "svelte"@ && some[2] == "astro"@);
}

/// A stylesheet that is not named as output, is in no hidden directory, was
/// read, does not look compiled, says something, and has no source beside it is
/// taken as the project's own; and one in any of those cases but one is not.
pub proof fn a_plain_stylesheet_is_read(
    g: Gathered,
    path: Seq<char>,
    disk: Seq<(Seq<char>, Given)>,
    files: Seq<Seq<char>>,
    left: usize,
    raw: Seq<char>,
)
    requires
        left > 0,
        given(disk, path) == Given::Text(raw),
    ensures
        ({
            let step = gather_step(g, path, disk, files, left);
            let own = {
                &&& !names_output(path)
                &&& !goes_hidden(path)
                &&& !reads_as_compiled(style_part(path, raw))
                &&& trimmed(css_of(path, raw)).len() > 0
                &&& !has_source(path, files)
            };
            &&& own ==> step.got.sources == g.sources.push((path, css_of(path, raw)))
            &&& !own ==> step.got == g
            &&& !own && trimmed(css_of(path, raw)).len() > 0 ==> step.events.len() > 0
                && (step.events.last() matches Event::FileSkip { file, .. } && file == path)
        }),
{
}

/// A stylesheet reads as compiled when it has a framework's banner, a source
/// map, more than twenty mentions of Tailwind's own properties, or, being no
/// smaller than twenty thousand bytes, more than four hundred bytes to a line. A
/// small one with none of the tells never does.
pub proof fn a_small_stylesheet_is_not_compiled(text: Seq<char>)
    ensures
        ({
            let told = has(text, "/*! tailwindcss v"@) || has(text, "sourceMappingURL="@)
                || occurrences_from(text, "--tw-"@, 0) > 20;
            let bytes = byte_len(text);
            let n = lines(text).len();
            &&& told ==> reads_as_compiled(text)
            &&& !told && bytes < 20_000 ==> !reads_as_compiled(text)
            &&& !told && n < usize::MAX && bytes <= 400 * n ==> !reads_as_compiled(text)
            &&& bytes >= 20_000 && 0 < n < usize::MAX && bytes > 401 * n ==> reads_as_compiled(
                text,
            )
        }),
{
    let b = byte_len(text) as int;
    let n = lines(text).len() as int;
    if n > 0 {
        if b > 401 * n {
            assert(b / n > 400) by (nonlinear_arith)
                requires
                    b > 401 * n,
                    n > 0,
            ;
        }
        if b <= 400 * n {
            assert(b / n <= 400) by (nonlinear_arith)
                requires
                    b <= 400 * n,
                    n > 0,
                    b >= 0,
            ;
        }
    }
}

/// Only a `.css` file has a source beside it, and only one of the same name in
/// the same directory, in a language that compiles to CSS.
pub proof fn a_source_is_a_sibling_of_the_same_name(rel: Seq<char>, files: Seq<Seq<char>>)
    ensures
        has_source(rel, files) <==> extension_of(rel) == Some("css"@) && exists|i: int|
            0 <= i < files.len() && stem_of(#[trigger] files[i]) is Some && stem_of(files[i])
                == stem_of(rel) && parts(files[i]).drop_last() == parts(rel).drop_last() && (
            extension_of(files[i]) == Some("scss"@) || extension_of(files[i]) == Some("sass"@)
                || extension_of(files[i]) == Some("less"@) || extension_of(files[i]) == Some(
                "pcss"@,
            ) || extension_of(files[i]) == Some("postcss"@)),
{
}

proof fn lemma_sources_kept(
    paths: Seq<Seq<char>>,
    disk: Seq<(Seq<char>, Given)>,
    files: Seq<Seq<char>>,
    left: usize,
    k: int,
    x: (Seq<char>, Seq<char>),
)
    requires
        0 <= k < paths.len(),
        gather_all(paths.take(k + 1), disk, files, left).got.sources.contains(x),
    ensures
        gather_all(paths, disk, files, left).got.sources.contains(x),
    decreases paths.len(),
{
    if k + 1 == paths.len() {
        assert(paths.take(k + 1) =~= paths);
    } else {
        let d = paths.drop_last();
        assert(d.take(k + 1) =~= paths.take(k + 1));
        lemma_sources_kept(d, disk, files, left, k, x);
        let before = gather_all(d, disk, files, left);
        let after = gather_all(paths, disk, files, left);
        let i = before.got.sources.index_of(x);
        assert(after.got.sources[i] == x);
    }
}

/// The project's own stylesheets are all read: whatever else there is to go
/// through, one that is reached in time and within the budget is among the
/// sources.
pub proof fn every_stylesheet_reached_is_read(
    paths: Seq<Seq<char>>,
    disk: Seq<(Seq<char>, Given)>,
    files: Seq<Seq<char>>,
    left: usize,
    k: int,
    raw: Seq<char>,
)
    requires
        0 <= k < paths.len(),
        !gather_all(paths.take(k), disk, files, left).got.stopped,
        gather_all(paths.take(k), disk, files, left).left > 0,
        given(disk, paths[k]) == Given::Text(raw),
        !names_output(paths[k]),
        !goes_hidden(paths[k]),
        !reads_as_compiled(style_part(paths[k], raw)),
        trimmed(css_of(paths[k], raw)).len() > 0,
        !has_source(paths[k], files),
    ensures
        gather_all(paths, disk, files, left).got.sources.contains(
            (paths[k], css_of(paths[k], raw)),
        ),
{
    let upto = paths.take(k + 1);
    assert(upto.drop_last() =~= paths.take(k));
    assert(upto.last() == paths[k]);
    let before = gather_all(paths.take(k), disk, files, left);
    let x = (paths[k], css_of(paths[k], raw));
    assert(gather_all(upto, disk, files, left).got.sources == before.got.sources.push(x));
    assert(gather_all(upto, disk, files, left).got.sources[before.got.sources.len() as int] == x);
    lemma_sources_kept(paths, disk, files, left, k, x);
}

pub open spec fn is_seen(s: Seq<Seen>, w: i64) -> bool {
    exists|j: int| 0 <= j < s.len() && (#[trigger] s[j]).width == w
}

proof fn lemma_hits_seen(s: Seq<Seen>, hits: Seq<WidthHit>, file: Seq<char>, line: usize, w: i64)
    ensures
        is_seen(after_hits(s, hits, file, line), w) <==> is_seen(s, w) || exists|k: int|
            0 <= k < hits.len() && (#[trigger] hits[k]).boundary == w,
    decreases hits.len(),
{
    if hits.len() > 0 {
        let d = hits.drop_last();
        let h = hits.last();
        lemma_hits_seen(s, d, file, line, w);
        super::cluster::a_sighting_adds_its_width(
            after_hits(s, d, file, line),
            fresh_seen(h.boundary, h.edge, file, line, None, false),
            file,
            Sight::Query(h.edge),
            w,
        );
        assert(hits[hits.len() - 1] == h);
        assert forall|k: int| 0 <= k < d.len() implies #[trigger] d[k] == hits[k] by {}
        if exists|k: int| 0 <= k < d.len() && (#[trigger] d[k]).boundary == w {
            let k = choose|k: int| 0 <= k < d.len() && (#[trigger] d[k]).boundary == w;
            assert(hits[k].boundary == w);
        }
        if exists|k: int| 0 <= k < hits.len() && (#[trigger] hits[k]).boundary == w {
            let k = choose|k: int| 0 <= k < hits.len() && (#[trigger] hits[k]).boundary == w;
            if k < d.len() {
                assert(d[k].boundary == w);
            }
        }
    }
}

/// Whether a query of a stylesheet is about width `w`.
pub open spec fn asks_about(
    query: Seq<char>,
    vars: Seq<(Seq<char>, Seq<char>)>,
    maps: Seq<(Seq<char>, i64)>,
    w: i64,
) -> bool {
    exists|k: int|
        0 <= k < hits_in(query_resolved(query, vars, maps)).len() && (#[trigger] hits_in(
            query_resolved(query, vars, maps),
        )[k]).boundary == w
}

proof fn lemma_queries_seen(
    s: Seq<Seen>,
    qs: Seq<(Seq<char>, usize)>,
    file: Seq<char>,
    text: Seq<char>,
    vars: Seq<(Seq<char>, Seq<char>)>,
    maps: Seq<(Seq<char>, i64)>,
    w: i64,
)
    ensures
        is_seen(after_queries(s, qs, file, text, vars, maps).0, w) <==> is_seen(s, w) || exists|
            i: int,
        |
            0 <= i < qs.len() && asks_about((#[trigger] qs[i]).0, vars, maps, w),
    decreases qs.len(),
{
    if qs.len() > 0 {
        let d = qs.drop_last();
        let q = qs.last();
        lemma_queries_seen(s, d, file, text, vars, maps, w);
        let before = after_queries(s, d, file, text, vars, maps);
        let hits = hits_in(query_resolved(q.0, vars, maps));
        lemma_hits_seen(before.0, hits, file, query_line(text, q.1), w);
        let after = after_queries(s, qs, file, text, vars, maps);
        if hits.len() == 0 {
            assert(after.0 == before.0);
            assert(!asks_about(q.0, vars, maps, w));
        } else {
            assert(after.0 == after_hits(before.0, hits, file, query_line(text, q.1)));
        }
        assert(is_seen(after.0, w) <==> is_seen(before.0, w) || asks_about(q.0, vars, maps, w));
        assert(qs[qs.len() - 1] == q);
        assert forall|k: int| 0 <= k < d.len() implies #[trigger] d[k] == qs[k] by {}
        if exists|i: int| 0 <= i < d.len() && asks_about((#[trigger] d[i]).0, vars, maps, w) {
            let i = choose|i: int|
                0 <= i < d.len() && asks_about((#[trigger] d[i]).0, vars, maps, w);
            assert(asks_about(qs[i].0, vars, maps, w));
        }
        if exists|i: int| 0 <= i < qs.len() && asks_about((#[trigger] qs[i]).0, vars, maps, w) {
            let i = choose|i: int|
                0 <= i < qs.len() && asks_about((#[trigger] qs[i]).0, vars, maps, w);
            if i < d.len() {
                assert(asks_about(d[i].0, vars, maps, w));
            }
        }
    }
}

proof fn lemma_keys_seen(
    s: Seq<Seen>,
    keys: Seq<Seq<char>>,
    file: Seq<char>,
    maps: Seq<(Seq<char>, i64)>,
    w: i64,
)
    ensures
        is_seen(after_keys(s, keys, file, maps), w) <==> is_seen(s, w) || exists|i: int|
            0 <= i < keys.len() && lookup(maps, #[trigger] keys[i]) == Some(w),
    decreases keys.len(),
{
    if keys.len() > 0 {
        let d = keys.drop_last();
        let key = keys.last();
        lemma_keys_seen(s, d, file, maps, w);
        let before = after_keys(s, d, file, maps);
        if let Some(px) = lookup(maps, key) {
            super::cluster::a_sighting_adds_its_width(
                before,
                fresh_seen(px, Edge::Min, file, 1, Some(key), true),
                file,
                Sight::Named(key),
                w,
            );
        }
        assert(keys[keys.len() - 1] == key);
        assert forall|k: int| 0 <= k < d.len() implies #[trigger] d[k] == keys[k] by {}
        if exists|i: int| 0 <= i < d.len() && lookup(maps, #[trigger] d[i]) == Some(w) {
            let i = choose|i: int| 0 <= i < d.len() && lookup(maps, #[trigger] d[i]) == Some(w);
            assert(lookup(maps, keys[i]) == Some(w));
        }
        if exists|i: int| 0 <= i < keys.len() && lookup(maps, #[trigger] keys[i]) == Some(w) {
            let i = choose|i: int|
                0 <= i < keys.len() && lookup(maps, #[trigger] keys[i]) == Some(w);
            if i < d.len() {
                assert(lookup(maps, d[i]) == Some(w));
            }
        }
    }
}

proof fn lemma_entries_seen(
    s: Seq<Seen>,
    entries: Seq<(Seq<char>, i64, usize)>,
    file: Seq<char>,
    w: i64,
)
    ensures
        is_seen(after_entries(s, entries, file), w) <==> is_seen(s, w) || exists|i: int|
            0 <= i < entries.len() && (#[trigger] entries[i]).1 == w,
    decreases entries.len(),
{
    if entries.len() > 0 {
        let d = entries.drop_last();
        let e = entries.last();
        lemma_entries_seen(s, d, file, w);
        super::cluster::a_sighting_adds_its_width(
            after_entries(s, d, file),
            fresh_seen(e.1, Edge::Min, file, e.2, None, false),
            file,
            Sight::Named(e.0),
            w,
        );
        assert(entries[entries.len() - 1] == e);
        assert forall|k: int| 0 <= k < d.len() implies #[trigger] d[k] == entries[k] by {}
        if exists|i: int| 0 <= i < d.len() && (#[trigger] d[i]).1 == w {
            let i = choose|i: int| 0 <= i < d.len() && (#[trigger] d[i]).1 == w;
            assert(entries[i].1 == w);
        }
        if exists|i: int| 0 <= i < entries.len() && (#[trigger] entries[i]).1 == w {
            let i = choose|i: int| 0 <= i < entries.len() && (#[trigger] entries[i]).1 == w;
            if i < d.len() {
                assert(d[i].1 == w);
            }
        }
    }
}

/// What a stylesheet adds to the widths seen: those its media queries are
/// about, those of the mixins it calls by a key of the project's maps, and those
/// of the maps it declares. Nothing else.
pub proof fn a_stylesheet_adds_its_widths(
    s: Seq<Seen>,
    file: Seq<char>,
    text: Seq<char>,
    g: Gathered,
    w: i64,
)
    ensures
        ({
            let vars = put_all(g.vars, lengths_in(text), true);
            let qs = preludes_from(text, matches_of(MEDIA_PATTERN@, text));
            let keys = keys_from(text, matches_of(MIXIN_PATTERN@, text));
            let entries = map_entries_in(text);
            is_seen(after_source(s, file, text, g).0, w) <==> {
                ||| is_seen(s, w)
                ||| exists|i: int|
                    0 <= i < qs.len() && asks_about((#[trigger] qs[i]).0, vars, g.maps, w)
                ||| exists|i: int|
                    0 <= i < keys.len() && lookup(g.maps, #[trigger] keys[i]) == Some(w)
                ||| exists|i: int| 0 <= i < entries.len() && (#[trigger] entries[i]).1 == w
            }
        }),
{
    let vars = put_all(g.vars, lengths_in(text), true);
    let qs = preludes_from(text, matches_of(MEDIA_PATTERN@, text));
    let keys = keys_from(text, matches_of(MIXIN_PATTERN@, text));
    let queried = after_queries(s, qs, file, text, vars, g.maps).0;
    lemma_queries_seen(s, qs, file, text, vars, g.maps, w);
    lemma_keys_seen(queried, keys, file, g.maps, w);
    lemma_entries_seen(after_keys(queried, keys, file, g.maps), map_entries_in(text), file, w);
}

proof fn lemma_sources_seen(
    sources: Seq<(Seq<char>, Seq<char>)>,
    g: Gathered,
    k: int,
    w: i64,
)
    requires
        0 <= k < sources.len(),
        is_seen(after_source(Seq::empty(), sources[k].0, sources[k].1, g).0, w),
    ensures
        is_seen(after_sources(sources, g).0, w),
    decreases sources.len(),
{
    let d = sources.drop_last();
    let before = after_sources(d, g);
    let (file, text) = sources.last();
    a_stylesheet_adds_its_widths(before.0, file, text, g, w);
    if k < d.len() {
        assert(d[k] == sources[k]);
        lemma_sources_seen(d, g, k, w);
    } else {
        a_stylesheet_adds_its_widths(Seq::empty(), file, text, g, w);
        assert(is_seen(Seq::empty(), w) == false);
    }
}

/// Every width that a media query of a stylesheet read is about is among the
/// breakpoints found, itself or by one within two pixels of it.
pub proof fn a_width_in_a_stylesheet_is_found(
    read: GatherStep,
    k: int,
    q: int,
    w: i64,
)
    requires
        0 <= k < read.got.sources.len(),
        ({
            let text = read.got.sources[k].1;
            let qs = preludes_from(text, matches_of(MEDIA_PATTERN@, text));
            let vars = put_all(read.got.vars, lengths_in(text), true);
            0 <= q < qs.len() && asks_about(qs[q].0, vars, read.got.maps, w)
        }),
    ensures
        exists|j: int|
            0 <= j < css_outcome(read).0.breakpoints.len() && -2_000_000 <= (
            #[trigger] css_outcome(read).0.breakpoints[j]).width - w <= 2_000_000,
{
    let (file, text) = read.got.sources[k];
    a_stylesheet_adds_its_widths(Seq::empty(), file, text, read.got, w);
    lemma_sources_seen(read.got.sources, read.got, k, w);
    let seen = after_sources(read.got.sources, read.got).0;
    super::cluster::every_width_seen_is_reported(seen);
    let i = choose|i: int| 0 <= i < seen.len() && (#[trigger] seen[i]).width == w;
    let c = clustered(seen);
    let j = choose|j: int|
        0 <= j < c.len() && -2_000_000 <= (#[trigger] c[j]).width - seen[i].width <= 2_000_000;
    assert(css_outcome(read).0.breakpoints[j] == c[j]);
}

} // verus!
