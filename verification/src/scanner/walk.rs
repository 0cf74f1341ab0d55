//! One bounded walk of the project, shared by every detector.
//!
//! These limits are load-bearing, not suggestions. A Drupal site with contrib
//! modules is enormous, and a scan that walks all of it hangs the app on the
//! first project someone tries.
//!
//! A path here is a text with `/` between its parts, relative to the project
//! root unless it says otherwise. Looking at the disk is the caller's: what the
//! walk met and what a read gave come in as values.

use vstd::prelude::*;
use vstd::string::StringExecFns;
use vstd::utf8::encode_utf8;
use crate::text::{
    begins, begins_with, chars_of, decimal, decimal_string, finishes, finishes_with, joined,
    number_string, opt_view, same, slice_string, split, split_char, texts,
};
use super::css::{readable, readable_extensions};
use super::log::{Event, ScanLog};

verus! {

/// Files kept for the detectors to query.
pub const MAX_FILES: usize = 3000;

/// Directory entries the walk will look at before giving up. Looking is cheap;
/// keeping and reading are not, which is why these are two different numbers.
/// A flat cap on everything gets spent on Drupal core before it ever reaches
/// the theme.
pub const MAX_ENTRIES: usize = 120_000;

pub const MAX_DEPTH: usize = 12;

pub const MAX_CSS_BYTES: usize = 10_485_760;

pub const MAX_FILE_BYTES: u64 = 2_097_152;

/// How long a scan may take, in milliseconds.
pub const TIMEOUT_MS: u64 = 10_000;

/// Directories that never hold a project's own breakpoints and always hold
/// thousands of files.
///
/// Drupal keeps other people's code in `contrib`, and it is never the site's
/// own responsive decisions. Static site generators put their build under a
/// reserved name, and it is not always inside a directory called dist or build.
pub open spec fn is_skip_dir(name: Seq<char>) -> bool {
    ||| name == "node_modules"@
    ||| name == "vendor"@
    ||| name == "dist"@
    ||| name == "build"@
    ||| name == "coverage"@
    ||| name == "target"@
    ||| name == "bower_components"@
    ||| name == "__pycache__"@
    ||| name == "tmp"@
    ||| name == "storybook-static"@
    ||| name == "contrib"@
    ||| name == "_astro"@
    ||| name == "_next"@
    ||| name == "_site"@
    ||| name == "pagefind"@
}

pub fn skip_dir(name: &str) -> (r: bool)
    ensures
        r == is_skip_dir(name@),
{
    same(name, "node_modules") || same(name, "vendor") || same(name, "dist") || same(name, "build")
        || same(name, "coverage") || same(name, "target") || same(name, "bower_components") || same(
        name,
        "__pycache__",
    ) || same(name, "tmp") || same(name, "storybook-static") || same(name, "contrib") || same(
        name,
        "_astro",
    ) || same(name, "_next") || same(name, "_site") || same(name, "pagefind")
}

/// A hidden directory is tooling. The one exception is DDEV, whose config is
/// the whole point of looking.
pub open spec fn is_skipped_hidden(name: Seq<char>) -> bool {
    begins(name, "."@) && name != ".ddev"@
}

pub fn skip_hidden(name: &str) -> (r: bool)
    ensures
        r == is_skipped_hidden(name@),
{
    begins_with(name, ".") && !same(name, ".ddev")
}

/// Whether piece `i` of a path is one of its parts. An empty piece is a
/// doubled or trailing slash, and a dot says nothing unless it comes first.
pub open spec fn is_part(pieces: Seq<Seq<char>>, i: int) -> bool {
    pieces[i].len() > 0 && (pieces[i] != "."@ || i == 0)
}

pub open spec fn parts_upto(pieces: Seq<Seq<char>>, n: int) -> Seq<Seq<char>>
    decreases n,
{
    if n <= 0 {
        Seq::empty()
    } else if is_part(pieces, n - 1) {
        parts_upto(pieces, n - 1).push(pieces[n - 1])
    } else {
        parts_upto(pieces, n - 1)
    }
}

/// The parts of a path.
pub open spec fn parts(path: Seq<char>) -> Seq<Seq<char>> {
    parts_upto(split(path, '/'), split(path, '/').len() as int)
}

pub fn parts_of(path: &str) -> (r: Vec<String>)
    ensures
        texts(r@) == parts(path@),
{
    let chars = chars_of(path);
    let pieces = split_char(chars.as_slice(), '/');
    let mut out: Vec<String> = Vec::new();
    let mut i: usize = 0;
    assert(texts(out@) =~= Seq::<Seq<char>>::empty());
    while i < pieces.len()
        invariant
            i <= pieces.len(),
            texts(pieces@) == split(path@, '/'),
            texts(out@) == parts_upto(split(path@, '/'), i as int),
        decreases pieces.len() - i,
    {
        let p = pieces[i].as_str();
        let ghost before = texts(out@);
        assert(split(path@, '/')[i as int] == p@);
        if !p.is_empty() && (!same(p, ".") || i == 0) {
            out.push(p.to_owned());
            assert(texts(out@) =~= before.push(p@));
        }
        i += 1;
    }
    out
}

/// The name at the end of a path.
pub open spec fn name_of(path: Seq<char>) -> Option<Seq<char>> {
    let p = parts(path);
    if p.len() > 0 && p.last() != ".."@ && p.last() != "."@ {
        Some(p.last())
    } else {
        None
    }
}

pub fn file_name(path: &str) -> (r: Option<String>)
    ensures
        opt_view(r) == name_of(path@),
{
    let mut p = parts_of(path);
    match p.pop() {
        Some(last) => {
            assert(parts(path@).last() == last@);
            if same(last.as_str(), "..") || same(last.as_str(), ".") {
                None
            } else {
                Some(last)
            }
        },
        None => None,
    }
}

/// Where the last dot of a name stands, counting down from `i`.
pub open spec fn last_dot(name: Seq<char>, i: int) -> Option<int>
    decreases i,
{
    if i <= 0 {
        None
    } else if name[i - 1] == '.' {
        Some(i - 1)
    } else {
        last_dot(name, i - 1)
    }
}

pub open spec fn stem_of_name(name: Seq<char>) -> Seq<char> {
    match last_dot(name, name.len() as int) {
        Some(k) => if k > 0 {
            name.take(k)
        } else {
            name
        },
        None => name,
    }
}

/// What follows the last dot of a name, unless that dot is its first character.
pub open spec fn extension_of_name(name: Seq<char>) -> Option<Seq<char>> {
    match last_dot(name, name.len() as int) {
        Some(k) => if k > 0 {
            Some(name.skip(k + 1))
        } else {
            None
        },
        None => None,
    }
}

pub open spec fn stem_of(path: Seq<char>) -> Option<Seq<char>> {
    match name_of(path) {
        Some(n) => Some(stem_of_name(n)),
        None => None,
    }
}

pub open spec fn extension_of(path: Seq<char>) -> Option<Seq<char>> {
    match name_of(path) {
        Some(n) => extension_of_name(n),
        None => None,
    }
}

fn find_last_dot(name: &[char]) -> (r: Option<usize>)
    ensures
        match r {
            Some(k) => last_dot(name@, name@.len() as int) == Some(k as int) && k < name@.len(),
            None => last_dot(name@, name@.len() as int) is None,
        },
{
    let mut i: usize = name.len();
    while i > 0
        invariant
            i <= name@.len(),
            last_dot(name@, name@.len() as int) == last_dot(name@, i as int),
        decreases i,
    {
        if name[i - 1] == '.' {
            return Some(i - 1);
        }
        i -= 1;
    }
    None
}

pub fn extension(path: &str) -> (r: Option<String>)
    ensures
        opt_view(r) == extension_of(path@),
{
    match file_name(path) {
        None => None,
        Some(name) => {
            let n = chars_of(name.as_str());
            match find_last_dot(n.as_slice()) {
                Some(k) => if k > 0 {
                    assert(k < n.len());
                    assert(n@.skip(k + 1) =~= n@.subrange(k + 1, n@.len() as int));
                    Some(slice_string(n.as_slice(), k + 1, n.len()))
                } else {
                    None
                },
                None => None,
            }
        },
    }
}

pub fn file_stem(path: &str) -> (r: Option<String>)
    ensures
        opt_view(r) == stem_of(path@),
{
    match file_name(path) {
        None => None,
        Some(name) => {
            let n = chars_of(name.as_str());
            match find_last_dot(n.as_slice()) {
                Some(k) => if k > 0 {
                    Some(slice_string(n.as_slice(), 0, k))
                } else {
                    Some(name)
                },
                None => Some(name),
            }
        },
    }
}

/// Whether a path names an extension from `exts`.
pub open spec fn has_extension(path: Seq<char>, exts: Seq<Seq<char>>) -> bool {
    extension_of(path) matches Some(e) && exts.contains(e)
}

/// A Drupal docroot's `core` is Drupal itself: thousands of stylesheets and a
/// pile of `*.breakpoints.yml` that belong to core, not to this site.
///
/// A `core` anywhere else is Drupal only if it looks like Drupal, because
/// `src/core` in a JS project must survive.
pub open spec fn names_drupal_core(path: Seq<char>, has_drupal_php: bool) -> bool {
    let p = parts(path);
    &&& name_of(path) == Some("core"@)
    &&& {
        ||| p.len() >= 2 && (p[p.len() - 2] == "web"@ || p[p.len() - 2] == "docroot"@ || p[p.len()
            - 2] == "html"@ || p[p.len() - 2] == "public"@)
        ||| has_drupal_php
    }
}

/// `has_drupal_php` says whether `lib/Drupal.php` is a file under the path.
pub fn is_drupal_core(path: &str, has_drupal_php: bool) -> (r: bool)
    ensures
        r == names_drupal_core(path@, has_drupal_php),
{
    match file_name(path) {
        Some(n) => {
            if !same(n.as_str(), "core") {
                return false;
            }
        },
        None => {
            return false;
        },
    }
    let p = parts_of(path);
    if p.len() >= 2 {
        let parent = p[p.len() - 2].as_str();
        assert(parts(path@)[p@.len() - 2] == parent@);
        if same(parent, "web") || same(parent, "docroot") || same(parent, "html") || same(
            parent,
            "public",
        ) {
            return true;
        }
    }
    has_drupal_php
}

/// Whether the walk goes into a directory.
pub open spec fn enters(name: Seq<char>, path: Seq<char>, has_drupal_php: bool) -> bool {
    !is_skip_dir(name) && !is_skipped_hidden(name) && !names_drupal_core(path, has_drupal_php)
}

pub fn enters_directory(name: &str, path: &str, has_drupal_php: bool) -> (r: bool)
    ensures
        r == enters(name@, path@, has_drupal_php),
{
    !skip_dir(name) && !skip_hidden(name) && !is_drupal_core(path, has_drupal_php)
}

/// The names a detector asks for by name.
pub open spec fn is_asked_for(name: Seq<char>) -> bool {
    ||| name == "package.json"@
    ||| name == "composer.json"@
    ||| name == ".lando.yml"@
    ||| name == ".lando.yaml"@
    ||| name == "config.yaml"@
    ||| name == "docker-compose.yml"@
    ||| name == "docker-compose.yaml"@
    ||| name == "compose.yml"@
}

/// The only files any detector asks for. Everything else is walked past.
pub open spec fn is_worth_keeping(path: Seq<char>) -> bool {
    match name_of(path) {
        None => false,
        Some(name) => {
            ||| finishes(name, ".breakpoints.yml"@)
            ||| begins(name, "tailwind.config."@)
            ||| begins(name, "vite.config."@)
            ||| is_asked_for(name)
            ||| has_extension(path, readable())
        },
    }
}

pub fn worth_keeping(path: &str) -> (r: bool)
    ensures
        r == is_worth_keeping(path@),
{
    let name = match file_name(path) {
        Some(n) => n,
        None => {
            return false;
        },
    };
    let name = name.as_str();
    if finishes_with(name, ".breakpoints.yml") || begins_with(name, "tailwind.config.")
        || begins_with(name, "vite.config.") {
        return true;
    }
    if same(name, "package.json") || same(name, "composer.json") || same(name, ".lando.yml") || same(
        name,
        ".lando.yaml",
    ) || same(name, "config.yaml") || same(name, "docker-compose.yml") || same(
        name,
        "docker-compose.yaml",
    ) || same(name, "compose.yml") {
        return true;
    }
    extension_in(path, &readable_extensions())
}

fn extension_in(path: &str, exts: &Vec<String>) -> (r: bool)
    ensures
        r == has_extension(path@, texts(exts@)),
{
    match extension(path) {
        Some(e) => crate::text::listed(exts, e.as_str()),
        None => false,
    }
}

/// One thing the walk met.
#[derive(Debug)]
pub enum WalkEntry {
    /// It could not be read.
    Unreadable,
    /// A directory, a link or something else that is not a file.
    NotAFile,
    /// A file, with its path under the root and its size where that is known.
    File { rel: String, bytes: Option<u64> },
}

/// A [`WalkEntry`], with its text as characters.
pub enum Met {
    Unreadable,
    NotAFile,
    File { rel: Seq<char>, bytes: Option<u64> },
}

impl View for WalkEntry {
    type V = Met;

    open spec fn view(&self) -> Met {
        match *self {
            WalkEntry::Unreadable => Met::Unreadable,
            WalkEntry::NotAFile => Met::NotAFile,
            WalkEntry::File { rel, bytes } => Met::File { rel: rel@, bytes },
        }
    }
}

/// A walk in progress.
#[derive(Debug)]
pub struct Walk {
    files: Vec<String>,
    seen: usize,
    skipped: usize,
    truncated: bool,
}

/// What a walk has come to.
#[verifier::ext_equal]
pub struct Walked {
    pub files: Seq<Seq<char>>,
    pub seen: nat,
    pub skipped: nat,
    pub truncated: bool,
}

impl View for Walk {
    type V = Walked;

    closed spec fn view(&self) -> Walked {
        Walked {
            files: texts(self.files@),
            seen: self.seen as nat,
            skipped: self.skipped as nat,
            truncated: self.truncated,
        }
    }
}

/// A walk that has not begun.
pub open spec fn fresh_walk() -> Walked {
    Walked { files: Seq::empty(), seen: 0, skipped: 0, truncated: false }
}

/// What is always so of a walk: it never looks past the entry cap, never keeps
/// past the file cap, keeps only what is worth keeping, and skips no more than
/// it saw.
pub open spec fn walk_ok(w: Walked) -> bool {
    &&& w.seen <= MAX_ENTRIES + 1
    &&& w.files.len() <= MAX_FILES
    &&& w.skipped <= w.seen
    &&& !w.truncated ==> w.seen <= MAX_ENTRIES
    &&& forall|i: int| 0 <= i < w.files.len() ==> is_worth_keeping(#[trigger] w.files[i])
}

/// The walk after it met `e`, `elapsed_ms` into the scan, and what it logs.
pub open spec fn walk_step(w: Walked, e: Met, elapsed_ms: u64) -> (Walked, Seq<Event>) {
    let w1 = Walked { seen: w.seen + 1, ..w };
    if w1.seen > MAX_ENTRIES {
        (
            Walked { truncated: true, ..w1 },
            seq![
                Event::FileSkip { file: "<walk>"@, reason: "hit the entry cap of 120000"@ },
            ],
        )
    } else if w1.seen % 512 == 0 && elapsed_ms > TIMEOUT_MS {
        (
            Walked { truncated: true, ..w1 },
            seq![
                Event::FileSkip { file: "<walk>"@, reason: "hit the 10 second scan timeout"@ },
            ],
        )
    } else {
        match e {
            Met::Unreadable => (Walked { skipped: w.skipped + 1, ..w1 }, Seq::empty()),
            Met::NotAFile => (w1, Seq::empty()),
            Met::File { rel, bytes } => if !is_worth_keeping(rel) {
                (w1, Seq::empty())
            } else if bytes is Some && bytes->0 > MAX_FILE_BYTES {
                (
                    Walked { skipped: w.skipped + 1, ..w1 },
                    seq![Event::FileSkip { file: rel, reason: "larger than 2MB"@ }],
                )
            } else if w.files.len() >= MAX_FILES {
                (
                    Walked { truncated: true, ..w1 },
                    seq![
                        Event::FileSkip { file: "<walk>"@, reason: "hit the 3000 file cap"@ },
                    ],
                )
            } else {
                (Walked { files: w.files.push(rel), ..w1 }, Seq::empty())
            },
        }
    }
}

/// What the walk says when it is done.
pub open spec fn walk_note(w: Walked, elapsed_ms: u64) -> Seq<char> {
    "walk looked at "@ + decimal(w.seen) + " entries, kept "@ + decimal(w.files.len())
        + " files, skipped "@ + decimal(w.skipped) + ", "@ + decimal(elapsed_ms as nat) + " ms"@
        + if w.truncated {
        ", truncated"@
    } else {
        ""@
    }
}

impl Walk {
    pub fn new() -> (r: Self)
        ensures
            r@ == fresh_walk(),
            walk_ok(r@),
    {
        let w = Walk { files: Vec::new(), seen: 0, skipped: 0, truncated: false };
        assert(w@ =~= fresh_walk());
        w
    }

    /// Whether the walk hit a limit and looks no further.
    pub fn stopped(&self) -> (r: bool)
        ensures
            r == self@.truncated,
    {
        self.truncated
    }

    /// Take in the next thing the walk met.
    pub fn visit(&mut self, entry: WalkEntry, elapsed_ms: u64, log: &mut ScanLog)
        requires
            walk_ok(old(self)@),
            !old(self)@.truncated,
        ensures
            final(self)@ == walk_step(old(self)@, entry@, elapsed_ms).0,
            final(log)@ == old(log)@.with(walk_step(old(self)@, entry@, elapsed_ms).1),
            walk_ok(final(self)@),
    {
        broadcast use super::log::lemma_with_none;

        let ghost before = self@;
        self.seen = self.seen + 1;
        if self.seen > MAX_ENTRIES {
            log.skip("<walk>", "hit the entry cap of 120000");
            self.truncated = true;
            return;
        }
        if self.seen % 512 == 0 && elapsed_ms > TIMEOUT_MS {
            log.skip("<walk>", "hit the 10 second scan timeout");
            self.truncated = true;
            return;
        }
        match entry {
            WalkEntry::Unreadable => {
                self.skipped = self.skipped + 1;
            },
            WalkEntry::NotAFile => {},
            WalkEntry::File { rel, bytes } => {
                if worth_keeping(rel.as_str()) {
                    let too_large = match bytes {
                        Some(b) => b > MAX_FILE_BYTES,
                        None => false,
                    };
                    if too_large {
                        log.skip(rel.as_str(), "larger than 2MB");
                        self.skipped = self.skipped + 1;
                    } else if self.files.len() >= MAX_FILES {
                        log.skip("<walk>", "hit the 3000 file cap");
                        self.truncated = true;
                    } else {
                        self.files.push(rel);
                        assert(self@.files =~= before.files.push(rel@));
                    }
                }
            },
        }
    }

    /// The index of what the walk kept.
    pub fn finish(self, root: &str, elapsed_ms: u64, log: &mut ScanLog) -> (r: FileIndex)
        requires
            walk_ok(self@),
        ensures
            r.root@ == root@,
            texts(r.files@) == self@.files,
            r.scanned == self@.files.len(),
            r.skipped == self@.skipped,
            r.truncated == self@.truncated,
            final(log)@ == old(log)@.with(
                seq![Event::Note { message: walk_note(self@, elapsed_ms) }],
            ),
    {
        let mut note = "walk looked at ".to_owned();
        note.append(number_string(self.seen).as_str());
        note.append(" entries, kept ");
        note.append(number_string(self.files.len()).as_str());
        note.append(" files, skipped ");
        note.append(number_string(self.skipped).as_str());
        note.append(", ");
        note.append(decimal_string(elapsed_ms).as_str());
        note.append(" ms");
        note.append(
            if self.truncated {
                ", truncated"
            } else {
                ""
            },
        );
        log.note(note.as_str());
        FileIndex {
            root: root.to_owned(),
            scanned: self.files.len(),
            files: self.files,
            skipped: self.skipped,
            truncated: self.truncated,
        }
    }
}

/// A whole walk: each entry met in turn, with when it was met, until a limit
/// stops it.
pub open spec fn walk_over(w: Walked, entries: Seq<(Met, u64)>) -> (Walked, Seq<Event>)
    decreases entries.len(),
{
    if entries.len() == 0 || w.truncated {
        (w, Seq::empty())
    } else {
        let step = walk_step(w, entries[0].0, entries[0].1);
        let rest = walk_over(step.0, entries.drop_first());
        (rest.0, step.1 + rest.1)
    }
}

pub open spec fn mets(v: Seq<(WalkEntry, u64)>) -> Seq<(Met, u64)> {
    v.map_values(|e: (WalkEntry, u64)| (e.0@, e.1))
}

/// However much there is to walk, the index holds no more than the file cap,
/// and nothing but files a detector asks for.
pub proof fn a_walk_is_bounded(w: Walked, entries: Seq<(Met, u64)>)
    requires
        walk_ok(w),
    ensures
        walk_ok(walk_over(w, entries).0),
    decreases entries.len(),
{
    if entries.len() > 0 && !w.truncated {
        let step = walk_step(w, entries[0].0, entries[0].1);
        assert(walk_ok(step.0)) by {
            assert forall|i: int| 0 <= i < step.0.files.len() implies is_worth_keeping(
                #[trigger] step.0.files[i],
            ) by {
                if i < w.files.len() {
                    assert(w.files[i] == step.0.files[i]);
                }
            }
        }
        a_walk_is_bounded(step.0, entries.drop_first());
    }
}

/// The result of the walk: relative paths only, so nothing that leaves the
/// project root can be read later by mistake.
#[derive(Debug)]
pub struct FileIndex {
    pub root: String,
    pub files: Vec<String>,
    pub scanned: usize,
    pub skipped: usize,
    pub truncated: bool,
}

pub open spec fn named(path: Seq<char>, name: Seq<char>) -> bool {
    name_of(path) == Some(name)
}

pub open spec fn name_ends(path: Seq<char>, suffix: Seq<char>) -> bool {
    name_of(path) matches Some(n) && finishes(n, suffix)
}

pub open spec fn name_begins(path: Seq<char>, prefix: Seq<char>) -> bool {
    name_of(path) matches Some(n) && begins(n, prefix)
}

/// The paths for which `p` holds, in the order they came.
pub open spec fn chosen(files: Seq<Seq<char>>, p: spec_fn(Seq<char>) -> bool) -> Seq<Seq<char>>
    decreases files.len(),
{
    if files.len() == 0 {
        Seq::empty()
    } else if p(files.last()) {
        chosen(files.drop_last(), p).push(files.last())
    } else {
        chosen(files.drop_last(), p)
    }
}

fn choose_paths<F: Fn(&String) -> bool>(files: &Vec<String>, keep: F, Ghost(p): Ghost<
    spec_fn(Seq<char>) -> bool,
>) -> (r: Vec<String>)
    requires
        forall|s: &String| #[trigger] keep.requires((s,)),
        forall|s: &String, b: bool| #[trigger] keep.ensures((s,), b) ==> b == p(s@),
    ensures
        texts(r@) == chosen(texts(files@), p),
{
    let mut out: Vec<String> = Vec::new();
    let mut i: usize = 0;
    assert(texts(files@).take(0) =~= Seq::<Seq<char>>::empty());
    assert(texts(out@) =~= Seq::<Seq<char>>::empty());
    while i < files.len()
        invariant
            i <= files.len(),
            forall|s: &String| #[trigger] keep.requires((s,)),
            forall|s: &String, b: bool| #[trigger] keep.ensures((s,), b) ==> b == p(s@),
            texts(out@) == chosen(texts(files@).take(i as int), p),
        decreases files.len() - i,
    {
        let ghost before = texts(out@);
        proof {
            let t = texts(files@).take(i + 1);
            assert(t.drop_last() =~= texts(files@).take(i as int));
            assert(t.last() == files@[i as int]@);
        }
        if keep(&files[i]) {
            out.push(files[i].as_str().to_owned());
            assert(texts(out@) =~= before.push(files@[i as int]@));
        }
        i += 1;
    }
    assert(texts(files@).take(files@.len() as int) =~= texts(files@));
    out
}

impl FileIndex {
    /// Walk over `entries`, each with the milliseconds into the scan at which
    /// it was met.
    pub fn build(root: &str, entries: Vec<(WalkEntry, u64)>, elapsed_ms: u64, log: &mut ScanLog) -> (r:
        Self)
        ensures
            ({
                let w = walk_over(fresh_walk(), mets(entries@));
                &&& r.root@ == root@
                &&& texts(r.files@) == w.0.files
                &&& r.scanned == w.0.files.len()
                &&& r.skipped == w.0.skipped
                &&& r.truncated == w.0.truncated
                &&& final(log)@ == old(log)@.with(
                    w.1.push(Event::Note { message: walk_note(w.0, elapsed_ms) }),
                )
                &&& walk_ok(w.0)
            }),
    {
        let mut walk = Walk::new();
        let mut rest = entries;
        let ghost start = log@;
        let ghost whole = walk_over(fresh_walk(), mets(entries@));
        let ghost mut said: Seq<Event> = Seq::empty();
        proof {
            assert(said + whole.1 =~= whole.1);
            assert(start.with(said) =~= start);
        }
        while rest.len() > 0 && !walk.stopped()
            invariant
                walk_ok(walk@),
                whole.0 == walk_over(walk@, mets(rest@)).0,
                whole.1 == said + walk_over(walk@, mets(rest@)).1,
                log@ == start.with(said),
            decreases rest@.len(),
        {
            let ghost r0 = mets(rest@);
            let ghost w0 = walk@;
            let (entry, at) = rest.remove(0);
            proof {
                assert(r0[0] == (entry@, at));
                assert(mets(rest@) =~= r0.drop_first());
            }
            walk.visit(entry, at, log);
            proof {
                let step = walk_step(w0, entry@, at);
                super::log::lemma_with_with(start, said, step.1);
                let more = walk_over(walk@, mets(rest@));
                assert(said + (step.1 + more.1) =~= (said + step.1) + more.1);
                said = said + step.1;
            }
        }
        proof {
            assert(said + Seq::<Event>::empty() =~= said);
            super::log::lemma_with_with(
                start,
                said,
                seq![Event::Note { message: walk_note(walk@, elapsed_ms) }],
            );
            assert(said + seq![Event::Note { message: walk_note(walk@, elapsed_ms) }]
                =~= said.push(Event::Note { message: walk_note(walk@, elapsed_ms) }));
        }
        walk.finish(root, elapsed_ms, log)
    }

    /// Every indexed file whose name matches.
    pub fn by_name(&self, name: &str) -> (r: Vec<String>)
        ensures
            texts(r@) == chosen(texts(self.files@), |p: Seq<char>| named(p, name@)),
    {
        let keep = |s: &String| -> (b: bool)
            ensures
                b == named(s@, name@)
        {
            match file_name(s.as_str()) {
                Some(n) => same(n.as_str(), name),
                None => false,
            }
        };
        choose_paths(&self.files, keep, Ghost(|p: Seq<char>| named(p, name@)))
    }

    pub fn by_extension(&self, exts: &Vec<String>) -> (r: Vec<String>)
        ensures
            texts(r@) == chosen(
                texts(self.files@),
                |p: Seq<char>| has_extension(p, texts(exts@)),
            ),
    {
        let keep = |s: &String| -> (b: bool)
            ensures
                b == has_extension(s@, texts(exts@))
        { extension_in(s.as_str(), exts) };
        choose_paths(&self.files, keep, Ghost(|p: Seq<char>| has_extension(p, texts(exts@))))
    }

    /// Files whose name ends with a suffix, for `*.breakpoints.yml`.
    pub fn by_suffix(&self, suffix: &str) -> (r: Vec<String>)
        ensures
            texts(r@) == chosen(texts(self.files@), |p: Seq<char>| name_ends(p, suffix@)),
    {
        let keep = |s: &String| -> (b: bool)
            ensures
                b == name_ends(s@, suffix@)
        {
            match file_name(s.as_str()) {
                Some(n) => finishes_with(n.as_str(), suffix),
                None => false,
            }
        };
        choose_paths(&self.files, keep, Ghost(|p: Seq<char>| name_ends(p, suffix@)))
    }

    /// Files whose stem matches, for `vite.config.js` / `.ts` / `.mjs`.
    pub fn by_stem(&self, stem: &str) -> (r: Vec<String>)
        ensures
            texts(r@) == chosen(texts(self.files@), |p: Seq<char>| name_begins(p, stem@ + "."@)),
    {
        let mut prefix = stem.to_owned();
        prefix.append(".");
        let keep = |s: &String| -> (b: bool)
            ensures
                b == name_begins(s@, prefix@)
        {
            match file_name(s.as_str()) {
                Some(n) => begins_with(n.as_str(), prefix.as_str()),
                None => false,
            }
        };
        let ghost p = |p: Seq<char>| name_begins(p, prefix@);
        let ghost q = |p: Seq<char>| name_begins(p, stem@ + "."@);
        assert(p =~= q);
        choose_paths(&self.files, keep, Ghost(q))
    }

    /// Where a file of the index is on disk.
    pub fn absolute(&self, rel: &str) -> (r: String)
        ensures
            r@ == joined_path(self.root@, rel@),
    {
        join_path(self.root.as_str(), rel)
    }
}

/// A path under another. A path that starts at the root of the disk stands on
/// its own.
pub open spec fn joined_path(base: Seq<char>, rel: Seq<char>) -> Seq<char> {
    if begins(rel, "/"@) {
        rel
    } else if base.len() == 0 || finishes(base, "/"@) {
        base + rel
    } else {
        base + "/"@ + rel
    }
}

pub fn join_path(base: &str, rel: &str) -> (r: String)
    ensures
        r@ == joined_path(base@, rel@),
{
    if begins_with(rel, "/") {
        return rel.to_owned();
    }
    let mut out = base.to_owned();
    if !base.is_empty() && !finishes_with(base, "/") {
        out.append("/");
    }
    assert(base@.len() == 0 ==> base@ =~= Seq::<char>::empty());
    out.append(rel);
    out
}

/// Whether a scan that has run this long is out of time.
pub fn out_of_time(elapsed_ms: u64) -> (r: bool)
    ensures
        r == (elapsed_ms > TIMEOUT_MS),
{
    elapsed_ms > TIMEOUT_MS
}

/// What the disk gave for one file.
#[derive(Debug)]
pub enum Fetch {
    Text(String),
    /// Why it could not be read.
    Failed(String),
    /// The scan was out of time before this file.
    Late,
}

/// A [`Fetch`], with its texts as characters.
pub enum Given {
    Text(Seq<char>),
    Failed(Seq<char>),
    Late,
}

impl View for Fetch {
    type V = Given;

    open spec fn view(&self) -> Given {
        match *self {
            Fetch::Text(t) => Given::Text(t@),
            Fetch::Failed(e) => Given::Failed(e@),
            Fetch::Late => Given::Late,
        }
    }
}

/// What the disk gave for each file that was asked for.
#[derive(Debug)]
pub struct Disk {
    pub files: Vec<(String, Fetch)>,
}

impl View for Disk {
    type V = Seq<(Seq<char>, Given)>;

    open spec fn view(&self) -> Seq<(Seq<char>, Given)> {
        self.files@.map_values(|f: (String, Fetch)| (f.0@, f.1@))
    }
}

/// What the disk gave for `path`: the first answer about it. A file that was
/// never asked for could not be read.
pub open spec fn given(disk: Seq<(Seq<char>, Given)>, path: Seq<char>) -> Given
    decreases disk.len(),
{
    if disk.len() == 0 {
        Given::Failed("not read"@)
    } else if disk[0].0 == path {
        disk[0].1
    } else {
        given(disk.drop_first(), path)
    }
}

impl Disk {
    pub fn get(&self, path: &str) -> (r: Fetch)
        ensures
            r@ == given(self@, path@),
    {
        let mut i: usize = 0;
        assert(self@.skip(0) =~= self@);
        while i < self.files.len()
            invariant
                i <= self.files@.len(),
                given(self@, path@) == given(self@.skip(i as int), path@),
            decreases self.files@.len() - i,
        {
            let f = &self.files[i];
            assert(self@.skip(i as int)[0] == (f.0@, f.1@));
            if same(f.0.as_str(), path) {
                return match &f.1 {
                    Fetch::Text(t) => Fetch::Text(t.as_str().to_owned()),
                    Fetch::Failed(e) => Fetch::Failed(e.as_str().to_owned()),
                    Fetch::Late => Fetch::Late,
                };
            }
            assert(self@.skip(i as int).drop_first() =~= self@.skip(i + 1));
            i += 1;
        }
        Fetch::Failed("not read".to_owned())
    }

    /// Whether the scan was out of time before this file.
    pub fn late(&self, path: &str) -> (r: bool)
        ensures
            r == given(self@, path@) is Late,
    {
        match self.get(path) {
            Fetch::Late => true,
            _ => false,
        }
    }
}

/// How many bytes a text takes.
pub open spec fn byte_len(s: Seq<char>) -> usize {
    encode_utf8(s).len() as usize
}

/// Reading is budgeted separately from walking, because a hundred small
/// stylesheets are cheap and one 8MB compiled bundle is not.
#[derive(Debug)]
pub struct ReadBudget {
    remaining: usize,
}

impl View for ReadBudget {
    type V = usize;

    closed spec fn view(&self) -> usize {
        self.remaining
    }
}

/// One read: the text it gave, what is left of the budget, and what it logs.
pub struct ReadResult {
    pub text: Option<Seq<char>>,
    pub left: usize,
    pub events: Seq<Event>,
}

/// What asking for `path` with this much budget comes to.
pub open spec fn read_of(disk: Seq<(Seq<char>, Given)>, path: Seq<char>, left: usize) -> ReadResult {
    if left == 0 {
        ReadResult {
            text: None,
            left,
            events: seq![
                Event::FileSkip { file: path, reason: "read budget of 10MB is spent"@ },
            ],
        }
    } else {
        match given(disk, path) {
            Given::Text(t) => ReadResult {
                text: Some(t),
                left: if byte_len(t) >= left {
                    0
                } else {
                    (left - byte_len(t)) as usize
                },
                events: seq![Event::FileRead { file: path, bytes: byte_len(t) }],
            },
            Given::Failed(err) => ReadResult {
                text: None,
                left,
                events: seq![
                    Event::FileSkip { file: path, reason: "could not read: "@ + err },
                ],
            },
            Given::Late => ReadResult {
                text: None,
                left,
                events: seq![
                    Event::FileSkip {
                        file: path,
                        reason: "scan timeout reached before this file"@,
                    },
                ],
            },
        }
    }
}

impl ReadBudget {
    pub fn new() -> (r: Self)
        ensures
            r@ == MAX_CSS_BYTES,
    {
        ReadBudget { remaining: MAX_CSS_BYTES }
    }

    /// Whether there is anything left to spend.
    pub fn spent(&self) -> (r: bool)
        ensures
            r == (self@ == 0),
    {
        self.remaining == 0
    }

    /// Read `rel`, from what the disk gave for it.
    pub fn read(&mut self, disk: &Disk, rel: &str, log: &mut ScanLog) -> (r: Option<String>)
        ensures
            ({
                let got = read_of(disk@, rel@, old(self)@);
                &&& opt_view(r) == got.text
                &&& final(self)@ == got.left
                &&& final(log)@ == old(log)@.with(got.events)
            }),
    {
        if self.remaining == 0 {
            log.skip(rel, "read budget of 10MB is spent");
            return None;
        }
        match disk.get(rel) {
            Fetch::Text(text) => {
                let n: usize = text.as_str().len();
                self.remaining = if n >= self.remaining {
                    0
                } else {
                    self.remaining - n
                };
                log.read(rel, n);
                Some(text)
            },
            Fetch::Failed(err) => {
                let mut reason = "could not read: ".to_owned();
                reason.append(err.as_str());
                log.skip(rel, reason.as_str());
                None
            },
            Fetch::Late => {
                log.skip(rel, "scan timeout reached before this file");
                None
            },
        }
    }
}

impl Default for ReadBudget {
    fn default() -> (r: Self)
        ensures
            r@ == MAX_CSS_BYTES,
    {
        Self::new()
    }
}

/// Reading never adds to what is left to read.
pub proof fn the_budget_only_shrinks(
    disk: Seq<(Seq<char>, Given)>,
    path: Seq<char>,
    left: usize,
)
    ensures
        read_of(disk, path, left).left <= left,
        left == 0 ==> read_of(disk, path, left).text is None,
{
}

/// Whether `path` lies under `root`, part by part.
pub open spec fn lies_under(root: Seq<char>, path: Seq<char>) -> bool {
    let r = parts(root);
    let p = parts(path);
    &&& begins(root, "/"@) == begins(path, "/"@)
    &&& r.len() <= p.len()
    &&& p.take(r.len() as int) == r
}

/// A path as it is written under `root`, or as it is when it lies elsewhere.
pub open spec fn relative(root: Seq<char>, path: Seq<char>) -> Seq<char> {
    if lies_under(root, path) {
        joined(parts(path).skip(parts(root).len() as int), "/"@)
    } else {
        path
    }
}

/// A path as it is written under `root`, or as it is when it lies elsewhere.
pub fn rel_string(root: &str, path: &str) -> (r: String)
    ensures
        r@ == relative(root@, path@),
{
    let rs = parts_of(root);
    let ps = parts_of(path);
    if begins_with(root, "/") != begins_with(path, "/") || rs.len() > ps.len() {
        return path.to_owned();
    }
    let mut i: usize = 0;
    while i < rs.len()
        invariant
            i <= rs.len() <= ps.len(),
            texts(rs@) == parts(root@),
            texts(ps@) == parts(path@),
            forall|k: int| 0 <= k < i ==> parts(root@)[k] == #[trigger] parts(path@)[k],
        decreases rs.len() - i,
    {
        assert(parts(root@)[i as int] == rs@[i as int]@);
        assert(parts(path@)[i as int] == ps@[i as int]@);
        if !same(rs[i].as_str(), ps[i].as_str()) {
            assert(parts(path@).take(rs@.len() as int)[i as int] != parts(root@)[i as int]);
            return path.to_owned();
        }
        i += 1;
    }
    assert(parts(path@).take(rs@.len() as int) =~= parts(root@));
    let mut rest: Vec<String> = Vec::new();
    assert(texts(rest@) =~= parts(path@).subrange(rs@.len() as int, i as int));
    while i < ps.len()
        invariant
            rs@.len() <= i <= ps@.len(),
            texts(ps@) == parts(path@),
            texts(rest@) == parts(path@).subrange(rs@.len() as int, i as int),
        decreases ps.len() - i,
    {
        let ghost before = texts(rest@);
        rest.push(ps[i].as_str().to_owned());
        assert(texts(rest@) =~= before.push(ps@[i as int]@));
        assert(parts(path@)[i as int] == ps@[i as int]@);
        assert(texts(rest@) =~= parts(path@).subrange(rs@.len() as int, i + 1));
        i += 1;
    }
    assert(texts(rest@) =~= parts(path@).skip(rs@.len() as int));
    crate::text::join(&rest, "/")
}

/// The name of something in a folder.
pub open spec fn is_plain_name(n: Seq<char>) -> bool {
    n.len() > 0 && !n.contains('/') && n != "."@
}

pub open spec fn are_plain_names(names: Seq<Seq<char>>) -> bool {
    forall|i: int| 0 <= i < names.len() ==> is_plain_name(#[trigger] names[i])
}

/// Names with slashes between them, split at the slashes.
proof fn lemma_names_split(names: Seq<Seq<char>>)
    requires
        names.len() > 0,
        are_plain_names(names),
    ensures
        split(joined(names, "/"@), '/') == names,
        joined(names, "/"@).len() > 0,
        joined(names, "/"@)[0] != '/',
    decreases names.len(),
{
    reveal_strlit("/");
    let n = names.last();
    assert(is_plain_name(names[names.len() - 1]));
    assert(split(n, '/') =~= seq![n]) by {
        crate::text::lemma_first_char(n, '/', 0);
        assert forall|j: int| 0 <= j < n.len() implies n[j] != '/' by {
            assert(n.contains(n[j]));
        }
        assert(n.skip(0) =~= n);
    }
    if names.len() == 1 {
        assert(names =~= seq![n]);
        assert(n.contains(n[0]));
    } else {
        let d = names.drop_last();
        assert forall|i: int| 0 <= i < d.len() implies is_plain_name(#[trigger] d[i]) by {
            assert(d[i] == names[i]);
        }
        lemma_names_split(d);
        let front = joined(d, "/"@);
        crate::text::lemma_split_two(front, n, '/', 0);
        assert("/"@ =~= seq!['/']);
        assert(joined(names, "/"@) =~= front + seq!['/'] + n);
        assert(d + seq![n] =~= names);
    }
}

/// The parts among pieces followed by plain names.
proof fn lemma_parts_then_names(pieces: Seq<Seq<char>>, names: Seq<Seq<char>>, n: int)
    requires
        are_plain_names(names),
        0 <= n <= names.len(),
    ensures
        parts_upto(pieces + names, pieces.len() + n) == parts_upto(pieces, pieces.len() as int)
            + names.take(n),
    decreases n,
{
    let all = pieces + names;
    if n == 0 {
        lemma_parts_before(pieces, names, pieces.len() as int);
        assert(names.take(0) =~= Seq::empty());
        assert(parts_upto(pieces, pieces.len() as int) + names.take(0) =~= parts_upto(
            pieces,
            pieces.len() as int,
        ));
    } else {
        lemma_parts_then_names(pieces, names, n - 1);
        assert(all[pieces.len() + n - 1] == names[n - 1]);
        assert(is_plain_name(names[n - 1]));
        assert(names.take(n) =~= names.take(n - 1).push(names[n - 1]));
        assert(parts_upto(all, pieces.len() + n) =~= parts_upto(pieces, pieces.len() as int)
            + names.take(n));
    }
}

proof fn lemma_parts_before(pieces: Seq<Seq<char>>, more: Seq<Seq<char>>, n: int)
    requires
        0 <= n <= pieces.len(),
    ensures
        parts_upto(pieces + more, n) == parts_upto(pieces, n),
    decreases n,
{
    if n > 0 {
        lemma_parts_before(pieces, more, n - 1);
        assert((pieces + more)[n - 1] == pieces[n - 1]);
    }
}

/// The parts of a path under another.
proof fn lemma_parts_joined(base: Seq<char>, names: Seq<Seq<char>>)
    requires
        names.len() > 0,
        are_plain_names(names),
    ensures
        parts(joined_path(base, joined(names, "/"@))) == parts(base) + names,
        begins(joined_path(base, joined(names, "/"@)), "/"@) == begins(base, "/"@),
{
    reveal_strlit("/");
    reveal_strlit(".");
    assert("/"@ =~= seq!['/']);
    let rel = joined(names, "/"@);
    lemma_names_split(names);
    assert(!begins(rel, "/"@)) by {
        if begins(rel, "/"@) {
            assert(rel.subrange(0, 1)[0] == '/');
        }
    }
    let path = joined_path(base, rel);
    let k = names.len() as int;
    assert(names.take(k) =~= names);
    if base.len() == 0 {
        let none = Seq::<Seq<char>>::empty();
        assert(path =~= rel);
        lemma_parts_then_names(none, names, k);
        assert(none + names =~= names);
        assert(parts(path) =~= names);
        crate::text::lemma_first_char(base, '/', 0);
        assert(split(base, '/') =~= seq![base]) by {
            assert(base.skip(0) =~= base);
        }
        assert(parts_upto(split(base, '/'), 0) =~= none);
        assert(parts(base) =~= none);
        assert(!begins(base, "/"@));
    } else {
        let front = if finishes(base, "/"@) {
            base.drop_last()
        } else {
            base
        };
        if finishes(base, "/"@) {
            assert(base.subrange(base.len() - 1, base.len() as int)[0] == '/');
            assert(base =~= front + seq!['/'] + Seq::<char>::empty());
            crate::text::lemma_split_two(front, Seq::empty(), '/', 0);
            let blank = Seq::<char>::empty();
            crate::text::lemma_first_char(blank, '/', 0);
            assert(split(blank, '/') =~= seq![blank]) by {
                assert(blank.skip(0) =~= blank);
            }
            let ps = split(front, '/');
            lemma_parts_before(ps, seq![blank], ps.len() as int);
            assert((ps + seq![blank])[ps.len() as int] == blank);
            assert(parts(base) == parts(front));
        }
        assert(path =~= front + seq!['/'] + rel);
        crate::text::lemma_split_two(front, rel, '/', 0);
        lemma_parts_then_names(split(front, '/'), names, k);
        assert(path[0] == base[0]);
        assert(path.subrange(0, 1) =~= base.subrange(0, 1));
    }
}

/// Where a file is on disk and what it is called in the project go back and
/// forth: a path under the root comes back from the place it has there.
pub proof fn a_relative_path_comes_back(root: Seq<char>, names: Seq<Seq<char>>)
    requires
        names.len() > 0,
        are_plain_names(names),
    ensures
        relative(root, joined_path(root, joined(names, "/"@))) == joined(names, "/"@),
{
    lemma_parts_joined(root, names);
    let path = joined_path(root, joined(names, "/"@));
    let n = parts(root).len() as int;
    assert(parts(path).take(n) =~= parts(root));
    assert(parts(path).skip(n) =~= names);
}

/// A path that does not lie under the root is called what it is.
pub proof fn a_path_elsewhere_is_left_alone(root: Seq<char>, path: Seq<char>)
    requires
        !lies_under(root, path),
    ensures
        relative(root, path) == path,
{
}

/// Choosing among the files keeps exactly those that hold, in order.
pub proof fn the_chosen_are_those_that_hold(
    files: Seq<Seq<char>>,
    p: spec_fn(Seq<char>) -> bool,
    path: Seq<char>,
)
    ensures
        chosen(files, p) == files.filter(p),
        chosen(files, p).contains(path) <==> files.contains(path) && p(path),
{
    lemma_chosen_filter(files, p);
    if files.contains(path) && p(path) {
        files.lemma_filter_contains(p, files.index_of(path));
    }
    if files.filter(p).contains(path) {
        files.lemma_filter_contains_rev(p, path);
        files.lemma_filter_pred(p, files.filter(p).index_of(path));
    }
}

proof fn lemma_chosen_filter(files: Seq<Seq<char>>, p: spec_fn(Seq<char>) -> bool)
    ensures
        chosen(files, p) == files.filter(p),
    decreases files.len(),
{
    reveal(Seq::filter);
    if files.len() > 0 {
        lemma_chosen_filter(files.drop_last(), p);
    }
}

/// Which directories are not gone into: fifteen by their names, every hidden
/// one but `.ddev`, and Drupal's own core. Every other one is.
pub proof fn a_projects_own_directories_are_entered(
    name: Seq<char>,
    path: Seq<char>,
    has_drupal_php: bool,
)
    ensures
        ({
            let listed = seq![
                "node_modules"@,
                "vendor"@,
                "dist"@,
                "build"@,
                "coverage"@,
                "target"@,
                "bower_components"@,
                "__pycache__"@,
                "tmp"@,
                "storybook-static"@,
                "contrib"@,
                "_astro"@,
                "_next"@,
                "_site"@,
                "pagefind"@,
            ].contains(name);
            let hidden = name.len() > 0 && name[0] == '.' && name != ".ddev"@;
            let n = parts(path).len() as int;
            let core = name_of(path) == Some("core"@) && (has_drupal_php || (n >= 2 && (parts(
                path,
            )[n - 2] == "web"@ || parts(path)[n - 2] == "docroot"@ || parts(path)[n - 2]
                == "html"@ || parts(path)[n - 2] == "public"@)));
            enters(name, path, has_drupal_php) <==> !listed && !hidden && !core
        }),
{
    let all = seq![
        "node_modules"@,
        "vendor"@,
        "dist"@,
        "build"@,
        "coverage"@,
        "target"@,
        "bower_components"@,
        "__pycache__"@,
        "tmp"@,
        "storybook-static"@,
        "contrib"@,
        "_astro"@,
        "_next"@,
        "_site"@,
        "pagefind"@,
    ];
    assert(all[0] == "node_modules"@ && all[1] == "vendor"@ && all[2] == "dist"@ && all[3]
        == "build"@ && all[4] == "coverage"@ && all[5] == "target"@ && all[6]
        == "bower_components"@ && all[7] == "__pycache__"@ && all[8] == "tmp"@ && all[9]
        == "storybook-static"@ && all[10] == "contrib"@ && all[11] == "_astro"@ && all[12]
        == "_next"@ && all[13] == "_site"@ && all[14] == "pagefind"@);
    assert(all.contains(name) == is_skip_dir(name));
    reveal_strlit(".");
    assert(begins(name, "."@) == (name.len() > 0 && name[0] == '.')) by {
        if name.len() > 0 {
            assert(name.subrange(0, 1) =~= seq![name[0]]);
            assert("."@ =~= seq!['.']);
            if name.subrange(0, 1) == "."@ {
                assert(name.subrange(0, 1)[0] == '.');
            }
        }
    }
}

/// What the walk keeps: stylesheets and components, and the configs that the
/// detectors ask for by name.
pub proof fn what_a_detector_asks_for_is_kept(path: Seq<char>, name: Seq<char>)
    requires
        name_of(path) == Some(name),
    ensures
        is_worth_keeping(path) <==> {
            ||| finishes(name, ".breakpoints.yml"@)
            ||| begins(name, "tailwind.config."@)
            ||| begins(name, "vite.config."@)
            ||| name == "package.json"@ || name == "composer.json"@ || name == ".lando.yml"@
                || name == ".lando.yaml"@ || name == "config.yaml"@ || name
                == "docker-compose.yml"@ || name == "docker-compose.yaml"@ || name
                == "compose.yml"@
            ||| extension_of_name(name) matches Some(e) && (e == "css"@ || e == "scss"@ || e
                == "sass"@ || e == "pcss"@ || e == "postcss"@ || e == "less"@ || e == "vue"@ || e
                == "svelte"@ || e == "astro"@)
        },
{
    super::css::six_languages_and_three_formats_are_read(path);
}

/// One file met on the walk: kept if it is asked for, of two megabytes or less,
/// and no limit has been reached; of a larger one the log says why it is not.
pub proof fn a_file_met_is_kept(w: Walked, rel: Seq<char>, bytes: Option<u64>, elapsed_ms: u64)
    requires
        w.seen < 120_000,
        w.files.len() < 3000,
        elapsed_ms <= 10_000,
    ensures
        ({
            let r = walk_step(w, Met::File { rel, bytes }, elapsed_ms);
            let large = bytes is Some && bytes->0 > 2_097_152;
            &&& r.0.seen == w.seen + 1
            &&& r.0.truncated == w.truncated
            &&& is_worth_keeping(rel) && !large ==> r.0.files == w.files.push(rel) && r.0.skipped
                == w.skipped
            &&& is_worth_keeping(rel) && large ==> r.0.files == w.files && r.0.skipped == w.skipped
                + 1 && r.1 == seq![Event::FileSkip { file: rel, reason: "larger than 2MB"@ }]
            &&& !is_worth_keeping(rel) ==> r.0.files == w.files && r.0.skipped == w.skipped
        }),
{
}

proof fn lemma_walk_keeps(w: Walked, entries: Seq<(Met, u64)>)
    ensures
        w.files.len() <= walk_over(w, entries).0.files.len(),
        forall|i: int|
            0 <= i < w.files.len() ==> #[trigger] walk_over(w, entries).0.files[i] == w.files[i],
    decreases entries.len(),
{
    if entries.len() > 0 && !w.truncated {
        let step = walk_step(w, entries[0].0, entries[0].1).0;
        lemma_walk_keeps(step, entries.drop_first());
        let r = walk_over(w, entries).0;
        assert forall|i: int| 0 <= i < w.files.len() implies #[trigger] r.files[i]
            == w.files[i] by {
            assert(step.files[i] == w.files[i]);
        }
    }
}

/// A walk that stays within its limits keeps every file that is asked for.
pub proof fn a_walk_within_its_limits_misses_nothing(
    w: Walked,
    entries: Seq<(Met, u64)>,
    k: int,
    rel: Seq<char>,
    bytes: Option<u64>,
)
    requires
        !w.truncated,
        w.seen + entries.len() <= 120_000,
        w.files.len() + entries.len() <= 3000,
        forall|i: int| 0 <= i < entries.len() ==> (#[trigger] entries[i]).1 <= 10_000,
        0 <= k < entries.len(),
        entries[k].0 == (Met::File { rel, bytes }),
        is_worth_keeping(rel),
        bytes is None || bytes->0 <= 2_097_152,
    ensures
        walk_over(w, entries).0.files.contains(rel),
    decreases entries.len(),
{
    let step = walk_step(w, entries[0].0, entries[0].1).0;
    let rest = entries.drop_first();
    assert(entries[0].1 <= 10_000);
    assert(!step.truncated && step.seen == w.seen + 1 && step.files.len() <= w.files.len() + 1);
    let r = walk_over(w, entries).0;
    if k == 0 {
        lemma_walk_keeps(step, rest);
        assert(step.files[w.files.len() as int] == rel);
        assert(r.files[w.files.len() as int] == rel);
    } else {
        assert(rest[k - 1] == entries[k]);
        assert forall|i: int| 0 <= i < rest.len() implies (#[trigger] rest[i]).1 <= 10_000 by {
            assert(rest[i] == entries[i + 1]);
        }
        a_walk_within_its_limits_misses_nothing(step, rest, k - 1, rel, bytes);
    }
}

proof fn lemma_last_dot(name: Seq<char>, i: int, k: int)
    requires
        0 <= k < i <= name.len(),
        name[k] == '.',
        forall|j: int| k < j < i ==> name[j] != '.',
    ensures
        last_dot(name, i) == Some(k),
    decreases i,
{
    if k < i - 1 {
        lemma_last_dot(name, i - 1, k);
    }
}

/// A name is its stem, the last dot in it, and its extension.
pub proof fn an_extension_follows_the_last_dot(stem: Seq<char>, ext: Seq<char>)
    requires
        stem.len() > 0,
        !ext.contains('.'),
    ensures
        extension_of_name(stem + seq!['.'] + ext) == Some(ext),
        stem_of_name(stem + seq!['.'] + ext) == stem,
        extension_of_name(ext) is None,
        stem_of_name(ext) == ext,
{
    let name = stem + seq!['.'] + ext;
    let k = stem.len() as int;
    assert(name[k] == '.');
    assert forall|j: int| k < j < name.len() implies name[j] != '.' by {
        assert(name[j] == ext[j - k - 1]);
        if name[j] == '.' {
            assert(ext.contains(ext[j - k - 1]));
        }
    }
    lemma_last_dot(name, name.len() as int, k);
    assert(name.skip(k + 1) =~= ext);
    assert(name.take(k) =~= stem);
    lemma_no_dot(ext, ext.len() as int);
}

proof fn lemma_no_dot(name: Seq<char>, i: int)
    requires
        0 <= i <= name.len(),
        !name.contains('.'),
    ensures
        last_dot(name, i) is None,
    decreases i,
{
    if i > 0 {
        assert(name.contains(name[i - 1]));
        lemma_no_dot(name, i - 1);
    }
}

/// Reading a file gives its text while there is any budget left, and takes its
/// bytes from what is left, down to none; with none left nothing is read.
pub proof fn a_read_gives_the_text_and_costs_its_bytes(
    disk: Seq<(Seq<char>, Given)>,
    path: Seq<char>,
    left: usize,
)
    ensures
        ({
            let r = read_of(disk, path, left);
            &&& left > 0 ==> (given(disk, path) matches Given::Text(t) ==> {
                &&& r.text == Some(t)
                &&& byte_len(t) <= left ==> r.left == left - byte_len(t)
                &&& byte_len(t) > left ==> r.left == 0
            })
            &&& left == 0 || !(given(disk, path) is Text) ==> r.text is None && r.left == left
            &&& r.events.len() == 1
        }),
{
}

} // verus!
