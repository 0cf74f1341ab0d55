//! The scanner: run every detector, merge what they found, and say where each
//! answer came from.
//!
//! Two rules matter more than the priority list. Never silently replace a
//! user's configuration with a lower-confidence discovery, and surface a
//! disagreement instead of guessing which side is right.

pub mod cluster;
pub mod comments;
pub mod css;
pub mod devserver;
pub mod drupal;
pub mod jsobj;
pub mod laws;
pub mod log;
pub mod manifest;
pub mod merge;
pub mod patterns;
pub mod record;
pub mod stylesheet;
pub mod tailwind;
pub mod types;
pub mod units;
pub mod walk;
pub mod yaml;

use vstd::prelude::*;
use vstd::string::StringExecFns;
use crate::order::{dedup, deduped, sorted, stable_sort, text_below, text_less};
use crate::text::{
    begins, begins_with, chars_of, clone_texts, contains_str, decimal, decimal_string, has,
    number_string, opt_view, plural, plural_of, same, same_opt, split, split_char, texts,
};
use crate::util::{short_hash, short_hash_of};
use css::{css_outcome, css_paths, gather_all, readable_extensions};
use devserver::devserver_outcome;
use drupal::{drupal_outcome, CoreDirs};
use log::{Event, Logged, ScanLog};
use merge::{
    breakpoint_source_file, conflicts_in, merge, merged_widths, misses_in, names_the_source,
    no_files_named,
};
use tailwind::tailwind_outcome;
use types::{
    conflict_views, founds, frameworks, servers, warning_views, BreakpointDiscovery, DetectorOutput,
    DevServerDiscovery, Found, FrameworkDetection, FrameworkFound, Kind, OutputFound, ScanReport,
    ScanWarning, ServerFound, WarningFound,
};
use units::{px_string, px_text};
use walk::{byte_len, file_name, name_of, Disk, FileIndex, Given, ReadBudget, MAX_CSS_BYTES};

verus! {

/// One line in the scan sheet, made as its detector finishes so the sheet fills
/// in rather than appearing all at once.
#[derive(Debug)]
pub struct ScanRow {
    /// "ok", "warn" or "error", which is the status glyph.
    pub status: String,
    pub label: String,
    pub source: Option<String>,
    /// True when the label is a URL or a path and should be set in mono.
    pub mono: bool,
    /// Log lines for the inline "why?" expander.
    pub detail: Vec<String>,
}

/// A [`ScanRow`], with its texts as characters.
#[verifier::ext_equal]
pub struct Row {
    pub status: Seq<char>,
    pub label: Seq<char>,
    pub source: Option<Seq<char>>,
    pub mono: bool,
    pub detail: Seq<Seq<char>>,
}

impl View for ScanRow {
    type V = Row;

    open spec fn view(&self) -> Row {
        Row {
            status: self.status@,
            label: self.label@,
            source: opt_view(self.source),
            mono: self.mono,
            detail: texts(self.detail@),
        }
    }
}

pub open spec fn row_views(v: Seq<ScanRow>) -> Seq<Row> {
    v.map_values(|r: ScanRow| r@)
}

pub open spec fn ok_row(label: Seq<char>, source: Option<Seq<char>>) -> Row {
    Row { status: "ok"@, label, source, mono: false, detail: Seq::empty() }
}

impl ScanRow {
    pub fn ok(label: String, source: Option<String>) -> (r: Self)
        ensures
            r@ == ok_row(label@, opt_view(source)),
    {
        let r = ScanRow {
            status: "ok".to_owned(),
            label,
            source,
            mono: false,
            detail: Vec::new(),
        };
        assert(r@.detail =~= Seq::<Seq<char>>::empty());
        r
    }
}

/// What the scan sheet calls a framework.
pub open spec fn framework_title(f: FrameworkFound) -> Seq<char> {
    if f.framework == "tailwind"@ {
        match f.version {
            Some(v) => "Tailwind CSS v"@ + v,
            None => "Tailwind CSS"@,
        }
    } else if f.framework == "drupal"@ {
        "Drupal breakpoints"@
    } else {
        f.framework
    }
}

pub open spec fn configured_count(found: Seq<Found>) -> nat
    decreases found.len(),
{
    if found.len() == 0 {
        0
    } else {
        configured_count(found.drop_last()) + if found.last().kind == Kind::Configured {
            1nat
        } else {
            0nat
        }
    }
}

/// The rows for one framework: what it is, and how many breakpoints somebody
/// configured in it, when somebody did.
pub open spec fn framework_rows(f: FrameworkFound) -> Seq<Row> {
    let n = configured_count(f.breakpoints);
    seq![ok_row(framework_title(f), Some(f.source_file))] + if n > 0 {
        seq![ok_row(decimal(n) + " configured breakpoint"@ + plural_of(n), None)]
    } else {
        Seq::empty()
    }
}

pub open spec fn all_framework_rows(fs: Seq<FrameworkFound>) -> Seq<Row>
    decreases fs.len(),
{
    if fs.len() == 0 {
        Seq::empty()
    } else {
        all_framework_rows(fs.drop_last()) + framework_rows(fs.last())
    }
}

pub open spec fn warning_row(w: WarningFound) -> Row {
    Row {
        status: "warn"@,
        label: w.message,
        source: Some(w.file),
        mono: false,
        detail: w.detail,
    }
}

pub open spec fn warning_rows(ws: Seq<WarningFound>) -> Seq<Row> {
    ws.map_values(|w: WarningFound| warning_row(w))
}

/// Frameworks in the order of their names; of one framework, the one that
/// resolved the most breakpoints first, then the one with the shorter path.
pub open spec fn framework_below(a: FrameworkFound, b: FrameworkFound) -> bool {
    if a.framework != b.framework {
        text_below(a.framework, b.framework)
    } else if a.breakpoints.len() != b.breakpoints.len() {
        a.breakpoints.len() > b.breakpoints.len()
    } else {
        byte_len(a.source_file) < byte_len(b.source_file)
    }
}

pub open spec fn same_framework(a: FrameworkFound, b: FrameworkFound) -> bool {
    a.framework == b.framework && a.version == b.version
}

/// Several stylesheets can each look like a Tailwind v4 config. They are one
/// framework, and the one that resolved the most breakpoints is the real one.
pub open spec fn distinct_frameworks(fs: Seq<FrameworkFound>) -> Seq<FrameworkFound> {
    deduped(
        sorted(fs, |a: FrameworkFound, b: FrameworkFound| framework_below(a, b)),
        |a: FrameworkFound, b: FrameworkFound| same_framework(a, b),
    )
}

/// What the source of a dev server is called.
pub open spec fn friendly_name(source: Seq<char>) -> Seq<char> {
    if begins(source, ".lando"@) {
        "Lando"@
    } else if has(source, "ddev"@) {
        "DDEV"@
    } else if begins(source, "vite.config"@) {
        "Vite"@
    } else if has(source, "compose"@) {
        "Docker Compose"@
    } else if begins(source, "package.json"@) {
        "package.json script"@
    } else {
        split(source, ' ')[0]
    }
}

pub fn friendly_source(source: &str) -> (r: String)
    ensures
        r@ == friendly_name(source@),
{
    if begins_with(source, ".lando") {
        "Lando".to_owned()
    } else if contains_str(source, "ddev") {
        "DDEV".to_owned()
    } else if begins_with(source, "vite.config") {
        "Vite".to_owned()
    } else if contains_str(source, "compose") {
        "Docker Compose".to_owned()
    } else if begins_with(source, "package.json") {
        "package.json script".to_owned()
    } else {
        let chars = chars_of(source);
        let pieces = split_char(chars.as_slice(), ' ');
        assert(split(source@, ' ')[0] == pieces@[0]@);
        pieces[0].as_str().to_owned()
    }
}

/// What a scan has gathered so far.
#[verifier::ext_equal]
pub struct Progress {
    pub rows: Seq<Row>,
    pub frameworks: Seq<FrameworkFound>,
    pub breakpoints: Seq<Found>,
    pub warnings: Seq<WarningFound>,
    pub servers: Seq<ServerFound>,
}

pub open spec fn no_progress() -> Progress {
    Progress {
        rows: Seq::empty(),
        frameworks: Seq::empty(),
        breakpoints: Seq::empty(),
        warnings: Seq::empty(),
        servers: Seq::empty(),
    }
}

/// After a framework detector.
pub open spec fn after_framework(p: Progress, out: OutputFound) -> Progress {
    let fs = distinct_frameworks(out.frameworks);
    Progress {
        rows: p.rows + all_framework_rows(fs) + warning_rows(out.warnings),
        frameworks: p.frameworks + fs,
        breakpoints: p.breakpoints + out.breakpoints,
        warnings: p.warnings + out.warnings,
        servers: p.servers,
    }
}

/// After the stylesheets, of which there are `files`.
pub open spec fn after_css(p: Progress, out: OutputFound, files: nat) -> Progress {
    let n = out.breakpoints.len();
    Progress {
        rows: p.rows + (if n > 0 {
            seq![
                ok_row(
                    decimal(n) + " CSS breakpoint"@ + plural_of(n),
                    Some(decimal(files) + " file"@ + plural_of(files)),
                ),
            ]
        } else {
            Seq::empty()
        }) + warning_rows(out.warnings),
        frameworks: p.frameworks,
        breakpoints: p.breakpoints + out.breakpoints,
        warnings: p.warnings + out.warnings,
        servers: p.servers,
    }
}

/// After the dev servers.
pub open spec fn after_servers(p: Progress, out: OutputFound) -> Progress {
    Progress {
        rows: p.rows + if out.dev_servers.len() > 0 {
            let best = out.dev_servers[0];
            seq![
                ok_row(friendly_name(best.source), Some(best.source)),
                Row {
                    status: "ok"@,
                    label: best.url,
                    source: None,
                    mono: true,
                    detail: Seq::empty(),
                },
            ]
        } else {
            Seq::empty()
        },
        servers: p.servers + out.dev_servers,
        ..p
    }
}

/// A scan in progress.
#[derive(Debug)]
pub struct Scan {
    rows: Vec<ScanRow>,
    frameworks: Vec<FrameworkDetection>,
    breakpoints: Vec<BreakpointDiscovery>,
    warnings: Vec<ScanWarning>,
    servers: Vec<DevServerDiscovery>,
}

impl View for Scan {
    type V = Progress;

    closed spec fn view(&self) -> Progress {
        Progress {
            rows: row_views(self.rows@),
            frameworks: frameworks(self.frameworks@),
            breakpoints: founds(self.breakpoints@),
            warnings: warning_views(self.warnings@),
            servers: servers(self.servers@),
        }
    }
}

fn count_configured(found: &Vec<BreakpointDiscovery>) -> (r: usize)
    ensures
        r == configured_count(founds(found@)),
{
    let ghost all = founds(found@);
    let mut n: usize = 0;
    let mut i: usize = 0;
    assert(all.take(0) =~= Seq::<Found>::empty());
    while i < found.len()
        invariant
            n <= i <= found@.len(),
            all == founds(found@),
            n == configured_count(all.take(i as int)),
        decreases found@.len() - i,
    {
        proof {
            assert(all.take(i + 1).drop_last() =~= all.take(i as int));
            assert(all.take(i + 1).last() == found@[i as int]@);
        }
        if found[i].kind == Kind::Configured {
            n += 1;
        }
        i += 1;
    }
    assert(all.take(all.len() as int) =~= all);
    n
}

fn title_of(f: &FrameworkDetection) -> (r: String)
    ensures
        r@ == framework_title(f@),
{
    if same(f.framework.as_str(), "tailwind") {
        match &f.version {
            Some(v) => {
                let mut out = "Tailwind CSS v".to_owned();
                out.append(v.as_str());
                out
            },
            None => "Tailwind CSS".to_owned(),
        }
    } else if same(f.framework.as_str(), "drupal") {
        "Drupal breakpoints".to_owned()
    } else {
        f.framework.as_str().to_owned()
    }
}

fn framework_less(a: &FrameworkDetection, b: &FrameworkDetection) -> (r: bool)
    ensures
        r == framework_below(a@, b@),
{
    assert(a@.breakpoints.len() == a.breakpoints@.len());
    assert(b@.breakpoints.len() == b.breakpoints@.len());
    if !same(a.framework.as_str(), b.framework.as_str()) {
        text_less(a.framework.as_str(), b.framework.as_str())
    } else if a.breakpoints.len() != b.breakpoints.len() {
        a.breakpoints.len() > b.breakpoints.len()
    } else {
        a.source_file.as_str().len() < b.source_file.as_str().len()
    }
}

fn framework_alike(a: &FrameworkDetection, b: &FrameworkDetection) -> (r: bool)
    ensures
        r == same_framework(a@, b@),
{
    same(a.framework.as_str(), b.framework.as_str()) && same_opt(&a.version, &b.version)
}

fn push_framework_rows(rows: &mut Vec<ScanRow>, f: &FrameworkDetection)
    ensures
        row_views(final(rows)@) == row_views(old(rows)@) + framework_rows(f@),
{
    let ghost before = row_views(rows@);
    let first = ScanRow::ok(title_of(f), Some(f.source_file.as_str().to_owned()));
    rows.push(first);
    assert(row_views(rows@) =~= before.push(first@));
    let n: usize = count_configured(&f.breakpoints);
    if n > 0 {
        let mut label = number_string(n);
        label.append(" configured breakpoint");
        label.append(plural(n));
        let second = ScanRow::ok(label, None);
        rows.push(second);
        assert(row_views(rows@) =~= before.push(first@).push(second@));
    }
    assert(row_views(rows@) =~= before + framework_rows(f@));
}

fn push_warning_rows(rows: &mut Vec<ScanRow>, ws: &Vec<ScanWarning>)
    ensures
        row_views(final(rows)@) == row_views(old(rows)@) + warning_rows(warning_views(ws@)),
{
    let ghost start = row_views(rows@);
    let ghost all = warning_rows(warning_views(ws@));
    let mut i: usize = 0;
    assert(start + all.take(0) =~= start);
    while i < ws.len()
        invariant
            i <= ws@.len(),
            all == warning_rows(warning_views(ws@)),
            row_views(rows@) == start + all.take(i as int),
        decreases ws@.len() - i,
    {
        let ghost before = row_views(rows@);
        let row = ScanRow {
            status: "warn".to_owned(),
            label: ws[i].message.as_str().to_owned(),
            source: Some(ws[i].file.as_str().to_owned()),
            mono: false,
            detail: clone_texts(&ws[i].detail),
        };
        rows.push(row);
        assert(row@ =~= all[i as int]);
        assert(row_views(rows@) =~= before.push(row@));
        assert(row_views(rows@) =~= start + all.take(i + 1));
        i += 1;
    }
    assert(all.take(all.len() as int) =~= all);
}

impl Scan {
    pub fn new() -> (r: Self)
        ensures
            r@ == no_progress(),
    {
        let r = Scan {
            rows: Vec::new(),
            frameworks: Vec::new(),
            breakpoints: Vec::new(),
            warnings: Vec::new(),
            servers: Vec::new(),
        };
        assert(r@ =~= no_progress());
        r
    }

    /// The rows made so far.
    pub fn rows(&self) -> (r: &Vec<ScanRow>)
        ensures
            row_views(r@) == self@.rows,
    {
        &self.rows
    }

    /// Take in what a framework detector found.
    pub fn take_framework(&mut self, out: DetectorOutput)
        ensures
            final(self)@ == after_framework(old(self)@, out@),
    {
        let ghost p = self@;
        let ghost o = out@;
        let ghost lt = |a: FrameworkDetection, b: FrameworkDetection| framework_below(a@, b@);
        let ghost eq = |a: FrameworkDetection, b: FrameworkDetection| same_framework(a@, b@);
        let ghost raw = out.frameworks@;
        let ordered = stable_sort(out.frameworks, framework_less, Ghost(lt));
        let ghost ord = ordered@;
        let mut fs = dedup(ordered, framework_alike, Ghost(eq));
        proof {
            crate::order::lemma_sorted_view(
                raw,
                lt,
                |f: FrameworkDetection| f@,
                |a: FrameworkFound, b: FrameworkFound| framework_below(a, b),
            );
            crate::order::lemma_deduped_view(
                ord,
                eq,
                |f: FrameworkDetection| f@,
                |a: FrameworkFound, b: FrameworkFound| same_framework(a, b),
            );
        }
        let ghost all = frameworks(fs@);
        assert(all == distinct_frameworks(o.frameworks));
        let mut i: usize = 0;
        assert(all.take(0) =~= Seq::<FrameworkFound>::empty());
        assert(p.rows + all_framework_rows(all.take(0)) =~= p.rows);
        while i < fs.len()
            invariant
                i <= fs@.len(),
                all == frameworks(fs@),
                row_views(self.rows@) == p.rows + all_framework_rows(all.take(i as int)),
                frameworks(self.frameworks@) == p.frameworks,
                founds(self.breakpoints@) == p.breakpoints,
                warning_views(self.warnings@) == p.warnings,
                servers(self.servers@) == p.servers,
            decreases fs@.len() - i,
        {
            proof {
                assert(all.take(i + 1).drop_last() =~= all.take(i as int));
                assert(all.take(i + 1).last() == fs@[i as int]@);
            }
            push_framework_rows(&mut self.rows, &fs[i]);
            proof {
                assert(p.rows + all_framework_rows(all.take(i as int)) + framework_rows(
                    fs@[i as int]@,
                ) =~= p.rows + all_framework_rows(all.take(i + 1)));
            }
            i += 1;
        }
        assert(all.take(all.len() as int) =~= all);
        push_warning_rows(&mut self.rows, &out.warnings);
        self.frameworks.append(&mut fs);
        assert(frameworks(self.frameworks@) =~= p.frameworks + all);
        let mut more = out.breakpoints;
        self.breakpoints.append(&mut more);
        assert(founds(self.breakpoints@) =~= p.breakpoints + o.breakpoints);
        let mut warned = out.warnings;
        self.warnings.append(&mut warned);
        assert(warning_views(self.warnings@) =~= p.warnings + o.warnings);
    }

    /// Take in what the stylesheets said.
    pub fn take_css(&mut self, out: DetectorOutput, files: usize)
        ensures
            final(self)@ == after_css(old(self)@, out@, files as nat),
    {
        let ghost p = self@;
        let ghost o = out@;
        let n: usize = out.breakpoints.len();
        assert(o.breakpoints.len() == n);
        if n > 0 {
            let mut label = number_string(n);
            label.append(" CSS breakpoint");
            label.append(plural(n));
            let mut source = number_string(files);
            source.append(" file");
            source.append(plural(files));
            let row = ScanRow::ok(label, Some(source));
            self.rows.push(row);
            assert(row_views(self.rows@) =~= p.rows + seq![row@]);
        } else {
            assert(p.rows + Seq::<Row>::empty() =~= p.rows);
        }
        push_warning_rows(&mut self.rows, &out.warnings);
        let mut more = out.breakpoints;
        self.breakpoints.append(&mut more);
        assert(founds(self.breakpoints@) =~= p.breakpoints + o.breakpoints);
        let mut warned = out.warnings;
        self.warnings.append(&mut warned);
        assert(warning_views(self.warnings@) =~= p.warnings + o.warnings);
    }

    /// Take in where the site might be served.
    pub fn take_servers(&mut self, out: DetectorOutput)
        ensures
            final(self)@ == after_servers(old(self)@, out@),
    {
        let ghost p = self@;
        let ghost o = out@;
        assert(o.dev_servers.len() == out.dev_servers@.len());
        if out.dev_servers.len() > 0 {
            let best = &out.dev_servers[0];
            assert(o.dev_servers[0] == best@);
            let first = ScanRow::ok(
                friendly_source(best.source.as_str()),
                Some(best.source.as_str().to_owned()),
            );
            let second = ScanRow {
                status: "ok".to_owned(),
                label: best.url.as_str().to_owned(),
                source: None,
                mono: true,
                detail: Vec::new(),
            };
            assert(second@.detail =~= Seq::<Seq<char>>::empty());
            self.rows.push(first);
            self.rows.push(second);
            assert(row_views(self.rows@) =~= p.rows + seq![first@, second@]);
        } else {
            assert(p.rows + Seq::<Row>::empty() =~= p.rows);
        }
        let mut more = out.dev_servers;
        self.servers.append(&mut more);
        assert(servers(self.servers@) =~= p.servers + o.dev_servers);
    }
}

/// The detectors, in the order they run. Framework configuration comes first,
/// because it outranks everything the CSS scan can find.
#[derive(Debug, Clone, Copy, PartialEq, Eq, Structural)]
pub enum Stage {
    Tailwind,
    Drupal,
    Css,
    DevServer,
}

pub open spec fn stage_label(stage: Stage) -> Seq<char> {
    match stage {
        Stage::Tailwind => "tailwind"@,
        Stage::Drupal => "drupal"@,
        Stage::Css => "css"@,
        Stage::DevServer => "devserver"@,
    }
}

pub fn label_of(stage: Stage) -> (r: &'static str)
    ensures
        r@ == stage_label(stage),
{
    match stage {
        Stage::Tailwind => "tailwind",
        Stage::Drupal => "drupal",
        Stage::Css => "css",
        Stage::DevServer => "devserver",
    }
}

/// The stages of a scan. Framework configuration comes first, because it
/// outranks everything the CSS scan can find and changes how the CSS results
/// are presented.
pub open spec fn stage_order() -> Seq<Stage> {
    seq![Stage::Tailwind, Stage::Drupal, Stage::Css, Stage::DevServer]
}

/// The stages of a scan, in the order they are run.
pub fn stages() -> (r: Vec<Stage>)
    ensures
        r@ == stage_order(),
{
    let mut r: Vec<Stage> = Vec::new();
    r.push(Stage::Tailwind);
    r.push(Stage::Drupal);
    r.push(Stage::Css);
    r.push(Stage::DevServer);
    assert(r@ =~= stage_order());
    r
}

/// What is known about a project besides the files in it.
#[derive(Debug, Clone, Copy, PartialEq, Eq, Structural)]
pub struct Surroundings {
    pub dirs: CoreDirs,
    /// Whether the scan is out of time before the dev server detector runs.
    pub late: bool,
}

/// Where a scan stands: what it gathered, what is left to read, its log, and
/// how many things the last stage found.
pub struct Staged {
    pub progress: Progress,
    pub left: usize,
    pub log: Logged,
    pub found: nat,
}

pub open spec fn started(log: Logged, label: Seq<char>) -> Logged {
    Logged {
        detector: Some(label),
        ..(Logged { detector: None, ..log }).with(seq![Event::DetectorStart { name: label }])
    }
}

/// One stage of a scan.
pub open spec fn after_stage(
    s: Staged,
    stage: Stage,
    files: Seq<Seq<char>>,
    disk: Seq<(Seq<char>, Given)>,
    around: Surroundings,
) -> Staged {
    let log = started(s.log, stage_label(stage));
    match stage {
        Stage::Tailwind => {
            let got = tailwind_outcome(files, disk, s.left);
            Staged {
                progress: after_framework(s.progress, got.out),
                left: got.left,
                log: log.with(got.events),
                found: got.out.breakpoints.len(),
            }
        },
        Stage::Drupal => {
            let got = drupal_outcome(files, around.dirs, disk, s.left);
            Staged {
                progress: after_framework(s.progress, got.out),
                left: got.left,
                log: log.with(got.events),
                found: got.out.breakpoints.len(),
            }
        },
        Stage::Css => {
            let read = gather_all(css_paths(files), disk, files, s.left);
            let got = css_outcome(read);
            Staged {
                progress: after_css(s.progress, got.0, css_paths(files).len()),
                left: read.left,
                log: log.with(got.1),
                found: got.0.breakpoints.len(),
            }
        },
        Stage::DevServer => {
            let got = devserver_outcome(files, disk, s.left, around.late);
            Staged {
                progress: after_servers(
                    s.progress,
                    OutputFound { dev_servers: got.found, ..types::nothing_found() },
                ),
                left: got.left,
                log: log.with(got.events),
                found: got.found.len(),
            }
        },
    }
}

/// How many stylesheets an index holds.
pub fn count_stylesheets(index: &FileIndex) -> (r: usize)
    ensures
        r == css_paths(texts(index.files@)).len(),
{
    let exts = readable_extensions();
    let paths = index.by_extension(&exts);
    proof {
        let f = |p: Seq<char>| walk::has_extension(p, css::readable());
        let g = |p: Seq<char>| walk::has_extension(p, texts(exts@));
        assert(f =~= g);
        assert(texts(paths@).len() == paths@.len());
    }
    paths.len()
}

impl Scan {
    /// Run one stage, and say how many things it found.
    pub fn run_stage(
        &mut self,
        stage: Stage,
        index: &FileIndex,
        around: Surroundings,
        disk: &Disk,
        budget: &mut ReadBudget,
        log: &mut ScanLog,
    ) -> (r: usize)
        ensures
            ({
                let s = after_stage(
                    Staged {
                        progress: old(self)@,
                        left: old(budget)@,
                        log: old(log)@,
                        found: 0,
                    },
                    stage,
                    texts(index.files@),
                    disk@,
                    around,
                );
                &&& final(self)@ == s.progress
                &&& final(budget)@ == s.left
                &&& final(log)@ == s.log
                &&& r == s.found
            }),
    {
        log.detector_start(label_of(stage));
        match stage {
            Stage::Tailwind => {
                let out = tailwind::run(index, disk, budget, log);
                assert(out@.breakpoints.len() == out.breakpoints@.len());
                let n: usize = out.breakpoints.len();
                self.take_framework(out);
                n
            },
            Stage::Drupal => {
                let out = drupal::run(index, around.dirs, disk, budget, log);
                assert(out@.breakpoints.len() == out.breakpoints@.len());
                let n: usize = out.breakpoints.len();
                self.take_framework(out);
                n
            },
            Stage::Css => {
                let out = css::run(index, disk, budget, log);
                assert(out@.breakpoints.len() == out.breakpoints@.len());
                let n: usize = out.breakpoints.len();
                self.take_css(out, count_stylesheets(index));
                n
            },
            Stage::DevServer => {
                let out = devserver::run(index, around.late, disk, budget, log);
                assert(out@.dev_servers.len() == out.dev_servers@.len());
                let n: usize = out.dev_servers.len();
                self.take_servers(out);
                n
            },
        }
    }
}

/// Everything a scan comes to.
#[derive(Debug)]
pub struct ScanOutcome {
    pub report: ScanReport,
    pub rows: Vec<ScanRow>,
    pub log: ScanLog,
}

/// The row for a scan that found no breakpoint at all.
pub open spec fn nothing_row(scanned: nat) -> Row {
    Row {
        status: "warn"@,
        label: "No breakpoints found"@,
        source: Some(decimal(scanned) + " file"@ + plural_of(scanned) + " read"@),
        mono: false,
        detail: seq![
            "No framework config resolved and no width media queries in any stylesheet."@,
            "The standard device sizes are what Break/Points offers instead."@,
        ],
    }
}

pub open spec fn width_list(found: Seq<Found>) -> Seq<i64> {
    found.map_values(|b: Found| b.width)
}

pub open spec fn width_texts(found: Seq<Found>) -> Seq<Seq<char>> {
    found.map_values(|b: Found| px_text(b.width as int))
}

/// What a project is called: the last part of its path.
pub open spec fn project_name(root: Seq<char>) -> Seq<char> {
    match name_of(root) {
        Some(n) => n,
        None => "project"@,
    }
}

/// Whether an outcome is what a scan of `root` that gathered `p`, over an index
/// of `scanned` files, comes to.
pub open spec fn is_outcome(
    r: ScanOutcome,
    p: Progress,
    root: Seq<char>,
    scanned: nat,
    log: Logged,
) -> bool {
    let merged = merged_widths(p.breakpoints);
    let conflicts = conflicts_in(merged);
    &&& r.report.project_root@ == root
    &&& r.report.project_name@ == project_name(root)
    &&& frameworks(r.report.frameworks@) == p.frameworks
    &&& founds(r.report.breakpoints@) == merged
    &&& servers(r.report.dev_servers@) == p.servers
    &&& conflict_views(r.report.conflicts@) == conflicts
    &&& warning_views(r.report.warnings@) == p.warnings
    &&& r.report.source_hash@ == short_hash_of(width_texts(merged))
    &&& if no_files_named(merged) {
        r.report.breakpoint_source_file@ == if p.frameworks.len() > 0 {
            p.frameworks[0].source_file
        } else {
            "css media queries"@
        }
    } else {
        names_the_source(merged, r.report.breakpoint_source_file@)
    }
    &&& r.report.log_path is None
    &&& row_views(r.rows@) == if merged.len() == 0 {
        p.rows.push(nothing_row(scanned))
    } else {
        p.rows
    }
    &&& r.log@ == log.with(
        misses_in(merged, merged.len() as int).events.push(
            Event::Merged { widths: width_list(merged), conflicts: conflicts.len() as usize },
        ),
    )
}

fn widths_of(found: &Vec<BreakpointDiscovery>) -> (r: (Vec<i64>, Vec<String>))
    ensures
        r.0@ == width_list(founds(found@)),
        texts(r.1@) == width_texts(founds(found@)),
{
    let mut widths: Vec<i64> = Vec::new();
    let mut shown: Vec<String> = Vec::new();
    let ghost ws = width_list(founds(found@));
    let ghost ts = width_texts(founds(found@));
    let mut i: usize = 0;
    assert(widths@ =~= ws.take(0));
    assert(texts(shown@) =~= ts.take(0));
    while i < found.len()
        invariant
            i <= found@.len(),
            ws == width_list(founds(found@)),
            ts == width_texts(founds(found@)),
            widths@ == ws.take(i as int),
            texts(shown@) == ts.take(i as int),
        decreases found@.len() - i,
    {
        let ghost before = texts(shown@);
        let ghost b4 = widths@;
        widths.push(found[i].width);
        let t = px_string(found[i].width);
        shown.push(t);
        assert(texts(shown@) =~= before.push(t@));
        assert(ts.take(i + 1) =~= ts.take(i as int).push(ts[i as int]));
        assert(ws.take(i + 1) =~= ws.take(i as int).push(ws[i as int]));
        i += 1;
    }
    assert(ws.take(ws.len() as int) =~= ws);
    assert(ts.take(ts.len() as int) =~= ts);
    (widths, shown)
}

fn row_for_nothing(scanned: usize) -> (r: ScanRow)
    ensures
        r@ == nothing_row(scanned as nat),
{
    let mut source = number_string(scanned);
    source.append(" file");
    source.append(plural(scanned));
    source.append(" read");
    let mut detail: Vec<String> = Vec::new();
    detail.push(
        "No framework config resolved and no width media queries in any stylesheet.".to_owned(),
    );
    detail.push("The standard device sizes are what Break/Points offers instead.".to_owned());
    let r = ScanRow {
        status: "warn".to_owned(),
        label: "No breakpoints found".to_owned(),
        source: Some(source),
        mono: false,
        detail,
    };
    assert(r@ =~= nothing_row(scanned as nat));
    r
}

impl Scan {
    /// Merge what the detectors found and put the report together.
    pub fn finish(self, root: &str, index: &FileIndex, duration_ms: u64, log: ScanLog) -> (r:
        ScanOutcome)
        ensures
            is_outcome(r, self@, root@, index.scanned as nat, log@),
            r.report.scanned_files == index.scanned,
            r.report.skipped_files == index.skipped,
            r.report.css_files == css_paths(texts(index.files@)).len(),
            r.report.duration_ms == duration_ms,
            r.report.truncated == index.truncated,
    {
        let ghost p = self@;
        let ghost start = log@;
        let mut log = log;
        let (merged, conflicts) = merge(self.breakpoints, &mut log);
        let ghost m = merged_widths(p.breakpoints);
        assert(conflict_views(conflicts@).len() == conflicts@.len());
        assert(m.len() == merged@.len());
        let (widths, shown) = widths_of(&merged);
        log.merged(widths, conflicts.len());
        proof {
            let said = misses_in(m, m.len() as int).events;
            let e = Event::Merged {
                widths: width_list(m),
                conflicts: conflicts_in(m).len() as usize,
            };
            log::lemma_with_with(start, said, seq![e]);
            assert(said + seq![e] =~= said.push(e));
        }
        let mut rows = self.rows;
        if merged.len() == 0 {
            let row = row_for_nothing(index.scanned);
            rows.push(row);
            assert(row_views(rows@) =~= p.rows.push(row@));
        }
        let source_hash = short_hash(&shown);
        let source_file = breakpoint_source_file(&merged, &self.frameworks);
        assert(p.frameworks.len() == self.frameworks@.len());
        let project_name = match file_name(root) {
            Some(n) => n,
            None => "project".to_owned(),
        };
        let report = ScanReport {
            project_root: root.to_owned(),
            project_name,
            frameworks: self.frameworks,
            breakpoints: merged,
            dev_servers: self.servers,
            conflicts,
            warnings: self.warnings,
            scanned_files: index.scanned,
            skipped_files: index.skipped,
            css_files: count_stylesheets(index),
            duration_ms,
            source_hash,
            breakpoint_source_file: source_file,
            log_path: None,
            truncated: index.truncated,
        };
        ScanOutcome { report, rows, log }
    }
}

/// How long each stage took, in milliseconds, and the whole scan.
#[derive(Debug, Clone, Copy, PartialEq, Eq, Structural)]
pub struct Timings {
    pub tailwind: u64,
    pub drupal: u64,
    pub css: u64,
    pub devserver: u64,
    pub total: u64,
}

/// A stage and the log line that ends it.
pub open spec fn stage_ended(s: Staged, stage: Stage, took_ms: u64) -> Staged {
    Staged {
        log: Logged {
            detector: None,
            ..s.log.with(
                seq![
                    Event::DetectorEnd {
                        name: stage_label(stage),
                        found: s.found as usize,
                        took_ms,
                    },
                ],
            )
        },
        found: 0,
        ..s
    }
}

pub open spec fn time_for(took: Timings, stage: Stage) -> u64 {
    match stage {
        Stage::Tailwind => took.tailwind,
        Stage::Drupal => took.drupal,
        Stage::Css => took.css,
        Stage::DevServer => took.devserver,
    }
}

fn time_of(took: Timings, stage: Stage) -> (r: u64)
    ensures
        r == time_for(took, stage),
{
    match stage {
        Stage::Tailwind => took.tailwind,
        Stage::Drupal => took.drupal,
        Stage::Css => took.css,
        Stage::DevServer => took.devserver,
    }
}

/// The first `n` stages, in order.
pub open spec fn first_stages(
    n: int,
    log: Logged,
    files: Seq<Seq<char>>,
    disk: Seq<(Seq<char>, Given)>,
    around: Surroundings,
    took: Timings,
) -> Staged
    decreases n,
{
    if n <= 0 {
        Staged { progress: no_progress(), left: MAX_CSS_BYTES, log, found: 0 }
    } else {
        let stage = stage_order()[n - 1];
        let s = first_stages(n - 1, log, files, disk, around, took);
        stage_ended(after_stage(s, stage, files, disk, around), stage, time_for(took, stage))
    }
}

/// Every stage, in order.
pub open spec fn all_stages(
    log: Logged,
    files: Seq<Seq<char>>,
    disk: Seq<(Seq<char>, Given)>,
    around: Surroundings,
    took: Timings,
) -> Staged {
    first_stages(stage_order().len() as int, log, files, disk, around, took)
}

/// Run every stage, and hand over what was gathered, with the log.
#[verifier::rlimit(30)]
fn run_stages(
    index: &FileIndex,
    around: Surroundings,
    disk: &Disk,
    took: Timings,
    log: ScanLog,
) -> (r: (Scan, ScanLog))
    ensures
        r.0@ == all_stages(log@, texts(index.files@), disk@, around, took).progress,
        r.1@ == all_stages(log@, texts(index.files@), disk@, around, took).log,
{
    let ghost files = texts(index.files@);
    let ghost start = log@;
    let mut log = log;
    let mut budget = ReadBudget::new();
    let mut scan = Scan::new();
    let order = stages();
    let mut i: usize = 0;
    while i < order.len()
        invariant
            i <= order@.len(),
            order@ == stage_order(),
            files == texts(index.files@),
            ({
                let s = first_stages(i as int, start, files, disk@, around, took);
                &&& scan@ == s.progress
                &&& budget@ == s.left
                &&& log@ == s.log
                &&& s.found == 0
            }),
        decreases order@.len() - i,
    {
        let stage = order[i];
        let ghost before = first_stages(i as int, start, files, disk@, around, took);
        assert(before == (Staged {
            progress: scan@,
            left: budget@,
            log: log@,
            found: 0,
        }));
        let n: usize = scan.run_stage(stage, index, around, disk, &mut budget, &mut log);
        log.detector_end(label_of(stage), n, time_of(took, stage));
        i += 1;
    }
    (scan, log)
}

/// Run every detector against an indexed project, merge what they found, and
/// say where each answer came from.
pub fn scan(
    root: &str,
    index: &FileIndex,
    around: Surroundings,
    disk: &Disk,
    took: Timings,
    log: ScanLog,
) -> (r: ScanOutcome)
    ensures
        ({
            let s = all_stages(log@, texts(index.files@), disk@, around, took);
            is_outcome(r, s.progress, root@, index.scanned as nat, s.log)
        }),
        r.report.scanned_files == index.scanned,
        r.report.skipped_files == index.skipped,
        r.report.css_files == css_paths(texts(index.files@)).len(),
        r.report.duration_ms == took.total,
        r.report.truncated == index.truncated,
{
    let (scan, log) = run_stages(index, around, disk, took, log);
    scan.finish(root, index, took.total, log)
}

/// A file that a report depends on: its name, when it was last changed, and
/// its size.
#[derive(Debug)]
pub struct Stamp {
    pub name: String,
    pub modified_secs: u64,
    pub bytes: u64,
}

/// The files whose change makes a report out of date.
pub fn stamped_files() -> (r: Vec<&'static str>)
    ensures
        r@.map_values(|s: &str| s@) == seq![
            "tailwind.config.js"@,
            "tailwind.config.ts"@,
            "tailwind.config.cjs"@,
            "tailwind.config.mjs"@,
            "package.json"@,
            ".lando.yml"@,
            "vite.config.js"@,
            "vite.config.ts"@,
            "breakpoints.md"@,
            ".breakpoints.json"@,
        ],
{
    let mut r: Vec<&'static str> = Vec::new();
    r.push("tailwind.config.js");
    r.push("tailwind.config.ts");
    r.push("tailwind.config.cjs");
    r.push("tailwind.config.mjs");
    r.push("package.json");
    r.push(".lando.yml");
    r.push("vite.config.js");
    r.push("vite.config.ts");
    r.push("breakpoints.md");
    r.push(".breakpoints.json");
    assert(r@.map_values(|s: &str| s@) =~= seq![
        "tailwind.config.js"@,
        "tailwind.config.ts"@,
        "tailwind.config.cjs"@,
        "tailwind.config.mjs"@,
        "package.json"@,
        ".lando.yml"@,
        "vite.config.js"@,
        "vite.config.ts"@,
        "breakpoints.md"@,
        ".breakpoints.json"@,
    ]);
    r
}

pub open spec fn stamp_text(s: Stamp) -> Seq<char> {
    s.name@ + ":"@ + decimal(s.modified_secs as nat) + ":"@ + decimal(s.bytes as nat)
}

/// What a report is kept against: the stamps of the files that are there.
pub fn cache_key(stamps: &Vec<Stamp>) -> (r: String)
    ensures
        r@ == short_hash_of(stamps@.map_values(|s: Stamp| stamp_text(s))),
{
    let ghost all = stamps@.map_values(|s: Stamp| stamp_text(s));
    let mut parts: Vec<String> = Vec::new();
    let mut i: usize = 0;
    assert(texts(parts@) =~= all.take(0));
    while i < stamps.len()
        invariant
            i <= stamps@.len(),
            all == stamps@.map_values(|s: Stamp| stamp_text(s)),
            texts(parts@) == all.take(i as int),
        decreases stamps@.len() - i,
    {
        let ghost before = texts(parts@);
        let mut t = stamps[i].name.as_str().to_owned();
        t.append(":");
        t.append(decimal_string(stamps[i].modified_secs).as_str());
        t.append(":");
        t.append(decimal_string(stamps[i].bytes).as_str());
        parts.push(t);
        assert(texts(parts@) =~= before.push(t@));
        assert(all.take(i + 1) =~= all.take(i as int).push(all[i as int]));
        i += 1;
    }
    assert(all.take(all.len() as int) =~= all);
    short_hash(&parts)
}

/// The last report, kept so that reopening a project is instant.
#[derive(Debug)]
pub struct ScanCache {
    held: Option<(String, String, ScanReport)>,
}

/// What a cache holds: a project, the key its report was kept against, and the
/// report.
pub struct Held {
    pub root: Seq<char>,
    pub key: Seq<char>,
    pub report: ScanReport,
}

impl View for ScanCache {
    type V = Option<Held>;

    closed spec fn view(&self) -> Option<Held> {
        match self.held {
            Some((root, key, report)) => Some(Held { root: root@, key: key@, report }),
            None => None,
        }
    }
}

impl ScanCache {
    pub fn new() -> (r: Self)
        ensures
            r@ is None,
    {
        ScanCache { held: None }
    }

    /// The report kept for this project, if nothing it depends on changed.
    pub fn cached(&self, root: &str, key: &str) -> (r: Option<&ScanReport>)
        ensures
            match r {
                Some(report) => self@ == Some(
                    Held { root: root@, key: key@, report: *report },
                ),
                None => !(self@ matches Some(h) && h.root == root@ && h.key == key@),
            },
    {
        match &self.held {
            Some((held_root, held_key, report)) => if same(held_root.as_str(), root) && same(
                held_key.as_str(),
                key,
            ) {
                Some(report)
            } else {
                None
            },
            None => None,
        }
    }

    /// Keep a report, in place of the one before it.
    pub fn remember(&mut self, root: &str, key: &str, report: ScanReport)
        ensures
            final(self)@ == Some(Held { root: root@, key: key@, report }),
    {
        self.held = Some((root.to_owned(), key.to_owned(), report));
    }
}

} // verus!
