//! What a scan returns. Every detector produces these shapes and nothing else,
//! which is what lets a new detector be added without touching the merge.
//!
//! A width is kept in millionths of a pixel ([`PX`] is one pixel) and a
//! confidence in hundredths.

use vstd::prelude::*;
use crate::text::{clone_opt, clone_texts, opt_view, texts};

verus! {

/// One pixel, in the unit widths are kept in.
pub const PX: i64 = 1_000_000;

/// Where a width came from, in the order that decides which one wins.
#[derive(Debug, Clone, Copy, PartialEq, Eq, PartialOrd, Ord, Structural)]
pub enum Kind {
    /// Something we inferred rather than read.
    Inferred,
    /// A width found in a stylesheet's media queries.
    Css,
    /// A framework convention, not written down in this project.
    Framework,
    /// Written down deliberately: Tailwind's screens, a Drupal breakpoints file.
    Configured,
}

/// The place of a kind in the order that decides which one wins.
pub open spec fn kind_rank(k: Kind) -> int {
    match k {
        Kind::Inferred => 0,
        Kind::Css => 1,
        Kind::Framework => 2,
        Kind::Configured => 3,
    }
}

impl Kind {
    pub fn rank(self) -> (r: u8)
        ensures
            r == kind_rank(self),
    {
        match self {
            Kind::Inferred => 0,
            Kind::Css => 1,
            Kind::Framework => 2,
            Kind::Configured => 3,
        }
    }
}

/// Which side of a media query boundary a width describes.
#[derive(Debug, Clone, Copy, PartialEq, Eq, Structural)]
pub enum Edge {
    /// `min-width: 768px`, so the panel renders at 768.
    Min,
    /// `max-width: 767px`, so the range ends there and 768 is the pixel above it.
    Max,
}

/// One width a detector found.
#[derive(Debug)]
pub struct BreakpointDiscovery {
    pub width: i64,
    /// The framework's own name for it, when it has one.
    pub name: Option<String>,
    /// Human-readable provenance, e.g. "tailwind.config.js theme.screens".
    pub source: String,
    pub source_file: String,
    pub line: Option<usize>,
    pub confidence: u32,
    pub kind: Kind,
    pub edge: Edge,
    /// How many files this width appears in. A width used in nine files is a
    /// real breakpoint; one used once is probably a tweak.
    pub file_count: usize,
}

/// A [`BreakpointDiscovery`], with its texts as characters.
#[verifier::ext_equal]
pub struct Found {
    pub width: i64,
    pub name: Option<Seq<char>>,
    pub source: Seq<char>,
    pub source_file: Seq<char>,
    pub line: Option<usize>,
    pub confidence: u32,
    pub kind: Kind,
    pub edge: Edge,
    pub file_count: usize,
}

impl View for BreakpointDiscovery {
    type V = Found;

    open spec fn view(&self) -> Found {
        Found {
            width: self.width,
            name: opt_view(self.name),
            source: self.source@,
            source_file: self.source_file@,
            line: self.line,
            confidence: self.confidence,
            kind: self.kind,
            edge: self.edge,
            file_count: self.file_count,
        }
    }
}

impl Clone for BreakpointDiscovery {
    fn clone(&self) -> (r: Self)
        ensures
            r@ == self@,
    {
        BreakpointDiscovery {
            width: self.width,
            name: clone_opt(&self.name),
            source: self.source.as_str().to_owned(),
            source_file: self.source_file.as_str().to_owned(),
            line: self.line,
            confidence: self.confidence,
            kind: self.kind,
            edge: self.edge,
            file_count: self.file_count,
        }
    }
}

pub open spec fn founds(v: Seq<BreakpointDiscovery>) -> Seq<Found> {
    v.map_values(|b: BreakpointDiscovery| b@)
}

pub fn clone_founds(v: &Vec<BreakpointDiscovery>) -> (r: Vec<BreakpointDiscovery>)
    ensures
        founds(r@) == founds(v@),
{
    let mut out: Vec<BreakpointDiscovery> = Vec::new();
    let mut i: usize = 0;
    while i < v.len()
        invariant
            i <= v.len(),
            founds(out@) =~= founds(v@).take(i as int),
        decreases v.len() - i,
    {
        let ghost before = founds(out@);
        out.push(v[i].clone());
        assert(founds(out@) =~= before.push(v@[i as int]@));
        i += 1;
    }
    out
}

/// A width somebody wrote down on purpose.
pub open spec fn configured_width(
    width: i64,
    name: Seq<char>,
    source: Seq<char>,
    file: Seq<char>,
    line: Option<usize>,
) -> Found {
    Found {
        width,
        name: Some(name),
        source,
        source_file: file,
        line,
        confidence: 95,
        kind: Kind::Configured,
        edge: Edge::Min,
        file_count: 1,
    }
}

impl BreakpointDiscovery {
    pub fn configured(
        width: i64,
        name: &str,
        source: &str,
        file: &str,
        line: Option<usize>,
    ) -> (r: Self)
        ensures
            r@ == configured_width(width, name@, source@, file@, line),
    {
        BreakpointDiscovery {
            width,
            name: Some(name.to_owned()),
            source: source.to_owned(),
            source_file: file.to_owned(),
            line,
            confidence: 95,
            kind: Kind::Configured,
            edge: Edge::Min,
            file_count: 1,
        }
    }
}

/// One framework, and the widths its configuration resolved to.
#[derive(Debug)]
pub struct FrameworkDetection {
    pub framework: String,
    pub version: Option<String>,
    pub confidence: u32,
    pub source_file: String,
    pub breakpoints: Vec<BreakpointDiscovery>,
    /// Facts about the detection by name, in the order of the names.
    pub metadata: Vec<(String, String)>,
}

/// A [`FrameworkDetection`], with its texts as characters.
#[verifier::ext_equal]
pub struct FrameworkFound {
    pub framework: Seq<char>,
    pub version: Option<Seq<char>>,
    pub confidence: u32,
    pub source_file: Seq<char>,
    pub breakpoints: Seq<Found>,
    pub metadata: Seq<(Seq<char>, Seq<char>)>,
}

pub open spec fn pairs(v: Seq<(String, String)>) -> Seq<(Seq<char>, Seq<char>)> {
    v.map_values(|p: (String, String)| (p.0@, p.1@))
}

impl View for FrameworkDetection {
    type V = FrameworkFound;

    open spec fn view(&self) -> FrameworkFound {
        FrameworkFound {
            framework: self.framework@,
            version: opt_view(self.version),
            confidence: self.confidence,
            source_file: self.source_file@,
            breakpoints: founds(self.breakpoints@),
            metadata: pairs(self.metadata@),
        }
    }
}

pub open spec fn frameworks(v: Seq<FrameworkDetection>) -> Seq<FrameworkFound> {
    v.map_values(|f: FrameworkDetection| f@)
}

/// Somewhere the site might be served.
#[derive(Debug)]
pub struct DevServerDiscovery {
    pub url: String,
    pub port: Option<u16>,
    pub source: String,
    pub confidence: u32,
    /// Filled in after the reachability check. `None` means not checked yet.
    pub responding: Option<bool>,
}

/// A [`DevServerDiscovery`], with its texts as characters.
#[verifier::ext_equal]
pub struct ServerFound {
    pub url: Seq<char>,
    pub port: Option<u16>,
    pub source: Seq<char>,
    pub confidence: u32,
    pub responding: Option<bool>,
}

impl View for DevServerDiscovery {
    type V = ServerFound;

    open spec fn view(&self) -> ServerFound {
        ServerFound {
            url: self.url@,
            port: self.port,
            source: self.source@,
            confidence: self.confidence,
            responding: self.responding,
        }
    }
}

pub open spec fn servers(v: Seq<DevServerDiscovery>) -> Seq<ServerFound> {
    v.map_values(|d: DevServerDiscovery| d@)
}

/// One side of a disagreement.
#[derive(Debug)]
pub struct ConflictSide {
    pub label: String,
    pub width: i64,
    pub source_file: String,
    pub detail: String,
}

/// A [`ConflictSide`], with its texts as characters.
#[verifier::ext_equal]
pub struct SideFound {
    pub label: Seq<char>,
    pub width: i64,
    pub source_file: Seq<char>,
    pub detail: Seq<char>,
}

impl View for ConflictSide {
    type V = SideFound;

    open spec fn view(&self) -> SideFound {
        SideFound {
            label: self.label@,
            width: self.width,
            source_file: self.source_file@,
            detail: self.detail@,
        }
    }
}

/// Two sources disagreeing about the same named or nearby breakpoint. Surfaced,
/// never resolved silently.
#[derive(Debug)]
pub struct Conflict {
    pub name: String,
    pub left: ConflictSide,
    pub right: ConflictSide,
}

/// A [`Conflict`], with its texts as characters.
#[verifier::ext_equal]
pub struct ConflictFound {
    pub name: Seq<char>,
    pub left: SideFound,
    pub right: SideFound,
}

impl View for Conflict {
    type V = ConflictFound;

    open spec fn view(&self) -> ConflictFound {
        ConflictFound { name: self.name@, left: self.left@, right: self.right@ }
    }
}

pub open spec fn conflict_views(v: Seq<Conflict>) -> Seq<ConflictFound> {
    v.map_values(|c: Conflict| c@)
}

/// A parse failure or a discarded value, worded for the one-line warning row in
/// the scan sheet. `detail` is what the "why?" expander shows.
#[derive(Debug)]
pub struct ScanWarning {
    pub file: String,
    pub message: String,
    pub detail: Vec<String>,
}

/// A [`ScanWarning`], with its texts as characters.
#[verifier::ext_equal]
pub struct WarningFound {
    pub file: Seq<char>,
    pub message: Seq<char>,
    pub detail: Seq<Seq<char>>,
}

impl View for ScanWarning {
    type V = WarningFound;

    open spec fn view(&self) -> WarningFound {
        WarningFound { file: self.file@, message: self.message@, detail: texts(self.detail@) }
    }
}

impl Clone for ScanWarning {
    fn clone(&self) -> (r: Self)
        ensures
            r@ == self@,
    {
        ScanWarning {
            file: self.file.as_str().to_owned(),
            message: self.message.as_str().to_owned(),
            detail: clone_texts(&self.detail),
        }
    }
}

pub open spec fn warning_views(v: Seq<ScanWarning>) -> Seq<WarningFound> {
    v.map_values(|w: ScanWarning| w@)
}

/// What one detector produced. The scanner merges these.
#[derive(Debug)]
pub struct DetectorOutput {
    pub frameworks: Vec<FrameworkDetection>,
    pub breakpoints: Vec<BreakpointDiscovery>,
    pub dev_servers: Vec<DevServerDiscovery>,
    pub warnings: Vec<ScanWarning>,
}

/// A [`DetectorOutput`], with its texts as characters.
#[verifier::ext_equal]
pub struct OutputFound {
    pub frameworks: Seq<FrameworkFound>,
    pub breakpoints: Seq<Found>,
    pub dev_servers: Seq<ServerFound>,
    pub warnings: Seq<WarningFound>,
}

impl View for DetectorOutput {
    type V = OutputFound;

    open spec fn view(&self) -> OutputFound {
        OutputFound {
            frameworks: frameworks(self.frameworks@),
            breakpoints: founds(self.breakpoints@),
            dev_servers: servers(self.dev_servers@),
            warnings: warning_views(self.warnings@),
        }
    }
}

/// A detector that found nothing.
pub open spec fn nothing_found() -> OutputFound {
    OutputFound {
        frameworks: Seq::empty(),
        breakpoints: Seq::empty(),
        dev_servers: Seq::empty(),
        warnings: Seq::empty(),
    }
}

impl Default for DetectorOutput {
    fn default() -> (r: Self)
        ensures
            r@ == nothing_found(),
            r.frameworks@.len() == 0,
            r.breakpoints@.len() == 0,
            r.dev_servers@.len() == 0,
            r.warnings@.len() == 0,
    {
        let r = DetectorOutput {
            frameworks: Vec::new(),
            breakpoints: Vec::new(),
            dev_servers: Vec::new(),
            warnings: Vec::new(),
        };
        assert(r@ =~= nothing_found());
        r
    }
}

/// Everything one scan of a project found.
#[derive(Debug)]
pub struct ScanReport {
    pub project_root: String,
    pub project_name: String,
    pub frameworks: Vec<FrameworkDetection>,
    /// Merged and deduped across every detector, narrowest first.
    pub breakpoints: Vec<BreakpointDiscovery>,
    pub dev_servers: Vec<DevServerDiscovery>,
    pub conflicts: Vec<Conflict>,
    pub warnings: Vec<ScanWarning>,
    pub scanned_files: usize,
    pub skipped_files: usize,
    pub css_files: usize,
    pub duration_ms: u64,
    /// Hash of the extracted widths, not of the file bytes, so a save that
    /// changes nothing relevant is a no-op.
    pub source_hash: String,
    /// The file to name when talking about where the breakpoints came from.
    pub breakpoint_source_file: String,
    pub log_path: Option<String>,
    /// True when the walk hit a budget and stopped early.
    pub truncated: bool,
}

/// What a project configures counts for more than what its framework sets, that
/// for more than what its stylesheets use, and that for more than a guess.
pub proof fn what_is_configured_counts_most()
    ensures
        kind_rank(Kind::Configured) > kind_rank(Kind::Framework),
        kind_rank(Kind::Framework) > kind_rank(Kind::Css),
        kind_rank(Kind::Css) > kind_rank(Kind::Inferred),
{
}

/// A configured width keeps what was configured.
pub proof fn a_configured_width_is_as_configured(
    width: i64,
    name: Seq<char>,
    source: Seq<char>,
    file: Seq<char>,
    line: Option<usize>,
)
    ensures
        ({
            let f = configured_width(width, name, source, file, line);
            &&& f.width == width && f.name == Some(name) && f.source == source
            &&& f.source_file == file && f.line == line
            &&& f.kind == Kind::Configured && f.edge == Edge::Min
            &&& f.confidence == 95 && f.file_count == 1
        }),
{
}

} // verus!
