//! The shapes that cross every boundary in the app: to the chrome, to disk, to
//! an agent. One definition each.

use vstd::prelude::*;
use vstd::string::StringExecFns;
use crate::scanner::types::PX;
use crate::table::{find_in, keyed, lookup};
use crate::text::{
    ascii_lower, chars_of, clone_opt, decimal, decimal_string, digit_char, first_match,
    is_ascii_letter, is_digit, lemma_first_match, lower, opt_view, replace_all, replaced,
    replaced_from, string_of, trim_of, trimmed_of,
};

verus! {

/// A measurement's whole pixels, with what is past the point dropped.
pub open spec fn whole_text(w: int) -> Seq<char> {
    if w <= -1_000_000 {
        "-"@ + decimal((-w / 1_000_000) as nat)
    } else if w < 0 {
        decimal(0)
    } else {
        decimal((w / 1_000_000) as nat)
    }
}

pub fn whole_string(w: i64) -> (r: String)
    ensures
        r@ == whole_text(w as int),
{
    if w <= -1_000_000 {
        let m: u64 = (-(w as i128)) as u64;
        let mut out = "-".to_owned();
        out.append(decimal_string(m / 1_000_000).as_str());
        out
    } else if w < 0 {
        decimal_string(0)
    } else {
        decimal_string(w as u64 / 1_000_000)
    }
}

/// A character of an id: a lowercase letter, a digit, or a dash.
pub open spec fn id_char(c: char) -> char {
    if is_ascii_letter(c) || is_digit(c) {
        ascii_lower(c)
    } else {
        '-'
    }
}

pub open spec fn id_base(name: Seq<char>) -> Seq<char> {
    let base = replaced(trimmed_of(name.map_values(|c: char| id_char(c)), seq!['-']), "--"@, "-"@);
    if base.len() == 0 {
        "vp"@
    } else {
        base
    }
}

/// The id of a viewport: its name in safe characters, and its width.
pub open spec fn id_of(name: Seq<char>, width: int) -> Seq<char> {
    id_base(name) + "-"@ + whole_text(width)
}

/// Ids have to survive a round trip through a webview label and an agent
/// request, so they are lowercase ASCII with the width appended to keep two
/// same-named viewports apart.
pub fn slug_id(name: &str, width: i64) -> (r: String)
    ensures
        r@ == id_of(name@, width as int),
{
    let chars = chars_of(name);
    let ghost all = name@.map_values(|c: char| id_char(c));
    let mut safe: Vec<char> = Vec::new();
    let mut i: usize = 0;
    assert(safe@ =~= all.take(0));
    while i < chars.len()
        invariant
            i <= chars@.len(),
            chars@ == name@,
            all == name@.map_values(|c: char| id_char(c)),
            safe@ == all.take(i as int),
        decreases chars@.len() - i,
    {
        let c = chars[i];
        let safe_char = if crate::text::ascii_letter(c) || crate::text::digit(c) {
            lower(c)
        } else {
            '-'
        };
        safe.push(safe_char);
        assert(all.take(i + 1) =~= all.take(i as int).push(all[i as int]));
        i += 1;
    }
    assert(all.take(all.len() as int) =~= all);
    let dash: Vec<char> = vec!['-'];
    assert(dash@ =~= seq!['-']);
    let trimmed = trim_of(safe.as_slice(), dash.as_slice());
    let two = chars_of("--");
    let one = chars_of("-");
    proof {
        reveal_strlit("--");
    }
    let base = replace_all(trimmed, two.as_slice(), one.as_slice());
    let mut out = if base.len() == 0 {
        "vp".to_owned()
    } else {
        string_of(base.as_slice())
    };
    out.append("-");
    out.append(whole_string(width).as_str());
    out
}

/// A character that an id may hold.
pub open spec fn safe_in_id(c: char) -> bool {
    ('a' <= c && c <= 'z') || is_digit(c) || c == '-'
}

pub open spec fn safe_id(s: Seq<char>) -> bool {
    forall|i: int| 0 <= i < s.len() ==> safe_in_id(#[trigger] s[i])
}

proof fn lemma_id_char(c: char)
    ensures
        safe_in_id(id_char(c)),
{
}

proof fn lemma_decimal_safe(n: nat)
    ensures
        safe_id(decimal(n)),
        decimal(n).len() > 0,
    decreases n,
{
    if n >= 10 {
        lemma_decimal_safe(n / 10);
    }
}

proof fn lemma_replaced_safe(s: Seq<char>, pat: Seq<char>, with: Seq<char>, from: int)
    requires
        safe_id(s),
        safe_id(with),
        0 <= from <= s.len(),
        pat.len() > 0,
    ensures
        safe_id(replaced_from(s, pat, with, from)),
    decreases s.len() - from,
{
    lemma_first_match(s, pat, from);
    match first_match(s, pat, from) {
        None => {
            assert(safe_id(s.skip(from)));
        },
        Some(k) => {
            assert(safe_id(s.subrange(from, k)));
            lemma_replaced_safe(s, pat, with, k + pat.len());
        },
    }
}

proof fn lemma_strip_back_safe(s: Seq<char>, f: spec_fn(char) -> bool)
    requires
        safe_id(s),
    ensures
        safe_id(crate::text::strip_back(s, f)),
    decreases s.len(),
{
    if s.len() > 0 {
        assert(safe_id(s.drop_last()));
        lemma_strip_back_safe(s.drop_last(), f);
    }
}

proof fn lemma_strip_front_safe(s: Seq<char>, f: spec_fn(char) -> bool)
    requires
        safe_id(s),
    ensures
        safe_id(crate::text::strip_front(s, f)),
    decreases s.len(),
{
    if s.len() > 0 {
        assert(safe_id(s.skip(1)));
        assert(safe_id(s.drop_first()));
        lemma_strip_front_safe(s.drop_first(), f);
    }
}

proof fn lemma_base_safe(name: Seq<char>)
    ensures
        safe_id(id_base(name)),
{
    reveal_strlit("-");
    reveal_strlit("--");
    reveal_strlit("vp");
    let mapped = name.map_values(|c: char| id_char(c));
    assert forall|i: int| 0 <= i < mapped.len() implies safe_in_id(#[trigger] mapped[i]) by {
        lemma_id_char(name[i]);
    }
    let g = |c: char| seq!['-'].contains(c);
    lemma_strip_front_safe(mapped, g);
    lemma_strip_back_safe(crate::text::strip_front(mapped, g), g);
    lemma_strip_back_safe(mapped, g);
    lemma_strip_front_safe(crate::text::strip_back(mapped, g), g);
    let t = trimmed_of(mapped, seq!['-']);
    assert(safe_id(t));
    lemma_replaced_safe(t, "--"@, "-"@, 0);
}

/// An id is lowercase ASCII: letters, digits and dashes, and nothing else.
pub proof fn an_id_is_lowercase_ascii(name: Seq<char>, width: int)
    ensures
        safe_id(id_of(name, width)),
{
    reveal_strlit("-");
    lemma_base_safe(name);
    lemma_decimal_safe(0);
    if width <= -1_000_000 {
        lemma_decimal_safe((-width / 1_000_000) as nat);
    } else if width >= 0 {
        lemma_decimal_safe((width / 1_000_000) as nat);
    }
}

proof fn lemma_decimal_apart(a: nat, b: nat)
    requires
        decimal(a) == decimal(b),
    ensures
        a == b,
    decreases a,
{
    assert(decimal(a).last() == digit_char((a % 10) as int));
    assert(decimal(b).last() == digit_char((b % 10) as int));
    lemma_decimal_safe(a / 10);
    lemma_decimal_safe(b / 10);
    assert((a % 10 + 48) as char == (b % 10 + 48) as char);
    assert(a % 10 == b % 10);
    if a >= 10 && b >= 10 {
        assert(decimal(a).drop_last() =~= decimal(a / 10));
        assert(decimal(b).drop_last() =~= decimal(b / 10));
        lemma_decimal_apart(a / 10, b / 10);
    } else if a >= 10 {
        assert(decimal(a).len() > 1);
        assert(decimal(b).len() == 1);
    } else if b >= 10 {
        assert(decimal(b).len() > 1);
        assert(decimal(a).len() == 1);
    }
}

/// Two viewports of one name and different whole widths have different ids.
pub proof fn the_width_keeps_two_of_one_name_apart(name: Seq<char>, a: int, b: int)
    requires
        0 <= a,
        0 <= b,
        a / 1_000_000 != b / 1_000_000,
    ensures
        id_of(name, a) != id_of(name, b),
{
    if id_of(name, a) == id_of(name, b) {
        let head = id_base(name) + "-"@;
        let n = head.len() as int;
        assert(id_of(name, a).skip(n) =~= whole_text(a));
        assert(id_of(name, b).skip(n) =~= whole_text(b));
        lemma_decimal_apart((a / 1_000_000) as nat, (b / 1_000_000) as nat);
    }
}

/// One panel's declared size, in millionths of a pixel. Width is the
/// measurement that matters; height is derived (see `generate`) and always
/// editable afterwards.
#[derive(Debug)]
pub struct Viewport {
    pub id: String,
    pub name: String,
    pub width: i64,
    pub height: i64,
    /// Framework key this came from: "md", "narrow", "css", "custom".
    pub source: String,
    pub enabled: bool,
    /// A Figma node URL or a repo-relative image path under `.breakpoints/refs/`.
    pub reference: Option<String>,
}

/// A [`Viewport`], with its texts as characters.
#[verifier::ext_equal]
pub struct Panelled {
    pub id: Seq<char>,
    pub name: Seq<char>,
    pub width: i64,
    pub height: i64,
    pub source: Seq<char>,
    pub enabled: bool,
    pub reference: Option<Seq<char>>,
}

impl View for Viewport {
    type V = Panelled;

    open spec fn view(&self) -> Panelled {
        Panelled {
            id: self.id@,
            name: self.name@,
            width: self.width,
            height: self.height,
            source: self.source@,
            enabled: self.enabled,
            reference: opt_view(self.reference),
        }
    }
}

impl Clone for Viewport {
    fn clone(&self) -> (r: Self)
        ensures
            r@ == self@,
    {
        Viewport {
            id: self.id.as_str().to_owned(),
            name: self.name.as_str().to_owned(),
            width: self.width,
            height: self.height,
            source: self.source.as_str().to_owned(),
            enabled: self.enabled,
            reference: clone_opt(&self.reference),
        }
    }
}

pub open spec fn fresh_viewport(
    name: Seq<char>,
    width: i64,
    height: i64,
    source: Seq<char>,
) -> Panelled {
    Panelled {
        id: id_of(name, width as int),
        name,
        width,
        height,
        source,
        enabled: true,
        reference: None,
    }
}

impl Viewport {
    pub fn new(name: &str, width: i64, height: i64, source: &str) -> (r: Self)
        ensures
            r@ == fresh_viewport(name@, width, height, source@),
    {
        Viewport {
            id: slug_id(name, width),
            name: name.to_owned(),
            width,
            height,
            source: source.to_owned(),
            enabled: true,
            reference: None,
        }
    }
}

pub open spec fn viewports(v: Seq<Viewport>) -> Seq<Panelled> {
    v.map_values(|x: Viewport| x@)
}

pub fn clone_viewports(v: &Vec<Viewport>) -> (r: Vec<Viewport>)
    ensures
        viewports(r@) == viewports(v@),
{
    let mut out: Vec<Viewport> = Vec::new();
    let mut i: usize = 0;
    assert(viewports(out@) =~= viewports(v@).take(0));
    while i < v.len()
        invariant
            i <= v@.len(),
            viewports(out@) == viewports(v@).take(i as int),
        decreases v@.len() - i,
    {
        let ghost before = viewports(out@);
        let x = v[i].clone();
        out.push(x);
        assert(viewports(out@) =~= before.push(x@));
        assert(viewports(v@).take(i + 1) =~= viewports(v@).take(i as int).push(v@[i as int]@));
        i += 1;
    }
    assert(viewports(v@).take(v@.len() as int) =~= viewports(v@));
    out
}

/// A device of the generic set.
pub open spec fn device(name: Seq<char>, width: int, height: int) -> Panelled {
    fresh_viewport(name, (width * 1_000_000) as i64, (height * 1_000_000) as i64, "device"@)
}

pub open spec fn standard_devices() -> Seq<Panelled> {
    seq![
        device("Mobile Small"@, 375, 667),
        device("Mobile Regular"@, 430, 932),
        device("Tablet"@, 768, 1024),
        device("Desktop"@, 1440, 900),
        device("Wide"@, 1920, 1080),
    ]
}

/// The generic set. Not the default experience: this is what you get when
/// Break/Points has nothing better to offer.
pub fn fallback_viewports() -> (r: Vec<Viewport>)
    ensures
        viewports(r@) == standard_devices(),
{
    let mut r: Vec<Viewport> = Vec::new();
    r.push(Viewport::new("Mobile Small", 375 * PX, 667 * PX, "device"));
    r.push(Viewport::new("Mobile Regular", 430 * PX, 932 * PX, "device"));
    r.push(Viewport::new("Tablet", 768 * PX, 1024 * PX, "device"));
    r.push(Viewport::new("Desktop", 1440 * PX, 900 * PX, "device"));
    r.push(Viewport::new("Wide", 1920 * PX, 1080 * PX, "device"));
    assert(viewports(r@) =~= standard_devices());
    r
}

#[derive(Debug)]
pub struct Profile {
    pub name: String,
    pub locked: bool,
    pub viewports: Vec<Viewport>,
}

#[derive(Debug)]
pub struct ProjectRecord {
    pub url: Option<String>,
    pub last_scan: Option<String>,
    /// Hash of the extracted breakpoint widths, not of the file bytes. A save
    /// that changes no width is a no-op.
    pub source_hash: Option<String>,
    pub framework: Option<String>,
    /// Where this project's screenshots are written. `None` means the user's
    /// Downloads folder.
    ///
    /// Per project rather than app-wide, because a screenshot is evidence about
    /// one site and filing all of them together makes them useless the moment
    /// you are working on two.
    pub shot_dir: Option<String>,
}

/// A [`Profile`], with its texts as characters.
#[verifier::ext_equal]
pub struct ProfileKept {
    pub name: Seq<char>,
    pub locked: bool,
    pub viewports: Seq<Panelled>,
}

impl View for Profile {
    type V = ProfileKept;

    open spec fn view(&self) -> ProfileKept {
        ProfileKept {
            name: self.name@,
            locked: self.locked,
            viewports: viewports(self.viewports@),
        }
    }
}

/// A [`ProjectRecord`], with its texts as characters.
#[verifier::ext_equal]
pub struct RecordKept {
    pub url: Option<Seq<char>>,
    pub last_scan: Option<Seq<char>>,
    pub source_hash: Option<Seq<char>>,
    pub framework: Option<Seq<char>>,
    pub shot_dir: Option<Seq<char>>,
}

impl View for ProjectRecord {
    type V = RecordKept;

    open spec fn view(&self) -> RecordKept {
        RecordKept {
            url: opt_view(self.url),
            last_scan: opt_view(self.last_scan),
            source_hash: opt_view(self.source_hash),
            framework: opt_view(self.framework),
            shot_dir: opt_view(self.shot_dir),
        }
    }
}

impl Clone for ProjectRecord {
    fn clone(&self) -> (r: Self)
        ensures
            r@ == self@,
    {
        ProjectRecord {
            url: clone_opt(&self.url),
            last_scan: clone_opt(&self.last_scan),
            source_hash: clone_opt(&self.source_hash),
            framework: clone_opt(&self.framework),
            shot_dir: clone_opt(&self.shot_dir),
        }
    }
}

/// What is known of a project that was never opened.
pub open spec fn blank_record() -> RecordKept {
    RecordKept { url: None, last_scan: None, source_hash: None, framework: None, shot_dir: None }
}

impl Default for ProjectRecord {
    fn default() -> (r: Self)
        ensures
            r@ == blank_record(),
    {
        ProjectRecord {
            url: None,
            last_scan: None,
            source_hash: None,
            framework: None,
            shot_dir: None,
        }
    }
}

#[derive(Debug, Clone, Copy, PartialEq, Eq, Structural)]
pub enum HeightStrategy {
    /// Aspect ratio of a real device in that size class.
    DeviceRatio,
    /// One height for every panel.
    Fixed,
    /// Whatever you typed.
    Manual,
}

#[derive(Debug, Clone, Copy, PartialEq, Eq, Structural)]
pub enum FitMode {
    /// Each panel scaled so it fits vertically.
    Height,
    /// One factor across the row, so relative proportions stay true.
    Uniform,
}

/// Where a panel sits vertically, and whether it keeps its declared height.
///
/// `Top` is the honest default: a viewport's declared height is a guess at a
/// device, and drawing it at that height from a fixed top edge is the least
/// the app can claim. `Center` is the same heights, balanced in the space,
/// which reads better when the panels are much shorter than the window.
/// `Stretch` throws the declared height away and takes the window's instead,
/// for when you want to see as much of a page as you can. Width is never
/// touched by any of them, because the width is the breakpoint.
#[derive(Debug, Clone, Copy, PartialEq, Eq, Structural)]
pub enum VerticalAlign {
    Top,
    Center,
    Stretch,
}

impl Default for VerticalAlign {
    fn default() -> (r: Self)
        ensures
            r == VerticalAlign::Top,
    {
        VerticalAlign::Top
    }
}

impl VerticalAlign {
    /// True when the declared height is replaced by the window's.
    pub fn stretches(self) -> (r: bool)
        ensures
            r == (self == VerticalAlign::Stretch),
    {
        self == VerticalAlign::Stretch
    }
}

#[derive(Debug)]
pub struct AppConfig {
    pub active_profile: String,
    pub profiles: Vec<(String, Profile)>,
    pub projects: Vec<(String, ProjectRecord)>,
    pub url_to_project: Vec<(String, String)>,
    pub last_url: Option<String>,
    pub last_project: Option<String>,
    pub height_strategy: HeightStrategy,
    pub fixed_height: i64,
    pub fit_mode: FitMode,
    pub edge_testing: bool,
    pub zoom_to_fit: bool,
    /// Where a panel sits in the space between the labels and the status bar,
    /// and whether it keeps its own height at all.
    ///
    /// One setting rather than two flags, because the three answers are
    /// alternatives: a panel is at the top, or it is centred, or it is stretched
    /// to the window. Two booleans could say "centred and stretched", which
    /// means nothing.
    pub vertical_align: VerticalAlign,
    /// How far the whole row is zoomed out, in millionths of the slider's
    /// travel.
    ///
    /// Stored as the slider's own position rather than as the resulting scale,
    /// because the position is what has to come back on the slider.
    ///
    /// Separate from Fit, and multiplied with it. Fit answers "make this fit
    /// the height"; this answers "show me more of the row", and doing both is
    /// a reasonable thing to want.
    pub row_zoom: i64,
    /// The old boolean that the alignment replaced. Read so that a config
    /// written before the change keeps the setting it had, never written back.
    pub legacy_full_height: Option<bool>,
    pub scroll_sync: bool,
    /// Whether a link followed in one panel is followed in all of them.
    pub follow_links: bool,
    pub agent_bridge: bool,
    pub bridge_token: Option<String>,
    /// Where the window was last left, so it comes back there instead of in
    /// the middle of whatever you are working on.
    pub window: Option<WindowGeometry>,
    /// Which browser "Open in browser" uses, by id. `None` means none has been
    /// chosen and the first installed one wins.
    pub browser: Option<String>,
    /// Which terminal the "Start a session" button opens, by id. `None` means
    /// none has been chosen and the first installed one wins.
    pub terminal: Option<String>,
    /// The command that button runs in it. `None` means the default in
    /// `terminal`.
    pub agent_command: Option<String>,
    /// The standing instruction sent with every reported problem.
    ///
    /// A note says what is wrong. It does not say what to do about it, and an
    /// agent handed only a description will guess. This is the sentence in
    /// front of it, editable because what you want done with a note is a matter
    /// of how you work rather than something the app should decide.
    pub report_prompt: Option<String>,
    /// Run the layout checks again whenever the project's stylesheets change.
    ///
    /// Off by default. A rebuild every few seconds should not start an audit
    /// every few seconds, and somebody in the middle of editing does not want
    /// a notice every time they save.
    pub recheck_on_change: bool,
}

/// What travels with a note when nobody has written their own instruction.
pub const DEFAULT_REPORT_PROMPT: &'static str =
    "Fix this layout problem in the project this panel is pointed at.\n\nVerify the premise before changing anything: measure the element at the width given and confirm it is actually wrong. Notes are written quickly while looking at a screen, and some of them describe something that is already correct. If it is already correct, say so rather than changing it.\n\nThe width is the point. A fix that works at one width and breaks another is not a fix.";

/// Position and size of the main window, in millionths of a logical pixel.
#[derive(Debug, Clone, Copy, PartialEq, Eq, Structural)]
pub struct WindowGeometry {
    pub x: i64,
    pub y: i64,
    pub width: i64,
    pub height: i64,
}

/// How much of a window has to be on the screen for it to be grabbed.
pub const WINDOW_EDGE: i64 = 80_000_000;

pub open spec fn grabbable(w: WindowGeometry, screen_width: int, screen_height: int) -> bool {
    &&& w.width >= 400_000_000
    &&& w.height >= 300_000_000
    &&& w.x + w.width > WINDOW_EDGE
    &&& w.y + w.height > WINDOW_EDGE
    &&& w.x < screen_width - WINDOW_EDGE
    &&& w.y < screen_height - WINDOW_EDGE
}

impl WindowGeometry {
    /// Is this somewhere a window could actually be seen?
    ///
    /// A saved position outlives the display it was saved on. Unplug an
    /// external monitor and the window comes back at x = 2400 on a laptop that
    /// stops at 1512, which looks exactly like the app failing to launch.
    pub fn fits_within(&self, screen_width: i64, screen_height: i64) -> (r: bool)
        ensures
            r == grabbable(*self, screen_width as int, screen_height as int),
    {
        self.width >= 400_000_000 && self.height >= 300_000_000 && self.x as i128
            + self.width as i128 > WINDOW_EDGE as i128 && self.y as i128 + self.height as i128
            > WINDOW_EDGE as i128 && (self.x as i128) < screen_width as i128
            - WINDOW_EDGE as i128 && (self.y as i128) < screen_height as i128
            - WINDOW_EDGE as i128
    }
}

/// A window that can be grabbed shows a point of itself on the screen.
pub proof fn a_restored_window_can_be_reached(
    w: WindowGeometry,
    screen_width: int,
    screen_height: int,
)
    requires
        grabbable(w, screen_width, screen_height),
        screen_width > WINDOW_EDGE,
        screen_height > WINDOW_EDGE,
    ensures
        exists|x: int, y: int|
            #![trigger on_both(w, x, y, screen_width, screen_height)]
            on_both(w, x, y, screen_width, screen_height),
{
    let x = if w.x < 0 {
        0
    } else {
        w.x as int
    };
    let y = if w.y < 0 {
        0
    } else {
        w.y as int
    };
    assert(on_both(w, x, y, screen_width, screen_height));
}

/// A point that is both in the window and on the screen.
pub open spec fn on_both(
    w: WindowGeometry,
    x: int,
    y: int,
    screen_width: int,
    screen_height: int,
) -> bool {
    &&& w.x <= x < w.x + w.width
    &&& w.y <= y < w.y + w.height
    &&& 0 <= x < screen_width
    &&& 0 <= y < screen_height
}

impl Default for AppConfig {
    fn default() -> (r: Self)
        ensures
            r.active_profile@ == "default"@,
            r.profiles@.len() == 1,
            r.profiles@[0].0@ == "default"@,
            r.profiles@[0].1.name@ == "Default"@,
            r.profiles@[0].1.locked,
            viewports(r.profiles@[0].1.viewports@) == standard_devices(),
            r.projects@.len() == 0,
            r.url_to_project@.len() == 0,
            r.last_url is None,
            r.last_project is None,
            r.height_strategy == HeightStrategy::DeviceRatio,
            r.fixed_height == 900_000_000,
            r.fit_mode == FitMode::Height,
            !r.edge_testing,
            r.zoom_to_fit,
            r.vertical_align == VerticalAlign::Top,
            r.legacy_full_height is None,
            r.row_zoom == 0,
            r.scroll_sync,
            r.follow_links,
            !r.agent_bridge,
            r.bridge_token is None,
            r.window is None,
            r.browser is None,
            r.terminal is None,
            r.agent_command is None,
            r.report_prompt is None,
            !r.recheck_on_change,
    {
        let mut profiles: Vec<(String, Profile)> = Vec::new();
        profiles.push(
            (
                "default".to_owned(),
                Profile {
                    name: "Default".to_owned(),
                    locked: true,
                    viewports: fallback_viewports(),
                },
            ),
        );
        AppConfig {
            active_profile: "default".to_owned(),
            profiles,
            projects: Vec::new(),
            url_to_project: Vec::new(),
            last_url: None,
            last_project: None,
            height_strategy: HeightStrategy::DeviceRatio,
            fixed_height: 900 * PX,
            fit_mode: FitMode::Height,
            edge_testing: false,
            zoom_to_fit: true,
            vertical_align: VerticalAlign::Top,
            legacy_full_height: None,
            row_zoom: 0,
            scroll_sync: true,
            follow_links: true,
            agent_bridge: false,
            bridge_token: None,
            window: None,
            browser: None,
            terminal: None,
            agent_command: None,
            report_prompt: None,
            recheck_on_change: false,
        }
    }
}

/// A config whose settings have the shapes of today.
pub open spec fn migrated(c: AppConfig) -> AppConfig {
    AppConfig {
        vertical_align: if c.legacy_full_height == Some(true) && c.vertical_align
            == VerticalAlign::Top {
            VerticalAlign::Stretch
        } else {
            c.vertical_align
        },
        legacy_full_height: None,
        ..c
    }
}

impl AppConfig {
    /// Carry forward settings whose shape has changed.
    ///
    /// `fullHeight` was a boolean and is now one of three alignments. Without
    /// this, somebody who worked with stretched panels opens the app after an
    /// update and finds them back at their declared heights with no
    /// explanation, which reads as the app having forgotten something.
    pub fn migrate(&mut self)
        ensures
            *final(self) == migrated(*old(self)),
    {
        if let Some(true) = self.legacy_full_height {
            if self.vertical_align == VerticalAlign::Top {
                self.vertical_align = VerticalAlign::Stretch;
            }
        }
        // Read once. Saving never writes it back, so the next load has nothing
        // to carry.
        self.legacy_full_height = None;
    }

    pub fn active_viewports(&self) -> (r: Vec<Viewport>)
        ensures
            viewports(r@) == match lookup(keyed(self.profiles@), self.active_profile@) {
                Some(p) => viewports(p.viewports@),
                None => standard_devices(),
            },
    {
        match find_in(&self.profiles, self.active_profile.as_str()) {
            Some(i) => clone_viewports(&self.profiles[i].1.viewports),
            None => fallback_viewports(),
        }
    }
}

/// Migrating what was migrated changes nothing.
pub proof fn migrating_twice_changes_nothing(c: AppConfig)
    ensures
        migrated(migrated(c)) == migrated(c),
{
}

/// A choice of alignment other than the default is never overwritten by the
/// old boolean.
pub proof fn a_new_choice_outlives_the_old_boolean(c: AppConfig)
    requires
        c.vertical_align != VerticalAlign::Top,
    ensures
        migrated(c).vertical_align == c.vertical_align,
{
}

/// What a panel is doing, so the chrome can draw the failed state at the
/// panel's exact size rather than collapsing it.
#[derive(Debug, Clone, Copy, PartialEq, Eq, Structural)]
pub enum PanelState {
    Loading,
    Loaded,
    Failed(u16),
}

/// Whether the dev URL answered. Drives the warn dot in the toolbar.
#[derive(Debug, Clone, Copy, PartialEq, Eq, Structural)]
pub enum UrlStatus {
    Unknown,
    Answering,
    NotResponding,
}

impl Default for UrlStatus {
    fn default() -> (r: Self)
        ensures
            r == UrlStatus::Unknown,
    {
        UrlStatus::Unknown
    }
}

/// A window can be grabbed when it is at least four hundred by three hundred and
/// more than eighty pixels of it are on the screen in both directions.
pub proof fn a_window_shows_its_edge(w: WindowGeometry, screen_width: int, screen_height: int)
    ensures
        grabbable(w, screen_width, screen_height) <==> {
            &&& w.width >= 400_000_000 && w.height >= 300_000_000
            &&& w.x + w.width > 80_000_000 && w.y + w.height > 80_000_000
            &&& w.x < screen_width - 80_000_000 && w.y < screen_height - 80_000_000
        },
{
}

/// A name of letters and digits stands in its id in lower case, with the whole
/// width behind it.
pub proof fn a_plain_name_stands_in_its_id(name: Seq<char>, width: int)
    requires
        name.len() > 0,
        forall|i: int|
            0 <= i < name.len() ==> is_ascii_letter(#[trigger] name[i]) || is_digit(name[i]),
        0 <= width,
    ensures
        id_of(name, width) == crate::text::lowered(name) + "-"@ + decimal(
            (width / 1_000_000) as nat,
        ),
{
    reveal_strlit("--");
    let m = name.map_values(|c: char| id_char(c));
    assert forall|i: int| 0 <= i < m.len() implies #[trigger] m[i] == ascii_lower(name[i]) && m[i]
        != '-' by {
        assert(is_ascii_letter(name[i]) || is_digit(name[i]));
    }
    assert(m =~= crate::text::lowered(name));
    let f = |c: char| seq!['-'].contains(c);
    assert(!f(m[0]) && !f(m.last()));
    assert(trimmed_of(m, seq!['-']) == m);
    let pat = "--"@;
    lemma_first_match(m, pat, 0);
    if first_match(m, pat, 0) is Some {
        let k = first_match(m, pat, 0)->0;
        assert(m.subrange(k, k + 2)[0] == '-');
        assert(m[k] == '-');
    }
    assert(m.skip(0) =~= m);
    assert(replaced(m, pat, "-"@) == m);
}

} // verus!
