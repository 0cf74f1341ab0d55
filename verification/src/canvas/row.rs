//! The row of panels: what each is doing, and what to do to which of them when
//! something happens.
//!
//! Panels are real child webviews positioned at absolute pixel coordinates
//! inside the window. They are not part of the chrome's DOM, so nothing in CSS
//! can move them; every position is computed here and pushed. What is returned
//! says which panel to show, move, or send somewhere; the shell does it.

use vstd::prelude::*;
use vstd::string::StringExecFns;
use super::follow::{decided, without, Follow, FollowAction, Following, Waiting};
use super::layout::{
    clamped_scroll, disagreement, in_sight, layout, panel_on_screen, panned, places, row_width,
    width_disagrees, Fitting, Placement, Scale, FAR, MOST_PANELS,
};
use super::names::{as_int, match_viewport, meant};
use crate::model::{viewports, FitMode, PanelState, Panelled, Viewport};
use crate::scanner::units::{px_string, px_text};
use crate::state::{line_views, lines_of, AppState, ConsoleLine, Line};
use crate::text::{begins, begins_with, clone_opt, listed, opt_view, same, same_opt, texts};
use crate::util::{normalize_url, normalized};

verus! {

/// A panel whose position we cannot vouch for. Out of the range of a position,
/// so it never matches a target and the next sync always tells it.
pub const UNKNOWN_SCROLL: i64 = -1_000_000;

/// How far a panel has to be from the target before it is worth telling, in
/// millionths of the page's scrollable height.
///
/// A proportion of the page, not pixels, because that is what is being synced.
/// A thousandth of a long page is a pixel or two, which nobody can see.
pub const SYNC_EPSILON: i64 = 1000;

#[derive(Debug)]
pub struct Panel {
    pub viewport: Viewport,
    /// x position when the canvas scroll offset is zero.
    pub home_x: i128,
    pub scale: Scale,
    /// On-screen size, which is the declared size times the scale.
    pub width: i128,
    pub height: i128,
    pub state: PanelState,
    /// In millionths of the scrollable height.
    pub last_scroll_pct: i64,
    /// The URL of the document this panel is actually showing, as reported by
    /// the navigation delegate.
    ///
    /// Not the same as the row's URL, and the difference is load bearing. A row
    /// opened on http that redirects to https leaves the row's URL on http,
    /// and whether a panel's messages have to be collected by the pump depends
    /// on the protocol of the document the panel really has.
    pub document_url: String,
    /// The width the page itself last said it was, or `None` before it has
    /// said anything.
    ///
    /// The declared width being exact is the property this whole app rests on.
    /// When the page disagrees, something has gone wrong that is invisible
    /// otherwise: a docked inspector taking the frame, a layout that happened
    /// before the zoom landed, or a width changed while the panels were hidden
    /// and never applied.
    pub reported_width: Option<i64>,
    /// Whether this webview has ever committed a navigation. Until it has,
    /// asking the page for its message queue empties it and loses whatever was
    /// in it.
    pub ever_committed: bool,
}

/// A [`Panel`], with its texts as characters.
#[verifier::ext_equal]
pub struct PanelNow {
    pub viewport: Panelled,
    pub home_x: i128,
    pub scale: Scale,
    pub width: i128,
    pub height: i128,
    pub state: PanelState,
    pub scroll: i64,
    pub document_url: Seq<char>,
    pub reported_width: Option<i64>,
    pub ever_committed: bool,
}

impl View for Panel {
    type V = PanelNow;

    open spec fn view(&self) -> PanelNow {
        PanelNow {
            viewport: self.viewport@,
            home_x: self.home_x,
            scale: self.scale,
            width: self.width,
            height: self.height,
            state: self.state,
            scroll: self.last_scroll_pct,
            document_url: self.document_url@,
            reported_width: self.reported_width,
            ever_committed: self.ever_committed,
        }
    }
}

pub open spec fn panels(v: Seq<Panel>) -> Seq<PanelNow> {
    v.map_values(|p: Panel| p@)
}

#[derive(Debug)]
pub struct Canvas {
    pub panels: Vec<Panel>,
    pub scroll_x: i128,
    pub total_width: i128,
    pub url: String,
    pub zoom_to_fit: bool,
    pub fit_mode: FitMode,
    pub sync_on: bool,
    /// Whether a link followed in one panel is followed in all of them.
    pub follow: Follow,
    /// Whether the panels are armed to pick an element and describe a problem.
    pub picking: bool,
    /// Every panel as tall as the canvas, instead of at its declared height.
    pub full_height: bool,
    /// True while a sheet is open. Panels are hidden so the chrome can draw
    /// over the canvas; child webviews always composite above it.
    pub panels_hidden: bool,
    /// The panel whose Web Inspector is open, if any.
    ///
    /// Inspecting is a mode rather than a one-off action, because opening the
    /// inspector does two things to the row that have to be undone together.
    pub inspecting: Option<String>,
    /// Panels whose first navigation was reported before the panel itself had
    /// been added to the row. That report is what marks a panel safe to ask
    /// questions of, so it has to survive until the panel is there.
    pub committed_early: Vec<String>,
}

/// A [`Canvas`], with its texts as characters.
#[verifier::ext_equal]
pub struct CanvasNow {
    pub panels: Seq<PanelNow>,
    pub scroll_x: i128,
    pub total_width: i128,
    pub url: Seq<char>,
    pub zoom_to_fit: bool,
    pub fit_mode: FitMode,
    pub sync_on: bool,
    pub follow: Following,
    pub picking: bool,
    pub full_height: bool,
    pub panels_hidden: bool,
    pub inspecting: Option<Seq<char>>,
    pub committed_early: Set<Seq<char>>,
}

impl View for Canvas {
    type V = CanvasNow;

    open spec fn view(&self) -> CanvasNow {
        CanvasNow {
            panels: panels(self.panels@),
            scroll_x: self.scroll_x,
            total_width: self.total_width,
            url: self.url@,
            zoom_to_fit: self.zoom_to_fit,
            fit_mode: self.fit_mode,
            sync_on: self.sync_on,
            follow: self.follow@,
            picking: self.picking,
            full_height: self.full_height,
            panels_hidden: self.panels_hidden,
            inspecting: opt_view(self.inspecting),
            committed_early: texts(self.committed_early@).to_set(),
        }
    }
}

/// Positions that arithmetic can be done on.
pub open spec fn in_reach(c: CanvasNow) -> bool {
    &&& c.panels.len() <= MOST_PANELS
    &&& -0x8_0000_0000_0000_0000_0000_0000_0000 <= c.scroll_x
        <= 0x8_0000_0000_0000_0000_0000_0000_0000
    &&& 0 <= c.total_width <= 0x4_0000_0000_0000_0000_0000_0000_0000
    &&& forall|i: int|
        0 <= i < c.panels.len() ==> -FAR <= (#[trigger] c.panels[i]).home_x <= FAR && -FAR
            <= c.panels[i].width <= FAR
}

impl Default for Canvas {
    fn default() -> (r: Self)
        ensures
            r@ == (CanvasNow {
                panels: Seq::empty(),
                scroll_x: 0,
                total_width: 0,
                url: ""@,
                zoom_to_fit: true,
                fit_mode: FitMode::Height,
                sync_on: true,
                follow: Following { on: true, waiting: None, history: Seq::empty() },
                picking: false,
                full_height: false,
                panels_hidden: false,
                inspecting: None,
                committed_early: Set::empty(),
            }),
            in_reach(r@),
    {
        let r = Canvas {
            panels: Vec::new(),
            scroll_x: 0,
            total_width: 0,
            url: "".to_owned(),
            zoom_to_fit: true,
            fit_mode: FitMode::Height,
            sync_on: true,
            follow: Follow::default(),
            picking: false,
            full_height: false,
            panels_hidden: false,
            inspecting: None,
            committed_early: Vec::new(),
        };
        assert(r@.panels =~= Seq::empty());
        assert(r@.committed_early =~= Set::empty());
        r
    }
}

/// The first panel, from `i` on, with an id.
pub open spec fn panel_from(s: Seq<PanelNow>, id: Seq<char>, i: int) -> Option<int>
    decreases s.len() - i,
{
    if i >= s.len() {
        None
    } else if s[i].viewport.id == id {
        Some(i)
    } else {
        panel_from(s, id, i + 1)
    }
}

/// The panel with an id.
pub open spec fn panel_of(s: Seq<PanelNow>, id: Seq<char>) -> Option<int> {
    panel_from(s, id, 0)
}

/// A row with the panel of an id made into what `p` is.
pub open spec fn with_panel(c: CanvasNow, i: int, p: PanelNow) -> CanvasNow {
    CanvasNow { panels: c.panels.update(i, p), ..c }
}

pub open spec fn is_failed(s: PanelState) -> bool {
    s matches PanelState::Failed(_)
}

pub fn failed(s: PanelState) -> (r: bool)
    ensures
        r == is_failed(s),
{
    match s {
        PanelState::Failed(_) => true,
        _ => false,
    }
}

/// Whether a finished load actually landed anywhere.
///
/// A navigation that fails at the network level, a refused connection, a name
/// that does not resolve, a certificate WebKit will not trust, never commits.
/// The panel is left showing `about:blank` and the delegate reports the load
/// finished.
///
/// `requested` is where the row or the panel was sent. A panel genuinely asked
/// for `about:blank`, which is the empty state at first launch, has not
/// failed.
pub open spec fn landed_nowhere(document: Seq<char>, requested: Seq<char>) -> bool {
    (document.len() == 0 || document == "about:blank"@) && requested.len() > 0 && requested
        != "about:blank"@
}

pub fn load_failed(document: &str, requested: &str) -> (r: bool)
    ensures
        r == landed_nowhere(document@, requested@),
{
    (document.is_empty() || same(document, "about:blank")) && !requested.is_empty() && !same(
        requested,
        "about:blank",
    )
}

/// Whether a panel's own document has to have its messages collected.
///
/// An http page posts to the loopback callback server directly, so its queue
/// is always empty and asking it is pure cost. WebKit blocks that request from
/// an https document and does not exempt loopback, so an https page queues
/// instead and something has to come and take the queue.
pub fn needs_pump(document_url: &str) -> (r: bool)
    ensures
        r == begins(document_url@, "https:"@),
{
    begins_with(document_url, "https:")
}

/// Whether a message's path says somebody is moving the row.
///
/// The pump speeds up after a gesture because one is usually the start of
/// several. A console line is not a gesture, and neither is a page load.
pub fn is_gesture(path: Option<&str>) -> (r: bool)
    ensures
        r == (path matches Some(p) && (p@ == "/p/scroll"@ || p@ == "/p/wheel"@)),
{
    match path {
        Some(p) => same(p, "/p/scroll") || same(p, "/p/wheel"),
        None => false,
    }
}

/// How long the pump waits before it next asks, in milliseconds.
///
/// Asking a webview a question is not cheap, so the rate follows what is
/// actually happening: straight after a gesture, because one is usually the
/// start of several; watchful while the window has focus, because a person
/// could start scrolling at any moment; dozing when nothing has happened for a
/// while; and slow when the window is behind something else.
pub open spec fn pump_wait(since_gesture_ms: u64, focused: bool) -> u64 {
    if since_gesture_ms < 400 {
        16
    } else if !focused {
        1500
    } else if since_gesture_ms < 5000 {
        150
    } else {
        600
    }
}

pub fn pump_interval(since_gesture_ms: u64, focused: bool) -> (r: u64)
    ensures
        r == pump_wait(since_gesture_ms, focused),
{
    if since_gesture_ms < 400 {
        16
    } else if !focused {
        1500
    } else if since_gesture_ms < 5000 {
        150
    } else {
        600
    }
}

/// How often every panel is collected from, on-screen or not.
pub const SWEEP_EVERY: u64 = 8;

/// The next tick, and whether every panel is asked on it.
///
/// Off-screen panels are collected from occasionally rather than never. Nobody
/// is scrolling one, but a page that logs on a timer still fills its queue, and
/// that queue discards its oldest messages once it is full.
pub fn next_sweep(tick: u64) -> (r: (u64, bool))
    ensures
        r.0 == if tick == u64::MAX {
            0
        } else {
            tick + 1
        },
        r.1 == (r.0 as int % 8 == 0),
{
    let next: u64 = if tick == u64::MAX {
        0
    } else {
        tick + 1
    };
    (next, next % SWEEP_EVERY == 0)
}

/// Whether the pump asks a panel.
///
/// Asking a panel that has never committed a navigation is worse than not
/// asking: the drain runs later, empties the queue and hands the contents to
/// nobody. Each panel's own document decides whether there is anything to
/// collect, never the row's.
pub open spec fn is_due(
    p: PanelNow,
    everything: bool,
    scroll_x: i128,
    window_width: i64,
) -> bool {
    &&& p.ever_committed
    &&& begins(p.document_url, "https:"@)
    &&& everything || in_sight(
        p.home_x as int,
        p.width as int,
        scroll_x as int,
        window_width as int,
    )
}

pub open spec fn due_up_to(c: CanvasNow, n: int, everything: bool, window_width: i64) -> Seq<
    Seq<char>,
>
    decreases n,
{
    if n <= 0 {
        Seq::empty()
    } else {
        let d = due_up_to(c, n - 1, everything, window_width);
        let p = c.panels[n - 1];
        if is_due(p, everything, c.scroll_x, window_width) {
            d.push(p.viewport.id)
        } else {
            d
        }
    }
}

/// Where a webview goes.
#[derive(Debug)]
pub struct Frame {
    pub panel: String,
    pub scale: Scale,
    pub x: i128,
    pub width: i128,
    pub height: i128,
}

/// A [`Frame`], with its texts as characters.
#[verifier::ext_equal]
pub struct Framed {
    pub panel: Seq<char>,
    pub scale: Scale,
    pub x: i128,
    pub width: i128,
    pub height: i128,
}

impl View for Frame {
    type V = Framed;

    open spec fn view(&self) -> Framed {
        Framed {
            panel: self.panel@,
            scale: self.scale,
            x: self.x,
            width: self.width,
            height: self.height,
        }
    }
}

pub open spec fn frames(v: Seq<Frame>) -> Seq<Framed> {
    v.map_values(|f: Frame| f@)
}

pub open spec fn frame_of(p: PanelNow, scroll_x: i128) -> Framed {
    Framed {
        panel: p.viewport.id,
        scale: p.scale,
        x: (p.home_x - scroll_x) as i128,
        width: p.width,
        height: p.height,
    }
}

/// The frames to push: every panel's, or while one is inspected only that
/// one's, because the others are hidden and putting a hidden webview back at
/// its place would show it again.
pub open spec fn frames_up_to(c: CanvasNow, n: int) -> Seq<Framed>
    decreases n,
{
    if n <= 0 {
        Seq::empty()
    } else {
        let d = frames_up_to(c, n - 1);
        let p = c.panels[n - 1];
        if c.inspecting is None || c.inspecting == Some(p.viewport.id) {
            d.push(frame_of(p, c.scroll_x))
        } else {
            d
        }
    }
}

/// Whether each panel is to be seen: panel by panel, its id and yes or no.
pub open spec fn shows(v: Seq<(String, bool)>) -> Seq<(Seq<char>, bool)> {
    v.map_values(|e: (String, bool)| (e.0@, e.1))
}

/// A panel put where a layout puts it.
pub open spec fn moved_to(p: PanelNow, place: Placement) -> PanelNow {
    PanelNow {
        home_x: place.home_x,
        scale: place.scale,
        width: place.width,
        height: place.height,
        ..p
    }
}

pub open spec fn viewports_of(s: Seq<PanelNow>) -> Seq<Panelled> {
    s.map_values(|p: PanelNow| p.viewport)
}

/// The row after it is laid out again in a window that leaves `available`.
pub open spec fn laid_out(c: CanvasNow, available: i64) -> CanvasNow {
    let how = Fitting {
        available_height: available,
        zoom_to_fit: c.zoom_to_fit,
        fit_mode: c.fit_mode,
        full_height: c.full_height,
    };
    let vps = viewports_of(c.panels);
    let at = places(vps, how);
    let total = row_width(vps, how);
    let most = if total < 100_000_000 {
        0
    } else {
        total - 100_000_000
    };
    CanvasNow {
        panels: Seq::new(c.panels.len(), |i: int| moved_to(c.panels[i], at[i])),
        scroll_x: if c.scroll_x <= most {
            c.scroll_x
        } else {
            most as i128
        },
        total_width: total as i128,
        ..c
    }
}

/// A panel sent somewhere, and whether it has to be shown for it: a panel that
/// failed was hidden, so the chrome could draw the failed state at its exact
/// size, and sending it somewhere new has to put it back.
pub open spec fn sent(p: PanelNow, sheet_open: bool) -> (Seq<char>, bool) {
    (p.viewport.id, is_failed(p.state) && !sheet_open)
}

/// Every panel but one sent somewhere, in order.
pub open spec fn sent_up_to(c: CanvasNow, n: int, but: Option<Seq<char>>) -> Seq<(Seq<char>, bool)>
    decreases n,
{
    if n <= 0 {
        Seq::empty()
    } else {
        let d = sent_up_to(c, n - 1, but);
        let p = c.panels[n - 1];
        if but == Some(p.viewport.id) {
            d
        } else {
            d.push(sent(p, c.panels_hidden))
        }
    }
}

pub open spec fn ids_of(s: Seq<(Seq<char>, bool)>) -> Seq<Seq<char>> {
    s.map_values(|e: (Seq<char>, bool)| e.0)
}

/// The row after every panel but one is sent to a URL.
pub open spec fn after_sending(
    c: CanvasNow,
    url: Seq<char>,
    but: Option<Seq<char>>,
    now: u64,
) -> CanvasNow {
    CanvasNow {
        url,
        panels: c.panels.map_values(
            |p: PanelNow|
                if but == Some(p.viewport.id) {
                    p
                } else {
                    PanelNow { state: PanelState::Loading, ..p }
                },
        ),
        follow: Following {
            waiting: Some(
                Waiting {
                    on: ids_of(sent_up_to(c, c.panels.len() as int, but)).to_set(),
                    since: now,
                },
            ),
            ..c.follow
        },
        ..c
    }
}

/// What a followed link comes to.
pub open spec fn followed(c: CanvasNow, from: Seq<char>, url: Seq<char>, now: u64) -> (
    CanvasNow,
    FollowAction,
    Seq<(Seq<char>, bool)>,
) {
    let href = normalized(url);
    let (follow, action) = decided(
        c.follow,
        from,
        href,
        c.url,
        c.panels.len() as int,
        now,
    );
    let told = CanvasNow { follow, ..c };
    match action {
        FollowAction::Broadcast => (
            after_sending(told, href, Some(from), now),
            action,
            sent_up_to(told, told.panels.len() as int, Some(from)),
        ),
        _ => (told, action, Seq::empty()),
    }
}

pub open spec fn clamped_pct(pct: i64) -> i64 {
    if pct < 0 {
        0
    } else if pct > 1_000_000 {
        1_000_000
    } else {
        pct
    }
}

/// A panel that is not where the target is.
pub open spec fn is_away(p: PanelNow, target: i64) -> bool {
    p.scroll - target >= SYNC_EPSILON || target - p.scroll >= SYNC_EPSILON
}

pub open spec fn told_up_to(s: Seq<PanelNow>, n: int, from: Seq<char>, target: i64) -> Seq<Seq<char>>
    decreases n,
{
    if n <= 0 {
        Seq::empty()
    } else {
        let d = told_up_to(s, n - 1, from, target);
        let p = s[n - 1];
        if p.viewport.id != from && is_away(p, target) {
            d.push(p.viewport.id)
        } else {
            d
        }
    }
}

pub open spec fn scrolled(p: PanelNow, from: Seq<char>, target: i64) -> PanelNow {
    if p.viewport.id == from || is_away(p, target) {
        PanelNow { scroll: target, ..p }
    } else {
        p
    }
}

/// What a load report means for a panel.
#[derive(Debug, Clone, Copy, PartialEq, Eq, Structural)]
pub enum LoadStep {
    /// The load landed nowhere. Wait a moment and look again.
    LookAgain,
    /// The page is there: mark the panel loaded, re-arm it, and see whether a
    /// link was followed.
    Loaded,
    /// The page is on its way.
    Loading,
}

/// Why nothing can be measured while a sheet is open.
pub const HIDDEN_BY_SHEET: &'static str =
    "the panels are hidden behind a sheet, so there is nothing to measure. Close it first.";

/// Why a panel cannot be measured right now, or `None` if it can.
///
/// Panels are child webviews composited over the chrome, so the only way to
/// draw a sheet is to hide them, and a window capture at a hidden panel's
/// rectangle returns whatever chrome is painted there instead. Inspecting has
/// the same effect on every panel except the one being inspected.
pub open spec fn why_not_measured(c: CanvasNow, id: Option<Seq<char>>) -> Option<Seq<char>> {
    if c.panels_hidden {
        Some(HIDDEN_BY_SHEET@)
    } else {
        match c.inspecting {
            None => None,
            Some(only) => if id == Some(only) {
                None
            } else {
                let name = match panel_of(c.panels, only) {
                    Some(i) => c.panels[i].viewport.name,
                    None => only,
                };
                Some(
                    "the row is hidden while "@ + name
                        + " is being inspected, so there is nothing to measure. Leave inspect mode first."@,
                )
            },
        }
    }
}

pub proof fn lemma_panel_from(s: Seq<PanelNow>, id: Seq<char>, i: int)
    requires
        0 <= i,
    ensures
        panel_from(s, id, i) matches Some(k) ==> i <= k < s.len() && s[k].viewport.id == id,
    decreases s.len() - i,
{
    if i < s.len() && s[i].viewport.id != id {
        lemma_panel_from(s, id, i + 1);
    }
}

impl Canvas {
    /// Whether positions in this row can be worked out without running off the
    /// end of the numbers they are kept in. A caller that filled the row by
    /// hand asks this before panning or laying it out.
    pub fn is_in_reach(&self) -> (r: bool)
        ensures
            r == in_reach(self@),
    {
        if self.panels.len() > MOST_PANELS || self.scroll_x
            < -0x8_0000_0000_0000_0000_0000_0000_0000 || self.scroll_x
            > 0x8_0000_0000_0000_0000_0000_0000_0000 || self.total_width < 0 || self.total_width
            > 0x4_0000_0000_0000_0000_0000_0000_0000 {
            return false;
        }
        let mut i: usize = 0;
        while i < self.panels.len()
            invariant
                i <= self.panels@.len(),
                self@.panels.len() == self.panels@.len(),
                forall|k: int|
                    0 <= k < i ==> -FAR <= (#[trigger] self@.panels[k]).home_x <= FAR && -FAR
                        <= self@.panels[k].width <= FAR,
            decreases self.panels@.len() - i,
        {
            let p = &self.panels[i];
            assert(self@.panels[i as int] == self.panels@[i as int]@);
            if p.home_x < -FAR || p.home_x > FAR || p.width < -FAR || p.width > FAR {
                return false;
            }
            i = i + 1;
        }
        true
    }

    /// The panel with an id.
    pub fn find(&self, id: &str) -> (r: Option<usize>)
        ensures
            as_int(r) == panel_of(self@.panels, id@),
            r matches Some(i) ==> i < self.panels@.len(),
    {
        let ghost all = self@.panels;
        let mut i: usize = 0;
        while i < self.panels.len()
            invariant
                i <= self.panels@.len(),
                all == panels(self.panels@),
                panel_from(all, id@, 0) == panel_from(all, id@, i as int),
            decreases self.panels@.len() - i,
        {
            assert(all[i as int] == self.panels@[i as int]@);
            if same(self.panels[i].viewport.id.as_str(), id) {
                return Some(i);
            }
            i += 1;
        }
        None
    }

    /// The panels of the row as they were asked for.
    pub fn viewport_list(&self) -> (r: Vec<Viewport>)
        ensures
            viewports(r@) == viewports_of(self@.panels),
    {
        let ghost want = viewports_of(self@.panels);
        let mut out: Vec<Viewport> = Vec::new();
        let mut i: usize = 0;
        assert(viewports(out@) =~= want.take(0));
        while i < self.panels.len()
            invariant
                i <= self.panels@.len(),
                want == viewports_of(self@.panels),
                viewports(out@) == want.take(i as int),
            decreases self.panels@.len() - i,
        {
            let ghost before = viewports(out@);
            let v = self.panels[i].viewport.clone();
            out.push(v);
            assert(viewports(out@) =~= before.push(v@));
            assert(want[i as int] == v@);
            assert(want.take(i + 1) =~= want.take(i as int).push(want[i as int]));
            i += 1;
        }
        assert(want.take(want.len() as int) =~= want);
        out
    }

    /// Resolve a panel by index or by name, case-insensitively and by prefix, so
    /// "fix it at md" and "fix the overlap in window 4" both land.
    pub fn resolve_id(&self, needle: &str) -> (r: Option<String>)
        ensures
            opt_view(r) == match meant(viewports_of(self@.panels), needle@) {
                Some(i) => Some(self@.panels[i].viewport.id),
                None => None,
            },
    {
        let vps = self.viewport_list();
        match match_viewport(&vps, needle) {
            Some(i) => {
                assert(viewports(vps@)[i as int] == vps@[i as int]@);
                Some(vps[i].id.as_str().to_owned())
            },
            None => None,
        }
    }

    /// Empty the row for a fresh one, and say where its panels go.
    ///
    /// The row is emptied first and then filled in one panel at a time, because
    /// a page can finish loading and report in before the last panel has even
    /// been created.
    pub fn begin_row(&mut self, vps: &Vec<Viewport>, url: &str, available: i64) -> (r: Vec<
        Placement,
    >)
        requires
            vps@.len() <= MOST_PANELS,
        ensures
            ({
                let how = Fitting {
                    available_height: available,
                    zoom_to_fit: old(self)@.zoom_to_fit,
                    fit_mode: old(self)@.fit_mode,
                    full_height: old(self)@.full_height,
                };
                &&& r@ == places(viewports(vps@), how)
                &&& final(self)@ == (CanvasNow {
                    panels: Seq::empty(),
                    scroll_x: 0,
                    total_width: row_width(viewports(vps@), how) as i128,
                    url: normalized(url@),
                    panels_hidden: false,
                    committed_early: Set::empty(),
                    ..old(self)@
                })
            }),
            in_reach(final(self)@),
    {
        let (at, total) = layout(
            vps,
            available,
            self.zoom_to_fit,
            self.fit_mode,
            self.full_height,
        );
        self.panels = Vec::new();
        self.scroll_x = 0;
        self.total_width = total;
        self.url = normalize_url(url);
        self.panels_hidden = false;
        self.committed_early = Vec::new();
        assert(self@.panels =~= Seq::empty());
        assert(self@.committed_early =~= Set::empty());
        at
    }

    /// Add a panel whose webview has been made and sent to the row's URL.
    ///
    /// A load can be reported before its panel is here, and then the panel has
    /// already committed.
    pub fn add_panel(&mut self, viewport: Viewport, place: Placement)
        requires
            in_reach(old(self)@),
            old(self)@.panels.len() < MOST_PANELS,
            -FAR <= place.home_x <= FAR,
            -FAR <= place.width <= FAR,
        ensures
            final(self)@ == (CanvasNow {
                panels: old(self)@.panels.push(
                    PanelNow {
                        viewport: viewport@,
                        home_x: place.home_x,
                        scale: place.scale,
                        width: place.width,
                        height: place.height,
                        state: PanelState::Loading,
                        scroll: UNKNOWN_SCROLL,
                        document_url: ""@,
                        reported_width: None,
                        ever_committed: old(self)@.committed_early.contains(viewport@.id),
                    },
                ),
                committed_early: old(self)@.committed_early.remove(viewport@.id),
                ..old(self)@
            }),
            in_reach(final(self)@),
    {
        let ghost start = self@;
        let early = listed(&self.committed_early, viewport.id.as_str());
        assert(early == start.committed_early.contains(viewport@.id));
        if early {
            self.committed_early = without(&self.committed_early, viewport.id.as_str());
        } else {
            assert(start.committed_early.remove(viewport@.id) =~= start.committed_early);
        }
        let p = Panel {
            viewport,
            home_x: place.home_x,
            scale: place.scale,
            width: place.width,
            height: place.height,
            state: PanelState::Loading,
            last_scroll_pct: UNKNOWN_SCROLL,
            document_url: "".to_owned(),
            reported_width: None,
            ever_committed: early,
        };
        self.panels.push(p);
        assert(self@.panels =~= start.panels.push(p@));
    }

    /// The row could not be finished. Half a row is not a row of the width we
    /// promised, so the width is made to describe what actually exists.
    pub fn cut_short(&mut self)
        requires
            in_reach(old(self)@),
            forall|i: int|
                0 <= i < old(self)@.panels.len() ==> (#[trigger] old(self)@.panels[i]).home_x
                    + old(self)@.panels[i].width <= 0x4_0000_0000_0000_0000_0000_0000_0000,
        ensures
            final(self)@ == (CanvasNow {
                total_width: end_of_row(old(self)@.panels) as i128,
                ..old(self)@
            }),
            in_reach(final(self)@),
    {
        let ghost all = self@.panels;
        let mut end: i128 = 0;
        let mut i: usize = 0;
        assert(all.take(0) =~= Seq::empty());
        while i < self.panels.len()
            invariant
                i <= self.panels@.len(),
                self@ == old(self)@,
                all == panels(self.panels@),
                in_reach(self@),
                forall|k: int|
                    0 <= k < all.len() ==> (#[trigger] all[k]).home_x + all[k].width
                        <= 0x4_0000_0000_0000_0000_0000_0000_0000,
                end == end_of_row(all.take(i as int)),
                0 <= end <= 0x4_0000_0000_0000_0000_0000_0000_0000,
            decreases self.panels@.len() - i,
        {
            proof {
                assert(all[i as int] == self.panels@[i as int]@);
                assert(all.take(i + 1).drop_last() =~= all.take(i as int));
                assert(all.take(i + 1).last() == all[i as int]);
            }
            let here: i128 = self.panels[i].home_x + self.panels[i].width;
            if here > end {
                end = here;
            }
            i += 1;
        }
        assert(all.take(all.len() as int) =~= all);
        self.total_width = end;
    }

    /// Remember which document a panel is showing.
    ///
    /// A new document starts at the top, so whatever we last told this panel
    /// about where it should be is no longer true of it.
    pub fn set_document_url(&mut self, id: &str, url: &str)
        ensures
            final(self)@ == match panel_of(old(self)@.panels, id@) {
                Some(i) => with_panel(
                    old(self)@,
                    i,
                    PanelNow {
                        document_url: url@,
                        scroll: UNKNOWN_SCROLL,
                        ..old(self)@.panels[i]
                    },
                ),
                None => old(self)@,
            },
    {
        let ghost start = self@;
        if let Some(i) = self.find(id) {
            self.panels[i].document_url = url.to_owned();
            self.panels[i].last_scroll_pct = UNKNOWN_SCROLL;
            assert(self@.panels =~= start.panels.update(i as int, self.panels@[i as int]@));
        }
    }

    /// Record that a panel has committed a navigation, so the pump may ask it
    /// questions. A report can come before the panel is in the row, and is then
    /// kept for it.
    pub fn mark_committed(&mut self, id: &str)
        ensures
            final(self)@ == match panel_of(old(self)@.panels, id@) {
                Some(i) => with_panel(
                    old(self)@,
                    i,
                    PanelNow { ever_committed: true, ..old(self)@.panels[i] },
                ),
                None => (CanvasNow {
                    committed_early: old(self)@.committed_early.insert(id@),
                    ..old(self)@
                }),
            },
    {
        let ghost start = self@;
        if let Some(i) = self.find(id) {
            self.panels[i].ever_committed = true;
            assert(self@.panels =~= start.panels.update(i as int, self.panels@[i as int]@));
            return;
        }
        let ghost before = texts(self.committed_early@);
        self.committed_early.push(id.to_owned());
        proof {
            assert(texts(self.committed_early@) =~= before.push(id@));
            assert forall|y: Seq<char>|
                before.push(id@).to_set().contains(y) == before.to_set().insert(id@).contains(
                    y,
                ) by {
                vstd::seq_lib::lemma_seq_contains_after_push(before, id@, y);
            }
            assert(self@.committed_early =~= start.committed_early.insert(id@));
        }
    }
}

/// Where a row ends: the far edge of the panel that reaches furthest.
pub open spec fn end_of_row(s: Seq<PanelNow>) -> int
    decreases s.len(),
{
    if s.len() == 0 {
        0
    } else {
        let before = end_of_row(s.drop_last());
        let here = s.last().home_x + s.last().width;
        if here > before {
            here
        } else {
            before
        }
    }
}

impl Canvas {
    fn all_frames(&self) -> (r: Vec<Frame>)
        requires
            in_reach(self@),
        ensures
            frames(r@) == frames_up_to(self@, self@.panels.len() as int),
    {
        let ghost c = self@;
        let mut out: Vec<Frame> = Vec::new();
        let mut i: usize = 0;
        assert(frames(out@) =~= frames_up_to(c, 0));
        while i < self.panels.len()
            invariant
                i <= self.panels@.len(),
                c == self@,
                in_reach(c),
                frames(out@) == frames_up_to(c, i as int),
            decreases self.panels@.len() - i,
        {
            let ghost before = frames(out@);
            let p = &self.panels[i];
            assert(c.panels[i as int] == p@);
            let wanted = match &self.inspecting {
                Some(only) => same(p.viewport.id.as_str(), only.as_str()),
                None => true,
            };
            if wanted {
                let f = Frame {
                    panel: p.viewport.id.as_str().to_owned(),
                    scale: p.scale,
                    x: p.home_x - self.scroll_x,
                    width: p.width,
                    height: p.height,
                };
                out.push(f);
                assert(frames(out@) =~= before.push(f@));
            }
            i += 1;
        }
        out
    }

    /// Put every panel back at the position, size and zoom it is believed to
    /// have.
    ///
    /// This recomputes nothing. `relayout` is for when the numbers themselves
    /// change; this is for when something outside the app has moved a webview
    /// behind our back, which in practice means the Web Inspector. A hidden
    /// panel is hidden because a sheet is open, and re-asserting its frame
    /// would put it back over the sheet.
    pub fn restore_frames(&self) -> (r: Vec<Frame>)
        requires
            in_reach(self@),
        ensures
            frames(r@) == if self@.panels_hidden {
                Seq::empty()
            } else {
                frames_up_to(self@, self@.panels.len() as int)
            },
    {
        if self.panels_hidden {
            let out: Vec<Frame> = Vec::new();
            assert(frames(out@) =~= Seq::empty());
            out
        } else {
            self.all_frames()
        }
    }

    /// Recompute placement against the current window size. Used on resize and
    /// whenever zoom-to-fit changes, so no panel is ever respawned just to
    /// change its scale. Every panel's frame is to be pushed, hidden or not:
    /// setting a frame does not reveal a hidden webview.
    pub fn relayout(&mut self, available: i64)
        requires
            in_reach(old(self)@),
        ensures
            final(self)@ == laid_out(old(self)@, available),
            in_reach(final(self)@),
    {
        let ghost start = self@;
        let ghost how = Fitting {
            available_height: available,
            zoom_to_fit: start.zoom_to_fit,
            fit_mode: start.fit_mode,
            full_height: start.full_height,
        };
        let vps = self.viewport_list();
        assert(viewports(vps@).len() == vps@.len());
        let (at, total) = layout(
            &vps,
            available,
            self.zoom_to_fit,
            self.fit_mode,
            self.full_height,
        );
        let most: i128 = if total < 100_000_000 {
            0
        } else {
            total - 100_000_000
        };
        if self.scroll_x > most {
            self.scroll_x = most;
        }
        self.total_width = total;
        let ghost mid = self@;
        let ghost want = laid_out(start, available);
        let mut i: usize = 0;
        while i < self.panels.len()
            invariant
                i <= self.panels@.len(),
                self.panels@.len() == start.panels.len(),
                at@ == places(viewports_of(start.panels), how),
                at@.len() == start.panels.len(),
                want == laid_out(start, available),
                how == (Fitting {
                    available_height: available,
                    zoom_to_fit: start.zoom_to_fit,
                    fit_mode: start.fit_mode,
                    full_height: start.full_height,
                }),
                self@ == (CanvasNow { panels: self@.panels, ..mid }),
                forall|k: int| 0 <= k < i ==> #[trigger] self@.panels[k] == want.panels[k],
                forall|k: int|
                    i <= k < self.panels@.len() ==> #[trigger] self@.panels[k]
                        == start.panels[k],
            decreases self.panels@.len() - i,
        {
            assert(self@.panels[i as int] == self.panels@[i as int]@);
            let ghost before = self@.panels;
            let place = at[i];
            self.panels[i].home_x = place.home_x;
            self.panels[i].scale = place.scale;
            self.panels[i].width = place.width;
            self.panels[i].height = place.height;
            proof {
                assert(self@.panels =~= before.update(i as int, self.panels@[i as int]@));
                assert(self.panels@[i as int]@ == want.panels[i as int]);
            }
            i += 1;
        }
        assert(self@.panels =~= want.panels);
        proof {
            let vs = viewports_of(start.panels);
            assert forall|k: int| 0 <= k < self@.panels.len() implies -FAR <= (
            #[trigger] self@.panels[k]).home_x <= FAR && -FAR <= self@.panels[k].width
                <= FAR by {
                super::layout::lemma_placed_in_reach(vs, k, how);
            }
        }
    }

    /// Slide the whole row. Called at frame rate, so it does the least work it
    /// can. Says where each panel goes, unless they are hidden.
    pub fn set_scroll(&mut self, offset: i128) -> (r: Vec<(String, i128)>)
        requires
            in_reach(old(self)@),
            -0x8_0000_0000_0000_0000_0000_0000_0000 <= offset
                <= 0x8_0000_0000_0000_0000_0000_0000_0000,
        ensures
            final(self)@ == (CanvasNow { scroll_x: offset, ..old(self)@ }),
            in_reach(final(self)@),
            r@.map_values(|e: (String, i128)| (e.0@, e.1)) == if old(self)@.panels_hidden {
                Seq::empty()
            } else {
                old(self)@.panels.map_values(
                    |p: PanelNow| (p.viewport.id, (p.home_x - offset) as i128),
                )
            },
    {
        let ghost all = self@.panels;
        self.scroll_x = offset;
        let mut out: Vec<(String, i128)> = Vec::new();
        let ghost want = all.map_values(|p: PanelNow| (p.viewport.id, (p.home_x - offset) as i128));
        assert(out@.map_values(|e: (String, i128)| (e.0@, e.1)) =~= want.take(0));
        if self.panels_hidden {
            assert(out@.map_values(|e: (String, i128)| (e.0@, e.1)) =~= Seq::empty());
            return out;
        }
        let mut i: usize = 0;
        while i < self.panels.len()
            invariant
                i <= self.panels@.len(),
                all == panels(self.panels@),
                self@ == (CanvasNow { scroll_x: offset, ..old(self)@ }),
                in_reach(self@),
                want == all.map_values(
                    |p: PanelNow| (p.viewport.id, (p.home_x - offset) as i128),
                ),
                out@.map_values(|e: (String, i128)| (e.0@, e.1)) == want.take(i as int),
            decreases self.panels@.len() - i,
        {
            let ghost before = out@.map_values(|e: (String, i128)| (e.0@, e.1));
            assert(all[i as int] == self.panels@[i as int]@);
            let id = self.panels[i].viewport.id.as_str().to_owned();
            let x: i128 = self.panels[i].home_x - offset;
            out.push((id, x));
            assert(out@.map_values(|e: (String, i128)| (e.0@, e.1)) =~= before.push((id@, x)));
            assert(want.take(i + 1) =~= want.take(i as int).push(want[i as int]));
            i += 1;
        }
        assert(want.take(want.len() as int) =~= want);
        out
    }

    /// Pan the row by a delta. `None` when it would not move by half a pixel.
    pub fn nudge_scroll(&mut self, dx: i64, window_width: i64) -> (r: Option<Vec<(String, i128)>>)
        requires
            in_reach(old(self)@),
        ensures
            ({
                let c = old(self)@;
                let next = panned(
                    c.scroll_x as int,
                    dx as int,
                    c.total_width as int,
                    window_width as int,
                );
                let moves = next - c.scroll_x >= 500_000 || c.scroll_x - next >= 500_000;
                &&& (r is Some) == moves
                &&& moves ==> final(self)@ == (CanvasNow { scroll_x: next as i128, ..c })
                &&& !moves ==> final(self)@ == c
                &&& r matches Some(m) ==> m@.map_values(|e: (String, i128)| (e.0@, e.1))
                    == if c.panels_hidden {
                    Seq::empty()
                } else {
                    c.panels.map_values(
                        |p: PanelNow| (p.viewport.id, (p.home_x - next as i128) as i128),
                    )
                }
            }),
            in_reach(final(self)@),
    {
        let next: i128 = clamped_scroll(self.scroll_x, dx, self.total_width, window_width);
        let moved: i128 = next - self.scroll_x;
        if moved < 500_000 && moved > -500_000 {
            return None;
        }
        Some(self.set_scroll(next))
    }

    /// The panels the pump asks on this tick.
    pub fn due_panels(&self, everything: bool, window_width: i64) -> (r: Vec<String>)
        requires
            in_reach(self@),
        ensures
            texts(r@) == due_up_to(
                self@,
                self@.panels.len() as int,
                everything,
                window_width,
            ),
    {
        let ghost c = self@;
        let mut out: Vec<String> = Vec::new();
        let mut i: usize = 0;
        assert(texts(out@) =~= due_up_to(c, 0, everything, window_width));
        while i < self.panels.len()
            invariant
                i <= self.panels@.len(),
                c == self@,
                in_reach(c),
                texts(out@) == due_up_to(c, i as int, everything, window_width),
            decreases self.panels@.len() - i,
        {
            let ghost before = texts(out@);
            let p = &self.panels[i];
            assert(c.panels[i as int] == p@);
            if p.ever_committed && needs_pump(p.document_url.as_str()) && (everything
                || panel_on_screen(p.home_x, p.width, self.scroll_x, window_width)) {
                let id = p.viewport.id.as_str().to_owned();
                out.push(id);
                assert(texts(out@) =~= before.push(id@));
            }
            i += 1;
        }
        out
    }

    fn send_all(&mut self, url: String, but: Option<&str>, now: u64) -> (r: Vec<(String, bool)>)
        ensures
            final(self)@ == after_sending(
                old(self)@,
                url@,
                match but {
                    Some(b) => Some(b@),
                    None => None,
                },
                now,
            ),
            shows(r@) == sent_up_to(
                old(self)@,
                old(self)@.panels.len() as int,
                match but {
                    Some(b) => Some(b@),
                    None => None,
                },
            ),
    {
        let ghost start = self@;
        let ghost b = match but {
            Some(x) => Some(x@),
            None => None,
        };
        let ghost want = after_sending(start, url@, b, now);
        self.url = url;
        let ghost mid = self@;
        let mut out: Vec<(String, bool)> = Vec::new();
        let mut awaiting: Vec<String> = Vec::new();
        let mut i: usize = 0;
        assert(shows(out@) =~= sent_up_to(start, 0, b));
        assert(texts(awaiting@) =~= ids_of(sent_up_to(start, 0, b)));
        while i < self.panels.len()
            invariant
                i <= self.panels@.len(),
                self.panels@.len() == start.panels.len(),
                b == (match but {
                    Some(x) => Some(x@),
                    None => None,
                }),
                want == after_sending(start, self.url@, b, now),
                mid == (CanvasNow { url: self.url@, ..start }),
                self@ == (CanvasNow { panels: self@.panels, ..mid }),
                forall|k: int| 0 <= k < i ==> #[trigger] self@.panels[k] == want.panels[k],
                forall|k: int|
                    i <= k < self.panels@.len() ==> #[trigger] self@.panels[k]
                        == start.panels[k],
                shows(out@) == sent_up_to(start, i as int, b),
                texts(awaiting@) == ids_of(sent_up_to(start, i as int, b)),
            decreases self.panels@.len() - i,
        {
            assert(self@.panels[i as int] == self.panels@[i as int]@);
            assert(self@.panels[i as int] == start.panels[i as int]);
            let skip = match but {
                Some(x) => same(self.panels[i].viewport.id.as_str(), x),
                None => false,
            };
            let ghost before = self@.panels;
            if !skip {
                let ghost o = shows(out@);
                let ghost a = texts(awaiting@);
                let show = failed(self.panels[i].state) && !self.panels_hidden;
                let id = self.panels[i].viewport.id.as_str().to_owned();
                let id2 = self.panels[i].viewport.id.as_str().to_owned();
                out.push((id, show));
                awaiting.push(id2);
                self.panels[i].state = PanelState::Loading;
                proof {
                    assert(shows(out@) =~= o.push((id@, show)));
                    assert(texts(awaiting@) =~= a.push(id@));
                    assert(self@.panels =~= before.update(i as int, self.panels@[i as int]@));
                    assert(ids_of(sent_up_to(start, i + 1, b)) =~= ids_of(
                        sent_up_to(start, i as int, b),
                    ).push(id@));
                }
            }
            assert(self@.panels[i as int] == want.panels[i as int]);
            i += 1;
        }
        self.follow.pushed(awaiting, now);
        assert(self@.panels =~= want.panels);
        out
    }

    /// Point the whole row at a URL. Says which panels to send, and which of
    /// them have to be shown again for it.
    ///
    /// Every one of those panels is about to report in. Without writing that
    /// down the first report back reads as somebody clicking a link.
    pub fn navigate_all(&mut self, target: String, now: u64) -> (r: Vec<(String, bool)>)
        ensures
            final(self)@ == after_sending(old(self)@, target@, None, now),
            shows(r@) == sent_up_to(old(self)@, old(self)@.panels.len() as int, None),
    {
        self.send_all(target, None, now)
    }

    /// A panel reported that it is showing a different URL, so take the rest of
    /// the row there too. Says what to do and which panels to send; the URL is
    /// the row's then.
    pub fn follow_navigation(&mut self, from: &str, url: &str, now: u64) -> (r: (
        FollowAction,
        Vec<(String, bool)>,
    ))
        ensures
            ({
                let f = followed(old(self)@, from@, url@, now);
                &&& final(self)@ == f.0
                &&& r.0 == f.1
                &&& shows(r.1@) == f.2
            }),
    {
        let ghost start = self@;
        let href = normalize_url(url);
        let n: usize = self.panels.len();
        assert(start.panels.len() == n);
        let action = self.follow.decide(from, href.as_str(), self.url.as_str(), n, now);
        match action {
            FollowAction::Broadcast => {
                let sent = self.send_all(href, Some(from), now);
                (action, sent)
            },
            _ => {
                let none: Vec<(String, bool)> = Vec::new();
                assert(shows(none@) =~= Seq::empty());
                (action, none)
            },
        }
    }

    pub fn set_follow(&mut self, on: bool)
        ensures
            final(self)@ == (CanvasNow {
                follow: Following { on, waiting: None, history: Seq::empty() },
                ..old(self)@
            }),
    {
        self.follow.reset(on);
    }

    /// Arm or disarm the element picker in every panel, and the script that
    /// does it in one.
    ///
    /// It has to be a mode rather than always on, because while it is armed a
    /// click describes an element instead of following a link, and that is not
    /// a thing to do to somebody by surprise.
    pub fn set_picking(&mut self, on: bool) -> (r: String)
        ensures
            final(self)@ == (CanvasNow { picking: on, ..old(self)@ }),
            r@ == "window.__bpPick && window.__bpPick("@ + (if on {
                "true"@
            } else {
                "false"@
            }) + ")"@,
    {
        self.picking = on;
        let mut out = "window.__bpPick && window.__bpPick(".to_owned();
        if on {
            out.append("true");
        } else {
            out.append("false");
        }
        out.append(")");
        out
    }

    /// A page that has just loaded has a fresh document and knows nothing about
    /// the mode the app is in, so it may have to be armed again.
    pub fn rearm_picking(&self, id: &str) -> (r: bool)
        ensures
            r == (self@.picking && panel_of(self@.panels, id@) is Some),
    {
        self.picking && self.find(id).is_some()
    }

    fn show_list(&self, only: Option<&str>, hidden: bool) -> (r: Vec<(String, bool)>)
        ensures
            shows(r@) == seen(
                self@.panels,
                match only {
                    Some(x) => Some(x@),
                    None => None,
                },
                hidden,
            ),
    {
        let ghost o = match only {
            Some(x) => Some(x@),
            None => None,
        };
        let ghost want = seen(self@.panels, o, hidden);
        let mut out: Vec<(String, bool)> = Vec::new();
        let mut i: usize = 0;
        assert(shows(out@) =~= want.take(0));
        while i < self.panels.len()
            invariant
                i <= self.panels@.len(),
                o == (match only {
                    Some(x) => Some(x@),
                    None => None,
                }),
                want == seen(self@.panels, o, hidden),
                shows(out@) == want.take(i as int),
            decreases self.panels@.len() - i,
        {
            let ghost before = shows(out@);
            let p = &self.panels[i];
            assert(self@.panels[i as int] == p@);
            let wanted = match only {
                Some(x) => same(p.viewport.id.as_str(), x),
                None => true,
            };
            let show = wanted && !hidden && !failed(p.state);
            let id = p.viewport.id.as_str().to_owned();
            out.push((id, show));
            assert(shows(out@) =~= before.push((id@, show)));
            assert(want[i as int] == (id@, show));
            assert(want.take(i + 1) =~= want.take(i as int).push(want[i as int]));
            i += 1;
        }
        assert(want.take(want.len() as int) =~= want);
        out
    }

    /// Enter or leave the inspect mode. `None` when that is the mode already;
    /// otherwise which panels are to be seen.
    ///
    /// WebKit docks its inspector into the webview it is inspecting and takes
    /// that webview's frame for itself, so the mode hides every other panel,
    /// because a row of panels behind the inspector is noise you cannot see
    /// anyway. A sheet already hides everything; it is left alone, or the two
    /// would fight over the same webviews.
    pub fn set_inspecting(&mut self, id: Option<String>) -> (r: Option<Vec<(String, bool)>>)
        ensures
            ({
                let c = old(self)@;
                let to = opt_view(id);
                if c.inspecting == to {
                    r is None && final(self)@ == c
                } else {
                    &&& final(self)@ == (CanvasNow { inspecting: to, ..c })
                    &&& r matches Some(v) && shows(v@) == if c.panels_hidden {
                        Seq::empty()
                    } else {
                        seen(c.panels, to, false)
                    }
                }
            }),
    {
        if same_opt(&self.inspecting, &id) {
            return None;
        }
        let out = if self.panels_hidden {
            let none: Vec<(String, bool)> = Vec::new();
            assert(shows(none@) =~= Seq::empty());
            none
        } else {
            match &id {
                Some(only) => self.show_list(Some(only.as_str()), false),
                None => self.show_list(None, false),
            }
        };
        self.inspecting = id;
        Some(out)
    }

    /// Sheets are chrome, and chrome composites below the panels, so a sheet
    /// can only be seen if the panels get out of the way. `None` when nothing
    /// changes; otherwise which panels are to be seen.
    pub fn set_panels_hidden(&mut self, hidden: bool) -> (r: Option<Vec<(String, bool)>>)
        ensures
            if old(self)@.panels_hidden == hidden {
                r is None && final(self)@ == old(self)@
            } else {
                &&& final(self)@ == (CanvasNow { panels_hidden: hidden, ..old(self)@ })
                &&& r matches Some(v) && shows(v@) == seen(old(self)@.panels, None, hidden)
            },
    {
        if self.panels_hidden == hidden {
            return None;
        }
        self.panels_hidden = hidden;
        Some(self.show_list(None, hidden))
    }

    /// Forget where every panel is, so the next sync tells all of them.
    pub fn forget_scroll_positions(&mut self)
        ensures
            final(self)@ == (CanvasNow {
                panels: old(self)@.panels.map_values(
                    |p: PanelNow| PanelNow { scroll: UNKNOWN_SCROLL, ..p },
                ),
                ..old(self)@
            }),
    {
        let ghost start = self@;
        let ghost want = start.panels.map_values(
            |p: PanelNow| PanelNow { scroll: UNKNOWN_SCROLL, ..p },
        );
        let mut i: usize = 0;
        while i < self.panels.len()
            invariant
                i <= self.panels@.len(),
                self.panels@.len() == start.panels.len(),
                want == start.panels.map_values(
                    |p: PanelNow| PanelNow { scroll: UNKNOWN_SCROLL, ..p },
                ),
                self@ == (CanvasNow { panels: self@.panels, ..start }),
                forall|k: int| 0 <= k < i ==> #[trigger] self@.panels[k] == want[k],
                forall|k: int|
                    i <= k < self.panels@.len() ==> #[trigger] self@.panels[k]
                        == start.panels[k],
            decreases self.panels@.len() - i,
        {
            let ghost before = self@.panels;
            assert(before[i as int] == self.panels@[i as int]@);
            self.panels[i].last_scroll_pct = UNKNOWN_SCROLL;
            assert(self@.panels =~= before.update(i as int, self.panels@[i as int]@));
            i += 1;
        }
        assert(self@.panels =~= want);
    }

    /// One panel scrolled, so move the others to match. Says which to tell.
    ///
    /// The position is a proportion of scrollable height, not a pixel offset,
    /// because the same page is a different height at 640 wide than at 1536.
    /// Panels converge during a steady scroll, and once they have arrived there
    /// is nothing to say.
    pub fn sync_scroll(&mut self, from: &str, pct: i64) -> (r: Vec<String>)
        ensures
            ({
                let c = old(self)@;
                let target = clamped_pct(pct);
                if !c.sync_on {
                    texts(r@) == Seq::<Seq<char>>::empty() && final(self)@ == c
                } else {
                    &&& texts(r@) == told_up_to(c.panels, c.panels.len() as int, from@, target)
                    &&& final(self)@ == (CanvasNow {
                        panels: c.panels.map_values(
                            |p: PanelNow| scrolled(p, from@, target),
                        ),
                        ..c
                    })
                }
            }),
    {
        let ghost start = self@;
        let mut out: Vec<String> = Vec::new();
        assert(texts(out@) =~= Seq::empty());
        if !self.sync_on {
            return out;
        }
        let target: i64 = if pct < 0 {
            0
        } else if pct > 1_000_000 {
            1_000_000
        } else {
            pct
        };
        let ghost want = start.panels.map_values(|p: PanelNow| scrolled(p, from@, target));
        let mut i: usize = 0;
        while i < self.panels.len()
            invariant
                i <= self.panels@.len(),
                self.panels@.len() == start.panels.len(),
                target == clamped_pct(pct),
                want == start.panels.map_values(|p: PanelNow| scrolled(p, from@, target)),
                self@ == (CanvasNow { panels: self@.panels, ..start }),
                forall|k: int| 0 <= k < i ==> #[trigger] self@.panels[k] == want[k],
                forall|k: int|
                    i <= k < self.panels@.len() ==> #[trigger] self@.panels[k]
                        == start.panels[k],
                texts(out@) == told_up_to(start.panels, i as int, from@, target),
            decreases self.panels@.len() - i,
        {
            let ghost before = self@.panels;
            let ghost o = texts(out@);
            assert(before[i as int] == self.panels@[i as int]@);
            assert(before[i as int] == start.panels[i as int]);
            let apart: i128 = self.panels[i].last_scroll_pct as i128 - target as i128;
            let away = apart >= SYNC_EPSILON as i128 || -apart >= SYNC_EPSILON as i128;
            let is_from = same(self.panels[i].viewport.id.as_str(), from);
            if is_from || away {
                self.panels[i].last_scroll_pct = target;
                assert(self@.panels =~= before.update(i as int, self.panels@[i as int]@));
            }
            if !is_from && away {
                let id = self.panels[i].viewport.id.as_str().to_owned();
                out.push(id);
                assert(texts(out@) =~= o.push(id@));
            }
            assert(self@.panels[i as int] == want[i as int]);
            i += 1;
        }
        assert(self@.panels =~= want);
        out
    }

    /// What a load report means: the panel has a document, and either it landed
    /// somewhere or it did not.
    ///
    /// A load that lands nowhere is reported as starting and never as
    /// finishing, so that is looked at first.
    pub fn load_report(&mut self, id: &str, document: &str, finished: bool) -> (r: LoadStep)
        ensures
            ({
                let c = old(self)@;
                &&& match panel_of(c.panels, id@) {
                    Some(i) => final(self)@ == with_panel(
                        c,
                        i,
                        PanelNow {
                            ever_committed: true,
                            document_url: document@,
                            scroll: UNKNOWN_SCROLL,
                            ..c.panels[i]
                        },
                    ),
                    None => final(self)@ == (CanvasNow {
                        committed_early: c.committed_early.insert(id@),
                        ..c
                    }),
                }
                &&& r == if landed_nowhere(document@, c.url) {
                    LoadStep::LookAgain
                } else if finished {
                    LoadStep::Loaded
                } else {
                    LoadStep::Loading
                }
            }),
    {
        let ghost c = self@;
        self.mark_committed(id);
        proof {
            lemma_panel_from(c.panels, id@, 0);
            if panel_of(c.panels, id@) is Some {
                let i = panel_of(c.panels, id@)->Some_0;
                lemma_same_ids(c.panels, self@.panels, id@, 0);
            }
        }
        self.set_document_url(id, document);
        proof {
            if panel_of(c.panels, id@) is Some {
                let i = panel_of(c.panels, id@)->Some_0;
                assert(self@.panels =~= c.panels.update(i, self@.panels[i]));
            }
        }
        if load_failed(document, self.url.as_str()) {
            LoadStep::LookAgain
        } else if finished {
            LoadStep::Loaded
        } else {
            LoadStep::Loading
        }
    }

    /// Whether a panel that landed nowhere a moment ago has failed: it is still
    /// blank, and the row is still where it was.
    ///
    /// A real navigation can pass through a blank document on its way
    /// somewhere, so a panel is not called failed the instant it reports one.
    pub fn has_failed(&self, id: &str, requested: &str) -> (r: bool)
        ensures
            r == (self@.url == requested@ && (panel_of(self@.panels, id@) matches Some(i)
                && landed_nowhere(self@.panels[i].document_url, requested@))),
    {
        if !same(self.url.as_str(), requested) {
            return false;
        }
        match self.find(id) {
            Some(i) => {
                assert(self@.panels[i as int] == self.panels@[i as int]@);
                load_failed(self.panels[i].document_url.as_str(), requested)
            },
            None => false,
        }
    }

    /// Why a panel cannot be measured right now, or `None` if it can. Pass the
    /// panel being measured, or `None` when the whole row is.
    pub fn cannot_measure(&self, id: Option<&str>) -> (r: Option<String>)
        ensures
            opt_view(r) == why_not_measured(
                self@,
                match id {
                    Some(x) => Some(x@),
                    None => None,
                },
            ),
    {
        if self.panels_hidden {
            return Some(HIDDEN_BY_SHEET.to_owned());
        }
        match &self.inspecting {
            None => None,
            Some(only) => {
                if let Some(x) = id {
                    if same(x, only.as_str()) {
                        return None;
                    }
                }
                let mut out = "the row is hidden while ".to_owned();
                match self.find(only.as_str()) {
                    Some(i) => {
                        assert(self@.panels[i as int] == self.panels@[i as int]@);
                        out.append(self.panels[i].viewport.name.as_str());
                    },
                    None => {
                        out.append(only.as_str());
                    },
                }
                out.append(
                    " is being inspected, so there is nothing to measure. Leave inspect mode first.",
                );
                Some(out)
            },
        }
    }

    /// Record what a page says its viewport is. Says whether it is wrong, and
    /// whether it is news.
    ///
    /// The first report can arrive before the zoom has been applied, so a
    /// disagreement is to be confirmed by measuring again rather than believed
    /// at once.
    pub fn set_reported_width(&mut self, id: &str, reported: i64) -> (r: (bool, bool))
        ensures
            match panel_of(old(self)@.panels, id@) {
                Some(i) => {
                    let p = old(self)@.panels[i];
                    &&& final(self)@ == with_panel(
                        old(self)@,
                        i,
                        PanelNow { reported_width: Some(reported), ..p },
                    )
                    &&& r.0 == disagreement(p.viewport.width, Some(reported))
                    &&& r.1 == (p.reported_width != Some(reported))
                },
                None => final(self)@ == old(self)@ && !r.0 && !r.1,
            },
    {
        let ghost start = self@;
        match self.find(id) {
            Some(i) => {
                assert(start.panels[i as int] == self.panels@[i as int]@);
                let news = match self.panels[i].reported_width {
                    Some(w) => w != reported,
                    None => true,
                };
                self.panels[i].reported_width = Some(reported);
                assert(self@.panels =~= start.panels.update(i as int, self.panels@[i as int]@));
                (width_disagrees(self.panels[i].viewport.width, Some(reported)), news)
            },
            None => (false, false),
        }
    }

    /// Change what a panel is doing. `None` when that is what it is doing
    /// already, or there is no such panel; otherwise whether to show or hide
    /// it, which is left alone while a sheet is open.
    ///
    /// A panel that failed shows WebKit's own error page, which says nothing
    /// useful and loses the one piece of information that matters: the size.
    /// So it gets out of the way and the chrome draws the failed state at the
    /// panel's exact dimensions instead.
    pub fn set_panel_state(&mut self, id: &str, new_state: PanelState) -> (r: Option<Option<bool>>)
        ensures
            ({
                let c = old(self)@;
                match panel_of(c.panels, id@) {
                    Some(i) => if c.panels[i].state == new_state {
                        r is None && final(self)@ == c
                    } else {
                        &&& final(self)@ == with_panel(
                            c,
                            i,
                            PanelNow { state: new_state, ..c.panels[i] },
                        )
                        &&& r == Some(
                            if c.panels_hidden {
                                None
                            } else {
                                Some(!is_failed(new_state))
                            },
                        )
                    },
                    None => r is None && final(self)@ == c,
                }
            }),
    {
        let ghost start = self@;
        match self.find(id) {
            Some(i) => {
                assert(start.panels[i as int] == self.panels@[i as int]@);
                if self.panels[i].state == new_state {
                    return None;
                }
                self.panels[i].state = new_state;
                assert(self@.panels =~= start.panels.update(i as int, self.panels@[i as int]@));
                if self.panels_hidden {
                    Some(None)
                } else {
                    Some(Some(!failed(new_state)))
                }
            },
            None => None,
        }
    }

    /// Mark every panel with the same state. A dev URL that is not answering
    /// fails all of them at once, which is what actually happens. Says whether
    /// to show or hide them, which is left alone while a sheet is open.
    pub fn set_all_panel_states(&mut self, new_state: PanelState) -> (r: Option<bool>)
        ensures
            final(self)@ == (CanvasNow {
                panels: old(self)@.panels.map_values(
                    |p: PanelNow| PanelNow { state: new_state, ..p },
                ),
                ..old(self)@
            }),
            r == if old(self)@.panels_hidden {
                None
            } else {
                Some(!is_failed(new_state))
            },
    {
        let ghost start = self@;
        let ghost want = start.panels.map_values(|p: PanelNow| PanelNow { state: new_state, ..p });
        let mut i: usize = 0;
        while i < self.panels.len()
            invariant
                i <= self.panels@.len(),
                self.panels@.len() == start.panels.len(),
                want == start.panels.map_values(|p: PanelNow| PanelNow { state: new_state, ..p }),
                self@ == (CanvasNow { panels: self@.panels, ..start }),
                forall|k: int| 0 <= k < i ==> #[trigger] self@.panels[k] == want[k],
                forall|k: int|
                    i <= k < self.panels@.len() ==> #[trigger] self@.panels[k]
                        == start.panels[k],
            decreases self.panels@.len() - i,
        {
            let ghost before = self@.panels;
            assert(before[i as int] == self.panels@[i as int]@);
            self.panels[i].state = new_state;
            assert(self@.panels =~= before.update(i as int, self.panels@[i as int]@));
            i += 1;
        }
        assert(self@.panels =~= want);
        if self.panels_hidden {
            None
        } else {
            Some(!failed(new_state))
        }
    }
}

/// Which panels are to be seen: none while hidden, only one while it is
/// inspected, and never one that failed.
pub open spec fn seen(s: Seq<PanelNow>, only: Option<Seq<char>>, hidden: bool) -> Seq<
    (Seq<char>, bool),
> {
    s.map_values(
        |p: PanelNow|
            (
                p.viewport.id,
                (only is None || only == Some(p.viewport.id)) && !hidden && !is_failed(p.state),
            ),
    )
}

proof fn lemma_same_ids(a: Seq<PanelNow>, b: Seq<PanelNow>, id: Seq<char>, i: int)
    requires
        a.len() == b.len(),
        0 <= i,
        forall|k: int| 0 <= k < a.len() ==> (#[trigger] a[k]).viewport.id == b[k].viewport.id,
    ensures
        panel_from(a, id, i) == panel_from(b, id, i),
    decreases a.len() - i,
{
    if i < a.len() {
        assert(a[i].viewport.id == b[i].viewport.id);
        lemma_same_ids(a, b, id, i + 1);
    }
}

/// The script that moves a page to a position.
pub open spec fn scroll_script(target: i64) -> Seq<char> {
    "window.__bpApplyScroll && window.__bpApplyScroll("@ + px_text(target as int) + ")"@
}

/// The script that moves a page to where the panel being scrolled is.
pub fn apply_scroll_script(pct: i64) -> (r: String)
    ensures
        r@ == scroll_script(clamped_pct(pct)),
{
    let target: i64 = if pct < 0 {
        0
    } else if pct > 1_000_000 {
        1_000_000
    } else {
        pct
    };
    let mut out = "window.__bpApplyScroll && window.__bpApplyScroll(".to_owned();
    out.append(px_string(target).as_str());
    out.append(")");
    out
}

/// What the chrome needs in order to draw the label strip aligned to the panels
/// and to size the scroll strip. Every number here is the true one.
#[derive(Debug)]
pub struct PanelInfo {
    pub id: String,
    pub name: String,
    pub source: String,
    /// Which panel this is counting from the left, starting at one.
    ///
    /// Nobody looking at the row says "panel zero". They say "the second one"
    /// or "frame 2", and an agent handed only a zero-based index has to guess
    /// which of the two they meant.
    pub position: usize,
    /// Declared viewport size, which is what the page actually renders at.
    pub width: i64,
    pub height: i64,
    pub scale: Scale,
    pub home_x: i128,
    pub on_screen_width: i128,
    pub on_screen_height: i128,
    pub state: PanelState,
    /// How many errors this panel's page has logged since it loaded.
    pub console_errors: usize,
    /// The document this panel is actually showing. Empty until it has
    /// reported one. It can differ from the row's URL, and when it does that
    /// is worth seeing: a site that redirects on width puts two panels on two
    /// different pages.
    pub document_url: String,
    /// What the page says its viewport is, once it has said anything.
    pub reported_width: Option<i64>,
    /// True when the page disagrees with the label by more than half a pixel.
    ///
    /// This is the one claim the app cannot afford to get wrong, so it is
    /// reported rather than corrected: a panel drawing at a width other than
    /// the one on its label makes every measurement taken from it worthless,
    /// and silently fixing the number would hide the cause.
    pub width_mismatch: bool,
}

/// A [`PanelInfo`], with its texts as characters.
#[verifier::ext_equal]
pub struct PanelShown {
    pub id: Seq<char>,
    pub name: Seq<char>,
    pub source: Seq<char>,
    pub position: usize,
    pub width: i64,
    pub height: i64,
    pub scale: Scale,
    pub home_x: i128,
    pub on_screen_width: i128,
    pub on_screen_height: i128,
    pub state: PanelState,
    pub console_errors: usize,
    pub document_url: Seq<char>,
    pub reported_width: Option<i64>,
    pub width_mismatch: bool,
}

impl View for PanelInfo {
    type V = PanelShown;

    open spec fn view(&self) -> PanelShown {
        PanelShown {
            id: self.id@,
            name: self.name@,
            source: self.source@,
            position: self.position,
            width: self.width,
            height: self.height,
            scale: self.scale,
            home_x: self.home_x,
            on_screen_width: self.on_screen_width,
            on_screen_height: self.on_screen_height,
            state: self.state,
            console_errors: self.console_errors,
            document_url: self.document_url@,
            reported_width: self.reported_width,
            width_mismatch: self.width_mismatch,
        }
    }
}

pub open spec fn panel_infos(v: Seq<PanelInfo>) -> Seq<PanelShown> {
    v.map_values(|p: PanelInfo| p@)
}

#[derive(Debug)]
pub struct CanvasInfo {
    pub panels: Vec<PanelInfo>,
    pub total_width: i128,
    pub scroll_x: i128,
    pub panel_top: i64,
    pub url: String,
    pub zoom_to_fit: bool,
    pub scroll_sync: bool,
    pub follow_links: bool,
    pub picking: bool,
    pub full_height: bool,
    /// Which panel is being inspected, so the chrome can say so and offer a
    /// way out of the mode.
    pub inspecting: Option<String>,
}

/// How many of these lines are errors.
pub open spec fn errors_in(lines: Seq<Line>) -> nat
    decreases lines.len(),
{
    if lines.len() == 0 {
        0
    } else {
        errors_in(lines.drop_last()) + if lines.last().level == "error"@ {
            1nat
        } else {
            0nat
        }
    }
}

fn count_errors(lines: &Vec<ConsoleLine>) -> (r: usize)
    ensures
        r == errors_in(line_views(lines@)),
{
    let ghost all = line_views(lines@);
    let mut n: usize = 0;
    let mut i: usize = 0;
    assert(all.take(0) =~= Seq::empty());
    while i < lines.len()
        invariant
            n <= i <= lines@.len(),
            all == line_views(lines@),
            n == errors_in(all.take(i as int)),
        decreases lines@.len() - i,
    {
        proof {
            assert(all.take(i + 1).drop_last() =~= all.take(i as int));
            assert(all.take(i + 1).last() == lines@[i as int]@);
        }
        if same(lines[i].level.as_str(), "error") {
            n += 1;
        }
        i += 1;
    }
    assert(all.take(all.len() as int) =~= all);
    n
}

pub open spec fn shown(p: PanelNow, at: int, lines: Seq<Line>) -> PanelShown {
    PanelShown {
        id: p.viewport.id,
        name: p.viewport.name,
        source: p.viewport.source,
        position: (at + 1) as usize,
        width: p.viewport.width,
        height: p.viewport.height,
        scale: p.scale,
        home_x: p.home_x,
        on_screen_width: p.width,
        on_screen_height: p.height,
        state: p.state,
        console_errors: errors_in(lines) as usize,
        document_url: p.document_url,
        reported_width: p.reported_width,
        width_mismatch: disagreement(p.viewport.width, p.reported_width),
    }
}

impl Canvas {
    /// What the chrome draws.
    pub fn info(&self, heard: &AppState) -> (r: CanvasInfo)
        ensures
            panel_infos(r.panels@) == Seq::new(
                self@.panels.len(),
                |i: int|
                    shown(
                        self@.panels[i],
                        i,
                        lines_of(heard@.console, self@.panels[i].viewport.id),
                    ),
            ),
            r.total_width == self@.total_width,
            r.scroll_x == self@.scroll_x,
            r.panel_top == super::layout::PANEL_TOP,
            r.url@ == self@.url,
            r.zoom_to_fit == self@.zoom_to_fit,
            r.scroll_sync == self@.sync_on,
            r.follow_links == self@.follow.on,
            r.picking == self@.picking,
            r.full_height == self@.full_height,
            opt_view(r.inspecting) == self@.inspecting,
    {
        let ghost want = Seq::new(
            self@.panels.len(),
            |i: int|
                shown(
                    self@.panels[i],
                    i,
                    lines_of(heard@.console, self@.panels[i].viewport.id),
                ),
        );
        let mut out: Vec<PanelInfo> = Vec::new();
        let mut i: usize = 0;
        assert(panel_infos(out@) =~= want.take(0));
        while i < self.panels.len()
            invariant
                i <= self.panels@.len(),
                want.len() == self.panels@.len(),
                forall|k: int|
                    0 <= k < want.len() ==> #[trigger] want[k] == shown(
                        self@.panels[k],
                        k,
                        lines_of(heard@.console, self@.panels[k].viewport.id),
                    ),
                panel_infos(out@) == want.take(i as int),
            decreases self.panels@.len() - i,
        {
            let ghost before = panel_infos(out@);
            let p = &self.panels[i];
            assert(self@.panels[i as int] == p@);
            let errors: usize = match heard.console_lines(p.viewport.id.as_str()) {
                Some(lines) => count_errors(lines),
                None => 0,
            };
            assert(errors == errors_in(lines_of(heard@.console, p@.viewport.id)));
            let info = PanelInfo {
                id: p.viewport.id.as_str().to_owned(),
                name: p.viewport.name.as_str().to_owned(),
                source: p.viewport.source.as_str().to_owned(),
                position: i + 1,
                width: p.viewport.width,
                height: p.viewport.height,
                scale: p.scale,
                home_x: p.home_x,
                on_screen_width: p.width,
                on_screen_height: p.height,
                state: p.state,
                console_errors: errors,
                document_url: p.document_url.as_str().to_owned(),
                reported_width: p.reported_width,
                width_mismatch: width_disagrees(p.viewport.width, p.reported_width),
            };
            out.push(info);
            assert(info@ == want[i as int]);
            assert(panel_infos(out@) =~= before.push(info@));
            assert(want.take(i + 1) =~= want.take(i as int).push(want[i as int]));
            i += 1;
        }
        assert(want.take(want.len() as int) =~= want);
        CanvasInfo {
            panels: out,
            total_width: self.total_width,
            scroll_x: self.scroll_x,
            panel_top: super::layout::PANEL_TOP,
            url: self.url.as_str().to_owned(),
            zoom_to_fit: self.zoom_to_fit,
            scroll_sync: self.sync_on,
            follow_links: self.follow.is_on(),
            picking: self.picking,
            full_height: self.full_height,
            inspecting: clone_opt(&self.inspecting),
        }
    }

    /// Which panel to open the Web Inspector on.
    pub fn inspect_panel(&self, id: &str) -> (r: Result<usize, String>)
        ensures
            match panel_of(self@.panels, id@) {
                Some(i) => r matches Ok(k) && k == i,
                None => r matches Err(e) && e@ == "no panel called "@ + id@,
            },
    {
        match self.find(id) {
            Some(i) => Ok(i),
            None => {
                let mut e = "no panel called ".to_owned();
                e.append(id);
                Err(e)
            },
        }
    }
}

/// After a sync every panel is where the one being scrolled is, near enough
/// that nobody can see the difference, and the same sync again tells nobody.
pub proof fn a_sync_brings_the_panels_together(s: Seq<PanelNow>, from: Seq<char>, target: i64)
    ensures
        forall|i: int|
            0 <= i < s.len() ==> !is_away(#[trigger] scrolled(s[i], from, target), target),
        told_up_to(
            s.map_values(|p: PanelNow| scrolled(p, from, target)),
            s.len() as int,
            from,
            target,
        ).len() == 0,
{
    let after = s.map_values(|p: PanelNow| scrolled(p, from, target));
    lemma_nobody_told(after, s.len() as int, from, target);
}

proof fn lemma_nobody_told(s: Seq<PanelNow>, n: int, from: Seq<char>, target: i64)
    requires
        0 <= n <= s.len(),
        forall|i: int| 0 <= i < s.len() ==> !is_away(#[trigger] s[i], target),
    ensures
        told_up_to(s, n, from, target).len() == 0,
    decreases n,
{
    if n > 0 {
        lemma_nobody_told(s, n - 1, from, target);
    }
}

/// A panel that failed is never shown, whatever mode the row is in.
pub proof fn a_failed_panel_stays_out_of_the_way(
    s: Seq<PanelNow>,
    only: Option<Seq<char>>,
    hidden: bool,
    i: int,
)
    requires
        0 <= i < s.len(),
    ensures
        seen(s, only, hidden)[i].0 == s[i].viewport.id,
        is_failed(s[i].state) || hidden ==> !seen(s, only, hidden)[i].1,
{
}

/// Laying a row out again in the same window changes nothing.
pub proof fn laying_out_twice_changes_nothing(c: CanvasNow, available: i64)
    requires
        in_reach(c),
    ensures
        laid_out(laid_out(c, available), available) == laid_out(c, available),
{
    let once = laid_out(c, available);
    assert(viewports_of(once.panels) =~= viewports_of(c.panels));
    assert(laid_out(once, available).panels =~= once.panels);
}

/// A navigation that is pushed waits for exactly the panels it was pushed to.
pub proof fn a_push_waits_for_the_panels_pushed(
    c: CanvasNow,
    url: Seq<char>,
    but: Option<Seq<char>>,
    now: u64,
    i: int,
)
    requires
        0 <= i < c.panels.len(),
    ensures
        after_sending(c, url, but, now).follow.waiting matches Some(w) && w.since == now && (
        w.on.contains(c.panels[i].viewport.id) == (but != Some(c.panels[i].viewport.id))),
{
    let id = c.panels[i].viewport.id;
    if but != Some(id) {
        lemma_sent(c, c.panels.len() as int, but, i);
    }
    let s = sent_up_to(c, c.panels.len() as int, but);
    if ids_of(s).contains(id) {
        let k = ids_of(s).index_of(id);
        assert(s[k].0 == id);
        lemma_not_sent(c, c.panels.len() as int, but, k);
    }
}

proof fn lemma_sent(c: CanvasNow, n: int, but: Option<Seq<char>>, i: int)
    requires
        0 <= i < n <= c.panels.len(),
        but != Some(c.panels[i].viewport.id),
    ensures
        ids_of(sent_up_to(c, n, but)).contains(c.panels[i].viewport.id),
    decreases n,
{
    let id = c.panels[i].viewport.id;
    let d = sent_up_to(c, n - 1, but);
    let s = sent_up_to(c, n, but);
    if i == n - 1 {
        assert(ids_of(s)[s.len() - 1] == id);
    } else {
        lemma_sent(c, n - 1, but, i);
        let k = ids_of(d).index_of(id);
        assert(ids_of(s)[k] == id);
    }
}

proof fn lemma_not_sent(c: CanvasNow, n: int, but: Option<Seq<char>>, k: int)
    requires
        0 <= n <= c.panels.len(),
        0 <= k < sent_up_to(c, n, but).len(),
    ensures
        but != Some(sent_up_to(c, n, but)[k].0),
    decreases n,
{
    if n > 0 {
        let d = sent_up_to(c, n - 1, but);
        if k < d.len() {
            lemma_not_sent(c, n - 1, but, k);
        }
    }
}

/// A sync tells every other panel that is more than a thousandth of the way off,
/// and no panel else: not the one being scrolled, and none that is there already.
pub proof fn a_sync_tells_the_panels_that_are_away(
    s: Seq<PanelNow>,
    n: int,
    from: Seq<char>,
    target: i64,
)
    requires
        0 <= n <= s.len(),
    ensures
        told_up_to(s, n, from, target) == s.take(n).filter(
            |p: PanelNow|
                p.viewport.id != from && (p.scroll - target >= 1000 || target - p.scroll >= 1000),
        ).map_values(|p: PanelNow| p.viewport.id),
    decreases n,
{
    reveal(Seq::filter);
    let away = |p: PanelNow|
        p.viewport.id != from && (p.scroll - target >= 1000 || target - p.scroll >= 1000);
    let id = |p: PanelNow| p.viewport.id;
    if n == 0 {
        assert(s.take(0).filter(away).map_values(id) =~= Seq::empty());
    } else {
        a_sync_tells_the_panels_that_are_away(s, n - 1, from, target);
        assert(s.take(n).drop_last() =~= s.take(n - 1));
        assert(s.take(n).last() == s[n - 1]);
        let before = s.take(n - 1).filter(away);
        assert(before.push(s[n - 1]).map_values(id) =~= before.map_values(id).push(
            s[n - 1].viewport.id,
        ));
    }
}

/// How far down a page is stays between its top and its end.
pub proof fn a_scroll_stays_on_the_page(pct: i64)
    ensures
        0 <= clamped_pct(pct) <= 1_000_000,
        0 <= pct <= 1_000_000 ==> clamped_pct(pct) == pct,
        pct < 0 ==> clamped_pct(pct) == 0,
        pct > 1_000_000 ==> clamped_pct(pct) == 1_000_000,
{
}

/// A panel that did not fail is shown, unless the row is hidden or another is
/// being inspected.
pub proof fn a_panel_is_shown_unless_something_hides_it(
    s: Seq<PanelNow>,
    only: Option<Seq<char>>,
    hidden: bool,
    i: int,
)
    requires
        0 <= i < s.len(),
    ensures
        seen(s, only, hidden)[i].1 <==> !hidden && !is_failed(s[i].state) && (only is None || only
            == Some(s[i].viewport.id)),
        seen(s, only, hidden).len() == s.len(),
{
}

/// Laying a row out puts every panel in its place and changes nothing else of
/// it; the row is panned back only where it would show more than the last
/// hundred pixels' worth of nothing.
pub proof fn laying_out_moves_the_panels_to_their_places(c: CanvasNow, available: i64, i: int)
    requires
        0 <= i < c.panels.len(),
        in_reach(c),
    ensures
        ({
            let how = Fitting {
                available_height: available,
                zoom_to_fit: c.zoom_to_fit,
                fit_mode: c.fit_mode,
                full_height: c.full_height,
            };
            let r = laid_out(c, available);
            let at = places(viewports_of(c.panels), how)[i];
            let total = row_width(viewports_of(c.panels), how);
            &&& r.panels.len() == c.panels.len()
            &&& r.panels[i].home_x == at.home_x && r.panels[i].scale == at.scale
            &&& r.panels[i].width == at.width && r.panels[i].height == at.height
            &&& r.panels[i].viewport == c.panels[i].viewport && r.panels[i].state
                == c.panels[i].state
            &&& r.total_width == total as i128
            &&& total >= 100_000_000 && c.scroll_x <= total - 100_000_000 ==> r.scroll_x
                == c.scroll_x
            &&& total < 100_000_000 && c.scroll_x > 0 ==> r.scroll_x == 0
            &&& r.url == c.url && r.follow == c.follow && r.sync_on == c.sync_on
        }),
{
}

/// A link that is followed takes every other panel there: the row's address is
/// the new one, each other panel is told to go and is loading, and the one that
/// was clicked is left alone.
pub proof fn a_followed_link_takes_every_other_panel(
    c: CanvasNow,
    from: Seq<char>,
    url: Seq<char>,
    now: u64,
    i: int,
)
    requires
        0 <= i < c.panels.len(),
    ensures
        ({
            let r = followed(c, from, url, now);
            let p = c.panels[i];
            &&& r.1 == FollowAction::Broadcast ==> {
                &&& r.0.url == normalized(url)
                &&& p.viewport.id != from ==> r.0.panels[i].state == PanelState::Loading
                    && ids_of(r.2).contains(p.viewport.id)
                &&& p.viewport.id == from ==> r.0.panels[i] == p
            }
            &&& r.1 != FollowAction::Broadcast ==> r.0.url == c.url && r.0.panels == c.panels
                && r.2.len() == 0
        }),
{
    let r = followed(c, from, url, now);
    if r.1 == FollowAction::Broadcast && c.panels[i].viewport.id != from {
        let (follow, action) = decided(
            c.follow,
            from,
            normalized(url),
            c.url,
            c.panels.len() as int,
            now,
        );
        let told = CanvasNow { follow, ..c };
        lemma_sent(told, told.panels.len() as int, Some(from), i);
    }
}

/// The errors counted of a panel are the lines of that level, its place is
/// counted from one, and it is marked where the page says another width than its
/// label by more than half a pixel.
pub proof fn a_panel_is_told_as_it_stands(p: PanelNow, at: int, lines: Seq<Line>)
    requires
        0 <= at < usize::MAX,
        lines.len() <= usize::MAX,
    ensures
        ({
            let s = shown(p, at, lines);
            &&& s.position == at + 1
            &&& s.console_errors == lines.filter(|l: Line| l.level == "error"@).len()
            &&& s.width == p.viewport.width && s.height == p.viewport.height
            &&& s.on_screen_width == p.width && s.on_screen_height == p.height
            &&& s.id == p.viewport.id && s.name == p.viewport.name && s.state == p.state
            &&& s.width_mismatch <==> (p.reported_width matches Some(w) && (w - p.viewport.width
                > 500_000 || p.viewport.width - w > 500_000))
        }),
{
    lemma_errors_in(lines);
}

proof fn lemma_errors_in(lines: Seq<Line>)
    ensures
        errors_in(lines) == lines.filter(|l: Line| l.level == "error"@).len(),
        errors_in(lines) <= lines.len(),
    decreases lines.len(),
{
    reveal(Seq::filter);
    if lines.len() > 0 {
        lemma_errors_in(lines.drop_last());
    }
}

/// A row that is hidden cannot be measured, nor any panel but the one being
/// inspected; otherwise every panel can.
pub proof fn what_is_hidden_is_not_measured(c: CanvasNow, id: Option<Seq<char>>)
    ensures
        c.panels_hidden ==> why_not_measured(c, id) is Some,
        !c.panels_hidden && c.inspecting is None ==> why_not_measured(c, id) is None,
        !c.panels_hidden && c.inspecting is Some ==> (why_not_measured(c, id) is None <==> id
            == c.inspecting),
{
}

/// A load landed nowhere when a page was asked for and none came.
pub proof fn a_blank_page_is_nowhere(document: Seq<char>, requested: Seq<char>)
    ensures
        landed_nowhere(document, requested) ==> requested.len() > 0 && requested
            != "about:blank"@ && (document.len() == 0 || document == "about:blank"@),
        document.len() > 0 && document != "about:blank"@ ==> !landed_nowhere(document, requested),
        requested.len() > 0 && requested != "about:blank"@ ==> landed_nowhere(
            Seq::empty(),
            requested,
        ) && landed_nowhere("about:blank"@, requested),
{
}

/// The panels asked for their messages are those that have been somewhere, are
/// on a secure page, and are on screen or are all being asked.
pub proof fn a_panel_off_screen_is_asked_on_a_sweep(
    c: CanvasNow,
    n: int,
    everything: bool,
    window_width: i64,
)
    requires
        0 <= n <= c.panels.len(),
    ensures
        due_up_to(c, n, everything, window_width) == c.panels.take(n).filter(
            |p: PanelNow|
                p.ever_committed && begins(p.document_url, "https:"@) && (everything || in_sight(
                    p.home_x as int,
                    p.width as int,
                    c.scroll_x as int,
                    window_width as int,
                )),
        ).map_values(|p: PanelNow| p.viewport.id),
    decreases n,
{
    reveal(Seq::filter);
    let due = |p: PanelNow|
        p.ever_committed && begins(p.document_url, "https:"@) && (everything || in_sight(
            p.home_x as int,
            p.width as int,
            c.scroll_x as int,
            window_width as int,
        ));
    let id = |p: PanelNow| p.viewport.id;
    if n == 0 {
        assert(c.panels.take(0).filter(due).map_values(id) =~= Seq::empty());
    } else {
        a_panel_off_screen_is_asked_on_a_sweep(c, n - 1, everything, window_width);
        assert(c.panels.take(n).drop_last() =~= c.panels.take(n - 1));
        assert(c.panels.take(n).last() == c.panels[n - 1]);
        let before = c.panels.take(n - 1).filter(due);
        assert(before.push(c.panels[n - 1]).map_values(id) =~= before.map_values(id).push(
            c.panels[n - 1].viewport.id,
        ));
    }
}

/// The frames moved are all of them, or that of the panel being inspected alone,
/// each where its panel is in the row less how far the row is panned.
pub proof fn each_frame_is_panned_with_the_row(c: CanvasNow, n: int)
    requires
        0 <= n <= c.panels.len(),
    ensures
        frames_up_to(c, n) == c.panels.take(n).filter(
            |p: PanelNow| c.inspecting is None || c.inspecting == Some(p.viewport.id),
        ).map_values(
            |p: PanelNow|
                Framed {
                    panel: p.viewport.id,
                    scale: p.scale,
                    x: (p.home_x - c.scroll_x) as i128,
                    width: p.width,
                    height: p.height,
                },
        ),
    decreases n,
{
    reveal(Seq::filter);
    let is = |p: PanelNow| c.inspecting is None || c.inspecting == Some(p.viewport.id);
    let framed = |p: PanelNow|
        Framed {
            panel: p.viewport.id,
            scale: p.scale,
            x: (p.home_x - c.scroll_x) as i128,
            width: p.width,
            height: p.height,
        };
    if n == 0 {
        assert(c.panels.take(0).filter(is).map_values(framed) =~= Seq::empty());
    } else {
        each_frame_is_panned_with_the_row(c, n - 1);
        assert(c.panels.take(n).drop_last() =~= c.panels.take(n - 1));
        assert(c.panels.take(n).last() == c.panels[n - 1]);
        let before = c.panels.take(n - 1).filter(is);
        assert(before.push(c.panels[n - 1]).map_values(framed) =~= before.map_values(framed).push(
            framed(c.panels[n - 1]),
        ));
    }
}

/// The row ends where its furthest panel does.
pub proof fn the_row_ends_with_its_furthest_panel(s: Seq<PanelNow>)
    ensures
        forall|i: int| 0 <= i < s.len() ==> (#[trigger] s[i]).home_x + s[i].width <= end_of_row(s),
        end_of_row(s) == 0 || exists|i: int|
            0 <= i < s.len() && (#[trigger] s[i]).home_x + s[i].width == end_of_row(s),
        end_of_row(s) >= 0,
    decreases s.len(),
{
    if s.len() > 0 {
        let d = s.drop_last();
        the_row_ends_with_its_furthest_panel(d);
        assert(s[s.len() - 1] == s.last());
        assert forall|i: int| 0 <= i < s.len() implies (#[trigger] s[i]).home_x + s[i].width
            <= end_of_row(s) by {
            if i < d.len() {
                assert(d[i] == s[i]);
            }
        }
        if end_of_row(s) == end_of_row(d) && end_of_row(d) != 0 {
            let i = choose|i: int|
                0 <= i < d.len() && (#[trigger] d[i]).home_x + d[i].width == end_of_row(d);
            assert(s[i].home_x + s[i].width == end_of_row(s));
        }
    }
}

/// Messages are collected quickly while somebody is moving the row, slowly when
/// the window is not in front, and in between otherwise.
pub proof fn a_gesture_is_followed_closely(since_gesture_ms: u64, focused: bool)
    ensures
        since_gesture_ms < 400 ==> pump_wait(since_gesture_ms, focused) == 16,
        since_gesture_ms >= 400 && !focused ==> pump_wait(since_gesture_ms, focused) == 1500,
        400 <= since_gesture_ms < 5000 && focused ==> pump_wait(since_gesture_ms, focused) == 150,
        since_gesture_ms >= 5000 && focused ==> pump_wait(since_gesture_ms, focused) == 600,
{
}

} // verus!
