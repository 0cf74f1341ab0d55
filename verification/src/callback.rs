//! What the scripts injected into panels call home with.
//!
//! A script in someone else's page has no other way to say anything. Every
//! message has to carry the per-session nonce that was baked into the script
//! that was injected; one that does not is not from a panel of this row, and
//! nothing comes of it.

use vstd::prelude::*;
use vstd::string::StringExecFns;
use crate::canvas::follow::FollowAction;
use crate::canvas::row::{
    clamped_pct, followed, in_reach, is_failed, panel_of, scrolled, shows, told_up_to,
    with_panel, Canvas, CanvasNow, PanelNow,
};
use crate::canvas::layout::{disagreement, panned};
use crate::model::{PanelState, DEFAULT_REPORT_PROMPT};
use crate::state::{
    lines_of, newest, prose, AppState, ConsoleLine, Endpoint, Heard, Line, Note, Report,
};
use crate::text::{chars_of, opt_view, same, slice_string, texts, trim_str, trimmed};

verus! {

/// How far down its page a panel is, in millionths of the way.
#[derive(Debug)]
pub struct Scroll {
    pub panel: String,
    pub nonce: String,
    pub pct: i64,
}

#[derive(Debug)]
pub struct Console {
    pub panel: String,
    pub nonce: String,
    pub level: String,
    pub text: String,
}

/// A document that has rendered.
#[derive(Debug)]
pub struct Ready {
    pub panel: String,
    pub nonce: String,
    pub url: String,
    pub title: String,
    pub width: i64,
}

/// A URL change that did not load a document: the history API, or the back
/// button inside a single page app.
#[derive(Debug)]
pub struct Nav {
    pub panel: String,
    pub nonce: String,
    pub url: String,
}

/// A problem someone picked out in a panel.
#[derive(Debug)]
pub struct ReportIn {
    pub panel: String,
    pub nonce: String,
    pub note: String,
    pub selector: String,
    pub element: String,
    pub inner_width: i64,
    pub url: String,
    pub title: String,
    /// As the JSON the page sent.
    pub rect: String,
}

#[derive(Debug)]
pub struct Wheel {
    pub nonce: String,
    pub dx: i64,
}

/// The kinds of message there are.
#[derive(Debug, Clone, Copy, PartialEq, Eq, Structural)]
pub enum Kind {
    Scroll,
    Console,
    Ready,
    Wheel,
    Nav,
    Report,
}

pub open spec fn kind_at(path: Seq<char>) -> Option<Kind> {
    if path == "/p/scroll"@ {
        Some(Kind::Scroll)
    } else if path == "/p/console"@ {
        Some(Kind::Console)
    } else if path == "/p/ready"@ {
        Some(Kind::Ready)
    } else if path == "/p/wheel"@ {
        Some(Kind::Wheel)
    } else if path == "/p/nav"@ {
        Some(Kind::Nav)
    } else if path == "/p/report"@ {
        Some(Kind::Report)
    } else {
        None
    }
}

/// The kind of message that is sent to a path.
pub fn kind_of(path: &str) -> (r: Option<Kind>)
    ensures
        r == kind_at(path@),
{
    if same(path, "/p/scroll") {
        Some(Kind::Scroll)
    } else if same(path, "/p/console") {
        Some(Kind::Console)
    } else if same(path, "/p/ready") {
        Some(Kind::Ready)
    } else if same(path, "/p/wheel") {
        Some(Kind::Wheel)
    } else if same(path, "/p/nav") {
        Some(Kind::Nav)
    } else if same(path, "/p/report") {
        Some(Kind::Report)
    } else {
        None
    }
}

/// A text cut to its first `max` characters, with a mark that it was.
pub open spec fn cut_to(s: Seq<char>, max: nat) -> Seq<char> {
    if s.len() <= max {
        s
    } else {
        s.take(max as int) + " …"@
    }
}

/// A page can log a novel. Counted in characters, because cutting a multi-byte
/// character in half is not possible, and a page can log anything at all.
pub fn truncate(s: &str, max: usize) -> (r: String)
    ensures
        r@ == cut_to(s@, max as nat),
{
    let chars = chars_of(s);
    if chars.len() <= max {
        return s.to_owned();
    }
    let mut out = slice_string(chars.as_slice(), 0, max);
    assert(out@ =~= s@.take(max as int));
    out.append(" …");
    out
}

/// What a scroll in panel `from` does to the row, and the panels it is passed
/// on to.
pub open spec fn is_synced(
    before: CanvasNow,
    after: CanvasNow,
    told: Seq<Seq<char>>,
    from: Seq<char>,
    pct: i64,
) -> bool {
    if !before.sync_on {
        told == Seq::<Seq<char>>::empty() && after == before
    } else {
        let target = clamped_pct(pct);
        &&& told == told_up_to(before.panels, before.panels.len() as int, from, target)
        &&& after == (CanvasNow {
            panels: before.panels.map_values(|p: PanelNow| scrolled(p, from, target)),
            ..before
        })
    }
}

/// A panel was scrolled. The panels to scroll with it; `None` for a message
/// that is not one of ours.
pub fn scroll(canvas: &mut Canvas, nonce: &str, msg: &Scroll) -> (r: Option<Vec<String>>)
    ensures
        msg.nonce@ != nonce@ ==> r is None && final(canvas)@ == old(canvas)@,
        msg.nonce@ == nonce@ ==> r is Some && is_synced(
            old(canvas)@,
            final(canvas)@,
            texts(r->Some_0@),
            msg.panel@,
            msg.pct,
        ),
{
    if !same(msg.nonce.as_str(), nonce) {
        return None;
    }
    Some(canvas.sync_scroll(msg.panel.as_str(), msg.pct))
}

/// The longest line that is kept of a console.
pub const LONGEST_LINE: usize = 2000;

/// Whether a line of the console is worth telling the window about.
pub open spec fn is_trouble(level: Seq<char>) -> bool {
    level == "error"@ || level == "warn"@
}

/// Whether `line` was added to the console of `panel`, and to no other.
pub open spec fn is_logged(before: Heard, after: Heard, panel: Seq<char>, line: Line) -> bool {
    &&& lines_of(after.console, panel) == newest(lines_of(before.console, panel).push(line))
    &&& forall|other: Seq<char>|
        other != panel ==> #[trigger] lines_of(after.console, other) == lines_of(
            before.console,
            other,
        )
    &&& after == (Heard { console: after.console, ..before })
}

/// A page logged something. Whether the window is to be told; `None` for a
/// message that is not one of ours.
pub fn console(state: &mut AppState, nonce: &str, msg: &Console, now: u64) -> (r: Option<bool>)
    ensures
        msg.nonce@ != nonce@ ==> r is None && final(state)@ == old(state)@,
        msg.nonce@ == nonce@ ==> {
            &&& r == Some(is_trouble(msg.level@))
            &&& is_logged(
                old(state)@,
                final(state)@,
                msg.panel@,
                (Line {
                    level: msg.level@,
                    text: cut_to(msg.text@, LONGEST_LINE as nat),
                    at: now,
                }),
            )
        },
{
    if !same(msg.nonce.as_str(), nonce) {
        return None;
    }
    let line = ConsoleLine {
        level: msg.level.as_str().to_owned(),
        text: truncate(msg.text.as_str(), LONGEST_LINE),
        at: now,
    };
    state.push_console(msg.panel.as_str(), line);
    Some(same(msg.level.as_str(), "error") || same(msg.level.as_str(), "warn"))
}

/// What came of a document that has rendered.
#[derive(Debug)]
pub struct ReadyDone {
    /// Set when the panel was not known to be loaded; then whether it is to be
    /// shown, unless the whole row is hidden.
    pub shows: Option<Option<bool>>,
    /// The page disagrees about its width, and is to be asked once more before
    /// it is believed, because a first load can report the pre-zoom width.
    pub confirm: bool,
    /// The page said a width it had not said before.
    pub width_is_news: bool,
    /// What is done about the address it is at, and where the other panels are
    /// sent.
    pub followed: Option<(FollowAction, Vec<(String, bool)>)>,
}

/// The row once a panel is known to be loaded.
pub open spec fn with_loaded(c: CanvasNow, id: Seq<char>) -> CanvasNow {
    match panel_of(c.panels, id) {
        Some(i) => with_panel(c, i, PanelNow { state: PanelState::Loaded, ..c.panels[i] }),
        None => c,
    }
}

/// The row once a panel's page said how wide it is. A page that has no width
/// yet says nothing.
pub open spec fn with_width(c: CanvasNow, id: Seq<char>, width: i64) -> CanvasNow {
    match panel_of(c.panels, id) {
        Some(i) => if width > 0 {
            with_panel(c, i, PanelNow { reported_width: Some(width), ..c.panels[i] })
        } else {
            c
        },
        None => c,
    }
}

/// The row once a document has rendered.
pub open spec fn after_ready(c: CanvasNow, id: Seq<char>, url: Seq<char>, width: i64, now: u64) -> CanvasNow {
    let told = with_width(with_loaded(c, id), id, width);
    if url.len() > 0 {
        followed(told, id, url, now).0
    } else {
        told
    }
}

/// What is to be done about a document that has rendered.
pub open spec fn is_ready_done(
    r: ReadyDone,
    c: CanvasNow,
    id: Seq<char>,
    url: Seq<char>,
    width: i64,
    now: u64,
) -> bool {
    let loaded = with_loaded(c, id);
    let told = with_width(loaded, id, width);
    &&& r.shows == match panel_of(c.panels, id) {
        Some(i) => if c.panels[i].state == PanelState::Loaded {
            None
        } else if c.panels_hidden {
            Some(None)
        } else {
            Some(Some(!is_failed(PanelState::Loaded)))
        },
        None => None,
    }
    &&& r.confirm == (width > 0 && (panel_of(loaded.panels, id) matches Some(i) && disagreement(
        loaded.panels[i].viewport.width,
        Some(width),
    )))
    &&& r.width_is_news == (width > 0 && (panel_of(loaded.panels, id) matches Some(i)
        && loaded.panels[i].reported_width != Some(width)))
    &&& if url.len() > 0 {
        r.followed matches Some(f) && f.0 == followed(told, id, url, now).1 && shows(f.1@)
            == followed(told, id, url, now).2
    } else {
        r.followed is None
    }
}

/// A panel that reports in has rendered, whatever the HTTP status was, so this
/// is the honest moment to call it loaded. The page has also just said how wide
/// it thinks it is, and that is the one claim that cannot be got wrong.
///
/// A loaded document is also how a followed link announces itself. Every panel
/// that was pushed reports here too, which is what following has to tell apart
/// from someone clicking.
pub fn ready(canvas: &mut Canvas, nonce: &str, msg: &Ready, now: u64) -> (r: Option<ReadyDone>)
    ensures
        msg.nonce@ != nonce@ ==> r is None && final(canvas)@ == old(canvas)@,
        msg.nonce@ == nonce@ ==> {
            &&& r is Some
            &&& is_ready_done(
                r->Some_0,
                old(canvas)@,
                msg.panel@,
                msg.url@,
                msg.width,
                now,
            )
            &&& final(canvas)@ == after_ready(
                old(canvas)@,
                msg.panel@,
                msg.url@,
                msg.width,
                now,
            )
        },
{
    if !same(msg.nonce.as_str(), nonce) {
        return None;
    }
    let ghost start = canvas@;
    let shows = canvas.set_panel_state(msg.panel.as_str(), PanelState::Loaded);
    proof {
        if let Some(i) = panel_of(start.panels, msg.panel@) {
            crate::canvas::row::lemma_panel_from(start.panels, msg.panel@, 0);
            if start.panels[i].state == PanelState::Loaded {
                assert(with_loaded(start, msg.panel@).panels =~= start.panels);
            }
        }
        assert(canvas@ == with_loaded(start, msg.panel@));
    }
    let (confirm, news) = if msg.width > 0 {
        canvas.set_reported_width(msg.panel.as_str(), msg.width)
    } else {
        (false, false)
    };
    let followed = if msg.url.as_str().is_empty() {
        None
    } else {
        Some(canvas.follow_navigation(msg.panel.as_str(), msg.url.as_str(), now))
    };
    Some(ReadyDone { shows, confirm, width_is_news: news, followed })
}

/// A URL changed inside a page. What is done about it, and where the other
/// panels are sent; `None` for a message that is not one of ours or says
/// nothing.
pub fn nav(canvas: &mut Canvas, nonce: &str, msg: &Nav, now: u64) -> (r: Option<
    (FollowAction, Vec<(String, bool)>),
>)
    ensures
        msg.nonce@ != nonce@ || msg.url@.len() == 0 ==> r is None && final(canvas)@ == old(
            canvas,
        )@,
        msg.nonce@ == nonce@ && msg.url@.len() > 0 ==> {
            let f = followed(old(canvas)@, msg.panel@, msg.url@, now);
            &&& final(canvas)@ == f.0
            &&& r matches Some(x) && x.0 == f.1 && shows(x.1@) == f.2
        },
{
    if !same(msg.nonce.as_str(), nonce) {
        return None;
    }
    if msg.url.as_str().is_empty() {
        return None;
    }
    Some(canvas.follow_navigation(msg.panel.as_str(), msg.url.as_str(), now))
}

pub const LONGEST_TITLE: usize = 300;

pub const LONGEST_SELECTOR: usize = 600;

pub const LONGEST_NOTE: usize = 4000;

/// The note that is written down for what someone picked out.
///
/// The panel's declared width comes from the panel, never from the page. A page
/// can say anything about itself; what the note is about is the breakpoint the
/// panel was put at. It is addressed at the moment it is written, not at the
/// moment it is collected: switching sessions afterwards does not redirect it.
pub open spec fn note_of(
    msg: ReportIn,
    c: CanvasNow,
    owner: Option<Seq<char>>,
    prompt: Option<Seq<char>>,
    now: u64,
) -> Note {
    let at = panel_of(c.panels, msg.panel@);
    let bare = Note {
        panel: msg.panel@,
        panel_name: match at {
            Some(i) => c.panels[i].viewport.name,
            None => msg.panel@,
        },
        width: match at {
            Some(i) => c.panels[i].viewport.width,
            None => msg.inner_width,
        },
        inner_width: msg.inner_width,
        url: msg.url@,
        title: cut_to(msg.title@, LONGEST_TITLE as nat),
        element: cut_to(msg.element@, LONGEST_TITLE as nat),
        selector: cut_to(msg.selector@, LONGEST_SELECTOR as nat),
        rect: msg.rect@,
        note: cut_to(msg.note@, LONGEST_NOTE as nat),
        at: now,
        client: owner,
        prompt: match prompt {
            Some(p) => p,
            None => DEFAULT_REPORT_PROMPT@,
        },
        text: Seq::empty(),
    };
    Note { text: prose(bare), ..bare }
}

pub open spec fn owner_id(h: Heard) -> Option<Seq<char>> {
    match h.owner {
        Some(o) => Some(o.id),
        None => None,
    }
}

/// Someone picked out a problem. Whether it was written down; `None` for a
/// message that is not one of ours or has nothing in it.
pub fn report(
    state: &mut AppState,
    canvas: &Canvas,
    prompt: &Option<String>,
    nonce: &str,
    msg: &ReportIn,
    now: u64,
) -> (r: bool)
    ensures
        r == (msg.nonce@ == nonce@ && trimmed(msg.note@).len() > 0),
        final(state)@ == if r {
            Heard {
                reports: newest(
                    old(state)@.reports.push(
                        note_of(*msg, canvas@, owner_id(old(state)@), opt_view(*prompt), now),
                    ),
                ),
                ..old(state)@
            }
        } else {
            old(state)@
        },
{
    if !same(msg.nonce.as_str(), nonce) || trim_str(msg.note.as_str()).as_str().is_empty() {
        return false;
    }
    let (name, width) = match canvas.find(msg.panel.as_str()) {
        Some(i) => {
            assert(canvas@.panels[i as int] == canvas.panels@[i as int]@);
            (canvas.panels[i].viewport.name.as_str().to_owned(), canvas.panels[i].viewport.width)
        },
        None => (msg.panel.as_str().to_owned(), msg.inner_width),
    };
    let client = match &state.owner {
        Some(o) => Some(o.id.as_str().to_owned()),
        None => None,
    };
    let prompt = match prompt {
        Some(p) => p.as_str().to_owned(),
        None => DEFAULT_REPORT_PROMPT.to_owned(),
    };
    let empty = String::new();
    assert(empty@ =~= Seq::<char>::empty());
    let mut report = Report {
        panel: msg.panel.as_str().to_owned(),
        panel_name: name,
        width,
        inner_width: msg.inner_width,
        url: msg.url.as_str().to_owned(),
        title: truncate(msg.title.as_str(), LONGEST_TITLE),
        element: truncate(msg.element.as_str(), LONGEST_TITLE),
        selector: truncate(msg.selector.as_str(), LONGEST_SELECTOR),
        rect: msg.rect.as_str().to_owned(),
        note: truncate(msg.note.as_str(), LONGEST_NOTE),
        at: now,
        client,
        prompt,
        text: empty,
    };
    // Written once, here, so the clipboard, the bridge and a watching session
    // all hand over the same words.
    report.text = report.describe();
    state.push_report(report);
    true
}

/// What a turn of the wheel does to the row, and where each panel moves.
pub open spec fn is_panned(
    before: CanvasNow,
    after: CanvasNow,
    moved: Option<Vec<(String, i128)>>,
    dx: i64,
    window_width: i64,
) -> bool {
    let next = panned(
        before.scroll_x as int,
        dx as int,
        before.total_width as int,
        window_width as int,
    );
    let moves = next - before.scroll_x >= 500_000 || before.scroll_x - next >= 500_000;
    &&& (moved is Some) == moves
    &&& after == if moves {
        CanvasNow { scroll_x: next as i128, ..before }
    } else {
        before
    }
    &&& moved matches Some(m) ==> m@.map_values(|e: (String, i128)| (e.0@, e.1))
        == if before.panels_hidden {
        Seq::empty()
    } else {
        before.panels.map_values(
            |p: PanelNow| (p.viewport.id, (p.home_x - next as i128) as i128),
        )
    }
}

/// The wheel was turned sideways in a panel. Where each panel moves to, if the
/// row moves.
pub fn wheel(canvas: &mut Canvas, nonce: &str, msg: &Wheel, window_width: i64) -> (r: Option<
    Vec<(String, i128)>,
>)
    requires
        in_reach(old(canvas)@),
    ensures
        msg.nonce@ != nonce@ ==> r is None && final(canvas)@ == old(canvas)@,
        msg.nonce@ == nonce@ ==> is_panned(
            old(canvas)@,
            final(canvas)@,
            r,
            msg.dx,
            window_width,
        ),
{
    if !same(msg.nonce.as_str(), nonce) {
        return None;
    }
    canvas.nudge_scroll(msg.dx, window_width)
}

/// One message, already read.
#[derive(Debug)]
pub enum Message {
    Scroll(Scroll),
    Console(Console),
    Ready(Ready),
    Wheel(Wheel),
    Nav(Nav),
    Report(ReportIn),
}

/// What came of a message.
#[derive(Debug)]
pub enum Reaction {
    /// Not one of ours, or nothing to do.
    Nothing,
    Scrolled(Vec<String>),
    Logged(bool),
    Rendered(ReadyDone),
    Panned(Vec<(String, i128)>),
    Followed(FollowAction, Vec<(String, bool)>),
    Noted,
}

pub open spec fn nonce_of(m: Message) -> Seq<char> {
    match m {
        Message::Scroll(x) => x.nonce@,
        Message::Console(x) => x.nonce@,
        Message::Ready(x) => x.nonce@,
        Message::Wheel(x) => x.nonce@,
        Message::Nav(x) => x.nonce@,
        Message::Report(x) => x.nonce@,
    }
}

/// Whether `b` is the message `a` as coming from `panel`.
pub open spec fn is_from(a: Message, b: Message, panel: Seq<char>) -> bool {
    match (a, b) {
        (Message::Scroll(x), Message::Scroll(y)) => y.panel@ == panel && y == (Scroll {
            panel: y.panel,
            ..x
        }),
        (Message::Console(x), Message::Console(y)) => y.panel@ == panel && y == (Console {
            panel: y.panel,
            ..x
        }),
        (Message::Ready(x), Message::Ready(y)) => y.panel@ == panel && y == (Ready {
            panel: y.panel,
            ..x
        }),
        (Message::Wheel(x), Message::Wheel(y)) => x == y,
        (Message::Nav(x), Message::Nav(y)) => y.panel@ == panel && y == (Nav {
            panel: y.panel,
            ..x
        }),
        (Message::Report(x), Message::Report(y)) => y.panel@ == panel && y == (ReportIn {
            panel: y.panel,
            ..x
        }),
        _ => false,
    }
}

/// A message with the panel it came from set to the one it was received from.
///
/// A page can put whatever it likes in the body, so the one field it must not
/// be trusted with is which panel it is.
pub fn from_panel(message: Message, panel: &str) -> (r: Message)
    ensures
        is_from(message, r, panel@),
{
    match message {
        Message::Scroll(x) => Message::Scroll(
            Scroll { panel: panel.to_owned(), nonce: x.nonce, pct: x.pct },
        ),
        Message::Console(x) => Message::Console(
            Console { panel: panel.to_owned(), nonce: x.nonce, level: x.level, text: x.text },
        ),
        Message::Ready(x) => Message::Ready(
            Ready {
                panel: panel.to_owned(),
                nonce: x.nonce,
                url: x.url,
                title: x.title,
                width: x.width,
            },
        ),
        Message::Wheel(x) => Message::Wheel(x),
        Message::Nav(x) => Message::Nav(
            Nav { panel: panel.to_owned(), nonce: x.nonce, url: x.url },
        ),
        Message::Report(x) => Message::Report(
            ReportIn {
                panel: panel.to_owned(),
                nonce: x.nonce,
                note: x.note,
                selector: x.selector,
                element: x.element,
                inner_width: x.inner_width,
                url: x.url,
                title: x.title,
                rect: x.rect,
            },
        ),
    }
}

/// What surrounds a message: the standing instruction for notes, how wide the
/// window is, and the time.
#[derive(Debug)]
pub struct Setting {
    pub prompt: Option<String>,
    pub window_width: i64,
    pub now: u64,
}

/// Whether a message that carries the nonce, from `panel`, came to this.
pub open spec fn is_reaction(
    r: Reaction,
    m: Message,
    panel: Seq<char>,
    c: CanvasNow,
    c2: CanvasNow,
    h: Heard,
    h2: Heard,
    around: Setting,
) -> bool {
    match m {
        Message::Scroll(x) => h2 == h && (r matches Reaction::Scrolled(told) && is_synced(
            c,
            c2,
            texts(told@),
            panel,
            x.pct,
        )),
        Message::Console(x) => c2 == c && r == Reaction::Logged(is_trouble(x.level@)) && is_logged(
            h,
            h2,
            panel,
            (Line {
                level: x.level@,
                text: cut_to(x.text@, LONGEST_LINE as nat),
                at: around.now,
            }),
        ),
        Message::Ready(x) => h2 == h && (r matches Reaction::Rendered(done) && is_ready_done(
            done,
            c,
            panel,
            x.url@,
            x.width,
            around.now,
        )) && c2 == after_ready(c, panel, x.url@, x.width, around.now),
        Message::Wheel(x) => h2 == h && match r {
            Reaction::Panned(moved) => is_panned(c, c2, Some(moved), x.dx, around.window_width),
            _ => r is Nothing && is_panned(c, c2, None, x.dx, around.window_width),
        },
        Message::Nav(x) => h2 == h && if x.url@.len() == 0 {
            r is Nothing && c2 == c
        } else {
            let f = followed(c, panel, x.url@, around.now);
            c2 == f.0 && (r matches Reaction::Followed(a, sent) && a == f.1 && shows(sent@) == f.2)
        },
        Message::Report(x) => c2 == c && if trimmed(x.note@).len() == 0 {
            r is Nothing && h2 == h
        } else {
            &&& r is Noted
            &&& exists|y: ReportIn|
                y.panel@ == panel && y == (ReportIn { panel: y.panel, ..x }) && h2 == (Heard {
                    reports: newest(
                        h.reports.push(
                            #[trigger] note_of(
                                y,
                                c,
                                owner_id(h),
                                opt_view(around.prompt),
                                around.now,
                            ),
                        ),
                    ),
                    ..h
                })
        },
    }
}

/// One message that did not arrive over HTTP, from a panel whose id is known.
///
/// It ends at the same handlers a posted message reaches, so there is no second
/// implementation to drift.
pub fn dispatch_from(
    canvas: &mut Canvas,
    state: &mut AppState,
    endpoint: &Option<Endpoint>,
    panel: &str,
    message: Message,
    around: &Setting,
) -> (r: Reaction)
    requires
        in_reach(old(canvas)@),
    ensures
        match *endpoint {
            Some(e) if e.nonce@ == nonce_of(message) => is_reaction(
                r,
                message,
                panel@,
                old(canvas)@,
                final(canvas)@,
                old(state)@,
                final(state)@,
                *around,
            ),
            _ => r is Nothing && final(canvas)@ == old(canvas)@ && final(state)@ == old(state)@,
        },
{
    let nonce = match endpoint {
        Some(e) => e.nonce.as_str(),
        None => {
            return Reaction::Nothing;
        },
    };
    let message = from_panel(message, panel);
    match &message {
        Message::Scroll(x) => match scroll(canvas, nonce, x) {
            Some(told) => Reaction::Scrolled(told),
            None => Reaction::Nothing,
        },
        Message::Console(x) => match console(state, nonce, x, around.now) {
            Some(tell) => Reaction::Logged(tell),
            None => Reaction::Nothing,
        },
        Message::Ready(x) => match ready(canvas, nonce, x, around.now) {
            Some(done) => Reaction::Rendered(done),
            None => Reaction::Nothing,
        },
        Message::Wheel(x) => match wheel(canvas, nonce, x, around.window_width) {
            Some(moved) => Reaction::Panned(moved),
            None => Reaction::Nothing,
        },
        Message::Nav(x) => match nav(canvas, nonce, x, around.now) {
            Some(f) => Reaction::Followed(f.0, f.1),
            None => Reaction::Nothing,
        },
        Message::Report(x) => {
            let ghost y = *x;
            if report(state, canvas, &around.prompt, nonce, x, around.now) {
                assert(note_of(
                    y,
                    old(canvas)@,
                    owner_id(old(state)@),
                    opt_view(around.prompt),
                    around.now,
                ) == note_of(
                    *x,
                    canvas@,
                    owner_id(old(state)@),
                    opt_view(around.prompt),
                    around.now,
                ));
                Reaction::Noted
            } else {
                Reaction::Nothing
            }
        },
    }
}

/// A text is never cut to more than it was asked to be and the mark, and what
/// is short enough is left exactly as it was.
pub proof fn a_cut_text_begins_as_it_did(s: Seq<char>, max: nat)
    ensures
        s.len() <= max ==> cut_to(s, max) == s,
        s.len() > max ==> cut_to(s, max).len() == max + 2 && cut_to(s, max).take(max as int)
            == s.take(max as int),
{
    reveal_strlit(" …");
    if s.len() > max {
        assert(cut_to(s, max).take(max as int) =~= s.take(max as int));
    }
}

/// A note is about the width its panel was put at, whatever the page says.
pub proof fn a_note_is_about_the_declared_width(
    msg: ReportIn,
    c: CanvasNow,
    owner: Option<Seq<char>>,
    prompt: Option<Seq<char>>,
    now: u64,
    i: int,
)
    requires
        panel_of(c.panels, msg.panel@) == Some(i),
    ensures
        note_of(msg, c, owner, prompt, now).width == c.panels[i].viewport.width,
        note_of(msg, c, owner, prompt, now).panel_name == c.panels[i].viewport.name,
        note_of(msg, c, owner, prompt, now).client == owner,
{
}

/// What a panel can say, each at an address of its own, and nothing anywhere
/// else.
pub proof fn each_kind_of_message_has_its_address(path: Seq<char>)
    ensures
        kind_at("/p/scroll"@) == Some(Kind::Scroll),
        kind_at("/p/console"@) == Some(Kind::Console),
        kind_at("/p/ready"@) == Some(Kind::Ready),
        kind_at("/p/wheel"@) == Some(Kind::Wheel),
        kind_at("/p/nav"@) == Some(Kind::Nav),
        kind_at("/p/report"@) == Some(Kind::Report),
        path != "/p/scroll"@ && path != "/p/console"@ && path != "/p/ready"@ && path
            != "/p/wheel"@ && path != "/p/nav"@ && path != "/p/report"@ ==> kind_at(path) is None,
{
    reveal_strlit("/p/scroll");
    reveal_strlit("/p/console");
    reveal_strlit("/p/ready");
    reveal_strlit("/p/wheel");
    reveal_strlit("/p/nav");
    reveal_strlit("/p/report");
    assert("/p/scroll"@[3] == 's' && "/p/console"@[3] == 'c' && "/p/ready"@[3] == 'r'
        && "/p/wheel"@[3] == 'w' && "/p/nav"@[3] == 'n' && "/p/report"@[3] == 'r');
    assert("/p/ready"@.len() == 8 && "/p/report"@.len() == 9);
}

/// A note keeps what was written: up to four thousand characters of it, six
/// hundred of the selector, and three hundred of the title and the element; with
/// the page, the time, and who it is for.
pub proof fn a_note_keeps_what_was_written(
    msg: ReportIn,
    c: CanvasNow,
    owner: Option<Seq<char>>,
    prompt: Option<Seq<char>>,
    now: u64,
)
    ensures
        ({
            let n = note_of(msg, c, owner, prompt, now);
            &&& msg.note@.len() <= 4000 ==> n.note == msg.note@
            &&& msg.note@.len() > 4000 ==> n.note.take(4000) == msg.note@.take(4000)
            &&& msg.selector@.len() <= 600 ==> n.selector == msg.selector@
            &&& msg.title@.len() <= 300 ==> n.title == msg.title@
            &&& msg.element@.len() <= 300 ==> n.element == msg.element@
            &&& n.panel == msg.panel@ && n.url == msg.url@ && n.rect == msg.rect@
            &&& n.at == now && n.client == owner && n.inner_width == msg.inner_width
            &&& prompt matches Some(p) ==> n.prompt == p
            &&& prompt is None ==> n.prompt == DEFAULT_REPORT_PROMPT@
            &&& panel_of(c.panels, msg.panel@) is None ==> n.width == msg.inner_width
                && n.panel_name == msg.panel@
            &&& n.text == prose(n)
        }),
{
    a_cut_text_begins_as_it_did(msg.note@, 4000);
    let n = note_of(msg, c, owner, prompt, now);
    assert(prose(n) == prose(Note { text: Seq::empty(), ..n }));
}

/// A note that says something joins the queue, addressed to the session that
/// has claimed notes; one that says nothing changes nothing. Either way the row
/// stays as it is.
pub proof fn a_note_joins_the_queue(
    r: Reaction,
    x: ReportIn,
    panel: Seq<char>,
    c: CanvasNow,
    c2: CanvasNow,
    h: Heard,
    h2: Heard,
    around: Setting,
)
    requires
        is_reaction(r, Message::Report(x), panel, c, c2, h, h2, around),
    ensures
        c2 == c,
        h2.console == h.console && h2.owner == h.owner,
        trimmed(x.note@).len() == 0 ==> r is Nothing && h2 == h,
        trimmed(x.note@).len() > 0 ==> {
            &&& r is Noted
            &&& h2.reports.len() == if h.reports.len() < 200 {
                h.reports.len() + 1
            } else {
                200
            }
            &&& h2.reports.last().panel == panel
            &&& x.note@.len() <= 4000 ==> h2.reports.last().note == x.note@
            &&& h2.reports.last().client == match h.owner {
                Some(o) => Some(o.id),
                None => None,
            }
            &&& h.reports.len() < 200 ==> h2.reports.drop_last() == h.reports
        },
{
    if trimmed(x.note@).len() > 0 {
        let y = choose|y: ReportIn|
            y.panel@ == panel && y == (ReportIn { panel: y.panel, ..x }) && h2 == (Heard {
                reports: newest(
                    h.reports.push(
                        #[trigger] note_of(
                            y,
                            c,
                            owner_id(h),
                            opt_view(around.prompt),
                            around.now,
                        ),
                    ),
                ),
                ..h
            });
        let n = note_of(y, c, owner_id(h), opt_view(around.prompt), around.now);
        a_note_keeps_what_was_written(y, c, owner_id(h), opt_view(around.prompt), around.now);
        crate::state::the_last_two_hundred_are_kept(h.reports.push(n));
        if h.reports.len() < 200 {
            assert(h2.reports.drop_last() =~= h.reports);
        }
    }
}

/// What a page logs is the last line of its panel's console, up to two thousand
/// characters of it; no other panel's changes. Errors and warnings are trouble.
pub proof fn a_logged_line_is_kept_under_its_panel(
    r: Reaction,
    x: Console,
    panel: Seq<char>,
    c: CanvasNow,
    c2: CanvasNow,
    h: Heard,
    h2: Heard,
    around: Setting,
    other: Seq<char>,
)
    requires
        is_reaction(r, Message::Console(x), panel, c, c2, h, h2, around),
    ensures
        c2 == c,
        h2.reports == h.reports,
        lines_of(h2.console, panel).len() > 0,
        lines_of(h2.console, panel).last().level == x.level@,
        x.text@.len() <= 2000 ==> lines_of(h2.console, panel).last().text == x.text@,
        lines_of(h.console, panel).len() < 200 ==> lines_of(h2.console, panel).drop_last()
            == lines_of(h.console, panel),
        other != panel ==> lines_of(h2.console, other) == lines_of(h.console, other),
        x.level@ == "error"@ || x.level@ == "warn"@ ==> r == Reaction::Logged(true),
        x.level@ != "error"@ && x.level@ != "warn"@ ==> r == Reaction::Logged(false),
{
    let line = Line {
        level: x.level@,
        text: cut_to(x.text@, LONGEST_LINE as nat),
        at: around.now,
    };
    let before = lines_of(h.console, panel);
    crate::state::the_last_two_hundred_are_kept(before.push(line));
    if before.len() < 200 {
        assert(before.push(line).drop_last() =~= before);
    }
}

/// A panel that says it is ready is loaded, and is known to be as wide as it
/// says; what it says of no width is nothing.
pub proof fn a_ready_panel_is_loaded(c: CanvasNow, id: Seq<char>, width: i64, i: int)
    requires
        panel_of(c.panels, id) == Some(i),
        0 <= i < c.panels.len(),
        c.panels[i].viewport.id == id,
        forall|j: int| 0 <= j < i ==> (#[trigger] c.panels[j]).viewport.id != id,
    ensures
        ({
            let r = after_ready(c, id, Seq::empty(), width, 0);
            &&& r.panels.len() == c.panels.len()
            &&& r.panels[i].state == PanelState::Loaded
            &&& width > 0 ==> r.panels[i].reported_width == Some(width)
            &&& width <= 0 ==> r.panels[i].reported_width == c.panels[i].reported_width
            &&& forall|j: int|
                0 <= j < c.panels.len() && j != i ==> #[trigger] r.panels[j] == c.panels[j]
        }),
{
    let l = with_loaded(c, id);
    assert forall|j: int| 0 <= j < i implies (#[trigger] l.panels[j]).viewport.id != id by {
        assert(l.panels[j] == c.panels[j]);
    }
    assert(l.panels[i].viewport.id == id);
    lemma_first_panel(l.panels, id, 0, i);
}

proof fn lemma_first_panel(s: Seq<PanelNow>, id: Seq<char>, from: int, i: int)
    requires
        0 <= from <= i < s.len(),
        s[i].viewport.id == id,
        forall|j: int| from <= j < i ==> (#[trigger] s[j]).viewport.id != id,
    ensures
        crate::canvas::row::panel_from(s, id, from) == Some(i),
    decreases i - from,
{
    if from < i {
        lemma_first_panel(s, id, from + 1, i);
    }
}

/// A message is taken as coming from the panel that was listened to, whatever it
/// says of itself, and is otherwise what it was.
pub proof fn a_message_comes_from_where_it_was_heard(a: Message, b: Message, panel: Seq<char>)
    requires
        is_from(a, b, panel),
    ensures
        nonce_of(a) == nonce_of(b),
        b matches Message::Scroll(y) ==> y.panel@ == panel && a is Scroll,
        b matches Message::Console(y) ==> y.panel@ == panel && a is Console,
        b matches Message::Ready(y) ==> y.panel@ == panel && a is Ready,
        b matches Message::Nav(y) ==> y.panel@ == panel && a is Nav,
        b matches Message::Report(y) ==> y.panel@ == panel && a is Report,
        b is Wheel ==> a == b,
        (a matches Message::Nav(x) ==> b->Nav_0.url == x.url),
        (a matches Message::Scroll(x) ==> b->Scroll_0.pct == x.pct),
{
}

} // verus!
