//! Everything the app knows at runtime about what panels said: their console
//! lines, and the problems people pointed at in them.

use vstd::prelude::*;
use vstd::string::StringExecFns;
use crate::canvas::layout::round_div;
use crate::scanner::types::ScanReport;
use crate::text::{clone_opt, decimal, decimal_string, opt_view, same, trim_str, trimmed};

verus! {

/// A width to the nearest whole pixel, a half going away from zero.
pub open spec fn pixels_text(w: int) -> Seq<char> {
    let n = round_div(w, 1_000_000);
    if n < 0 {
        "-"@ + decimal((-n) as nat)
    } else {
        decimal(n as nat)
    }
}

pub fn pixels_string(w: i64) -> (r: String)
    ensures
        r@ == pixels_text(w as int),
{
    if w >= 0 {
        decimal_string(((w as i128 + 500_000) / 1_000_000) as u64)
    } else {
        let n: u64 = ((-(w as i128) + 500_000) / 1_000_000) as u64;
        if n == 0 {
            decimal_string(0)
        } else {
            let mut out = "-".to_owned();
            out.append(decimal_string(n).as_str());
            out
        }
    }
}

/// A problem someone pointed at in a panel, with the width it happened at.
///
/// This is the whole point of the app written down: a layout is only wrong at
/// some widths, so a note about one is worthless without the width attached.
#[derive(Debug)]
pub struct Report {
    pub panel: String,
    /// The name a person uses, "Medium", not the id.
    pub panel_name: String,
    /// The declared breakpoint width, which is what the note is about.
    pub width: i64,
    /// What the page thinks it is, which should equal `width` and is worth
    /// carrying because when it does not, that is itself the bug.
    pub inner_width: i64,
    pub url: String,
    pub title: String,
    pub element: String,
    pub selector: String,
    /// The element's rectangle, as the JSON the page sent.
    pub rect: String,
    pub note: String,
    pub at: u64,
    /// Which agent session this note was addressed to, if one had claimed
    /// reports when it was written. `None` means nobody had, and only the
    /// chrome's copy button will ever collect it.
    pub client: Option<String>,
    /// The standing instruction, captured when the note was written rather than
    /// when it is collected, so editing it later does not rewrite the meaning
    /// of notes already sitting in the queue.
    pub prompt: String,
    /// The note as prose, built once here rather than by whoever collects it,
    /// so the clipboard, the bridge and a watching session all say the same
    /// thing.
    pub text: String,
}

/// A [`Report`], with its texts as characters.
#[verifier::ext_equal]
pub struct Note {
    pub panel: Seq<char>,
    pub panel_name: Seq<char>,
    pub width: i64,
    pub inner_width: i64,
    pub url: Seq<char>,
    pub title: Seq<char>,
    pub element: Seq<char>,
    pub selector: Seq<char>,
    pub rect: Seq<char>,
    pub note: Seq<char>,
    pub at: u64,
    pub client: Option<Seq<char>>,
    pub prompt: Seq<char>,
    pub text: Seq<char>,
}

impl View for Report {
    type V = Note;

    open spec fn view(&self) -> Note {
        Note {
            panel: self.panel@,
            panel_name: self.panel_name@,
            width: self.width,
            inner_width: self.inner_width,
            url: self.url@,
            title: self.title@,
            element: self.element@,
            selector: self.selector@,
            rect: self.rect@,
            note: self.note@,
            at: self.at,
            client: opt_view(self.client),
            prompt: self.prompt@,
            text: self.text@,
        }
    }
}

impl Clone for Report {
    fn clone(&self) -> (r: Self)
        ensures
            r@ == self@,
    {
        Report {
            panel: self.panel.as_str().to_owned(),
            panel_name: self.panel_name.as_str().to_owned(),
            width: self.width,
            inner_width: self.inner_width,
            url: self.url.as_str().to_owned(),
            title: self.title.as_str().to_owned(),
            element: self.element.as_str().to_owned(),
            selector: self.selector.as_str().to_owned(),
            rect: self.rect.as_str().to_owned(),
            note: self.note.as_str().to_owned(),
            at: self.at,
            client: clone_opt(&self.client),
            prompt: self.prompt.as_str().to_owned(),
            text: self.text.as_str().to_owned(),
        }
    }
}

/// What is said about a page that disagrees about its own width.
pub open spec fn width_remark(n: Note) -> Seq<char> {
    if n.inner_width - n.width > 1_000_000 || n.width - n.inner_width > 1_000_000 {
        " (the page reports "@ + pixels_text(n.inner_width as int)
            + "px, which is itself wrong)"@
    } else {
        ""@
    }
}

/// A note as prose. The instruction leads, because whoever reads this needs to
/// know what they are being asked to do before they read what is wrong.
pub open spec fn prose(n: Note) -> Seq<char> {
    let lead = trimmed(n.prompt);
    (if lead.len() > 0 {
        lead + "\n\n---\n\n"@
    } else {
        ""@
    }) + n.note + "\n\nThis problem exists at the "@ + pixels_text(n.width as int)
        + "px breakpoint"@ + width_remark(n) + ", in the "@ + n.panel_name
        + " panel.\nElement: "@ + n.element + "\nSelector: "@ + n.selector + "\nPage: "@ + n.url
}

impl Report {
    pub fn describe(&self) -> (r: String)
        ensures
            r@ == prose(self@),
    {
        let lead = trim_str(self.prompt.as_str());
        let mut out = String::new();
        if !lead.as_str().is_empty() {
            out = lead;
            out.append("\n\n---\n\n");
        } else {
            out.append("");
        }
        out.append(self.note.as_str());
        out.append("\n\nThis problem exists at the ");
        out.append(pixels_string(self.width).as_str());
        out.append("px breakpoint");
        let apart: i128 = self.inner_width as i128 - self.width as i128;
        let mut remark = String::new();
        if apart > 1_000_000 || apart < -1_000_000 {
            remark.append(" (the page reports ");
            remark.append(pixels_string(self.inner_width).as_str());
            remark.append("px, which is itself wrong)");
            assert(remark@ =~= width_remark(self@));
        } else {
            remark.append("");
            assert(remark@ =~= width_remark(self@));
        }
        out.append(remark.as_str());
        out.append(", in the ");
        out.append(self.panel_name.as_str());
        out.append(" panel.\nElement: ");
        out.append(self.element.as_str());
        out.append("\nSelector: ");
        out.append(self.selector.as_str());
        out.append("\nPage: ");
        out.append(self.url.as_str());
        assert(out@ =~= prose(self@));
        out
    }
}

/// One console line captured from a panel.
#[derive(Debug)]
pub struct ConsoleLine {
    pub level: String,
    pub text: String,
    pub at: u64,
}

/// A [`ConsoleLine`], with its texts as characters.
#[verifier::ext_equal]
pub struct Line {
    pub level: Seq<char>,
    pub text: Seq<char>,
    pub at: u64,
}

impl View for ConsoleLine {
    type V = Line;

    open spec fn view(&self) -> Line {
        Line { level: self.level@, text: self.text@, at: self.at }
    }
}

pub open spec fn line_views(v: Seq<ConsoleLine>) -> Seq<Line> {
    v.map_values(|l: ConsoleLine| l@)
}

pub open spec fn consoles(v: Seq<(String, Vec<ConsoleLine>)>) -> Seq<(Seq<char>, Seq<Line>)> {
    v.map_values(|e: (String, Vec<ConsoleLine>)| (e.0@, line_views(e.1@)))
}

/// The first buffer, from `i` on, that is a panel's.
pub open spec fn buffer_from(c: Seq<(Seq<char>, Seq<Line>)>, panel: Seq<char>, i: int) -> Option<
    int,
>
    decreases c.len() - i,
{
    if i >= c.len() {
        None
    } else if c[i].0 == panel {
        Some(i)
    } else {
        buffer_from(c, panel, i + 1)
    }
}

/// What a panel has logged.
pub open spec fn lines_of(c: Seq<(Seq<char>, Seq<Line>)>, panel: Seq<char>) -> Seq<Line> {
    match buffer_from(c, panel, 0) {
        Some(i) => c[i].1,
        None => Seq::empty(),
    }
}

/// How many lines, or notes, are kept.
pub const MOST_KEPT: usize = 200;

/// The newest of a list, which is what is kept of it.
pub open spec fn newest<T>(s: Seq<T>) -> Seq<T> {
    if s.len() > MOST_KEPT {
        s.skip(s.len() - MOST_KEPT)
    } else {
        s
    }
}

fn drop_oldest<T>(v: &mut Vec<T>)
    ensures
        final(v)@ == newest(old(v)@),
{
    let ghost all = v@;
    let ghost mut gone: int = 0;
    assert(all.skip(0) =~= all);
    while v.len() > MOST_KEPT
        invariant
            0 <= gone <= all.len(),
            v@ == all.skip(gone),
            gone > 0 ==> all.len() - gone >= MOST_KEPT,
            all == old(v)@,
        decreases v@.len(),
    {
        let _oldest = v.remove(0);
        proof {
            gone = gone + 1;
            assert(v@ =~= all.skip(gone));
        }
    }
}

/// An agent session that has claimed reports.
///
/// A session has a stable id, so it can name itself without the app inventing
/// an identity for it. The name is for the toolbar; the id is what a note is
/// addressed to.
#[derive(Debug)]
pub struct ClientSession {
    pub id: String,
    pub name: String,
    /// When it claimed. Only used to say "since 14:02" in the toolbar.
    pub at: u64,
}

/// A [`ClientSession`], with its texts as characters.
#[verifier::ext_equal]
pub struct Claimant {
    pub id: Seq<char>,
    pub name: Seq<char>,
    pub at: u64,
}

impl View for ClientSession {
    type V = Claimant;

    open spec fn view(&self) -> Claimant {
        Claimant { id: self.id@, name: self.name@, at: self.at }
    }
}

impl Clone for ClientSession {
    fn clone(&self) -> (r: Self)
        ensures
            r@ == self@,
    {
        ClientSession {
            id: self.id.as_str().to_owned(),
            name: self.name.as_str().to_owned(),
            at: self.at,
        }
    }
}

/// The loopback address injected scripts call, plus the nonce that proves a
/// message came from a panel we spawned rather than from the page's own code.
///
/// Only an http page can actually reach it. WebKit blocks an http request made
/// by an https document and does not exempt `127.0.0.1` the way Chrome does, so
/// an https panel queues its messages and the pump collects them instead. The
/// nonce is the same either way.
#[derive(Debug)]
pub struct Endpoint {
    pub port: u16,
    pub nonce: String,
}

/// What the app currently believes about the open project. `None` means we are
/// testing a bare URL with a profile.
#[derive(Debug)]
pub struct ProjectContext {
    pub root: String,
    pub name: String,
    /// True when `breakpoints.md` or `.breakpoints.json` is driving the
    /// viewports, which is the app's one visual signal that it is reading code.
    pub project_driven: bool,
    /// The dev URL that was actually chosen, which is the first candidate that
    /// answered rather than the highest-confidence guess. Reporting the guess
    /// sent an agent to a hostname the panels were never pointed at.
    pub dev_url: Option<String>,
    pub report: Option<ScanReport>,
}

pub open spec fn notes(v: Seq<Report>) -> Seq<Note> {
    v.map_values(|r: Report| r@)
}

/// What panels said, and who is to hear of it.
#[derive(Debug)]
pub struct AppState {
    /// Rolling console buffer per panel, newest last.
    pub console: Vec<(String, Vec<ConsoleLine>)>,
    /// Problems reported from a panel, oldest first, waiting to be collected.
    pub reports: Vec<Report>,
    /// The agent session notes are currently addressed to.
    ///
    /// Exactly one, and the last session to claim wins. Several sessions run at
    /// once, and addressing a note keeps the one that asks first from
    /// swallowing those meant for another, without asking a person to choose a
    /// destination every time they write one.
    pub owner: Option<ClientSession>,
    /// How many sessions are currently watching for notes. Drives the steady
    /// "a session is listening" state in the toolbar, which is different from
    /// the dot that pulses while a single request is in flight.
    pub watchers: usize,
}

/// An [`AppState`], with its texts as characters.
#[verifier::ext_equal]
pub struct Heard {
    pub console: Seq<(Seq<char>, Seq<Line>)>,
    pub reports: Seq<Note>,
    pub owner: Option<Claimant>,
    pub watchers: usize,
}

impl View for AppState {
    type V = Heard;

    open spec fn view(&self) -> Heard {
        Heard {
            console: consoles(self.console@),
            reports: notes(self.reports@),
            owner: match self.owner {
                Some(o) => Some(o@),
                None => None,
            },
            watchers: self.watchers,
        }
    }
}

impl Default for AppState {
    fn default() -> (r: Self)
        ensures
            r@ == (Heard {
                console: Seq::empty(),
                reports: Seq::empty(),
                owner: None,
                watchers: 0,
            }),
    {
        let r = AppState { console: Vec::new(), reports: Vec::new(), owner: None, watchers: 0 };
        assert(r@.console =~= Seq::empty());
        assert(r@.reports =~= Seq::empty());
        r
    }
}

/// A note that a session may collect: one addressed to it, or to nobody.
pub open spec fn is_for(n: Note, client: Seq<char>) -> bool {
    match n.client {
        Some(owner) => owner == client,
        None => true,
    }
}

/// The notes that are for a session, or those that are not, oldest first.
pub open spec fn sifted(s: Seq<Note>, client: Seq<char>, mine: bool) -> Seq<Note>
    decreases s.len(),
{
    if s.len() == 0 {
        s
    } else {
        let d = sifted(s.drop_last(), client, mine);
        if is_for(s.last(), client) == mine {
            d.push(s.last())
        } else {
            d
        }
    }
}

proof fn lemma_buffer_from(c: Seq<(Seq<char>, Seq<Line>)>, panel: Seq<char>, i: int)
    requires
        0 <= i,
    ensures
        match buffer_from(c, panel, i) {
            Some(k) => i <= k < c.len() && c[k].0 == panel && forall|j: int|
                i <= j < k ==> (#[trigger] c[j]).0 != panel,
            None => forall|j: int| i <= j < c.len() ==> (#[trigger] c[j]).0 != panel,
        },
    decreases c.len() - i,
{
    if i < c.len() && c[i].0 != panel {
        lemma_buffer_from(c, panel, i + 1);
    }
}

proof fn lemma_buffer_is(c: Seq<(Seq<char>, Seq<Line>)>, panel: Seq<char>, i: int, k: int)
    requires
        0 <= i <= k < c.len(),
        c[k].0 == panel,
        forall|j: int| i <= j < k ==> (#[trigger] c[j]).0 != panel,
    ensures
        buffer_from(c, panel, i) == Some(k),
    decreases k - i,
{
    if i < k {
        lemma_buffer_is(c, panel, i + 1, k);
    }
}

proof fn lemma_buffer_none(c: Seq<(Seq<char>, Seq<Line>)>, panel: Seq<char>, i: int)
    requires
        0 <= i,
        forall|j: int| i <= j < c.len() ==> (#[trigger] c[j]).0 != panel,
    ensures
        buffer_from(c, panel, i) is None,
    decreases c.len() - i,
{
    if i < c.len() {
        lemma_buffer_none(c, panel, i + 1);
    }
}

/// Changing one panel's buffer, which exists, changes no other's.
proof fn lemma_buffer_update(
    c: Seq<(Seq<char>, Seq<Line>)>,
    k: int,
    lines: Seq<Line>,
    other: Seq<char>,
)
    requires
        0 <= k < c.len(),
        other != c[k].0,
    ensures
        lines_of(c.update(k, (c[k].0, lines)), other) == lines_of(c, other),
{
    let d = c.update(k, (c[k].0, lines));
    lemma_buffer_from(c, other, 0);
    match buffer_from(c, other, 0) {
        Some(m) => {
            assert forall|j: int| 0 <= j < m implies (#[trigger] d[j]).0 != other by {
                assert(c[j].0 != other);
            }
            lemma_buffer_is(d, other, 0, m);
        },
        None => {
            assert forall|j: int| 0 <= j < d.len() implies (#[trigger] d[j]).0 != other by {
                assert(c[j].0 != other);
            }
            lemma_buffer_none(d, other, 0);
        },
    }
}

proof fn lemma_buffer_push(
    c: Seq<(Seq<char>, Seq<Line>)>,
    e: (Seq<char>, Seq<Line>),
    panel: Seq<char>,
)
    ensures
        buffer_from(c, panel, 0) is Some ==> lines_of(c.push(e), panel) == lines_of(c, panel),
        buffer_from(c, panel, 0) is None ==> lines_of(c.push(e), panel) == if panel == e.0 {
            e.1
        } else {
            Seq::<Line>::empty()
        },
{
    let d = c.push(e);
    lemma_buffer_from(c, panel, 0);
    match buffer_from(c, panel, 0) {
        Some(m) => {
            assert forall|j: int| 0 <= j < m implies (#[trigger] d[j]).0 != panel by {
                assert(c[j].0 != panel);
            }
            lemma_buffer_is(d, panel, 0, m);
        },
        None => {
            assert forall|j: int| 0 <= j < c.len() implies (#[trigger] d[j]).0 != panel by {
                assert(c[j].0 != panel);
            }
            if panel == e.0 {
                lemma_buffer_is(d, panel, 0, c.len() as int);
            } else {
                lemma_buffer_none(d, panel, 0);
            }
        },
    }
}

impl AppState {
    fn find_buffer(&self, panel: &str) -> (r: Option<usize>)
        ensures
            match r {
                Some(i) => buffer_from(self@.console, panel@, 0) == Some(i as int) && i
                    < self.console@.len(),
                None => buffer_from(self@.console, panel@, 0) is None,
            },
    {
        let ghost c = self@.console;
        let mut i: usize = 0;
        while i < self.console.len()
            invariant
                i <= self.console@.len(),
                c == consoles(self.console@),
                buffer_from(c, panel@, 0) == buffer_from(c, panel@, i as int),
            decreases self.console@.len() - i,
        {
            assert(c[i as int].0 == self.console@[i as int].0@);
            if same(self.console[i].0.as_str(), panel) {
                return Some(i);
            }
            i += 1;
        }
        None
    }

    /// What a panel has logged, oldest first.
    pub fn console_lines(&self, panel: &str) -> (r: Option<&Vec<ConsoleLine>>)
        ensures
            match r {
                Some(lines) => line_views(lines@) == lines_of(self@.console, panel@),
                None => lines_of(self@.console, panel@).len() == 0,
            },
    {
        match self.find_buffer(panel) {
            Some(i) => Some(&self.console[i].1),
            None => None,
        }
    }

    pub fn push_console(&mut self, panel: &str, line: ConsoleLine)
        ensures
            lines_of(final(self)@.console, panel@) == newest(
                lines_of(old(self)@.console, panel@).push(line@),
            ),
            forall|other: Seq<char>|
                other != panel@ ==> #[trigger] lines_of(final(self)@.console, other) == lines_of(
                    old(self)@.console,
                    other,
                ),
            final(self)@ == (Heard { console: final(self)@.console, ..old(self)@ }),
    {
        let ghost before = self@.console;
        match self.find_buffer(panel) {
            Some(i) => {
                let (key, mut lines) = self.console.remove(i);
                let ghost old_lines = lines@;
                lines.push(line);
                assert(line_views(lines@) =~= line_views(old_lines).push(line@));
                let ghost pushed = lines@;
                drop_oldest(&mut lines);
                assert(line_views(lines@) =~= newest(line_views(pushed)));
                let ghost kept = line_views(lines@);
                self.console.insert(i, (key, lines));
                proof {
                    lemma_buffer_from(before, panel@, 0);
                    let after = consoles(self.console@);
                    assert(before[i as int] == (key@, line_views(old_lines)));
                    assert(after =~= before.update(i as int, (before[i as int].0, kept)));
                    lemma_buffer_is(after, panel@, 0, i as int);
                    assert forall|other: Seq<char>| other != panel@ implies #[trigger] lines_of(
                        after,
                        other,
                    ) == lines_of(before, other) by {
                        lemma_buffer_update(before, i as int, kept, other);
                    }
                }
            },
            None => {
                let mut lines: Vec<ConsoleLine> = Vec::new();
                lines.push(line);
                assert(line_views(lines@) =~= Seq::<Line>::empty().push(line@));
                let ghost kept = line_views(lines@);
                self.console.push((panel.to_owned(), lines));
                proof {
                    let after = consoles(self.console@);
                    assert(after =~= before.push((panel@, kept)));
                    lemma_buffer_push(before, (panel@, kept), panel@);
                    assert forall|other: Seq<char>| other != panel@ implies #[trigger] lines_of(
                        after,
                        other,
                    ) == lines_of(before, other) by {
                        lemma_buffer_push(before, (panel@, kept), other);
                    }
                }
            },
        }
    }

    pub fn clear_console(&mut self, panel: &str)
        ensures
            lines_of(final(self)@.console, panel@).len() == 0,
            forall|other: Seq<char>|
                other != panel@ ==> #[trigger] lines_of(final(self)@.console, other) == lines_of(
                    old(self)@.console,
                    other,
                ),
            final(self)@ == (Heard { console: final(self)@.console, ..old(self)@ }),
    {
        let ghost start = self@;
        let mut kept: Vec<(String, Vec<ConsoleLine>)> = Vec::new();
        let mut rest: Vec<(String, Vec<ConsoleLine>)> = Vec::new();
        rest.append(&mut self.console);
        let ghost all = start.console;
        let ghost mut done: int = 0;
        assert(consoles(rest@) =~= all.skip(0));
        proof {
            assert(all.take(0) =~= Seq::empty());
            assert(consoles(kept@) =~= Seq::empty());
        }
        while rest.len() > 0
            invariant
                0 <= done <= all.len(),
                all == start.console,
                consoles(rest@) == all.skip(done),
                rest@.len() == all.len() - done,
                lines_of(consoles(kept@), panel@).len() == 0,
                buffer_from(consoles(kept@), panel@, 0) is None,
                forall|other: Seq<char>|
                    other != panel@ ==> #[trigger] lines_of(consoles(kept@), other) == lines_of(
                        all.take(done),
                        other,
                    ) && (buffer_from(consoles(kept@), other, 0) is None) == (buffer_from(
                        all.take(done),
                        other,
                        0,
                    ) is None),
                self.console@.len() == 0,
                notes(self.reports@) == start.reports,
                self@.owner == start.owner,
                self.watchers == start.watchers,
            decreases rest@.len(),
        {
            let ghost queue = rest@;
            let e = rest.remove(0);
            let ghost ev = (e.0@, line_views(e.1@));
            let ghost before = consoles(kept@);
            proof {
                assert(consoles(queue)[0] == ev);
                assert(all.skip(done)[0] == all[done]);
                assert forall|i: int| 0 <= i < rest@.len() implies consoles(rest@)[i] == all.skip(
                    done + 1,
                )[i] by {
                    assert(rest@[i] == queue[i + 1]);
                    assert(consoles(queue)[i + 1] == all.skip(done)[i + 1]);
                }
                assert(consoles(rest@) =~= all.skip(done + 1));
                assert(all.take(done + 1) =~= all.take(done).push(ev));
            }
            if !same(e.0.as_str(), panel) {
                kept.push(e);
                proof {
                    let after = consoles(kept@);
                    assert(after =~= before.push(ev));
                    lemma_buffer_push(before, ev, panel@);
                    lemma_buffer_from(after, panel@, 0);
                    lemma_buffer_from(before, panel@, 0);
                    if buffer_from(after, panel@, 0) is Some {
                        let m = buffer_from(after, panel@, 0)->Some_0;
                        if m < before.len() {
                            assert(before[m] == after[m]);
                        }
                        assert(false);
                    }
                    assert forall|other: Seq<char>| other != panel@ implies #[trigger] lines_of(
                        after,
                        other,
                    ) == lines_of(all.take(done + 1), other) && (buffer_from(after, other, 0)
                        is None) == (buffer_from(all.take(done + 1), other, 0) is None) by {
                        assert(lines_of(before, other) == lines_of(all.take(done), other));
                        lemma_buffer_push(before, ev, other);
                        lemma_buffer_push(all.take(done), ev, other);
                        lemma_still_there(before, ev, other);
                        lemma_still_there(all.take(done), ev, other);
                    }
                }
            } else {
                proof {
                    assert forall|other: Seq<char>| other != panel@ implies #[trigger] lines_of(
                        before,
                        other,
                    ) == lines_of(all.take(done + 1), other) && (buffer_from(before, other, 0)
                        is None) == (buffer_from(all.take(done + 1), other, 0) is None) by {
                        assert(lines_of(before, other) == lines_of(all.take(done), other));
                        lemma_buffer_push(all.take(done), ev, other);
                        lemma_still_there(all.take(done), ev, other);
                    }
                }
            }
            proof {
                done = done + 1;
            }
        }
        assert(all.take(all.len() as int) =~= all);
        self.console = kept;
    }
}

proof fn lemma_still_there(
    c: Seq<(Seq<char>, Seq<Line>)>,
    e: (Seq<char>, Seq<Line>),
    panel: Seq<char>,
)
    ensures
        (buffer_from(c.push(e), panel, 0) is Some) == (buffer_from(c, panel, 0) is Some
            || panel == e.0),
{
    let d = c.push(e);
    lemma_buffer_from(c, panel, 0);
    lemma_buffer_from(d, panel, 0);
    match buffer_from(c, panel, 0) {
        Some(m) => {
            assert(d[m] == c[m]);
        },
        None => {
            if panel == e.0 {
                assert(d[c.len() as int].0 == panel);
            }
            match buffer_from(d, panel, 0) {
                Some(m) => {
                    if m < c.len() {
                        assert(d[m] == c[m]);
                    }
                },
                None => {},
            }
        },
    }
}

impl AppState {
    /// Queue a note. The newest are kept: nobody is going to read the two
    /// hundredth unclaimed one, and the queue outlives every panel in it.
    pub fn push_report(&mut self, report: Report)
        ensures
            final(self)@ == (Heard {
                reports: newest(old(self)@.reports.push(report@)),
                ..old(self)@
            }),
    {
        let ghost start = self@;
        self.reports.push(report);
        let ghost pushed = self.reports@;
        assert(notes(pushed) =~= start.reports.push(report@));
        drop_oldest(&mut self.reports);
        assert(notes(self.reports@) =~= newest(notes(pushed)));
    }

    /// Put notes back at the front of the queue, oldest first.
    ///
    /// Delivery takes a note out of the queue, so a send that fails half way
    /// through would destroy the rest. A note nobody received is not a note
    /// that was handled.
    pub fn requeue_reports(&mut self, returned: Vec<Report>)
        ensures
            final(self)@ == (Heard {
                reports: notes(returned@) + old(self)@.reports,
                ..old(self)@
            }),
    {
        let ghost start = self@;
        let mut queue = returned;
        queue.append(&mut self.reports);
        assert(notes(queue@) =~= notes(returned@) + start.reports);
        self.reports = queue;
    }

    /// Hand over everything and start again. Taking rather than reading is the
    /// default so the same note is not acted on twice.
    ///
    /// This is the chrome's copy button and the escape hatch: it collects every
    /// note whoever it was addressed to, which is what makes a note written
    /// while a dead session owned reports still reachable.
    pub fn take_reports(&mut self) -> (r: Vec<Report>)
        ensures
            notes(r@) == old(self)@.reports,
            final(self)@ == (Heard { reports: Seq::empty(), ..old(self)@ }),
    {
        let mut taken: Vec<Report> = Vec::new();
        taken.append(&mut self.reports);
        assert(notes(taken@) =~= old(self)@.reports);
        assert(notes(self.reports@) =~= Seq::empty());
        taken
    }

    /// Hand over the notes addressed to one session, plus any addressed to
    /// nobody, and leave other sessions' notes alone.
    ///
    /// This is what an agent calls. Several sessions poll at once, so a drain
    /// that ignored the address would mean the fastest poller swallowed notes
    /// meant for a different window.
    ///
    /// An unaddressed note belongs to whoever asks first, and that is what
    /// stops a note being stranded. The claim lives in memory, so a rebuild,
    /// a reload or a crash loses it, and every note written after that is
    /// addressed to nobody.
    pub fn take_reports_for(&mut self, client: &str) -> (r: Vec<Report>)
        ensures
            notes(r@) == sifted(old(self)@.reports, client@, true),
            final(self)@ == (Heard {
                reports: sifted(old(self)@.reports, client@, false),
                ..old(self)@
            }),
    {
        let ghost start = self@;
        let ghost all = start.reports;
        let mut rest: Vec<Report> = Vec::new();
        rest.append(&mut self.reports);
        let mut mine: Vec<Report> = Vec::new();
        let mut theirs: Vec<Report> = Vec::new();
        let ghost mut done: int = 0;
        proof {
            assert(notes(rest@) =~= all.skip(0));
            assert(all.take(0) =~= Seq::empty());
            assert(notes(mine@) =~= Seq::empty());
            assert(notes(theirs@) =~= Seq::empty());
        }
        while rest.len() > 0
            invariant
                0 <= done <= all.len(),
                all == start.reports,
                notes(rest@) == all.skip(done),
                rest@.len() == all.len() - done,
                notes(mine@) == sifted(all.take(done), client@, true),
                notes(theirs@) == sifted(all.take(done), client@, false),
                consoles(self.console@) == start.console,
                self@.owner == start.owner,
                self.watchers == start.watchers,
            decreases rest@.len(),
        {
            let ghost queue = rest@;
            let report = rest.remove(0);
            let ghost m = notes(mine@);
            let ghost t = notes(theirs@);
            proof {
                assert(notes(queue)[0] == report@);
                assert(all.skip(done)[0] == all[done]);
                assert forall|i: int| 0 <= i < rest@.len() implies notes(rest@)[i] == all.skip(
                    done + 1,
                )[i] by {
                    assert(rest@[i] == queue[i + 1]);
                    assert(notes(queue)[i + 1] == all.skip(done)[i + 1]);
                }
                assert(notes(rest@) =~= all.skip(done + 1));
                assert(all.take(done + 1).drop_last() =~= all.take(done));
                assert(all.take(done + 1).last() == report@);
            }
            let ours = match &report.client {
                Some(owner) => same(owner.as_str(), client),
                None => true,
            };
            if ours {
                mine.push(report);
                assert(notes(mine@) =~= m.push(report@));
            } else {
                theirs.push(report);
                assert(notes(theirs@) =~= t.push(report@));
            }
            proof {
                done = done + 1;
            }
        }
        assert(all.take(all.len() as int) =~= all);
        self.reports = theirs;
        mine
    }

    /// How many notes are waiting, whoever they are addressed to. The toolbar
    /// count comes from here rather than from the chrome counting events, so
    /// a note collected over the bridge is reflected in the window.
    pub fn report_count(&self) -> (r: usize)
        ensures
            r == self@.reports.len(),
    {
        self.reports.len()
    }

    /// Whether anything is listening for a note right now.
    pub fn watching(&self) -> (r: bool)
        ensures
            r == (self@.watchers > 0),
    {
        self.watchers > 0
    }

    pub fn watcher_joined(&mut self)
        requires
            old(self)@.watchers < usize::MAX,
        ensures
            final(self)@ == (Heard {
                watchers: (old(self)@.watchers + 1) as usize,
                ..old(self)@
            }),
    {
        self.watchers = self.watchers + 1;
    }

    pub fn watcher_left(&mut self)
        ensures
            final(self)@ == (Heard {
                watchers: if old(self)@.watchers == 0 {
                    0
                } else {
                    (old(self)@.watchers - 1) as usize
                },
                ..old(self)@
            }),
    {
        if self.watchers > 0 {
            self.watchers = self.watchers - 1;
        }
    }

    /// Claim reports for a session. The last one to ask wins, deliberately:
    /// running the command in a window is how you say "send them here now".
    pub fn claim_reports(&mut self, session: ClientSession) -> (r: ClientSession)
        ensures
            r@ == session@,
            final(self)@ == (Heard { owner: Some(session@), ..old(self)@ }),
    {
        let kept = session.clone();
        self.owner = Some(kept);
        session
    }

    /// Which session notes are going to, if any.
    pub fn report_owner(&self) -> (r: Option<ClientSession>)
        ensures
            self@.owner == match r {
                Some(o) => Some(o@),
                None => None,
            },
    {
        match &self.owner {
            Some(o) => Some(o.clone()),
            None => None,
        }
    }

    /// Take back what the last run left waiting.
    ///
    /// The queue comes back and the claim deliberately does not. A claim names
    /// a session that may well have ended while the app was down, and restoring
    /// it would address every new note to a session nobody is watching. Nobody
    /// owning reports is the honest state, and it is also the collectable one,
    /// because an unaddressed note goes to whoever asks.
    pub fn restore_reports(&mut self, saved: Vec<Report>)
        ensures
            final(self)@ == (Heard { reports: notes(saved@), ..old(self)@ }),
    {
        self.reports = saved;
    }
}

proof fn lemma_sifted(s: Seq<Note>, client: Seq<char>)
    ensures
        sifted(s, client, true).to_multiset().add(sifted(s, client, false).to_multiset())
            == s.to_multiset(),
    decreases s.len(),
{
    broadcast use vstd::seq_lib::to_multiset_build;

    if s.len() > 0 {
        let d = s.drop_last();
        lemma_sifted(d, client);
        assert(s =~= d.push(s.last()));
        let a = sifted(d, client, true).to_multiset();
        let b = sifted(d, client, false).to_multiset();
        assert(a.insert(s.last()).add(b) =~= a.add(b).insert(s.last()));
        assert(a.add(b.insert(s.last())) =~= a.add(b).insert(s.last()));
    } else {
        s.to_multiset_ensures();
        assert(s.to_multiset().add(s.to_multiset()) =~= s.to_multiset());
    }
}

proof fn lemma_sifted_all(s: Seq<Note>, client: Seq<char>, mine: bool)
    ensures
        forall|i: int|
            0 <= i < sifted(s, client, mine).len() ==> is_for(
                #[trigger] sifted(s, client, mine)[i],
                client,
            ) == mine,
    decreases s.len(),
{
    if s.len() > 0 {
        lemma_sifted_all(s.drop_last(), client, mine);
        let d = sifted(s.drop_last(), client, mine);
        let r = sifted(s, client, mine);
        assert forall|i: int| 0 <= i < r.len() implies is_for(#[trigger] r[i], client) == mine by {
            if i < d.len() {
                assert(r[i] == d[i]);
            }
        }
    }
}

/// Collecting loses no note: what a session gets and what is left behind are
/// what there was, it gets every note that is for it or for nobody, and none
/// that is for another.
pub proof fn collecting_loses_no_note(s: Seq<Note>, client: Seq<char>)
    ensures
        sifted(s, client, true).to_multiset().add(sifted(s, client, false).to_multiset())
            == s.to_multiset(),
        forall|i: int|
            0 <= i < sifted(s, client, true).len() ==> is_for(
                #[trigger] sifted(s, client, true)[i],
                client,
            ),
        forall|i: int|
            0 <= i < sifted(s, client, false).len() ==> !is_for(
                #[trigger] sifted(s, client, false)[i],
                client,
            ),
{
    lemma_sifted(s, client);
    lemma_sifted_all(s, client, true);
    lemma_sifted_all(s, client, false);
}

proof fn lemma_sifted_again(s: Seq<Note>, client: Seq<char>)
    requires
        forall|i: int| 0 <= i < s.len() ==> !is_for(#[trigger] s[i], client),
    ensures
        sifted(s, client, true).len() == 0,
        sifted(s, client, false) == s,
    decreases s.len(),
{
    if s.len() > 0 {
        let d = s.drop_last();
        assert forall|i: int| 0 <= i < d.len() implies !is_for(#[trigger] d[i], client) by {
            assert(d[i] == s[i]);
        }
        lemma_sifted_again(d, client);
        assert(!is_for(s[s.len() - 1], client));
        assert(s =~= d.push(s.last()));
    }
}

/// The same note is not handed over twice: asking again right away gives
/// nothing, and leaves the others' notes where they are.
pub proof fn a_note_is_handed_over_once(s: Seq<Note>, client: Seq<char>)
    ensures
        sifted(sifted(s, client, false), client, true).len() == 0,
        sifted(sifted(s, client, false), client, false) == sifted(s, client, false),
{
    lemma_sifted_all(s, client, false);
    lemma_sifted_again(sifted(s, client, false), client);
}

/// A queue never holds more than is kept, and always holds the newest note.
pub proof fn the_newest_note_is_kept(s: Seq<Note>, n: Note)
    ensures
        newest(s.push(n)).len() <= MOST_KEPT,
        newest(s.push(n)).last() == n,
        s.len() < MOST_KEPT ==> newest(s.push(n)) == s.push(n),
{
}

/// A session is handed the notes that were written for it and those written
/// for nobody, in the order they were written, and the rest stay behind.
pub proof fn a_session_gets_its_own_notes(s: Seq<Note>, client: Seq<char>)
    ensures
        sifted(s, client, true) == s.filter(
            |n: Note| n.client is None || n.client == Some(client),
        ),
        sifted(s, client, false) == s.filter(
            |n: Note| n.client is Some && n.client != Some(client),
        ),
    decreases s.len(),
{
    reveal(Seq::filter);
    if s.len() > 0 {
        a_session_gets_its_own_notes(s.drop_last(), client);
    }
}

/// Only the oldest go, and only past two hundred.
pub proof fn the_last_two_hundred_are_kept<T>(s: Seq<T>)
    ensures
        s.len() <= 200 ==> newest(s) == s,
        s.len() > 200 ==> newest(s).len() == 200 && forall|i: int|
            0 <= i < 200 ==> #[trigger] newest(s)[i] == s[s.len() - 200 + i],
{
}

/// A panel's console is the buffer kept under its id, and empty where there is
/// none.
pub proof fn a_console_is_its_panels_own(
    c: Seq<(Seq<char>, Seq<Line>)>,
    panel: Seq<char>,
    i: int,
)
    ensures
        0 <= i < c.len() && c[i].0 == panel && (forall|j: int|
            0 <= j < i ==> (#[trigger] c[j]).0 != panel) ==> lines_of(c, panel) == c[i].1,
        (forall|j: int| 0 <= j < c.len() ==> (#[trigger] c[j]).0 != panel) ==> lines_of(
            c,
            panel,
        ).len() == 0,
{
    if 0 <= i < c.len() && c[i].0 == panel && (forall|j: int|
        0 <= j < i ==> (#[trigger] c[j]).0 != panel) {
        lemma_buffer_at(c, panel, 0, i);
    }
    if forall|j: int| 0 <= j < c.len() ==> (#[trigger] c[j]).0 != panel {
        lemma_no_buffer(c, panel, 0);
    }
}

proof fn lemma_buffer_at(c: Seq<(Seq<char>, Seq<Line>)>, panel: Seq<char>, from: int, i: int)
    requires
        0 <= from <= i < c.len(),
        c[i].0 == panel,
        forall|j: int| from <= j < i ==> (#[trigger] c[j]).0 != panel,
    ensures
        buffer_from(c, panel, from) == Some(i),
    decreases i - from,
{
    if from < i {
        lemma_buffer_at(c, panel, from + 1, i);
    }
}

proof fn lemma_no_buffer(c: Seq<(Seq<char>, Seq<Line>)>, panel: Seq<char>, from: int)
    requires
        0 <= from <= c.len(),
        forall|j: int| 0 <= j < c.len() ==> (#[trigger] c[j]).0 != panel,
    ensures
        buffer_from(c, panel, from) is None,
    decreases c.len() - from,
{
    if from < c.len() {
        lemma_no_buffer(c, panel, from + 1);
    }
}

/// A note says which width it is about, and a page that has another idea of its
/// width by more than a pixel is remarked on.
pub proof fn a_note_says_its_width(n: Note, px: nat)
    ensures
        pixels_text((px * 1_000_000) as int) == decimal(px),
        n.width - n.inner_width <= 1_000_000 && n.inner_width - n.width <= 1_000_000
            ==> width_remark(n).len() == 0,
        n.width - n.inner_width > 1_000_000 || n.inner_width - n.width > 1_000_000
            ==> width_remark(n) == " (the page reports "@ + pixels_text(n.inner_width as int)
            + "px, which is itself wrong)"@,
{
    reveal_strlit("");
    assert(round_div((px * 1_000_000) as int, 1_000_000) == px);
}

/// A note as prose begins with the standing instruction, and carries what was
/// written, the width and panel it is about, and the element, selector and page.
pub proof fn a_note_carries_what_it_was_given(n: Note)
    ensures
        ({
            let lead = trimmed(n.prompt);
            let tail = "\n\nThis problem exists at the "@ + pixels_text(n.width as int)
                + "px breakpoint"@ + width_remark(n) + ", in the "@ + n.panel_name
                + " panel.\nElement: "@ + n.element + "\nSelector: "@ + n.selector + "\nPage: "@
                + n.url;
            &&& lead.len() == 0 ==> prose(n) == n.note + tail
            &&& lead.len() > 0 ==> prose(n) == lead + "\n\n---\n\n"@ + n.note + tail
        }),
{
    reveal_strlit("");
    let lead = trimmed(n.prompt);
    let tail = "\n\nThis problem exists at the "@ + pixels_text(n.width as int) + "px breakpoint"@
        + width_remark(n) + ", in the "@ + n.panel_name + " panel.\nElement: "@ + n.element
        + "\nSelector: "@ + n.selector + "\nPage: "@ + n.url;
    if lead.len() == 0 {
        assert(prose(n) =~= n.note + tail);
    } else {
        assert(prose(n) =~= lead + "\n\n---\n\n"@ + n.note + tail);
    }
}

} // verus!
