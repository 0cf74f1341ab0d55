//! What the chrome's buttons and settings do.
//!
//! Everything that an agent can reach too is in `tools`; this is the rest.

use vstd::prelude::*;
use vstd::string::StringExecFns;
use crate::browser::{browser_named, Browser};
use crate::canvas::follow::Following;
use crate::canvas::names::meant;
use crate::canvas::row::{
    panel_of, viewports_of, Canvas, CanvasNow, PanelNow, UNKNOWN_SCROLL,
};
use crate::model::{
    viewports, AppConfig, FitMode, HeightStrategy, Profile, ProfileKept, RecordKept, VerticalAlign,
    Viewport, WindowGeometry, DEFAULT_REPORT_PROMPT,
};
use crate::project::{keep_profile, keep_record, profiles, record_at, record_of, records};
use crate::project_file::MARKDOWN_NAME;
use crate::scanner::types::PX;
use crate::scanner::walk::{join_path, joined_path};
use crate::skills::{asking_for, invocation};
use crate::state::{lines_of, AppState, Heard, ProjectContext};
use crate::table::{find_in, keyed, lookup, put, remove_from, without};
use crate::terminal::{terminal_named, Terminal};
use crate::text::{decimal, number_string, opt_view, same, trim_str, trimmed};
use crate::util::{is_hex, random_token};

verus! {

/// The standing instruction sent with every note, with the default where none
/// was written, so the settings always have real text in them rather than a
/// placeholder.
pub fn report_prompt(config: &AppConfig) -> (r: String)
    ensures
        r@ == match opt_view(config.report_prompt) {
            Some(p) => p,
            None => DEFAULT_REPORT_PROMPT@,
        },
{
    match &config.report_prompt {
        Some(p) => p.as_str().to_owned(),
        None => DEFAULT_REPORT_PROMPT.to_owned(),
    }
}

/// The command the session button runs: the one that was set, or `usual` when
/// nobody has said otherwise.
pub fn agent_command(config: &AppConfig, usual: &str) -> (r: String)
    ensures
        r@ == match opt_view(config.agent_command) {
            Some(c) => c,
            None => usual@,
        },
{
    match &config.agent_command {
        Some(c) => c.as_str().to_owned(),
        None => usual.to_owned(),
    }
}

/// What is said when there is no project to remember a folder for.
pub const PROJECT_FIRST: &'static str =
    "open a project first: the folder is remembered per project";

/// Write where this project's screenshots go against it. Per project on
/// purpose: a screenshot is evidence about one site. `None` puts them back in
/// the Downloads folder.
pub fn set_project_shot_dir(
    config: &mut AppConfig,
    project: &Option<ProjectContext>,
    dir: Option<String>,
) -> (r: Result<(), String>)
    ensures
        match *project {
            None => (r matches Err(e) && e@ == PROJECT_FIRST@) && *final(config) == *old(config),
            Some(p) => {
                &&& r is Ok
                &&& *final(config) == (AppConfig {
                    projects: final(config).projects,
                    ..*old(config)
                })
                &&& records(final(config).projects@) == put(
                    records(old(config).projects@),
                    p.root@,
                    (RecordKept {
                        shot_dir: opt_view(dir),
                        ..record_of(records(old(config).projects@), p.root@)
                    }),
                    true,
                )
            },
        },
{
    match project {
        None => Err(PROJECT_FIRST.to_owned()),
        Some(p) => {
            let mut record = record_at(&config.projects, p.root.as_str());
            record.shot_dir = dir;
            keep_record(&mut config.projects, p.root.as_str().to_owned(), record);
            Ok(())
        },
    }
}

pub const NOWHERE_TO_GO: &'static str = "url is empty, and there is nowhere to go";

/// Note down an address that was typed, unless there is nothing in it.
pub fn navigate(config: &mut AppConfig, url: &str) -> (r: Result<(), String>)
    ensures
        if trimmed(url@).len() == 0 {
            (r matches Err(e) && e@ == NOWHERE_TO_GO@) && *final(config) == *old(config)
        } else {
            &&& r is Ok
            &&& opt_view(final(config).last_url) == Some(url@)
            &&& *final(config) == (AppConfig { last_url: final(config).last_url, ..*old(config) })
        },
{
    if trim_str(url).as_str().is_empty() {
        return Err(NOWHERE_TO_GO.to_owned());
    }
    config.last_url = Some(url.to_owned());
    Ok(())
}

/// How far the whole row is zoomed out, from nothing to all the way.
pub open spec fn zoom_kept(zoom: i64) -> i64 {
    if zoom < 0 {
        0
    } else if zoom > 1_000_000 {
        1_000_000
    } else {
        zoom
    }
}

/// The counterpart to Fit rather than a replacement for it: this answers "show
/// me more of the row at once". Zero is actual size.
pub fn set_row_zoom(config: &mut AppConfig, zoom: i64)
    ensures
        *final(config) == (AppConfig { row_zoom: zoom_kept(zoom), ..*old(config) }),
{
    config.row_zoom = if zoom < 0 {
        0
    } else if zoom > PX {
        PX
    } else {
        zoom
    };
}

/// Whether the panels scroll together. They drift apart while they do not, so
/// nothing that is remembered about where they are can be trusted: it is
/// forgotten, and the next scroll brings every one of them back into line.
pub fn set_scroll_sync(canvas: &mut Canvas, config: &mut AppConfig, on: bool)
    ensures
        *final(config) == (AppConfig { scroll_sync: on, ..*old(config) }),
        final(canvas)@ == (CanvasNow {
            sync_on: on,
            panels: if on {
                old(canvas)@.panels.map_values(
                    |p: PanelNow| PanelNow { scroll: UNKNOWN_SCROLL, ..p },
                )
            } else {
                old(canvas)@.panels
            },
            ..old(canvas)@
        }),
{
    canvas.sync_on = on;
    assert(canvas@ == (CanvasNow { sync_on: on, ..old(canvas)@ }));
    if on {
        canvas.forget_scroll_positions();
    }
    config.scroll_sync = on;
}

/// Whether panels are made short enough to see all of.
pub fn set_zoom_to_fit(canvas: &mut Canvas, config: &mut AppConfig, on: bool)
    ensures
        *final(config) == (AppConfig { zoom_to_fit: on, ..*old(config) }),
        final(canvas)@ == (CanvasNow { zoom_to_fit: on, ..old(canvas)@ }),
{
    canvas.zoom_to_fit = on;
    config.zoom_to_fit = on;
}

/// Where the panels sit vertically: top, centred, or stretched to the window.
///
/// One setting rather than three toggles, because the three are alternatives.
/// Stretching is what the row knows as its full height.
pub fn set_vertical_align(canvas: &mut Canvas, config: &mut AppConfig, align: VerticalAlign)
    ensures
        *final(config) == (AppConfig { vertical_align: align, ..*old(config) }),
        final(canvas)@ == (CanvasNow {
            full_height: align == VerticalAlign::Stretch,
            ..old(canvas)@
        }),
{
    canvas.full_height = align.stretches();
    config.vertical_align = align;
}

/// Whether the whole row follows a link that is clicked in one panel. Whatever
/// was being waited for is forgotten.
pub fn set_follow_links(canvas: &mut Canvas, config: &mut AppConfig, on: bool)
    ensures
        *final(config) == (AppConfig { follow_links: on, ..*old(config) }),
        final(canvas)@ == (CanvasNow {
            follow: Following { on, waiting: None, history: Seq::empty() },
            ..old(canvas)@
        }),
{
    canvas.set_follow(on);
    config.follow_links = on;
}

/// The panel to reload, with what its last page logged forgotten.
pub fn reload_panel(canvas: &Canvas, state: &mut AppState, panel: &str) -> (r: Result<
    String,
    String,
>)
    ensures
        match meant(viewports_of(canvas@.panels), panel@) {
            None => (r matches Err(e) && e@ == NO_PANEL@) && final(state)@ == old(state)@,
            Some(i) => {
                let id = canvas@.panels[i].viewport.id;
                &&& r matches Ok(x) && x@ == id
                &&& final(state)@ == (Heard { console: final(state)@.console, ..old(state)@ })
                &&& lines_of(final(state)@.console, id).len() == 0
                &&& forall|other: Seq<char>|
                    other != id ==> #[trigger] lines_of(final(state)@.console, other) == lines_of(
                        old(state)@.console,
                        other,
                    )
            },
        },
{
    match canvas.resolve_id(panel) {
        None => Err(NO_PANEL.to_owned()),
        Some(id) => {
            state.clear_console(id.as_str());
            Ok(id)
        },
    }
}

/// The folder that was chosen for this project's screenshots, if one was.
pub fn chosen_shot_dir(config: &AppConfig, project: &Option<ProjectContext>) -> (r: Option<String>)
    ensures
        opt_view(r) == match *project {
            None => None,
            Some(p) => record_of(records(config.projects@), p.root@).shot_dir,
        },
{
    match project {
        None => None,
        Some(p) => record_at(&config.projects, p.root.as_str()).shot_dir,
    }
}

/// What is said when no project is open.
pub const NO_PROJECT: &'static str = "no project is open";

/// What is said when the project has no file of its own yet.
pub const NOT_WRITTEN: &'static str = "breakpoints.md has not been written yet";

/// The file to open in whatever the person edits Markdown with.
pub fn open_project_file(project: &Option<ProjectContext>, is_written: bool) -> (r: Result<
    String,
    String,
>)
    ensures
        match *project {
            None => r matches Err(e) && e@ == NO_PROJECT@,
            Some(p) => if is_written {
                r matches Ok(path) && path@ == joined_path(p.root@, MARKDOWN_NAME@)
            } else {
                r matches Err(e) && e@ == NOT_WRITTEN@
            },
        },
{
    match project {
        None => Err(NO_PROJECT.to_owned()),
        Some(p) => if is_written {
            Ok(join_path(p.root.as_str(), MARKDOWN_NAME))
        } else {
            Err(NOT_WRITTEN.to_owned())
        },
    }
}

/// Whether pressing Inspect on a panel leaves the mode: it does on the panel
/// that is already being inspected. The panel it is about comes with it.
pub fn inspect_panel(canvas: &Canvas, panel: &str) -> (r: (String, bool))
    ensures
        r.0@ == match meant(viewports_of(canvas@.panels), panel@) {
            Some(i) => canvas@.panels[i].viewport.id,
            None => panel@,
        },
        r.1 == (canvas@.inspecting == Some(r.0@)),
{
    let id = match canvas.resolve_id(panel) {
        Some(id) => id,
        None => panel.to_owned(),
    };
    let leaves = match &canvas.inspecting {
        Some(only) => same(only.as_str(), id.as_str()),
        None => false,
    };
    (id, leaves)
}

pub open spec fn chosen_or_first<T>(chosen: Option<T>, there: Seq<T>) -> Option<T> {
    match chosen {
        Some(c) => if there.contains(c) {
            Some(c)
        } else if there.len() > 0 {
            Some(there[0])
        } else {
            None
        },
        None => if there.len() > 0 {
            Some(there[0])
        } else {
            None
        },
    }
}

/// The browser a panel is opened in: the one that was chosen, while it is still
/// installed, or the first that is.
pub fn active_browser(chosen: &Option<String>, installed: &Vec<Browser>) -> (r: Option<Browser>)
    ensures
        r == chosen_or_first(
            match opt_view(*chosen) {
                Some(id) => browser_named(id),
                None => None,
            },
            installed@,
        ),
{
    let wanted = match chosen {
        Some(id) => Browser::from_id(id.as_str()),
        None => None,
    };
    if let Some(b) = wanted {
        let mut i: usize = 0;
        while i < installed.len()
            invariant
                i <= installed@.len(),
                (match opt_view(*chosen) {
                    Some(id) => browser_named(id),
                    None => None,
                }) == Some(b),
                forall|k: int| 0 <= k < i ==> #[trigger] installed@[k] != b,
            decreases installed@.len() - i,
        {
            if installed[i] == b {
                assert(installed@.contains(b));
                return Some(b);
            }
            i += 1;
        }
    }
    if installed.len() > 0 {
        Some(installed[0])
    } else {
        None
    }
}

/// The terminal a session is started in, chosen the same way.
pub fn active_terminal(chosen: &Option<String>, installed: &Vec<Terminal>) -> (r: Option<Terminal>)
    ensures
        r == chosen_or_first(
            match opt_view(*chosen) {
                Some(id) => terminal_named(id),
                None => None,
            },
            installed@,
        ),
{
    let wanted = match chosen {
        Some(id) => Terminal::from_id(id.as_str()),
        None => None,
    };
    if let Some(t) = wanted {
        let mut i: usize = 0;
        while i < installed.len()
            invariant
                i <= installed@.len(),
                (match opt_view(*chosen) {
                    Some(id) => terminal_named(id),
                    None => None,
                }) == Some(t),
                forall|k: int| 0 <= k < i ==> #[trigger] installed@[k] != t,
            decreases installed@.len() - i,
        {
            if installed[i] == t {
                assert(installed@.contains(t));
                return Some(t);
            }
            i += 1;
        }
    }
    if installed.len() > 0 {
        Some(installed[0])
    } else {
        None
    }
}

pub const NO_PANEL: &'static str = "no such panel";

/// What is opened in a browser for a panel: the row's address, at the panel's
/// declared size. Never the on-screen one: a zoomed panel is drawn smaller but
/// the page inside it is at the breakpoint.
pub fn page_of_panel(canvas: &Canvas, panel: &str) -> (r: Result<(String, i64, i64), String>)
    ensures
        match meant(viewports_of(canvas@.panels), panel@) {
            None => r matches Err(e) && e@ == NO_PANEL@,
            Some(k) => match panel_of(canvas@.panels, canvas@.panels[k].viewport.id) {
                None => r matches Err(e) && e@ == NO_PANEL@,
                Some(i) => r matches Ok(p) && p.0@ == canvas@.url && p.1
                    == canvas@.panels[i].viewport.width && p.2
                    == canvas@.panels[i].viewport.height,
            },
        },
{
    let id = match canvas.resolve_id(panel) {
        Some(id) => id,
        None => {
            return Err(NO_PANEL.to_owned());
        },
    };
    match canvas.find(id.as_str()) {
        None => Err(NO_PANEL.to_owned()),
        Some(i) => {
            assert(canvas@.panels[i as int] == canvas.panels@[i as int]@);
            Ok(
                (
                    canvas.url.as_str().to_owned(),
                    canvas.panels[i].viewport.width,
                    canvas.panels[i].viewport.height,
                ),
            )
        },
    }
}

/// What the notice band says once a session was started, or was not.
pub fn session_notice(started: Result<&str, &str>) -> (r: String)
    ensures
        r@ == match started {
            Ok(name) => "Starting a session in "@ + name@
                + ". It claims your notes when it connects."@,
            Err(why) => why@,
        },
{
    match started {
        Ok(name) => {
            let mut out = "Starting a session in ".to_owned();
            out.append(name);
            out.append(". It claims your notes when it connects.");
            out
        },
        Err(why) => why.to_owned(),
    }
}

pub const NO_SKILL: &'static str = "no skill was chosen";

/// What to say to the sessions to have a skill run.
pub fn skill_to_say(skill: &str, context: Option<&str>) -> (r: Result<String, String>)
    ensures
        if trimmed(skill@).len() == 0 {
            r matches Err(e) && e@ == NO_SKILL@
        } else {
            r matches Ok(s) && s@ == asking_for(
                trimmed(skill@),
                match context {
                    Some(c) => Some(c@),
                    None => None,
                },
            )
        },
{
    let skill = trim_str(skill);
    if skill.as_str().is_empty() {
        return Err(NO_SKILL.to_owned());
    }
    Ok(invocation(skill.as_str(), context))
}

pub const NOBODY_LISTENS: &'static str =
    "nothing is listening, so there is nobody to run it. Start a session first.";

/// Who heard it. Nothing is queued: an instruction nobody was there for should
/// expire rather than arrive an hour later.
pub fn skill_heard(heard: usize, owner: Option<&str>) -> (r: Result<String, String>)
    ensures
        if heard == 0 {
            r matches Err(e) && e@ == NOBODY_LISTENS@
        } else {
            r matches Ok(s) && s@ == match owner {
                Some(o) => o@,
                None => "the session"@,
            }
        },
{
    if heard == 0 {
        return Err(NOBODY_LISTENS.to_owned());
    }
    match owner {
        Some(o) => Ok(o.to_owned()),
        None => Ok("the session".to_owned()),
    }
}

/// What is to be changed of the settings. What is not named stays.
#[derive(Debug)]
pub struct Preferences {
    pub height_strategy: Option<HeightStrategy>,
    pub fixed_height: Option<i64>,
    pub fit_mode: Option<FitMode>,
    pub edge_testing: Option<bool>,
    /// Whether a stylesheet change should re-run the layout checks.
    pub recheck_on_change: Option<bool>,
    /// Browser id for "Open in browser".
    pub browser: Option<String>,
    /// Terminal id for the session button, and the command it runs.
    pub terminal: Option<String>,
    /// An empty string means "back to the default command".
    pub agent_command: Option<String>,
    /// The standing instruction sent with every reported problem. An empty
    /// string means "back to the default".
    pub report_prompt: Option<String>,
}

pub open spec fn or_kept<T>(new: Option<T>, kept: T) -> T {
    match new {
        Some(x) => x,
        None => kept,
    }
}

/// The settings once some of them were changed.
pub open spec fn is_preferred(after: AppConfig, before: AppConfig, p: Preferences) -> bool {
    &&& after == (AppConfig {
        height_strategy: or_kept(p.height_strategy, before.height_strategy),
        fixed_height: or_kept(p.fixed_height, before.fixed_height),
        fit_mode: or_kept(p.fit_mode, before.fit_mode),
        edge_testing: or_kept(p.edge_testing, before.edge_testing),
        recheck_on_change: or_kept(p.recheck_on_change, before.recheck_on_change),
        browser: if p.browser is Some {
            p.browser
        } else {
            before.browser
        },
        terminal: if p.terminal is Some {
            p.terminal
        } else {
            before.terminal
        },
        agent_command: after.agent_command,
        report_prompt: after.report_prompt,
        ..before
    })
    &&& opt_view(after.agent_command) == match opt_view(p.agent_command) {
        Some(c) => if trimmed(c).len() == 0 {
            None
        } else {
            Some(trimmed(c))
        },
        None => opt_view(before.agent_command),
    }
    &&& opt_view(after.report_prompt) == match opt_view(p.report_prompt) {
        Some(t) => if trimmed(t).len() == 0 {
            None
        } else {
            Some(t)
        },
        None => opt_view(before.report_prompt),
    }
}

fn pick<T: Copy>(new: Option<T>, kept: T) -> (r: T)
    ensures
        r == or_kept(new, kept),
{
    match new {
        Some(x) => x,
        None => kept,
    }
}

fn prefer_shapes(config: &mut AppConfig, prefs: &Preferences)
    ensures
        *final(config) == (AppConfig {
            height_strategy: or_kept(prefs.height_strategy, old(config).height_strategy),
            fixed_height: or_kept(prefs.fixed_height, old(config).fixed_height),
            fit_mode: or_kept(prefs.fit_mode, old(config).fit_mode),
            edge_testing: or_kept(prefs.edge_testing, old(config).edge_testing),
            recheck_on_change: or_kept(prefs.recheck_on_change, old(config).recheck_on_change),
            ..*old(config)
        }),
{
    config.height_strategy = pick(prefs.height_strategy, config.height_strategy);
    config.fixed_height = pick(prefs.fixed_height, config.fixed_height);
    config.fit_mode = pick(prefs.fit_mode, config.fit_mode);
    config.edge_testing = pick(prefs.edge_testing, config.edge_testing);
    config.recheck_on_change = pick(prefs.recheck_on_change, config.recheck_on_change);
}

fn prefer_programs(config: &mut AppConfig, browser: Option<String>, terminal: Option<String>)
    ensures
        *final(config) == (AppConfig {
            browser: if browser is Some {
                browser
            } else {
                old(config).browser
            },
            terminal: if terminal is Some {
                terminal
            } else {
                old(config).terminal
            },
            ..*old(config)
        }),
{
    if browser.is_some() {
        config.browser = browser;
    }
    if terminal.is_some() {
        config.terminal = terminal;
    }
}

fn prefer_command(config: &mut AppConfig, command: Option<String>)
    ensures
        *final(config) == (AppConfig { agent_command: final(config).agent_command, ..*old(config) }),
        opt_view(final(config).agent_command) == match opt_view(command) {
            Some(c) => if trimmed(c).len() == 0 {
                None
            } else {
                Some(trimmed(c))
            },
            None => opt_view(old(config).agent_command),
        },
{
    if let Some(value) = command {
        let said = trim_str(value.as_str());
        if said.as_str().is_empty() {
            config.agent_command = None;
        } else {
            config.agent_command = Some(said);
        }
    }
}

fn prefer_prompt(config: &mut AppConfig, prompt: Option<String>)
    ensures
        *final(config) == (AppConfig { report_prompt: final(config).report_prompt, ..*old(config) }),
        opt_view(final(config).report_prompt) == match opt_view(prompt) {
            Some(t) => if trimmed(t).len() == 0 {
                None
            } else {
                Some(t)
            },
            None => opt_view(old(config).report_prompt),
        },
{
    if let Some(value) = prompt {
        if trim_str(value.as_str()).as_str().is_empty() {
            config.report_prompt = None;
        } else {
            config.report_prompt = Some(value);
        }
    }
}

/// Change settings. The row is fitted as they say from then on.
pub fn set_preferences(config: &mut AppConfig, canvas: &mut Canvas, prefs: Preferences)
    ensures
        is_preferred(*final(config), *old(config), prefs),
        final(canvas)@ == (CanvasNow {
            fit_mode: or_kept(prefs.fit_mode, old(canvas)@.fit_mode),
            ..old(canvas)@
        }),
{
    prefer_shapes(config, &prefs);
    if let Some(value) = prefs.fit_mode {
        canvas.fit_mode = value;
    }
    prefer_programs(config, prefs.browser, prefs.terminal);
    prefer_command(config, prefs.agent_command);
    prefer_prompt(config, prefs.report_prompt);
}

/// An id for a profile that is new.
pub fn fresh_profile_id() -> (r: String)
    ensures
        r@.len() == 8,
        r@.take(2) == "p_"@,
        forall|i: int| 2 <= i < 8 ==> is_hex(#[trigger] r@[i]),
{
    let token = random_token(3);
    let mut out = "p_".to_owned();
    proof {
        reveal_strlit("p_");
    }
    out.append(token.as_str());
    proof {
        assert(out@ =~= "p_"@ + token@);
        assert(out@.take(2) =~= "p_"@);
        assert forall|i: int| 2 <= i < 8 implies is_hex(#[trigger] out@[i]) by {
            assert(out@[i] == token@[i - 2]);
        }
    }
    out
}

/// Whether a profile is saved over itself.
pub open spec fn in_place(t: Seq<(Seq<char>, ProfileKept)>, id: Option<Seq<char>>) -> bool {
    match id {
        Some(i) => match lookup(t, i) {
            Some(p) => !p.locked,
            None => false,
        },
        None => false,
    }
}

/// The id a profile is saved under: its own, or `fresh` for a new one. Editing
/// a locked one becomes a new profile rather than an error, which is what the
/// person meant.
pub open spec fn saved_under(
    t: Seq<(Seq<char>, ProfileKept)>,
    id: Option<Seq<char>>,
    fresh: Seq<char>,
) -> Option<Seq<char>> {
    match id {
        None => Some(fresh),
        Some(i) => match lookup(t, i) {
            None => None,
            Some(p) => if p.locked {
                Some(fresh)
            } else {
                Some(i)
            },
        },
    }
}

/// Save a row as a profile.
pub fn save_profile(
    config: &mut AppConfig,
    id: Option<String>,
    name: String,
    row: Vec<Viewport>,
    fresh: String,
) -> (r: Result<String, String>)
    ensures
        match saved_under(profiles(old(config).profiles@), opt_view(id), fresh@) {
            None => (r matches Err(e) && e@ == crate::bridge::NO_PROFILE@) && *final(config)
                == *old(config),
            Some(key) => {
                &&& r matches Ok(x) && x@ == key
                &&& profiles(final(config).profiles@) == put(
                    profiles(old(config).profiles@),
                    key,
                    (ProfileKept { name: name@, locked: false, viewports: viewports(row@) }),
                    true,
                )
                &&& final(config).active_profile@ == if in_place(
                    profiles(old(config).profiles@),
                    opt_view(id),
                ) {
                    old(config).active_profile@
                } else {
                    key
                }
                &&& *final(config) == (AppConfig {
                    profiles: final(config).profiles,
                    active_profile: final(config).active_profile,
                    ..*old(config)
                })
            },
        },
{
    let profile = Profile { name, locked: false, viewports: row };
    match id {
        Some(i) => {
            proof {
                crate::table::lemma_lookup_view(config.profiles@, i@, |p: Profile| p@);
            }
            match find_in(&config.profiles, i.as_str()) {
                None => {
                    return Err(crate::bridge::NO_PROFILE.to_owned());
                },
                Some(k) => {
                    if !config.profiles[k].1.locked {
                        keep_profile(&mut config.profiles, i.as_str().to_owned(), profile);
                        return Ok(i);
                    }
                },
            }
        },
        None => {},
    }
    keep_profile(&mut config.profiles, fresh.as_str().to_owned(), profile);
    config.active_profile = fresh.as_str().to_owned();
    Ok(fresh)
}

pub const LOCKED: &'static str = "the Default profile cannot be deleted";

/// Delete a profile. A locked one cannot be; a row that was at it goes back to
/// the default.
pub fn delete_profile(config: &mut AppConfig, id: &str) -> (r: Result<(), String>)
    ensures
        if lookup(profiles(old(config).profiles@), id@) matches Some(p) && p.locked {
            (r matches Err(e) && e@ == LOCKED@) && *final(config) == *old(config)
        } else {
            &&& r is Ok
            &&& profiles(final(config).profiles@) == without(profiles(old(config).profiles@), id@)
            &&& final(config).active_profile@ == if old(config).active_profile@ == id@ {
                "default"@
            } else {
                old(config).active_profile@
            }
            &&& *final(config) == (AppConfig {
                profiles: final(config).profiles,
                active_profile: final(config).active_profile,
                ..*old(config)
            })
        },
{
    proof {
        crate::table::lemma_lookup_view(config.profiles@, id@, |p: Profile| p@);
    }
    if let Some(i) = find_in(&config.profiles, id) {
        if config.profiles[i].1.locked {
            return Err(LOCKED.to_owned());
        }
    }
    proof {
        crate::table::lemma_without_view(keyed(config.profiles@), id@, |p: Profile| p@);
    }
    remove_from(&mut config.profiles, id);
    if same(config.active_profile.as_str(), id) {
        config.active_profile = "default".to_owned();
    }
    Ok(())
}

/// Note down where the window is. Whether that is news, and the settings are to
/// be written.
pub fn remember_window(config: &mut AppConfig, geometry: WindowGeometry) -> (r: bool)
    ensures
        r == (old(config).window != Some(geometry)),
        *final(config) == (AppConfig { window: Some(geometry), ..*old(config) }),
{
    if let Some(w) = config.window {
        if w == geometry {
            return false;
        }
    }
    config.window = Some(geometry);
    true
}

/// What is said once the layout checks ran again on their own.
pub open spec fn checks_said(high: nat, medium: nat) -> Seq<char> {
    if high == 0 && medium == 0 {
        "Stylesheets changed. The layout checks found nothing."@
    } else {
        "Stylesheets changed. The layout checks found "@ + decimal(high) + " serious and "@
            + decimal(medium) + " worth a look."@
    }
}

pub fn checks_line(high: usize, medium: usize) -> (r: String)
    ensures
        r@ == checks_said(high as nat, medium as nat),
{
    if high == 0 && medium == 0 {
        return "Stylesheets changed. The layout checks found nothing.".to_owned();
    }
    let mut out = "Stylesheets changed. The layout checks found ".to_owned();
    out.append(number_string(high).as_str());
    out.append(" serious and ");
    out.append(number_string(medium).as_str());
    out.append(" worth a look.");
    out
}

/// Saving never touches a locked profile, and deleting never removes one.
pub proof fn a_locked_profile_is_safe(
    t: Seq<(Seq<char>, ProfileKept)>,
    id: Option<Seq<char>>,
    fresh: Seq<char>,
    locked: Seq<char>,
    new: ProfileKept,
    p: ProfileKept,
)
    requires
        lookup(t, locked) == Some(p),
        p.locked,
        lookup(t, fresh) is None,
    ensures
        saved_under(t, id, fresh) matches Some(key) ==> lookup(put(t, key, new, true), locked)
            == Some(p),
        forall|other: Seq<char>|
            other != locked ==> lookup(#[trigger] without(t, other), locked) == Some(p),
{
    if let Some(key) = saved_under(t, id, fresh) {
        crate::table::lookup_gives_what_was_put(t, key, new, true, locked);
    }
    assert forall|other: Seq<char>| other != locked implies lookup(
        #[trigger] without(t, other),
        locked,
    ) == Some(p) by {
        crate::table::what_is_removed_is_gone(t, other, locked);
    }
}

/// A zoom is kept between nothing and whole, and is otherwise as it was given.
pub proof fn a_zoom_stays_between_nothing_and_whole(zoom: i64)
    ensures
        0 <= zoom_kept(zoom) <= 1_000_000,
        0 <= zoom <= 1_000_000 ==> zoom_kept(zoom) == zoom,
        zoom < 0 ==> zoom_kept(zoom) == 0,
        zoom > 1_000_000 ==> zoom_kept(zoom) == 1_000_000,
{
}

/// What was chosen is used while it is there, and the first of what is there
/// otherwise; nothing is used only where there is nothing.
pub proof fn a_choice_that_is_there_is_used<T>(chosen: Option<T>, there: Seq<T>)
    ensures
        chosen is Some && there.contains(chosen->0) ==> chosen_or_first(chosen, there) == chosen,
        there.len() > 0 && (chosen is None || !there.contains(chosen->0)) ==> chosen_or_first(
            chosen,
            there,
        ) == Some(there[0]),
        there.len() == 0 ==> chosen_or_first(chosen, there) is None,
{
}

/// A preference that was given is what holds afterwards, one that was not is as
/// it was, and nothing else of the settings changes. An empty command or
/// instruction goes back to the default.
pub proof fn only_what_was_preferred_changes(after: AppConfig, before: AppConfig, p: Preferences)
    requires
        is_preferred(after, before, p),
    ensures
        p.height_strategy is Some ==> after.height_strategy == p.height_strategy->0,
        p.height_strategy is None ==> after.height_strategy == before.height_strategy,
        p.fixed_height is Some ==> after.fixed_height == p.fixed_height->0,
        p.fixed_height is None ==> after.fixed_height == before.fixed_height,
        p.fit_mode is Some ==> after.fit_mode == p.fit_mode->0,
        p.fit_mode is None ==> after.fit_mode == before.fit_mode,
        p.edge_testing is Some ==> after.edge_testing == p.edge_testing->0,
        p.edge_testing is None ==> after.edge_testing == before.edge_testing,
        p.recheck_on_change is Some ==> after.recheck_on_change == p.recheck_on_change->0,
        p.recheck_on_change is None ==> after.recheck_on_change == before.recheck_on_change,
        p.browser is Some ==> after.browser == p.browser,
        p.browser is None ==> after.browser == before.browser,
        p.terminal is Some ==> after.terminal == p.terminal,
        p.terminal is None ==> after.terminal == before.terminal,
        p.agent_command is None ==> opt_view(after.agent_command) == opt_view(
            before.agent_command,
        ),
        p.agent_command is Some ==> (after.agent_command is None <==> trimmed(
            p.agent_command->0@,
        ).len() == 0),
        p.agent_command is Some && after.agent_command is Some ==> after.agent_command->0@
            == trimmed(p.agent_command->0@),
        p.report_prompt is None ==> opt_view(after.report_prompt) == opt_view(
            before.report_prompt,
        ),
        p.report_prompt is Some ==> (after.report_prompt is None <==> trimmed(
            p.report_prompt->0@,
        ).len() == 0),
        p.report_prompt is Some && after.report_prompt is Some ==> after.report_prompt->0@
            == p.report_prompt->0@,
        after == (AppConfig {
            height_strategy: after.height_strategy,
            fixed_height: after.fixed_height,
            fit_mode: after.fit_mode,
            edge_testing: after.edge_testing,
            recheck_on_change: after.recheck_on_change,
            browser: after.browser,
            terminal: after.terminal,
            agent_command: after.agent_command,
            report_prompt: after.report_prompt,
            ..before
        }),
{
}

/// Saving writes over a profile only where that profile is there and is not
/// locked; a locked one is saved as a new one, and one that is gone not at all.
pub proof fn a_profile_is_written_over_only_unlocked(
    t: Seq<(Seq<char>, ProfileKept)>,
    id: Seq<char>,
    fresh: Seq<char>,
)
    ensures
        saved_under(t, None, fresh) == Some(fresh),
        !in_place(t, None),
        lookup(t, id) is None ==> saved_under(t, Some(id), fresh) is None && !in_place(
            t,
            Some(id),
        ),
        lookup(t, id) is Some && lookup(t, id)->0.locked ==> saved_under(t, Some(id), fresh)
            == Some(fresh) && !in_place(t, Some(id)),
        lookup(t, id) is Some && !lookup(t, id)->0.locked ==> saved_under(t, Some(id), fresh)
            == Some(id) && in_place(t, Some(id)),
{
}

/// A recheck says how many findings were serious and how many worth a look, and
/// says so whenever there is one of either.
pub proof fn a_recheck_says_what_it_found(high: nat, medium: nat)
    ensures
        high + medium > 0 ==> checks_said(high, medium)
            == "Stylesheets changed. The layout checks found "@ + decimal(high) + " serious and "@
            + decimal(medium) + " worth a look."@,
        high + medium == 0 ==> checks_said(high, medium)
            == "Stylesheets changed. The layout checks found nothing."@,
{
}

} // verus!
