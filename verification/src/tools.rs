//! The operations, written once.
//!
//! Both the chrome and the agent bridge call these, so a tool an agent can
//! reach is the same code the toolbar button runs. There is no second
//! implementation to drift.

use vstd::prelude::*;
use vstd::string::StringExecFns;
use crate::canvas::names::meant;
use crate::canvas::row::{
    in_reach, laid_out, panel_infos, panel_of, shown, viewports_of, with_panel, Canvas, CanvasNow,
    PanelInfo, PanelNow, PanelShown,
};
use crate::generate::{advice, recommend, Offer, Recommendation};
use crate::json::{
    content, json_content, json_member, json_string, json_written, member, quote, rewritten,
    Content, Held,
};
use crate::model::{clone_viewports, viewports, AppConfig, Panelled, UrlStatus, Viewport};
use crate::project::{addresses, folder_of, project_for_url};
use crate::project_file::MARKDOWN_NAME;
use crate::scanner::types::{
    founds, servers, BreakpointDiscovery, Found, Kind, ScanReport, ServerFound, PX,
};
use crate::scanner::walk::{join_path, joined_path};
use crate::state::{line_views, lines_of, AppState, ConsoleLine, Heard, ProjectContext};
use crate::text::{
    begins, begins_with, clone_opt, decimal, join, joined, number_string, opt_view, same, texts,
};
use crate::util::{normalize_url, normalized};

verus! {

/// The panels of a row, as the chrome draws them.
pub open spec fn panels_shown(c: CanvasNow, h: Heard) -> Seq<PanelShown> {
    Seq::new(
        c.panels.len(),
        |i: int| shown(c.panels[i], i, lines_of(h.console, c.panels[i].viewport.id)),
    )
}

pub fn list_panels(canvas: &Canvas, state: &AppState) -> (r: Vec<PanelInfo>)
    ensures
        panel_infos(r@) == panels_shown(canvas@, state@),
{
    canvas.info(state).panels
}

/// What is said when there is no panel to speak of.
pub const NOTHING_OPEN: &'static str =
    "no panels are open, so there is nothing to address. Open a project or navigate to a URL first.";

pub open spec fn named_panels(s: Seq<PanelNow>) -> Seq<Seq<char>> {
    s.map_values(|p: PanelNow| p.viewport.name + " ("@ + p.viewport.source + ")"@)
}

/// What is said when no panel is meant by a name. With nothing open, a list
/// that happens to be empty leaves an agent guessing what to do about it.
pub open spec fn no_such_panel(s: Seq<PanelNow>, needle: Seq<char>) -> Seq<char> {
    if s.len() == 0 {
        NOTHING_OPEN@
    } else {
        "no panel matches \""@ + needle + "\". Open panels: "@ + joined(named_panels(s), ", "@)
    }
}

/// The id of the panel that is meant, or what there is to choose from.
pub fn require_panel(canvas: &Canvas, needle: &str) -> (r: Result<String, String>)
    ensures
        match meant(viewports_of(canvas@.panels), needle@) {
            Some(i) => r matches Ok(id) && id@ == canvas@.panels[i].viewport.id,
            None => r matches Err(e) && e@ == no_such_panel(canvas@.panels, needle@),
        },
{
    if let Some(id) = canvas.resolve_id(needle) {
        return Ok(id);
    }
    assert(canvas@.panels.len() == canvas.panels@.len());
    if canvas.panels.len() == 0 {
        return Err(NOTHING_OPEN.to_owned());
    }
    let ghost want = named_panels(canvas@.panels);
    let mut names: Vec<String> = Vec::new();
    let mut i: usize = 0;
    assert(texts(names@) =~= want.take(0));
    while i < canvas.panels.len()
        invariant
            i <= canvas.panels@.len(),
            canvas@.panels.len() == canvas.panels@.len(),
            want == named_panels(canvas@.panels),
            texts(names@) == want.take(i as int),
        decreases canvas.panels@.len() - i,
    {
        let ghost before = texts(names@);
        let v = &canvas.panels[i].viewport;
        assert(canvas@.panels[i as int] == canvas.panels@[i as int]@);
        let mut n = v.name.as_str().to_owned();
        n.append(" (");
        n.append(v.source.as_str());
        n.append(")");
        names.push(n);
        assert(texts(names@) =~= before.push(n@));
        assert(want.take(i + 1) =~= want.take(i as int).push(want[i as int]));
        i += 1;
    }
    assert(want.take(want.len() as int) =~= want);
    let mut e = "no panel matches \"".to_owned();
    e.append(needle);
    e.append("\". Open panels: ");
    e.append(join(&names, ", ").as_str());
    Err(e)
}

pub const WRAP_START: &'static str =
    r#"(function () { try { var value = (function () { "#;

pub const WRAP_END: &'static str =
    r#" })(); if (value && typeof value.then === "function") { return JSON.stringify({ ok: false, error: "eval_js cannot wait for a promise. Assign the result to a window property inside .then(), then read that property with a second eval_js." }); } return JSON.stringify({ ok: true, value: value }); } catch (e) { return JSON.stringify({ ok: false, error: String((e && e.message) || e) }); } })()"#;

pub const CHROME_WRAP_END: &'static str =
    r#" })(); if (value && typeof value.then === "function") { return JSON.stringify({ ok: false, error: "eval_chrome cannot wait for a promise. Assign the result to a window property inside .then(), then read that property with a second call." }); } return JSON.stringify({ ok: true, value: value }); } catch (e) { return JSON.stringify({ ok: false, error: String((e && e.message) || e) }); } })()"#;

/// Wrap a script so an exception comes back as a message rather than vanishing,
/// and so a promise says so instead of serialising to `{}`.
///
/// A promise cannot be waited for: the webview hands back whatever the
/// expression evaluated to. Saying so beats returning an empty object and
/// letting the caller conclude the page had nothing to say.
pub fn wrap_script(script: &str) -> (r: String)
    ensures
        r@ == WRAP_START@ + script@ + WRAP_END@,
{
    let mut out = WRAP_START.to_owned();
    out.append(script);
    out.append(WRAP_END);
    out
}

/// The same, for a script that runs in the app's own chrome.
pub fn wrap_chrome_script(script: &str) -> (r: String)
    ensures
        r@ == WRAP_START@ + script@ + CHROME_WRAP_END@,
{
    let mut out = WRAP_START.to_owned();
    out.append(script);
    out.append(CHROME_WRAP_END);
    out
}

/// What is said when a panel's page did not answer.
pub fn no_answer(id: &str) -> (r: String)
    ensures
        r@ == "panel "@ + id@ + " did not answer within 10 seconds"@,
{
    let mut e = "panel ".to_owned();
    e.append(id);
    e.append(" did not answer within 10 seconds");
    e
}

/// What an opened envelope comes to: `ok`, `error` and `value` as the JSON that
/// stood under those names, with the string the error holds, and the whole.
pub open spec fn envelope_says(
    ok: Option<Seq<char>>,
    error: Held,
    value: Option<Seq<char>>,
    whole: Seq<char>,
) -> Result<Seq<char>, Seq<char>> {
    if ok == Some("false"@) {
        Err(
            match error {
                Held::Text(t) => t,
                _ => "script threw"@,
            },
        )
    } else {
        match value {
            Some(v) => Ok(v),
            None => Ok(whole),
        }
    }
}

pub open spec fn answer_view(r: Result<String, String>) -> Result<Seq<char>, Seq<char>> {
    match r {
        Ok(s) => Ok(s@),
        Err(s) => Err(s@),
    }
}

/// Read an envelope that was taken apart.
pub fn open_envelope(ok: Option<String>, error: Content, value: Option<String>, whole: String) -> (r:
    Result<String, String>)
    ensures
        answer_view(r) == envelope_says(opt_view(ok), error@, opt_view(value), whole@),
{
    if let Some(o) = &ok {
        if same(o.as_str(), "false") {
            return match error {
                Content::Text(t) => Err(t),
                _ => Err("script threw".to_owned()),
            };
        }
    }
    match value {
        Some(v) => Ok(v),
        None => Ok(whole),
    }
}

/// The error that stands in an envelope, if it is a string.
pub open spec fn error_in(text: Seq<char>) -> Held {
    match json_member(text, "error"@) {
        Some(e) => json_content(e),
        None => Held::NotJson,
    }
}

/// What the JSON text `text` comes to, when it is an envelope or anything else.
pub open spec fn read_envelope(text: Seq<char>) -> Result<Seq<char>, Seq<char>> {
    envelope_says(
        json_member(text, "ok"@),
        error_in(text),
        json_member(text, "value"@),
        match json_written(text) {
            Some(w) => w,
            None => text,
        },
    )
}

/// What the webview handed back, unpacked.
pub open spec fn unwrapped(raw: Seq<char>) -> Result<Seq<char>, Seq<char>> {
    match json_content(raw) {
        Held::NotJson => Ok(json_string(raw)),
        Held::Text(t) => if json_content(t) is NotJson {
            Ok(json_string(t))
        } else {
            read_envelope(t)
        },
        Held::Other => read_envelope(raw),
    }
}

fn take_apart(text: &str) -> (r: Result<String, String>)
    ensures
        answer_view(r) == read_envelope(text@),
{
    let ok = member(text, "ok");
    let error = match member(text, "error") {
        Some(e) => content(e.as_str()),
        None => Content::NotJson,
    };
    let value = member(text, "value");
    let whole = match rewritten(text) {
        Some(w) => w,
        None => text.to_owned(),
    };
    open_envelope(ok, error, value, whole)
}

/// Unpack what the webview handed back. The value is given as JSON.
///
/// The webview serialises the result and the injected wrapper already produced
/// JSON, so the string arrives encoded twice. Getting this wrong turns every
/// value into a quoted string, which is the kind of thing that looks fine until
/// a caller tries to read a number out of it. What is not JSON at all is handed
/// back as the string it is rather than lost.
pub fn unwrap_envelope(raw: &str) -> (r: Result<String, String>)
    ensures
        answer_view(r) == unwrapped(raw@),
{
    match content(raw) {
        Content::NotJson => Ok(quote(raw)),
        Content::Text(t) => match content(t.as_str()) {
            Content::NotJson => Ok(quote(t.as_str())),
            _ => take_apart(t.as_str()),
        },
        Content::Other => take_apart(raw),
    }
}

/// What a panel's page has logged.
pub fn get_console(canvas: &Canvas, state: &AppState, panel: &str) -> (r: Result<
    Vec<ConsoleLine>,
    String,
>)
    ensures
        match meant(viewports_of(canvas@.panels), panel@) {
            Some(i) => r matches Ok(v) && line_views(v@) == lines_of(
                state@.console,
                canvas@.panels[i].viewport.id,
            ),
            None => r matches Err(e) && e@ == no_such_panel(canvas@.panels, panel@),
        },
{
    match require_panel(canvas, panel) {
        Err(e) => Err(e),
        Ok(id) => match state.console_lines(id.as_str()) {
            Some(lines) => Ok(copy_lines(lines)),
            None => {
                let none: Vec<ConsoleLine> = Vec::new();
                assert(line_views(none@) =~= lines_of(state@.console, id@));
                Ok(none)
            },
        },
    }
}

fn copy_lines(lines: &Vec<ConsoleLine>) -> (r: Vec<ConsoleLine>)
    ensures
        line_views(r@) == line_views(lines@),
{
    let ghost want = line_views(lines@);
    let mut out: Vec<ConsoleLine> = Vec::new();
    let mut i: usize = 0;
    assert(line_views(out@) =~= want.take(0));
    while i < lines.len()
        invariant
            i <= lines@.len(),
            want == line_views(lines@),
            line_views(out@) == want.take(i as int),
        decreases lines@.len() - i,
    {
        let ghost before = line_views(out@);
        let l = ConsoleLine {
            level: lines[i].level.as_str().to_owned(),
            text: lines[i].text.as_str().to_owned(),
            at: lines[i].at,
        };
        let ghost lv = l@;
        out.push(l);
        assert(lv == want[i as int]);
        assert(line_views(out@) =~= before.push(lv));
        assert(want.take(i + 1) =~= want.take(i as int).push(want[i as int]));
        i += 1;
    }
    assert(want.take(want.len() as int) =~= want);
    out
}

/// The script that reads an element's markup, cut at `max` characters.
pub fn dom_script(selector: &str, max: usize) -> (r: String)
    ensures
        r@ == "var el = document.querySelector("@ + json_string(selector@)
            + "); if (!el) return null; var html = el.outerHTML; return html.length > "@ + decimal(
            max as nat,
        ) + " ? html.slice(0, "@ + decimal(max as nat) + ") + '\\n… truncated' : html;"@,
{
    let mut out = "var el = document.querySelector(".to_owned();
    out.append(quote(selector).as_str());
    out.append("); if (!el) return null; var html = el.outerHTML; return html.length > ");
    out.append(number_string(max).as_str());
    out.append(" ? html.slice(0, ");
    out.append(number_string(max).as_str());
    out.append(") + '\\n… truncated' : html;");
    out
}

/// What a page's answer to that script comes to, the answer given as JSON and
/// as what it holds.
pub open spec fn markup_says(
    value: Seq<char>,
    held: Held,
    selector: Seq<char>,
    panel: Seq<char>,
) -> Result<Seq<char>, Seq<char>> {
    if value == "null"@ {
        Err("nothing matches "@ + selector + " in "@ + panel)
    } else {
        match held {
            Held::Text(html) => Ok(html),
            _ => Ok(value),
        }
    }
}

pub fn read_markup(value: &str, held: Content, selector: &str, panel: &str) -> (r: Result<
    String,
    String,
>)
    ensures
        answer_view(r) == markup_says(value@, held@, selector@, panel@),
{
    if same(value, "null") {
        let mut e = "nothing matches ".to_owned();
        e.append(selector);
        e.append(" in ");
        e.append(panel);
        return Err(e);
    }
    match held {
        Content::Text(html) => Ok(html),
        _ => Ok(value.to_owned()),
    }
}

/// An element's markup, from the JSON its page handed back. `null` means that
/// nothing matched.
pub fn get_dom(value: &str, selector: &str, panel: &str) -> (r: Result<String, String>)
    ensures
        answer_view(r) == markup_says(value@, json_content(value@), selector@, panel@),
{
    read_markup(value, content(value), selector, panel)
}

/// A measure kept between two others.
pub open spec fn kept_between(v: i64, low: i64, high: i64) -> i64 {
    if v < low {
        low
    } else if v > high {
        high
    } else {
        v
    }
}

fn keep_between(v: i64, low: i64, high: i64) -> (r: i64)
    ensures
        r == kept_between(v, low, high),
{
    if v < low {
        low
    } else if v > high {
        high
    } else {
        v
    }
}

/// A panel asked to be another size.
pub open spec fn resized(p: PanelNow, width: Option<i64>, height: Option<i64>) -> PanelNow {
    PanelNow {
        viewport: Panelled {
            width: match width {
                Some(w) => kept_between(w, 120_000_000, 5_000_000_000),
                None => p.viewport.width,
            },
            height: match height {
                Some(h) => kept_between(h, 200_000_000, 5_000_000_000),
                None => p.viewport.height,
            },
            ..p.viewport
        },
        ..p
    }
}

/// Change one panel's size without touching the others. The page only
/// volunteers its width when it loads, so its last word is stale afterwards and
/// it is to be asked again; the id is handed back for that.
pub fn set_viewport(
    canvas: &mut Canvas,
    panel: &str,
    width: Option<i64>,
    height: Option<i64>,
    available: i64,
) -> (r: Result<String, String>)
    requires
        in_reach(old(canvas)@),
    ensures
        match meant(viewports_of(old(canvas)@.panels), panel@) {
            None => final(canvas)@ == old(canvas)@ && (r matches Err(e) && e@ == no_such_panel(
                old(canvas)@.panels,
                panel@,
            )),
            Some(k) => {
                let id = old(canvas)@.panels[k].viewport.id;
                match panel_of(old(canvas)@.panels, id) {
                    None => r is Err && final(canvas)@ == old(canvas)@,
                    Some(i) => {
                        &&& r matches Ok(x) && x@ == id
                        &&& in_reach(final(canvas)@)
                        &&& final(canvas)@ == laid_out(
                            with_panel(
                                old(canvas)@,
                                i,
                                resized(old(canvas)@.panels[i], width, height),
                            ),
                            available,
                        )
                    },
                }
            },
        },
{
    let ghost start = canvas@;
    let id = match require_panel(canvas, panel) {
        Ok(id) => id,
        Err(e) => {
            return Err(e);
        },
    };
    match canvas.find(id.as_str()) {
        None => Err("panel disappeared".to_owned()),
        Some(i) => {
            if let Some(w) = width {
                canvas.panels[i].viewport.width = keep_between(w, 120 * PX, 5000 * PX);
            }
            if let Some(h) = height {
                canvas.panels[i].viewport.height = keep_between(h, 200 * PX, 5000 * PX);
            }
            proof {
                assert(canvas.panels@[i as int]@ == resized(start.panels[i as int], width, height));
                assert(canvas@.panels =~= start.panels.update(
                    i as int,
                    resized(start.panels[i as int], width, height),
                ));
                assert(canvas@ == with_panel(
                    start,
                    i as int,
                    resized(start.panels[i as int], width, height),
                ));
            }
            canvas.relayout(available);
            Ok(id)
        },
    }
}

#[derive(Debug)]
pub struct ProjectInfo {
    pub root: Option<String>,
    pub name: Option<String>,
    pub project_driven: bool,
    pub framework: Option<String>,
    pub dev_url: Option<String>,
    pub url: String,
    pub url_status: UrlStatus,
    pub last_scan_ms: Option<u64>,
    pub panels: Vec<PanelInfo>,
    /// How far the row is panned, and how wide it is. An agent that knows both
    /// knows which panels are actually on screen.
    pub scroll_x: i128,
    pub total_width: i128,
    pub project_file: Option<String>,
}

/// The first framework of a scan, with its version where it has one.
pub open spec fn framework_of(report: Option<ScanReport>) -> Option<Seq<char>> {
    match report {
        Some(r) => if r.frameworks@.len() > 0 {
            let f = r.frameworks@[0];
            Some(
                match opt_view(f.version) {
                    Some(v) => f.framework@ + "@"@ + v,
                    None => f.framework@,
                },
            )
        } else {
            None
        },
        None => None,
    }
}

fn first_framework(report: &Option<ScanReport>) -> (r: Option<String>)
    ensures
        opt_view(r) == framework_of(*report),
{
    match report {
        Some(r) => if r.frameworks.len() > 0 {
            let mut out = r.frameworks[0].framework.as_str().to_owned();
            if let Some(v) = &r.frameworks[0].version {
                out.append("@");
                out.append(v.as_str());
            }
            Some(out)
        } else {
            None
        },
        None => None,
    }
}

pub open spec fn is_project_info(
    r: ProjectInfo,
    project: Option<ProjectContext>,
    c: CanvasNow,
    h: Heard,
    status: UrlStatus,
    has_file: bool,
) -> bool {
    &&& r.url@ == c.url
    &&& r.url_status == status
    &&& panel_infos(r.panels@) == panels_shown(c, h)
    &&& r.scroll_x == c.scroll_x
    &&& r.total_width == c.total_width
    &&& match project {
        Some(p) => {
            &&& opt_view(r.root) == Some(p.root@)
            &&& opt_view(r.name) == Some(p.name@)
            &&& r.project_driven == p.project_driven
            &&& opt_view(r.framework) == framework_of(p.report)
            &&& opt_view(r.dev_url) == opt_view(p.dev_url)
            &&& r.last_scan_ms == match p.report {
                Some(s) => Some(s.duration_ms),
                None => None,
            }
            &&& opt_view(r.project_file) == if has_file {
                Some(joined_path(p.root@, MARKDOWN_NAME@))
            } else {
                None
            }
        },
        None => {
            &&& r.root is None
            &&& r.name is None
            &&& !r.project_driven
            &&& r.framework is None
            &&& r.dev_url is None
            &&& r.last_scan_ms is None
            &&& r.project_file is None
        },
    }
}

/// Everything about the project that is open. `has_file` says whether a project
/// file stands in its folder.
pub fn get_project_info(
    project: &Option<ProjectContext>,
    canvas: &Canvas,
    state: &AppState,
    url_status: UrlStatus,
    has_file: bool,
) -> (r: ProjectInfo)
    ensures
        is_project_info(r, *project, canvas@, state@, url_status, has_file),
{
    let info = canvas.info(state);
    let mut r = ProjectInfo {
        root: None,
        name: None,
        project_driven: false,
        framework: None,
        dev_url: None,
        url: info.url,
        url_status,
        last_scan_ms: None,
        panels: info.panels,
        scroll_x: info.scroll_x,
        total_width: info.total_width,
        project_file: None,
    };
    if let Some(p) = project {
        r.root = Some(p.root.as_str().to_owned());
        r.name = Some(p.name.as_str().to_owned());
        r.project_driven = p.project_driven;
        r.framework = first_framework(&p.report);
        r.dev_url = clone_opt(&p.dev_url);
        r.last_scan_ms = match &p.report {
            Some(s) => Some(s.duration_ms),
            None => None,
        };
        if has_file {
            r.project_file = Some(join_path(p.root.as_str(), MARKDOWN_NAME));
        }
    }
    r
}

/// Where one panel's width came from.
#[derive(Debug)]
pub struct BreakpointSource {
    pub panel: String,
    pub id: String,
    pub width: i64,
    pub framework_name: Option<String>,
    pub source: String,
    pub file: Option<String>,
    pub line: Option<usize>,
    /// In hundredths.
    pub confidence: u32,
    pub kind: Option<Kind>,
    pub used_in_files: Option<usize>,
}

#[verifier::ext_equal]
pub struct SourceKnown {
    pub panel: Seq<char>,
    pub id: Seq<char>,
    pub width: i64,
    pub framework_name: Option<Seq<char>>,
    pub source: Seq<char>,
    pub file: Option<Seq<char>>,
    pub line: Option<usize>,
    pub confidence: u32,
    pub kind: Option<Kind>,
    pub used_in_files: Option<usize>,
}

impl View for BreakpointSource {
    type V = SourceKnown;

    open spec fn view(&self) -> SourceKnown {
        SourceKnown {
            panel: self.panel@,
            id: self.id@,
            width: self.width,
            framework_name: opt_view(self.framework_name),
            source: self.source@,
            file: opt_view(self.file),
            line: self.line,
            confidence: self.confidence,
            kind: self.kind,
            used_in_files: self.used_in_files,
        }
    }
}

pub open spec fn known_sources(v: Seq<BreakpointSource>) -> Seq<SourceKnown> {
    v.map_values(|s: BreakpointSource| s@)
}

/// Whether two widths are less than two pixels apart.
pub open spec fn alike(a: int, b: int) -> bool {
    a - b < 2_000_000 && b - a < 2_000_000
}

/// The first width of a scan, from `i` on, that is a panel's.
pub open spec fn discovery_from(s: Seq<Found>, width: int, i: int) -> Option<int>
    decreases s.len() - i,
{
    if i >= s.len() {
        None
    } else if alike(s[i].width as int, width) {
        Some(i)
    } else {
        discovery_from(s, width, i + 1)
    }
}

pub open spec fn source_known(p: PanelNow, s: Seq<Found>) -> SourceKnown {
    match discovery_from(s, p.viewport.width as int, 0) {
        Some(i) => SourceKnown {
            panel: p.viewport.name,
            id: p.viewport.id,
            width: p.viewport.width,
            framework_name: s[i].name,
            source: s[i].source,
            file: Some(s[i].source_file),
            line: s[i].line,
            confidence: s[i].confidence,
            kind: Some(s[i].kind),
            used_in_files: Some(s[i].file_count),
        },
        None => SourceKnown {
            panel: p.viewport.name,
            id: p.viewport.id,
            width: p.viewport.width,
            framework_name: None,
            source: "set by hand"@,
            file: None,
            line: None,
            confidence: 100,
            kind: None,
            used_in_files: None,
        },
    }
}

/// The widths a scan of the open project found.
pub open spec fn widths_found(project: Option<ProjectContext>) -> Seq<Found> {
    match project {
        Some(p) => match p.report {
            Some(r) => founds(r.breakpoints@),
            None => Seq::empty(),
        },
        None => Seq::empty(),
    }
}

fn find_discovery(v: &Vec<BreakpointDiscovery>, width: i64) -> (r: Option<usize>)
    ensures
        match r {
            Some(i) => i < v@.len() && discovery_from(founds(v@), width as int, 0) == Some(
                i as int,
            ),
            None => discovery_from(founds(v@), width as int, 0) is None,
        },
{
    let ghost s = founds(v@);
    let mut i: usize = 0;
    while i < v.len()
        invariant
            i <= v@.len(),
            s == founds(v@),
            discovery_from(s, width as int, 0) == discovery_from(s, width as int, i as int),
        decreases v@.len() - i,
    {
        assert(s[i as int] == v@[i as int]@);
        let gap: i128 = v[i].width as i128 - width as i128;
        if gap < 2_000_000 && gap > -2_000_000 {
            return Some(i);
        }
        i += 1;
    }
    None
}

fn source_for(v: &Viewport, found: Option<&BreakpointDiscovery>) -> (r: BreakpointSource)
    ensures
        r@ == (match found {
            Some(f) => SourceKnown {
                panel: v@.name,
                id: v@.id,
                width: v@.width,
                framework_name: f@.name,
                source: f@.source,
                file: Some(f@.source_file),
                line: f@.line,
                confidence: f@.confidence,
                kind: Some(f@.kind),
                used_in_files: Some(f@.file_count),
            },
            None => SourceKnown {
                panel: v@.name,
                id: v@.id,
                width: v@.width,
                framework_name: None,
                source: "set by hand"@,
                file: None,
                line: None,
                confidence: 100,
                kind: None,
                used_in_files: None,
            },
        }),
{
    match found {
        Some(f) => BreakpointSource {
            panel: v.name.as_str().to_owned(),
            id: v.id.as_str().to_owned(),
            width: v.width,
            framework_name: clone_opt(&f.name),
            source: f.source.as_str().to_owned(),
            file: Some(f.source_file.as_str().to_owned()),
            line: f.line,
            confidence: f.confidence,
            kind: Some(f.kind),
            used_in_files: Some(f.file_count),
        },
        None => BreakpointSource {
            panel: v.name.as_str().to_owned(),
            id: v.id.as_str().to_owned(),
            width: v.width,
            framework_name: None,
            source: "set by hand".to_owned(),
            file: None,
            line: None,
            confidence: 100,
            kind: None,
            used_in_files: None,
        },
    }
}

/// Where each active viewport came from: file, line, confidence.
///
/// Quietly the most useful thing an agent can ask, because it turns "fix the
/// tablet view" into "edit line 12 of tailwind.config.js".
pub fn get_breakpoint_sources(project: &Option<ProjectContext>, canvas: &Canvas) -> (r: Vec<
    BreakpointSource,
>)
    ensures
        known_sources(r@) == Seq::new(
            canvas@.panels.len(),
            |i: int| source_known(canvas@.panels[i], widths_found(*project)),
        ),
{
    let ghost found = widths_found(*project);
    let ghost want = Seq::new(
        canvas@.panels.len(),
        |i: int| source_known(canvas@.panels[i], widths_found(*project)),
    );
    let none: Vec<BreakpointDiscovery> = Vec::new();
    assert(founds(none@) =~= Seq::empty());
    let widths = match project {
        Some(p) => match &p.report {
            Some(r) => &r.breakpoints,
            None => &none,
        },
        None => &none,
    };
    assert(founds(widths@) == found);
    let mut out: Vec<BreakpointSource> = Vec::new();
    let mut i: usize = 0;
    assert(known_sources(out@) =~= want.take(0));
    assert(canvas@.panels.len() == canvas.panels@.len());
    while i < canvas.panels.len()
        invariant
            i <= canvas.panels@.len(),
            canvas@.panels.len() == canvas.panels@.len(),
            found == widths_found(*project),
            founds(widths@) == found,
            want == Seq::new(
                canvas@.panels.len(),
                |i: int| source_known(canvas@.panels[i], widths_found(*project)),
            ),
            known_sources(out@) == want.take(i as int),
        decreases canvas.panels@.len() - i,
    {
        let ghost before = known_sources(out@);
        let v = &canvas.panels[i].viewport;
        assert(canvas@.panels[i as int] == canvas.panels@[i as int]@);
        let s = match find_discovery(widths, v.width) {
            Some(k) => {
                assert(found[k as int] == widths@[k as int]@);
                source_for(v, Some(&widths[k]))
            },
            None => source_for(v, None),
        };
        let ghost sv = s@;
        out.push(s);
        assert(sv == want[i as int]);
        assert(known_sources(out@) =~= before.push(sv));
        assert(want.take(i + 1) =~= want.take(i as int).push(want[i as int]));
        i += 1;
    }
    assert(want.take(want.len() as int) =~= want);
    out
}

/// What is said when there is no log of a scan.
pub const NO_SCAN_LOG: &'static str = "no scan has been run in this session";

/// Where the log of the last scan is.
pub fn scan_log_path(project: &Option<ProjectContext>) -> (r: Result<String, String>)
    ensures
        answer_view(r) == match *project {
            Some(p) => match p.report {
                Some(s) => match opt_view(s.log_path) {
                    Some(path) => Ok(path),
                    None => Err(NO_SCAN_LOG@),
                },
                None => Err(NO_SCAN_LOG@),
            },
            None => Err(NO_SCAN_LOG@),
        },
{
    if let Some(p) = project {
        if let Some(s) = &p.report {
            if let Some(path) = &s.log_path {
                return Ok(path.as_str().to_owned());
            }
        }
    }
    Err(NO_SCAN_LOG.to_owned())
}

/// A viewport set, and where it came from.
#[derive(Debug)]
pub struct Output {
    pub viewports: Vec<Viewport>,
    pub recommendation: Recommendation,
}

pub const NOT_SCANNED: &'static str = "no project has been scanned";

pub open spec fn offered_viewports(s: Seq<Offer>) -> Seq<Panelled> {
    s.map_values(|o: Offer| o.viewport)
}

/// Turn a scan report into a viewport set without writing anything.
pub fn generate_project_config(project: &Option<ProjectContext>, config: &AppConfig) -> (r: Result<
    Output,
    String,
>)
    ensures
        match *project {
            Some(p) => match p.report {
                Some(s) => {
                    let a = advice(
                        founds(s.breakpoints@),
                        config.height_strategy,
                        config.fixed_height,
                        config.edge_testing,
                    );
                    r matches Ok(o) && o.recommendation@ == a && viewports(o.viewports@)
                        == offered_viewports(a.recommended)
                },
                None => r matches Err(e) && e@ == NOT_SCANNED@,
            },
            None => r matches Err(e) && e@ == NOT_SCANNED@,
        },
{
    if let Some(p) = project {
        if let Some(s) = &p.report {
            let recommendation = recommend(
                &s.breakpoints,
                config.height_strategy,
                config.fixed_height,
                config.edge_testing,
            );
            let ghost want = offered_viewports(recommendation@.recommended);
            let mut out: Vec<Viewport> = Vec::new();
            let mut i: usize = 0;
            assert(viewports(out@) =~= want.take(0));
            while i < recommendation.recommended.len()
                invariant
                    i <= recommendation.recommended@.len(),
                    want == offered_viewports(recommendation@.recommended),
                    want.len() == recommendation.recommended@.len(),
                    viewports(out@) == want.take(i as int),
                decreases recommendation.recommended@.len() - i,
            {
                let ghost before = viewports(out@);
                let v = recommendation.recommended[i].viewport.clone();
                let ghost vv = v@;
                out.push(v);
                proof {
                    assert(recommendation@.recommended[i as int]
                        == recommendation.recommended@[i as int]@);
                    assert(viewports(out@) =~= before.push(vv));
                    assert(want.take(i + 1) =~= want.take(i as int).push(want[i as int]));
                }
                i += 1;
            }
            assert(want.take(want.len() as int) =~= want);
            return Ok(Output { viewports: out, recommendation });
        }
    }
    Err(NOT_SCANNED.to_owned())
}

/// Whether one of the dev servers a scan found is at an address.
pub open spec fn serves(s: Seq<ServerFound>, url: Seq<char>) -> bool {
    exists|i: int| 0 <= i < s.len() && normalized((#[trigger] s[i]).url) == url
}

/// Whether an address belongs to the project that is open.
pub open spec fn is_this_projects(
    url: Seq<char>,
    project: Option<ProjectContext>,
    owners: Seq<(Seq<char>, Seq<char>)>,
) -> bool {
    &&& url.len() > 0
    &&& !begins(url, "about:"@)
    &&& project matches Some(p) && (folder_of(owners, url) == Some(p.root@) || (
    p.report matches Some(r) && serves(servers(r.dev_servers@), url)))
}

fn any_serves(report: &ScanReport, url: &str) -> (r: bool)
    ensures
        r == serves(servers(report.dev_servers@), url@),
{
    let ghost s = servers(report.dev_servers@);
    let mut i: usize = 0;
    while i < report.dev_servers.len()
        invariant
            i <= report.dev_servers@.len(),
            s == servers(report.dev_servers@),
            forall|k: int| 0 <= k < i ==> normalized((#[trigger] s[k]).url) != url@,
        decreases report.dev_servers@.len() - i,
    {
        assert(s[i as int] == report.dev_servers@[i as int]@);
        let n = normalize_url(report.dev_servers[i].url.as_str());
        if same(n.as_str(), url) {
            return true;
        }
        i += 1;
    }
    false
}

/// The canvas URL, but only when it is this project's.
///
/// It counts as this project's if the project was applied with it or if the
/// scan found it as one of this project's own dev servers. Anything else
/// belongs to whatever was open before, and gets left out rather than committed
/// into someone's repo.
pub fn url_for_this_project(url: &str, project: &Option<ProjectContext>, config: &AppConfig) -> (r:
    Option<String>)
    ensures
        opt_view(r) == if is_this_projects(
            url@,
            *project,
            addresses(config.url_to_project@),
        ) {
            Some(url@)
        } else {
            None
        },
{
    if url.is_empty() || begins_with(url, "about:") {
        return None;
    }
    match project {
        None => None,
        Some(p) => {
            let applied_here = match project_for_url(config, url) {
                Some(owner) => same(owner.as_str(), p.root.as_str()),
                None => false,
            };
            if applied_here {
                return Some(url.to_owned());
            }
            let found_here = match &p.report {
                Some(report) => any_serves(report, url),
                None => false,
            };
            if found_here {
                Some(url.to_owned())
            } else {
                None
            }
        },
    }
}

/// The row that is written into a project file: the one asked for, or the one
/// on the canvas.
pub fn row_to_write(asked: Option<Vec<Viewport>>, canvas: &Canvas) -> (r: Vec<Viewport>)
    ensures
        viewports(r@) == match asked {
            Some(v) => viewports(v@),
            None => viewports_of(canvas@.panels),
        },
{
    match asked {
        Some(v) => v,
        None => canvas.viewport_list(),
    }
}

/// A profile as it is listed.
#[derive(Debug)]
pub struct ProfileRow {
    pub id: String,
    pub name: String,
    pub locked: bool,
    pub active: bool,
    pub viewports: Vec<Viewport>,
}

#[verifier::ext_equal]
pub struct ProfileListed {
    pub id: Seq<char>,
    pub name: Seq<char>,
    pub locked: bool,
    pub active: bool,
    pub viewports: Seq<Panelled>,
}

impl View for ProfileRow {
    type V = ProfileListed;

    open spec fn view(&self) -> ProfileListed {
        ProfileListed {
            id: self.id@,
            name: self.name@,
            locked: self.locked,
            active: self.active,
            viewports: viewports(self.viewports@),
        }
    }
}

pub open spec fn profile_rows(v: Seq<ProfileRow>) -> Seq<ProfileListed> {
    v.map_values(|p: ProfileRow| p@)
}

pub fn list_profiles(config: &AppConfig) -> (r: Vec<ProfileRow>)
    ensures
        profile_rows(r@) == Seq::new(
            config.profiles@.len(),
            |i: int|
                ProfileListed {
                    id: config.profiles@[i].0@,
                    name: config.profiles@[i].1@.name,
                    locked: config.profiles@[i].1@.locked,
                    active: config.profiles@[i].0@ == config.active_profile@,
                    viewports: config.profiles@[i].1@.viewports,
                },
        ),
{
    let mut out: Vec<ProfileRow> = Vec::new();
    let mut i: usize = 0;
    while i < config.profiles.len()
        invariant
            i <= config.profiles@.len(),
            out@.len() == i,
            forall|k: int|
                0 <= k < i ==> (#[trigger] out@[k])@ == (ProfileListed {
                    id: config.profiles@[k].0@,
                    name: config.profiles@[k].1@.name,
                    locked: config.profiles@[k].1@.locked,
                    active: config.profiles@[k].0@ == config.active_profile@,
                    viewports: config.profiles@[k].1@.viewports,
                }),
        decreases config.profiles@.len() - i,
    {
        let id = config.profiles[i].0.as_str();
        let p = &config.profiles[i].1;
        out.push(
            ProfileRow {
                id: id.to_owned(),
                name: p.name.as_str().to_owned(),
                locked: p.locked,
                active: same(id, config.active_profile.as_str()),
                viewports: clone_viewports(&p.viewports),
            },
        );
        i += 1;
    }
    out
}

/// Another project's address is never written into this one's file: what is
/// written was applied here or is one of this project's own servers.
pub proof fn a_strangers_address_is_left_out(
    url: Seq<char>,
    project: ProjectContext,
    owners: Seq<(Seq<char>, Seq<char>)>,
)
    requires
        folder_of(owners, url) != Some(project.root@),
        project.report matches Some(r) ==> !serves(servers(r.dev_servers@), url),
    ensures
        !is_this_projects(url, Some(project), owners),
{
}

/// A panel is never asked to be a size that no screen has.
pub proof fn a_panel_keeps_a_sensible_size(p: PanelNow, width: i64, height: i64)
    ensures
        120_000_000 <= resized(p, Some(width), Some(height)).viewport.width <= 5_000_000_000,
        200_000_000 <= resized(p, Some(width), Some(height)).viewport.height <= 5_000_000_000,
        resized(p, None, None) == p,
{
}

/// A script that threw is an error, with what it said; one that did not gives
/// its value.
pub proof fn a_script_that_threw_is_an_error(
    ok: Option<Seq<char>>,
    error: Held,
    value: Option<Seq<char>>,
    whole: Seq<char>,
)
    ensures
        ok == Some("false"@) ==> envelope_says(ok, error, value, whole) is Err,
        ok == Some("false"@) ==> (error matches Held::Text(t) ==> envelope_says(
            ok,
            error,
            value,
            whole,
        ) == Err::<Seq<char>, Seq<char>>(t)),
        ok != Some("false"@) ==> (value matches Some(v) ==> envelope_says(ok, error, value, whole)
            == Ok::<Seq<char>, Seq<char>>(v)),
        ok != Some("false"@) && value is None ==> envelope_says(ok, error, value, whole) == Ok::<
            Seq<char>,
            Seq<char>,
        >(whole),
{
}

/// An element that is not there is an error that names the selector and the
/// panel; one that is there gives its markup.
pub proof fn markup_that_is_not_there_is_an_error(
    value: Seq<char>,
    held: Held,
    selector: Seq<char>,
    panel: Seq<char>,
)
    ensures
        value == "null"@ ==> markup_says(value, held, selector, panel) == Err::<
            Seq<char>,
            Seq<char>,
        >("nothing matches "@ + selector + " in "@ + panel),
        value != "null"@ ==> (held matches Held::Text(html) ==> markup_says(
            value,
            held,
            selector,
            panel,
        ) == Ok::<Seq<char>, Seq<char>>(html)),
        value != "null"@ && !(held is Text) ==> markup_says(value, held, selector, panel) == Ok::<
            Seq<char>,
            Seq<char>,
        >(value),
{
}

proof fn lemma_discovery(s: Seq<Found>, width: int, i: int)
    requires
        0 <= i <= s.len(),
    ensures
        discovery_from(s, width, i) matches Some(k) ==> i <= k < s.len() && alike(
            s[k].width as int,
            width,
        ) && forall|j: int| i <= j < k ==> !alike((#[trigger] s[j]).width as int, width),
        discovery_from(s, width, i) is None ==> forall|j: int|
            i <= j < s.len() ==> !alike((#[trigger] s[j]).width as int, width),
    decreases s.len() - i,
{
    if i < s.len() && !alike(s[i].width as int, width) {
        lemma_discovery(s, width, i + 1);
    }
}

/// Where a panel's width comes from: the first breakpoint found less than two
/// pixels from it, with its name, file and kind; and where there is none it was
/// set by hand.
pub proof fn a_width_comes_from_the_code_or_was_set_by_hand(p: PanelNow, s: Seq<Found>)
    ensures
        ({
            let near = |f: Found|
                f.width - p.viewport.width < 2_000_000 && p.viewport.width - f.width < 2_000_000;
            let r = source_known(p, s);
            &&& r.panel == p.viewport.name && r.id == p.viewport.id && r.width == p.viewport.width
            &&& (forall|k: int| 0 <= k < s.len() ==> !near(#[trigger] s[k])) ==> r.source
                == "set by hand"@ && r.file is None && r.kind is None && r.confidence == 100
            &&& forall|k: int|
                0 <= k < s.len() && near(#[trigger] s[k]) && (forall|j: int|
                    0 <= j < k ==> !near(#[trigger] s[j])) ==> r.source == s[k].source && r.file
                    == Some(s[k].source_file) && r.line == s[k].line && r.kind == Some(s[k].kind)
                    && r.framework_name == s[k].name && r.confidence == s[k].confidence
                    && r.used_in_files == Some(s[k].file_count)
        }),
{
    lemma_discovery(s, p.viewport.width as int, 0);
    let near = |f: Found|
        f.width - p.viewport.width < 2_000_000 && p.viewport.width - f.width < 2_000_000;
    assert forall|k: int| 0 <= k < s.len() implies near(#[trigger] s[k]) == alike(
        s[k].width as int,
        p.viewport.width as int,
    ) by {}
}

/// A panel asked for by a name that none has is answered with the ones there
/// are.
pub proof fn a_missing_panel_is_answered_with_the_open_ones(s: Seq<PanelNow>, needle: Seq<char>)
    ensures
        s.len() == 0 ==> no_such_panel(s, needle)
            == "no panels are open, so there is nothing to address. Open a project or navigate to a URL first."@,
        s.len() > 0 ==> no_such_panel(s, needle) == "no panel matches \""@ + needle
            + "\". Open panels: "@ + joined(
            s.map_values(|p: PanelNow| p.viewport.name + " ("@ + p.viewport.source + ")"@),
            ", "@,
        ),
{
}

/// A project's framework is the first found, with its version.
pub proof fn a_framework_is_named_with_its_version(report: Option<ScanReport>)
    ensures
        report is None ==> framework_of(report) is None,
        report matches Some(r) ==> (r.frameworks@.len() == 0 ==> framework_of(report) is None),
        report matches Some(r) ==> (r.frameworks@.len() > 0 ==> framework_of(report) == Some(
            match opt_view(r.frameworks@[0].version) {
                Some(v) => r.frameworks@[0].framework@ + "@"@ + v,
                None => r.frameworks@[0].framework@,
            },
        )),
{
}

/// A panel is given exactly the size that was asked for, where a panel can have
/// it; a size that was not asked for stays, and so does everything else.
pub proof fn a_panel_gets_the_size_asked_for(p: PanelNow, width: Option<i64>, height: Option<i64>)
    ensures
        ({
            let r = resized(p, width, height);
            &&& width is Some && 120_000_000 <= width->0 <= 5_000_000_000 ==> r.viewport.width
                == width->0
            &&& width is Some && width->0 < 120_000_000 ==> r.viewport.width == 120_000_000
            &&& width is Some && width->0 > 5_000_000_000 ==> r.viewport.width == 5_000_000_000
            &&& height is Some && 200_000_000 <= height->0 <= 5_000_000_000 ==> r.viewport.height
                == height->0
            &&& height is Some && height->0 < 200_000_000 ==> r.viewport.height == 200_000_000
            &&& height is Some && height->0 > 5_000_000_000 ==> r.viewport.height
                == 5_000_000_000
            &&& width is None ==> r.viewport.width == p.viewport.width
            &&& height is None ==> r.viewport.height == p.viewport.height
            &&& r.viewport.id == p.viewport.id && r.viewport.name == p.viewport.name
            &&& r.viewport.source == p.viewport.source && r.viewport.enabled
                == p.viewport.enabled
            &&& r.state == p.state && r.scroll == p.scroll
        }),
{
}

/// Every panel of the row is told of, in its order and with its own lines.
pub proof fn every_panel_is_told_of(c: CanvasNow, h: Heard, i: int)
    requires
        0 <= i < c.panels.len(),
    ensures
        panels_shown(c, h).len() == c.panels.len(),
        panels_shown(c, h)[i] == shown(
            c.panels[i],
            i,
            lines_of(h.console, c.panels[i].viewport.id),
        ),
        panels_shown(c, h)[i].id == c.panels[i].viewport.id,
{
}

/// An address belongs to the open project when the project is remembered for it
/// or one of its servers answers there, and a blank page belongs to none.
pub proof fn an_address_is_a_projects_own(
    url: Seq<char>,
    project: ProjectContext,
    owners: Seq<(Seq<char>, Seq<char>)>,
)
    ensures
        url.len() > 0 && begins(url, "about:"@) == false && folder_of(owners, url) == Some(
            project.root@,
        ) ==> is_this_projects(url, Some(project), owners),
        url.len() == 0 ==> !is_this_projects(url, Some(project), owners),
        begins(url, "about:"@) ==> !is_this_projects(url, Some(project), owners),
        !is_this_projects(url, None, owners),
        folder_of(owners, url) != Some(project.root@) && project.report is None
            ==> !is_this_projects(url, Some(project), owners),
{
}

/// The widths found are those of the last scan, and none where nothing was
/// scanned.
pub proof fn the_widths_are_those_of_the_scan(project: Option<ProjectContext>)
    ensures
        project is None ==> widths_found(project).len() == 0,
        project matches Some(p) ==> match p.report {
            Some(r) => widths_found(project) == founds(r.breakpoints@),
            None => widths_found(project).len() == 0,
        },
{
}

/// What a script hands back: text that is no JSON is quoted as it stands, and
/// anything else is read for what it says.
pub proof fn what_a_script_hands_back_is_unwrapped(raw: Seq<char>)
    ensures
        json_content(raw) is NotJson ==> unwrapped(raw) == Ok::<Seq<char>, Seq<char>>(
            json_string(raw),
        ),
        json_content(raw) matches Held::Text(t) && json_content(t) is NotJson ==> unwrapped(raw)
            == Ok::<Seq<char>, Seq<char>>(json_string(json_content(raw)->Text_0)),
        json_content(raw) is Other ==> unwrapped(raw) == read_envelope(raw),
{
}

/// What is said of the project is what is open: its folder, name, framework and
/// address, and nothing of the kind where none is.
pub proof fn the_open_project_is_told_of(
    r: ProjectInfo,
    project: Option<ProjectContext>,
    c: CanvasNow,
    h: Heard,
    status: UrlStatus,
    has_file: bool,
)
    requires
        is_project_info(r, project, c, h, status, has_file),
    ensures
        r.url@ == c.url && r.url_status == status,
        r.panels@.len() == c.panels.len(),
        project is None ==> r.root is None && r.name is None && r.framework is None && r.dev_url
            is None && r.project_file is None && !r.project_driven && r.last_scan_ms is None,
        project matches Some(p) ==> {
            &&& r.root is Some && r.root->0@ == p.root@
            &&& r.name is Some && r.name->0@ == p.name@
            &&& opt_view(r.dev_url) == opt_view(p.dev_url)
            &&& r.project_driven == p.project_driven
            &&& r.project_file is Some <==> has_file
            &&& r.last_scan_ms is Some <==> p.report is Some
        },
{
    assert(panel_infos(r.panels@).len() == panels_shown(c, h).len());
}

} // verus!
