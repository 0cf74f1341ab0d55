//! The tools an agent can ask for, and how they are advertised.
//!
//! A tool that is answered but not advertised is invisible to an agent, and one
//! that is advertised but not answered is worse: it is offered and then errors.

use vstd::prelude::*;
use vstd::string::StringExecFns;
use crate::text::{opt_view, same, texts};

verus! {

/// Every tool there is.
#[derive(Debug, Clone, Copy, PartialEq, Eq, Structural)]
pub enum Tool {
    ListPanels,
    Navigate,
    Reload,
    EvalJs,
    GetConsole,
    GetDom,
    SetViewport,
    ScreenshotPanel,
    ScreenshotAll,
    DetectProject,
    ScanBreakpoints,
    GetProjectInfo,
    GetBreakpointSources,
    GetScanLog,
    GenerateProjectConfig,
    WriteProjectFile,
    ListProfiles,
    LoadProfile,
    AuditAll,
    AttachReference,
    GetReferences,
    DiffPanel,
    TakeReports,
}

/// The tools, in the order they are listed.
pub open spec fn all_tools() -> Seq<Tool> {
    seq![
        Tool::ListPanels,
        Tool::Navigate,
        Tool::Reload,
        Tool::EvalJs,
        Tool::GetConsole,
        Tool::GetDom,
        Tool::SetViewport,
        Tool::ScreenshotPanel,
        Tool::ScreenshotAll,
        Tool::DetectProject,
        Tool::ScanBreakpoints,
        Tool::GetProjectInfo,
        Tool::GetBreakpointSources,
        Tool::GetScanLog,
        Tool::GenerateProjectConfig,
        Tool::WriteProjectFile,
        Tool::ListProfiles,
        Tool::LoadProfile,
        Tool::AuditAll,
        Tool::AttachReference,
        Tool::GetReferences,
        Tool::DiffPanel,
        Tool::TakeReports,
    ]
}

/// The tools, in the order they are advertised.
pub open spec fn advertised() -> Seq<Tool> {
    all_tools().take(21) + seq![Tool::TakeReports, Tool::DiffPanel]
}

pub open spec fn tool_name(t: Tool) -> Seq<char> {
    match t {
        Tool::ListPanels => "list_panels"@,
        Tool::Navigate => "navigate"@,
        Tool::Reload => "reload"@,
        Tool::EvalJs => "eval_js"@,
        Tool::GetConsole => "get_console"@,
        Tool::GetDom => "get_dom"@,
        Tool::SetViewport => "set_viewport"@,
        Tool::ScreenshotPanel => "screenshot_panel"@,
        Tool::ScreenshotAll => "screenshot_all"@,
        Tool::DetectProject => "detect_project"@,
        Tool::ScanBreakpoints => "scan_breakpoints"@,
        Tool::GetProjectInfo => "get_project_info"@,
        Tool::GetBreakpointSources => "get_breakpoint_sources"@,
        Tool::GetScanLog => "get_scan_log"@,
        Tool::GenerateProjectConfig => "generate_project_config"@,
        Tool::WriteProjectFile => "write_project_file"@,
        Tool::ListProfiles => "list_profiles"@,
        Tool::LoadProfile => "load_profile"@,
        Tool::AuditAll => "audit_all"@,
        Tool::AttachReference => "attach_reference"@,
        Tool::GetReferences => "get_references"@,
        Tool::DiffPanel => "diff_panel"@,
        Tool::TakeReports => "take_reports"@,
    }
}

pub open spec fn tool_named(name: Seq<char>) -> Option<Tool> {
    if name == "list_panels"@ {
        Some(Tool::ListPanels)
    } else if name == "navigate"@ {
        Some(Tool::Navigate)
    } else if name == "reload"@ {
        Some(Tool::Reload)
    } else if name == "eval_js"@ {
        Some(Tool::EvalJs)
    } else if name == "get_console"@ {
        Some(Tool::GetConsole)
    } else if name == "get_dom"@ {
        Some(Tool::GetDom)
    } else if name == "set_viewport"@ {
        Some(Tool::SetViewport)
    } else if name == "screenshot_panel"@ {
        Some(Tool::ScreenshotPanel)
    } else if name == "screenshot_all"@ {
        Some(Tool::ScreenshotAll)
    } else if name == "detect_project"@ {
        Some(Tool::DetectProject)
    } else if name == "scan_breakpoints"@ {
        Some(Tool::ScanBreakpoints)
    } else if name == "get_project_info"@ {
        Some(Tool::GetProjectInfo)
    } else if name == "get_breakpoint_sources"@ {
        Some(Tool::GetBreakpointSources)
    } else if name == "get_scan_log"@ {
        Some(Tool::GetScanLog)
    } else if name == "generate_project_config"@ {
        Some(Tool::GenerateProjectConfig)
    } else if name == "write_project_file"@ {
        Some(Tool::WriteProjectFile)
    } else if name == "list_profiles"@ {
        Some(Tool::ListProfiles)
    } else if name == "load_profile"@ {
        Some(Tool::LoadProfile)
    } else if name == "audit_all"@ {
        Some(Tool::AuditAll)
    } else if name == "attach_reference"@ {
        Some(Tool::AttachReference)
    } else if name == "get_references"@ {
        Some(Tool::GetReferences)
    } else if name == "diff_panel"@ {
        Some(Tool::DiffPanel)
    } else if name == "take_reports"@ {
        Some(Tool::TakeReports)
    } else {
        None
    }
}

impl Tool {
    pub fn name(self) -> (r: &'static str)
        ensures
            r@ == tool_name(self),
    {
        match self {
            Tool::ListPanels => "list_panels",
            Tool::Navigate => "navigate",
            Tool::Reload => "reload",
            Tool::EvalJs => "eval_js",
            Tool::GetConsole => "get_console",
            Tool::GetDom => "get_dom",
            Tool::SetViewport => "set_viewport",
            Tool::ScreenshotPanel => "screenshot_panel",
            Tool::ScreenshotAll => "screenshot_all",
            Tool::DetectProject => "detect_project",
            Tool::ScanBreakpoints => "scan_breakpoints",
            Tool::GetProjectInfo => "get_project_info",
            Tool::GetBreakpointSources => "get_breakpoint_sources",
            Tool::GetScanLog => "get_scan_log",
            Tool::GenerateProjectConfig => "generate_project_config",
            Tool::WriteProjectFile => "write_project_file",
            Tool::ListProfiles => "list_profiles",
            Tool::LoadProfile => "load_profile",
            Tool::AuditAll => "audit_all",
            Tool::AttachReference => "attach_reference",
            Tool::GetReferences => "get_references",
            Tool::DiffPanel => "diff_panel",
            Tool::TakeReports => "take_reports",
        }
    }

    pub fn from_name(name: &str) -> (r: Option<Tool>)
        ensures
            r == tool_named(name@),
    {
        if same(name, "list_panels") {
            Some(Tool::ListPanels)
        } else if same(name, "navigate") {
            Some(Tool::Navigate)
        } else if same(name, "reload") {
            Some(Tool::Reload)
        } else if same(name, "eval_js") {
            Some(Tool::EvalJs)
        } else if same(name, "get_console") {
            Some(Tool::GetConsole)
        } else if same(name, "get_dom") {
            Some(Tool::GetDom)
        } else if same(name, "set_viewport") {
            Some(Tool::SetViewport)
        } else if same(name, "screenshot_panel") {
            Some(Tool::ScreenshotPanel)
        } else if same(name, "screenshot_all") {
            Some(Tool::ScreenshotAll)
        } else if same(name, "detect_project") {
            Some(Tool::DetectProject)
        } else if same(name, "scan_breakpoints") {
            Some(Tool::ScanBreakpoints)
        } else if same(name, "get_project_info") {
            Some(Tool::GetProjectInfo)
        } else if same(name, "get_breakpoint_sources") {
            Some(Tool::GetBreakpointSources)
        } else if same(name, "get_scan_log") {
            Some(Tool::GetScanLog)
        } else if same(name, "generate_project_config") {
            Some(Tool::GenerateProjectConfig)
        } else if same(name, "write_project_file") {
            Some(Tool::WriteProjectFile)
        } else if same(name, "list_profiles") {
            Some(Tool::ListProfiles)
        } else if same(name, "load_profile") {
            Some(Tool::LoadProfile)
        } else if same(name, "audit_all") {
            Some(Tool::AuditAll)
        } else if same(name, "attach_reference") {
            Some(Tool::AttachReference)
        } else if same(name, "get_references") {
            Some(Tool::GetReferences)
        } else if same(name, "diff_panel") {
            Some(Tool::DiffPanel)
        } else if same(name, "take_reports") {
            Some(Tool::TakeReports)
        } else {
            None
        }
    }

    /// Every tool, in the order they are listed.
    pub fn all() -> (r: Vec<Tool>)
        ensures
            r@ == all_tools(),
    {
        let r = vec![
            Tool::ListPanels,
            Tool::Navigate,
            Tool::Reload,
            Tool::EvalJs,
            Tool::GetConsole,
            Tool::GetDom,
            Tool::SetViewport,
            Tool::ScreenshotPanel,
            Tool::ScreenshotAll,
            Tool::DetectProject,
            Tool::ScanBreakpoints,
            Tool::GetProjectInfo,
            Tool::GetBreakpointSources,
            Tool::GetScanLog,
            Tool::GenerateProjectConfig,
            Tool::WriteProjectFile,
            Tool::ListProfiles,
            Tool::LoadProfile,
            Tool::AuditAll,
            Tool::AttachReference,
            Tool::GetReferences,
            Tool::DiffPanel,
            Tool::TakeReports,
        ];
        assert(r@ =~= all_tools());
        r
    }
}

/// Every name this server answers to.
pub fn tool_names() -> (r: Vec<String>)
    ensures
        texts(r@) == all_tools().map_values(|t: Tool| tool_name(t)),
{
    let all = Tool::all();
    let ghost want = all_tools().map_values(|t: Tool| tool_name(t));
    let mut out: Vec<String> = Vec::new();
    let mut i: usize = 0;
    assert(texts(out@) =~= want.take(0));
    while i < all.len()
        invariant
            i <= all@.len(),
            all@ == all_tools(),
            want == all_tools().map_values(|t: Tool| tool_name(t)),
            texts(out@) == want.take(i as int),
        decreases all@.len() - i,
    {
        let ghost before = texts(out@);
        let n = all[i].name().to_owned();
        out.push(n);
        assert(texts(out@) =~= before.push(n@));
        assert(want.take(i + 1) =~= want.take(i as int).push(want[i as int]));
        i += 1;
    }
    assert(want.take(want.len() as int) =~= want);
    out
}

/// What an argument is.
#[derive(Debug, Clone, Copy, PartialEq, Eq, Structural)]
pub enum Shape {
    Text,
    Number,
    Flag,
    List,
}

/// An argument a tool takes.
#[derive(Debug)]
pub struct Property {
    pub name: String,
    pub shape: Shape,
    pub description: Option<String>,
}

#[verifier::ext_equal]
pub struct Described {
    pub name: Seq<char>,
    pub shape: Shape,
    pub description: Option<Seq<char>>,
}

impl View for Property {
    type V = Described;

    open spec fn view(&self) -> Described {
        Described { name: self.name@, shape: self.shape, description: opt_view(self.description) }
    }
}

/// A tool as it is advertised.
#[derive(Debug)]
pub struct Definition {
    pub name: String,
    pub description: String,
    pub properties: Vec<Property>,
    pub required: Vec<String>,
}

#[verifier::ext_equal]
pub struct Advertised {
    pub name: Seq<char>,
    pub description: Seq<char>,
    pub properties: Seq<Described>,
    pub required: Seq<Seq<char>>,
}

pub open spec fn described(v: Seq<Property>) -> Seq<Described> {
    v.map_values(|p: Property| p@)
}

impl View for Definition {
    type V = Advertised;

    open spec fn view(&self) -> Advertised {
        Advertised {
            name: self.name@,
            description: self.description@,
            properties: described(self.properties@),
            required: texts(self.required@),
        }
    }
}

pub open spec fn definitions(v: Seq<Definition>) -> Seq<Advertised> {
    v.map_values(|d: Definition| d@)
}

/// How a panel may be named.
pub const WHICH_PANEL: &'static str =
    "Which panel. A name, a framework key, or a breakpoint width all work, case-insensitively and by prefix: \"Tablet\", \"md\" and \"768\" reach the same panel. A bare number under the panel count is a zero-based index; anything larger is read as a width. When someone says \"frame 2\" or \"the second one\" they mean the panel whose `position` is 2 in list_panels, which is counted from the left starting at one.";

/// What a tool is for.
pub open spec fn purpose(t: Tool) -> Seq<char> {
    match t {
        Tool::ListPanels => "Every open panel, left to right: `position` counted from one, id, name, framework key, declared size, on-screen scale and load state. Read this first when someone names a panel by where it sits rather than what it is called."@,
        Tool::Navigate => "Point every panel at a URL."@,
        Tool::Reload => "Reload every panel."@,
        Tool::EvalJs => "Run JavaScript in one panel and return the value. The script body is wrapped in a function, so use `return`."@,
        Tool::GetConsole => "Recent console output and page errors from one panel, collected since it loaded."@,
        Tool::GetDom => "Outer HTML of the first element matching a selector, truncated."@,
        Tool::SetViewport => "Change one panel's size without touching the others."@,
        Tool::ScreenshotPanel => "PNG of one panel, cropped from the app window. Returns a file path."@,
        Tool::ScreenshotAll => "One PNG per panel. Returns file paths, left to right."@,
        Tool::DetectProject => "Point the app at a folder, scan it, and open the panels it recommends. Returns the framework, the breakpoints with their sources, the dev URL and any conflicts. Pass apply:false to scan without changing the canvas."@,
        Tool::ScanBreakpoints => "Re-run breakpoint detection on the open project and return the report."@,
        Tool::GetProjectInfo => "The open project: root, framework, dev URL, whether breakpoints.md is driving it, and the current panels."@,
        Tool::GetBreakpointSources => "Where each active viewport came from: file, line, confidence and how many files use it. Use this to find the config line to edit."@,
        Tool::GetScanLog => "Structured log of the last scan: which detectors ran, what was skipped, and every parse failure with the reason."@,
        Tool::GenerateProjectConfig => "Turn the last scan into a viewport set without writing anything."@,
        Tool::WriteProjectFile => "Write breakpoints.md into the project root and reload the panels from it. Prose already in the file is preserved."@,
        Tool::ListProfiles => "Saved viewport sets."@,
        Tool::LoadProfile => "Switch to a saved viewport set."@,
        Tool::AuditAll => "For every panel: capture console errors and run layout probes for overflow, overlap, small type, upscaled images, tap targets and viewport-hungry fixed elements. Returns one report ranked by severity. Run it again after a fix."@,
        Tool::AttachReference => "Bind a Figma node URL or a local image under .breakpoints/refs/ to a viewport, and write it into breakpoints.md so the mapping commits with the repo."@,
        Tool::GetReferences => "Which reference frame belongs to which panel."@,
        Tool::DiffPanel => "Screenshot a panel, compare it to its local reference image, and return a difference image and a rough figure. The figure is a pointer, not a verdict."@,
        Tool::TakeReports => "Problems a person marked in a panel by pointing at an element and describing what is wrong, each with the breakpoint width it happened at. This empties the list, so what comes back is only what has not been handled yet. Call it when asked about reported problems, notes, or what is broken."@,
    }
}

pub fn purpose_of(t: Tool) -> (r: &'static str)
    ensures
        r@ == purpose(t),
{
    match t {
        Tool::ListPanels => "Every open panel, left to right: `position` counted from one, id, name, framework key, declared size, on-screen scale and load state. Read this first when someone names a panel by where it sits rather than what it is called.",
        Tool::Navigate => "Point every panel at a URL.",
        Tool::Reload => "Reload every panel.",
        Tool::EvalJs => "Run JavaScript in one panel and return the value. The script body is wrapped in a function, so use `return`.",
        Tool::GetConsole => "Recent console output and page errors from one panel, collected since it loaded.",
        Tool::GetDom => "Outer HTML of the first element matching a selector, truncated.",
        Tool::SetViewport => "Change one panel's size without touching the others.",
        Tool::ScreenshotPanel => "PNG of one panel, cropped from the app window. Returns a file path.",
        Tool::ScreenshotAll => "One PNG per panel. Returns file paths, left to right.",
        Tool::DetectProject => "Point the app at a folder, scan it, and open the panels it recommends. Returns the framework, the breakpoints with their sources, the dev URL and any conflicts. Pass apply:false to scan without changing the canvas.",
        Tool::ScanBreakpoints => "Re-run breakpoint detection on the open project and return the report.",
        Tool::GetProjectInfo => "The open project: root, framework, dev URL, whether breakpoints.md is driving it, and the current panels.",
        Tool::GetBreakpointSources => "Where each active viewport came from: file, line, confidence and how many files use it. Use this to find the config line to edit.",
        Tool::GetScanLog => "Structured log of the last scan: which detectors ran, what was skipped, and every parse failure with the reason.",
        Tool::GenerateProjectConfig => "Turn the last scan into a viewport set without writing anything.",
        Tool::WriteProjectFile => "Write breakpoints.md into the project root and reload the panels from it. Prose already in the file is preserved.",
        Tool::ListProfiles => "Saved viewport sets.",
        Tool::LoadProfile => "Switch to a saved viewport set.",
        Tool::AuditAll => "For every panel: capture console errors and run layout probes for overflow, overlap, small type, upscaled images, tap targets and viewport-hungry fixed elements. Returns one report ranked by severity. Run it again after a fix.",
        Tool::AttachReference => "Bind a Figma node URL or a local image under .breakpoints/refs/ to a viewport, and write it into breakpoints.md so the mapping commits with the repo.",
        Tool::GetReferences => "Which reference frame belongs to which panel.",
        Tool::DiffPanel => "Screenshot a panel, compare it to its local reference image, and return a difference image and a rough figure. The figure is a pointer, not a verdict.",
        Tool::TakeReports => "Problems a person marked in a panel by pointing at an element and describing what is wrong, each with the breakpoint width it happened at. This empties the list, so what comes back is only what has not been handled yet. Call it when asked about reported problems, notes, or what is broken.",
    }
}

pub open spec fn takes(name: Seq<char>, shape: Shape, description: Seq<char>) -> Described {
    Described { name, shape, description: Some(description) }
}

pub open spec fn takes_bare(name: Seq<char>, shape: Shape) -> Described {
    Described { name, shape, description: None }
}

pub open spec fn which_panel() -> Described {
    takes("panel"@, Shape::Text, WHICH_PANEL@)
}

/// The arguments a tool takes.
pub open spec fn properties(t: Tool) -> Seq<Described> {
    match t {
        Tool::Navigate => seq![
            takes("url"@, Shape::Text, "The URL to load. A bare host becomes https."@),
        ],
        Tool::EvalJs => seq![
            which_panel(),
            takes("script"@, Shape::Text, "JavaScript to run. Use return to send a value back."@),
        ],
        Tool::GetConsole => seq![
            which_panel(),
        ],
        Tool::GetDom => seq![
            which_panel(),
            takes("selector"@, Shape::Text, "A CSS selector."@),
            takes_bare("maxChars"@, Shape::Number),
        ],
        Tool::SetViewport => seq![
            which_panel(),
            takes_bare("width"@, Shape::Number),
            takes_bare("height"@, Shape::Number),
        ],
        Tool::ScreenshotPanel => seq![
            which_panel(),
            takes("fullPage"@, Shape::Flag, "Capture the whole scroll height rather than what is on screen, by walking the page a screenful at a time and stitching. Sticky headers are hidden after the first screenful so they do not repeat. Slower, and a page that grows as you scroll stops after twenty screenfuls."@),
        ],
        Tool::DetectProject => seq![
            takes("path"@, Shape::Text, "Absolute path to the project folder."@),
            takes("apply"@, Shape::Flag, "Open the recommended panels. Defaults to true."@),
        ],
        Tool::WriteProjectFile => seq![
            takes("viewports"@, Shape::List, "Optional. Defaults to the panels currently open."@),
        ],
        Tool::LoadProfile => seq![
            takes("id"@, Shape::Text, "Profile id from list_profiles."@),
        ],
        Tool::AttachReference => seq![
            which_panel(),
            takes("reference"@, Shape::Text, "figma:FILE?node-id=1-2, or a repo-relative image path."@),
        ],
        Tool::DiffPanel => seq![
            which_panel(),
        ],
        _ => Seq::empty(),
    }
}

/// The arguments a tool has to be given.
pub open spec fn needs(t: Tool) -> Seq<Seq<char>> {
    match t {
        Tool::Navigate => seq!["url"@],
        Tool::EvalJs => seq!["panel"@, "script"@],
        Tool::GetConsole => seq!["panel"@],
        Tool::GetDom => seq!["panel"@, "selector"@],
        Tool::SetViewport => seq!["panel"@],
        Tool::ScreenshotPanel => seq!["panel"@],
        Tool::DetectProject => seq!["path"@],
        Tool::LoadProfile => seq!["id"@],
        Tool::AttachReference => seq!["panel"@, "reference"@],
        Tool::DiffPanel => seq!["panel"@],
        _ => Seq::empty(),
    }
}

pub open spec fn definition(t: Tool) -> Advertised {
    Advertised {
        name: tool_name(t),
        description: purpose(t),
        properties: properties(t),
        required: needs(t),
    }
}

fn property(name: &str, shape: Shape, description: &str) -> (r: Property)
    ensures
        r@ == takes(name@, shape, description@),
{
    Property { name: name.to_owned(), shape, description: Some(description.to_owned()) }
}

fn bare_property(name: &str, shape: Shape) -> (r: Property)
    ensures
        r@ == takes_bare(name@, shape),
{
    Property { name: name.to_owned(), shape, description: None }
}

fn panel_property() -> (r: Property)
    ensures
        r@ == which_panel(),
{
    property("panel", Shape::Text, WHICH_PANEL)
}

fn properties_of(t: Tool) -> (r: Vec<Property>)
    ensures
        described(r@) == properties(t),
{
    let mut out: Vec<Property> = Vec::new();
    match t {
        Tool::Navigate => {
            out.push(property("url", Shape::Text, "The URL to load. A bare host becomes https."));
        },
        Tool::EvalJs => {
            out.push(panel_property());
            out.push(property("script", Shape::Text, "JavaScript to run. Use return to send a value back."));
        },
        Tool::GetConsole => {
            out.push(panel_property());
        },
        Tool::GetDom => {
            out.push(panel_property());
            out.push(property("selector", Shape::Text, "A CSS selector."));
            out.push(bare_property("maxChars", Shape::Number));
        },
        Tool::SetViewport => {
            out.push(panel_property());
            out.push(bare_property("width", Shape::Number));
            out.push(bare_property("height", Shape::Number));
        },
        Tool::ScreenshotPanel => {
            out.push(panel_property());
            out.push(property("fullPage", Shape::Flag, "Capture the whole scroll height rather than what is on screen, by walking the page a screenful at a time and stitching. Sticky headers are hidden after the first screenful so they do not repeat. Slower, and a page that grows as you scroll stops after twenty screenfuls."));
        },
        Tool::DetectProject => {
            out.push(property("path", Shape::Text, "Absolute path to the project folder."));
            out.push(property("apply", Shape::Flag, "Open the recommended panels. Defaults to true."));
        },
        Tool::WriteProjectFile => {
            out.push(property("viewports", Shape::List, "Optional. Defaults to the panels currently open."));
        },
        Tool::LoadProfile => {
            out.push(property("id", Shape::Text, "Profile id from list_profiles."));
        },
        Tool::AttachReference => {
            out.push(panel_property());
            out.push(property("reference", Shape::Text, "figma:FILE?node-id=1-2, or a repo-relative image path."));
        },
        Tool::DiffPanel => {
            out.push(panel_property());
        },
        _ => {},
    }
    assert(described(out@) =~= properties(t));
    out
}

fn needs_of(t: Tool) -> (r: Vec<String>)
    ensures
        texts(r@) == needs(t),
{
    let mut out: Vec<String> = Vec::new();
    match t {
        Tool::Navigate => {
            out.push("url".to_owned());
        },
        Tool::EvalJs => {
            out.push("panel".to_owned());
            out.push("script".to_owned());
        },
        Tool::GetConsole => {
            out.push("panel".to_owned());
        },
        Tool::GetDom => {
            out.push("panel".to_owned());
            out.push("selector".to_owned());
        },
        Tool::SetViewport => {
            out.push("panel".to_owned());
        },
        Tool::ScreenshotPanel => {
            out.push("panel".to_owned());
        },
        Tool::DetectProject => {
            out.push("path".to_owned());
        },
        Tool::LoadProfile => {
            out.push("id".to_owned());
        },
        Tool::AttachReference => {
            out.push("panel".to_owned());
            out.push("reference".to_owned());
        },
        Tool::DiffPanel => {
            out.push("panel".to_owned());
        },
        _ => {},
    }
    assert(texts(out@) =~= needs(t));
    out
}

/// How every tool is advertised.
pub fn tool_definitions() -> (r: Vec<Definition>)
    ensures
        definitions(r@) == advertised().map_values(|t: Tool| definition(t)),
{
    let mut all = Tool::all();
    all.truncate(21);
    all.push(Tool::TakeReports);
    all.push(Tool::DiffPanel);
    assert(all@ =~= advertised());
    let ghost want = advertised().map_values(|t: Tool| definition(t));
    let mut out: Vec<Definition> = Vec::new();
    let mut i: usize = 0;
    assert(definitions(out@) =~= want.take(0));
    while i < all.len()
        invariant
            i <= all@.len(),
            all@ == advertised(),
            want == advertised().map_values(|t: Tool| definition(t)),
            definitions(out@) == want.take(i as int),
        decreases all@.len() - i,
    {
        let ghost before = definitions(out@);
        let t = all[i];
        let d = Definition {
            name: t.name().to_owned(),
            description: purpose_of(t).to_owned(),
            properties: properties_of(t),
            required: needs_of(t),
        };
        let ghost dv = d@;
        out.push(d);
        assert(dv == want[i as int]);
        assert(definitions(out@) =~= before.push(dv));
        assert(want.take(i + 1) =~= want.take(i as int).push(want[i as int]));
        i += 1;
    }
    assert(want.take(want.len() as int) =~= want);
    out
}

/// No two tools share a name, and every name that is answered is a tool's.
pub proof fn a_tool_is_named_once(t: Tool, name: Seq<char>)
    ensures
        tool_named(tool_name(t)) == Some(t),
        tool_named(name) matches Some(x) ==> tool_name(x) == name,
{
    reveal_strlit("list_panels");
    reveal_strlit("navigate");
    reveal_strlit("reload");
    reveal_strlit("eval_js");
    reveal_strlit("get_console");
    reveal_strlit("get_dom");
    reveal_strlit("set_viewport");
    reveal_strlit("screenshot_panel");
    reveal_strlit("screenshot_all");
    reveal_strlit("detect_project");
    reveal_strlit("scan_breakpoints");
    reveal_strlit("get_project_info");
    reveal_strlit("get_breakpoint_sources");
    reveal_strlit("get_scan_log");
    reveal_strlit("generate_project_config");
    reveal_strlit("write_project_file");
    reveal_strlit("list_profiles");
    reveal_strlit("load_profile");
    reveal_strlit("audit_all");
    reveal_strlit("attach_reference");
    reveal_strlit("get_references");
    reveal_strlit("diff_panel");
    reveal_strlit("take_reports");
    assert("list_panels"@[0] != "get_console"@[0]);
    assert("eval_js"@[0] != "get_dom"@[0]);
    assert("set_viewport"@[0] != "get_scan_log"@[0]);
    assert("set_viewport"@[0] != "load_profile"@[0]);
    assert("set_viewport"@[0] != "take_reports"@[0]);
    assert("screenshot_panel"@[2] != "scan_breakpoints"@[2]);
    assert("screenshot_panel"@[0] != "get_project_info"@[0]);
    assert("screenshot_panel"@[0] != "attach_reference"@[0]);
    assert("screenshot_all"@[0] != "detect_project"@[0]);
    assert("screenshot_all"@[0] != "get_references"@[0]);
    assert("detect_project"@[0] != "get_references"@[0]);
    assert("scan_breakpoints"@[0] != "get_project_info"@[0]);
    assert("scan_breakpoints"@[0] != "attach_reference"@[0]);
    assert("get_project_info"@[0] != "attach_reference"@[0]);
    assert("get_scan_log"@[0] != "load_profile"@[0]);
    assert("get_scan_log"@[0] != "take_reports"@[0]);
    assert("load_profile"@[0] != "take_reports"@[0]);
    assert("list_panels"@.len() == 11);
    assert("navigate"@.len() == 8);
    assert("reload"@.len() == 6);
    assert("eval_js"@.len() == 7);
    assert("get_console"@.len() == 11);
    assert("get_dom"@.len() == 7);
    assert("set_viewport"@.len() == 12);
    assert("screenshot_panel"@.len() == 16);
    assert("screenshot_all"@.len() == 14);
    assert("detect_project"@.len() == 14);
    assert("scan_breakpoints"@.len() == 16);
    assert("get_project_info"@.len() == 16);
    assert("get_breakpoint_sources"@.len() == 22);
    assert("get_scan_log"@.len() == 12);
    assert("generate_project_config"@.len() == 23);
    assert("write_project_file"@.len() == 18);
    assert("list_profiles"@.len() == 13);
    assert("load_profile"@.len() == 12);
    assert("audit_all"@.len() == 9);
    assert("attach_reference"@.len() == 16);
    assert("get_references"@.len() == 14);
    assert("diff_panel"@.len() == 10);
    assert("take_reports"@.len() == 12);
    match t {
        Tool::ListPanels => assert(tool_named("list_panels"@) == Some(t)),
        Tool::Navigate => assert(tool_named("navigate"@) == Some(t)),
        Tool::Reload => assert(tool_named("reload"@) == Some(t)),
        Tool::EvalJs => assert(tool_named("eval_js"@) == Some(t)),
        Tool::GetConsole => assert(tool_named("get_console"@) == Some(t)),
        Tool::GetDom => assert(tool_named("get_dom"@) == Some(t)),
        Tool::SetViewport => assert(tool_named("set_viewport"@) == Some(t)),
        Tool::ScreenshotPanel => assert(tool_named("screenshot_panel"@) == Some(t)),
        Tool::ScreenshotAll => assert(tool_named("screenshot_all"@) == Some(t)),
        Tool::DetectProject => assert(tool_named("detect_project"@) == Some(t)),
        Tool::ScanBreakpoints => assert(tool_named("scan_breakpoints"@) == Some(t)),
        Tool::GetProjectInfo => assert(tool_named("get_project_info"@) == Some(t)),
        Tool::GetBreakpointSources => assert(tool_named("get_breakpoint_sources"@) == Some(t)),
        Tool::GetScanLog => assert(tool_named("get_scan_log"@) == Some(t)),
        Tool::GenerateProjectConfig => assert(tool_named("generate_project_config"@) == Some(t)),
        Tool::WriteProjectFile => assert(tool_named("write_project_file"@) == Some(t)),
        Tool::ListProfiles => assert(tool_named("list_profiles"@) == Some(t)),
        Tool::LoadProfile => assert(tool_named("load_profile"@) == Some(t)),
        Tool::AuditAll => assert(tool_named("audit_all"@) == Some(t)),
        Tool::AttachReference => assert(tool_named("attach_reference"@) == Some(t)),
        Tool::GetReferences => assert(tool_named("get_references"@) == Some(t)),
        Tool::DiffPanel => assert(tool_named("diff_panel"@) == Some(t)),
        Tool::TakeReports => assert(tool_named("take_reports"@) == Some(t)),
    }
}

/// Every tool is both answered and advertised.
pub proof fn every_tool_is_listed(t: Tool)
    ensures
        all_tools().contains(t),
        advertised().map_values(|t: Tool| definition(t)).contains(definition(t)),
{
    let all = all_tools();
    let ds = advertised().map_values(|t: Tool| definition(t));
    let i = match t {
        Tool::ListPanels => 0int,
        Tool::Navigate => 1int,
        Tool::Reload => 2int,
        Tool::EvalJs => 3int,
        Tool::GetConsole => 4int,
        Tool::GetDom => 5int,
        Tool::SetViewport => 6int,
        Tool::ScreenshotPanel => 7int,
        Tool::ScreenshotAll => 8int,
        Tool::DetectProject => 9int,
        Tool::ScanBreakpoints => 10int,
        Tool::GetProjectInfo => 11int,
        Tool::GetBreakpointSources => 12int,
        Tool::GetScanLog => 13int,
        Tool::GenerateProjectConfig => 14int,
        Tool::WriteProjectFile => 15int,
        Tool::ListProfiles => 16int,
        Tool::LoadProfile => 17int,
        Tool::AuditAll => 18int,
        Tool::AttachReference => 19int,
        Tool::GetReferences => 20int,
        Tool::DiffPanel => 21int,
        Tool::TakeReports => 22int,
    };
    let j = match t {
        Tool::DiffPanel => 22int,
        Tool::TakeReports => 21int,
        _ => i,
    };
    assert(all[i] == t);
    assert(advertised()[j] == t);
    assert(ds[j] == definition(t));
}

pub open spec fn describes(s: Seq<Described>, name: Seq<char>) -> bool {
    exists|i: int| 0 <= i < s.len() && (#[trigger] s[i]).name == name
}

/// Every argument that a tool has to be given is one it describes.
pub proof fn what_is_needed_is_described(t: Tool, i: int)
    requires
        0 <= i < needs(t).len(),
    ensures
        describes(properties(t), needs(t)[i]),
{
    let p = properties(t);
    if i == 0 {
        assert(p[0].name == needs(t)[0]);
    } else {
        assert(i == 1);
        assert(p[1].name == needs(t)[1]);
    }
}

} // verus!
