//! The agent bridge: what an agent may ask, and what its request says.
//!
//! This is a server that runs JavaScript in whatever page you have loaded and
//! reads files out of your project, so it is off by default and can require a
//! token. Both of its transports are thin wrappers over one reading of a
//! request.

pub mod definitions;

use vstd::prelude::*;
use vstd::string::StringExecFns;
use crate::model::{clone_viewports, viewports, AppConfig, Viewport};
use crate::project::{address_of, file_view, url_to_open, ProjectOpened};
use crate::table::{find_in, keyed, lookup};
use crate::text::{
    begins, chars_of, check_at, clone_opt, opt_view, same, slice_string, trim_str, trimmed,
};
use crate::tools::offered_viewports;
use definitions::{tool_named, Tool};

verus! {

pub const PORT: u16 = 7333;

pub const URL: &'static str = "http://127.0.0.1:7333";

pub const MCP_URL: &'static str = "http://127.0.0.1:7333/mcp";

#[derive(Debug)]
pub struct Status {
    pub enabled: bool,
    pub url: String,
    pub mcp_url: String,
    pub token: Option<String>,
    /// True while an agent request is in flight, which is what makes the
    /// toolbar dot pulse rather than sit still.
    pub active: bool,
}

pub fn status(config: &AppConfig, active: bool) -> (r: Status)
    ensures
        r.enabled == config.agent_bridge,
        r.url@ == URL@,
        r.mcp_url@ == MCP_URL@,
        opt_view(r.token) == opt_view(config.bridge_token),
        r.active == active,
{
    Status {
        enabled: config.agent_bridge,
        url: URL.to_owned(),
        mcp_url: MCP_URL.to_owned(),
        token: clone_opt(&config.bridge_token),
        active,
    }
}

/// What switching the bridge on or off takes.
#[derive(Debug, Clone, Copy, PartialEq, Eq, Structural)]
pub enum Switch {
    /// Stop the server, if it is running.
    Stop,
    /// It is running already.
    Keep,
    /// Start listening.
    Listen,
}

/// Switch the bridge on or off. A bridge that never had a token gets `fresh`;
/// one that has keeps it, so that an agent set up once stays set up.
pub fn set_enabled(config: &mut AppConfig, on: bool, running: bool, fresh: String) -> (r: Switch)
    ensures
        r == if !on {
            Switch::Stop
        } else if running {
            Switch::Keep
        } else {
            Switch::Listen
        },
        *final(config) == match r {
            Switch::Stop => AppConfig { agent_bridge: false, ..*old(config) },
            Switch::Keep => *old(config),
            Switch::Listen => AppConfig {
                agent_bridge: true,
                bridge_token: if old(config).bridge_token is None {
                    Some(fresh)
                } else {
                    old(config).bridge_token
                },
                ..*old(config)
            },
        },
{
    if !on {
        config.agent_bridge = false;
        return Switch::Stop;
    }
    if running {
        return Switch::Keep;
    }
    if config.bridge_token.is_none() {
        config.bridge_token = Some(fresh);
    }
    config.agent_bridge = true;
    Switch::Listen
}

/// A header without the words that say how it is meant, however often they
/// stand there.
pub open spec fn past_bearer(s: Seq<char>) -> Seq<char>
    decreases s.len(),
{
    if s.len() >= 7 && begins(s, "Bearer "@) {
        past_bearer(s.skip(7))
    } else {
        s
    }
}

/// Whether a request carries the token. With no token there is nothing to
/// carry.
pub open spec fn carries_token(
    token: Option<Seq<char>>,
    authorization: Option<Seq<char>>,
    own: Option<Seq<char>>,
) -> bool {
    match token {
        None => true,
        Some(t) => (authorization matches Some(a) && trimmed(past_bearer(a)) == t) || own == Some(
            t,
        ),
    }
}

pub open spec fn str_view(s: Option<&str>) -> Option<Seq<char>> {
    match s {
        Some(x) => Some(x@),
        None => None,
    }
}

fn strip_bearer(s: &str) -> (r: String)
    ensures
        r@ == past_bearer(s@),
{
    proof {
        reveal_strlit("Bearer ");
    }
    let chars = chars_of(s);
    let word = chars_of("Bearer ");
    let count: usize = chars.len();
    let mut i: usize = 0;
    assert(s@.skip(0) =~= s@);
    while check_at(chars.as_slice(), word.as_slice(), i)
        invariant
            i <= count,
            count == chars@.len(),
            chars@ == s@,
            word@ == "Bearer "@,
            word@.len() == 7,
            past_bearer(s@) == past_bearer(s@.skip(i as int)),
        decreases chars@.len() - i,
    {
        proof {
            let rest = s@.skip(i as int);
            assert(rest.subrange(0, 7) =~= s@.subrange(i as int, i + 7));
            assert(begins(rest, "Bearer "@));
            assert(rest.skip(7) =~= s@.skip(i + 7));
        }
        i += 7;
    }
    proof {
        let rest = s@.skip(i as int);
        if begins(rest, "Bearer "@) {
            assert(rest.subrange(0, 7) =~= s@.subrange(i as int, i + 7));
        }
        assert(s@.subrange(i as int, s@.len() as int) =~= rest);
    }
    slice_string(chars.as_slice(), i, count)
}

/// Whether a request may be answered, from its two headers.
pub fn authorised(token: Option<&str>, authorization: Option<&str>, own: Option<&str>) -> (r: bool)
    ensures
        r == carries_token(str_view(token), str_view(authorization), str_view(own)),
{
    match token {
        None => true,
        Some(t) => {
            let by_header = match authorization {
                Some(a) => same(trim_str(strip_bearer(a).as_str()).as_str(), t),
                None => false,
            };
            let by_own = match own {
                Some(o) => same(o, t),
                None => false,
            };
            by_header || by_own
        },
    }
}

/// What is said of a request without the token.
pub const BAD_TOKEN: &'static str = "bad or missing token";

/// The methods of the protocol that matter.
#[derive(Debug, Clone, Copy, PartialEq, Eq, Structural)]
pub enum Method {
    Initialize,
    Initialized,
    Ping,
    ListTools,
    CallTool,
}

pub open spec fn method_named(name: Seq<char>) -> Option<Method> {
    if name == "initialize"@ {
        Some(Method::Initialize)
    } else if name == "notifications/initialized"@ {
        Some(Method::Initialized)
    } else if name == "ping"@ {
        Some(Method::Ping)
    } else if name == "tools/list"@ {
        Some(Method::ListTools)
    } else if name == "tools/call"@ {
        Some(Method::CallTool)
    } else {
        None
    }
}

/// What a request asks for, or the code and the words it is refused with.
pub fn method_of(name: &str, authorised: bool) -> (r: Result<Method, (i32, String)>)
    ensures
        if !authorised {
            r matches Err(e) && e.0 == -32001 && e.1@ == BAD_TOKEN@
        } else {
            match method_named(name@) {
                Some(m) => r == Ok::<Method, (i32, String)>(m),
                None => r matches Err(e) && e.0 == -32601 && e.1@ == "no method "@ + name@,
            }
        },
{
    if !authorised {
        return Err((-32001, BAD_TOKEN.to_owned()));
    }
    if same(name, "initialize") {
        Ok(Method::Initialize)
    } else if same(name, "notifications/initialized") {
        Ok(Method::Initialized)
    } else if same(name, "ping") {
        Ok(Method::Ping)
    } else if same(name, "tools/list") {
        Ok(Method::ListTools)
    } else if same(name, "tools/call") {
        Ok(Method::CallTool)
    } else {
        let mut e = "no method ".to_owned();
        e.append(name);
        Err((-32601, e))
    }
}

/// An argument of a request.
#[derive(Debug)]
pub enum Arg {
    Text(String),
    /// A number, as it was written; as a whole number and as a measurement in
    /// millionths, where it is one.
    Number(String, Option<u64>, Option<i64>),
    Flag(bool),
    List,
    Object,
    Null,
}

/// What an argument has to be said to be, when it should have been text.
pub open spec fn described_as(a: Arg) -> Seq<char> {
    match a {
        Arg::Flag(_) => "a boolean"@,
        Arg::List => "a list"@,
        Arg::Object => "an object"@,
        _ => "null"@,
    }
}

/// The text under a name. A panel is an "index or name", so an agent reasonably
/// sends the index as a number, and that is taken as it is written.
pub open spec fn text_in(args: Seq<(Seq<char>, Arg)>, key: Seq<char>) -> Result<
    Seq<char>,
    Seq<char>,
> {
    match lookup(args, key) {
        Some(Arg::Text(t)) => Ok(t@),
        Some(Arg::Number(t, _, _)) => Ok(t@),
        Some(other) => Err(key + " should be text, not "@ + described_as(other)),
        None => Err(key + " is required"@),
    }
}

pub fn string_arg(args: &Vec<(String, Arg)>, key: &str) -> (r: Result<String, String>)
    ensures
        crate::tools::answer_view(r) == text_in(keyed(args@), key@),
{
    match find_in(args, key) {
        None => {
            let mut e = key.to_owned();
            e.append(" is required");
            Err(e)
        },
        Some(i) => match &args[i].1 {
            Arg::Text(t) => Ok(t.as_str().to_owned()),
            Arg::Number(t, _, _) => Ok(t.as_str().to_owned()),
            other => {
                let mut e = key.to_owned();
                e.append(" should be text, not ");
                e.append(
                    match other {
                        Arg::Flag(_) => "a boolean",
                        Arg::List => "a list",
                        Arg::Object => "an object",
                        _ => "null",
                    },
                );
                Err(e)
            },
        },
    }
}

/// The flag under a name, or what it is when it is not given.
pub open spec fn flag_in(args: Seq<(Seq<char>, Arg)>, key: Seq<char>, otherwise: bool) -> bool {
    match lookup(args, key) {
        Some(Arg::Flag(b)) => b,
        _ => otherwise,
    }
}

fn flag_arg(args: &Vec<(String, Arg)>, key: &str, otherwise: bool) -> (r: bool)
    ensures
        r == flag_in(keyed(args@), key@, otherwise),
{
    match find_in(args, key) {
        None => otherwise,
        Some(i) => match &args[i].1 {
            Arg::Flag(b) => *b,
            _ => otherwise,
        },
    }
}

/// The whole number under a name, or what it is when there is none.
pub open spec fn whole_in(args: Seq<(Seq<char>, Arg)>, key: Seq<char>, otherwise: u64) -> u64 {
    match lookup(args, key) {
        Some(Arg::Number(_, Some(n), _)) => n,
        _ => otherwise,
    }
}

fn whole_arg(args: &Vec<(String, Arg)>, key: &str, otherwise: u64) -> (r: u64)
    ensures
        r == whole_in(keyed(args@), key@, otherwise),
{
    match find_in(args, key) {
        None => otherwise,
        Some(i) => match &args[i].1 {
            Arg::Number(_, Some(n), _) => *n,
            _ => otherwise,
        },
    }
}

/// The measurement under a name.
pub open spec fn measure_in(args: Seq<(Seq<char>, Arg)>, key: Seq<char>) -> Option<i64> {
    match lookup(args, key) {
        Some(Arg::Number(_, _, m)) => m,
        _ => None,
    }
}

fn measure_arg(args: &Vec<(String, Arg)>, key: &str) -> (r: Option<i64>)
    ensures
        r == measure_in(keyed(args@), key@),
{
    match find_in(args, key) {
        None => None,
        Some(i) => match &args[i].1 {
            Arg::Number(_, _, m) => *m,
            _ => None,
        },
    }
}

/// How much of an element's markup is given when nobody said.
pub const MOST_MARKUP: u64 = 8000;

/// A request for a tool, read.
#[derive(Debug)]
pub enum Call {
    /// A tool that takes nothing.
    Bare(Tool),
    Navigate { url: String },
    EvalJs { panel: String, script: String },
    GetConsole { panel: String },
    GetDom { panel: String, selector: String, max: u64 },
    SetViewport { panel: String, width: Option<i64>, height: Option<i64> },
    ScreenshotPanel { panel: String, full_page: bool },
    DetectProject { path: String, apply: bool },
    LoadProfile { id: String },
    AttachReference { panel: String, reference: String },
    DiffPanel { panel: String },
}

/// A [`Call`], with its texts as characters.
#[verifier::ext_equal]
pub enum Asked {
    Bare(Tool),
    Navigate(Seq<char>),
    EvalJs(Seq<char>, Seq<char>),
    GetConsole(Seq<char>),
    GetDom(Seq<char>, Seq<char>, u64),
    SetViewport(Seq<char>, Option<i64>, Option<i64>),
    ScreenshotPanel(Seq<char>, bool),
    DetectProject(Seq<char>, bool),
    LoadProfile(Seq<char>),
    AttachReference(Seq<char>, Seq<char>),
    DiffPanel(Seq<char>),
}

impl View for Call {
    type V = Asked;

    open spec fn view(&self) -> Asked {
        match self {
            Call::Bare(t) => Asked::Bare(*t),
            Call::Navigate { url } => Asked::Navigate(url@),
            Call::EvalJs { panel, script } => Asked::EvalJs(panel@, script@),
            Call::GetConsole { panel } => Asked::GetConsole(panel@),
            Call::GetDom { panel, selector, max } => Asked::GetDom(panel@, selector@, *max),
            Call::SetViewport { panel, width, height } => Asked::SetViewport(
                panel@,
                *width,
                *height,
            ),
            Call::ScreenshotPanel { panel, full_page } => Asked::ScreenshotPanel(
                panel@,
                *full_page,
            ),
            Call::DetectProject { path, apply } => Asked::DetectProject(path@, *apply),
            Call::LoadProfile { id } => Asked::LoadProfile(id@),
            Call::AttachReference { panel, reference } => Asked::AttachReference(
                panel@,
                reference@,
            ),
            Call::DiffPanel { panel } => Asked::DiffPanel(panel@),
        }
    }
}

/// What a tool is asked for with these arguments, or which of them is wrong.
pub open spec fn asked_of(t: Tool, args: Seq<(Seq<char>, Arg)>) -> Result<Asked, Seq<char>> {
    let panel = text_in(args, "panel"@);
    match t {
        Tool::Navigate => match text_in(args, "url"@) {
            Ok(u) => Ok(Asked::Navigate(u)),
            Err(e) => Err(e),
        },
        Tool::EvalJs => match panel {
            Err(e) => Err(e),
            Ok(p) => match text_in(args, "script"@) {
                Err(e) => Err(e),
                Ok(s) => Ok(Asked::EvalJs(p, s)),
            },
        },
        Tool::GetConsole => match panel {
            Err(e) => Err(e),
            Ok(p) => Ok(Asked::GetConsole(p)),
        },
        Tool::GetDom => match panel {
            Err(e) => Err(e),
            Ok(p) => match text_in(args, "selector"@) {
                Err(e) => Err(e),
                Ok(s) => Ok(Asked::GetDom(p, s, whole_in(args, "maxChars"@, MOST_MARKUP))),
            },
        },
        Tool::SetViewport => match panel {
            Err(e) => Err(e),
            Ok(p) => Ok(
                Asked::SetViewport(p, measure_in(args, "width"@), measure_in(args, "height"@)),
            ),
        },
        Tool::ScreenshotPanel => match panel {
            Err(e) => Err(e),
            Ok(p) => Ok(Asked::ScreenshotPanel(p, flag_in(args, "fullPage"@, false))),
        },
        Tool::DetectProject => match text_in(args, "path"@) {
            Err(e) => Err(e),
            Ok(p) => Ok(Asked::DetectProject(p, flag_in(args, "apply"@, true))),
        },
        Tool::LoadProfile => match text_in(args, "id"@) {
            Err(e) => Err(e),
            Ok(i) => Ok(Asked::LoadProfile(i)),
        },
        Tool::AttachReference => match panel {
            Err(e) => Err(e),
            Ok(p) => match text_in(args, "reference"@) {
                Err(e) => Err(e),
                Ok(x) => Ok(Asked::AttachReference(p, x)),
            },
        },
        Tool::DiffPanel => match panel {
            Err(e) => Err(e),
            Ok(p) => Ok(Asked::DiffPanel(p)),
        },
        _ => Ok(Asked::Bare(t)),
    }
}

/// What is said of a tool there is not.
pub open spec fn no_tool(name: Seq<char>) -> Seq<char> {
    "no tool called "@ + name + ". GET /tools lists what there is."@
}

pub open spec fn call_view(r: Result<Call, String>) -> Result<Asked, Seq<char>> {
    match r {
        Ok(c) => Ok(c@),
        Err(e) => Err(e@),
    }
}

/// Read a request for a tool. Every tool, in one place: the chrome's commands
/// call the same functions.
pub fn call_tool(tool: &str, args: &Vec<(String, Arg)>) -> (r: Result<Call, String>)
    ensures
        call_view(r) == match tool_named(tool@) {
            Some(t) => asked_of(t, keyed(args@)),
            None => Err(no_tool(tool@)),
        },
{
    let t = match Tool::from_name(tool) {
        Some(t) => t,
        None => {
            let mut e = "no tool called ".to_owned();
            e.append(tool);
            e.append(". GET /tools lists what there is.");
            return Err(e);
        },
    };
    match t {
        Tool::Navigate => {
            let url = match string_arg(args, "url") {
                Ok(x) => x,
                Err(e) => {
                    return Err(e);
                },
            };
            Ok(Call::Navigate { url })
        },
        Tool::EvalJs => {
            let panel = match string_arg(args, "panel") {
                Ok(x) => x,
                Err(e) => {
                    return Err(e);
                },
            };
            let script = match string_arg(args, "script") {
                Ok(x) => x,
                Err(e) => {
                    return Err(e);
                },
            };
            Ok(Call::EvalJs { panel, script })
        },
        Tool::GetConsole => {
            let panel = match string_arg(args, "panel") {
                Ok(x) => x,
                Err(e) => {
                    return Err(e);
                },
            };
            Ok(Call::GetConsole { panel })
        },
        Tool::GetDom => {
            let panel = match string_arg(args, "panel") {
                Ok(x) => x,
                Err(e) => {
                    return Err(e);
                },
            };
            let selector = match string_arg(args, "selector") {
                Ok(x) => x,
                Err(e) => {
                    return Err(e);
                },
            };
            Ok(Call::GetDom { panel, selector, max: whole_arg(args, "maxChars", MOST_MARKUP) })
        },
        Tool::SetViewport => {
            let panel = match string_arg(args, "panel") {
                Ok(x) => x,
                Err(e) => {
                    return Err(e);
                },
            };
            Ok(Call::SetViewport { panel, width: measure_arg(args, "width"), height: measure_arg(args, "height") })
        },
        Tool::ScreenshotPanel => {
            let panel = match string_arg(args, "panel") {
                Ok(x) => x,
                Err(e) => {
                    return Err(e);
                },
            };
            Ok(Call::ScreenshotPanel { panel, full_page: flag_arg(args, "fullPage", false) })
        },
        Tool::DetectProject => {
            let path = match string_arg(args, "path") {
                Ok(x) => x,
                Err(e) => {
                    return Err(e);
                },
            };
            Ok(Call::DetectProject { path, apply: flag_arg(args, "apply", true) })
        },
        Tool::LoadProfile => {
            let id = match string_arg(args, "id") {
                Ok(x) => x,
                Err(e) => {
                    return Err(e);
                },
            };
            Ok(Call::LoadProfile { id })
        },
        Tool::AttachReference => {
            let panel = match string_arg(args, "panel") {
                Ok(x) => x,
                Err(e) => {
                    return Err(e);
                },
            };
            let reference = match string_arg(args, "reference") {
                Ok(x) => x,
                Err(e) => {
                    return Err(e);
                },
            };
            Ok(Call::AttachReference { panel, reference })
        },
        Tool::DiffPanel => {
            let panel = match string_arg(args, "panel") {
                Ok(x) => x,
                Err(e) => {
                    return Err(e);
                },
            };
            Ok(Call::DiffPanel { panel })
        },
        _ => Ok(Call::Bare(t)),
    }
}

/// An address that shows nothing.
pub const BLANK: &'static str = "about:blank";

/// The row and the address a project opens with.
///
/// A project file wins. If the project has no URL of its own, the panels open
/// blank: falling back to whatever the canvas was showing would point a freshly
/// opened project at the previous one's site, which would then be written into
/// its breakpoints.md.
pub fn row_to_apply(opened: &ProjectOpened) -> (r: (Vec<Viewport>, String))
    ensures
        viewports(r.0@) == match file_view(opened.project_file) {
            Some(f) => f.viewports,
            None => offered_viewports(opened.recommendation@.recommended),
        },
        r.1@ == match address_of(file_view(opened.project_file), opt_view(opened.dev_url)) {
            Some(u) => u,
            None => BLANK@,
        },
{
    let url = match url_to_open(&opened.project_file, &opened.dev_url) {
        Some(u) => u,
        None => BLANK.to_owned(),
    };
    let row = match &opened.project_file {
        Some(f) => clone_viewports(&f.viewports),
        None => {
            let ghost want = offered_viewports(opened.recommendation@.recommended);
            let mut out: Vec<Viewport> = Vec::new();
            let mut i: usize = 0;
            assert(viewports(out@) =~= want.take(0));
            while i < opened.recommendation.recommended.len()
                invariant
                    i <= opened.recommendation.recommended@.len(),
                    want == offered_viewports(opened.recommendation@.recommended),
                    want.len() == opened.recommendation.recommended@.len(),
                    viewports(out@) == want.take(i as int),
                decreases opened.recommendation.recommended@.len() - i,
            {
                let ghost before = viewports(out@);
                let v = opened.recommendation.recommended[i].viewport.clone();
                let ghost vv = v@;
                out.push(v);
                proof {
                    assert(opened.recommendation@.recommended[i as int]
                        == opened.recommendation.recommended@[i as int]@);
                    assert(viewports(out@) =~= before.push(vv));
                    assert(want.take(i + 1) =~= want.take(i as int).push(want[i as int]));
                }
                i += 1;
            }
            assert(want.take(want.len() as int) =~= want);
            out
        },
    };
    (row, url)
}

/// What is said of a profile there is not.
pub const NO_PROFILE: &'static str = "no such profile";

/// Switch to a saved viewport set, and give back its row.
pub fn load_profile(config: &mut AppConfig, id: &str) -> (r: Result<Vec<Viewport>, String>)
    ensures
        match lookup(keyed(old(config).profiles@), id@) {
            Some(p) => {
                &&& r matches Ok(v) && viewports(v@) == viewports(p.viewports@)
                &&& final(config).active_profile@ == id@
                &&& *final(config) == (AppConfig {
                    active_profile: final(config).active_profile,
                    ..*old(config)
                })
            },
            None => (r matches Err(e) && e@ == NO_PROFILE@) && *final(config) == *old(config),
        },
{
    match find_in(&config.profiles, id) {
        None => Err(NO_PROFILE.to_owned()),
        Some(i) => {
            let row = clone_viewports(&config.profiles[i].1.viewports);
            config.active_profile = id.to_owned();
            Ok(row)
        },
    }
}

/// A request that may not be answered asks for nothing, whatever it names.
pub proof fn a_wrong_token_opens_nothing(
    token: Seq<char>,
    authorization: Option<Seq<char>>,
    own: Option<Seq<char>>,
)
    requires
        own != Some(token),
        authorization matches Some(a) ==> trimmed(past_bearer(a)) != token,
    ensures
        !carries_token(Some(token), authorization, own),
{
}

/// Whatever a tool is asked for, an argument it has to be given and that is not
/// there is what is complained about first.
pub proof fn a_missing_argument_is_named(t: Tool, args: Seq<(Seq<char>, Arg)>)
    requires
        definitions::needs(t).len() > 0,
        lookup(args, definitions::needs(t)[0]) is None,
    ensures
        asked_of(t, args) == Err::<Asked, Seq<char>>(
            definitions::needs(t)[0] + " is required"@,
        ),
{
}

/// The right token opens the door, in either header, and no token has to be
/// given where none is set.
pub proof fn the_right_token_opens(token: Seq<char>, authorization: Seq<char>)
    requires
        trimmed(token) == token,
        !begins(token, "Bearer "@),
    ensures
        carries_token(Some(token), Some("Bearer "@ + token), None),
        carries_token(Some(token), None, Some(token)),
        carries_token(None, None, None),
        !carries_token(Some(token), None, None),
        authorization != token ==> !carries_token(Some(token), None, Some(authorization)),
{
    reveal_strlit("Bearer ");
    let a = "Bearer "@ + token;
    assert(a.skip(7) =~= token);
    assert(a.subrange(0, 7) =~= "Bearer "@);
    assert(a.take(7) =~= "Bearer "@);
    assert(begins(a, "Bearer "@));
    reveal_with_fuel(past_bearer, 3);
    assert(past_bearer(a) == token);
}

/// The methods that are answered, by name.
pub proof fn a_method_is_named(name: Seq<char>)
    ensures
        method_named("initialize"@) == Some(Method::Initialize),
        method_named("notifications/initialized"@) == Some(Method::Initialized),
        method_named("ping"@) == Some(Method::Ping),
        method_named("tools/list"@) == Some(Method::ListTools),
        method_named("tools/call"@) == Some(Method::CallTool),
        method_named(name) is Some ==> name == "initialize"@ || name
            == "notifications/initialized"@ || name == "ping"@ || name == "tools/list"@ || name
            == "tools/call"@,
{
    reveal_strlit("initialize");
    reveal_strlit("notifications/initialized");
    reveal_strlit("ping");
    reveal_strlit("tools/list");
    reveal_strlit("tools/call");
    assert("initialize"@[0] == 'i' && "notifications/initialized"@[0] == 'n' && "ping"@[0] == 'p'
        && "tools/list"@[6] == 'l' && "tools/call"@[6] == 'c' && "tools/list"@[0] == 't'
        && "tools/call"@[0] == 't');
}

/// An argument that was given is the one used: text as it stands, a number where
/// text was wanted as it was written, and anything else is refused by its key.
pub proof fn an_argument_is_used_as_given(args: Seq<(Seq<char>, Arg)>, key: Seq<char>)
    ensures
        lookup(args, key) matches Some(Arg::Text(t)) ==> text_in(args, key) == Ok::<
            Seq<char>,
            Seq<char>,
        >(t@),
        lookup(args, key) matches Some(Arg::Number(t, n, m)) ==> text_in(args, key) == Ok::<
            Seq<char>,
            Seq<char>,
        >(t@) && measure_in(args, key) == m && (n is Some ==> whole_in(args, key, 0) == n->0
            && whole_in(args, key, 1) == n->0),
        lookup(args, key) matches Some(Arg::Flag(b)) ==> flag_in(args, key, !b) == b && text_in(
            args,
            key,
        ) == Err::<Seq<char>, Seq<char>>(key + " should be text, not a boolean"@),
        lookup(args, key) == Some(Arg::List) ==> text_in(args, key) == Err::<Seq<char>, Seq<char>>(
            key + " should be text, not a list"@,
        ),
        lookup(args, key) == Some(Arg::Object) ==> text_in(args, key) == Err::<
            Seq<char>,
            Seq<char>,
        >(key + " should be text, not an object"@),
        lookup(args, key) == Some(Arg::Null) ==> text_in(args, key) == Err::<Seq<char>, Seq<char>>(
            key + " should be text, not null"@,
        ),
        lookup(args, key) is None ==> text_in(args, key) == Err::<Seq<char>, Seq<char>>(
            key + " is required"@,
        ) && flag_in(args, key, true) && !flag_in(args, key, false) && measure_in(args, key)
            is None,
{
    reveal_strlit(" should be text, not ");
    reveal_strlit(" should be text, not a boolean");
    reveal_strlit(" should be text, not a list");
    reveal_strlit(" should be text, not an object");
    reveal_strlit(" should be text, not null");
    reveal_strlit("a boolean");
    reveal_strlit("a list");
    reveal_strlit("an object");
    reveal_strlit("null");
    assert(key + " should be text, not "@ + "a boolean"@ =~= key
        + " should be text, not a boolean"@);
    assert(key + " should be text, not "@ + "a list"@ =~= key + " should be text, not a list"@);
    assert(key + " should be text, not "@ + "an object"@ =~= key
        + " should be text, not an object"@);
    assert(key + " should be text, not "@ + "null"@ =~= key + " should be text, not null"@);
}

/// A tool is asked with the arguments under its own keys; where an optional one
/// is left out, eight thousand characters of markup, not the full page, and to
/// apply what was detected.
pub proof fn a_tool_is_asked_with_its_arguments(
    args: Seq<(Seq<char>, Arg)>,
    panel: String,
    other: String,
)
    requires
        lookup(args, "panel"@) == Some(Arg::Text(panel)),
    ensures
        asked_of(Tool::GetConsole, args) == Ok::<Asked, Seq<char>>(Asked::GetConsole(panel@)),
        asked_of(Tool::DiffPanel, args) == Ok::<Asked, Seq<char>>(Asked::DiffPanel(panel@)),
        lookup(args, "script"@) == Some(Arg::Text(other)) ==> asked_of(Tool::EvalJs, args) == Ok::<
            Asked,
            Seq<char>,
        >(Asked::EvalJs(panel@, other@)),
        lookup(args, "reference"@) == Some(Arg::Text(other)) ==> asked_of(
            Tool::AttachReference,
            args,
        ) == Ok::<Asked, Seq<char>>(Asked::AttachReference(panel@, other@)),
        lookup(args, "selector"@) == Some(Arg::Text(other)) && lookup(args, "maxChars"@) is None
            ==> asked_of(Tool::GetDom, args) == Ok::<Asked, Seq<char>>(
            Asked::GetDom(panel@, other@, 8000),
        ),
        lookup(args, "fullPage"@) is None ==> asked_of(Tool::ScreenshotPanel, args) == Ok::<
            Asked,
            Seq<char>,
        >(Asked::ScreenshotPanel(panel@, false)),
        lookup(args, "fullPage"@) == Some(Arg::Flag(true)) ==> asked_of(
            Tool::ScreenshotPanel,
            args,
        ) == Ok::<Asked, Seq<char>>(Asked::ScreenshotPanel(panel@, true)),
        lookup(args, "path"@) == Some(Arg::Text(other)) && lookup(args, "apply"@) is None
            ==> asked_of(Tool::DetectProject, args) == Ok::<Asked, Seq<char>>(
            Asked::DetectProject(other@, true),
        ),
        lookup(args, "path"@) == Some(Arg::Text(other)) && lookup(args, "apply"@) == Some(
            Arg::Flag(false),
        ) ==> asked_of(Tool::DetectProject, args) == Ok::<Asked, Seq<char>>(
            Asked::DetectProject(other@, false),
        ),
        lookup(args, "url"@) == Some(Arg::Text(other)) ==> asked_of(Tool::Navigate, args) == Ok::<
            Asked,
            Seq<char>,
        >(Asked::Navigate(other@)),
        lookup(args, "id"@) == Some(Arg::Text(other)) ==> asked_of(Tool::LoadProfile, args)
            == Ok::<Asked, Seq<char>>(Asked::LoadProfile(other@)),
        asked_of(Tool::SetViewport, args) matches Ok(Asked::SetViewport(p, w, h)) && p == panel@
            && w == measure_in(args, "width"@) && h == measure_in(args, "height"@),
{
}

} // verus!
