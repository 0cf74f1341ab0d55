//! Opening a panel's URL in a real browser, at that panel's width.
//!
//! A panel is always the platform's own engine, and no other browser's tools
//! can attach to it. What can be done is to hand the page to the browser you
//! actually want, at the width you were looking at, and let you use that
//! browser's own tools.

use vstd::prelude::*;
use vstd::string::StringExecFns;
use crate::scanner::walk::{join_path, joined_path};
use crate::state::{pixels_string, pixels_text};
use crate::text::{same, texts, trim_str, trimmed};

verus! {

/// A browser that can be opened.
///
/// Kept by its id rather than by path, so the config stays readable and a
/// browser that gets moved or reinstalled still resolves.
#[derive(Debug, Clone, Copy, PartialEq, Eq, Structural)]
pub enum Browser {
    Chrome,
    Brave,
    Edge,
    Firefox,
    Safari,
}

pub open spec fn all_browsers() -> Seq<Browser> {
    seq![Browser::Chrome, Browser::Brave, Browser::Edge, Browser::Firefox, Browser::Safari]
}

pub open spec fn browser_app(b: Browser) -> Seq<char> {
    match b {
        Browser::Chrome => "Google Chrome"@,
        Browser::Brave => "Brave Browser"@,
        Browser::Edge => "Microsoft Edge"@,
        Browser::Firefox => "Firefox"@,
        Browser::Safari => "Safari"@,
    }
}

pub open spec fn browser_id(b: Browser) -> Seq<char> {
    match b {
        Browser::Chrome => "chrome"@,
        Browser::Brave => "brave"@,
        Browser::Edge => "edge"@,
        Browser::Firefox => "firefox"@,
        Browser::Safari => "safari"@,
    }
}

pub open spec fn browser_named(id: Seq<char>) -> Option<Browser> {
    if id == "chrome"@ {
        Some(Browser::Chrome)
    } else if id == "brave"@ {
        Some(Browser::Brave)
    } else if id == "edge"@ {
        Some(Browser::Edge)
    } else if id == "firefox"@ {
        Some(Browser::Firefox)
    } else if id == "safari"@ {
        Some(Browser::Safari)
    } else {
        None
    }
}

pub open spec fn chromium(b: Browser) -> bool {
    b is Chrome || b is Brave || b is Edge
}

impl Browser {
    /// Every browser, in a fixed order so the settings list does not reshuffle
    /// itself between launches.
    pub fn all() -> (r: Vec<Browser>)
        ensures
            r@ == all_browsers(),
    {
        let r = vec![
            Browser::Chrome,
            Browser::Brave,
            Browser::Edge,
            Browser::Firefox,
            Browser::Safari,
        ];
        assert(r@ =~= all_browsers());
        r
    }

    /// The application's name, which is also its folder in /Applications.
    pub fn app_name(self) -> (r: &'static str)
        ensures
            r@ == browser_app(self),
    {
        match self {
            Browser::Chrome => "Google Chrome",
            Browser::Brave => "Brave Browser",
            Browser::Edge => "Microsoft Edge",
            Browser::Firefox => "Firefox",
            Browser::Safari => "Safari",
        }
    }

    pub fn id(self) -> (r: &'static str)
        ensures
            r@ == browser_id(self),
    {
        match self {
            Browser::Chrome => "chrome",
            Browser::Brave => "brave",
            Browser::Edge => "edge",
            Browser::Firefox => "firefox",
            Browser::Safari => "safari",
        }
    }

    pub fn from_id(id: &str) -> (r: Option<Browser>)
        ensures
            r == browser_named(id@),
    {
        if same(id, "chrome") {
            Some(Browser::Chrome)
        } else if same(id, "brave") {
            Some(Browser::Brave)
        } else if same(id, "edge") {
            Some(Browser::Edge)
        } else if same(id, "firefox") {
            Some(Browser::Firefox)
        } else if same(id, "safari") {
            Some(Browser::Safari)
        } else {
            None
        }
    }

    /// Where it is when it is on this machine. The settings list shows only
    /// what is there, because offering a browser that is not installed produces
    /// a failure at the moment of use rather than at the moment of choosing.
    pub fn app_path(self) -> (r: String)
        ensures
            r@ == "/Applications/"@ + browser_app(self) + ".app"@,
    {
        let mut out = "/Applications/".to_owned();
        out.append(self.app_name());
        out.append(".app");
        out
    }

    /// Chromium-family browsers take the same flags, because they are the same
    /// browser with different paint.
    pub fn is_chromium(self) -> (r: bool)
        ensures
            r == chromium(self),
    {
        match self {
            Browser::Chrome => true,
            Browser::Brave => true,
            Browser::Edge => true,
            _ => false,
        }
    }

    /// Can this browser be told what size to open at?
    ///
    /// Safari cannot. It has no command line at all beyond a URL, so it opens
    /// wherever it last was and the width has to be set by hand. Worth saying
    /// out loud rather than letting someone measure a Safari window and trust
    /// it.
    pub fn can_size(self) -> (r: bool)
        ensures
            r == !(self is Safari),
    {
        match self {
            Browser::Safari => false,
            _ => true,
        }
    }
}

/// The arguments for one browser at one size.
///
/// `--app` drops the tab strip and the toolbar, so the width asked for is the
/// width the page gets. A separate profile directory is what makes
/// `--window-size` work at all: an already-running Chrome ignores it.
pub open spec fn arguments(
    browser: Browser,
    url: Seq<char>,
    width: i64,
    height: i64,
    profile: Seq<char>,
) -> Seq<Seq<char>> {
    if chromium(browser) {
        seq![
            "--app="@ + url,
            "--window-size="@ + pixels_text(width as int) + ","@ + pixels_text(height as int),
            "--user-data-dir="@ + profile,
            "--no-first-run"@,
            "--no-default-browser-check"@,
        ]
    } else if browser is Firefox {
        seq![
            "-new-window"@,
            url,
            "-width"@,
            pixels_text(width as int),
            "-height"@,
            pixels_text(height as int),
        ]
    } else {
        seq![url]
    }
}

/// Build the argument list for one browser at one size. Measurements are
/// rounded, not cut off: opening one pixel below a breakpoint is the failure
/// this exists to prevent.
pub fn args_for(browser: Browser, url: &str, width: i64, height: i64, profile: &str) -> (r: Vec<
    String,
>)
    ensures
        texts(r@) == arguments(browser, url@, width, height, profile@),
{
    let w = pixels_string(width);
    let h = pixels_string(height);
    let mut out: Vec<String> = Vec::new();
    if browser.is_chromium() {
        let mut app = "--app=".to_owned();
        app.append(url);
        let mut size = "--window-size=".to_owned();
        size.append(w.as_str());
        size.append(",");
        size.append(h.as_str());
        let mut dir = "--user-data-dir=".to_owned();
        dir.append(profile);
        out.push(app);
        out.push(size);
        out.push(dir);
        out.push("--no-first-run".to_owned());
        out.push("--no-default-browser-check".to_owned());
    } else if browser == Browser::Firefox {
        out.push("-new-window".to_owned());
        out.push(url.to_owned());
        out.push("-width".to_owned());
        out.push(w);
        out.push("-height".to_owned());
        out.push(h);
    } else {
        out.push(url.to_owned());
    }
    assert(texts(out@) =~= arguments(browser, url@, width, height, profile@));
    out
}

/// What is said of a panel that has nowhere to open.
pub const NO_URL: &'static str = "that panel has no URL yet";

/// How an application is started.
///
/// A new instance is what carries the sizing flags. Safari gets neither: there
/// is nothing to size, so reusing the running copy is friendlier than starting
/// a second one.
pub open spec fn command_line(
    browser: Browser,
    url: Seq<char>,
    width: i64,
    height: i64,
    profile: Seq<char>,
) -> Seq<Seq<char>> {
    if browser is Safari {
        seq!["-a"@, browser_app(browser), url]
    } else {
        seq!["-n"@, "-a"@, browser_app(browser), "--args"@] + arguments(
            browser,
            url,
            width,
            height,
            profile,
        )
    }
}

/// Where a Chromium profile is kept under `root`. One directory per browser, so
/// switching between Chrome and Brave does not make each one rebuild the
/// other's profile on every launch.
pub open spec fn profile_path(root: Seq<char>, browser: Browser) -> Seq<char> {
    joined_path(root, browser_id(browser))
}

pub fn profile_dir(root: &str, browser: Browser) -> (r: String)
    ensures
        r@ == profile_path(root@, browser),
{
    join_path(root, browser.id())
}

/// What to hand to the system to open one URL in one browser at one size, with
/// its profile kept under `profile_root`. An empty URL is refused.
pub fn open(
    browser: Browser,
    url: &str,
    width: i64,
    height: i64,
    profile_root: &str,
) -> (r: Result<Vec<String>, String>)
    ensures
        if trimmed(url@).len() == 0 {
            r matches Err(e) && e@ == NO_URL@
        } else {
            r matches Ok(v) && texts(v@) == command_line(
                browser,
                url@,
                width,
                height,
                profile_path(profile_root@, browser),
            )
        },
{
    if trim_str(url).as_str().is_empty() {
        return Err(NO_URL.to_owned());
    }
    let profile = profile_dir(profile_root, browser);
    let mut args = args_for(browser, url, width, height, profile.as_str());
    let ghost given = texts(args@);
    let mut out: Vec<String> = Vec::new();
    if browser.can_size() {
        out.push("-n".to_owned());
    }
    out.push("-a".to_owned());
    out.push(browser.app_name().to_owned());
    if browser == Browser::Safari {
        out.push(url.to_owned());
    } else {
        out.push("--args".to_owned());
        out.append(&mut args);
    }
    assert(texts(out@) =~= command_line(
        browser,
        url@,
        width,
        height,
        profile_path(profile_root@, browser),
    ));
    Ok(out)
}

/// A browser's id names that browser and no other, and every id that names one
/// is its id.
pub proof fn a_browser_is_named_by_its_id(b: Browser, id: Seq<char>)
    ensures
        browser_named(browser_id(b)) == Some(b),
        browser_named(id) matches Some(x) ==> browser_id(x) == id,
        all_browsers().contains(b),
{
    reveal_strlit("chrome");
    reveal_strlit("brave");
    reveal_strlit("edge");
    reveal_strlit("firefox");
    reveal_strlit("safari");
    assert("brave"@[0] == 'b' && "edge"@[0] == 'e' && "firefox"@[0] == 'f' && "safari"@[0] == 's'
        && "chrome"@[0] == 'c');
    let all = all_browsers();
    assert(all[0] is Chrome && all[1] is Brave && all[2] is Edge && all[3] is Firefox
        && all[4] is Safari);
    match b {
        Browser::Chrome => assert(all[0] == b),
        Browser::Brave => assert(all[1] == b),
        Browser::Edge => assert(all[2] == b),
        Browser::Firefox => assert(all[3] == b),
        Browser::Safari => assert(all[4] == b),
    }
}

/// Every Chromium-family browser takes the same flags.
pub proof fn chromium_browsers_take_the_same_flags(
    a: Browser,
    b: Browser,
    url: Seq<char>,
    width: i64,
    height: i64,
    profile: Seq<char>,
)
    requires
        chromium(a),
        chromium(b),
    ensures
        arguments(a, url, width, height, profile) == arguments(b, url, width, height, profile),
{
}

/// Each browser is opened by the name its application has, a separate copy of it
/// except in Safari, which takes only an address.
pub proof fn a_browser_is_opened_by_its_application(
    b: Browser,
    url: Seq<char>,
    width: i64,
    height: i64,
    profile: Seq<char>,
)
    ensures
        ({
            let c = command_line(b, url, width, height, profile);
            let app = match b {
                Browser::Chrome => "Google Chrome"@,
                Browser::Brave => "Brave Browser"@,
                Browser::Edge => "Microsoft Edge"@,
                Browser::Firefox => "Firefox"@,
                Browser::Safari => "Safari"@,
            };
            &&& b is Safari ==> c == seq!["-a"@, app, url]
            &&& !(b is Safari) ==> c.take(4) == seq!["-n"@, "-a"@, app, "--args"@] && c.skip(4)
                == arguments(b, url, width, height, profile)
        }),
{
    if !(b is Safari) {
        let c = command_line(b, url, width, height, profile);
        assert(c.skip(4) =~= arguments(b, url, width, height, profile));
    }
}

/// A window is asked for at the panel's own size and address, in a profile of
/// its own where the browser has such.
pub proof fn a_window_is_asked_for_at_the_panels_size(
    b: Browser,
    url: Seq<char>,
    width: i64,
    height: i64,
    profile: Seq<char>,
)
    ensures
        b is Chrome || b is Brave || b is Edge ==> {
            let a = arguments(b, url, width, height, profile);
            &&& a[0] == "--app="@ + url
            &&& a[1] == "--window-size="@ + pixels_text(width as int) + ","@ + pixels_text(
                height as int,
            )
            &&& a[2] == "--user-data-dir="@ + profile
            &&& a.len() == 5
        },
        b is Firefox ==> {
            let a = arguments(b, url, width, height, profile);
            &&& a[1] == url
            &&& a[2] == "-width"@ && a[3] == pixels_text(width as int)
            &&& a[4] == "-height"@ && a[5] == pixels_text(height as int)
            &&& a[0] == "-new-window"@ && a.len() == 6
        },
{
}

/// Two browsers do not share a profile.
pub proof fn each_browser_has_its_own_profile(root: Seq<char>, a: Browser, b: Browser)
    ensures
        profile_path(root, a) == joined_path(root, browser_id(a)),
        browser_id(a) == browser_id(b) ==> a == b,
{
    a_browser_is_named_by_its_id(a, browser_id(a));
    a_browser_is_named_by_its_id(b, browser_id(b));
}

} // verus!
