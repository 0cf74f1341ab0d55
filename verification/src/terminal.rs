//! Starting an agent session that is already connected to this row.
//!
//! The agent is run in the project's folder, in your own terminal. There is no
//! portable way to say "open and run this". Three routes exist and each
//! terminal takes exactly one of them:
//!
//! - Terminal.app runs a shell script handed to it as a document. This always
//!   works, on every Mac, with no permission to grant, which is why it is first
//!   in the list and is what an unset preference picks.
//! - kitty, Alacritty, WezTerm and Ghostty take the command as launch
//!   arguments.
//! - iTerm takes neither. Its only route is AppleScript, which needs automation
//!   permission. It is offered, it is tried with a time limit, and it says
//!   plainly what to do when it does not answer.

use vstd::prelude::*;
use vstd::string::StringExecFns;
use crate::text::{chars_of, same, string_of, texts, trim_str, trimmed};

verus! {

/// How a terminal is told what to run.
#[derive(Debug)]
pub enum Launch {
    /// Hand it the script as a document and it runs it.
    Document,
    /// Launch it with arguments that name the script. These are everything
    /// before the script's path.
    Args(Vec<String>),
    /// Drive it with AppleScript, because it accepts nothing else.
    AppleScript,
}

#[verifier::ext_equal]
pub enum Route {
    Document,
    Args(Seq<Seq<char>>),
    AppleScript,
}

impl View for Launch {
    type V = Route;

    open spec fn view(&self) -> Route {
        match self {
            Launch::Document => Route::Document,
            Launch::Args(v) => Route::Args(texts(v@)),
            Launch::AppleScript => Route::AppleScript,
        }
    }
}

/// A terminal that a command can be started in.
#[derive(Debug, Clone, Copy, PartialEq, Eq, Structural)]
pub enum Terminal {
    Terminal,
    ITerm,
    Ghostty,
    WezTerm,
    Kitty,
    Alacritty,
}

pub open spec fn all_terminals() -> Seq<Terminal> {
    seq![
        Terminal::Terminal,
        Terminal::ITerm,
        Terminal::Ghostty,
        Terminal::WezTerm,
        Terminal::Kitty,
        Terminal::Alacritty,
    ]
}

pub open spec fn terminal_app(t: Terminal) -> Seq<char> {
    match t {
        Terminal::Terminal => "Terminal"@,
        Terminal::ITerm => "iTerm"@,
        Terminal::Ghostty => "Ghostty"@,
        Terminal::WezTerm => "WezTerm"@,
        Terminal::Kitty => "kitty"@,
        Terminal::Alacritty => "Alacritty"@,
    }
}

pub open spec fn terminal_id(t: Terminal) -> Seq<char> {
    match t {
        Terminal::Terminal => "terminal"@,
        Terminal::ITerm => "iterm"@,
        Terminal::Ghostty => "ghostty"@,
        Terminal::WezTerm => "wezterm"@,
        Terminal::Kitty => "kitty"@,
        Terminal::Alacritty => "alacritty"@,
    }
}

pub open spec fn terminal_named(id: Seq<char>) -> Option<Terminal> {
    if id == "terminal"@ {
        Some(Terminal::Terminal)
    } else if id == "iterm"@ {
        Some(Terminal::ITerm)
    } else if id == "ghostty"@ {
        Some(Terminal::Ghostty)
    } else if id == "wezterm"@ {
        Some(Terminal::WezTerm)
    } else if id == "kitty"@ {
        Some(Terminal::Kitty)
    } else if id == "alacritty"@ {
        Some(Terminal::Alacritty)
    } else {
        None
    }
}

/// `-e` is "run this instead of a shell" in two of them, and kitty takes the
/// program as its trailing arguments, with no flag.
pub open spec fn route(t: Terminal) -> Route {
    match t {
        Terminal::Terminal => Route::Document,
        Terminal::ITerm => Route::AppleScript,
        Terminal::Ghostty => Route::Args(seq!["-e"@]),
        Terminal::Alacritty => Route::Args(seq!["-e"@]),
        Terminal::WezTerm => Route::Args(seq!["start"@, "--"@]),
        Terminal::Kitty => Route::Args(Seq::empty()),
    }
}

impl Terminal {
    /// Every terminal, Terminal.app first, because it is the one that is always
    /// installed and always works, so it is the right default for somebody who
    /// has never opened the settings.
    pub fn all() -> (r: Vec<Terminal>)
        ensures
            r@ == all_terminals(),
    {
        let r = vec![
            Terminal::Terminal,
            Terminal::ITerm,
            Terminal::Ghostty,
            Terminal::WezTerm,
            Terminal::Kitty,
            Terminal::Alacritty,
        ];
        assert(r@ =~= all_terminals());
        r
    }

    /// The application's name, which is also the bundle name.
    pub fn app_name(self) -> (r: &'static str)
        ensures
            r@ == terminal_app(self),
    {
        match self {
            Terminal::Terminal => "Terminal",
            Terminal::ITerm => "iTerm",
            Terminal::Ghostty => "Ghostty",
            Terminal::WezTerm => "WezTerm",
            Terminal::Kitty => "kitty",
            Terminal::Alacritty => "Alacritty",
        }
    }

    /// What a person calls it.
    pub fn label(self) -> (r: &'static str)
        ensures
            r@ == terminal_app(self),
    {
        self.app_name()
    }

    pub fn id(self) -> (r: &'static str)
        ensures
            r@ == terminal_id(self),
    {
        match self {
            Terminal::Terminal => "terminal",
            Terminal::ITerm => "iterm",
            Terminal::Ghostty => "ghostty",
            Terminal::WezTerm => "wezterm",
            Terminal::Kitty => "kitty",
            Terminal::Alacritty => "alacritty",
        }
    }

    pub fn from_id(id: &str) -> (r: Option<Terminal>)
        ensures
            r == terminal_named(id@),
    {
        if same(id, "terminal") {
            Some(Terminal::Terminal)
        } else if same(id, "iterm") {
            Some(Terminal::ITerm)
        } else if same(id, "ghostty") {
            Some(Terminal::Ghostty)
        } else if same(id, "wezterm") {
            Some(Terminal::WezTerm)
        } else if same(id, "kitty") {
            Some(Terminal::Kitty)
        } else if same(id, "alacritty") {
            Some(Terminal::Alacritty)
        } else {
            None
        }
    }

    pub fn launch(self) -> (r: Launch)
        ensures
            r@ == route(self),
    {
        let mut before: Vec<String> = Vec::new();
        match self {
            Terminal::Terminal => {
                return Launch::Document;
            },
            Terminal::ITerm => {
                return Launch::AppleScript;
            },
            Terminal::Ghostty => {
                before.push("-e".to_owned());
                assert(texts(before@) =~= seq!["-e"@]);
            },
            Terminal::Alacritty => {
                before.push("-e".to_owned());
                assert(texts(before@) =~= seq!["-e"@]);
            },
            Terminal::WezTerm => {
                before.push("start".to_owned());
                before.push("--".to_owned());
                assert(texts(before@) =~= seq!["start"@, "--"@]);
            },
            Terminal::Kitty => {
                assert(texts(before@) =~= Seq::empty());
            },
        }
        Launch::Args(before)
    }

    /// True when the system will ask to let this app control the terminal the
    /// first time the button is pressed. Said in the settings so a prompt
    /// nobody expected is a prompt somebody was warned about.
    pub fn needs_permission(self) -> (r: bool)
        ensures
            r == (route(self) is AppleScript),
    {
        match self.launch() {
            Launch::AppleScript => true,
            _ => false,
        }
    }
}

/// Where an application can be. Terminal.app lives in a system folder, and a
/// terminal is exactly the kind of thing somebody keeps under their home.
pub open spec fn places_of(name: Seq<char>, home: Option<Seq<char>>) -> Seq<Seq<char>> {
    let file = "/"@ + name + ".app"@;
    let shared = seq![
        "/Applications"@ + file,
        "/System/Applications/Utilities"@ + file,
        "/System/Applications"@ + file,
        "/Applications/Utilities"@ + file,
    ];
    match home {
        Some(h) => shared.push(h + "/Applications"@ + file),
        None => shared,
    }
}

pub fn app_paths(name: &str, home: Option<&str>) -> (r: Vec<String>)
    ensures
        texts(r@) == places_of(
            name@,
            match home {
                Some(h) => Some(h@),
                None => None,
            },
        ),
{
    let mut file = "/".to_owned();
    file.append(name);
    file.append(".app");
    let mut out: Vec<String> = Vec::new();
    let mut a = "/Applications".to_owned();
    a.append(file.as_str());
    let mut b = "/System/Applications/Utilities".to_owned();
    b.append(file.as_str());
    let mut c = "/System/Applications".to_owned();
    c.append(file.as_str());
    let mut d = "/Applications/Utilities".to_owned();
    d.append(file.as_str());
    out.push(a);
    out.push(b);
    out.push(c);
    out.push(d);
    assert(texts(out@) =~= places_of(name@, None));
    if let Some(h) = home {
        let ghost before = texts(out@);
        let mut e = h.to_owned();
        e.append("/Applications");
        e.append(file.as_str());
        out.push(e);
        assert(texts(out@) =~= before.push(e@));
    }
    out
}

/// A character as it stands inside a shell's single quotes.
pub open spec fn shell_char(c: char) -> Seq<char> {
    if c == '\'' {
        seq!['\'', '\\', '\'', '\'']
    } else {
        seq![c]
    }
}

pub open spec fn shell_chars(s: Seq<char>) -> Seq<char>
    decreases s.len(),
{
    if s.len() == 0 {
        s
    } else {
        shell_char(s[0]) + shell_chars(s.skip(1))
    }
}

/// A text as one word of a shell command.
pub open spec fn shell_quoted(s: Seq<char>) -> Seq<char> {
    seq!['\''] + shell_chars(s) + seq!['\'']
}

/// Single quotes, with any single quote inside them escaped the shell's way.
pub fn shell_quote(raw: &str) -> (r: String)
    ensures
        r@ == shell_quoted(raw@),
{
    let chars = chars_of(raw);
    let ghost all = raw@;
    let mut out: Vec<char> = Vec::new();
    out.push('\'');
    let mut i: usize = 0;
    assert(all.skip(0) =~= all);
    assert(out@ + shell_chars(all.skip(0)) =~= seq!['\''] + shell_chars(all));
    while i < chars.len()
        invariant
            i <= chars@.len(),
            all == chars@,
            out@ + shell_chars(all.skip(i as int)) == seq!['\''] + shell_chars(all),
        decreases chars@.len() - i,
    {
        let c = chars[i];
        let ghost before = out@;
        if c == '\'' {
            out.push('\'');
            out.push('\\');
            out.push('\'');
            out.push('\'');
        } else {
            out.push(c);
        }
        proof {
            assert(out@ =~= before + shell_char(c));
            let rest = all.skip(i as int);
            assert(rest[0] == c);
            assert(rest.skip(1) =~= all.skip(i + 1));
            assert(before + (shell_char(c) + shell_chars(rest.skip(1))) =~= out@ + shell_chars(
                all.skip(i + 1),
            ));
        }
        i += 1;
    }
    proof {
        assert(all.skip(all.len() as int) =~= Seq::empty());
        assert(out@ =~= seq!['\''] + shell_chars(all));
    }
    out.push('\'');
    assert(out@ =~= shell_quoted(raw@));
    string_of(out.as_slice())
}

/// What a shell reads a word as that is made of single quotes and escaped
/// characters alone, `inside` the quotes or not. `None` if it does not end
/// where the text does, or anything else stands in it.
pub open spec fn shell_word(s: Seq<char>, inside: bool) -> Option<Seq<char>>
    decreases s.len(),
{
    if s.len() == 0 {
        if inside {
            None
        } else {
            Some(s)
        }
    } else if s[0] == '\'' {
        shell_word(s.skip(1), !inside)
    } else if inside {
        match shell_word(s.skip(1), true) {
            Some(w) => Some(seq![s[0]] + w),
            None => None,
        }
    } else if s[0] == '\\' && s.len() > 1 {
        match shell_word(s.skip(2), false) {
            Some(w) => Some(seq![s[1]] + w),
            None => None,
        }
    } else {
        None
    }
}

proof fn lemma_shell_chars(s: Seq<char>)
    ensures
        shell_word(shell_chars(s) + seq!['\''], true) == Some(s),
    decreases s.len(),
{
    let t = shell_chars(s) + seq!['\''];
    if s.len() == 0 {
        assert(t =~= seq!['\'']);
        assert(t.skip(1) =~= Seq::empty());
        assert(shell_word(t.skip(1), false) == Some(t.skip(1)));
        assert(s =~= t.skip(1));
    } else {
        lemma_shell_chars(s.skip(1));
        let rest = shell_chars(s.skip(1)) + seq!['\''];
        assert(t =~= shell_char(s[0]) + rest);
        if s[0] == '\'' {
            let a = t.skip(1);
            assert(a =~= seq!['\\', '\'', '\''] + rest);
            let b = a.skip(2);
            assert(b =~= seq!['\''] + rest);
            assert(b.skip(1) =~= rest);
            assert(shell_word(b, false) == shell_word(rest, true));
            assert(shell_word(a, false) == Some(seq!['\''] + s.skip(1)));
            assert(shell_word(t, true) == shell_word(a, false));
        } else {
            assert(t[0] == s[0]);
            assert(t.skip(1) =~= rest);
        }
        assert(seq![s[0]] + s.skip(1) =~= s);
    }
}

/// However a folder is named, the shell reads its quoted name as that one word
/// and nothing more: a quote in it is not a way to run something else.
pub proof fn a_quoted_path_is_one_word(s: Seq<char>)
    ensures
        shell_word(shell_quoted(s), false) == Some(s),
{
    let q = shell_quoted(s);
    lemma_shell_chars(s);
    assert(q.skip(1) =~= shell_chars(s) + seq!['\'']);
    assert(q[0] == '\'');
}

/// A character as it stands in an AppleScript string.
pub open spec fn apple_char(c: char) -> Seq<char> {
    if c == '\\' || c == '"' {
        seq!['\\', c]
    } else {
        seq![c]
    }
}

pub open spec fn apple_chars(s: Seq<char>) -> Seq<char>
    decreases s.len(),
{
    if s.len() == 0 {
        s
    } else {
        apple_char(s[0]) + apple_chars(s.skip(1))
    }
}

pub open spec fn apple_quoted(s: Seq<char>) -> Seq<char> {
    seq!['"'] + apple_chars(s) + seq!['"']
}

/// Double quotes and backslashes escaped for an AppleScript string literal.
pub fn applescript_quote(raw: &str) -> (r: String)
    ensures
        r@ == apple_quoted(raw@),
{
    let chars = chars_of(raw);
    let ghost all = raw@;
    let mut out: Vec<char> = Vec::new();
    out.push('"');
    let mut i: usize = 0;
    assert(all.skip(0) =~= all);
    assert(out@ + apple_chars(all.skip(0)) =~= seq!['"'] + apple_chars(all));
    while i < chars.len()
        invariant
            i <= chars@.len(),
            all == chars@,
            out@ + apple_chars(all.skip(i as int)) == seq!['"'] + apple_chars(all),
        decreases chars@.len() - i,
    {
        let c = chars[i];
        let ghost before = out@;
        if c == '\\' || c == '"' {
            out.push('\\');
        }
        out.push(c);
        proof {
            assert(out@ =~= before + apple_char(c));
            let rest = all.skip(i as int);
            assert(rest[0] == c);
            assert(rest.skip(1) =~= all.skip(i + 1));
            assert(before + (apple_char(c) + apple_chars(rest.skip(1))) =~= out@ + apple_chars(
                all.skip(i + 1),
            ));
        }
        i += 1;
    }
    proof {
        assert(all.skip(all.len() as int) =~= Seq::empty());
        assert(out@ =~= seq!['"'] + apple_chars(all));
    }
    out.push('"');
    assert(out@ =~= apple_quoted(raw@));
    string_of(out.as_slice())
}

/// What the rest of a string literal holds, past its first quote. `None` if
/// the literal does not end where the text does.
pub open spec fn apple_string(s: Seq<char>) -> Option<Seq<char>>
    decreases s.len(),
{
    if s.len() == 0 {
        None
    } else if s[0] == '"' {
        if s.len() == 1 {
            Some(Seq::empty())
        } else {
            None
        }
    } else if s[0] == '\\' {
        if s.len() == 1 {
            None
        } else {
            match apple_string(s.skip(2)) {
                Some(w) => Some(seq![s[1]] + w),
                None => None,
            }
        }
    } else {
        match apple_string(s.skip(1)) {
            Some(w) => Some(seq![s[0]] + w),
            None => None,
        }
    }
}

proof fn lemma_apple_chars(s: Seq<char>)
    ensures
        apple_string(apple_chars(s) + seq!['"']) == Some(s),
    decreases s.len(),
{
    let t = apple_chars(s) + seq!['"'];
    if s.len() == 0 {
        assert(t =~= seq!['"']);
        assert(s =~= Seq::empty());
    } else {
        lemma_apple_chars(s.skip(1));
        let rest = apple_chars(s.skip(1)) + seq!['"'];
        assert(t =~= apple_char(s[0]) + rest);
        if s[0] == '\\' || s[0] == '"' {
            assert(t.skip(2) =~= rest);
        } else {
            assert(t.skip(1) =~= rest);
        }
        assert(seq![s[0]] + s.skip(1) =~= s);
    }
}

/// A quoted path is one string, and the string is the path.
pub proof fn a_quoted_path_is_one_string(s: Seq<char>)
    ensures
        apple_quoted(s)[0] == '"',
        apple_string(apple_quoted(s).skip(1)) == Some(s),
{
    lemma_apple_chars(s);
    assert(apple_quoted(s).skip(1) =~= apple_chars(s) + seq!['"']);
}

/// The script a terminal is asked to run.
pub open spec fn script_text(project: Option<Seq<char>>, command: Seq<char>) -> Seq<char> {
    "#!/bin/sh\n"@ + "# Written by Break/Points to start an agent session for this row.\n"@ + (
    match project {
        Some(p) => "cd "@ + shell_quoted(p) + " || exit 1\n"@,
        None => Seq::empty(),
    }) + ("exec "@ + command + "\n"@)
}

/// The script a terminal is asked to run.
///
/// A file rather than something built into each terminal's arguments, because
/// quoting a command differently for five terminals is five ways to get it
/// wrong. It changes directory first so the agent starts in the project, and
/// `exec` means the shell does not linger under the agent.
pub fn script_for(project: Option<&str>, command: &str) -> (r: String)
    ensures
        r@ == script_text(
            match project {
                Some(p) => Some(p@),
                None => None,
            },
            command@,
        ),
{
    let mut out = "#!/bin/sh\n".to_owned();
    out.append("# Written by Break/Points to start an agent session for this row.\n");
    let ghost head = out@;
    assert(head + Seq::<char>::empty() =~= head);
    if let Some(p) = project {
        let mut cd = "cd ".to_owned();
        cd.append(shell_quote(p).as_str());
        cd.append(" || exit 1\n");
        out.append(cd.as_str());
    }
    let mut run = "exec ".to_owned();
    run.append(command);
    run.append("\n");
    out.append(run.as_str());
    out
}

/// What iTerm is asked to do: open a window and type the script's path.
pub open spec fn apple_source(app: Seq<char>, script: Seq<char>) -> Seq<char> {
    "tell application \""@ + app
        + "\"\n  activate\n  set theWindow to (create window with default profile)\n  tell current session of theWindow to write text "@
        + apple_quoted(script) + "\nend tell"@
}

pub fn applescript_for(terminal: Terminal, script: &str) -> (r: String)
    ensures
        r@ == apple_source(terminal_app(terminal), script@),
{
    let mut out = "tell application \"".to_owned();
    out.append(terminal.app_name());
    out.append(
        "\"\n  activate\n  set theWindow to (create window with default profile)\n  tell current session of theWindow to write text ",
    );
    out.append(applescript_quote(script).as_str());
    out.append("\nend tell");
    out
}

/// What is said when there is nothing to run.
pub const NO_COMMAND: &'static str = "there is no command to run. Set one in Settings.";

pub open spec fn not_installed(t: Terminal) -> Seq<char> {
    terminal_app(t) + " is not installed on this machine."@
}

/// Whether a terminal may be brought forward: its label, or why not.
pub fn focus(terminal: Terminal, installed: bool) -> (r: Result<String, String>)
    ensures
        if installed {
            r matches Ok(l) && l@ == terminal_app(terminal)
        } else {
            r matches Err(e) && e@ == not_installed(terminal)
        },
{
    if !installed {
        let mut e = terminal.label().to_owned();
        e.append(" is not installed on this machine.");
        return Err(e);
    }
    Ok(terminal.label().to_owned())
}

/// How a terminal is started.
#[derive(Debug)]
pub enum Start {
    /// These arguments, handed to the system's own way of opening things.
    Open(Vec<String>),
    /// This AppleScript.
    Script(String),
}

/// The arguments that open a terminal on a script.
///
/// Terminal.app opens a new window for a document it is handed, and asking for
/// a second copy of the application gets a warning about running two of them
/// instead. The others are asked for a new copy, so that the arguments are not
/// handed to a running one that ignores them.
pub open spec fn opening(t: Terminal, before: Option<Seq<Seq<char>>>, script: Seq<char>) -> Seq<
    Seq<char>,
> {
    match before {
        None => seq!["-a"@, terminal_app(t), script],
        Some(b) => (seq!["-n"@, "-a"@, terminal_app(t), "--args"@] + b).push(script),
    }
}

/// How to start the agent in the chosen terminal, with the script already
/// written at `script`.
pub fn start(terminal: Terminal, installed: bool, command: &str, script: &str) -> (r: Result<
    Start,
    String,
>)
    ensures
        if trimmed(command@).len() == 0 {
            r matches Err(e) && e@ == NO_COMMAND@
        } else if !installed {
            r matches Err(e) && e@ == not_installed(terminal)
        } else {
            match route(terminal) {
                Route::Document => r matches Ok(Start::Open(v)) && texts(v@) == opening(
                    terminal,
                    None,
                    script@,
                ),
                Route::Args(b) => r matches Ok(Start::Open(v)) && texts(v@) == opening(
                    terminal,
                    Some(b),
                    script@,
                ),
                Route::AppleScript => r matches Ok(Start::Script(s)) && s@ == apple_source(
                    terminal_app(terminal),
                    script@,
                ),
            }
        },
{
    if trim_str(command).as_str().is_empty() {
        return Err(NO_COMMAND.to_owned());
    }
    if !installed {
        let mut e = terminal.label().to_owned();
        e.append(" is not installed on this machine.");
        return Err(e);
    }
    let mut out: Vec<String> = Vec::new();
    match terminal.launch() {
        Launch::Document => {
            out.push("-a".to_owned());
            out.push(terminal.app_name().to_owned());
            out.push(script.to_owned());
            assert(texts(out@) =~= opening(terminal, None, script@));
            Ok(Start::Open(out))
        },
        Launch::Args(before) => {
            let ghost b = texts(before@);
            let mut given = before;
            out.push("-n".to_owned());
            out.push("-a".to_owned());
            out.push(terminal.app_name().to_owned());
            out.push("--args".to_owned());
            out.append(&mut given);
            out.push(script.to_owned());
            assert(texts(out@) =~= opening(terminal, Some(b), script@));
            Ok(Start::Open(out))
        },
        Launch::AppleScript => Ok(Start::Script(applescript_for(terminal, script))),
    }
}

pub open spec fn refusal(t: Terminal, why: Seq<char>) -> Seq<char> {
    terminal_app(t) + " refused to start a session"@ + (if trimmed(why).len() == 0 {
        Seq::empty()
    } else {
        " ("@ + trimmed(why) + ")"@
    })
        + ". macOS has to allow Break/Points to control it: System Settings, Privacy and Security, Automation. Terminal needs no permission and always works."@
}

/// What is said when a terminal would not be driven.
pub fn refused(terminal: Terminal, why: &str) -> (r: String)
    ensures
        r@ == refusal(terminal, why@),
{
    let mut out = terminal.label().to_owned();
    out.append(" refused to start a session");
    let why = trim_str(why);
    assert(out@ + Seq::<char>::empty() =~= out@);
    if !why.as_str().is_empty() {
        let mut p = " (".to_owned();
        p.append(why.as_str());
        p.append(")");
        out.append(p.as_str());
    }
    out.append(
        ". macOS has to allow Break/Points to control it: System Settings, Privacy and Security, Automation. Terminal needs no permission and always works.",
    );
    out
}

/// What is said when a terminal did not answer in time.
pub fn unanswered(terminal: Terminal) -> (r: String)
    ensures
        r@ == terminal_app(terminal)
            + " did not answer. It is probably waiting for permission to be controlled: look for a macOS prompt, or allow it under Privacy and Security, Automation. Terminal needs no permission and always works."@,
{
    let mut out = terminal.label().to_owned();
    out.append(
        " did not answer. It is probably waiting for permission to be controlled: look for a macOS prompt, or allow it under Privacy and Security, Automation. Terminal needs no permission and always works.",
    );
    out
}

/// A terminal's id names that terminal and no other, and every id that names
/// one is its id.
pub proof fn a_terminal_is_named_by_its_id(t: Terminal, id: Seq<char>)
    ensures
        terminal_named(terminal_id(t)) == Some(t),
        terminal_named(id) matches Some(x) ==> terminal_id(x) == id,
{
    reveal_strlit("terminal");
    reveal_strlit("iterm");
    reveal_strlit("ghostty");
    reveal_strlit("wezterm");
    reveal_strlit("kitty");
    reveal_strlit("alacritty");
    assert("terminal"@[0] == 't' && "iterm"@[0] == 'i' && "ghostty"@[0] == 'g' && "wezterm"@[0]
        == 'w' && "kitty"@[0] == 'k' && "alacritty"@[0] == 'a');
}

/// The default pick is the one that needs nothing granted.
pub proof fn the_first_terminal_needs_no_permission()
    ensures
        all_terminals()[0] is Terminal,
        !(route(all_terminals()[0]) is AppleScript),
{
}

/// A session's script goes to the project first, and stops where it cannot; the
/// last thing it does is become the command. The path it goes to is one word of
/// the shell, whatever is in it.
pub proof fn a_session_starts_in_its_project(project: Seq<char>, command: Seq<char>)
    ensures
        script_text(Some(project), command) == "#!/bin/sh\n"@
            + "# Written by Break/Points to start an agent session for this row.\n"@ + ("cd "@
            + shell_quoted(project) + " || exit 1\n"@) + ("exec "@ + command + "\n"@),
        script_text(None, command) == "#!/bin/sh\n"@
            + "# Written by Break/Points to start an agent session for this row.\n"@ + ("exec "@
            + command + "\n"@),
        shell_word(shell_quoted(project), false) == Some(project),
{
    a_quoted_path_is_one_word(project);
    let head = "#!/bin/sh\n"@
        + "# Written by Break/Points to start an agent session for this row.\n"@;
    assert(head + Seq::<char>::empty() =~= head);
}

/// How each terminal is started: Terminal opens the script as a document, iTerm
/// is told to by a script of its own, and the others are given it to run.
pub proof fn each_terminal_is_started_its_own_way(t: Terminal, script: Seq<char>)
    ensures
        t is Terminal <==> route(t) is Document,
        t is ITerm <==> route(t) is AppleScript,
        t is Ghostty || t is Alacritty ==> route(t) == Route::Args(seq!["-e"@]),
        opening(t, None, script) == seq!["-a"@, terminal_app(t), script],
        forall|b: Seq<Seq<char>>| #[trigger]
            opening(t, Some(b), script) == seq!["-n"@, "-a"@, terminal_app(t), "--args"@] + b
                + seq![script],
{
    assert forall|b: Seq<Seq<char>>| #[trigger]
        opening(t, Some(b), script) == seq!["-n"@, "-a"@, terminal_app(t), "--args"@] + b
            + seq![script] by {
        assert(opening(t, Some(b), script) =~= seq!["-n"@, "-a"@, terminal_app(t), "--args"@] + b
            + seq![script]);
    }
}

/// Each terminal is opened by the name its application has.
pub proof fn a_terminal_is_opened_by_its_application()
    ensures
        terminal_app(Terminal::Terminal) == "Terminal"@,
        terminal_app(Terminal::ITerm) == "iTerm"@,
        terminal_app(Terminal::Ghostty) == "Ghostty"@,
        terminal_app(Terminal::WezTerm) == "WezTerm"@,
        terminal_app(Terminal::Kitty) == "kitty"@,
        terminal_app(Terminal::Alacritty) == "Alacritty"@,
{
}

/// A refusal names the terminal, and says why where the system did.
pub proof fn a_refusal_says_why(t: Terminal, why: Seq<char>)
    ensures
        crate::text::begins(refusal(t, why), terminal_app(t) + " refused to start a session"@),
        trimmed(why).len() > 0 ==> crate::text::begins(
            refusal(t, why),
            terminal_app(t) + " refused to start a session"@ + " ("@ + trimmed(why) + ")"@,
        ),
        not_installed(t) == terminal_app(t) + " is not installed on this machine."@,
{
    let a = terminal_app(t) + " refused to start a session"@;
    let r = refusal(t, why);
    assert(r.subrange(0, a.len() as int) =~= a);
    assert(r.take(a.len() as int) =~= a);
    if trimmed(why).len() > 0 {
        let b = a + " ("@ + trimmed(why) + ")"@;
        assert(r.subrange(0, b.len() as int) =~= b);
        assert(r.take(b.len() as int) =~= b);
    }
}

} // verus!
