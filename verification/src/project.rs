//! Opening a project: decide what wins, and hand the chrome something it can
//! draw the scan sheet from.
//!
//! The precedence rule is the important part. If `breakpoints.md` exists it
//! wins, full stop. The scan still runs, because that is what makes change
//! detection work, but it never touches the file without asking.

use vstd::prelude::*;
use vstd::string::StringExecFns;
use crate::generate::{advice, recommend, Advice, Recommendation};
use crate::model::{
    blank_record, clone_viewports, viewports, AppConfig, Panelled, Profile, ProfileKept,
    ProjectRecord, RecordKept, UrlStatus, Viewport,
};
use crate::project_file::{FileFound, ProjectFile};
use crate::scanner::devserver::AUTO_USE;
use crate::scanner::types::{founds, frameworks, servers, ScanReport, ServerFound};
use crate::scanner::walk::{file_name, name_of};
use crate::state::ProjectContext;
use crate::table::{find_in, keyed, lookup, put, put_in, seen_as};
use crate::text::{begins, begins_with, clone_opt, opt_view, same, same_opt, trim_str, trimmed};

verus! {

#[derive(Debug)]
pub struct ProjectOpened {
    pub root: String,
    pub name: String,
    /// True when a project file is driving the viewports.
    pub project_driven: bool,
    pub report: ScanReport,
    pub recommendation: Recommendation,
    pub project_file: Option<ProjectFile>,
    /// Set when a project file exists but will not parse. The old config is
    /// kept and the toolbar shows a warning chip.
    pub project_file_error: Option<String>,
    pub dev_url: Option<String>,
    pub url_status: UrlStatus,
    /// True when the config on disk no longer matches what the code says.
    pub source_changed: bool,
}

/// A folder's own name.
pub open spec fn name_of_project(root: Seq<char>) -> Seq<char> {
    match name_of(root) {
        Some(n) => n,
        None => "project"@,
    }
}

/// The name to show for a folder.
pub fn project_name(root: &str) -> (r: String)
    ensures
        r@ == name_of_project(root@),
{
    match file_name(root) {
        Some(n) => n,
        None => "project".to_owned(),
    }
}

/// What is said of a path that is no folder.
pub fn not_a_folder(root: &str) -> (r: String)
    ensures
        r@ == root@ + " is not a folder"@,
{
    let mut e = root.to_owned();
    e.append(" is not a folder");
    e
}

/// Is this a URL worth remembering, as opposed to an empty canvas?
pub open spec fn worth_remembering(url: Seq<char>) -> bool {
    trimmed(url).len() > 0 && !begins(trimmed(url), "about:"@)
}

pub fn is_real_url(url: &str) -> (r: bool)
    ensures
        r == worth_remembering(url@),
{
    let url = trim_str(url);
    !url.as_str().is_empty() && !begins_with(url.as_str(), "about:")
}

/// Whether a status code means that the site is there.
pub open spec fn responding(status: int) -> bool {
    200 <= status < 400 || status == 401 || status == 403
}

/// What a status code means for "is the site there?".
///
/// 401 and 403 mean the site is there and asking who you are, which is ordinary
/// on a staging box. 404 and 5xx at the root mean it is not, and treating those
/// as success is what sent a Lando project to a dead DDEV hostname.
pub fn classify(status: u16) -> (r: UrlStatus)
    ensures
        r == if responding(status as int) {
            UrlStatus::Answering
        } else {
            UrlStatus::NotResponding
        },
{
    let responding = (200 <= status && status < 400) || status == 401 || status == 403;
    if responding {
        UrlStatus::Answering
    } else {
        UrlStatus::NotResponding
    }
}

/// How many candidates are asked. Each probe costs up to three seconds, and a
/// project that has lived through several environments can carry a lot of
/// stale config.
pub const MOST_ASKED: usize = 4;

/// Who to ask next, or whom it came to.
#[derive(Debug)]
pub enum Choosing {
    Ask(String),
    Chosen(Option<String>),
}

#[verifier::ext_equal]
pub enum Choice {
    Ask(Seq<char>),
    Chosen(Option<Seq<char>>),
}

impl View for Choosing {
    type V = Choice;

    open spec fn view(&self) -> Choice {
        match self {
            Choosing::Ask(u) => Choice::Ask(u@),
            Choosing::Chosen(u) => Choice::Chosen(opt_view(*u)),
        }
    }
}

/// The addresses sure enough to be asked, in the order they came.
pub open spec fn sure(candidates: Seq<(String, u32)>) -> Seq<Seq<char>>
    decreases candidates.len(),
{
    if candidates.len() == 0 {
        Seq::empty()
    } else {
        let d = sure(candidates.drop_last());
        if candidates.last().1 >= AUTO_USE {
            d.push(candidates.last().0@)
        } else {
            d
        }
    }
}

/// The addresses that are asked.
pub open spec fn shortlist(candidates: Seq<(String, u32)>) -> Seq<Seq<char>> {
    let s = sure(candidates);
    if s.len() > MOST_ASKED {
        s.take(MOST_ASKED as int)
    } else {
        s
    }
}

/// The first of the answers, from `i` on, that says the site is there.
pub open spec fn first_there(heard: Seq<UrlStatus>, i: int) -> Option<int>
    decreases heard.len() - i,
{
    if i >= heard.len() {
        None
    } else if heard[i] == UrlStatus::Answering {
        Some(i)
    } else {
        first_there(heard, i + 1)
    }
}

/// Whom it comes to when the shortlist gave these answers, in its order.
pub open spec fn choice_of(candidates: Seq<(String, u32)>, heard: Seq<UrlStatus>) -> Choice {
    let asked = shortlist(candidates);
    match first_there(heard, 0) {
        Some(i) => Choice::Chosen(Some(asked[i])),
        None => if heard.len() < asked.len() {
            Choice::Ask(asked[heard.len() as int])
        } else {
            Choice::Chosen(
                if asked.len() > 0 {
                    Some(asked[0])
                } else if candidates.len() > 0 {
                    Some(candidates[0].0@)
                } else {
                    None
                },
            )
        },
    }
}

fn list_sure(candidates: &Vec<(String, u32)>) -> (r: Vec<String>)
    ensures
        crate::text::texts(r@) == shortlist(candidates@),
{
    let mut out: Vec<String> = Vec::new();
    let mut i: usize = 0;
    assert(candidates@.take(0) =~= Seq::empty());
    assert(crate::text::texts(out@) =~= Seq::empty());
    while i < candidates.len() && out.len() < MOST_ASKED
        invariant
            i <= candidates@.len(),
            out@.len() <= MOST_ASKED,
            crate::text::texts(out@) == sure(candidates@.take(i as int)),
        decreases candidates@.len() - i,
    {
        proof {
            assert(candidates@.take(i + 1).drop_last() =~= candidates@.take(i as int));
            assert(candidates@.take(i + 1).last() == candidates@[i as int]);
        }
        if candidates[i].1 >= AUTO_USE {
            let ghost before = crate::text::texts(out@);
            let u = candidates[i].0.as_str().to_owned();
            out.push(u);
            assert(crate::text::texts(out@) =~= before.push(u@));
        }
        i += 1;
    }
    proof {
        assert(crate::text::texts(out@).len() == out@.len());
        lemma_sure_grows(candidates@, i as int);
        assert(candidates@.take(candidates@.len() as int) =~= candidates@);
        assert(sure(candidates@).take(out@.len() as int) =~= crate::text::texts(out@));
        if i == candidates@.len() {
            assert(sure(candidates@) =~= crate::text::texts(out@));
        }
    }
    out
}

/// What is sure of the first few is where what is sure of them all begins.
proof fn lemma_sure_grows(candidates: Seq<(String, u32)>, i: int)
    requires
        0 <= i <= candidates.len(),
    ensures
        sure(candidates.take(i)).len() <= sure(candidates).len(),
        sure(candidates).take(sure(candidates.take(i)).len() as int) == sure(candidates.take(i)),
    decreases candidates.len() - i,
{
    if i < candidates.len() {
        let a = candidates.take(i);
        let b = candidates.take(i + 1);
        assert(b.drop_last() =~= a);
        lemma_sure_grows(candidates, i + 1);
        let n = sure(a).len() as int;
        assert(sure(b).take(n) =~= sure(a));
        assert(sure(candidates).take(n) =~= sure(candidates).take(sure(b).len() as int).take(n));
    } else {
        assert(candidates.take(i) =~= candidates);
        assert(sure(candidates).take(sure(candidates).len() as int) =~= sure(candidates));
    }
}

/// The candidate to use, given what each one that was asked said.
///
/// A project that has lived through two local environments carries both their
/// config files, and neither one says which is running today. Rather than
/// guessing, each door is knocked on in confidence order and the first that
/// answers is taken. `heard` holds the answers so far; while it settles
/// nothing, the next address to ask is given back.
///
/// If nothing answers, the best guess is offered anyway, so the panels show a
/// failure at the right hostname rather than nothing at all.
pub fn choose_dev_url(candidates: &Vec<(String, u32)>, heard: &Vec<UrlStatus>) -> (r: Choosing)
    requires
        heard@.len() <= shortlist(candidates@).len(),
    ensures
        r@ == choice_of(candidates@, heard@),
{
    let asked = list_sure(candidates);
    assert(crate::text::texts(asked@).len() == asked@.len());
    let mut i: usize = 0;
    while i < heard.len()
        invariant
            i <= heard@.len(),
            heard@.len() <= asked@.len(),
            crate::text::texts(asked@) == shortlist(candidates@),
            first_there(heard@, 0) == first_there(heard@, i as int),
        decreases heard@.len() - i,
    {
        if heard[i] == UrlStatus::Answering {
            assert(shortlist(candidates@)[i as int] == asked@[i as int]@);
            return Choosing::Chosen(Some(asked[i].as_str().to_owned()));
        }
        i += 1;
    }
    if heard.len() < asked.len() {
        assert(shortlist(candidates@)[i as int] == asked@[i as int]@);
        Choosing::Ask(asked[i].as_str().to_owned())
    } else if asked.len() > 0 {
        assert(shortlist(candidates@)[0] == asked@[0]@);
        Choosing::Chosen(Some(asked[0].as_str().to_owned()))
    } else if candidates.len() > 0 {
        Choosing::Chosen(Some(candidates[0].0.as_str().to_owned()))
    } else {
        Choosing::Chosen(None)
    }
}

/// The candidates of a scan: address and confidence.
pub open spec fn candidates_in(s: Seq<ServerFound>) -> Seq<(Seq<char>, u32)> {
    s.map_values(|d: ServerFound| (d.url, d.confidence))
}

pub fn dev_candidates(report: &ScanReport) -> (r: Vec<(String, u32)>)
    ensures
        keyed(r@) == candidates_in(servers(report.dev_servers@)),
{
    let ghost all = servers(report.dev_servers@);
    let ghost want = candidates_in(all);
    let mut out: Vec<(String, u32)> = Vec::new();
    let mut i: usize = 0;
    assert(keyed(out@) =~= want.take(0));
    while i < report.dev_servers.len()
        invariant
            i <= report.dev_servers@.len(),
            all == servers(report.dev_servers@),
            want == candidates_in(all),
            keyed(out@) == want.take(i as int),
        decreases report.dev_servers@.len() - i,
    {
        let ghost before = keyed(out@);
        let d = &report.dev_servers[i];
        out.push((d.url.as_str().to_owned(), d.confidence));
        proof {
            assert(all[i as int] == report.dev_servers@[i as int]@);
            assert(keyed(out@) =~= before.push(want[i as int]));
            assert(want.take(i + 1) =~= want.take(i as int).push(want[i as int]));
        }
        i += 1;
    }
    assert(want.take(want.len() as int) =~= want);
    out
}

/// The address a project opens at: its own, or the dev server's.
pub open spec fn address_of(file: Option<FileFound>, dev_url: Option<Seq<char>>) -> Option<
    Seq<char>,
> {
    match file {
        Some(f) => if f.url is Some {
            f.url
        } else {
            dev_url
        },
        None => dev_url,
    }
}

pub open spec fn file_view(file: Option<ProjectFile>) -> Option<FileFound> {
    match file {
        Some(f) => Some(f@),
        None => None,
    }
}

pub fn url_to_open(file: &Option<ProjectFile>, dev_url: &Option<String>) -> (r: Option<String>)
    ensures
        opt_view(r) == address_of(file_view(*file), opt_view(*dev_url)),
{
    match file {
        Some(f) => match &f.url {
            Some(u) => Some(u.as_str().to_owned()),
            None => clone_opt(dev_url),
        },
        None => clone_opt(dev_url),
    }
}

/// What is known of an address before it is asked.
///
/// A dev URL that was chosen by asking has been asked already. An address that
/// the project file names has not, nor has a dev URL that nothing was asked for.
#[derive(Debug, Clone, Copy, PartialEq, Eq, Structural)]
pub enum Asking {
    Known(UrlStatus),
    AskIt,
}

pub open spec fn asking(
    url: Option<Seq<char>>,
    dev_url: Option<Seq<char>>,
    heard: Seq<UrlStatus>,
) -> Asking {
    if url is None {
        Asking::Known(UrlStatus::Unknown)
    } else if url == dev_url && heard.len() > 0 {
        if first_there(heard, 0) is Some {
            Asking::Known(UrlStatus::Answering)
        } else {
            Asking::Known(UrlStatus::NotResponding)
        }
    } else {
        Asking::AskIt
    }
}

/// What is known of `url`, given the dev URL and what was `heard` while it was
/// being chosen. Where everything that was asked stayed silent, the dev URL is
/// only the best guess, and did not answer.
pub fn what_is_known(
    url: &Option<String>,
    dev_url: &Option<String>,
    heard: &Vec<UrlStatus>,
) -> (r: Asking)
    ensures
        r == asking(opt_view(*url), opt_view(*dev_url), heard@),
{
    if url.is_none() {
        return Asking::Known(UrlStatus::Unknown);
    }
    if heard.len() == 0 || !same_opt(url, dev_url) {
        return Asking::AskIt;
    }
    let mut i: usize = 0;
    while i < heard.len()
        invariant
            i <= heard@.len(),
            first_there(heard@, 0) == first_there(heard@, i as int),
            heard@.len() > 0,
            url is Some,
            opt_view(*url) == opt_view(*dev_url),
        decreases heard@.len() - i,
    {
        if heard[i] == UrlStatus::Answering {
            return Asking::Known(UrlStatus::Answering);
        }
        i += 1;
    }
    Asking::Known(UrlStatus::NotResponding)
}

/// Whether the widths a project file was written from are no longer the widths
/// in the code.
pub open spec fn changed_since(file: Option<FileFound>, hash: Seq<char>) -> bool {
    match file {
        Some(f) => match f.source_hash {
            Some(h) => h != hash,
            None => false,
        },
        None => false,
    }
}

/// Work out what should happen with a folder that was scanned, without changing
/// anything.
///
/// `read` is what the project file said, if there is one; `url_status` what
/// came back from the address it opens at.
pub fn open(
    root: &str,
    config: &AppConfig,
    report: ScanReport,
    dev_url: Option<String>,
    read: Option<Result<ProjectFile, String>>,
    url_status: UrlStatus,
) -> (r: ProjectOpened)
    ensures
        r.root@ == root@,
        r.name@ == name_of_project(root@),
        r.project_driven == (r.project_file is Some),
        r.report == report,
        r.recommendation@ == (Advice {
            dev_url: opt_view(dev_url),
            ..advice(
                founds(report.breakpoints@),
                config.height_strategy,
                config.fixed_height,
                config.edge_testing,
            )
        }),
        r.project_file == match read {
            Some(Ok(f)) => Some(f),
            _ => None,
        },
        r.project_file_error == match read {
            Some(Err(e)) => Some(e),
            _ => None,
        },
        opt_view(r.dev_url) == opt_view(dev_url),
        r.url_status == url_status,
        r.source_changed == changed_since(file_view(r.project_file), report.source_hash@),
{
    let mut recommendation = recommend(
        &report.breakpoints,
        config.height_strategy,
        config.fixed_height,
        config.edge_testing,
    );
    recommendation.dev_url = clone_opt(&dev_url);
    let (file, error) = match read {
        Some(Ok(f)) => (Some(f), None),
        Some(Err(e)) => (None, Some(e)),
        None => (None, None),
    };
    let source_changed = match &file {
        Some(f) => match &f.source_hash {
            Some(h) => !same(h.as_str(), report.source_hash.as_str()),
            None => false,
        },
        None => false,
    };
    ProjectOpened {
        root: root.to_owned(),
        name: project_name(root),
        project_driven: file.is_some(),
        report,
        recommendation,
        project_file: file,
        project_file_error: error,
        dev_url,
        url_status,
        source_changed,
    }
}

pub open spec fn records(t: Seq<(String, ProjectRecord)>) -> Seq<(Seq<char>, RecordKept)> {
    seen_as(t, |r: ProjectRecord| r@)
}

pub open spec fn profiles(t: Seq<(String, Profile)>) -> Seq<(Seq<char>, ProfileKept)> {
    seen_as(t, |p: Profile| p@)
}

pub open spec fn addresses(t: Seq<(String, String)>) -> Seq<(Seq<char>, Seq<char>)> {
    seen_as(t, |s: String| s@)
}

/// What is kept of a project, blank if it was never opened.
pub open spec fn record_of(t: Seq<(Seq<char>, RecordKept)>, key: Seq<char>) -> RecordKept {
    match lookup(t, key) {
        Some(r) => r,
        None => blank_record(),
    }
}

pub(crate) fn record_at(t: &Vec<(String, ProjectRecord)>, key: &str) -> (r: ProjectRecord)
    ensures
        r@ == record_of(records(t@), key@),
{
    proof {
        crate::table::lemma_lookup_view(t@, key@, |r: ProjectRecord| r@);
    }
    match find_in(t, key) {
        Some(i) => t[i].1.clone(),
        None => ProjectRecord::default(),
    }
}

pub(crate) fn keep_record(t: &mut Vec<(String, ProjectRecord)>, key: String, record: ProjectRecord)
    ensures
        records(final(t)@) == put(records(old(t)@), key@, record@, true),
{
    proof {
        crate::table::lemma_put_view(
            keyed(t@),
            key@,
            record,
            true,
            |r: ProjectRecord| r@,
        );
    }
    put_in(t, key, record, true);
}

fn keep_address(t: &mut Vec<(String, String)>, url: String, key: String)
    ensures
        addresses(final(t)@) == put(addresses(old(t)@), url@, key@, true),
{
    proof {
        crate::table::lemma_put_view(keyed(t@), url@, key, true, |s: String| s@);
    }
    put_in(t, url, key, true);
}

pub(crate) fn keep_profile(t: &mut Vec<(String, Profile)>, key: String, profile: Profile)
    ensures
        profiles(final(t)@) == put(profiles(old(t)@), key@, profile@, true),
{
    proof {
        crate::table::lemma_put_view(keyed(t@), key@, profile, true, |p: Profile| p@);
    }
    put_in(t, key, profile, true);
}

/// Whether the settings that opening an address does not touch are the same.
pub open spec fn keeps_the_rest(a: AppConfig, b: AppConfig) -> bool {
    a == (AppConfig {
        profiles: a.profiles,
        projects: a.projects,
        url_to_project: a.url_to_project,
        last_url: a.last_url,
        last_project: a.last_project,
        ..b
    })
}

/// Remember an address that a row was opened at.
///
/// With a project open, it is the project's. A project opened with no URL of
/// its own gets a blank canvas, and remembering "about:blank belongs to this
/// project" is worse than useless: the association is what later decides
/// whether a URL is safe to write into a committed breakpoints.md. Without a
/// project, the widths become the active profile's, unless it is locked.
pub fn remember(
    config: &mut AppConfig,
    root: Option<&str>,
    row: &Vec<Viewport>,
    url: &str,
    now: &str,
)
    ensures
        keeps_the_rest(*final(config), *old(config)),
        opt_view(final(config).last_url) == Some(url@),
        match root {
            Some(key) => {
                &&& opt_view(final(config).last_project) == Some(key@)
                &&& profiles(final(config).profiles@) == profiles(old(config).profiles@)
                &&& records(final(config).projects@) == put(
                    records(old(config).projects@),
                    key@,
                    (RecordKept {
                        last_scan: Some(now@),
                        url: if worth_remembering(url@) {
                            Some(url@)
                        } else {
                            record_of(records(old(config).projects@), key@).url
                        },
                        ..record_of(records(old(config).projects@), key@)
                    }),
                    true,
                )
                &&& addresses(final(config).url_to_project@) == if worth_remembering(url@) {
                    put(addresses(old(config).url_to_project@), url@, key@, true)
                } else {
                    addresses(old(config).url_to_project@)
                }
            },
            None => {
                &&& final(config).last_project == old(config).last_project
                &&& records(final(config).projects@) == records(old(config).projects@)
                &&& addresses(final(config).url_to_project@) == addresses(
                    old(config).url_to_project@,
                )
                &&& profiles(final(config).profiles@) == with_row(
                    profiles(old(config).profiles@),
                    old(config).active_profile@,
                    viewports(row@),
                )
            },
        },
{
    config.last_url = Some(url.to_owned());
    match root {
        Some(key) => {
            config.last_project = Some(key.to_owned());
            let mut record = record_at(&config.projects, key);
            record.last_scan = Some(now.to_owned());
            if is_real_url(url) {
                record.url = Some(url.to_owned());
                keep_address(&mut config.url_to_project, url.to_owned(), key.to_owned());
            }
            keep_record(&mut config.projects, key.to_owned(), record);
        },
        None => {
            proof {
                crate::table::lemma_lookup_view(
                    config.profiles@,
                    config.active_profile@,
                    |p: Profile| p@,
                );
            }
            if let Some(i) = find_in(&config.profiles, config.active_profile.as_str()) {
                if !config.profiles[i].1.locked {
                    let changed = Profile {
                        name: config.profiles[i].1.name.as_str().to_owned(),
                        locked: false,
                        viewports: clone_viewports(row),
                    };
                    let key = config.active_profile.as_str().to_owned();
                    keep_profile(&mut config.profiles, key, changed);
                }
            }
        },
    }
}

/// The profiles with the row of one of them replaced, unless it is locked.
pub open spec fn with_row(
    t: Seq<(Seq<char>, ProfileKept)>,
    active: Seq<char>,
    row: Seq<Panelled>,
) -> Seq<(Seq<char>, ProfileKept)> {
    match lookup(t, active) {
        Some(p) => if p.locked {
            t
        } else {
            put(t, active, (ProfileKept { viewports: row, ..p }), true)
        },
        None => t,
    }
}

/// What is said when there is no project to write a file into.
pub const NOWHERE_TO_WRITE: &'static str =
    "no project is open, so there is nowhere to write it";

/// Where the widths of a scan came from, and their hash.
pub open spec fn source_of(report: Option<ScanReport>) -> (Seq<char>, Seq<char>) {
    match report {
        Some(r) => (
            if r.frameworks@.len() > 0 {
                r.frameworks@[0].source_file@
            } else {
                "css media queries"@
            },
            r.source_hash@,
        ),
        None => (Seq::empty(), Seq::empty()),
    }
}

/// The file to write into the project root.
///
/// Always asked for explicitly, never on a timer: this lands in a repo that
/// might be a client's, and it is meant to be committed.
pub fn file_to_write(
    project: &Option<ProjectContext>,
    row: &Vec<Viewport>,
    url: Option<String>,
    zoom_to_fit: bool,
    scroll_sync: bool,
    today: &str,
) -> (r: Result<ProjectFile, String>)
    ensures
        match *project {
            None => r matches Err(e) && e@ == NOWHERE_TO_WRITE@,
            Some(p) => r matches Ok(f) && f@ == (FileFound {
                viewports: viewports(row@),
                url: opt_view(url),
                zoom_to_fit: Some(zoom_to_fit),
                scroll_sync: Some(scroll_sync),
                source: Some(source_of(p.report).0),
                source_hash: Some(source_of(p.report).1),
                generated: Some(today@),
            }),
        },
{
    match project {
        None => Err(NOWHERE_TO_WRITE.to_owned()),
        Some(p) => {
            let (source, hash) = match &p.report {
                Some(report) => (
                    if report.frameworks.len() > 0 {
                        report.frameworks[0].source_file.as_str().to_owned()
                    } else {
                        "css media queries".to_owned()
                    },
                    report.source_hash.as_str().to_owned(),
                ),
                None => (String::new(), String::new()),
            };
            assert(source@ =~= source_of(p.report).0);
            assert(hash@ =~= source_of(p.report).1);
            Ok(
                ProjectFile {
                    viewports: clone_viewports(row),
                    url,
                    zoom_to_fit: Some(zoom_to_fit),
                    scroll_sync: Some(scroll_sync),
                    source: Some(source),
                    source_hash: Some(hash),
                    generated: Some(today.to_owned()),
                },
            )
        },
    }
}

/// Note down that a file was written: which widths it was written from, and
/// that it drives the row from now on.
pub fn file_was_written(config: &mut AppConfig, project: &mut ProjectContext)
    ensures
        *final(project) == (ProjectContext { project_driven: true, ..*old(project) }),
        *final(config) == (AppConfig { projects: final(config).projects, ..*old(config) }),
        records(final(config).projects@) == put(
            records(old(config).projects@),
            old(project).root@,
            (RecordKept {
                source_hash: Some(source_of(old(project).report).1),
                ..record_of(records(old(config).projects@), old(project).root@)
            }),
            true,
        ),
{
    let hash = match &project.report {
        Some(report) => report.source_hash.as_str().to_owned(),
        None => String::new(),
    };
    assert(hash@ =~= source_of(project.report).1);
    let mut record = record_at(&config.projects, project.root.as_str());
    record.source_hash = Some(hash);
    keep_record(&mut config.projects, project.root.as_str().to_owned(), record);
    project.project_driven = true;
}

/// The folder an address was last associated with.
pub open spec fn folder_of(t: Seq<(Seq<char>, Seq<char>)>, url: Seq<char>) -> Option<Seq<char>> {
    lookup(t, url)
}

/// The folder a URL was last associated with, so typing that URL reconnects the
/// project automatically. Whether it is still there is for the caller to see.
pub fn project_for_url(config: &AppConfig, url: &str) -> (r: Option<String>)
    ensures
        opt_view(r) == folder_of(addresses(config.url_to_project@), url@),
{
    proof {
        crate::table::lemma_lookup_view(config.url_to_project@, url@, |s: String| s@);
    }
    match find_in(&config.url_to_project, url) {
        Some(i) => Some(config.url_to_project[i].1.as_str().to_owned()),
        None => None,
    }
}

/// The folder to open at startup: the last project, or the one the last URL
/// belongs to.
pub fn folder_to_restore(config: &AppConfig) -> (r: Option<String>)
    ensures
        opt_view(r) == match opt_view(config.last_project) {
            Some(p) => Some(p),
            None => match opt_view(config.last_url) {
                Some(u) => folder_of(addresses(config.url_to_project@), u),
                None => None,
            },
        },
{
    match &config.last_project {
        Some(p) => Some(p.as_str().to_owned()),
        None => match &config.last_url {
            Some(u) => project_for_url(config, u.as_str()),
            None => None,
        },
    }
}

/// Whether a path, written in full, is a folder or something under it.
pub open spec fn is_under(root: Seq<char>, path: Seq<char>) -> bool {
    path == root || begins(path, root + "/"@) || (root == "/"@ && begins(path, "/"@))
}

/// Guard every project read: nothing above the project root is ever opened.
///
/// Both paths are as the file system itself spells them in full, with no link
/// and no `..` in them, and `None` where there is no such path.
pub fn inside_project(root: Option<&str>, candidate: Option<&str>) -> (r: bool)
    ensures
        r == (root matches Some(a) && candidate matches Some(b) && is_under(a@, b@)),
{
    match (root, candidate) {
        (Some(a), Some(b)) => {
            let mut prefix = a.to_owned();
            prefix.append("/");
            same(a, b) || begins_with(b, prefix.as_str()) || (same(a, "/") && begins_with(b, "/"))
        },
        _ => false,
    }
}

/// An address is only ever settled on because it answered, or because nothing
/// that was asked did and it is the best guess.
pub proof fn a_silent_address_is_only_a_fallback(
    candidates: Seq<(String, u32)>,
    heard: Seq<UrlStatus>,
)
    requires
        heard.len() <= shortlist(candidates).len(),
    ensures
        match choice_of(candidates, heard) {
            Choice::Ask(u) => heard.len() < shortlist(candidates).len() && u == shortlist(
                candidates,
            )[heard.len() as int] && (forall|i: int|
                0 <= i < heard.len() ==> heard[i] != UrlStatus::Answering),
            Choice::Chosen(u) => {
                ||| exists|i: int|
                    0 <= i < heard.len() && heard[i] == UrlStatus::Answering && u == Some(
                        #[trigger] shortlist(candidates)[i],
                    ) && (forall|k: int| 0 <= k < i ==> heard[k] != UrlStatus::Answering)
                ||| heard.len() == shortlist(candidates).len() && (forall|i: int|
                    0 <= i < heard.len() ==> heard[i] != UrlStatus::Answering) && u == (
                if candidates.len() == 0 {
                    None
                } else if heard.len() > 0 {
                    Some(shortlist(candidates)[0])
                } else {
                    Some(candidates[0].0@)
                })
            },
        },
{
    lemma_first_there(heard, 0);
    if candidates.len() == 0 {
        assert(sure(candidates).len() == 0);
    }
    match first_there(heard, 0) {
        Some(i) => {
            assert(shortlist(candidates)[i] == shortlist(candidates)[i]);
        },
        None => {},
    }
}

proof fn lemma_first_there(heard: Seq<UrlStatus>, i: int)
    requires
        0 <= i <= heard.len(),
    ensures
        match first_there(heard, i) {
            Some(k) => i <= k < heard.len() && heard[k] == UrlStatus::Answering && (forall|j: int|
                i <= j < k ==> heard[j] != UrlStatus::Answering),
            None => forall|j: int| i <= j < heard.len() ==> heard[j] != UrlStatus::Answering,
        },
    decreases heard.len() - i,
{
    if i < heard.len() {
        lemma_first_there(heard, i + 1);
    }
}

/// No more than four addresses are asked, and none that is only a hint.
pub proof fn hints_are_never_asked(candidates: Seq<(String, u32)>, i: int)
    requires
        0 <= i < shortlist(candidates).len(),
    ensures
        shortlist(candidates).len() <= MOST_ASKED,
        exists|k: int|
            0 <= k < candidates.len() && (#[trigger] candidates[k]).1 >= AUTO_USE
                && candidates[k].0@ == shortlist(candidates)[i],
{
    lemma_sure_is_sure(candidates, i);
    assert(shortlist(candidates)[i] == sure(candidates)[i]);
}

proof fn lemma_sure_is_sure(candidates: Seq<(String, u32)>, i: int)
    requires
        0 <= i < sure(candidates).len(),
    ensures
        exists|k: int|
            0 <= k < candidates.len() && (#[trigger] candidates[k]).1 >= AUTO_USE
                && candidates[k].0@ == sure(candidates)[i],
    decreases candidates.len(),
{
    if candidates.len() > 0 {
        let d = candidates.drop_last();
        if i < sure(d).len() {
            lemma_sure_is_sure(d, i);
            let k = choose|k: int|
                0 <= k < d.len() && (#[trigger] d[k]).1 >= AUTO_USE && d[k].0@ == sure(d)[i];
            assert(candidates[k] == d[k]);
        } else {
            assert(candidates[candidates.len() - 1].0@ == sure(candidates)[i]);
        }
    }
}

/// Once an address was remembered with a project, typing it finds the project
/// again, and every other address finds what it found before.
pub proof fn an_address_finds_its_project(
    t: Seq<(Seq<char>, Seq<char>)>,
    url: Seq<char>,
    key: Seq<char>,
    other: Seq<char>,
)
    ensures
        folder_of(put(t, url, key, true), url) == Some(key),
        other != url ==> folder_of(put(t, url, key, true), other) == folder_of(t, other),
{
    crate::table::lookup_gives_what_was_put(t, url, key, true, other);
}

/// Nothing beside a folder is inside it, however its name begins.
pub proof fn a_sibling_is_not_inside(root: Seq<char>, rest: Seq<char>)
    requires
        root.len() > 1,
        rest.len() > 0,
        rest[0] != '/',
    ensures
        !is_under(root, root + rest),
{
    reveal_strlit("/");
    let p = root + rest;
    assert(p.len() > root.len());
    assert(p[root.len() as int] == rest[0]);
    if begins(p, root + "/"@) {
        assert(p.subrange(0, (root + "/"@).len() as int)[root.len() as int] == '/');
    }
}

/// The addresses asked are the ones at least eighty-five hundredths sure, in
/// the order offered, and no more than four of them.
pub proof fn only_sure_addresses_are_asked(candidates: Seq<(String, u32)>)
    ensures
        sure(candidates) == candidates.filter(|c: (String, u32)| c.1 >= 85).map_values(
            |c: (String, u32)| c.0@,
        ),
        sure(candidates).len() <= 4 ==> shortlist(candidates) == sure(candidates),
        sure(candidates).len() > 4 ==> shortlist(candidates) == sure(candidates).take(4),
{
    lemma_sure(candidates);
}

proof fn lemma_sure(candidates: Seq<(String, u32)>)
    ensures
        sure(candidates) == candidates.filter(|c: (String, u32)| c.1 >= 85).map_values(
            |c: (String, u32)| c.0@,
        ),
    decreases candidates.len(),
{
    reveal(Seq::filter);
    let is = |c: (String, u32)| c.1 >= 85;
    let told = |c: (String, u32)| c.0@;
    if candidates.len() == 0 {
        assert(candidates.filter(is).map_values(told) =~= Seq::empty());
    } else {
        let d = candidates.drop_last();
        lemma_sure(d);
        assert(d.filter(is).push(candidates.last()).map_values(told) =~= d.filter(is).map_values(
            told,
        ).push(candidates.last().0@));
    }
}

proof fn lemma_there(heard: Seq<UrlStatus>, i: int)
    requires
        0 <= i <= heard.len(),
    ensures
        first_there(heard, i) matches Some(k) ==> i <= k < heard.len() && heard[k]
            == UrlStatus::Answering && forall|j: int|
            i <= j < k ==> #[trigger] heard[j] != UrlStatus::Answering,
        first_there(heard, i) is None ==> forall|j: int|
            i <= j < heard.len() ==> #[trigger] heard[j] != UrlStatus::Answering,
    decreases heard.len() - i,
{
    if i < heard.len() && heard[i] != UrlStatus::Answering {
        lemma_there(heard, i + 1);
    }
}

/// Addresses are asked one after another until one answers, which is chosen. If
/// none does, the first is chosen all the same, and a mere hint only where there
/// was none to ask.
pub proof fn the_first_address_that_answers_is_chosen(
    candidates: Seq<(String, u32)>,
    heard: Seq<UrlStatus>,
)
    requires
        heard.len() <= shortlist(candidates).len(),
    ensures
        ({
            let asked = shortlist(candidates);
            let none = forall|j: int|
                0 <= j < heard.len() ==> #[trigger] heard[j] != UrlStatus::Answering;
            &&& forall|k: int|
                0 <= k < heard.len() && #[trigger] heard[k] == UrlStatus::Answering && (forall|
                    j: int,
                |
                    0 <= j < k ==> #[trigger] heard[j] != UrlStatus::Answering) ==> choice_of(
                    candidates,
                    heard,
                ) == Choice::Chosen(Some(asked[k]))
            &&& none && heard.len() < asked.len() ==> choice_of(candidates, heard) == Choice::Ask(
                asked[heard.len() as int],
            )
            &&& none && heard.len() == asked.len() && asked.len() > 0 ==> choice_of(
                candidates,
                heard,
            ) == Choice::Chosen(Some(asked[0]))
            &&& asked.len() == 0 && candidates.len() > 0 ==> choice_of(candidates, heard)
                == Choice::Chosen(Some(candidates[0].0@))
            &&& candidates.len() == 0 ==> choice_of(candidates, heard) == Choice::Chosen(None)
        }),
{
    lemma_there(heard, 0);
    if candidates.len() == 0 {
        assert(sure(candidates).len() == 0);
    }
}

/// Which statuses count as an answer: anything that is not an error, and a
/// refusal to let one in.
pub proof fn a_page_that_refuses_is_there(status: int)
    ensures
        200 <= status <= 399 ==> responding(status),
        status == 401 || status == 403 ==> responding(status),
        status < 200 || status == 400 || status == 402 || status >= 404 ==> !responding(status),
{
}

/// A project's own file says where it is served; only without one does the
/// address that was found count.
pub proof fn a_projects_file_says_where_it_is(
    file: Option<FileFound>,
    dev_url: Option<Seq<char>>,
    hash: Seq<char>,
)
    ensures
        file matches Some(f) ==> (f.url is Some ==> address_of(file, dev_url) == f.url),
        file matches Some(f) ==> (f.url is None ==> address_of(file, dev_url) == dev_url),
        file is None ==> address_of(file, dev_url) == dev_url && !changed_since(file, hash),
        file matches Some(f) ==> (changed_since(file, hash) <==> f.source_hash is Some
            && f.source_hash != Some(hash)),
{
}

/// What is known of an address: nothing of none, what was heard where it is the
/// one that was asked, and otherwise it has to be asked.
pub proof fn an_address_is_asked_unless_it_was(
    url: Option<Seq<char>>,
    dev_url: Option<Seq<char>>,
    heard: Seq<UrlStatus>,
)
    ensures
        url is None ==> asking(url, dev_url, heard) == Asking::Known(UrlStatus::Unknown),
        url is Some && url != dev_url ==> asking(url, dev_url, heard) is AskIt,
        url is Some && heard.len() == 0 ==> asking(url, dev_url, heard) is AskIt,
        url is Some && url == dev_url && heard.len() > 0 ==> asking(url, dev_url, heard)
            == Asking::Known(
            if exists|k: int| 0 <= k < heard.len() && #[trigger] heard[k] == UrlStatus::Answering {
                UrlStatus::Answering
            } else {
                UrlStatus::NotResponding
            },
        ),
{
    lemma_there(heard, 0);
}

/// A new row replaces that of the active profile, unless it is locked; no other
/// profile changes.
pub proof fn a_locked_profile_keeps_its_row(
    t: Seq<(Seq<char>, ProfileKept)>,
    active: Seq<char>,
    row: Seq<Panelled>,
    other: Seq<char>,
)
    ensures
        lookup(t, active) matches Some(p) ==> (p.locked ==> with_row(t, active, row) == t),
        lookup(t, active) matches Some(p) ==> (!p.locked ==> lookup(with_row(t, active, row), active)
            == Some(ProfileKept { viewports: row, ..p })),
        lookup(t, active) is None ==> with_row(t, active, row) == t,
        other != active ==> lookup(with_row(t, active, row), other) == lookup(t, other),
{
    if let Some(p) = lookup(t, active) {
        crate::table::lookup_gives_what_was_put(
            t,
            active,
            ProfileKept { viewports: row, ..p },
            true,
            other,
        );
    }
}

/// An address is worth remembering unless it is blank or one of the browser's
/// own pages.
pub proof fn a_blank_page_is_not_remembered(url: Seq<char>)
    ensures
        worth_remembering(url) <==> trimmed(url).len() > 0 && !begins(trimmed(url), "about:"@),
{
}

/// A project is named by its folder, and "project" where the folder has no name;
/// what is remembered of one never seen before is nothing.
pub proof fn a_project_is_named_by_its_folder(
    root: Seq<char>,
    t: Seq<(Seq<char>, RecordKept)>,
)
    ensures
        name_of(root) matches Some(n) ==> name_of_project(root) == n,
        name_of(root) is None ==> name_of_project(root) == "project"@,
        lookup(t, root) matches Some(r) ==> record_of(t, root) == r,
        lookup(t, root) is None ==> record_of(t, root).url is None && record_of(t, root).framework
            is None && record_of(t, root).source_hash is None && record_of(t, root).last_scan
            is None && record_of(t, root).shot_dir is None,
{
}

/// What a file says its widths come from is the first framework's own file, or
/// the stylesheets where there was no framework, with the hash of the widths.
pub proof fn the_widths_come_from_the_first_framework(report: ScanReport)
    ensures
        report.frameworks@.len() > 0 ==> source_of(Some(report)).0
            == report.frameworks@[0].source_file@,
        report.frameworks@.len() == 0 ==> source_of(Some(report)).0 == "css media queries"@,
        source_of(Some(report)).1 == report.source_hash@,
        source_of(None).0.len() == 0 && source_of(None).1.len() == 0,
{
}

} // verus!
