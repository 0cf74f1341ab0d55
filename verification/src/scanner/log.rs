//! The scan diagnostics log.
//!
//! Detection will fail on real projects. The point is not to prevent that, it
//! is to make every failure legible enough to fix the detector instead of
//! guessing why a project came up empty. So a detector that finds nothing still
//! has to say what it looked at and why nothing qualified.
//!
//! Nothing outside the project root is ever logged, and no file content beyond
//! the snippet that failed to parse.

use vstd::prelude::*;
use vstd::string::StringExecFns;
use crate::order::{sorted, stable_sort, string_less, text_below};
use crate::text::{
    begins, begins_with, chars_of, decimal, decimal_string, finishes, finishes_with, join, joined,
    lines, lines_of, number_string, opt_view, same, slice_string, string_of, texts, trim_str,
    trimmed,
};
use super::record::{record, record_of_entry};

verus! {

/// One thing worth knowing about a scan.
#[derive(Debug)]
pub enum LogEvent {
    ScanStart { project: String, at: String },
    DetectorStart { name: String },
    DetectorEnd { name: String, found: usize, took_ms: u64 },
    FileRead { file: String, bytes: usize },
    FileSkip { file: String, reason: String },
    Note { message: String },
    ParseFailure {
        file: String,
        line: Option<usize>,
        snippet: String,
        step: String,
        reason: String,
    },
    Discarded { file: String, value: String, reason: String },
    Candidate { url: String, source: String, confidence: u32 },
    Merged { widths: Vec<i64>, conflicts: usize },
}

/// A [`LogEvent`], with its texts as characters.
pub enum Event {
    ScanStart { project: Seq<char>, at: Seq<char> },
    DetectorStart { name: Seq<char> },
    DetectorEnd { name: Seq<char>, found: usize, took_ms: u64 },
    FileRead { file: Seq<char>, bytes: usize },
    FileSkip { file: Seq<char>, reason: Seq<char> },
    Note { message: Seq<char> },
    ParseFailure {
        file: Seq<char>,
        line: Option<usize>,
        snippet: Seq<char>,
        step: Seq<char>,
        reason: Seq<char>,
    },
    Discarded { file: Seq<char>, value: Seq<char>, reason: Seq<char> },
    Candidate { url: Seq<char>, source: Seq<char>, confidence: u32 },
    Merged { widths: Seq<i64>, conflicts: usize },
}

impl View for LogEvent {
    type V = Event;

    open spec fn view(&self) -> Event {
        match *self {
            LogEvent::ScanStart { project, at } => Event::ScanStart {
                project: project@,
                at: at@,
            },
            LogEvent::DetectorStart { name } => Event::DetectorStart { name: name@ },
            LogEvent::DetectorEnd { name, found, took_ms } => Event::DetectorEnd {
                name: name@,
                found,
                took_ms,
            },
            LogEvent::FileRead { file, bytes } => Event::FileRead { file: file@, bytes },
            LogEvent::FileSkip { file, reason } => Event::FileSkip {
                file: file@,
                reason: reason@,
            },
            LogEvent::Note { message } => Event::Note { message: message@ },
            LogEvent::ParseFailure { file, line, snippet, step, reason } => Event::ParseFailure {
                file: file@,
                line,
                snippet: snippet@,
                step: step@,
                reason: reason@,
            },
            LogEvent::Discarded { file, value, reason } => Event::Discarded {
                file: file@,
                value: value@,
                reason: reason@,
            },
            LogEvent::Candidate { url, source, confidence } => Event::Candidate {
                url: url@,
                source: source@,
                confidence,
            },
            LogEvent::Merged { widths, conflicts } => Event::Merged { widths: widths@, conflicts },
        }
    }
}

/// An event, with who was running and when it happened.
#[derive(Debug)]
pub struct LogEntry {
    pub event: LogEvent,
    pub detector: Option<String>,
    pub ms: u64,
}

/// A [`LogEntry`], with its texts as characters.
pub struct Stamped {
    pub event: Event,
    pub detector: Option<Seq<char>>,
    pub ms: u64,
}

impl View for LogEntry {
    type V = Stamped;

    open spec fn view(&self) -> Stamped {
        Stamped { event: self.event@, detector: opt_view(self.detector), ms: self.ms }
    }
}

/// The log of one scan.
#[derive(Debug)]
pub struct ScanLog {
    detector: Option<String>,
    ms: u64,
    entries: Vec<LogEntry>,
}

/// What a log holds: the detector now running, the milliseconds since the scan
/// began as it was last told, and every entry in the order it was made.
#[verifier::ext_equal]
pub struct Logged {
    pub detector: Option<Seq<char>>,
    pub ms: u64,
    pub entries: Seq<Stamped>,
}

impl View for ScanLog {
    type V = Logged;

    closed spec fn view(&self) -> Logged {
        Logged {
            detector: opt_view(self.detector),
            ms: self.ms,
            entries: self.entries@.map_values(|e: LogEntry| e@),
        }
    }
}

impl Logged {
    /// The log after `events` happened, one after another.
    pub open spec fn with(self, events: Seq<Event>) -> Logged {
        Logged {
            detector: self.detector,
            ms: self.ms,
            entries: self.entries + events.map_values(
                |e: Event| Stamped { event: e, detector: self.detector, ms: self.ms },
            ),
        }
    }
}

pub broadcast proof fn lemma_with_with(log: Logged, a: Seq<Event>, b: Seq<Event>)
    ensures
        #[trigger] log.with(a).with(b) == log.with(a + b),
{
    assert(log.with(a).with(b) =~= log.with(a + b));
}

pub broadcast proof fn lemma_with_none(log: Logged)
    ensures
        #[trigger] log.with(Seq::empty()) == log,
{
    assert(log.with(Seq::empty()) =~= log);
}

/// What a snippet is cut down to: its lines trimmed and set on one line, and no
/// more than two hundred characters of that.
pub open spec fn snippet_of(s: Seq<char>) -> Seq<char> {
    let one_line = joined(lines(s).map_values(|l: Seq<char>| trimmed(l)), " "@);
    if one_line.len() > 200 {
        one_line.take(200)
    } else {
        one_line
    }
}

pub fn trim_snippet(snippet: &str) -> (r: String)
    ensures
        r@ == snippet_of(snippet@),
{
    let chars = chars_of(snippet);
    let all = lines_of(chars.as_slice());
    let mut parts: Vec<String> = Vec::new();
    let mut i: usize = 0;
    while i < all.len()
        invariant
            i <= all.len(),
            texts(parts@) =~= texts(all@).map_values(|l: Seq<char>| trimmed(l)).take(i as int),
        decreases all.len() - i,
    {
        let ghost before = texts(parts@);
        parts.push(trim_str(all[i].as_str()));
        assert(texts(parts@) =~= before.push(trimmed(all@[i as int]@)));
        i += 1;
    }
    assert(texts(parts@) =~= lines(snippet@).map_values(|l: Seq<char>| trimmed(l)));
    let one_line = chars_of(join(&parts, " ").as_str());
    if one_line.len() > 200 {
        slice_string(one_line.as_slice(), 0, 200)
    } else {
        string_of(one_line.as_slice())
    }
}

impl ScanLog {
    /// A log of a scan of `project` that began at the moment `at`.
    pub fn new(project: &str, at: &str) -> (r: Self)
        ensures
            r@ == (Logged { detector: None, ms: 0, entries: Seq::empty() }).with(
                seq![Event::ScanStart { project: project@, at: at@ }],
            ),
    {
        let mut log = ScanLog { detector: None, ms: 0, entries: Vec::new() };
        assert(log@ =~= Logged { detector: None, ms: 0, entries: Seq::empty() });
        log.push(LogEvent::ScanStart { project: project.to_owned(), at: at.to_owned() });
        log
    }

    /// Say how many milliseconds the scan has been running.
    pub fn tell_time(&mut self, ms: u64)
        ensures
            final(self)@ == (Logged { ms, ..old(self)@ }),
    {
        self.ms = ms;
    }

    fn push(&mut self, event: LogEvent)
        ensures
            final(self)@ == old(self)@.with(seq![event@]),
    {
        let detector = crate::text::clone_opt(&self.detector);
        let ghost before = self.entries@.map_values(|e: LogEntry| e@);
        self.entries.push(LogEntry { event, detector, ms: self.ms });
        assert(self.entries@.map_values(|e: LogEntry| e@) =~= before.push(
            Stamped { event: event@, detector: opt_view(self.detector), ms: self.ms },
        ));
        assert(self@ =~= old(self)@.with(seq![event@]));
    }

    pub fn detector_start(&mut self, name: &str)
        ensures
            final(self)@ == (Logged {
                detector: Some(name@),
                ..(Logged { detector: None, ..old(self)@ }).with(
                    seq![Event::DetectorStart { name: name@ }],
                )
            }),
    {
        self.detector = None;
        self.push(LogEvent::DetectorStart { name: name.to_owned() });
        self.detector = Some(name.to_owned());
    }

    pub fn detector_end(&mut self, name: &str, found: usize, took_ms: u64)
        ensures
            final(self)@ == (Logged {
                detector: None,
                ..old(self)@.with(seq![Event::DetectorEnd { name: name@, found, took_ms }])
            }),
    {
        self.push(LogEvent::DetectorEnd { name: name.to_owned(), found, took_ms });
        self.detector = None;
    }

    pub fn read(&mut self, file: &str, bytes: usize)
        ensures
            final(self)@ == old(self)@.with(seq![Event::FileRead { file: file@, bytes }]),
    {
        self.push(LogEvent::FileRead { file: file.to_owned(), bytes });
    }

    pub fn skip(&mut self, file: &str, reason: &str)
        ensures
            final(self)@ == old(self)@.with(
                seq![Event::FileSkip { file: file@, reason: reason@ }],
            ),
    {
        self.push(LogEvent::FileSkip { file: file.to_owned(), reason: reason.to_owned() });
    }

    pub fn note(&mut self, message: &str)
        ensures
            final(self)@ == old(self)@.with(seq![Event::Note { message: message@ }]),
    {
        self.push(LogEvent::Note { message: message.to_owned() });
    }

    /// A parse failure, in full: where it was, what it looked like, and which
    /// step gave up. This is the entry that makes the detector improvable.
    pub fn parse_failure(
        &mut self,
        file: &str,
        line: Option<usize>,
        snippet: &str,
        step: &str,
        reason: &str,
    )
        ensures
            final(self)@ == old(self)@.with(
                seq![
                    Event::ParseFailure {
                        file: file@,
                        line,
                        snippet: snippet_of(snippet@),
                        step: step@,
                        reason: reason@,
                    },
                ],
            ),
    {
        self.push(
            LogEvent::ParseFailure {
                file: file.to_owned(),
                line,
                snippet: trim_snippet(snippet),
                step: step.to_owned(),
                reason: reason.to_owned(),
            },
        );
    }

    /// A value we found and threw away, with why. Half of a detector's job.
    pub fn discarded(&mut self, file: &str, value: &str, reason: &str)
        ensures
            final(self)@ == old(self)@.with(
                seq![Event::Discarded { file: file@, value: value@, reason: reason@ }],
            ),
    {
        self.push(
            LogEvent::Discarded {
                file: file.to_owned(),
                value: value.to_owned(),
                reason: reason.to_owned(),
            },
        );
    }

    pub fn candidate(&mut self, url: &str, source: &str, confidence: u32)
        ensures
            final(self)@ == old(self)@.with(
                seq![Event::Candidate { url: url@, source: source@, confidence }],
            ),
    {
        self.push(
            LogEvent::Candidate { url: url.to_owned(), source: source.to_owned(), confidence },
        );
    }

    pub fn merged(&mut self, widths: Vec<i64>, conflicts: usize)
        ensures
            final(self)@ == old(self)@.with(seq![Event::Merged { widths: widths@, conflicts }]),
    {
        self.push(LogEvent::Merged { widths, conflicts });
    }

    pub fn entries(&self) -> (r: &Vec<LogEntry>)
        ensures
            r@.map_values(|e: LogEntry| e@) == self@.entries,
    {
        &self.entries
    }

    /// The lines a scan warning's "why?" expander should show for one file.
    pub fn lines_for_file(&self, file: &str) -> (r: Vec<String>)
        ensures
            texts(r@) == lines_about(self@.entries, file@),
    {
        let mut out: Vec<String> = Vec::new();
        let mut i: usize = 0;
        let ghost all = self@.entries;
        assert(lines_about(all.take(0), file@) =~= Seq::<Seq<char>>::empty());
        assert(texts(out@) =~= Seq::<Seq<char>>::empty());
        while i < self.entries.len()
            invariant
                i <= self.entries@.len(),
                all == self.entries@.map_values(|e: LogEntry| e@),
                texts(out@) == lines_about(all.take(i as int), file@),
            decreases self.entries@.len() - i,
        {
            let entry = &self.entries[i];
            let ghost before = texts(out@);
            proof {
                assert(all.take(i + 1).drop_last() =~= all.take(i as int));
                assert(all.take(i + 1).last() == entry@);
            }
            if about(&entry.event, file) {
                let line = render_line(entry);
                out.push(line);
                assert(texts(out@) =~= before.push(line@));
            }
            i += 1;
        }
        assert(all.take(all.len() as int) =~= all);
        out
    }
}

/// Whether an event is one the "why?" expander shows for `file`.
pub open spec fn is_about(e: Event, file: Seq<char>) -> bool {
    match e {
        Event::ParseFailure { file: f, .. } => f == file,
        Event::Discarded { file: f, .. } => f == file,
        Event::FileSkip { file: f, .. } => f == file,
        _ => false,
    }
}

fn about(e: &LogEvent, file: &str) -> (r: bool)
    ensures
        r == is_about(e@, file@),
{
    match e {
        LogEvent::ParseFailure { file: f, .. } => same(f.as_str(), file),
        LogEvent::Discarded { file: f, .. } => same(f.as_str(), file),
        LogEvent::FileSkip { file: f, .. } => same(f.as_str(), file),
        _ => false,
    }
}

/// The lines about `file`, in the order they were logged.
pub open spec fn lines_about(entries: Seq<Stamped>, file: Seq<char>) -> Seq<Seq<char>>
    decreases entries.len(),
{
    if entries.len() == 0 {
        Seq::empty()
    } else {
        let before = lines_about(entries.drop_last(), file);
        let e = entries.last();
        if is_about(e.event, file) {
            before.push(line_of_entry(e))
        } else {
            before
        }
    }
}

/// A confidence in hundredths, written the way a decimal fraction is.
pub open spec fn hundredths(n: nat) -> Seq<char> {
    if n % 100 == 0 {
        decimal(n / 100)
    } else if n % 10 == 0 {
        decimal(n / 100) + "."@ + decimal(n / 10 % 10)
    } else {
        decimal(n / 100) + "."@ + decimal(n / 10 % 10) + decimal(n % 10)
    }
}

pub fn hundredths_string(n: u32) -> (r: String)
    ensures
        r@ == hundredths(n as nat),
{
    let mut out = decimal_string((n / 100) as u64);
    if n % 100 != 0 {
        out.append(".");
        out.append(decimal_string((n / 10 % 10) as u64).as_str());
        if n % 10 != 0 {
            out.append(decimal_string((n % 10) as u64).as_str());
        }
    }
    out
}

/// The wording an event has of its own, if it has one.
pub open spec fn line_of_event(e: Event) -> Option<Seq<char>> {
    match e {
        Event::ParseFailure { file, line, snippet, step, reason } => Some(
            file + (match line {
                Some(l) => ":"@ + decimal(l as nat),
                None => ""@,
            }) + " — "@ + reason + " ("@ + step + ")\n    "@ + snippet,
        ),
        Event::Discarded { file, value, reason } => Some(
            file + " — discarded "@ + value + ": "@ + reason,
        ),
        Event::FileSkip { file, reason } => Some(file + " — skipped: "@ + reason),
        Event::Candidate { url, source, confidence } => Some(
            url + " from "@ + source + " (confidence "@ + hundredths(confidence as nat) + ")"@,
        ),
        Event::Note { message } => Some(message),
        _ => None,
    }
}

fn wording(e: &LogEvent) -> (r: Option<String>)
    ensures
        opt_view(r) == line_of_event(e@),
{
    match e {
        LogEvent::ParseFailure { file, line, snippet, step, reason } => {
            let mut out = file.as_str().to_owned();
            let place = match line {
                Some(l) => {
                    let mut p = ":".to_owned();
                    p.append(number_string(*l).as_str());
                    p
                },
                None => "".to_owned(),
            };
            out.append(place.as_str());
            out.append(" — ");
            out.append(reason.as_str());
            out.append(" (");
            out.append(step.as_str());
            out.append(")\n    ");
            out.append(snippet.as_str());
            Some(out)
        },
        LogEvent::Discarded { file, value, reason } => {
            let mut out = file.as_str().to_owned();
            out.append(" — discarded ");
            out.append(value.as_str());
            out.append(": ");
            out.append(reason.as_str());
            Some(out)
        },
        LogEvent::FileSkip { file, reason } => {
            let mut out = file.as_str().to_owned();
            out.append(" — skipped: ");
            out.append(reason.as_str());
            Some(out)
        },
        LogEvent::Candidate { url, source, confidence } => {
            let mut out = url.as_str().to_owned();
            out.append(" from ");
            out.append(source.as_str());
            out.append(" (confidence ");
            out.append(hundredths_string(*confidence).as_str());
            out.append(")");
            Some(out)
        },
        LogEvent::Note { message } => Some(message.as_str().to_owned()),
        _ => None,
    }
}

/// An entry the way the scan sheet shows it: worded where the event has a
/// wording, and otherwise as it is kept.
pub open spec fn line_of_entry(s: Stamped) -> Seq<char> {
    match line_of_event(s.event) {
        Some(line) => line,
        None => record_of_entry(s),
    }
}

pub fn render_line(entry: &LogEntry) -> (r: String)
    ensures
        r@ == line_of_entry(entry@),
{
    match wording(&entry.event) {
        Some(line) => line,
        None => record(entry),
    }
}

/// The name a log is kept under.
pub fn log_file_name(project_slug: &str, now_ms: u64) -> (r: String)
    ensures
        r@ == project_slug@ + "-"@ + decimal(now_ms as nat) + ".log"@,
{
    let mut out = project_slug.to_owned();
    out.append("-");
    out.append(decimal_string(now_ms).as_str());
    out.append(".log");
    out
}

/// Whether a file name is one of this project's logs.
pub open spec fn is_log_of(name: Seq<char>, slug: Seq<char>) -> bool {
    begins(name, slug + "-"@) && finishes(name, ".log"@)
}

/// Which of the files in the log directory to remove so that this project
/// keeps its last `keep` logs: the lowest names, lowest first.
pub open spec fn logs_to_prune(names: Seq<Seq<char>>, slug: Seq<char>, keep: nat) -> Seq<
    Seq<char>,
> {
    let mine = sorted(
        names.filter(|n: Seq<char>| is_log_of(n, slug)),
        |a: Seq<char>, b: Seq<char>| text_below(a, b),
    );
    if mine.len() <= keep {
        Seq::empty()
    } else {
        mine.take(mine.len() - keep)
    }
}

pub fn prune(names: &Vec<String>, project_slug: &str, keep: usize) -> (r: Vec<String>)
    ensures
        texts(r@) == logs_to_prune(texts(names@), project_slug@, keep as nat),
{
    let mut prefix = project_slug.to_owned();
    prefix.append("-");
    let mut mine: Vec<String> = Vec::new();
    let ghost p = |n: Seq<char>| is_log_of(n, project_slug@);
    let mut i: usize = 0;
    assert(texts(names@).take(0) =~= Seq::<Seq<char>>::empty());
    assert(texts(mine@) =~= texts(names@).take(0).filter(p)) by {
        reveal(Seq::filter);
    }
    while i < names.len()
        invariant
            i <= names.len(),
            prefix@ == project_slug@ + "-"@,
            p == (|n: Seq<char>| is_log_of(n, project_slug@)),
            texts(mine@) == texts(names@).take(i as int).filter(p),
        decreases names.len() - i,
    {
        let ghost before = texts(mine@);
        proof {
            let t = texts(names@).take(i + 1);
            assert(t.drop_last() =~= texts(names@).take(i as int));
            assert(t =~= t.drop_last().push(names@[i as int]@));
            t.drop_last().lemma_filter_push(names@[i as int]@, p);
        }
        if begins_with(names[i].as_str(), prefix.as_str()) && finishes_with(
            names[i].as_str(),
            ".log",
        ) {
            mine.push(names[i].as_str().to_owned());
            assert(texts(mine@) =~= before.push(names@[i as int]@));
        }
        i += 1;
    }
    assert(texts(names@).take(names@.len() as int) =~= texts(names@));
    let ghost unsorted = mine@;
    let ghost lt = |a: String, b: String| text_below(a@, b@);
    let mut mine = stable_sort(
        mine,
        string_less,
        Ghost(lt),
    );
    proof {
        crate::order::lemma_sorted_view(
            unsorted,
            lt,
            |s: String| s@,
            |a: Seq<char>, b: Seq<char>| text_below(a, b),
        );
    }
    if mine.len() <= keep {
        let none: Vec<String> = Vec::new();
        assert(texts(none@) =~= Seq::<Seq<char>>::empty());
        none
    } else {
        let ghost all = texts(mine@);
        let n: usize = mine.len() - keep;
        mine.truncate(n);
        assert(texts(mine@) =~= all.take(n as int));
        mine
    }
}

/// What is told of a file is every failure, discard and skip of that file, in
/// the order they came, and nothing of another file.
pub proof fn what_went_wrong_with_a_file_is_told(entries: Seq<Stamped>, file: Seq<char>)
    ensures
        lines_about(entries, file) == entries.filter(
            |e: Stamped|
                {
                    ||| e.event matches Event::ParseFailure { file: f, .. } && f == file
                    ||| e.event matches Event::Discarded { file: f, .. } && f == file
                    ||| e.event matches Event::FileSkip { file: f, .. } && f == file
                },
        ).map_values(|e: Stamped| line_of_entry(e)),
    decreases entries.len(),
{
    reveal(Seq::filter);
    let about = |e: Stamped|
        {
            ||| e.event matches Event::ParseFailure { file: f, .. } && f == file
            ||| e.event matches Event::Discarded { file: f, .. } && f == file
            ||| e.event matches Event::FileSkip { file: f, .. } && f == file
        };
    let told = |e: Stamped| line_of_entry(e);
    if entries.len() == 0 {
        assert(entries.filter(about).map_values(told) =~= Seq::empty());
    } else {
        let d = entries.drop_last();
        what_went_wrong_with_a_file_is_told(d, file);
        let before = d.filter(about);
        assert(before.push(entries.last()).map_values(told) =~= before.map_values(told).push(
            line_of_entry(entries.last()),
        ));
    }
}

/// A number of hundredths is written with as many decimals as it needs.
pub proof fn hundredths_are_written_plainly(a: nat, b: nat, c: nat)
    requires
        b < 10,
        c < 10,
    ensures
        hundredths(100 * a) == decimal(a),
        b > 0 ==> hundredths(100 * a + 10 * b) == decimal(a) + "."@ + decimal(b),
        c > 0 ==> hundredths(100 * a + 10 * b + c) == decimal(a) + "."@ + decimal(b) + decimal(c),
{
}

/// A snippet is one line of no more than two hundred characters.
pub proof fn a_snippet_is_short(s: Seq<char>)
    ensures
        snippet_of(s).len() <= 200,
        ({
            let one_line = joined(lines(s).map_values(|l: Seq<char>| trimmed(l)), " "@);
            one_line.len() <= 200 ==> snippet_of(s) == one_line
        }),
        crate::text::begins(
            joined(lines(s).map_values(|l: Seq<char>| trimmed(l)), " "@),
            snippet_of(s),
        ),
{
    let one_line = joined(lines(s).map_values(|l: Seq<char>| trimmed(l)), " "@);
    let n = snippet_of(s).len() as int;
    assert(one_line.subrange(0, n) =~= snippet_of(s));
    assert(one_line.take(n) =~= snippet_of(s));
}

/// What a log says of an event names what it is about and why.
pub proof fn a_line_says_what_happened(
    file: Seq<char>,
    value: Seq<char>,
    reason: Seq<char>,
)
    ensures
        line_of_event(Event::FileSkip { file, reason }) == Some(file + " — skipped: "@ + reason),
        line_of_event(Event::Discarded { file, value, reason }) == Some(
            file + " — discarded "@ + value + ": "@ + reason,
        ),
        line_of_event(Event::Note { message: value }) == Some(value),
{
}

/// Pruning leaves the newest logs of a project: as many go as there are over the
/// number kept, each is a log of that project, and none that stays has an earlier
/// name than one that goes.
pub proof fn the_oldest_logs_are_pruned(
    names: Seq<Seq<char>>,
    slug: Seq<char>,
    keep: nat,
    x: Seq<char>,
    y: Seq<char>,
)
    ensures
        ({
            let mine = names.filter(
                |n: Seq<char>| begins(n, slug + "-"@) && finishes(n, ".log"@),
            );
            let gone = logs_to_prune(names, slug, keep);
            &&& mine.len() > keep ==> gone.len() == mine.len() - keep
            &&& mine.len() <= keep ==> gone.len() == 0
            &&& gone.contains(x) ==> mine.contains(x)
            &&& gone.contains(x) && mine.contains(y) && !gone.contains(y) ==> !text_below(y, x)
        }),
{
    let p = |n: Seq<char>| begins(n, slug + "-"@) && finishes(n, ".log"@);
    let q = |n: Seq<char>| is_log_of(n, slug);
    assert(p =~= q);
    let mine = names.filter(p);
    let lt = |a: Seq<char>, b: Seq<char>| text_below(a, b);
    assert(crate::order::ranks(lt)) by {
        assert forall|a: Seq<char>| !#[trigger] lt(a, a) by {
            crate::order::lemma_text_below(a, a, a);
        }
        assert forall|a: Seq<char>, b: Seq<char>| #[trigger] lt(a, b) implies !lt(b, a) by {
            crate::order::lemma_text_below(a, b, b);
        }
        assert forall|a: Seq<char>, b: Seq<char>, c: Seq<char>|
            !(#[trigger] lt(a, b)) && !(#[trigger] lt(b, c)) implies !lt(a, c) by {
            crate::order::lemma_text_below(a, b, c);
        }
    }
    crate::order::sorting_is_ordered_and_complete(mine, lt);
    crate::order::lemma_sorted_keeps(mine, lt, x);
    crate::order::lemma_sorted_keeps(mine, lt, y);
    let o = sorted(mine, lt);
    let gone = logs_to_prune(names, slug, keep);
    if gone.contains(x) {
        let i = gone.index_of(x);
        assert(o[i] == x);
        assert(o.contains(x));
        if mine.contains(y) && !gone.contains(y) {
            let j = o.index_of(y);
            if j < gone.len() {
                assert(gone[j] == y);
            }
            assert(!lt(o[j], o[i]));
        }
    }
}

} // verus!
