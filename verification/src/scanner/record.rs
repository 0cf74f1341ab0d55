//! How a scan log is kept: one JSON object per line, its members in the order
//! of their names.

use vstd::prelude::*;
use vstd::string::StringExecFns;
use crate::json::{a_quoted_text_is_one_line, json_string, json_written, quote, rewritten};
use crate::text::{decimal, decimal_string, join, joined, number_string, texts};
use super::log::{hundredths, hundredths_string, Event, LogEntry, LogEvent, ScanLog, Stamped};
use super::units::{decimals, px_string, px_text};

verus! {

/// One member of an object: its name, and its value already written.
pub open spec fn member(name: Seq<char>, value: Seq<char>) -> Seq<char> {
    "\""@ + name + "\":"@ + value
}

fn member_string(name: &str, value: &str) -> (r: String)
    ensures
        r@ == member(name@, value@),
{
    let mut out = "\"".to_owned();
    out.append(name);
    out.append("\":");
    out.append(value);
    out
}

/// A text with no line break in it.
pub open spec fn unbroken(s: Seq<char>) -> bool {
    forall|i: int| 0 <= i < s.len() ==> #[trigger] s[i] != '\n'
}

pub open spec fn are_unbroken(parts: Seq<Seq<char>>) -> bool {
    forall|i: int| 0 <= i < parts.len() ==> unbroken(#[trigger] parts[i])
}

/// A fraction, as serde_json writes it.
pub open spec fn fraction_text(number: Seq<char>) -> Seq<char> {
    match json_written(number) {
        Some(t) => t,
        None => number,
    }
}

fn fraction_string(number: &str) -> (r: String)
    requires
        unbroken(number@),
    ensures
        r@ == fraction_text(number@),
        unbroken(r@),
{
    match rewritten(number) {
        Some(t) => t,
        None => number.to_owned(),
    }
}

/// A fraction keeps its point when there is nothing behind it.
pub open spec fn with_point(number: Seq<char>, is_whole: bool) -> Seq<char> {
    if is_whole {
        number + ".0"@
    } else {
        number
    }
}

pub open spec fn width_text(w: int) -> Seq<char> {
    fraction_text(with_point(px_text(w), w % 1_000_000 == 0))
}

fn width_string(w: i64) -> (r: String)
    ensures
        r@ == width_text(w as int),
        unbroken(r@),
{
    proof {
        reveal_strlit(".0");
        lemma_unbroken_px(w as int);
    }
    let mut out = px_string(w);
    if w % 1_000_000 == 0 {
        out.append(".0");
    }
    fraction_string(out.as_str())
}

pub open spec fn confidence_text(n: nat) -> Seq<char> {
    fraction_text(with_point(hundredths(n), n % 100 == 0))
}

fn confidence_string(n: u32) -> (r: String)
    ensures
        r@ == confidence_text(n as nat),
        unbroken(r@),
{
    proof {
        reveal_strlit(".0");
        lemma_unbroken_hundredths(n as nat);
    }
    let mut out = hundredths_string(n);
    if n % 100 == 0 {
        out.append(".0");
    }
    fraction_string(out.as_str())
}

pub open spec fn width_texts(widths: Seq<i64>) -> Seq<Seq<char>> {
    widths.map_values(|w: i64| width_text(w as int))
}

fn width_strings(widths: &Vec<i64>) -> (r: Vec<String>)
    ensures
        texts(r@) == width_texts(widths@),
        are_unbroken(width_texts(widths@)),
{
    let mut out: Vec<String> = Vec::new();
    let mut i: usize = 0;
    assert(texts(out@) =~= width_texts(widths@).take(0));
    while i < widths.len()
        invariant
            i <= widths@.len(),
            texts(out@) == width_texts(widths@).take(i as int),
            are_unbroken(texts(out@)),
        decreases widths@.len() - i,
    {
        let ghost before = texts(out@);
        let text = width_string(widths[i]);
        out.push(text);
        assert(texts(out@) =~= before.push(text@));
        assert(width_texts(widths@).take(i + 1) =~= before.push(text@));
        i += 1;
    }
    assert(width_texts(widths@).take(widths@.len() as int) =~= width_texts(widths@));
    out
}

/// What an event is called.
pub open spec fn event_name(e: Event) -> Seq<char> {
    match e {
        Event::ScanStart { .. } => "scan.start"@,
        Event::DetectorStart { .. } => "detector.start"@,
        Event::DetectorEnd { .. } => "detector.end"@,
        Event::FileRead { .. } => "file.read"@,
        Event::FileSkip { .. } => "file.skip"@,
        Event::Note { .. } => "note"@,
        Event::ParseFailure { .. } => "parse.failure"@,
        Event::Discarded { .. } => "value.discarded"@,
        Event::Candidate { .. } => "devurl.candidate"@,
        Event::Merged { .. } => "merge.result"@,
    }
}

fn name_of(e: &LogEvent) -> (r: &'static str)
    ensures
        r@ == event_name(e@),
{
    match e {
        LogEvent::ScanStart { .. } => "scan.start",
        LogEvent::DetectorStart { .. } => "detector.start",
        LogEvent::DetectorEnd { .. } => "detector.end",
        LogEvent::FileRead { .. } => "file.read",
        LogEvent::FileSkip { .. } => "file.skip",
        LogEvent::Note { .. } => "note",
        LogEvent::ParseFailure { .. } => "parse.failure",
        LogEvent::Discarded { .. } => "value.discarded",
        LogEvent::Candidate { .. } => "devurl.candidate",
        LogEvent::Merged { .. } => "merge.result",
    }
}

/// The members whose names come before `detector`.
pub open spec fn early_members(e: Event) -> Seq<Seq<char>> {
    match e {
        Event::ScanStart { at, .. } => seq![member("at"@, json_string(at))],
        Event::DetectorEnd { found, .. } => seq![
            member("breakpointsFound"@, decimal(found as nat)),
        ],
        Event::FileRead { bytes, .. } => seq![member("bytes"@, decimal(bytes as nat))],
        Event::Candidate { confidence, .. } => seq![
            member("confidence"@, confidence_text(confidence as nat)),
        ],
        Event::Merged { conflicts, .. } => seq![member("conflicts"@, decimal(conflicts as nat))],
        _ => Seq::empty(),
    }
}

/// The members whose names come between `event` and `ms`.
pub open spec fn middle_members(e: Event) -> Seq<Seq<char>> {
    match e {
        Event::FileRead { file, .. } => seq![member("file"@, json_string(file))],
        Event::FileSkip { file, .. } => seq![member("file"@, json_string(file))],
        Event::Discarded { file, .. } => seq![member("file"@, json_string(file))],
        Event::ParseFailure { file, line, .. } => seq![
            member("file"@, json_string(file)),
            member(
                "line"@,
                match line {
                    Some(l) => decimal(l as nat),
                    None => "null"@,
                },
            ),
        ],
        Event::Note { message } => seq![member("message"@, json_string(message))],
        _ => Seq::empty(),
    }
}

/// The members whose names come after `ms`.
pub open spec fn late_members(e: Event) -> Seq<Seq<char>> {
    match e {
        Event::ScanStart { project, .. } => seq![member("project"@, json_string(project))],
        Event::DetectorStart { name } => seq![member("name"@, json_string(name))],
        Event::DetectorEnd { name, took_ms, .. } => seq![
            member("name"@, json_string(name)),
            member("tookMs"@, decimal(took_ms as nat)),
        ],
        Event::FileSkip { reason, .. } => seq![member("reason"@, json_string(reason))],
        Event::ParseFailure { snippet, step, reason, .. } => seq![
            member("reason"@, json_string(reason)),
            member("snippet"@, json_string(snippet)),
            member("step"@, json_string(step)),
        ],
        Event::Discarded { value, reason, .. } => seq![
            member("reason"@, json_string(reason)),
            member("value"@, json_string(value)),
        ],
        Event::Candidate { url, source, .. } => seq![
            member("source"@, json_string(source)),
            member("url"@, json_string(url)),
        ],
        Event::Merged { widths, .. } => seq![
            member("widths"@, "["@ + joined(width_texts(widths), ","@) + "]"@),
        ],
        _ => Seq::empty(),
    }
}

pub open spec fn members_of(s: Stamped) -> Seq<Seq<char>> {
    early_members(s.event) + (match s.detector {
        Some(d) => seq![member("detector"@, json_string(d))],
        None => Seq::empty(),
    }) + seq![member("event"@, json_string(event_name(s.event)))] + middle_members(s.event) + seq![
        member("ms"@, decimal(s.ms as nat)),
    ] + late_members(s.event)
}

/// One entry, as a line of the file.
pub open spec fn record_of_entry(s: Stamped) -> Seq<char> {
    "{"@ + joined(members_of(s), ","@) + "}"@
}

fn put_text(out: &mut Vec<String>, name: &str, value: &str)
    ensures
        texts(final(out)@) == texts(old(out)@).push(member(name@, json_string(value@))),
{
    let ghost before = texts(out@);
    let text = member_string(name, quote(value).as_str());
    out.push(text);
    assert(texts(out@) =~= before.push(text@));
}

fn put_plain(out: &mut Vec<String>, name: &str, value: &str)
    ensures
        texts(final(out)@) == texts(old(out)@).push(member(name@, value@)),
{
    let ghost before = texts(out@);
    let text = member_string(name, value);
    out.push(text);
    assert(texts(out@) =~= before.push(text@));
}

fn put_early(out: &mut Vec<String>, e: &LogEvent)
    ensures
        texts(final(out)@) == texts(old(out)@) + early_members(e@),
        are_unbroken(early_members(e@)),
{
    let ghost before = texts(out@);
    match e {
        LogEvent::ScanStart { at, .. } => put_text(out, "at", at.as_str()),
        LogEvent::DetectorEnd { found, .. } => put_plain(
            out,
            "breakpointsFound",
            number_string(*found).as_str(),
        ),
        LogEvent::FileRead { bytes, .. } => put_plain(
            out,
            "bytes",
            number_string(*bytes).as_str(),
        ),
        LogEvent::Candidate { confidence, .. } => {
            let text = confidence_string(*confidence);
            assert(unbroken(confidence_text(*confidence as nat)));
            put_plain(out, "confidence", text.as_str());
        },
        LogEvent::Merged { conflicts, .. } => put_plain(
            out,
            "conflicts",
            number_string(*conflicts).as_str(),
        ),
        _ => {},
    }
    assert(texts(out@) =~= before + early_members(e@));
    proof {
        lemma_unbroken_early(e@);
    }
}

fn put_middle(out: &mut Vec<String>, e: &LogEvent)
    ensures
        texts(final(out)@) == texts(old(out)@) + middle_members(e@),
{
    let ghost before = texts(out@);
    match e {
        LogEvent::FileRead { file, .. } => put_text(out, "file", file.as_str()),
        LogEvent::FileSkip { file, .. } => put_text(out, "file", file.as_str()),
        LogEvent::Discarded { file, .. } => put_text(out, "file", file.as_str()),
        LogEvent::ParseFailure { file, line, .. } => {
            put_text(out, "file", file.as_str());
            let at = match line {
                Some(l) => number_string(*l),
                None => "null".to_owned(),
            };
            put_plain(out, "line", at.as_str());
        },
        LogEvent::Note { message } => put_text(out, "message", message.as_str()),
        _ => {},
    }
    assert(texts(out@) =~= before + middle_members(e@));
}

fn put_late(out: &mut Vec<String>, e: &LogEvent)
    ensures
        texts(final(out)@) == texts(old(out)@) + late_members(e@),
        are_unbroken(late_members(e@)),
{
    let ghost before = texts(out@);
    match e {
        LogEvent::ScanStart { project, .. } => put_text(out, "project", project.as_str()),
        LogEvent::DetectorStart { name } => put_text(out, "name", name.as_str()),
        LogEvent::DetectorEnd { name, took_ms, .. } => {
            put_text(out, "name", name.as_str());
            put_plain(out, "tookMs", decimal_string(*took_ms).as_str());
        },
        LogEvent::FileSkip { reason, .. } => put_text(out, "reason", reason.as_str()),
        LogEvent::ParseFailure { snippet, step, reason, .. } => {
            put_text(out, "reason", reason.as_str());
            put_text(out, "snippet", snippet.as_str());
            put_text(out, "step", step.as_str());
        },
        LogEvent::Discarded { value, reason, .. } => {
            put_text(out, "reason", reason.as_str());
            put_text(out, "value", value.as_str());
        },
        LogEvent::Candidate { url, source, .. } => {
            put_text(out, "source", source.as_str());
            put_text(out, "url", url.as_str());
        },
        LogEvent::Merged { widths, .. } => {
            let mut list = "[".to_owned();
            list.append(join(&width_strings(widths), ",").as_str());
            list.append("]");
            put_plain(out, "widths", list.as_str());
        },
        _ => {},
    }
    assert(texts(out@) =~= before + late_members(e@));
    proof {
        lemma_unbroken_late(e@);
    }
}

/// One entry of the log, as it is written down. Whatever it holds, it is written
/// on one line, so the file can be read back line by line.
pub fn record(e: &LogEntry) -> (r: String)
    ensures
        r@ == record_of_entry(e@),
        unbroken(r@),
{
    let mut members: Vec<String> = Vec::new();
    assert(texts(members@) =~= Seq::<Seq<char>>::empty());
    put_early(&mut members, &e.event);
    match &e.detector {
        Some(d) => put_text(&mut members, "detector", d.as_str()),
        None => {},
    }
    put_text(&mut members, "event", name_of(&e.event));
    put_middle(&mut members, &e.event);
    put_plain(&mut members, "ms", decimal_string(e.ms).as_str());
    put_late(&mut members, &e.event);
    assert(texts(members@) =~= members_of(e@));
    proof {
        lemma_entry_is_one_line(e@);
    }
    let mut out = "{".to_owned();
    out.append(join(&members, ",").as_str());
    out.append("}");
    out
}

pub open spec fn records_of(entries: Seq<Stamped>) -> Seq<Seq<char>> {
    entries.map_values(|s: Stamped| record_of_entry(s))
}

/// The whole log, one entry to a line.
pub fn log_text(log: &ScanLog) -> (r: String)
    ensures
        r@ == joined(records_of(log@.entries), "\n"@),
        are_unbroken(records_of(log@.entries)),
{
    let entries = log.entries();
    let ghost all = log@.entries;
    let mut lines: Vec<String> = Vec::new();
    let mut i: usize = 0;
    assert(texts(lines@) =~= records_of(all).take(0));
    while i < entries.len()
        invariant
            i <= entries@.len(),
            all == entries@.map_values(|e: LogEntry| e@),
            texts(lines@) == records_of(all).take(i as int),
            are_unbroken(texts(lines@)),
        decreases entries@.len() - i,
    {
        let ghost before = texts(lines@);
        let line = record(&entries[i]);
        lines.push(line);
        proof {
            assert(all[i as int] == entries@[i as int]@);
            assert(texts(lines@) =~= before.push(line@));
            assert(records_of(all).take(i + 1) =~= before.push(line@));
        }
        i += 1;
    }
    assert(records_of(all).take(all.len() as int) =~= records_of(all));
    join(&lines, "\n")
}

proof fn lemma_unbroken_add(a: Seq<char>, b: Seq<char>)
    requires
        unbroken(a),
        unbroken(b),
    ensures
        unbroken(a + b),
{
}

proof fn lemma_unbroken_decimal(n: nat)
    ensures
        unbroken(decimal(n)),
    decreases n,
{
    if n >= 10 {
        lemma_unbroken_decimal(n / 10);
    }
}

proof fn lemma_unbroken_px(w: int)
    ensures
        unbroken(px_text(w)),
{
    let m = if w < 0 {
        -w
    } else {
        w
    };
    reveal_strlit("-");
    reveal_strlit("");
    reveal_strlit(".");
    lemma_unbroken_decimal((m / 1_000_000) as nat);
    let f = (m % 1_000_000) as nat;
    reveal_with_fuel(decimals, 7);
    assert(unbroken(decimals(f, 100_000)));
}

proof fn lemma_unbroken_hundredths(n: nat)
    ensures
        unbroken(hundredths(n)),
{
    reveal_strlit(".");
    lemma_unbroken_decimal(n / 100);
    lemma_unbroken_decimal(n / 10 % 10);
    lemma_unbroken_decimal(n % 10);
}

proof fn lemma_unbroken_joined(parts: Seq<Seq<char>>, sep: Seq<char>)
    requires
        forall|i: int| 0 <= i < parts.len() ==> unbroken(#[trigger] parts[i]),
        unbroken(sep),
    ensures
        unbroken(joined(parts, sep)),
    decreases parts.len(),
{
    if parts.len() > 1 {
        lemma_unbroken_joined(parts.drop_last(), sep);
        let before = joined(parts.drop_last(), sep);
        lemma_unbroken_add(before, sep);
        lemma_unbroken_add(before + sep, parts.last());
    }
}

proof fn lemma_unbroken_text(name: Seq<char>, value: Seq<char>)
    requires
        unbroken(name),
    ensures
        unbroken(member(name, json_string(value))),
{
    a_quoted_text_is_one_line(value);
    lemma_unbroken_plain(name, json_string(value));
}

proof fn lemma_unbroken_plain(name: Seq<char>, value: Seq<char>)
    requires
        unbroken(name),
        unbroken(value),
    ensures
        unbroken(member(name, value)),
{
    reveal_strlit("\"");
    reveal_strlit("\":");
}

proof fn lemma_unbroken_widths(widths: Seq<i64>)
    requires
        are_unbroken(width_texts(widths)),
    ensures
        unbroken("["@ + joined(width_texts(widths), ","@) + "]"@),
{
    reveal_strlit("[");
    reveal_strlit("]");
    reveal_strlit(",");
    lemma_unbroken_joined(width_texts(widths), ","@);
}

proof fn lemma_unbroken_early(e: Event)
    requires
        e matches Event::Candidate { confidence, .. } ==> unbroken(
            confidence_text(confidence as nat),
        ),
    ensures
        are_unbroken(early_members(e)),
{
    match e {
        Event::ScanStart { at, .. } => {
            reveal_strlit("at");
            lemma_unbroken_text("at"@, at);
        },
        Event::DetectorEnd { found, .. } => {
            reveal_strlit("breakpointsFound");
            lemma_unbroken_decimal(found as nat);
            lemma_unbroken_plain("breakpointsFound"@, decimal(found as nat));
        },
        Event::FileRead { bytes, .. } => {
            reveal_strlit("bytes");
            lemma_unbroken_decimal(bytes as nat);
            lemma_unbroken_plain("bytes"@, decimal(bytes as nat));
        },
        Event::Candidate { confidence, .. } => {
            reveal_strlit("confidence");
            lemma_unbroken_plain("confidence"@, confidence_text(confidence as nat));
        },
        Event::Merged { conflicts, .. } => {
            reveal_strlit("conflicts");
            lemma_unbroken_decimal(conflicts as nat);
            lemma_unbroken_plain("conflicts"@, decimal(conflicts as nat));
        },
        _ => {},
    }
}

proof fn lemma_unbroken_middle(e: Event)
    ensures
        are_unbroken(middle_members(e)),
{
    reveal_strlit("file");
    match e {
        Event::FileRead { file, .. } => lemma_unbroken_text("file"@, file),
        Event::FileSkip { file, .. } => lemma_unbroken_text("file"@, file),
        Event::Discarded { file, .. } => lemma_unbroken_text("file"@, file),
        Event::ParseFailure { file, line, .. } => {
            reveal_strlit("line");
            reveal_strlit("null");
            lemma_unbroken_text("file"@, file);
            match line {
                Some(l) => {
                    lemma_unbroken_decimal(l as nat);
                    lemma_unbroken_plain("line"@, decimal(l as nat));
                },
                None => lemma_unbroken_plain("line"@, "null"@),
            }
        },
        Event::Note { message } => {
            reveal_strlit("message");
            lemma_unbroken_text("message"@, message);
        },
        _ => {},
    }
}

proof fn lemma_unbroken_late(e: Event)
    requires
        e matches Event::Merged { widths, .. } ==> are_unbroken(width_texts(widths)),
    ensures
        are_unbroken(late_members(e)),
{
    reveal_strlit("name");
    reveal_strlit("reason");
    match e {
        Event::ScanStart { project, .. } => {
            reveal_strlit("project");
            lemma_unbroken_text("project"@, project);
        },
        Event::DetectorStart { name } => lemma_unbroken_text("name"@, name),
        Event::DetectorEnd { name, took_ms, .. } => {
            reveal_strlit("tookMs");
            lemma_unbroken_text("name"@, name);
            lemma_unbroken_decimal(took_ms as nat);
            lemma_unbroken_plain("tookMs"@, decimal(took_ms as nat));
        },
        Event::FileSkip { reason, .. } => lemma_unbroken_text("reason"@, reason),
        Event::ParseFailure { snippet, step, reason, .. } => {
            reveal_strlit("snippet");
            reveal_strlit("step");
            lemma_unbroken_text("reason"@, reason);
            lemma_unbroken_text("snippet"@, snippet);
            lemma_unbroken_text("step"@, step);
        },
        Event::Discarded { value, reason, .. } => {
            reveal_strlit("value");
            lemma_unbroken_text("reason"@, reason);
            lemma_unbroken_text("value"@, value);
        },
        Event::Candidate { url, source, .. } => {
            reveal_strlit("source");
            reveal_strlit("url");
            lemma_unbroken_text("source"@, source);
            lemma_unbroken_text("url"@, url);
        },
        Event::Merged { widths, .. } => {
            reveal_strlit("widths");
            lemma_unbroken_widths(widths);
            lemma_unbroken_plain(
                "widths"@,
                "["@ + joined(width_texts(widths), ","@) + "]"@,
            );
        },
        _ => {},
    }
}

proof fn lemma_entry_is_one_line(s: Stamped)
    requires
        are_unbroken(early_members(s.event)),
        are_unbroken(late_members(s.event)),
    ensures
        unbroken(record_of_entry(s)),
{
    reveal_strlit("{");
    reveal_strlit("}");
    reveal_strlit(",");
    reveal_strlit("detector");
    reveal_strlit("event");
    reveal_strlit("ms");
    lemma_unbroken_middle(s.event);
    if let Some(d) = s.detector {
        lemma_unbroken_text("detector"@, d);
    }
    lemma_unbroken_text("event"@, event_name(s.event));
    lemma_unbroken_decimal(s.ms as nat);
    lemma_unbroken_plain("ms"@, decimal(s.ms as nat));
    let ms = members_of(s);
    assert forall|i: int| 0 <= i < ms.len() implies unbroken(#[trigger] ms[i]) by {
        let early = early_members(s.event);
        let who = match s.detector {
            Some(d) => seq![member("detector"@, json_string(d))],
            None => Seq::<Seq<char>>::empty(),
        };
        let middle = middle_members(s.event);
        let late = late_members(s.event);
        let a = early.len() as int;
        let b = a + who.len();
        let c = b + 1 + middle.len();
        if i < a {
            assert(ms[i] == early[i]);
        } else if i < b {
            assert(ms[i] == who[i - a]);
        } else if b < i < c {
            assert(ms[i] == middle[i - b - 1]);
        } else if i > c {
            assert(ms[i] == late[i - c - 1]);
        }
    }
    lemma_unbroken_joined(ms, ","@);
}

/// Each kind of event has its own name in the log.
pub proof fn an_event_is_recorded_by_its_name(e: Event)
    ensures
        e is ScanStart ==> event_name(e) == "scan.start"@,
        e is DetectorStart ==> event_name(e) == "detector.start"@,
        e is DetectorEnd ==> event_name(e) == "detector.end"@,
        e is FileRead ==> event_name(e) == "file.read"@,
        e is FileSkip ==> event_name(e) == "file.skip"@,
        e is Note ==> event_name(e) == "note"@,
        e is ParseFailure ==> event_name(e) == "parse.failure"@,
        e is Discarded ==> event_name(e) == "value.discarded"@,
        e is Candidate ==> event_name(e) == "devurl.candidate"@,
        e is Merged ==> event_name(e) == "merge.result"@,
{
}

proof fn lemma_among_members(s: Stamped, x: Seq<char>)
    requires
        early_members(s.event).contains(x) || middle_members(s.event).contains(x) || late_members(
            s.event,
        ).contains(x) || x == member("event"@, json_string(event_name(s.event))) || x == member(
            "ms"@,
            decimal(s.ms as nat),
        ) || (s.detector is Some && x == member("detector"@, json_string(s.detector->0))),
    ensures
        members_of(s).contains(x),
{
    let a = early_members(s.event);
    let b = match s.detector {
        Some(d) => seq![member("detector"@, json_string(d))],
        None => Seq::empty(),
    };
    let c = seq![member("event"@, json_string(event_name(s.event)))];
    let d = middle_members(s.event);
    let e = seq![member("ms"@, decimal(s.ms as nat))];
    let f = late_members(s.event);
    let all = members_of(s);
    assert(all =~= a + b + c + d + e + f);
    if a.contains(x) {
        assert(all[a.index_of(x)] == x);
    } else if d.contains(x) {
        assert(all[a.len() + b.len() + 1 + d.index_of(x)] == x);
    } else if f.contains(x) {
        assert(all[a.len() + b.len() + 1 + d.len() + 1 + f.index_of(x)] == x);
    } else if x == c[0] {
        assert(all[(a.len() + b.len()) as int] == x);
    } else if x == e[0] {
        assert(all[(a.len() + b.len() + 1 + d.len()) as int] == x);
    } else {
        assert(b[0] == x);
        assert(all[a.len() as int] == x);
    }
}

/// A record says when it was made, what of, and by which detector, whatever the
/// event.
pub proof fn a_record_says_when_and_what(s: Stamped)
    ensures
        members_of(s).contains(member("event"@, json_string(event_name(s.event)))),
        members_of(s).contains(member("ms"@, decimal(s.ms as nat))),
        s.detector matches Some(d) ==> members_of(s).contains(member("detector"@, json_string(d))),
{
    lemma_among_members(s, member("event"@, json_string(event_name(s.event))));
    lemma_among_members(s, member("ms"@, decimal(s.ms as nat)));
    if s.detector is Some {
        lemma_among_members(s, member("detector"@, json_string(s.detector->0)));
    }
}

/// A record of something that went wrong with a file names the file and the
/// reason, and what it was about.
pub proof fn a_record_says_what_went_wrong(s: Stamped)
    ensures
        s.event matches Event::FileSkip { file, reason } ==> members_of(s).contains(
            member("file"@, json_string(file)),
        ) && members_of(s).contains(member("reason"@, json_string(reason))),
        s.event matches Event::Discarded { file, value, reason } ==> members_of(s).contains(
            member("file"@, json_string(file)),
        ) && members_of(s).contains(member("reason"@, json_string(reason))) && members_of(
            s,
        ).contains(member("value"@, json_string(value))),
        s.event matches Event::ParseFailure { file, line, snippet, step, reason } ==> {
            &&& members_of(s).contains(member("file"@, json_string(file)))
            &&& members_of(s).contains(member("reason"@, json_string(reason)))
            &&& members_of(s).contains(member("snippet"@, json_string(snippet)))
            &&& members_of(s).contains(member("step"@, json_string(step)))
            &&& line is Some ==> members_of(s).contains(
                member("line"@, decimal(line->0 as nat)),
            )
            &&& line is None ==> members_of(s).contains(member("line"@, "null"@))
        },
{
    match s.event {
        Event::FileSkip { file, reason } => {
            assert(middle_members(s.event)[0] == member("file"@, json_string(file)));
            assert(late_members(s.event)[0] == member("reason"@, json_string(reason)));
            lemma_among_members(s, member("file"@, json_string(file)));
            lemma_among_members(s, member("reason"@, json_string(reason)));
        },
        Event::Discarded { file, value, reason } => {
            assert(middle_members(s.event)[0] == member("file"@, json_string(file)));
            assert(late_members(s.event)[0] == member("reason"@, json_string(reason)));
            assert(late_members(s.event)[1] == member("value"@, json_string(value)));
            lemma_among_members(s, member("file"@, json_string(file)));
            lemma_among_members(s, member("reason"@, json_string(reason)));
            lemma_among_members(s, member("value"@, json_string(value)));
        },
        Event::ParseFailure { file, line, snippet, step, reason } => {
            let l = member(
                "line"@,
                match line {
                    Some(l) => decimal(l as nat),
                    None => "null"@,
                },
            );
            assert(middle_members(s.event)[0] == member("file"@, json_string(file)));
            assert(middle_members(s.event)[1] == l);
            assert(late_members(s.event)[0] == member("reason"@, json_string(reason)));
            assert(late_members(s.event)[1] == member("snippet"@, json_string(snippet)));
            assert(late_members(s.event)[2] == member("step"@, json_string(step)));
            lemma_among_members(s, member("file"@, json_string(file)));
            lemma_among_members(s, l);
            lemma_among_members(s, member("reason"@, json_string(reason)));
            lemma_among_members(s, member("snippet"@, json_string(snippet)));
            lemma_among_members(s, member("step"@, json_string(step)));
        },
        _ => {},
    }
}

/// A record of what was found says what was: a detector how many and how long, a
/// read how much, a candidate where and how sure, and a merge its widths.
pub proof fn a_record_says_what_was_found(s: Stamped)
    ensures
        s.event matches Event::DetectorEnd { name, found, took_ms } ==> {
            &&& members_of(s).contains(member("breakpointsFound"@, decimal(found as nat)))
            &&& members_of(s).contains(member("name"@, json_string(name)))
            &&& members_of(s).contains(member("tookMs"@, decimal(took_ms as nat)))
        },
        s.event matches Event::FileRead { file, bytes } ==> members_of(s).contains(
            member("file"@, json_string(file)),
        ) && members_of(s).contains(member("bytes"@, decimal(bytes as nat))),
        s.event matches Event::Candidate { url, source, confidence } ==> {
            &&& members_of(s).contains(member("url"@, json_string(url)))
            &&& members_of(s).contains(member("source"@, json_string(source)))
            &&& members_of(s).contains(
                member("confidence"@, confidence_text(confidence as nat)),
            )
        },
        s.event matches Event::Merged { widths, conflicts } ==> {
            &&& members_of(s).contains(member("conflicts"@, decimal(conflicts as nat)))
            &&& members_of(s).contains(
                member("widths"@, "["@ + joined(width_texts(widths), ","@) + "]"@),
            )
        },
{
    match s.event {
        Event::DetectorEnd { name, found, took_ms } => {
            assert(early_members(s.event)[0] == member(
                "breakpointsFound"@,
                decimal(found as nat),
            ));
            assert(late_members(s.event)[0] == member("name"@, json_string(name)));
            assert(late_members(s.event)[1] == member("tookMs"@, decimal(took_ms as nat)));
            lemma_among_members(s, member("breakpointsFound"@, decimal(found as nat)));
            lemma_among_members(s, member("name"@, json_string(name)));
            lemma_among_members(s, member("tookMs"@, decimal(took_ms as nat)));
        },
        Event::FileRead { file, bytes } => {
            assert(early_members(s.event)[0] == member("bytes"@, decimal(bytes as nat)));
            assert(middle_members(s.event)[0] == member("file"@, json_string(file)));
            lemma_among_members(s, member("bytes"@, decimal(bytes as nat)));
            lemma_among_members(s, member("file"@, json_string(file)));
        },
        Event::Candidate { url, source, confidence } => {
            let c = member("confidence"@, confidence_text(confidence as nat));
            assert(early_members(s.event)[0] == c);
            assert(late_members(s.event)[0] == member("source"@, json_string(source)));
            assert(late_members(s.event)[1] == member("url"@, json_string(url)));
            lemma_among_members(s, c);
            lemma_among_members(s, member("source"@, json_string(source)));
            lemma_among_members(s, member("url"@, json_string(url)));
        },
        Event::Merged { widths, conflicts } => {
            let w = member("widths"@, "["@ + joined(width_texts(widths), ","@) + "]"@);
            assert(early_members(s.event)[0] == member("conflicts"@, decimal(conflicts as nat)));
            assert(late_members(s.event)[0] == w);
            lemma_among_members(s, member("conflicts"@, decimal(conflicts as nat)));
            lemma_among_members(s, w);
        },
        _ => {},
    }
}

} // verus!
