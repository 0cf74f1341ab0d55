//! Everything about one note, in one call.
//!
//! A note says what is wrong and where. It does not say what the element
//! actually measures, what it measures at the other widths, what the page
//! logged, or which rule is producing the value being complained about. This is
//! those four facts, made at once, keyed by the note's own id.
//!
//! The measurement is taken in every open panel, not only in the one the note
//! came from. A padding of 8px at 375px means nothing on its own; 8px at 375
//! and 24px everywhere else is the bug, stated.
//!
//! It does not judge. A width that differs from the others is often exactly
//! what the design asks for. It lays the facts out and leaves the reading to
//! whoever asked.

use vstd::prelude::*;
use vstd::string::StringExecFns;
use crate::json::{json_string, quote};
use crate::state::{line_views, pixels_string, pixels_text, ConsoleLine, Line};
use crate::table::{find_in, keyed, lookup};
use crate::text::{
    clone_opt, decimal, join, joined, number_string, opt_view, plural, plural_of, same, texts,
    trim_str, trimmed,
};

verus! {

/// The same element, measured in one panel.
#[derive(Debug)]
pub struct AtWidth {
    pub panel: String,
    pub panel_name: String,
    pub width: i64,
    /// False when the selector matches nothing in this panel, which is itself
    /// worth knowing: an element that exists at one width and not another is a
    /// different bug from one that is the wrong size.
    pub found: bool,
    /// As the JSON the page sent.
    pub box_: Option<String>,
    /// The handful of properties a layout note is nearly always about, each
    /// with its value.
    pub styles: Vec<(String, String)>,
    pub error: Option<String>,
}

/// One CSS rule that matches the element, and where it came from.
#[derive(Debug)]
pub struct MatchingRule {
    pub selector: String,
    /// The media condition it sits inside, when it sits inside one. This is
    /// what turns "why is it 8px" into "because the 24px rule is behind a
    /// min-width this panel does not meet".
    pub media: Option<String>,
    /// Whether that condition is true in this panel right now.
    pub applies: bool,
    /// The declarations, as written.
    pub declarations: String,
    pub source: Option<String>,
}

/// A note that was written in this sitting.
#[derive(Debug)]
pub struct NoteRecord {
    pub id: String,
    pub panel: String,
    pub panel_name: String,
    pub width: i64,
    pub note: String,
    pub selector: String,
    pub element: String,
    pub url: String,
    pub at: u64,
    pub delivered: bool,
    pub delivered_to: Option<String>,
    pub reply: Option<String>,
}

/// Properties a layout note is nearly always about.
///
/// Deliberately short. Every computed property is six hundred values per panel
/// and answers nothing; these are the ones that move when a layout is wrong at
/// one width.
pub open spec fn watched() -> Seq<Seq<char>> {
    seq![
        "display"@,
        "position"@,
        "font-size"@,
        "line-height"@,
        "padding-top"@,
        "padding-right"@,
        "padding-bottom"@,
        "padding-left"@,
        "margin-top"@,
        "margin-right"@,
        "margin-bottom"@,
        "margin-left"@,
        "flex-direction"@,
        "flex-wrap"@,
        "grid-template-columns"@,
        "overflow-x"@,
        "text-align"@,
        "gap"@,
    ]
}

pub fn watched_properties() -> (r: Vec<String>)
    ensures
        texts(r@) == watched(),
{
    let mut r: Vec<String> = Vec::new();
    r.push("display".to_owned());
    r.push("position".to_owned());
    r.push("font-size".to_owned());
    r.push("line-height".to_owned());
    r.push("padding-top".to_owned());
    r.push("padding-right".to_owned());
    r.push("padding-bottom".to_owned());
    r.push("padding-left".to_owned());
    r.push("margin-top".to_owned());
    r.push("margin-right".to_owned());
    r.push("margin-bottom".to_owned());
    r.push("margin-left".to_owned());
    r.push("flex-direction".to_owned());
    r.push("flex-wrap".to_owned());
    r.push("grid-template-columns".to_owned());
    r.push("overflow-x".to_owned());
    r.push("text-align".to_owned());
    r.push("gap".to_owned());
    assert(texts(r@) =~= watched());
    r
}

/// A list of texts, as a script writes one.
pub open spec fn json_list(s: Seq<Seq<char>>) -> Seq<char> {
    "["@ + joined(s.map_values(|t: Seq<char>| json_string(t)), ","@) + "]"@
}

fn list_text(v: &Vec<String>) -> (r: String)
    ensures
        r@ == json_list(texts(v@)),
{
    let ghost all = texts(v@);
    let ghost want = all.map_values(|t: Seq<char>| json_string(t));
    let mut quoted: Vec<String> = Vec::new();
    let mut i: usize = 0;
    assert(texts(quoted@) =~= want.take(0));
    while i < v.len()
        invariant
            i <= v@.len(),
            all == texts(v@),
            want == all.map_values(|t: Seq<char>| json_string(t)),
            texts(quoted@) == want.take(i as int),
        decreases v@.len() - i,
    {
        let ghost before = texts(quoted@);
        let q = quote(v[i].as_str());
        quoted.push(q);
        assert(all[i as int] == v@[i as int]@);
        assert(texts(quoted@) =~= before.push(q@));
        assert(want.take(i + 1) =~= want.take(i as int).push(want[i as int]));
        i += 1;
    }
    assert(want.take(want.len() as int) =~= want);
    let mut out = "[".to_owned();
    out.append(join(&quoted, ",").as_str());
    out.append("]");
    out
}

pub const MEASURE_START: &'static str =
    r#"
var el = document.querySelector("#;

pub const MEASURE_MIDDLE: &'static str =
    r#");
if (!el) return { found: false };
var r = el.getBoundingClientRect();
var cs = getComputedStyle(el);
var want = "#;

pub const MEASURE_END: &'static str =
    r#";
var styles = {};
for (var i = 0; i < want.length; i++) styles[want[i]] = cs.getPropertyValue(want[i]);
return {
  found: true,
  box: {
    x: Math.round(r.left), y: Math.round(r.top + window.scrollY),
    w: Math.round(r.width * 10) / 10, h: Math.round(r.height * 10) / 10,
  },
  styles: styles,
  viewport: window.innerWidth,
};
"#;

/// Measure one element: its box and the watched properties.
pub fn measure_script(selector: &str) -> (r: String)
    ensures
        r@ == MEASURE_START@ + json_string(selector@) + MEASURE_MIDDLE@ + json_list(watched())
            + MEASURE_END@,
{
    let mut out = MEASURE_START.to_owned();
    out.append(quote(selector).as_str());
    out.append(MEASURE_MIDDLE);
    out.append(list_text(&watched_properties()).as_str());
    out.append(MEASURE_END);
    out
}

pub const MARKUP_START: &'static str =
    r#"
var el = document.querySelector("#;

pub const MARKUP_END: &'static str =
    r#");
if (!el) return null;
var html = el.outerHTML || "";
return html.length > 2000 ? html.slice(0, 2000) + "…" : html;
"#;

/// The element's markup, cut short.
pub fn markup_script(selector: &str) -> (r: String)
    ensures
        r@ == MARKUP_START@ + json_string(selector@) + MARKUP_END@,
{
    let mut out = MARKUP_START.to_owned();
    out.append(quote(selector).as_str());
    out.append(MARKUP_END);
    out
}

pub const RULES_START: &'static str =
    r#"
var el = document.querySelector("#;

pub const RULES_END: &'static str =
    r#");
if (!el) return [];
var out = [];

function walk(rules, media, href) {
  for (var i = 0; i < rules.length; i++) {
    var rule = rules[i];
    if (rule.media && typeof rule.conditionText === "string") {
      var inner = media ? media + " and " + rule.conditionText : rule.conditionText;
      var applies = true;
      try { applies = window.matchMedia(rule.conditionText).matches; } catch (e) {}
      if (rule.cssRules) walk(rule.cssRules, inner, href);
      continue;
    }
    if (rule.selectorText) {
      var hit = false;
      // A selector list can contain one part that throws, so each is tried.
      var parts = rule.selectorText.split(",");
      for (var p = 0; p < parts.length; p++) {
        try { if (el.matches(parts[p].trim())) { hit = true; break; } } catch (e) {}
      }
      if (hit) {
        var applies = true;
        if (media) { try { applies = window.matchMedia(media).matches; } catch (e) {} }
        var body = rule.cssText || "";
        var open = body.indexOf("{");
        out.push({
          selector: rule.selectorText,
          media: media || null,
          applies: applies,
          declarations: open >= 0 ? body.slice(open + 1, body.lastIndexOf("}")).trim() : "",
          source: href || null,
        });
      }
      continue;
    }
    if (rule.cssRules) walk(rule.cssRules, media, href);
  }
}

for (var s = 0; s < document.styleSheets.length; s++) {
  var sheet = document.styleSheets[s];
  var rules = null;
  try { rules = sheet.cssRules; } catch (e) { continue; }
  if (!rules) continue;
  try { walk(rules, null, sheet.href); } catch (e) {}
}
// Long stylesheets can match a lot; the last ones are the ones that win.
return out.length > 40 ? out.slice(out.length - 40) : out;
"#;

/// Every rule in the page that matches this element, in the order the browser
/// read them, with the media condition each sits inside.
///
/// Order is document order rather than specificity order, because specificity
/// is a calculation and this is a report: the rules are listed as written and
/// the reader can see which one is behind a query that is not firing. A
/// cross-origin stylesheet throws on `cssRules`, so each is tried on its own.
pub fn rules_script(selector: &str) -> (r: String)
    ensures
        r@ == RULES_START@ + json_string(selector@) + RULES_END@,
{
    let mut out = RULES_START.to_owned();
    out.append(quote(selector).as_str());
    out.append(RULES_END);
    out
}

/// The value of a property at a width; nothing when it has none.
pub open spec fn value_at(a: AtWidth, property: Seq<char>) -> Seq<char> {
    match lookup(keyed(a.styles@), property) {
        Some(v) => v@,
        None => Seq::empty(),
    }
}

/// Whether a property is not the same at every width the element is at.
pub open spec fn moves(s: Seq<AtWidth>, property: Seq<char>) -> bool {
    exists|i: int, j: int|
        0 <= i < s.len() && 0 <= j < s.len() && s[i].found && s[j].found && value_at(
            #[trigger] s[i],
            property,
        ) != value_at(#[trigger] s[j], property)
}

/// The properties that move, in the order they are watched.
pub open spec fn differing(s: Seq<AtWidth>, properties: Seq<Seq<char>>) -> Seq<Seq<char>>
    decreases properties.len(),
{
    if properties.len() == 0 {
        Seq::empty()
    } else {
        let d = differing(s, properties.drop_last());
        if moves(s, properties.last()) {
            d.push(properties.last())
        } else {
            d
        }
    }
}

fn read_value<'a>(a: &'a AtWidth, property: &str) -> (r: &'a str)
    ensures
        r@ == value_at(*a, property@),
{
    match find_in(&a.styles, property) {
        Some(i) => a.styles[i].1.as_str(),
        None => {
            proof {
                reveal_strlit("");
                assert(""@ =~= Seq::<char>::empty());
            }
            ""
        },
    }
}

fn does_move(across: &Vec<AtWidth>, property: &str) -> (r: bool)
    ensures
        r == moves(across@, property@),
{
    let mut first: usize = 0;
    while first < across.len() && !across[first].found
        invariant
            first <= across@.len(),
            forall|k: int| 0 <= k < first ==> !(#[trigger] across@[k]).found,
        decreases across@.len() - first,
    {
        first += 1;
    }
    if first == across.len() {
        return false;
    }
    let seen = read_value(&across[first], property);
    let mut i: usize = first;
    while i < across.len()
        invariant
            first <= i <= across@.len(),
            first < across@.len(),
            across@[first as int].found,
            seen@ == value_at(across@[first as int], property@),
            forall|k: int| 0 <= k < first ==> !(#[trigger] across@[k]).found,
            forall|k: int|
                first <= k < i && (#[trigger] across@[k]).found ==> value_at(
                    across@[k],
                    property@,
                ) == seen@,
        decreases across@.len() - i,
    {
        if across[i].found {
            let value = read_value(&across[i], property);
            if !same(value, seen) {
                assert(value_at(across@[i as int], property@) != value_at(
                    across@[first as int],
                    property@,
                ));
                return true;
            }
        }
        i += 1;
    }
    proof {
        if moves(across@, property@) {
            let (a, b) = choose|a: int, b: int|
                0 <= a < across@.len() && 0 <= b < across@.len() && across@[a].found
                    && across@[b].found && value_at(#[trigger] across@[a], property@) != value_at(
                    #[trigger] across@[b],
                    property@,
                );
            assert(value_at(across@[a], property@) == seen@);
            assert(value_at(across@[b], property@) == seen@);
        }
    }
    false
}

/// Which of the watched properties are not the same at every width.
///
/// The short answer to "what is different here". A property with one value
/// across the whole row is noise; a property with two is where to look. A width
/// where the element is absent is left out of the comparison rather than
/// counted as an empty value, which would make every property look as though
/// it moved.
pub fn differing_properties(across: &Vec<AtWidth>) -> (r: Vec<String>)
    ensures
        texts(r@) == differing(across@, watched()),
{
    let names = watched_properties();
    let ghost all = watched();
    let mut out: Vec<String> = Vec::new();
    let mut i: usize = 0;
    assert(all.take(0) =~= Seq::empty());
    assert(texts(out@) =~= Seq::empty());
    while i < names.len()
        invariant
            i <= names@.len(),
            all == texts(names@),
            texts(out@) == differing(across@, all.take(i as int)),
        decreases names@.len() - i,
    {
        proof {
            assert(all.take(i + 1).drop_last() =~= all.take(i as int));
            assert(all.take(i + 1).last() == names@[i as int]@);
        }
        if does_move(across, names[i].as_str()) {
            let ghost before = texts(out@);
            let n = names[i].as_str().to_owned();
            out.push(n);
            assert(texts(out@) =~= before.push(n@));
        }
        i += 1;
    }
    assert(all.take(all.len() as int) =~= all);
    out
}

/// The widths the element is not in the page at.
pub open spec fn missing_from(s: Seq<AtWidth>) -> Seq<Seq<char>>
    decreases s.len(),
{
    if s.len() == 0 {
        Seq::empty()
    } else {
        let d = missing_from(s.drop_last());
        if !s.last().found && s.last().error is None {
            d.push(pixels_text(s.last().width as int) + "px"@)
        } else {
            d
        }
    }
}

fn missing_widths(across: &Vec<AtWidth>) -> (r: Vec<String>)
    ensures
        texts(r@) == missing_from(across@),
{
    let mut out: Vec<String> = Vec::new();
    let mut i: usize = 0;
    assert(across@.take(0) =~= Seq::empty());
    assert(texts(out@) =~= Seq::empty());
    while i < across.len()
        invariant
            i <= across@.len(),
            texts(out@) == missing_from(across@.take(i as int)),
        decreases across@.len() - i,
    {
        proof {
            assert(across@.take(i + 1).drop_last() =~= across@.take(i as int));
            assert(across@.take(i + 1).last() == across@[i as int]);
        }
        if !across[i].found && across[i].error.is_none() {
            let ghost before = texts(out@);
            let mut t = pixels_string(across[i].width);
            t.append("px");
            out.push(t);
            assert(texts(out@) =~= before.push(t@));
        }
        i += 1;
    }
    assert(across@.take(across@.len() as int) =~= across@);
    out
}

/// The parts of a summary.
pub open spec fn summary_parts(
    note: Seq<char>,
    width: i64,
    missing: Seq<Seq<char>>,
    differs: Seq<Seq<char>>,
    errors: nat,
) -> Seq<Seq<char>> {
    seq!["\""@ + trimmed(note) + "\" at "@ + pixels_text(width as int) + "px"@] + (if missing.len()
        > 0 {
        seq!["the element is not in the page at "@ + joined(missing, ", "@)]
    } else {
        Seq::empty()
    }) + seq![
        if differs.len() == 0 {
            "nothing measured differs between the open widths"@
        } else {
            "differs between widths: "@ + joined(differs, ", "@)
        },
    ] + (if errors > 0 {
        seq![decimal(errors) + " console error"@ + plural_of(errors) + " at this width"@]
    } else {
        Seq::empty()
    })
}

pub fn summarise(
    note: &NoteRecord,
    across: &Vec<AtWidth>,
    differs: &Vec<String>,
    console_errors: &Vec<String>,
) -> (r: String)
    ensures
        r@ == joined(
            summary_parts(
                note.note@,
                note.width,
                missing_from(across@),
                texts(differs@),
                console_errors@.len(),
            ),
            ". "@,
        ),
{
    let missing = missing_widths(across);
    assert(texts(missing@).len() == missing@.len());
    assert(texts(differs@).len() == differs@.len());
    let ghost want = summary_parts(
        note.note@,
        note.width,
        missing_from(across@),
        texts(differs@),
        console_errors@.len(),
    );
    let mut parts: Vec<String> = Vec::new();
    let mut first = "\"".to_owned();
    first.append(trim_str(note.note.as_str()).as_str());
    first.append("\" at ");
    first.append(pixels_string(note.width).as_str());
    first.append("px");
    let ghost a = first@;
    parts.push(first);
    assert(texts(parts@) =~= seq![a]);
    if missing.len() > 0 {
        let ghost before = texts(parts@);
        let mut p = "the element is not in the page at ".to_owned();
        p.append(join(&missing, ", ").as_str());
        parts.push(p);
        assert(texts(parts@) =~= before.push(p@));
    }
    let ghost before = texts(parts@);
    let p = if differs.len() == 0 {
        "nothing measured differs between the open widths".to_owned()
    } else {
        let mut p = "differs between widths: ".to_owned();
        p.append(join(differs, ", ").as_str());
        p
    };
    parts.push(p);
    assert(texts(parts@) =~= before.push(p@));
    if console_errors.len() > 0 {
        let ghost before = texts(parts@);
        let mut p = number_string(console_errors.len());
        p.append(" console error");
        p.append(plural(console_errors.len()));
        p.append(" at this width");
        parts.push(p);
        assert(texts(parts@) =~= before.push(p@));
    }
    assert(texts(parts@) =~= want);
    join(&parts, ". ")
}

/// The errors a console holds, as texts.
pub open spec fn error_texts(lines: Seq<Line>) -> Seq<Seq<char>>
    decreases lines.len(),
{
    if lines.len() == 0 {
        Seq::empty()
    } else {
        let d = error_texts(lines.drop_last());
        if lines.last().level == "error"@ {
            d.push(lines.last().text)
        } else {
            d
        }
    }
}

pub fn console_errors(lines: &Vec<ConsoleLine>) -> (r: Vec<String>)
    ensures
        texts(r@) == error_texts(line_views(lines@)),
{
    let ghost all = line_views(lines@);
    let mut out: Vec<String> = Vec::new();
    let mut i: usize = 0;
    assert(all.take(0) =~= Seq::empty());
    assert(texts(out@) =~= Seq::empty());
    while i < lines.len()
        invariant
            i <= lines@.len(),
            all == line_views(lines@),
            texts(out@) == error_texts(all.take(i as int)),
        decreases lines@.len() - i,
    {
        proof {
            assert(all.take(i + 1).drop_last() =~= all.take(i as int));
            assert(all.take(i + 1).last() == lines@[i as int]@);
        }
        if same(lines[i].level.as_str(), "error") {
            let ghost before = texts(out@);
            let t = lines[i].text.as_str().to_owned();
            out.push(t);
            assert(texts(out@) =~= before.push(t@));
        }
        i += 1;
    }
    assert(all.take(all.len() as int) =~= all);
    out
}

/// The first note, from `i` on, with an id.
pub open spec fn note_from(notes: Seq<NoteRecord>, id: Seq<char>, i: int) -> Option<int>
    decreases notes.len() - i,
{
    if i >= notes.len() {
        None
    } else if notes[i].id@ == id {
        Some(i)
    } else {
        note_from(notes, id, i + 1)
    }
}

/// A note as it is listed: its id and its width.
pub open spec fn listed_as(n: NoteRecord) -> Seq<char> {
    n.id@ + " ("@ + pixels_text(n.width as int) + "px)"@
}

/// What is said when no note has an id.
pub open spec fn no_such_note(notes: Seq<NoteRecord>, id: Seq<char>) -> Seq<char> {
    if notes.len() == 0 {
        "no notes have been written in this sitting"@
    } else {
        "no note with id \""@ + id + "\". This sitting has: "@ + joined(
            notes.map_values(|n: NoteRecord| listed_as(n)),
            ", "@,
        )
    }
}

/// What is said of a note without an element.
pub const NO_ELEMENT: &'static str =
    "this note points at a region rather than an element, so there is nothing to measure";

fn list_notes(notes: &Vec<NoteRecord>) -> (r: Vec<String>)
    ensures
        texts(r@) == notes@.map_values(|n: NoteRecord| listed_as(n)),
{
    let ghost want = notes@.map_values(|n: NoteRecord| listed_as(n));
    let mut out: Vec<String> = Vec::new();
    let mut i: usize = 0;
    assert(texts(out@) =~= want.take(0));
    while i < notes.len()
        invariant
            i <= notes@.len(),
            want == notes@.map_values(|n: NoteRecord| listed_as(n)),
            texts(out@) == want.take(i as int),
        decreases notes@.len() - i,
    {
        let ghost before = texts(out@);
        let mut t = notes[i].id.as_str().to_owned();
        t.append(" (");
        t.append(pixels_string(notes[i].width).as_str());
        t.append("px)");
        out.push(t);
        assert(texts(out@) =~= before.push(t@));
        assert(want.take(i + 1) =~= want.take(i as int).push(want[i as int]));
        i += 1;
    }
    assert(want.take(want.len() as int) =~= want);
    out
}

/// The note to explain, if it can be.
pub fn note_to_explain(notes: &Vec<NoteRecord>, id: &str) -> (r: Result<usize, String>)
    ensures
        match note_from(notes@, id@, 0) {
            Some(i) => if trimmed(notes@[i].selector@).len() == 0 {
                r matches Err(e) && e@ == NO_ELEMENT@
            } else {
                r matches Ok(k) && k == i
            },
            None => r matches Err(e) && e@ == no_such_note(notes@, id@),
        },
{
    let mut i: usize = 0;
    while i < notes.len()
        invariant
            i <= notes@.len(),
            note_from(notes@, id@, 0) == note_from(notes@, id@, i as int),
        decreases notes@.len() - i,
    {
        if same(notes[i].id.as_str(), id) {
            if trim_str(notes[i].selector.as_str()).as_str().is_empty() {
                return Err(NO_ELEMENT.to_owned());
            }
            return Ok(i);
        }
        i += 1;
    }
    if notes.len() == 0 {
        Err("no notes have been written in this sitting".to_owned())
    } else {
        let mut e = "no note with id \"".to_owned();
        e.append(id);
        e.append("\". This sitting has: ");
        e.append(join(&list_notes(notes), ", ").as_str());
        Err(e)
    }
}

#[derive(Debug)]
pub struct Explanation {
    pub id: String,
    pub note: String,
    pub width: i64,
    pub panel: String,
    pub panel_name: String,
    pub selector: String,
    pub element: String,
    pub url: String,
    pub at: u64,
    /// True once a session has been handed it, and what it said back.
    pub delivered: bool,
    pub reply: Option<String>,
    /// The element as it stands now, truncated.
    pub markup: Option<String>,
    /// The same element in every open panel, left to right.
    pub across_widths: Vec<AtWidth>,
    /// Properties that differ between widths, named. The short answer.
    pub differs: Vec<String>,
    /// Rules matching the element in the panel the note came from.
    pub matching_rules: Vec<MatchingRule>,
    /// What this panel's page logged as an error, most recent last.
    pub console_errors: Vec<String>,
    pub summary: String,
}

/// Explain one note: its measurement in every panel, the rules and the errors,
/// laid out.
pub fn explain(
    note: &NoteRecord,
    across: Vec<AtWidth>,
    markup: Option<String>,
    rules: Vec<MatchingRule>,
    lines: &Vec<ConsoleLine>,
) -> (r: Explanation)
    ensures
        r.id@ == note.id@,
        r.note@ == note.note@,
        r.width == note.width,
        r.panel@ == note.panel@,
        r.panel_name@ == note.panel_name@,
        r.selector@ == note.selector@,
        r.element@ == note.element@,
        r.url@ == note.url@,
        r.at == note.at,
        r.delivered == note.delivered,
        opt_view(r.reply) == opt_view(note.reply),
        r.markup == markup,
        r.across_widths == across,
        r.matching_rules == rules,
        texts(r.differs@) == differing(across@, watched()),
        texts(r.console_errors@) == error_texts(line_views(lines@)),
        r.summary@ == joined(
            summary_parts(
                note.note@,
                note.width,
                missing_from(across@),
                differing(across@, watched()),
                error_texts(line_views(lines@)).len(),
            ),
            ". "@,
        ),
{
    let differs = differing_properties(&across);
    let errors = console_errors(lines);
    assert(texts(errors@).len() == errors@.len());
    let summary = summarise(note, &across, &differs, &errors);
    Explanation {
        id: note.id.as_str().to_owned(),
        note: note.note.as_str().to_owned(),
        width: note.width,
        panel: note.panel.as_str().to_owned(),
        panel_name: note.panel_name.as_str().to_owned(),
        selector: note.selector.as_str().to_owned(),
        element: note.element.as_str().to_owned(),
        url: note.url.as_str().to_owned(),
        at: note.at,
        delivered: note.delivered,
        reply: clone_opt(&note.reply),
        markup,
        across_widths: across,
        differs,
        matching_rules: rules,
        console_errors: errors,
        summary,
    }
}

/// One panel cannot disagree with itself, so nothing is claimed of fewer than
/// two.
pub proof fn a_single_width_names_nothing(s: Seq<AtWidth>, properties: Seq<Seq<char>>)
    requires
        forall|i: int, j: int|
            0 <= i < s.len() && 0 <= j < s.len() && (#[trigger] s[i]).found && (
            #[trigger] s[j]).found ==> i == j,
    ensures
        differing(s, properties).len() == 0,
    decreases properties.len(),
{
    if properties.len() > 0 {
        a_single_width_names_nothing(s, properties.drop_last());
    }
}

/// A width without the element fakes no difference: what is named is what is
/// named of the other widths.
pub proof fn an_absent_element_fakes_no_difference(
    s: Seq<AtWidth>,
    a: AtWidth,
    properties: Seq<Seq<char>>,
)
    requires
        !a.found,
    ensures
        differing(s.push(a), properties) == differing(s, properties),
    decreases properties.len(),
{
    if properties.len() > 0 {
        an_absent_element_fakes_no_difference(s, a, properties.drop_last());
        let p = properties.last();
        let t = s.push(a);
        if moves(s, p) {
            let (i, j) = choose|i: int, j: int|
                0 <= i < s.len() && 0 <= j < s.len() && s[i].found && s[j].found && value_at(
                    #[trigger] s[i],
                    p,
                ) != value_at(#[trigger] s[j], p);
            assert(t[i] == s[i] && t[j] == s[j]);
            assert(value_at(t[i], p) != value_at(t[j], p));
        }
        if moves(t, p) {
            let (i, j) = choose|i: int, j: int|
                0 <= i < t.len() && 0 <= j < t.len() && t[i].found && t[j].found && value_at(
                    #[trigger] t[i],
                    p,
                ) != value_at(#[trigger] t[j], p);
            assert(i < s.len() && j < s.len());
            assert(t[i] == s[i] && t[j] == s[j]);
        }
    }
}

/// The errors of a console, and nothing else of it, in order.
pub proof fn only_errors_are_told(lines: Seq<Line>)
    ensures
        error_texts(lines) == lines.filter(|l: Line| l.level == "error"@).map_values(
            |l: Line| l.text,
        ),
    decreases lines.len(),
{
    reveal(Seq::filter);
    let bad = |l: Line| l.level == "error"@;
    let told = |l: Line| l.text;
    if lines.len() == 0 {
        assert(lines.filter(bad).map_values(told) =~= Seq::empty());
    } else {
        let d = lines.drop_last();
        only_errors_are_told(d);
        assert(d.filter(bad).push(lines.last()).map_values(told) =~= d.filter(bad).map_values(
            told,
        ).push(lines.last().text));
    }
}

/// An element is missing at the widths that answered and did not find it.
pub proof fn a_width_that_did_not_answer_misses_nothing(s: Seq<AtWidth>)
    ensures
        missing_from(s) == s.filter(|a: AtWidth| !a.found && a.error is None).map_values(
            |a: AtWidth| pixels_text(a.width as int) + "px"@,
        ),
    decreases s.len(),
{
    reveal(Seq::filter);
    let gone = |a: AtWidth| !a.found && a.error is None;
    let told = |a: AtWidth| pixels_text(a.width as int) + "px"@;
    if s.len() == 0 {
        assert(s.filter(gone).map_values(told) =~= Seq::empty());
    } else {
        let d = s.drop_last();
        a_width_that_did_not_answer_misses_nothing(d);
        assert(d.filter(gone).push(s.last()).map_values(told) =~= d.filter(gone).map_values(
            told,
        ).push(told(s.last())));
    }
}

/// The properties named as differing are those with two values among the widths
/// that found the element, and no others.
pub proof fn what_differs_has_two_values(s: Seq<AtWidth>, properties: Seq<Seq<char>>)
    ensures
        differing(s, properties) == properties.filter(
            |p: Seq<char>|
                exists|i: int, j: int|
                    0 <= i < s.len() && 0 <= j < s.len() && s[i].found && s[j].found && value_at(
                        #[trigger] s[i],
                        p,
                    ) != value_at(#[trigger] s[j], p),
        ),
    decreases properties.len(),
{
    reveal(Seq::filter);
    if properties.len() > 0 {
        what_differs_has_two_values(s, properties.drop_last());
    }
}

/// The note asked for is the first with that id; where there is none the answer
/// says so.
pub proof fn a_note_is_found_by_its_id(notes: Seq<NoteRecord>, id: Seq<char>, k: int)
    ensures
        0 <= k < notes.len() && notes[k].id@ == id && (forall|j: int|
            0 <= j < k ==> (#[trigger] notes[j]).id@ != id) ==> note_from(notes, id, 0) == Some(k),
        (forall|j: int| 0 <= j < notes.len() ==> (#[trigger] notes[j]).id@ != id) ==> note_from(
            notes,
            id,
            0,
        ) is None,
        notes.len() == 0 ==> no_such_note(notes, id)
            == "no notes have been written in this sitting"@,
        notes.len() > 0 ==> crate::text::begins(
            no_such_note(notes, id),
            "no note with id \""@ + id,
        ),
{
    lemma_note_from(notes, id, 0, k);
    if notes.len() > 0 {
        let front = "no note with id \""@ + id;
        assert(no_such_note(notes, id).subrange(0, front.len() as int) =~= front);
    }
}

proof fn lemma_note_from(notes: Seq<NoteRecord>, id: Seq<char>, i: int, k: int)
    requires
        0 <= i <= notes.len(),
    ensures
        i <= k < notes.len() && notes[k].id@ == id && (forall|j: int|
            i <= j < k ==> (#[trigger] notes[j]).id@ != id) ==> note_from(notes, id, i) == Some(k),
        (forall|j: int| i <= j < notes.len() ==> (#[trigger] notes[j]).id@ != id) ==> note_from(
            notes,
            id,
            i,
        ) is None,
    decreases notes.len() - i,
{
    if i < notes.len() && notes[i].id@ != id {
        lemma_note_from(notes, id, i + 1, k);
    }
}

/// The summary has a part for the note and its width, one for what differs, one
/// for the widths that miss the element if any do, and one for the errors if
/// there are any.
pub proof fn the_summary_says_what_was_measured(
    note: Seq<char>,
    width: i64,
    missing: Seq<Seq<char>>,
    differs: Seq<Seq<char>>,
    errors: nat,
)
    ensures
        ({
            let r = summary_parts(note, width, missing, differs, errors);
            let n: int = if missing.len() > 0 {
                2
            } else {
                1
            };
            &&& r[0] == "\""@ + trimmed(note) + "\" at "@ + pixels_text(width as int) + "px"@
            &&& missing.len() > 0 ==> r[1] == "the element is not in the page at "@ + joined(
                missing,
                ", "@,
            )
            &&& differs.len() == 0 ==> r[n] == "nothing measured differs between the open widths"@
            &&& differs.len() > 0 ==> r[n] == "differs between widths: "@ + joined(differs, ", "@)
            &&& r.len() == n + 1 + if errors > 0 {
                1int
            } else {
                0
            }
            &&& errors > 0 ==> r[n + 1] == decimal(errors) + " console error"@ + plural_of(errors)
                + " at this width"@
        }),
{
}

} // verus!
