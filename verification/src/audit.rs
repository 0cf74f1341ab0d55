//! The tedious part of "test my project at every viewport and fix what's
//! obviously broken", done once and returned as one structured report.
//!
//! A screenshot alone tells an agent that something looks off without saying
//! what. These probes measure instead, so a finding reads "Laptop 1024:
//! .card-grid right edge at 1043, overflows by 19px" rather than a picture and
//! a hunch.

use vstd::prelude::*;
use vstd::string::StringExecFns;
use crate::canvas::row::{panel_infos, PanelInfo, PanelShown};
use crate::order::{in_order, ranks, sorted, stable_sort};
use crate::state::{line_views, lines_of, AppState, ConsoleLine, Heard, Line};
use crate::text::{clone_opt, opt_view, same};

verus! {

/// Run in every panel. Returns findings, never throws: a probe that cannot run
/// should cost one finding, not the whole audit.
pub const PROBES: &'static str =
    r##"
var out = [];
var W = window.innerWidth;
var H = window.innerHeight;

function selectorFor(el) {
  if (!el || el === document.documentElement) return "html";
  if (el.id) return "#" + el.id;
  var part = el.tagName.toLowerCase();
  if (el.classList && el.classList.length) {
    part += "." + Array.prototype.slice.call(el.classList, 0, 2).join(".");
  }
  var parent = el.parentElement;
  if (parent) {
    var same = Array.prototype.filter.call(parent.children, function (c) {
      return c.tagName === el.tagName;
    });
    if (same.length > 1) part += ":nth-of-type(" + (same.indexOf(el) + 1) + ")";
    if (parent !== document.body && parent !== document.documentElement) {
      var up = parent.id ? "#" + parent.id : parent.tagName.toLowerCase();
      return up + " > " + part;
    }
  }
  return part;
}

// Is this element inside an <svg>? Paths in an icon overlap each other by
// design, and on one real page every single "high" finding was one path
// crossing the next inside the same icon. Nothing inside an svg is a layout
// decision, so nothing inside one is a layout bug.
function inSvg(el) {
  for (var n = el; n; n = n.parentElement) {
    if (n.tagName && n.tagName.toLowerCase() === "svg") return true;
  }
  return false;
}

// Is this hidden from a person, whatever its box says?
//
// The visually-hidden idiom gives a skip link a real 40 x 44 box inside a 1px
// clipped parent. Measuring the box alone reported it as a tap target too
// small to hit, which is advice about something nobody can see.
function unseen(el) {
  for (var n = el; n && n !== document.documentElement; n = n.parentElement) {
    var cs = getComputedStyle(n);
    if (cs.display === "none" || cs.visibility === "hidden" || cs.opacity === "0") return true;
    if (cs.clipPath && cs.clipPath !== "none") return true;
    if (cs.clip && cs.clip !== "auto") return true;
    if (n !== el) {
      var r = n.getBoundingClientRect();
      if (r.width <= 1 || r.height <= 1) return true;
    }
  }
  return false;
}

function add(kind, severity, el, message, measured) {
  out.push({
    kind: kind,
    severity: severity,
    selector: el ? selectorFor(el) : null,
    message: message,
    measured: measured === undefined ? null : measured,
    rect: el && el.getBoundingClientRect
      ? (function (r) {
          return { x: Math.round(r.left), y: Math.round(r.top), width: Math.round(r.width), height: Math.round(r.height) };
        })(el.getBoundingClientRect())
      : null,
  });
}

// The single most common responsive bug.
try {
  var docWidth = document.documentElement.scrollWidth;
  if (docWidth > W + 1) {
    add("overflow", "high", null, "Page scrolls sideways by " + (docWidth - W) + "px", docWidth);
    var all = document.querySelectorAll("body *");
    var blamed = 0;
    for (var i = 0; i < all.length && blamed < 5; i++) {
      var el = all[i];
      var r = el.getBoundingClientRect();
      if (r.width === 0 || r.height === 0) continue;
      if (r.right > W + 1) {
        var cs = getComputedStyle(el);
        if (cs.position === "fixed" || cs.visibility === "hidden") continue;
        add("overflow-element", "high", el,
            "Right edge at " + Math.round(r.right) + ", overflows by " + Math.round(r.right - W) + "px",
            Math.round(r.right));
        blamed++;
      }
    }
  }
} catch (e) { add("probe-failed", "low", null, "overflow probe: " + e.message); }

// Siblings sitting on top of each other, which is how nav lands over a logo.
try {
  var parents = document.querySelectorAll("body, body *");
  var collisions = 0;
  for (var p = 0; p < parents.length && collisions < 8; p++) {
    if (inSvg(parents[p])) continue;
    var kids = Array.prototype.filter.call(parents[p].children, function (c) {
      var cs = getComputedStyle(c);
      if (cs.position === "absolute" || cs.position === "fixed" || cs.display === "none") return false;
      if (unseen(c)) return false;
      var r = c.getBoundingClientRect();
      return r.width > 8 && r.height > 8;
    });
    for (var a = 0; a < kids.length && collisions < 8; a++) {
      for (var b = a + 1; b < kids.length && collisions < 8; b++) {
        var ra = kids[a].getBoundingClientRect();
        var rb = kids[b].getBoundingClientRect();
        var overlapX = Math.min(ra.right, rb.right) - Math.max(ra.left, rb.left);
        var overlapY = Math.min(ra.bottom, rb.bottom) - Math.max(ra.top, rb.top);
        if (overlapX > 4 && overlapY > 4) {
          add("overlap", "high", kids[a],
              "Overlaps " + selectorFor(kids[b]) + " by " + Math.round(overlapX) + " x " + Math.round(overlapY) + "px",
              Math.round(overlapX * overlapY));
          collisions++;
        }
      }
    }
  }
} catch (e) { add("probe-failed", "low", null, "overlap probe: " + e.message); }

// Type too small to read.
try {
  var walker = document.createTreeWalker(document.body, NodeFilter.SHOW_TEXT, null);
  var seen = [], node, small = 0;
  while ((node = walker.nextNode()) && small < 6) {
    if (!node.nodeValue || !node.nodeValue.trim()) continue;
    var el = node.parentElement;
    if (!el || seen.indexOf(el) !== -1) continue;
    seen.push(el);
    if (unseen(el)) continue;
    var size = parseFloat(getComputedStyle(el).fontSize);
    if (size && size < 12) {
      add("small-text", "medium", el, "Font size is " + size.toFixed(1) + "px", size);
      small++;
    }
  }
} catch (e) { add("probe-failed", "low", null, "type probe: " + e.message); }

// Images being stretched past what they contain.
try {
  var imgs = document.images, blurry = 0;
  for (var i = 0; i < imgs.length && blurry < 6; i++) {
    var img = imgs[i];
    var r = img.getBoundingClientRect();
    if (!img.naturalWidth || r.width < 40) continue;
    if (img.naturalWidth < r.width * 0.8) {
      add("upscaled-image", "medium", img,
          "Rendered at " + Math.round(r.width) + "px from a " + img.naturalWidth + "px source",
          img.naturalWidth);
      blurry++;
    }
  }
} catch (e) { add("probe-failed", "low", null, "image probe: " + e.message); }

// Tap targets, but only where a finger is doing the tapping.
try {
  if (W < 768) {
    var targets = document.querySelectorAll("a, button, [role=button], input[type=submit], summary");
    var tiny = 0;
    for (var i = 0; i < targets.length && tiny < 8; i++) {
      var r = targets[i].getBoundingClientRect();
      if (r.width === 0 || r.height === 0) continue;
      if (unseen(targets[i])) continue;
      if (r.width < 44 || r.height < 44) {
        add("tap-target", "medium", targets[i],
            "Target is " + Math.round(r.width) + " x " + Math.round(r.height) + "px, under the 44px minimum",
            Math.round(Math.min(r.width, r.height)));
        tiny++;
      }
    }
  }
} catch (e) { add("probe-failed", "low", null, "tap target probe: " + e.message); }

// A sticky header that eats a short viewport.
try {
  var fixed = document.querySelectorAll("body *"), eaten = 0;
  for (var i = 0; i < fixed.length && eaten < 4; i++) {
    var cs = getComputedStyle(fixed[i]);
    if (cs.position !== "fixed" && cs.position !== "sticky") continue;
    var r = fixed[i].getBoundingClientRect();
    if (r.height > H * 0.3 && r.width > W * 0.5) {
      add("viewport-eater", "low", fixed[i],
          Math.round((r.height / H) * 100) + "% of the viewport height is a " + cs.position + " element",
          Math.round(r.height));
      eaten++;
    }
  }
} catch (e) { add("probe-failed", "low", null, "fixed element probe: " + e.message); }

return { width: W, height: H, findings: out };
"##;

/// One thing a probe found.
#[derive(Debug)]
pub struct Finding {
    pub kind: Option<String>,
    pub severity: Option<String>,
    pub message: Option<String>,
    pub selector: Option<String>,
    /// What was measured, as the JSON the page sent.
    pub measured: Option<String>,
    /// Where the element is, as the JSON the page sent.
    pub rect: Option<String>,
}

/// A [`Finding`], with its texts as characters.
#[verifier::ext_equal]
pub struct Fact {
    pub kind: Option<Seq<char>>,
    pub severity: Option<Seq<char>>,
    pub message: Option<Seq<char>>,
    pub selector: Option<Seq<char>>,
    pub measured: Option<Seq<char>>,
    pub rect: Option<Seq<char>>,
}

impl View for Finding {
    type V = Fact;

    open spec fn view(&self) -> Fact {
        Fact {
            kind: opt_view(self.kind),
            severity: opt_view(self.severity),
            message: opt_view(self.message),
            selector: opt_view(self.selector),
            measured: opt_view(self.measured),
            rect: opt_view(self.rect),
        }
    }
}

pub open spec fn facts(v: Seq<Finding>) -> Seq<Fact> {
    v.map_values(|f: Finding| f@)
}

/// How severe a finding is: 0 for a broken layout, 1 for a usability problem,
/// and 2 for everything else, a finding without a severity among it.
pub open spec fn severity_of(f: Fact) -> int {
    match f.severity {
        Some(s) => if s == "high"@ {
            0
        } else if s == "medium"@ {
            1
        } else {
            2
        },
        None => 2,
    }
}

fn severity_rank(f: &Finding) -> (r: u8)
    ensures
        r == severity_of(f@),
{
    match &f.severity {
        Some(s) => if same(s.as_str(), "high") {
            0
        } else if same(s.as_str(), "medium") {
            1
        } else {
            2
        },
        None => 2,
    }
}

/// How many findings are of a severity.
pub open spec fn count_of(s: Seq<Fact>, severity: int) -> nat
    decreases s.len(),
{
    if s.len() == 0 {
        0
    } else {
        count_of(s.drop_last(), severity) + if severity_of(s.last()) == severity {
            1nat
        } else {
            0nat
        }
    }
}

/// How many findings of each severity, highest first.
pub fn tally(findings: &Vec<Finding>) -> (r: (usize, usize, usize))
    ensures
        r.0 == count_of(facts(findings@), 0),
        r.1 == count_of(facts(findings@), 1),
        r.2 == count_of(facts(findings@), 2),
        r.0 + r.1 + r.2 == findings@.len(),
{
    let ghost all = facts(findings@);
    let mut high: usize = 0;
    let mut medium: usize = 0;
    let mut low: usize = 0;
    let mut i: usize = 0;
    assert(all.take(0) =~= Seq::empty());
    while i < findings.len()
        invariant
            i <= findings@.len(),
            all == facts(findings@),
            high == count_of(all.take(i as int), 0),
            medium == count_of(all.take(i as int), 1),
            low == count_of(all.take(i as int), 2),
            high + medium + low == i,
        decreases findings@.len() - i,
    {
        proof {
            assert(all.take(i + 1).drop_last() =~= all.take(i as int));
            assert(all.take(i + 1).last() == findings@[i as int]@);
        }
        let s: u8 = severity_rank(&findings[i]);
        if s == 0 {
            high += 1;
        } else if s == 1 {
            medium += 1;
        } else {
            low += 1;
        }
        i += 1;
    }
    assert(all.take(all.len() as int) =~= all);
    (high, medium, low)
}

pub open spec fn more_severe(a: Fact, b: Fact) -> bool {
    severity_of(a) < severity_of(b)
}

pub open spec fn by_severity(s: Seq<Fact>) -> Seq<Fact> {
    sorted(s, |a: Fact, b: Fact| more_severe(a, b))
}

fn severer(a: &Finding, b: &Finding) -> (r: bool)
    ensures
        r == more_severe(a@, b@),
{
    severity_rank(a) < severity_rank(b)
}

/// Put the findings that mean the layout is broken first.
///
/// Agents triage badly without a ranking, so this report is opinionated about
/// severity on purpose. The sort is stable, so findings of equal severity stay
/// in the order the probes found them, which is document order.
pub fn rank(findings: &mut Vec<Finding>)
    ensures
        facts(final(findings)@) == by_severity(facts(old(findings)@)),
{
    let ghost lt = |a: Finding, b: Finding| more_severe(a@, b@);
    let mut held: Vec<Finding> = Vec::new();
    held.append(findings);
    let ghost before = held@;
    assert(before =~= old(findings)@);
    let mut out = stable_sort(held, severer, Ghost(lt));
    let ghost after = out@;
    findings.append(&mut out);
    proof {
        assert(findings@ =~= after);
        crate::order::lemma_sorted_view(
            before,
            lt,
            |f: Finding| f@,
            |a: Fact, b: Fact| more_severe(a, b),
        );
    }
}

/// What probing a panel came to: its findings and the width it rendered at, or
/// why the probes did not run.
#[derive(Debug)]
pub struct Probed {
    pub findings: Result<Vec<Finding>, String>,
    /// As the JSON the page sent.
    pub rendered_width: Option<String>,
}

pub open spec fn probe_failed(why: Seq<char>) -> Fact {
    Fact {
        kind: Some("probe-failed"@),
        severity: Some("low"@),
        message: Some("probes did not run: "@ + why),
        selector: None,
        measured: None,
        rect: None,
    }
}

pub open spec fn console_error(text: Seq<char>) -> Fact {
    Fact {
        kind: Some("console-error"@),
        severity: Some("low"@),
        message: Some(text),
        selector: None,
        measured: None,
        rect: None,
    }
}

/// A finding for each error in a console, in the order logged.
pub open spec fn errors_found(lines: Seq<Line>) -> Seq<Fact>
    decreases lines.len(),
{
    if lines.len() == 0 {
        Seq::empty()
    } else {
        let d = errors_found(lines.drop_last());
        if lines.last().level == "error"@ {
            d.push(console_error(lines.last().text))
        } else {
            d
        }
    }
}

/// Everything found in a panel, as it was found.
pub open spec fn found_in(p: Probed, lines: Seq<Line>) -> Seq<Fact> {
    (match p.findings {
        Ok(f) => facts(f@),
        Err(why) => seq![probe_failed(why@)],
    }) + errors_found(lines)
}

fn low(kind: &str, message: String) -> (r: Finding)
    ensures
        r@ == (Fact {
            kind: Some(kind@),
            severity: Some("low"@),
            message: Some(message@),
            selector: None,
            measured: None,
            rect: None,
        }),
{
    Finding {
        kind: Some(kind.to_owned()),
        severity: Some("low".to_owned()),
        message: Some(message),
        selector: None,
        measured: None,
        rect: None,
    }
}

fn push_errors(out: &mut Vec<Finding>, lines: &Vec<ConsoleLine>)
    ensures
        facts(final(out)@) == facts(old(out)@) + errors_found(line_views(lines@)),
{
    let ghost start = facts(out@);
    let ghost all = line_views(lines@);
    let mut i: usize = 0;
    assert(all.take(0) =~= Seq::empty());
    assert(facts(out@) =~= start + errors_found(all.take(0)));
    while i < lines.len()
        invariant
            i <= lines@.len(),
            all == line_views(lines@),
            facts(out@) == start + errors_found(all.take(i as int)),
        decreases lines@.len() - i,
    {
        proof {
            assert(all.take(i + 1).drop_last() =~= all.take(i as int));
            assert(all.take(i + 1).last() == lines@[i as int]@);
        }
        if same(lines[i].level.as_str(), "error") {
            let ghost before = facts(out@);
            let f = low("console-error", lines[i].text.as_str().to_owned());
            out.push(f);
            assert(facts(out@) =~= before.push(f@));
            assert(facts(out@) =~= start + errors_found(all.take(i + 1)));
        }
        i += 1;
    }
    assert(all.take(all.len() as int) =~= all);
}

/// What is found in a panel: what its probes say, and the errors in its
/// console.
fn gather(p: Probed, heard: &AppState, panel: &str) -> (r: Vec<Finding>)
    ensures
        facts(r@) == found_in(p, lines_of(heard@.console, panel@)),
{
    let mut out: Vec<Finding> = Vec::new();
    match p.findings {
        Ok(f) => {
            out = f;
        },
        Err(why) => {
            let mut message = "probes did not run: ".to_owned();
            message.append(why.as_str());
            let f = low("probe-failed", message);
            out.push(f);
            assert(facts(out@) =~= seq![probe_failed(why@)]);
        },
    }
    match heard.console_lines(panel) {
        Some(lines) => {
            push_errors(&mut out, lines);
        },
        None => {
            assert(lines_of(heard@.console, panel@) =~= Seq::empty());
            assert(facts(out@) + errors_found(Seq::empty()) =~= facts(out@));
        },
    }
    out
}

/// One panel's part of a report.
#[derive(Debug)]
pub struct PanelResult {
    pub panel: String,
    pub id: String,
    pub width: i64,
    pub height: i64,
    pub source: String,
    pub rendered_width: Option<String>,
    pub findings: Vec<Finding>,
}

/// A [`PanelResult`], with its texts as characters.
#[verifier::ext_equal]
pub struct Told {
    pub panel: Seq<char>,
    pub id: Seq<char>,
    pub width: i64,
    pub height: i64,
    pub source: Seq<char>,
    pub rendered_width: Option<Seq<char>>,
    pub findings: Seq<Fact>,
}

impl View for PanelResult {
    type V = Told;

    open spec fn view(&self) -> Told {
        Told {
            panel: self.panel@,
            id: self.id@,
            width: self.width,
            height: self.height,
            source: self.source@,
            rendered_width: opt_view(self.rendered_width),
            findings: facts(self.findings@),
        }
    }
}

pub open spec fn panel_results(v: Seq<PanelResult>) -> Seq<Told> {
    v.map_values(|r: PanelResult| r@)
}

#[derive(Debug)]
pub struct AuditReport {
    pub url: String,
    pub panels: Vec<PanelResult>,
    pub high: usize,
    pub medium: usize,
    pub low: usize,
}

/// What each severity means, which the report says with it.
pub const HIGH_MEANS: &'static str = "overflow and overlap: the layout is broken here";

pub const MEDIUM_MEANS: &'static str =
    "small type, upscaled images and tap targets: usability, and often a design call";

pub const LOW_MEANS: &'static str =
    "console noise and viewport-hungry fixed elements: worth a look, rarely urgent";

/// What a panel's part of the report says.
pub open spec fn result_of(panel: PanelShown, p: Probed, heard: Heard) -> Told {
    Told {
        panel: panel.name,
        id: panel.id,
        width: panel.width,
        height: panel.height,
        source: panel.source,
        rendered_width: opt_view(p.rendered_width),
        findings: by_severity(found_in(p, lines_of(heard.console, panel.id))),
    }
}

/// How many findings of a severity there are in the first `n` panels.
pub open spec fn total_of(
    panels: Seq<PanelShown>,
    probes: Seq<Probed>,
    heard: Heard,
    n: int,
    severity: int,
) -> nat
    decreases n,
{
    if n <= 0 {
        0
    } else {
        total_of(panels, probes, heard, n - 1, severity) + count_of(
            found_in(probes[n - 1], lines_of(heard.console, panels[n - 1].id)),
            severity,
        )
    }
}

proof fn lemma_total_grows(
    panels: Seq<PanelShown>,
    probes: Seq<Probed>,
    heard: Heard,
    n: int,
    m: int,
    severity: int,
)
    requires
        n <= m,
    ensures
        total_of(panels, probes, heard, n, severity) <= total_of(
            panels,
            probes,
            heard,
            m,
            severity,
        ),
    decreases m - n,
{
    if n < m {
        lemma_total_grows(panels, probes, heard, n, m - 1, severity);
    }
}

/// Probes and console of every panel, in one report.
pub fn report(panels: &Vec<PanelInfo>, probes: Vec<Probed>, heard: &AppState, url: &str) -> (r:
    Result<AuditReport, String>)
    requires
        probes@.len() == panels@.len(),
        forall|s: int|
            0 <= s < 3 ==> #[trigger] total_of(
                panel_infos(panels@),
                probes@,
                heard@,
                panels@.len() as int,
                s,
            ) <= usize::MAX,
    ensures
        match r {
            Ok(a) => {
                let ps = panel_infos(panels@);
                let n = panels@.len() as int;
                &&& panels@.len() > 0
                &&& a.url@ == url@
                &&& panel_results(a.panels@) == Seq::new(
                    panels@.len(),
                    |i: int| result_of(ps[i], probes@[i], heard@),
                )
                &&& a.high == total_of(ps, probes@, heard@, n, 0)
                &&& a.medium == total_of(ps, probes@, heard@, n, 1)
                &&& a.low == total_of(ps, probes@, heard@, n, 2)
            },
            Err(e) => panels@.len() == 0 && e@ == "no panels are open"@,
        },
{
    if panels.len() == 0 {
        return Err("no panels are open".to_owned());
    }
    let ghost ps = panel_infos(panels@);
    let ghost all = probes@;
    let ghost n = panels@.len() as int;
    let ghost want = Seq::new(panels@.len(), |i: int| result_of(ps[i], all[i], heard@));
    let mut rest = probes;
    let mut out: Vec<PanelResult> = Vec::new();
    let mut high: usize = 0;
    let mut medium: usize = 0;
    let mut low: usize = 0;
    let mut i: usize = 0;
    assert(panel_results(out@) =~= want.take(0));
    assert(all.skip(0) =~= all);
    while i < panels.len()
        invariant
            i <= panels@.len(),
            n == panels@.len(),
            ps == panel_infos(panels@),
            all.len() == panels@.len(),
            rest@ == all.skip(i as int),
            want.len() == n,
            forall|k: int| 0 <= k < n ==> #[trigger] want[k] == result_of(ps[k], all[k], heard@),
            panel_results(out@) == want.take(i as int),
            high == total_of(ps, all, heard@, i as int, 0),
            medium == total_of(ps, all, heard@, i as int, 1),
            low == total_of(ps, all, heard@, i as int, 2),
            forall|s: int| 0 <= s < 3 ==> #[trigger] total_of(ps, all, heard@, n, s) <= usize::MAX,
        decreases panels@.len() - i,
    {
        let ghost before = panel_results(out@);
        let p = rest.remove(0);
        proof {
            assert(p == all[i as int]);
            assert(rest@ =~= all.skip(i + 1));
            assert(ps[i as int] == panels@[i as int]@);
            lemma_total_grows(ps, all, heard@, i + 1, n, 0);
            lemma_total_grows(ps, all, heard@, i + 1, n, 1);
            lemma_total_grows(ps, all, heard@, i + 1, n, 2);
            assert(total_of(ps, all, heard@, n, 0) <= usize::MAX);
            assert(total_of(ps, all, heard@, n, 1) <= usize::MAX);
            assert(total_of(ps, all, heard@, n, 2) <= usize::MAX);
        }
        let panel = &panels[i];
        let rendered = clone_opt(&p.rendered_width);
        let mut findings = gather(p, heard, panel.id.as_str());
        let (h, m, l) = tally(&findings);
        high = high + h;
        medium = medium + m;
        low = low + l;
        rank(&mut findings);
        let one = PanelResult {
            panel: panel.name.as_str().to_owned(),
            id: panel.id.as_str().to_owned(),
            width: panel.width,
            height: panel.height,
            source: panel.source.as_str().to_owned(),
            rendered_width: rendered,
            findings,
        };
        out.push(one);
        proof {
            assert(one@ =~= want[i as int]);
            assert(panel_results(out@) =~= before.push(one@));
            assert(want.take(i + 1) =~= want.take(i as int).push(want[i as int]));
        }
        i += 1;
    }
    assert(want.take(want.len() as int) =~= want);
    Ok(AuditReport { url: url.to_owned(), panels: out, high, medium, low })
}

proof fn lemma_severity_ranks()
    ensures
        ranks(|a: Fact, b: Fact| more_severe(a, b)),
{
}

/// Ranking loses no finding and puts a broken layout before a design call
/// before the rest.
pub proof fn a_broken_layout_comes_first(s: Seq<Fact>)
    ensures
        in_order(by_severity(s), |a: Fact, b: Fact| more_severe(a, b)),
        by_severity(s).to_multiset() == s.to_multiset(),
        by_severity(s).len() == s.len(),
{
    lemma_severity_ranks();
    crate::order::sorting_is_ordered_and_complete(s, |a: Fact, b: Fact| more_severe(a, b));
}

/// Findings of equal severity keep the order they were found in.
pub proof fn equal_severity_keeps_document_order(s: Seq<Fact>)
    requires
        forall|i: int, j: int|
            0 <= i < s.len() && 0 <= j < s.len() ==> severity_of(#[trigger] s[i]) == severity_of(
                #[trigger] s[j],
            ),
    ensures
        by_severity(s) == s,
{
    crate::order::sorting_keeps_what_is_in_order(s, |a: Fact, b: Fact| more_severe(a, b));
}

/// The summary counts every finding exactly once.
pub proof fn every_finding_is_counted_once(s: Seq<Fact>)
    ensures
        count_of(s, 0) + count_of(s, 1) + count_of(s, 2) == s.len(),
    decreases s.len(),
{
    if s.len() > 0 {
        every_finding_is_counted_once(s.drop_last());
    }
}

proof fn lemma_errors_told(lines: Seq<Line>)
    ensures
        errors_found(lines) == lines.filter(|l: Line| l.level == "error"@).map_values(
            |l: Line|
                Fact {
                    kind: Some("console-error"@),
                    severity: Some("low"@),
                    message: Some(l.text),
                    selector: None,
                    measured: None,
                    rect: None,
                },
        ),
    decreases lines.len(),
{
    reveal(Seq::filter);
    let bad = |l: Line| l.level == "error"@;
    let told = |l: Line|
        Fact {
            kind: Some("console-error"@),
            severity: Some("low"@),
            message: Some(l.text),
            selector: None,
            measured: None,
            rect: None,
        };
    if lines.len() == 0 {
        assert(lines.filter(bad).map_values(told) =~= Seq::<Fact>::empty());
    } else {
        let d = lines.drop_last();
        lemma_errors_told(d);
        assert(d.filter(bad).push(lines.last()).map_values(told) =~= d.filter(bad).map_values(
            told,
        ).push(told(lines.last())));
    }
}

/// Each line of a console whose level is "error" is a finding of its own, and
/// no other line is one: the findings of a panel are those of its probes, or one
/// that says they did not run, and then one for each such line.
pub proof fn each_console_error_is_a_finding(p: Probed, lines: Seq<Line>)
    ensures
        forall|k: int|
            0 <= k < lines.len() && (#[trigger] lines[k]).level == "error"@ ==> found_in(
                p,
                lines,
            ).contains(
                (Fact {
                    kind: Some("console-error"@),
                    severity: Some("low"@),
                    message: Some(lines[k].text),
                    selector: None,
                    measured: None,
                    rect: None,
                }),
            ),
        ({
            let n = match p.findings {
                Ok(f) => f@.len(),
                Err(_) => 1,
            };
            let r = found_in(p, lines);
            &&& r.len() == n + lines.filter(|l: Line| l.level == "error"@).len()
            &&& p.findings matches Ok(f) ==> r.take(n as int) == facts(f@)
            &&& p.findings matches Err(why) ==> r[0].message == Some(
                "probes did not run: "@ + why@,
            ) && r[0].kind == Some("probe-failed"@) && r[0].severity == Some("low"@)
            &&& forall|j: int|
                n <= j < r.len() ==> (#[trigger] r[j]).kind == Some("console-error"@) && exists|
                    k: int,
                |
                    0 <= k < lines.len() && (#[trigger] lines[k]).level == "error"@ && r[j].message
                        == Some(lines[k].text)
        }),
{
    lemma_errors_told(lines);
    let bad = |l: Line| l.level == "error"@;
    let told = |l: Line|
        Fact {
            kind: Some("console-error"@),
            severity: Some("low"@),
            message: Some(l.text),
            selector: None,
            measured: None,
            rect: None,
        };
    let e = lines.filter(bad);
    let first = match p.findings {
        Ok(f) => facts(f@),
        Err(why) => seq![probe_failed(why@)],
    };
    let n = first.len();
    let r = found_in(p, lines);
    assert(r =~= first + e.map_values(told));
    assert(r.take(n as int) =~= first);
    assert forall|k: int| 0 <= k < lines.len() && (#[trigger] lines[k]).level
        == "error"@ implies r.contains(told(lines[k])) by {
        assert(bad(lines[k]));
        lines.lemma_filter_contains(bad, k);
        let j = e.index_of(lines[k]);
        assert(r[n + j] == told(lines[k]));
    }
    assert forall|j: int| n <= j < r.len() implies (#[trigger] r[j]).kind == Some(
        "console-error"@,
    ) && exists|k: int|
        0 <= k < lines.len() && (#[trigger] lines[k]).level == "error"@ && r[j].message == Some(
            lines[k].text,
        ) by {
        let l = e[j - n];
        lines.lemma_filter_pred(bad, j - n);
        assert(r[j] == told(l) && bad(l));
        assert(e.contains(l));
        lines.lemma_filter_contains_rev(bad, l);
        let k = lines.index_of(l);
        assert(lines[k] == l);
    }
}

proof fn lemma_severity_literals()
    ensures
        "high"@ != "medium"@,
        "high"@ != "low"@,
        "medium"@ != "low"@,
{
    reveal_strlit("high");
    reveal_strlit("medium");
    reveal_strlit("low");
    assert("high"@[0] == 'h' && "medium"@[0] == 'm' && "low"@[0] == 'l');
}

/// The three counts are of what is called high, what is called medium, and
/// everything else.
pub proof fn the_counts_go_by_what_a_finding_is_called(s: Seq<Fact>)
    ensures
        count_of(s, 0) == s.filter(|f: Fact| f.severity == Some("high"@)).len(),
        count_of(s, 1) == s.filter(|f: Fact| f.severity == Some("medium"@)).len(),
        count_of(s, 2) == s.filter(
            |f: Fact| f.severity != Some("high"@) && f.severity != Some("medium"@),
        ).len(),
    decreases s.len(),
{
    reveal(Seq::filter);
    lemma_severity_literals();
    if s.len() > 0 {
        the_counts_go_by_what_a_finding_is_called(s.drop_last());
    }
}

/// A panel's part of the report is everything found in it, with every high
/// finding before every other and every medium one before the rest; and it adds
/// to each count of the report as many findings as it has of that severity.
pub proof fn a_panel_adds_its_findings_to_the_report(
    panels: Seq<PanelShown>,
    probes: Seq<Probed>,
    heard: Heard,
    n: int,
)
    requires
        0 <= n < panels.len(),
        probes.len() == panels.len(),
    ensures
        ({
            let told = result_of(panels[n], probes[n], heard);
            let found = found_in(probes[n], lines_of(heard.console, panels[n].id));
            let before = |severity: int| total_of(panels, probes, heard, n, severity);
            let after = |severity: int| total_of(panels, probes, heard, n + 1, severity);
            &&& told.panel == panels[n].name && told.id == panels[n].id
            &&& told.width == panels[n].width && told.height == panels[n].height
            &&& told.findings.to_multiset() == found.to_multiset()
            &&& forall|i: int, j: int|
                0 <= i < j < told.findings.len() && (#[trigger] told.findings[j]).severity == Some(
                    "high"@,
                ) ==> (#[trigger] told.findings[i]).severity == Some("high"@)
            &&& forall|i: int, j: int|
                0 <= i < j < told.findings.len() && (#[trigger] told.findings[j]).severity == Some(
                    "medium"@,
                ) ==> (#[trigger] told.findings[i]).severity == Some("high"@)
                    || told.findings[i].severity == Some("medium"@)
            &&& total_of(panels, probes, heard, 0, 0) == 0
            &&& total_of(panels, probes, heard, 0, 1) == 0
            &&& total_of(panels, probes, heard, 0, 2) == 0
            &&& after(0) - before(0) == found.filter(|f: Fact| f.severity == Some("high"@)).len()
            &&& after(1) - before(1) == found.filter(|f: Fact| f.severity == Some("medium"@)).len()
            &&& after(0) + after(1) + after(2) - before(0) - before(1) - before(2) == found.len()
        }),
{
    let found = found_in(probes[n], lines_of(heard.console, panels[n].id));
    a_broken_layout_comes_first(found);
    the_counts_go_by_what_a_finding_is_called(found);
    every_finding_is_counted_once(found);
    lemma_severity_literals();
    let told = result_of(panels[n], probes[n], heard);
    let lt = |a: Fact, b: Fact| more_severe(a, b);
    assert forall|i: int, j: int| 0 <= i < j < told.findings.len() implies severity_of(
        #[trigger] told.findings[i],
    ) <= severity_of(#[trigger] told.findings[j]) by {
        assert(!lt(told.findings[j], told.findings[i]));
    }
}

} // verus!
