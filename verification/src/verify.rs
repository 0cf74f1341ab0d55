//! Ask the page what its breakpoints are, and compare that to what the code
//! said.
//!
//! Everything else here infers breakpoints from source: a config parsed without
//! running it, media queries read out of stylesheets, variables resolved by
//! hand. All of that is a model of what the browser will do.
//!
//! The browser is already here. A panel holds the real, resolved stylesheet:
//! the preprocessor has run, imports are followed, custom media is expanded,
//! and a container query is distinguishable from a viewport one because the
//! engine parsed it. Reading the media rules out of the page is the ground
//! truth for the exact question the scanner estimates.
//!
//! This is a check, not a detector. It needs a panel pointed at a running site,
//! and the scanner has to work on a folder before anything is running. What it
//! can do is confirm what the scanner found, and say what it missed.

use vstd::prelude::*;
use vstd::string::StringExecFns;
use crate::canvas::layout::round_div;
use crate::canvas::row::{
    panel_infos, viewports_of, why_not_measured, Canvas, PanelInfo, PanelShown,
};
use crate::canvas::names::meant;
use crate::order::{in_order, ranks, sorted, stable_sort};
use crate::scanner::types::{founds, BreakpointDiscovery, Found, PX};
use crate::scanner::units::{hits_in, widths_in_query, WidthHit};
use crate::text::{decimal, decimal_string, number_string, opt_view};

verus! {

/// Walk the page's own stylesheets and report every media condition.
///
/// Cross-origin sheets throw on `cssRules` rather than returning nothing, so
/// each one is tried on its own and counted when it refuses.
pub const READ_THE_PAGE: &'static str =
    r#"
var conditions = {};
var sheets = 0;
var unreadable = 0;
var containers = 0;

function walk(rules) {
  for (var i = 0; i < rules.length; i++) {
    var rule = rules[i];
    // CSSMediaRule
    if (rule.media && typeof rule.conditionText === "string") {
      var text = rule.conditionText;
      conditions[text] = (conditions[text] || 0) + 1;
    }
    // CSSContainerRule, which is about an element and never a panel
    if (rule.constructor && rule.constructor.name === "CSSContainerRule") {
      containers += 1;
    }
    if (rule.cssRules) {
      try { walk(rule.cssRules); } catch (e) {}
    }
  }
}

for (var s = 0; s < document.styleSheets.length; s++) {
  sheets += 1;
  var sheet = document.styleSheets[s];
  var rules = null;
  try { rules = sheet.cssRules; } catch (e) { unreadable += 1; continue; }
  if (!rules) { unreadable += 1; continue; }
  try { walk(rules); } catch (e) { unreadable += 1; }
}

return {
  conditions: conditions,
  sheets: sheets,
  unreadable: unreadable,
  containers: containers,
  url: location.href,
};
"#;

pub const HAS_RULES: &'static str = "the page has rules at this width";

pub const HAS_NO_RULES: &'static str = "nothing in the page changes at this width";

pub const HAS_NO_PANEL: &'static str = "the page changes here and no panel is open at it";

/// What the page said of itself. A count that is missing or is no number is
/// nothing.
#[derive(Debug)]
pub struct PageRead {
    /// Each media condition, and how many rules have it.
    pub conditions: Vec<(String, Option<u64>)>,
    pub sheets: Option<u64>,
    pub unreadable: Option<u64>,
    pub containers: Option<u64>,
    pub url: Option<String>,
}

/// One width, and whether the code and the page agree about it.
#[derive(Debug)]
pub struct WidthCheck {
    /// In whole pixels where only the page has it.
    pub width: i64,
    /// The name the project gave it, when the scan found one.
    pub name: Option<String>,
    /// True when the scan found this width in the code.
    pub in_code: bool,
    /// How many media rules in the live page use it.
    pub rules_in_page: u64,
    pub verdict: String,
}

#[verifier::ext_equal]
pub struct Checked {
    pub width: int,
    pub name: Option<Seq<char>>,
    pub in_code: bool,
    pub rules_in_page: u64,
    pub verdict: Seq<char>,
}

impl View for WidthCheck {
    type V = Checked;

    open spec fn view(&self) -> Checked {
        Checked {
            width: self.width as int,
            name: opt_view(self.name),
            in_code: self.in_code,
            rules_in_page: self.rules_in_page,
            verdict: self.verdict@,
        }
    }
}

pub open spec fn checks(v: Seq<WidthCheck>) -> Seq<Checked> {
    v.map_values(|c: WidthCheck| c@)
}

#[derive(Debug)]
pub struct Verification {
    pub panel: String,
    pub url: String,
    pub widths: Vec<WidthCheck>,
    /// Stylesheets the page would not let us read, almost always because they
    /// came from another origin. Their rules are invisible here, so a width
    /// only used in one of them reads as missing when it is not.
    pub unreadable_stylesheets: u64,
    pub stylesheets: u64,
    /// Media rules that had no width condition: print, colour scheme, reduced
    /// motion. Counted so a page full of them does not read as a page with
    /// nothing in it.
    pub rules_without_a_width: u64,
    /// Container queries in the live page. Not viewport widths and never
    /// panels, but a project that has moved to them looks empty otherwise.
    pub container_rules: u64,
    pub summary: String,
}

/// A count, as far as a `u64` goes.
pub open spec fn capped(n: int) -> u64 {
    if n > u64::MAX {
        u64::MAX
    } else {
        n as u64
    }
}

fn more(a: u64, b: u64) -> (r: u64)
    ensures
        r == capped(a + b),
{
    if a > u64::MAX - b {
        u64::MAX
    } else {
        a + b
    }
}

/// The whole pixels of a width, a half going away from zero.
pub open spec fn whole(w: int) -> int {
    round_div(w, 1_000_000)
}

fn whole_pixels(w: i64) -> (r: i64)
    ensures
        r == whole(w as int),
        -9_223_372_036_855 <= r <= 9_223_372_036_855,
{
    if w >= 0 {
        ((w as i128 + 500_000) / 1_000_000) as i64
    } else {
        -(((-(w as i128) + 500_000) / 1_000_000) as i64)
    }
}

/// The counts `t`, in the order of the widths, with `n` more at `key`.
pub open spec fn add_at(t: Seq<(i64, u64)>, key: i64, n: u64) -> Seq<(i64, u64)>
    decreases t.len(),
{
    if t.len() == 0 {
        seq![(key, n)]
    } else if t.last().0 == key {
        t.drop_last().push((key, capped(t.last().1 + n)))
    } else if key < t.last().0 {
        add_at(t.drop_last(), key, n).push(t.last())
    } else {
        t.push((key, n))
    }
}

/// How many rules the counts have at a width.
pub open spec fn rules_at(t: Seq<(i64, u64)>, key: int) -> u64
    decreases t.len(),
{
    if t.len() == 0 {
        0
    } else if t.last().0 == key {
        t.last().1
    } else {
        rules_at(t.drop_last(), key)
    }
}

/// A condition that was listed stands in at least one rule.
pub open spec fn rules_with(count: Option<u64>) -> u64 {
    match count {
        Some(n) => n,
        None => 1,
    }
}

pub open spec fn add_hits(t: Seq<(i64, u64)>, hits: Seq<WidthHit>, n: u64) -> Seq<(i64, u64)>
    decreases hits.len(),
{
    if hits.len() == 0 {
        t
    } else {
        add_at(
            add_hits(t, hits.drop_last(), n),
            whole(hits.last().boundary as int) as i64,
            n,
        )
    }
}

/// The widths the live page uses and how many rules use each, with the number
/// of rules that have no width condition.
pub open spec fn in_page(conditions: Seq<(String, Option<u64>)>) -> (Seq<(i64, u64)>, u64)
    decreases conditions.len(),
{
    if conditions.len() == 0 {
        (Seq::empty(), 0)
    } else {
        let d = in_page(conditions.drop_last());
        let hits = hits_in(conditions.last().0@);
        let n = rules_with(conditions.last().1);
        if hits.len() == 0 {
            (d.0, capped(d.1 + n))
        } else {
            (add_hits(d.0, hits, n), d.1)
        }
    }
}

fn add_one(t: &mut Vec<(i64, u64)>, key: i64, n: u64)
    ensures
        final(t)@ == add_at(old(t)@, key, n),
{
    let ghost all = t@;
    let mut j: usize = t.len();
    assert(all.take(all.len() as int) =~= all);
    assert(all.skip(all.len() as int) =~= Seq::empty());
    while j > 0 && key < t[j - 1].0
        invariant
            j <= all.len(),
            t@ == all,
            add_at(all, key, n) == add_at(all.take(j as int), key, n) + all.skip(j as int),
        decreases j,
    {
        proof {
            let p = all.take(j as int);
            assert(p.last() == all[j - 1]);
            assert(p.drop_last() =~= all.take(j - 1));
            assert(add_at(p, key, n) + all.skip(j as int) =~= add_at(all.take(j - 1), key, n)
                + all.skip(j - 1));
        }
        j -= 1;
    }
    proof {
        if j > 0 {
            assert(all.take(j as int).last() == all[j - 1]);
        }
    }
    if j > 0 && t[j - 1].0 == key {
        let sum = more(t[j - 1].1, n);
        t.set(j - 1, (key, sum));
        proof {
            let p = all.take(j as int);
            assert(t@ =~= p.drop_last().push((key, sum)) + all.skip(j as int));
        }
    } else {
        t.insert(j, (key, n));
        assert(t@ =~= all.take(j as int).push((key, n)) + all.skip(j as int));
        if j == 0 {
            assert(all.take(0) =~= Seq::empty());
            assert(add_at(all.take(0), key, n) =~= all.take(0).push((key, n)));
        }
    }
}

fn read_rules(t: &Vec<(i64, u64)>, key: i64) -> (r: u64)
    ensures
        r == rules_at(t@, key as int),
{
    let mut j: usize = t.len();
    assert(t@.take(t@.len() as int) =~= t@);
    while j > 0
        invariant
            j <= t@.len(),
            rules_at(t@, key as int) == rules_at(t@.take(j as int), key as int),
        decreases j,
    {
        proof {
            assert(t@.take(j as int).last() == t@[j - 1]);
            assert(t@.take(j as int).drop_last() =~= t@.take(j - 1));
        }
        if t[j - 1].0 == key {
            return t[j - 1].1;
        }
        j -= 1;
    }
    0
}

fn count_rules(conditions: &Vec<(String, Option<u64>)>) -> (r: (Vec<(i64, u64)>, u64))
    ensures
        (r.0@, r.1) == in_page(conditions@),
{
    let mut page: Vec<(i64, u64)> = Vec::new();
    let mut bare: u64 = 0;
    let mut i: usize = 0;
    assert(conditions@.take(0) =~= Seq::empty());
    while i < conditions.len()
        invariant
            i <= conditions@.len(),
            (page@, bare) == in_page(conditions@.take(i as int)),
        decreases conditions@.len() - i,
    {
        proof {
            assert(conditions@.take(i + 1).drop_last() =~= conditions@.take(i as int));
            assert(conditions@.take(i + 1).last() == conditions@[i as int]);
        }
        let n: u64 = match conditions[i].1 {
            Some(n) => n,
            None => 1,
        };
        let hits = widths_in_query(conditions[i].0.as_str());
        if hits.len() == 0 {
            bare = more(bare, n);
        } else {
            let ghost before = page@;
            let mut k: usize = 0;
            assert(hits@.take(0) =~= Seq::empty());
            while k < hits.len()
                invariant
                    k <= hits@.len(),
                    page@ == add_hits(before, hits@.take(k as int), n),
                decreases hits@.len() - k,
            {
                proof {
                    assert(hits@.take(k + 1).drop_last() =~= hits@.take(k as int));
                    assert(hits@.take(k + 1).last() == hits@[k as int]);
                }
                add_one(&mut page, whole_pixels(hits[k].boundary), n);
                k += 1;
            }
            assert(hits@.take(hits@.len() as int) =~= hits@);
        }
        i += 1;
    }
    assert(conditions@.take(conditions@.len() as int) =~= conditions@);
    (page, bare)
}

/// Whether the scan found a whole width in the code.
pub open spec fn is_in_code(found: Seq<Found>, key: int) -> bool {
    exists|i: int| 0 <= i < found.len() && whole((#[trigger] found[i]).width as int) == key
}

/// A width that a panel is open at, against the code and the page.
pub open spec fn declared_check(
    p: PanelShown,
    found: Seq<Found>,
    page: Seq<(i64, u64)>,
) -> Checked {
    let rules = rules_at(page, whole(p.width as int));
    Checked {
        width: p.width as int,
        name: Some(p.name),
        in_code: is_in_code(found, whole(p.width as int)),
        rules_in_page: rules,
        verdict: if rules > 0 {
            HAS_RULES@
        } else {
            HAS_NO_RULES@
        },
    }
}

/// Whether a panel is open at a whole width.
pub open spec fn is_open_at(panels: Seq<PanelShown>, key: int) -> bool {
    exists|i: int| 0 <= i < panels.len() && whole((#[trigger] panels[i]).width as int) == key
}

/// The widths of the page that no panel is open at.
pub open spec fn extra_checks(
    page: Seq<(i64, u64)>,
    found: Seq<Found>,
    panels: Seq<PanelShown>,
) -> Seq<Checked>
    decreases page.len(),
{
    if page.len() == 0 {
        Seq::empty()
    } else {
        let d = extra_checks(page.drop_last(), found, panels);
        if is_open_at(panels, page.last().0 as int) {
            d
        } else {
            d.push(
                Checked {
                    width: page.last().0 * 1_000_000,
                    name: None,
                    in_code: is_in_code(found, page.last().0 as int),
                    rules_in_page: page.last().1,
                    verdict: HAS_NO_PANEL@,
                },
            )
        }
    }
}

pub open spec fn narrower_check(a: Checked, b: Checked) -> bool {
    a.width < b.width
}

/// Every width of the row and of the page, narrowest first.
pub open spec fn all_checks(
    panels: Seq<PanelShown>,
    found: Seq<Found>,
    page: Seq<(i64, u64)>,
) -> Seq<Checked> {
    sorted(
        panels.map_values(|p: PanelShown| declared_check(p, found, page)) + extra_checks(
            page,
            found,
            panels,
        ),
        |a: Checked, b: Checked| narrower_check(a, b),
    )
}

fn check_less(a: &WidthCheck, b: &WidthCheck) -> (r: bool)
    ensures
        r == narrower_check(a@, b@),
{
    a.width < b.width
}

fn open_at(panels: &Vec<PanelInfo>, key: i64) -> (r: bool)
    ensures
        r == is_open_at(panel_infos(panels@), key as int),
{
    let ghost all = panel_infos(panels@);
    let mut i: usize = 0;
    while i < panels.len()
        invariant
            i <= panels@.len(),
            all == panel_infos(panels@),
            forall|k: int| 0 <= k < i ==> whole((#[trigger] all[k]).width as int) != key,
        decreases panels@.len() - i,
    {
        assert(all[i as int] == panels@[i as int]@);
        if whole_pixels(panels[i].width) == key {
            return true;
        }
        i += 1;
    }
    false
}

fn stands_in_code(found: &Vec<BreakpointDiscovery>, key: i64) -> (r: bool)
    ensures
        r == is_in_code(founds(found@), key as int),
{
    let ghost all = founds(found@);
    let mut i: usize = 0;
    while i < found.len()
        invariant
            i <= found@.len(),
            all == founds(found@),
            forall|k: int| 0 <= k < i ==> whole((#[trigger] all[k]).width as int) != key,
        decreases found@.len() - i,
    {
        assert(all[i as int] == found@[i as int]@);
        if whole_pixels(found[i].width) == key {
            return true;
        }
        i += 1;
    }
    false
}

/// Whether a panel's width is one the narrow measure can hold.
pub open spec fn key_in_measure(page: Seq<(i64, u64)>) -> bool {
    forall|i: int| 0 <= i < page.len() ==> 0 <= (#[trigger] page[i]).0 <= 10_001
}

proof fn lemma_add_at_measure(t: Seq<(i64, u64)>, key: i64, n: u64)
    requires
        key_in_measure(t),
        0 <= key <= 10_001,
    ensures
        key_in_measure(add_at(t, key, n)),
    decreases t.len(),
{
    if t.len() > 0 {
        let d = t.drop_last();
        assert forall|i: int| 0 <= i < d.len() implies 0 <= (#[trigger] d[i]).0 <= 10_001 by {
            assert(d[i] == t[i]);
        }
        lemma_add_at_measure(d, key, n);
        assert(t.last() == t[t.len() - 1]);
    }
}

fn compare(
    panels: &Vec<PanelInfo>,
    found: &Vec<BreakpointDiscovery>,
    page: &Vec<(i64, u64)>,
) -> (r: Vec<WidthCheck>)
    requires
        key_in_measure(page@),
    ensures
        checks(r@) == all_checks(panel_infos(panels@), founds(found@), page@),
{
    let ghost shown = panel_infos(panels@);
    let ghost code = founds(found@);
    let ghost want = shown.map_values(|p: PanelShown| declared_check(p, code, page@));
    let mut out: Vec<WidthCheck> = Vec::new();
    let mut i: usize = 0;
    assert(checks(out@) =~= want.take(0));
    while i < panels.len()
        invariant
            i <= panels@.len(),
            shown == panel_infos(panels@),
            code == founds(found@),
            want == shown.map_values(|p: PanelShown| declared_check(p, code, page@)),
            checks(out@) == want.take(i as int),
        decreases panels@.len() - i,
    {
        let ghost before = checks(out@);
        let key: i64 = whole_pixels(panels[i].width);
        let rules = read_rules(page, key);
        let verdict = if rules > 0 {
            HAS_RULES.to_owned()
        } else {
            HAS_NO_RULES.to_owned()
        };
        let c = WidthCheck {
            width: panels[i].width,
            name: Some(panels[i].name.as_str().to_owned()),
            in_code: stands_in_code(found, key),
            rules_in_page: rules,
            verdict,
        };
        let ghost cv = c@;
        out.push(c);
        proof {
            assert(shown[i as int] == panels@[i as int]@);
            assert(cv == want[i as int]);
            assert(checks(out@) =~= before.push(cv));
            assert(want.take(i + 1) =~= want.take(i as int).push(want[i as int]));
        }
        i += 1;
    }
    assert(want.take(want.len() as int) =~= want);
    let mut k: usize = 0;
    assert(page@.take(0) =~= Seq::empty());
    assert(want + extra_checks(page@.take(0), code, shown) =~= want);
    while k < page.len()
        invariant
            k <= page@.len(),
            key_in_measure(page@),
            shown == panel_infos(panels@),
            code == founds(found@),
            checks(out@) == want + extra_checks(page@.take(k as int), code, shown),
        decreases page@.len() - k,
    {
        proof {
            assert(page@.take(k + 1).drop_last() =~= page@.take(k as int));
            assert(page@.take(k + 1).last() == page@[k as int]);
        }
        if !open_at(panels, page[k].0) {
            let ghost before = checks(out@);
            let c = WidthCheck {
                width: page[k].0 * PX,
                name: None,
                in_code: stands_in_code(found, page[k].0),
                rules_in_page: page[k].1,
                verdict: HAS_NO_PANEL.to_owned(),
            };
            let ghost cv = c@;
            out.push(c);
            proof {
                assert(checks(out@) =~= before.push(cv));
                assert(want + extra_checks(page@.take(k + 1), code, shown) =~= (want
                    + extra_checks(page@.take(k as int), code, shown)).push(cv));
            }
        }
        k += 1;
    }
    assert(page@.take(page@.len() as int) =~= page@);
    let ghost unsorted = out@;
    let ghost lt = |a: WidthCheck, b: WidthCheck| narrower_check(a@, b@);
    let r = stable_sort(out, check_less, Ghost(lt));
    proof {
        crate::order::lemma_sorted_view(
            unsorted,
            lt,
            |c: WidthCheck| c@,
            |a: Checked, b: Checked| narrower_check(a, b),
        );
    }
    r
}

/// Whether a panel is open at a width. Only those have a name.
pub open spec fn is_open(c: Checked) -> bool {
    c.name is Some
}

/// How many widths of the row the page has rules at.
pub open spec fn confirmed(s: Seq<Checked>) -> nat
    decreases s.len(),
{
    if s.len() == 0 {
        0
    } else {
        confirmed(s.drop_last()) + if is_open(s.last()) && s.last().rules_in_page > 0 {
            1nat
        } else {
            0
        }
    }
}

/// How many widths of the row the page has no rules at.
pub open spec fn unconfirmed(s: Seq<Checked>) -> nat
    decreases s.len(),
{
    if s.len() == 0 {
        0
    } else {
        unconfirmed(s.drop_last()) + if is_open(s.last()) && s.last().rules_in_page == 0 {
            1nat
        } else {
            0
        }
    }
}

/// How many widths of the page have no panel.
pub open spec fn uncovered(s: Seq<Checked>) -> nat
    decreases s.len(),
{
    if s.len() == 0 {
        0
    } else {
        uncovered(s.drop_last()) + if !is_open(s.last()) {
            1nat
        } else {
            0
        }
    }
}

fn tally(widths: &Vec<WidthCheck>) -> (r: (usize, usize, usize))
    ensures
        r.0 == confirmed(checks(widths@)),
        r.1 == unconfirmed(checks(widths@)),
        r.2 == uncovered(checks(widths@)),
{
    let ghost all = checks(widths@);
    let mut a: usize = 0;
    let mut b: usize = 0;
    let mut c: usize = 0;
    let mut i: usize = 0;
    assert(all.take(0) =~= Seq::empty());
    while i < widths.len()
        invariant
            i <= widths@.len(),
            all == checks(widths@),
            a <= i,
            b <= i,
            c <= i,
            a == confirmed(all.take(i as int)),
            b == unconfirmed(all.take(i as int)),
            c == uncovered(all.take(i as int)),
        decreases widths@.len() - i,
    {
        proof {
            assert(all.take(i + 1).drop_last() =~= all.take(i as int));
            assert(all.take(i + 1).last() == widths@[i as int]@);
        }
        if widths[i].name.is_none() {
            c += 1;
        } else if widths[i].rules_in_page > 0 {
            a += 1;
        } else {
            b += 1;
        }
        i += 1;
    }
    assert(all.take(all.len() as int) =~= all);
    (a, b, c)
}

/// The comparison in a sentence.
pub open spec fn summary_of(widths: Seq<Checked>, panels: nat, unreadable: u64) -> Seq<char> {
    decimal(confirmed(widths)) + " of "@ + decimal(panels) + " open widths have rules in this page"@
        + (if uncovered(widths) > 0 {
        ", and the page changes at "@ + decimal(uncovered(widths)) + " widths with no panel"@
    } else {
        Seq::empty()
    }) + (if unconfirmed(widths) > 0 && unreadable > 0 {
        ". "@ + decimal(unreadable as nat)
            + " stylesheets could not be read, so a missing width may only be missing from view"@
    } else {
        Seq::empty()
    })
}

fn summarise(widths: &Vec<WidthCheck>, panels: usize, unreadable: u64) -> (r: String)
    ensures
        r@ == summary_of(checks(widths@), panels as nat, unreadable),
{
    let (good, missing, extra) = tally(widths);
    let mut out = number_string(good);
    out.append(" of ");
    out.append(number_string(panels).as_str());
    out.append(" open widths have rules in this page");
    let ghost first = out@;
    assert(first + Seq::<char>::empty() =~= first);
    if extra > 0 {
        let mut p = ", and the page changes at ".to_owned();
        p.append(number_string(extra).as_str());
        p.append(" widths with no panel");
        out.append(p.as_str());
    }
    let ghost second = out@;
    assert(second + Seq::<char>::empty() =~= second);
    if missing > 0 && unreadable > 0 {
        let mut p = ". ".to_owned();
        p.append(decimal_string(unreadable).as_str());
        p.append(
            " stylesheets could not be read, so a missing width may only be missing from view",
        );
        out.append(p.as_str());
    }
    out
}

pub open spec fn or_none(n: Option<u64>) -> u64 {
    match n {
        Some(n) => n,
        None => 0,
    }
}

fn or_zero(n: Option<u64>) -> (r: u64)
    ensures
        r == or_none(n),
{
    match n {
        Some(n) => n,
        None => 0,
    }
}

proof fn lemma_page_in_measure(conditions: Seq<(String, Option<u64>)>)
    ensures
        key_in_measure(in_page(conditions).0),
    decreases conditions.len(),
{
    if conditions.len() > 0 {
        lemma_page_in_measure(conditions.drop_last());
        let d = in_page(conditions.drop_last()).0;
        let hits = hits_in(conditions.last().0@);
        let n = rules_with(conditions.last().1);
        crate::scanner::units::lemma_hits_in_reach(conditions.last().0@);
        lemma_hits_in_measure(d, hits, n);
    }
}

proof fn lemma_hits_in_measure(t: Seq<(i64, u64)>, hits: Seq<WidthHit>, n: u64)
    requires
        key_in_measure(t),
        forall|i: int|
            0 <= i < hits.len() ==> crate::scanner::units::in_reach(#[trigger] hits[i]),
    ensures
        key_in_measure(add_hits(t, hits, n)),
    decreases hits.len(),
{
    if hits.len() > 0 {
        let d = hits.drop_last();
        assert forall|i: int| 0 <= i < d.len() implies crate::scanner::units::in_reach(
            #[trigger] d[i],
        ) by {
            assert(d[i] == hits[i]);
        }
        lemma_hits_in_measure(t, d, n);
        assert(crate::scanner::units::in_reach(hits[hits.len() - 1]));
        lemma_add_at_measure(
            add_hits(t, d, n),
            whole(hits.last().boundary as int) as i64,
            n,
        );
    }
}

/// Compare the widths of the open panels, in `panels`, and the widths the scan
/// `found` in the code against the widths that the page in `panel` uses.
pub fn check(
    panel: String,
    panels: &Vec<PanelInfo>,
    found: &Vec<BreakpointDiscovery>,
    page: &PageRead,
) -> (r: Verification)
    ensures
        r.panel == panel,
        r.url@ == (match opt_view(page.url) {
            Some(u) => u,
            None => Seq::empty(),
        }),
        checks(r.widths@) == all_checks(
            panel_infos(panels@),
            founds(found@),
            in_page(page.conditions@).0,
        ),
        r.unreadable_stylesheets == or_none(page.unreadable),
        r.stylesheets == or_none(page.sheets),
        r.rules_without_a_width == in_page(page.conditions@).1,
        r.container_rules == or_none(page.containers),
        r.summary@ == summary_of(
            all_checks(panel_infos(panels@), founds(found@), in_page(page.conditions@).0),
            panels@.len(),
            or_none(page.unreadable),
        ),
{
    let (used, bare) = count_rules(&page.conditions);
    proof {
        lemma_page_in_measure(page.conditions@);
    }
    let widths = compare(panels, found, &used);
    let unreadable = or_zero(page.unreadable);
    let summary = summarise(&widths, panels.len(), unreadable);
    let url = match &page.url {
        Some(u) => u.as_str().to_owned(),
        None => {
            let e = String::new();
            assert(e@ =~= Seq::<char>::empty());
            e
        },
    };
    Verification {
        panel,
        url,
        widths,
        unreadable_stylesheets: unreadable,
        stylesheets: or_zero(page.sheets),
        rules_without_a_width: bare,
        container_rules: or_zero(page.containers),
        summary,
    }
}

/// What is said when no panel is meant by a name.
pub open spec fn no_panel_text(needle: Seq<char>) -> Seq<char> {
    "no panel matches \""@ + needle + "\""@
}

/// The panel to read, or why it cannot be.
pub fn panel_to_read(canvas: &Canvas, needle: &str) -> (r: Result<String, String>)
    ensures
        match meant(viewports_of(canvas@.panels), needle@) {
            None => r matches Err(e) && e@ == no_panel_text(needle@),
            Some(i) => {
                let id = canvas@.panels[i].viewport.id;
                match why_not_measured(canvas@, Some(id)) {
                    Some(why) => r matches Err(e) && e@ == why,
                    None => r matches Ok(x) && x@ == id,
                }
            },
        },
{
    match canvas.resolve_id(needle) {
        None => {
            let mut e = "no panel matches \"".to_owned();
            e.append(needle);
            e.append("\"");
            Err(e)
        },
        Some(id) => match canvas.cannot_measure(Some(id.as_str())) {
            Some(why) => Err(why),
            None => Ok(id),
        },
    }
}

proof fn lemma_rules_added(t: Seq<(i64, u64)>, key: i64, n: u64, other: int)
    ensures
        other != key ==> rules_at(add_at(t, key, n), other) == rules_at(t, other),
        in_counting_order(t) ==> rules_at(add_at(t, key, n), key as int) == capped(
            rules_at(t, key as int) + n,
        ),
        in_counting_order(t) ==> in_counting_order(add_at(t, key, n)),
        in_counting_order(t) && t.len() > 0 ==> add_at(t, key, n).last().0 == (if key
            > t.last().0 {
            key
        } else {
            t.last().0
        }),
        add_at(t, key, n).len() > 0,
    decreases t.len(),
{
    let r = add_at(t, key, n);
    if t.len() == 0 {
        assert(r.drop_last() =~= t);
        assert(rules_at(t, other) == 0);
    } else {
        let d = t.drop_last();
        assert(t[t.len() - 1] == t.last());
        assert forall|i: int, j: int|
            in_counting_order(t) && 0 <= i < j < d.len() implies (#[trigger] d[i]).0 < (
        #[trigger] d[j]).0 by {
            assert(t[i].0 < t[j].0);
        }
        lemma_rules_added(d, key, n, other);
        if t.last().0 == key {
            assert(r.drop_last() =~= d);
        } else if key < t.last().0 {
            let e = add_at(d, key, n);
            assert(r.drop_last() =~= e);
            if in_counting_order(t) {
                if d.len() > 0 {
                    assert(t[d.len() - 1].0 < t[t.len() - 1].0);
                }
                assert(e.last().0 < t.last().0);
                assert forall|i: int, j: int| 0 <= i < j < r.len() implies (#[trigger] r[i]).0
                    < (#[trigger] r[j]).0 by {
                    if j < e.len() {
                        assert(e[i].0 < e[j].0);
                    } else {
                        assert(e[e.len() - 1] == e.last());
                        if i < e.len() - 1 {
                            assert(e[i].0 < e[e.len() - 1].0);
                        }
                    }
                }
            }
        } else {
            assert(r.drop_last() =~= t);
            if in_counting_order(t) {
                lemma_none_above(t, key as int);
            }
        }
    }
}

proof fn lemma_none_above(t: Seq<(i64, u64)>, key: int)
    requires
        in_counting_order(t),
        t.len() > 0 ==> t.last().0 < key,
    ensures
        rules_at(t, key) == 0,
    decreases t.len(),
{
    if t.len() > 0 {
        let d = t.drop_last();
        if d.len() > 0 {
            assert(t[d.len() - 1].0 < t[t.len() - 1].0);
        }
        assert forall|i: int, j: int| 0 <= i < j < d.len() implies (#[trigger] d[i]).0 < (
        #[trigger] d[j]).0 by {
            assert(t[i].0 < t[j].0);
        }
        lemma_none_above(d, key);
    }
}

/// Widths that rise.
pub open spec fn in_counting_order(t: Seq<(i64, u64)>) -> bool {
    forall|i: int, j: int| 0 <= i < j < t.len() ==> (#[trigger] t[i]).0 < (#[trigger] t[j]).0
}

/// How often a whole width stands among hits.
pub open spec fn hits_at(hits: Seq<WidthHit>, key: int) -> nat
    decreases hits.len(),
{
    if hits.len() == 0 {
        0
    } else {
        hits_at(hits.drop_last(), key) + if whole(hits.last().boundary as int) == key {
            1nat
        } else {
            0
        }
    }
}

/// How many rules of the page have a boundary at a whole width.
pub open spec fn rules_there(conditions: Seq<(String, Option<u64>)>, key: int) -> int
    decreases conditions.len(),
{
    if conditions.len() == 0 {
        0
    } else {
        rules_there(conditions.drop_last(), key) + hits_at(
            hits_in(conditions.last().0@),
            key,
        ) * rules_with(conditions.last().1)
    }
}

proof fn lemma_hits_added(t: Seq<(i64, u64)>, hits: Seq<WidthHit>, n: u64, key: int)
    requires
        in_counting_order(t),
        forall|i: int|
            0 <= i < hits.len() ==> crate::scanner::units::in_reach(#[trigger] hits[i]),
    ensures
        in_counting_order(add_hits(t, hits, n)),
        rules_at(add_hits(t, hits, n), key) == capped(
            rules_at(t, key) + hits_at(hits, key) * n,
        ),
    decreases hits.len(),
{
    if hits.len() > 0 {
        let d = hits.drop_last();
        assert forall|i: int| 0 <= i < d.len() implies crate::scanner::units::in_reach(
            #[trigger] d[i],
        ) by {
            assert(d[i] == hits[i]);
        }
        lemma_hits_added(t, d, n, key);
        assert(crate::scanner::units::in_reach(hits[hits.len() - 1]));
        let k = whole(hits.last().boundary as int) as i64;
        lemma_rules_added(add_hits(t, d, n), k, n, key);
        let before = hits_at(d, key);
        assert((before + 1) * n == before * n + n) by (nonlinear_arith);
        assert(before * n >= 0) by (nonlinear_arith)
            requires
                before >= 0,
                n >= 0,
        ;
    } else {
        assert(0 * n == 0) by (nonlinear_arith);
    }
}

/// The number given for a width is the number of the page's rules that have
/// their boundary there: no rule is lost between two conditions that round to
/// the same pixel, and none is counted elsewhere.
pub proof fn every_rule_is_counted_at_its_width(conditions: Seq<(String, Option<u64>)>, key: int)
    ensures
        in_counting_order(in_page(conditions).0),
        rules_at(in_page(conditions).0, key) == capped(rules_there(conditions, key)),
        rules_there(conditions, key) >= 0,
    decreases conditions.len(),
{
    if conditions.len() > 0 {
        every_rule_is_counted_at_its_width(conditions.drop_last(), key);
        let hits = hits_in(conditions.last().0@);
        let n = rules_with(conditions.last().1);
        crate::scanner::units::lemma_hits_in_reach(conditions.last().0@);
        lemma_hits_added(in_page(conditions.drop_last()).0, hits, n, key);
        let h = hits_at(hits, key);
        assert(h * n >= 0) by (nonlinear_arith)
            requires
                h >= 0,
                n >= 0,
        ;
        if hits.len() == 0 {
            assert(0 * n == 0) by (nonlinear_arith);
        }
    }
}

/// The widths come narrowest first, whichever side knew of them.
pub proof fn widths_are_checked_in_order(
    panels: Seq<PanelShown>,
    found: Seq<Found>,
    page: Seq<(i64, u64)>,
)
    ensures
        in_order(all_checks(panels, found, page), |a: Checked, b: Checked| narrower_check(a, b)),
        all_checks(panels, found, page).len() == panels.len() + extra_checks(
            page,
            found,
            panels,
        ).len(),
{
    let lt = |a: Checked, b: Checked| narrower_check(a, b);
    assert(ranks(lt));
    crate::order::sorting_is_ordered_and_complete(
        panels.map_values(|p: PanelShown| declared_check(p, found, page)) + extra_checks(
            page,
            found,
            panels,
        ),
        lt,
    );
}

/// What is said of an open panel's width: how many of the page's rules are
/// there, that it has rules exactly when there are any, and whether a breakpoint
/// of the code stands at it.
pub proof fn a_width_has_rules_or_it_has_not(
    p: PanelShown,
    found: Seq<Found>,
    page: Seq<(i64, u64)>,
)
    ensures
        ({
            let c = declared_check(p, found, page);
            let n = rules_at(page, whole(p.width as int));
            &&& c.width == p.width && c.name == Some(p.name) && c.rules_in_page == n
            &&& n > 0 ==> c.verdict == "the page has rules at this width"@
            &&& n == 0 ==> c.verdict == "nothing in the page changes at this width"@
            &&& c.in_code <==> exists|i: int|
                0 <= i < found.len() && whole((#[trigger] found[i]).width as int) == whole(
                    p.width as int,
                )
        }),
{
}

proof fn lemma_counts(s: Seq<Checked>)
    ensures
        confirmed(s) == s.filter(|c: Checked| c.name is Some && c.rules_in_page > 0).len(),
        unconfirmed(s) == s.filter(|c: Checked| c.name is Some && c.rules_in_page == 0).len(),
        uncovered(s) == s.filter(|c: Checked| c.name is None).len(),
    decreases s.len(),
{
    reveal(Seq::filter);
    if s.len() > 0 {
        lemma_counts(s.drop_last());
    }
}

/// The summary counts the open widths that have rules, and the widths that have
/// rules and no panel; it blames sheets that could not be read only where an open
/// width has no rules.
pub proof fn the_summary_counts_the_widths(s: Seq<Checked>, panels: nat, unreadable: u64)
    ensures
        ({
            let yes = s.filter(|c: Checked| c.name is Some && c.rules_in_page > 0).len();
            let no = s.filter(|c: Checked| c.name is Some && c.rules_in_page == 0).len();
            let bare = s.filter(|c: Checked| c.name is None).len();
            let first = decimal(yes) + " of "@ + decimal(panels)
                + " open widths have rules in this page"@;
            &&& bare == 0 && (no == 0 || unreadable == 0) ==> summary_of(s, panels, unreadable)
                == first
            &&& bare > 0 && (no == 0 || unreadable == 0) ==> summary_of(s, panels, unreadable)
                == first + (", and the page changes at "@ + decimal(bare)
                + " widths with no panel"@)
            &&& bare == 0 && no > 0 && unreadable > 0 ==> summary_of(s, panels, unreadable) == first
                + (". "@ + decimal(unreadable as nat)
                + " stylesheets could not be read, so a missing width may only be missing from view"@)
        }),
{
    lemma_counts(s);
    let yes = s.filter(|c: Checked| c.name is Some && c.rules_in_page > 0).len();
    let first = decimal(yes) + " of "@ + decimal(panels) + " open widths have rules in this page"@;
    assert(first + Seq::<char>::empty() =~= first);
    let bare = s.filter(|c: Checked| c.name is None).len();
    let more = first + (", and the page changes at "@ + decimal(bare) + " widths with no panel"@);
    assert(more + Seq::<char>::empty() =~= more);
}

proof fn lemma_extra(page: Seq<(i64, u64)>, found: Seq<Found>, panels: Seq<PanelShown>, k: int)
    requires
        0 <= k < page.len(),
        !is_open_at(panels, page[k].0 as int),
    ensures
        exists|j: int|
            0 <= j < extra_checks(page, found, panels).len() && (#[trigger] extra_checks(
                page,
                found,
                panels,
            )[j]).width == page[k].0 * 1_000_000 && extra_checks(
                page,
                found,
                panels,
            )[j].rules_in_page == page[k].1 && extra_checks(page, found, panels)[j].name is None,
    decreases page.len(),
{
    let d = page.drop_last();
    let before = extra_checks(d, found, panels);
    let r = extra_checks(page, found, panels);
    if k < d.len() {
        assert(d[k] == page[k]);
        lemma_extra(d, found, panels, k);
        let j = choose|j: int|
            0 <= j < before.len() && (#[trigger] before[j]).width == d[k].0 * 1_000_000
                && before[j].rules_in_page == d[k].1 && before[j].name is None;
        assert(r[j] == before[j]);
    } else {
        assert(r[before.len() as int].width == page[k].0 * 1_000_000);
    }
}

/// Every open panel is checked, and so is every width at which the page has
/// rules and no panel is open, with the number of its rules.
pub proof fn every_width_is_checked(
    panels: Seq<PanelShown>,
    found: Seq<Found>,
    page: Seq<(i64, u64)>,
)
    ensures
        forall|i: int|
            0 <= i < panels.len() ==> all_checks(panels, found, page).contains(
                declared_check(#[trigger] panels[i], found, page),
            ),
        forall|k: int|
            0 <= k < page.len() && (forall|i: int|
                0 <= i < panels.len() ==> whole((#[trigger] panels[i]).width as int) != page[k].0)
                ==> exists|j: int|
                0 <= j < all_checks(panels, found, page).len() && (#[trigger] all_checks(
                    panels,
                    found,
                    page,
                )[j]).width == (#[trigger] page[k]).0 * 1_000_000 && all_checks(
                    panels,
                    found,
                    page,
                )[j].rules_in_page == page[k].1 && all_checks(panels, found, page)[j].name is None,
{
    let lt = |a: Checked, b: Checked| narrower_check(a, b);
    assert(ranks(lt));
    let first = panels.map_values(|p: PanelShown| declared_check(p, found, page));
    let extra = extra_checks(page, found, panels);
    let all = first + extra;
    let r = all_checks(panels, found, page);
    assert forall|i: int| 0 <= i < panels.len() implies r.contains(
        declared_check(#[trigger] panels[i], found, page),
    ) by {
        assert(all[i] == declared_check(panels[i], found, page));
        crate::order::lemma_sorted_keeps(all, lt, all[i]);
        assert(all.contains(all[i]));
    }
    assert forall|k: int|
        0 <= k < page.len() && (forall|i: int|
            0 <= i < panels.len() ==> whole((#[trigger] panels[i]).width as int)
                != page[k].0) implies exists|j: int|
        0 <= j < r.len() && (#[trigger] r[j]).width == (#[trigger] page[k]).0 * 1_000_000
            && r[j].rules_in_page == page[k].1 && r[j].name is None by {
        lemma_extra(page, found, panels, k);
        let m = choose|m: int|
            0 <= m < extra.len() && (#[trigger] extra[m]).width == page[k].0 * 1_000_000
                && extra[m].rules_in_page == page[k].1 && extra[m].name is None;
        assert(all[first.len() + m] == extra[m]);
        crate::order::lemma_sorted_keeps(all, lt, extra[m]);
        assert(all.contains(extra[m]));
        let j = r.index_of(extra[m]);
        assert(r[j] == extra[m]);
    }
}

} // verus!
