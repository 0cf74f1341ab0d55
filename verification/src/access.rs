//! Accessibility checks, one per panel, with the breakpoint width attached.
//!
//! A violation that only exists at one width is invisible to a tool that tests
//! one width, and a tap target too small on a phone, a heading order that only
//! breaks when a column stacks, or contrast against a background image that
//! only shows at a narrow viewport are all of that kind.
//!
//! Every check runs in the page, so the cost is the page's, not the app's.

use vstd::prelude::*;
use vstd::string::StringExecFns;
use crate::order::{in_order, sorted, stable_sort, text_below, text_less};
use crate::scanner::cluster::{push_once, with_once};
use crate::text::{
    chars_of, decimal, decimal_string, find_char, find_from, first_char, first_match,
    lemma_first_char, lemma_first_match, opt_view, same, slice_string, texts,
};

verus! {

/// How long one panel gets to finish, in milliseconds. axe on a heavy page is
/// seconds, not milliseconds, and a slow answer is still worth having.
pub const PANEL_BUDGET: u64 = 30_000;

/// How often to ask a panel whether it has finished, in milliseconds.
pub const POLL: u64 = 250;

/// One violation, as it was found in one panel.
#[derive(Debug)]
pub struct PanelViolation {
    pub rule: String,
    pub impact: String,
    pub help: String,
    pub help_url: String,
    /// The elements it was found on, as selectors.
    pub targets: Vec<String>,
}

/// A [`PanelViolation`], with its texts as characters.
#[verifier::ext_equal]
pub struct Broken {
    pub rule: Seq<char>,
    pub impact: Seq<char>,
    pub help: Seq<char>,
    pub help_url: Seq<char>,
    pub targets: Seq<Seq<char>>,
}

impl View for PanelViolation {
    type V = Broken;

    open spec fn view(&self) -> Broken {
        Broken {
            rule: self.rule@,
            impact: self.impact@,
            help: self.help@,
            help_url: self.help_url@,
            targets: texts(self.targets@),
        }
    }
}

pub open spec fn brokens(v: Seq<PanelViolation>) -> Seq<Broken> {
    v.map_values(|x: PanelViolation| x@)
}

/// Every violation found at one width.
#[derive(Debug)]
pub struct PanelAudit {
    pub panel: String,
    pub panel_name: String,
    pub width: i64,
    pub violations: Vec<PanelViolation>,
    /// Set instead of `violations` when the panel could not be asked.
    pub error: Option<String>,
}

/// A [`PanelAudit`], with its texts as characters.
#[verifier::ext_equal]
pub struct Audited {
    pub panel: Seq<char>,
    pub panel_name: Seq<char>,
    pub width: i64,
    pub violations: Seq<Broken>,
    pub error: Option<Seq<char>>,
}

impl View for PanelAudit {
    type V = Audited;

    open spec fn view(&self) -> Audited {
        Audited {
            panel: self.panel@,
            panel_name: self.panel_name@,
            width: self.width,
            violations: brokens(self.violations@),
            error: opt_view(self.error),
        }
    }
}

pub open spec fn audited(v: Seq<PanelAudit>) -> Seq<Audited> {
    v.map_values(|x: PanelAudit| x@)
}

/// One rule, across every width it was found at.
///
/// `widths` is the whole point: a rule broken at 375 and nowhere else is a
/// different problem from one broken everywhere, and it is the one a
/// single-width tool cannot see.
#[derive(Debug)]
pub struct RuleAcrossWidths {
    pub rule: String,
    pub impact: String,
    pub help: String,
    pub help_url: String,
    /// Every width the rule was broken at, ascending.
    pub widths: Vec<i64>,
    /// True when it was not broken at every width that answered, which makes
    /// it a responsive problem rather than a page-wide one.
    pub width_specific: bool,
    /// A few of the elements, for orientation rather than completeness.
    pub examples: Vec<String>,
}

/// A [`RuleAcrossWidths`], with its texts as characters.
#[verifier::ext_equal]
pub struct RuleFound {
    pub rule: Seq<char>,
    pub impact: Seq<char>,
    pub help: Seq<char>,
    pub help_url: Seq<char>,
    pub widths: Seq<i64>,
    pub width_specific: bool,
    pub examples: Seq<Seq<char>>,
}

impl View for RuleAcrossWidths {
    type V = RuleFound;

    open spec fn view(&self) -> RuleFound {
        RuleFound {
            rule: self.rule@,
            impact: self.impact@,
            help: self.help@,
            help_url: self.help_url@,
            widths: self.widths@,
            width_specific: self.width_specific,
            examples: texts(self.examples@),
        }
    }
}

pub open spec fn rules_found(v: Seq<RuleAcrossWidths>) -> Seq<RuleFound> {
    v.map_values(|x: RuleAcrossWidths| x@)
}

#[derive(Debug)]
pub struct AccessReport {
    /// Ranked: the worst impact first, and within an impact the ones that only
    /// happen at some widths, because those are the ones nothing else finds.
    pub rules: Vec<RuleAcrossWidths>,
    pub panels: Vec<PanelAudit>,
    pub widths_audited: Vec<i64>,
    pub violations_total: usize,
    /// How many rules were broken at some widths and not others.
    pub width_specific_count: usize,
    pub axe_version: String,
}

/// How bad an impact is: the worst is least.
pub open spec fn impact_of(impact: Seq<char>) -> u8 {
    if impact == "critical"@ {
        0
    } else if impact == "serious"@ {
        1
    } else if impact == "moderate"@ {
        2
    } else if impact == "minor"@ {
        3
    } else {
        4
    }
}

pub fn impact_rank(impact: &str) -> (r: u8)
    ensures
        r == impact_of(impact@),
{
    if same(impact, "critical") {
        0
    } else if same(impact, "serious") {
        1
    } else if same(impact, "moderate") {
        2
    } else if same(impact, "minor") {
        3
    } else {
        4
    }
}

/// The first rule, from `i` on, with a name.
pub open spec fn rule_from(s: Seq<RuleFound>, name: Seq<char>, i: int) -> Option<int>
    decreases s.len() - i,
{
    if i >= s.len() {
        None
    } else if s[i].rule == name {
        Some(i)
    } else {
        rule_from(s, name, i + 1)
    }
}

/// A rule nothing is known about yet but what a violation of it says.
pub open spec fn first_seen(v: Broken) -> RuleFound {
    RuleFound {
        rule: v.rule,
        impact: v.impact,
        help: v.help,
        help_url: v.help_url,
        widths: Seq::empty(),
        width_specific: false,
        examples: Seq::empty(),
    }
}

/// The elements kept as examples: the first three there are.
pub open spec fn exampled(s: Seq<Seq<char>>, targets: Seq<Seq<char>>) -> Seq<Seq<char>>
    decreases targets.len(),
{
    if targets.len() == 0 {
        s
    } else {
        let d = exampled(s, targets.drop_last());
        if d.len() < 3 {
            with_once(d, targets.last())
        } else {
            d
        }
    }
}

/// A rule with one more violation of it. The worst impact seen for a rule is
/// the one that matters.
pub open spec fn broken_again(r: RuleFound, width: i64, v: Broken) -> RuleFound {
    RuleFound {
        widths: if r.widths.contains(width) {
            r.widths
        } else {
            r.widths.push(width)
        },
        impact: if impact_of(v.impact) < impact_of(r.impact) {
            v.impact
        } else {
            r.impact
        },
        examples: exampled(r.examples, v.targets),
        ..r
    }
}

pub open spec fn noted(s: Seq<RuleFound>, width: i64, v: Broken) -> Seq<RuleFound> {
    match rule_from(s, v.rule, 0) {
        Some(i) => s.update(i, broken_again(s[i], width, v)),
        None => s.push(broken_again(first_seen(v), width, v)),
    }
}

pub open spec fn noted_all(s: Seq<RuleFound>, width: i64, vs: Seq<Broken>) -> Seq<RuleFound>
    decreases vs.len(),
{
    if vs.len() == 0 {
        s
    } else {
        noted(noted_all(s, width, vs.drop_last()), width, vs.last())
    }
}

/// The rules broken in the panels that answered, in the order they were met.
pub open spec fn gathered(audits: Seq<Audited>) -> Seq<RuleFound>
    decreases audits.len(),
{
    if audits.len() == 0 {
        Seq::empty()
    } else {
        let d = gathered(audits.drop_last());
        let a = audits.last();
        if a.error is None {
            noted_all(d, a.width, a.violations)
        } else {
            d
        }
    }
}

/// The widths of the panels that answered.
pub open spec fn answered(audits: Seq<Audited>) -> Seq<i64>
    decreases audits.len(),
{
    if audits.len() == 0 {
        Seq::empty()
    } else {
        let d = answered(audits.drop_last());
        if audits.last().error is None {
            d.push(audits.last().width)
        } else {
            d
        }
    }
}

/// How many violations the panels that answered have.
pub open spec fn violations_in(audits: Seq<Audited>) -> nat
    decreases audits.len(),
{
    if audits.len() == 0 {
        0
    } else {
        violations_in(audits.drop_last()) + if audits.last().error is None {
            audits.last().violations.len()
        } else {
            0
        }
    }
}

/// A rule as it is reported. Broken everywhere that answered is a page problem;
/// broken at some widths is the responsive one this app exists to surface.
pub open spec fn finished(r: RuleFound, answered: Seq<i64>) -> RuleFound {
    RuleFound {
        widths: sorted(r.widths, |a: i64, b: i64| a < b),
        width_specific: spared_somewhere(r.widths, answered),
        ..r
    }
}

/// Whether some width that answered is not one of those a rule was broken at.
pub open spec fn spared_somewhere(widths: Seq<i64>, answered: Seq<i64>) -> bool {
    exists|w: i64| #[trigger] answered.contains(w) && !widths.contains(w)
}

/// Worst impact first, then width-specific before page-wide, then the narrower
/// failures, then the name so the order never wobbles.
pub open spec fn rule_below(a: RuleFound, b: RuleFound) -> bool {
    if impact_of(a.impact) != impact_of(b.impact) {
        impact_of(a.impact) < impact_of(b.impact)
    } else if a.width_specific != b.width_specific {
        a.width_specific
    } else if a.widths.len() != b.widths.len() {
        a.widths.len() < b.widths.len()
    } else {
        text_below(a.rule, b.rule)
    }
}

/// The rules as they are reported, ranked.
pub open spec fn ranked(audits: Seq<Audited>) -> Seq<RuleFound> {
    sorted(
        finished_all(gathered(audits), answered(audits)),
        |a: RuleFound, b: RuleFound| rule_below(a, b),
    )
}

pub open spec fn finished_all(s: Seq<RuleFound>, answered: Seq<i64>) -> Seq<RuleFound> {
    s.map_values(|r: RuleFound| finished(r, answered))
}

pub open spec fn specific_in(s: Seq<RuleFound>) -> nat
    decreases s.len(),
{
    if s.len() == 0 {
        0
    } else {
        specific_in(s.drop_last()) + if s.last().width_specific {
            1nat
        } else {
            0nat
        }
    }
}

fn has_width(v: &Vec<i64>, w: i64) -> (r: bool)
    ensures
        r == v@.contains(w),
{
    let mut i: usize = 0;
    while i < v.len()
        invariant
            i <= v@.len(),
            forall|k: int| 0 <= k < i ==> v@[k] != w,
        decreases v@.len() - i,
    {
        if v[i] == w {
            return true;
        }
        i += 1;
    }
    false
}

fn add_examples(examples: &mut Vec<String>, targets: &Vec<String>)
    ensures
        texts(final(examples)@) == exampled(texts(old(examples)@), texts(targets@)),
{
    let ghost start = texts(examples@);
    let ghost all = texts(targets@);
    let mut i: usize = 0;
    assert(all.take(0) =~= Seq::empty());
    while i < targets.len()
        invariant
            i <= targets@.len(),
            all == texts(targets@),
            texts(examples@) == exampled(start, all.take(i as int)),
        decreases targets@.len() - i,
    {
        proof {
            assert(all.take(i + 1).drop_last() =~= all.take(i as int));
            assert(all.take(i + 1).last() == targets@[i as int]@);
            assert(texts(examples@).len() == examples@.len());
        }
        if examples.len() < 3 {
            push_once(examples, targets[i].as_str());
        }
        i += 1;
    }
    assert(all.take(all.len() as int) =~= all);
}

fn break_again(r: &mut RuleAcrossWidths, width: i64, v: &PanelViolation)
    ensures
        final(r)@ == broken_again(old(r)@, width, v@),
{
    if !has_width(&r.widths, width) {
        r.widths.push(width);
    }
    if impact_rank(v.impact.as_str()) < impact_rank(r.impact.as_str()) {
        r.impact = v.impact.as_str().to_owned();
    }
    add_examples(&mut r.examples, &v.targets);
}

fn find_rule(rules: &Vec<RuleAcrossWidths>, name: &str) -> (r: Option<usize>)
    ensures
        match r {
            Some(i) => i < rules@.len() && rule_from(rules_found(rules@), name@, 0) == Some(
                i as int,
            ),
            None => rule_from(rules_found(rules@), name@, 0) is None,
        },
{
    let ghost all = rules_found(rules@);
    let mut i: usize = 0;
    while i < rules.len()
        invariant
            i <= rules@.len(),
            all == rules_found(rules@),
            rule_from(all, name@, 0) == rule_from(all, name@, i as int),
        decreases rules@.len() - i,
    {
        assert(all[i as int] == rules@[i as int]@);
        if same(rules[i].rule.as_str(), name) {
            return Some(i);
        }
        i += 1;
    }
    None
}

fn note_violation(rules: &mut Vec<RuleAcrossWidths>, width: i64, v: &PanelViolation)
    ensures
        rules_found(final(rules)@) == noted(rules_found(old(rules)@), width, v@),
{
    let ghost before = rules_found(rules@);
    match find_rule(rules, v.rule.as_str()) {
        Some(i) => {
            break_again(&mut rules[i], width, v);
            assert(rules_found(rules@) =~= before.update(i as int, rules@[i as int]@));
        },
        None => {
            let mut fresh = RuleAcrossWidths {
                rule: v.rule.as_str().to_owned(),
                impact: v.impact.as_str().to_owned(),
                help: v.help.as_str().to_owned(),
                help_url: v.help_url.as_str().to_owned(),
                widths: Vec::new(),
                width_specific: false,
                examples: Vec::new(),
            };
            assert(fresh@ =~= first_seen(v@));
            break_again(&mut fresh, width, v);
            let ghost f = fresh@;
            rules.push(fresh);
            assert(rules_found(rules@) =~= before.push(f));
        },
    }
}

fn note_panel(rules: &mut Vec<RuleAcrossWidths>, audit: &PanelAudit)
    ensures
        rules_found(final(rules)@) == noted_all(
            rules_found(old(rules)@),
            audit.width,
            brokens(audit.violations@),
        ),
{
    let ghost start = rules_found(rules@);
    let ghost all = brokens(audit.violations@);
    let mut i: usize = 0;
    assert(all.take(0) =~= Seq::empty());
    while i < audit.violations.len()
        invariant
            i <= audit.violations@.len(),
            all == brokens(audit.violations@),
            rules_found(rules@) == noted_all(start, audit.width, all.take(i as int)),
        decreases audit.violations@.len() - i,
    {
        proof {
            assert(all.take(i + 1).drop_last() =~= all.take(i as int));
            assert(all.take(i + 1).last() == audit.violations@[i as int]@);
        }
        note_violation(rules, audit.width, &audit.violations[i]);
        i += 1;
    }
    assert(all.take(all.len() as int) =~= all);
}

fn narrower(a: &i64, b: &i64) -> (r: bool)
    ensures
        r == (*a < *b),
{
    *a < *b
}

fn rule_less(a: &RuleAcrossWidths, b: &RuleAcrossWidths) -> (r: bool)
    ensures
        r == rule_below(a@, b@),
{
    let x: u8 = impact_rank(a.impact.as_str());
    let y: u8 = impact_rank(b.impact.as_str());
    if x != y {
        x < y
    } else if a.width_specific != b.width_specific {
        a.width_specific
    } else if a.widths.len() != b.widths.len() {
        a.widths.len() < b.widths.len()
    } else {
        text_less(a.rule.as_str(), b.rule.as_str())
    }
}

fn is_spared_somewhere(widths: &Vec<i64>, answered: &Vec<i64>) -> (r: bool)
    ensures
        r == spared_somewhere(widths@, answered@),
{
    let mut i: usize = 0;
    while i < answered.len()
        invariant
            i <= answered@.len(),
            forall|k: int| 0 <= k < i ==> widths@.contains(#[trigger] answered@[k]),
        decreases answered@.len() - i,
    {
        if !has_width(widths, answered[i]) {
            assert(answered@.contains(answered@[i as int]));
            return true;
        }
        i += 1;
    }
    false
}

fn finish_rule(r: RuleAcrossWidths, answered: &Vec<i64>) -> (f: RuleAcrossWidths)
    ensures
        f@ == finished(r@, answered@),
{
    let specific = is_spared_somewhere(&r.widths, answered);
    let ghost lt = |a: i64, b: i64| a < b;
    let in_line = stable_sort(r.widths, narrower, Ghost(lt));
    RuleAcrossWidths {
        rule: r.rule,
        impact: r.impact,
        help: r.help,
        help_url: r.help_url,
        widths: in_line,
        width_specific: specific,
        examples: r.examples,
    }
}

fn finish_rules(rules: Vec<RuleAcrossWidths>, answered: &Vec<i64>) -> (r: Vec<RuleAcrossWidths>)
    ensures
        rules_found(r@) == finished_all(rules_found(rules@), answered@),
{
    let ghost all = rules_found(rules@);
    let ghost want = finished_all(all, answered@);
    let mut rest = rules;
    let mut out: Vec<RuleAcrossWidths> = Vec::new();
    let ghost mut done: int = 0;
    assert(rules_found(out@) =~= want.take(0));
    assert(rules_found(rest@) =~= all.skip(0));
    while rest.len() > 0
        invariant
            0 <= done <= all.len(),
            rest@.len() == all.len() - done,
            want == finished_all(all, answered@),
            rules_found(rest@) == all.skip(done),
            rules_found(out@) == want.take(done),
        decreases rest@.len(),
    {
        let ghost queue = rest@;
        let ghost before = rules_found(out@);
        let r = rest.remove(0);
        proof {
            assert(rules_found(queue)[0] == r@);
            assert(all.skip(done)[0] == all[done]);
            assert forall|i: int| 0 <= i < rest@.len() implies rules_found(rest@)[i] == all.skip(
                done + 1,
            )[i] by {
                assert(rest@[i] == queue[i + 1]);
                assert(rules_found(queue)[i + 1] == all.skip(done)[i + 1]);
            }
            assert(rules_found(rest@) =~= all.skip(done + 1));
        }
        let f = finish_rule(r, answered);
        out.push(f);
        proof {
            assert(rules_found(out@) =~= before.push(f@));
            assert(want[done] == f@);
            assert(want.take(done + 1) =~= want.take(done).push(want[done]));
            done = done + 1;
        }
    }
    assert(want.take(want.len() as int) =~= want);
    out
}

fn count_specific(rules: &Vec<RuleAcrossWidths>) -> (r: usize)
    ensures
        r == specific_in(rules_found(rules@)),
{
    let ghost all = rules_found(rules@);
    let mut n: usize = 0;
    let mut i: usize = 0;
    assert(all.take(0) =~= Seq::empty());
    while i < rules.len()
        invariant
            n <= i <= rules@.len(),
            all == rules_found(rules@),
            n == specific_in(all.take(i as int)),
        decreases rules@.len() - i,
    {
        proof {
            assert(all.take(i + 1).drop_last() =~= all.take(i as int));
            assert(all.take(i + 1).last() == rules@[i as int]@);
        }
        if rules[i].width_specific {
            n += 1;
        }
        i += 1;
    }
    assert(all.take(all.len() as int) =~= all);
    n
}

proof fn lemma_violations(audits: Seq<Audited>, n: int)
    requires
        0 <= n <= audits.len(),
    ensures
        violations_in(audits.take(n)) <= violations_in(audits),
    decreases audits.len() - n,
{
    if n < audits.len() {
        lemma_violations(audits, n + 1);
        assert(audits.take(n + 1).drop_last() =~= audits.take(n));
    } else {
        assert(audits.take(n) =~= audits);
    }
}

/// Turn per-panel results into the cross-width view.
///
/// A panel that could not be asked is not counted as a panel where nothing was
/// wrong, because that would make every rule look width-specific.
pub fn summarise(audits: Vec<PanelAudit>, axe: &str) -> (r: AccessReport)
    requires
        violations_in(audited(audits@)) <= usize::MAX,
    ensures
        rules_found(r.rules@) == ranked(audited(audits@)),
        audited(r.panels@) == audited(audits@),
        r.widths_audited@ == answered(audited(audits@)),
        r.violations_total == violations_in(audited(audits@)),
        r.width_specific_count == specific_in(ranked(audited(audits@))),
        r.axe_version@ == axe@,
{
    let ghost all = audited(audits@);
    let mut widths: Vec<i64> = Vec::new();
    let mut rules: Vec<RuleAcrossWidths> = Vec::new();
    let mut total: usize = 0;
    let mut i: usize = 0;
    assert(all.take(0) =~= Seq::empty());
    assert(rules_found(rules@) =~= Seq::empty());
    while i < audits.len()
        invariant
            i <= audits@.len(),
            all == audited(audits@),
            violations_in(all) <= usize::MAX,
            widths@ == answered(all.take(i as int)),
            rules_found(rules@) == gathered(all.take(i as int)),
            total == violations_in(all.take(i as int)),
        decreases audits@.len() - i,
    {
        proof {
            assert(all.take(i + 1).drop_last() =~= all.take(i as int));
            assert(all.take(i + 1).last() == audits@[i as int]@);
            lemma_violations(all, i + 1);
            assert(audits@[i as int]@.violations.len() == audits@[i as int].violations@.len());
        }
        if audits[i].error.is_none() {
            widths.push(audits[i].width);
            total = total + audits[i].violations.len();
            note_panel(&mut rules, &audits[i]);
        }
        i += 1;
    }
    assert(all.take(all.len() as int) =~= all);
    let done = finish_rules(rules, &widths);
    let ghost before = done@;
    let ghost lt = |a: RuleAcrossWidths, b: RuleAcrossWidths| rule_below(a@, b@);
    let in_rank = stable_sort(done, rule_less, Ghost(lt));
    proof {
        crate::order::lemma_sorted_view(
            before,
            lt,
            |r: RuleAcrossWidths| r@,
            |a: RuleFound, b: RuleFound| rule_below(a, b),
        );
    }
    let specific: usize = count_specific(&in_rank);
    AccessReport {
        rules: in_rank,
        panels: audits,
        widths_audited: widths,
        violations_total: total,
        width_specific_count: specific,
        axe_version: axe.to_owned(),
    }
}

/// The most characters of `s` that take no more than `most` bytes.
pub open spec fn within_bytes(s: Seq<char>, most: int) -> Seq<char>
    decreases s.len(),
{
    if s.len() == 0 || most < char_bytes(s[0]) {
        Seq::empty()
    } else {
        seq![s[0]] + within_bytes(s.skip(1), most - char_bytes(s[0]))
    }
}

/// How many bytes a character takes.
pub open spec fn char_bytes(c: char) -> int {
    if c as u32 <= 0x7f {
        1
    } else if c as u32 <= 0x7ff {
        2
    } else if c as u32 <= 0xffff {
        3
    } else {
        4
    }
}

/// The version a bundle of axe says it is: what stands in quotes behind its
/// first `version=`, near the top.
pub open spec fn version_in(bundle: Seq<char>) -> Seq<char> {
    let head = within_bytes(bundle, 4000);
    match first_match(head, "version=\""@, 0) {
        Some(at) => {
            let from = at + "version=\""@.len();
            match first_char(head, '"', from) {
                Some(end) => head.subrange(from, end),
                None => "unknown"@,
            }
        },
        None => "unknown"@,
    }
}

fn head_of(bundle: &[char]) -> (r: Vec<char>)
    ensures
        r@ == within_bytes(bundle@, 4000),
{
    let mut out: Vec<char> = Vec::new();
    let mut left: u32 = 4000;
    let mut i: usize = 0;
    let mut full = false;
    assert(bundle@.skip(0) =~= bundle@);
    assert(out@ + within_bytes(bundle@.skip(0), 4000) =~= within_bytes(bundle@, 4000));
    while i < bundle.len() && !full
        invariant
            i <= bundle@.len(),
            bundle@.len() == bundle.len(),
            left <= 4000,
            !full ==> out@ + within_bytes(bundle@.skip(i as int), left as int) == within_bytes(
                bundle@,
                4000,
            ),
            full ==> out@ == within_bytes(bundle@, 4000),
        decreases
                bundle@.len() - i + if full {
                    0int
                } else {
                    1
                },
    {
        let c = bundle[i];
        let bytes: u32 = if c as u32 <= 0x7f {
            1
        } else if c as u32 <= 0x7ff {
            2
        } else if c as u32 <= 0xffff {
            3
        } else {
            4
        };
        assert(bundle@.skip(i as int)[0] == c);
        if left < bytes {
            assert(within_bytes(bundle@.skip(i as int), left as int) =~= Seq::empty());
            assert(out@ + Seq::<char>::empty() =~= out@);
            full = true;
        } else {
            assert(bundle@.skip(i as int).skip(1) =~= bundle@.skip(i + 1));
            let ghost before = out@;
            out.push(c);
            left = left - bytes;
            assert(before + (seq![c] + within_bytes(bundle@.skip(i + 1), left as int)) =~= out@
                + within_bytes(bundle@.skip(i + 1), left as int));
            i += 1;
        }
    }
    if !full {
        assert(bundle@.skip(i as int) =~= Seq::empty());
        assert(out@ + Seq::<char>::empty() =~= out@);
    }
    out
}

/// Read the version out of a bundle, so a report says which axe found these
/// rather than whatever version happens to be documented.
pub fn axe_version(bundle: &str) -> (r: String)
    ensures
        r@ == version_in(bundle@),
{
    let chars = chars_of(bundle);
    let head = head_of(chars.as_slice());
    let needle = chars_of("version=\"");
    proof {
        reveal_strlit("version=\"");
        lemma_first_match(head@, "version=\""@, 0);
    }
    match find_from(head.as_slice(), needle.as_slice(), 0) {
        Some(at) => {
            let length: usize = head.len();
            assert(crate::text::matches_at(head@, needle@, at as int));
            assert(at + needle@.len() <= length);
            let from: usize = at + needle.len();
            proof {
                lemma_first_char(head@, '"', from as int);
            }
            match find_char(head.as_slice(), '"', from) {
                Some(end) => slice_string(head.as_slice(), from, end),
                None => "unknown".to_owned(),
            }
        },
        None => "unknown".to_owned(),
    }
}

pub const INJECT_START: &'static str = "if (!window.axe) { try { ";

pub const INJECT_END: &'static str =
    " } catch (e) { window.__bpAxeLoadError = String(e); } } return window.axe ? \"ready\" : (window.__bpAxeLoadError || \"axe did not load\");";

/// The script that puts axe into a page. Concatenated: the minified library is
/// full of braces.
pub fn inject_script(bundle: &str) -> (r: String)
    ensures
        r@ == INJECT_START@ + bundle@ + INJECT_END@,
{
    let mut out = INJECT_START.to_owned();
    out.append(bundle);
    out.append(INJECT_END);
    out
}

/// Starts a run that parks its result on a window property, because the value a
/// webview hands back is whatever the expression evaluated to, and a pending
/// promise serialises to an empty object. Only violations: axe returns passes
/// and incomplete results too, and on a real page those are thousands of lines
/// nobody reads.
pub const START_SCRIPT: &'static str = r#"
window.__bpAxeDone = null;
window.__bpAxeError = null;
window.axe.run(document, { resultTypes: ["violations"] })
  .then(function (results) { window.__bpAxeDone = results; })
  .catch(function (e) { window.__bpAxeError = String((e && e.message) || e); });
return "started";
"#;

/// Reads how a run stands.
pub const READ_SCRIPT: &'static str = r#"
if (window.__bpAxeError) return { state: "error", error: window.__bpAxeError };
if (!window.__bpAxeDone) return { state: "running" };
return {
  state: "done",
  violations: (window.__bpAxeDone.violations || []).map(function (v) {
    return {
      rule: v.id,
      impact: v.impact || "unknown",
      help: v.help || "",
      helpUrl: v.helpUrl || "",
      targets: (v.nodes || []).slice(0, 10).map(function (n) {
        return (n.target || []).join(" ");
      }),
    };
  }),
};
"#;

/// Whether axe is in a page, by what injecting it came to.
pub fn axe_loaded(answer: Option<&str>) -> (r: Result<(), String>)
    ensures
        match answer {
            Some(a) => if a@ == "ready"@ {
                r is Ok
            } else {
                r matches Err(e) && e@ == "axe-core did not load in this panel: "@ + a@
            },
            None => r matches Err(e) && e@
                == "axe-core did not load in this panel: "@ + "no reason given"@,
        },
{
    let reason = match answer {
        Some(a) => {
            if same(a, "ready") {
                return Ok(());
            }
            a
        },
        None => "no reason given",
    };
    let mut e = "axe-core did not load in this panel: ".to_owned();
    e.append(reason);
    Err(e)
}

/// What to do about a run.
#[derive(Debug)]
pub enum AxeStep {
    /// Its violations are there.
    Done,
    Failed(String),
    /// Ask again after [`POLL`].
    Wait,
}

/// What an answer about a run means, `spent_ms` after it began.
pub fn axe_step(state: Option<&str>, error: Option<&str>, spent_ms: u64) -> (r: AxeStep)
    ensures
        match state {
            Some(s) => if s@ == "done"@ {
                r is Done
            } else if s@ == "error"@ {
                r matches AxeStep::Failed(e) && e@ == match error {
                    Some(x) => x@,
                    None => "axe failed"@,
                }
            } else {
                waits(r, spent_ms)
            },
            None => waits(r, spent_ms),
        },
{
    if let Some(s) = state {
        if same(s, "done") {
            return AxeStep::Done;
        }
        if same(s, "error") {
            return AxeStep::Failed(
                match error {
                    Some(x) => x.to_owned(),
                    None => "axe failed".to_owned(),
                },
            );
        }
    }
    if spent_ms >= PANEL_BUDGET {
        let mut e = "axe did not finish within ".to_owned();
        e.append(decimal_string(PANEL_BUDGET / 1000).as_str());
        e.append(" seconds");
        AxeStep::Failed(e)
    } else {
        AxeStep::Wait
    }
}

/// A run that has not finished: there is time left, or it failed for want of
/// it.
pub open spec fn waits(r: AxeStep, spent_ms: u64) -> bool {
    if spent_ms >= PANEL_BUDGET {
        r matches AxeStep::Failed(e) && e@ == "axe did not finish within "@ + decimal(30)
            + " seconds"@
    } else {
        r is Wait
    }
}

/// Every rule is reported once.
pub open spec fn each_once(s: Seq<RuleFound>) -> bool {
    forall|i: int, j: int|
        0 <= i < j < s.len() ==> (#[trigger] s[i]).rule != (#[trigger] s[j]).rule
}

proof fn lemma_rule_from(s: Seq<RuleFound>, name: Seq<char>, i: int)
    requires
        0 <= i,
    ensures
        match rule_from(s, name, i) {
            Some(k) => i <= k < s.len() && s[k].rule == name,
            None => forall|k: int| i <= k < s.len() ==> (#[trigger] s[k]).rule != name,
        },
    decreases s.len() - i,
{
    if i < s.len() && s[i].rule != name {
        lemma_rule_from(s, name, i + 1);
    }
}

/// What a list of rules keeps as violations are noted: each rule once, at no
/// more than `most` widths, and at widths that are all different.
pub open spec fn well_noted(s: Seq<RuleFound>, widths: Seq<i64>) -> bool {
    &&& each_once(s)
    &&& forall|i: int| 0 <= i < s.len() ==> (#[trigger] s[i]).widths.no_duplicates()
    &&& forall|i: int, w: i64|
        0 <= i < s.len() && (#[trigger] s[i].widths.contains(w)) ==> widths.contains(w)
}

proof fn lemma_noted(s: Seq<RuleFound>, width: i64, v: Broken, widths: Seq<i64>)
    requires
        well_noted(s, widths),
        widths.contains(width),
    ensures
        well_noted(noted(s, width, v), widths),
{
    lemma_rule_from(s, v.rule, 0);
    let r = noted(s, width, v);
    let k = match rule_from(s, v.rule, 0) {
        Some(i) => i,
        None => s.len() as int,
    };
    let old_widths = if k < s.len() {
        s[k].widths
    } else {
        Seq::<i64>::empty()
    };
    assert(r[k].rule == v.rule);
    assert forall|i: int| 0 <= i < r.len() && i != k implies r[i] == s[i] by {
    }
    assert forall|i: int| 0 <= i < r.len() implies (#[trigger] r[i]).widths.no_duplicates() by {
        if i == k {
            assert(old_widths.no_duplicates());
            if !old_widths.contains(width) {
                assert(r[k].widths =~= old_widths.push(width));
            }
        }
    }
    assert forall|i: int, w: i64|
        0 <= i < r.len() && (#[trigger] r[i].widths.contains(w)) implies widths.contains(w) by {
        if i == k {
            if !old_widths.contains(w) {
                let x = r[k].widths.index_of(w);
                if x < old_widths.len() {
                    assert(old_widths[x] == w);
                    assert(false);
                }
                assert(w == width);
            } else if k < s.len() {
                assert(s[k].widths.contains(w));
            }
        } else {
            assert(s[i].widths.contains(w));
        }
    }
}

proof fn lemma_noted_all(s: Seq<RuleFound>, width: i64, vs: Seq<Broken>, widths: Seq<i64>)
    requires
        well_noted(s, widths),
        widths.contains(width),
    ensures
        well_noted(noted_all(s, width, vs), widths),
    decreases vs.len(),
{
    if vs.len() > 0 {
        lemma_noted_all(s, width, vs.drop_last(), widths);
        lemma_noted(noted_all(s, width, vs.drop_last()), width, vs.last(), widths);
    }
}

proof fn lemma_gathered(audits: Seq<Audited>)
    ensures
        well_noted(gathered(audits), answered(audits)),
    decreases audits.len(),
{
    if audits.len() > 0 {
        let d = audits.drop_last();
        lemma_gathered(d);
        let a = audits.last();
        if a.error is None {
            let before = answered(d);
            let after = before.push(a.width);
            assert(after[before.len() as int] == a.width);
            assert forall|i: int, w: i64|
                0 <= i < gathered(d).len() && (#[trigger] gathered(d)[i].widths.contains(
                    w,
                )) implies after.contains(w) by {
                assert(before.contains(w));
                assert(after[before.index_of(w)] == w);
            }
            lemma_noted_all(gathered(d), a.width, a.violations, after);
        }
    }
}

/// A rule is reported once, at widths that are all different and all answered.
pub proof fn a_rule_is_reported_once(audits: Seq<Audited>)
    ensures
        well_noted(gathered(audits), answered(audits)),
        ranked(audits).len() == gathered(audits).len(),
{
    lemma_gathered(audits);
    crate::order::lemma_sorted_len(
        finished_all(gathered(audits), answered(audits)),
        |a: RuleFound, b: RuleFound| rule_below(a, b),
    );
}

/// The worst come first, and within one impact those broken only at some
/// widths come before those broken everywhere.
pub proof fn the_worst_and_the_narrowest_come_first(audits: Seq<Audited>)
    ensures
        in_order(ranked(audits), |a: RuleFound, b: RuleFound| rule_below(a, b)),
{
    let lt = |a: RuleFound, b: RuleFound| rule_below(a, b);
    assert forall|a: RuleFound| !#[trigger] lt(a, a) by {
        crate::order::lemma_text_below(a.rule, a.rule, a.rule);
    }
    assert forall|a: RuleFound, b: RuleFound| #[trigger] lt(a, b) implies !lt(b, a) by {
        crate::order::lemma_text_below(a.rule, b.rule, a.rule);
    }
    assert forall|a: RuleFound, b: RuleFound, c: RuleFound|
        !(#[trigger] lt(a, b)) && !(#[trigger] lt(b, c)) implies !lt(a, c) by {
        crate::order::lemma_text_below(a.rule, b.rule, c.rule);
        crate::order::lemma_text_below(c.rule, b.rule, a.rule);
        crate::order::lemma_text_below(b.rule, c.rule, a.rule);
        crate::order::lemma_text_below(a.rule, c.rule, b.rule);
        crate::order::lemma_text_below(b.rule, a.rule, c.rule);
        crate::order::lemma_text_below(c.rule, a.rule, b.rule);
    }
    crate::order::sorting_is_ordered_and_complete(
        finished_all(gathered(audits), answered(audits)),
        lt,
    );
}

/// A rule broken at every width that answered is a page problem, and one that
/// some width was spared is marked as specific to its widths.
pub proof fn broken_everywhere_is_not_width_specific(audits: Seq<Audited>, i: int)
    requires
        0 <= i < gathered(audits).len(),
    ensures
        ({
            let r = gathered(audits)[i];
            let f = finished(r, answered(audits));
            &&& f.rule == r.rule
            &&& (forall|w: i64| #[trigger]
                answered(audits).contains(w) ==> r.widths.contains(w)) ==> !f.width_specific
            &&& forall|w: i64| #[trigger]
                answered(audits).contains(w) && !r.widths.contains(w) ==> f.width_specific
        }),
{
}

/// The impacts in their order: critical, serious, moderate, minor, and after
/// them anything else.
pub proof fn the_impacts_are_ranked(impact: Seq<char>)
    ensures
        impact_of("critical"@) < impact_of("serious"@),
        impact_of("serious"@) < impact_of("moderate"@),
        impact_of("moderate"@) < impact_of("minor"@),
        impact != "critical"@ && impact != "serious"@ && impact != "moderate"@ && impact
            != "minor"@ ==> impact_of("minor"@) < impact_of(impact),
{
    reveal_strlit("critical");
    reveal_strlit("serious");
    reveal_strlit("moderate");
    reveal_strlit("minor");
    assert("critical"@[0] == 'c' && "serious"@[0] == 's' && "moderate"@[1] == 'o' && "minor"@[1]
        == 'i' && "moderate"@[0] == 'm' && "minor"@[0] == 'm');
}

/// Whether a list holds a rule as broken at a width, with an impact no milder
/// than one seen.
pub open spec fn tells_of(s: Seq<RuleFound>, rule: Seq<char>, width: i64, impact: Seq<char>) -> bool {
    exists|i: int|
        0 <= i < s.len() && (#[trigger] s[i]).rule == rule && s[i].widths.contains(width)
            && impact_of(s[i].impact) <= impact_of(impact)
}

proof fn lemma_still_told(
    s: Seq<RuleFound>,
    width: i64,
    v: Broken,
    rule: Seq<char>,
    at: i64,
    impact: Seq<char>,
)
    requires
        tells_of(s, rule, at, impact) || (v.rule == rule && width == at && v.impact == impact),
    ensures
        tells_of(noted(s, width, v), rule, at, impact),
{
    lemma_rule_from(s, v.rule, 0);
    let r = noted(s, width, v);
    let k = match rule_from(s, v.rule, 0) {
        Some(i) => i,
        None => s.len() as int,
    };
    if v.rule == rule && width == at && v.impact == impact {
        if !(k < s.len() && s[k].widths.contains(width)) {
            assert(r[k].widths[r[k].widths.len() - 1] == width);
        }
        assert(r[k].rule == rule && r[k].widths.contains(at));
    } else {
        let i = choose|i: int|
            0 <= i < s.len() && (#[trigger] s[i]).rule == rule && s[i].widths.contains(at)
                && impact_of(s[i].impact) <= impact_of(impact);
        if i == k {
            let j = s[i].widths.index_of(at);
            assert(r[i].widths[j] == at);
        }
        assert(r[i].rule == rule && r[i].widths.contains(at));
    }
}

proof fn lemma_all_told(
    s: Seq<RuleFound>,
    width: i64,
    vs: Seq<Broken>,
    rule: Seq<char>,
    at: i64,
    impact: Seq<char>,
)
    requires
        tells_of(s, rule, at, impact) || (width == at && exists|j: int|
            0 <= j < vs.len() && (#[trigger] vs[j]).rule == rule && vs[j].impact == impact),
    ensures
        tells_of(noted_all(s, width, vs), rule, at, impact),
    decreases vs.len(),
{
    if vs.len() > 0 {
        let d = vs.drop_last();
        let is_last = width == at && vs.last().rule == rule && vs.last().impact == impact;
        if !is_last {
            if !tells_of(s, rule, at, impact) {
                let j = choose|j: int|
                    0 <= j < vs.len() && (#[trigger] vs[j]).rule == rule && vs[j].impact == impact;
                assert(d[j] == vs[j]);
            }
            lemma_all_told(s, width, d, rule, at, impact);
        }
        lemma_still_told(noted_all(s, width, d), width, vs.last(), rule, at, impact);
    }
}

proof fn lemma_gathered_told(audits: Seq<Audited>, k: int, j: int)
    requires
        0 <= k < audits.len(),
        audits[k].error is None,
        0 <= j < audits[k].violations.len(),
    ensures
        tells_of(
            gathered(audits),
            audits[k].violations[j].rule,
            audits[k].width,
            audits[k].violations[j].impact,
        ),
        answered(audits).contains(audits[k].width),
    decreases audits.len(),
{
    let d = audits.drop_last();
    let a = audits.last();
    let v = audits[k].violations[j];
    if k < d.len() {
        assert(d[k] == audits[k]);
        lemma_gathered_told(d, k, j);
        let i = answered(d).index_of(audits[k].width);
        assert(answered(audits)[i] == audits[k].width);
    } else {
        assert(answered(audits)[answered(d).len() as int] == a.width);
    }
    if a.error is None {
        lemma_all_told(gathered(d), a.width, a.violations, v.rule, audits[k].width, v.impact);
    }
}

/// Every rule that a panel found broken is in the report, under the width it was
/// found at and with an impact no milder than the one found; and it is marked as
/// specific to its widths exactly where a width that answered was spared.
pub proof fn every_broken_rule_is_reported(audits: Seq<Audited>, k: int, j: int)
    requires
        0 <= k < audits.len(),
        audits[k].error is None,
        0 <= j < audits[k].violations.len(),
    ensures
        exists|r: RuleFound| #[trigger]
            ranked(audits).contains(r) && r.rule == audits[k].violations[j].rule
                && r.widths.contains(audits[k].width) && impact_of(r.impact) <= impact_of(
                audits[k].violations[j].impact,
            ) && (r.width_specific <==> exists|w: i64| #[trigger]
                answered(audits).contains(w) && !r.widths.contains(w)),
{
    lemma_gathered_told(audits, k, j);
    let v = audits[k].violations[j];
    let s = gathered(audits);
    let i = choose|i: int|
        0 <= i < s.len() && (#[trigger] s[i]).rule == v.rule && s[i].widths.contains(
            audits[k].width,
        ) && impact_of(s[i].impact) <= impact_of(v.impact);
    let all = finished_all(s, answered(audits));
    let r = finished(s[i], answered(audits));
    assert(all[i] == r);
    let lt = |a: RuleFound, b: RuleFound| rule_below(a, b);
    lemma_rules_rank();
    crate::order::lemma_sorted_keeps(all, lt, r);
    let below = |a: i64, b: i64| a < b;
    assert(crate::order::ranks(below));
    assert forall|w: i64| #[trigger] r.widths.contains(w) == s[i].widths.contains(w) by {
        crate::order::lemma_sorted_keeps(s[i].widths, below, w);
    }
    assert(all.contains(r));
    assert(ranked(audits).contains(r));
    assert(s[i].widths.contains(audits[k].width) == r.widths.contains(audits[k].width));
    let there = answered(audits);
    if r.width_specific {
        let w = choose|w: i64| #[trigger] there.contains(w) && !s[i].widths.contains(w);
        assert(r.widths.contains(w) == s[i].widths.contains(w));
        assert(there.contains(w) && !r.widths.contains(w));
    }
    if exists|w: i64| #[trigger] there.contains(w) && !r.widths.contains(w) {
        let w = choose|w: i64| #[trigger] there.contains(w) && !r.widths.contains(w);
        assert(r.widths.contains(w) == s[i].widths.contains(w));
        assert(there.contains(w) && !s[i].widths.contains(w));
    }
}

proof fn lemma_rules_rank()
    ensures
        crate::order::ranks(|a: RuleFound, b: RuleFound| rule_below(a, b)),
{
    let lt = |a: RuleFound, b: RuleFound| rule_below(a, b);
    assert forall|a: RuleFound| !#[trigger] lt(a, a) by {
        crate::order::lemma_text_below(a.rule, a.rule, a.rule);
    }
    assert forall|a: RuleFound, b: RuleFound| #[trigger] lt(a, b) implies !lt(b, a) by {
        crate::order::lemma_text_below(a.rule, b.rule, a.rule);
    }
    assert forall|a: RuleFound, b: RuleFound, c: RuleFound|
        !(#[trigger] lt(a, b)) && !(#[trigger] lt(b, c)) implies !lt(a, c) by {
        crate::order::lemma_text_below(a.rule, b.rule, c.rule);
        crate::order::lemma_text_below(c.rule, b.rule, a.rule);
        crate::order::lemma_text_below(b.rule, c.rule, a.rule);
        crate::order::lemma_text_below(a.rule, c.rule, b.rule);
        crate::order::lemma_text_below(b.rule, a.rule, c.rule);
        crate::order::lemma_text_below(c.rule, a.rule, b.rule);
    }
}

/// What comes first of two rules: the worse one, and of two as bad the one that
/// spared some width, and of two such the one broken at fewer widths.
pub proof fn which_of_two_rules_comes_first(a: RuleFound, b: RuleFound)
    ensures
        impact_of(a.impact) < impact_of(b.impact) ==> rule_below(a, b) && !rule_below(b, a),
        impact_of(a.impact) == impact_of(b.impact) && a.width_specific && !b.width_specific
            ==> rule_below(a, b) && !rule_below(b, a),
        impact_of(a.impact) == impact_of(b.impact) && a.width_specific == b.width_specific
            && a.widths.len() < b.widths.len() ==> rule_below(a, b) && !rule_below(b, a),
{
}

/// A rule shows the elements it was found on, each once and never more than
/// three of them.
pub proof fn a_few_elements_are_shown(s: Seq<Seq<char>>, targets: Seq<Seq<char>>)
    requires
        s.len() <= 3,
    ensures
        exampled(s, targets).len() <= 3,
        forall|i: int| 0 <= i < s.len() ==> #[trigger] exampled(s, targets).contains(s[i]),
        forall|x: Seq<char>| #[trigger]
            exampled(s, targets).contains(x) ==> s.contains(x) || targets.contains(x),
        s.len() == 0 && targets.len() > 0 ==> exampled(s, targets).contains(targets[0]),
    decreases targets.len(),
{
    if targets.len() > 0 {
        let d = targets.drop_last();
        a_few_elements_are_shown(s, d);
        let before = exampled(s, d);
        let after = exampled(s, targets);
        assert forall|x: Seq<char>| before.contains(x) implies #[trigger] after.contains(x) by {
            assert(after[before.index_of(x)] == x);
        }
        assert forall|x: Seq<char>| #[trigger] after.contains(x) implies s.contains(x)
            || targets.contains(x) by {
            let i = after.index_of(x);
            if i < before.len() {
                assert(before[i] == x);
                assert(before.contains(x));
                if d.contains(x) {
                    assert(targets[d.index_of(x)] == x);
                }
            } else {
                assert(targets[targets.len() - 1] == x);
            }
        }
        if s.len() == 0 {
            if d.len() > 0 {
                assert(before.contains(d[0]));
                assert(d[0] == targets[0]);
            } else {
                assert(targets.last() == targets[0]);
                assert(before == s);
                assert(after[0] == targets[0]);
            }
        } else {
            assert forall|i: int| 0 <= i < s.len() implies #[trigger] after.contains(s[i]) by {
                assert(before.contains(s[i]));
            }
        }
    }
}

/// The widths that answered are those of the panels without an error, in their
/// order, and the violations counted are theirs.
pub proof fn the_panels_that_answered_are_counted(audits: Seq<Audited>)
    ensures
        answered(audits) == audits.filter(|a: Audited| a.error is None).map_values(
            |a: Audited| a.width,
        ),
        violations_in(audits) == audits.fold_left(
            0nat,
            |n: nat, a: Audited|
                if a.error is None {
                    n + a.violations.len()
                } else {
                    n
                },
        ),
    decreases audits.len(),
{
    reveal(Seq::filter);
    let there = |a: Audited| a.error is None;
    let width = |a: Audited| a.width;
    if audits.len() == 0 {
        assert(audits.filter(there).map_values(width) =~= Seq::empty());
    } else {
        let d = audits.drop_last();
        the_panels_that_answered_are_counted(d);
        let before = d.filter(there);
        assert(before.push(audits.last()).map_values(width) =~= before.map_values(width).push(
            audits.last().width,
        ));
    }
}

/// The rules specific to their widths are counted one by one.
pub proof fn the_specific_rules_are_counted(s: Seq<RuleFound>)
    ensures
        specific_in(s) == s.filter(|r: RuleFound| r.width_specific).len(),
    decreases s.len(),
{
    reveal(Seq::filter);
    if s.len() > 0 {
        the_specific_rules_are_counted(s.drop_last());
    }
}

/// A panel is asked again for thirty seconds and then given up on.
pub proof fn a_panel_is_given_thirty_seconds(r: AxeStep, spent_ms: u64)
    requires
        waits(r, spent_ms),
    ensures
        spent_ms < 30_000 <==> r is Wait,
        spent_ms >= 30_000 <==> r is Failed,
{
}

} // verus!
