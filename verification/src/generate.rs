//! Turning breakpoints into panels.
//!
//! A breakpoint is a width. A panel needs a height and a name as well, and both
//! get derived here and stay editable afterwards. Panels render at exactly the
//! breakpoint width, because that is the first pixel of the range and it is
//! where layouts actually break.

use vstd::prelude::*;
use vstd::string::StringExecFns;
use crate::model::{
    fallback_viewports, fresh_viewport, standard_devices, viewports, whole_string, whole_text,
    HeightStrategy, Panelled, Viewport,
};
use crate::order::{dedup, deduped, ranks, sorted, stable_sort};
use crate::scanner::css::MAX_REPORTED;
use crate::scanner::drupal::is_drupal_source;
use crate::scanner::tailwind::{by_width, narrower_found, sort_by_width};
use crate::scanner::types::{founds, BreakpointDiscovery, Edge, Found, Kind, PX};
use crate::text::{
    begins, chars_of, decimal, number_string, opt_view, plural, plural_of, same, slice_string,
};

verus! {

/// How tall a panel is, in thousandths of its width: aspect ratios taken from a
/// real device in each size class, so a 768 panel looks like a tablet and a
/// 1440 panel looks like a laptop.
pub open spec fn ratio_of(width: int) -> int {
    if width <= 480_000_000 {
        2160
    } else if width <= 900_000_000 {
        1330
    } else if width <= 1_279_000_000 {
        750
    } else {
        625
    }
}

/// The device whose ratio a width takes.
pub open spec fn device_of(width: int) -> Seq<char> {
    if width <= 480_000_000 {
        "iPhone 15 Pro, 393 x 852"@
    } else if width <= 900_000_000 {
        "iPad portrait, 768 x 1024"@
    } else if width <= 1_279_000_000 {
        "iPad landscape, 1024 x 768"@
    } else {
        "MacBook Air, 1440 x 900"@
    }
}

/// Real-world names, because "Tablet" reads faster than "md" when you are
/// scanning a row of five.
pub open spec fn band_of(width: int) -> Seq<char> {
    if width <= 480_000_000 {
        "Mobile"@
    } else if width <= 767_000_000 {
        "Large Mobile"@
    } else if width <= 1_023_000_000 {
        "Tablet"@
    } else if width <= 1_279_000_000 {
        "Laptop"@
    } else if width <= 1_535_000_000 {
        "Desktop"@
    } else {
        "Wide"@
    }
}

/// The multiple of ten pixels nearest to `v` thousandths of a millionth of a
/// pixel, a tie going up.
pub open spec fn nearest_ten(v: int) -> int {
    (v + 5_000_000_000) / 10_000_000_000 * 10_000_000
}

/// The height a panel of a width gets: its device's ratio to the nearest ten
/// pixels and no less than 640, or the fixed height and no less than 320.
pub open spec fn height_of(width: int, strategy: HeightStrategy, fixed: int) -> int {
    match strategy {
        HeightStrategy::DeviceRatio => {
            let h = nearest_ten(width * ratio_of(width));
            if h < 640_000_000 {
                640_000_000
            } else {
                h
            }
        },
        _ => if fixed < 320_000_000 {
            320_000_000
        } else {
            fixed
        },
    }
}

proof fn lemma_height_fits(width: int)
    requires
        i64::MIN <= width <= i64::MAX,
    ensures
        -20_000_000_000_000_000_000_000 < width * ratio_of(width) < 20_000_000_000_000_000_000_000,
        nearest_ten(width * ratio_of(width)) <= i64::MAX,
{
    let r = ratio_of(width);
    assert(-20_000_000_000_000_000_000_000 < width * r < 20_000_000_000_000_000_000_000)
        by (nonlinear_arith)
        requires
            -9223372036854775808 <= width <= 9223372036854775807,
            0 < r <= 2160,
    ;
    if width > 1_279_000_000 {
        assert(width * r <= 9223372036854775807 * 625) by (nonlinear_arith)
            requires
                width <= 9223372036854775807,
                r == 625,
        ;
    } else {
        assert(width * r <= 1_279_000_000 * 2160) by (nonlinear_arith)
            requires
                width <= 1_279_000_000,
                0 < r <= 2160,
        ;
    }
}

pub fn height_for(width: i64, strategy: HeightStrategy, fixed: i64) -> (r: i64)
    ensures
        r == height_of(width as int, strategy, fixed as int),
{
    match strategy {
        HeightStrategy::DeviceRatio => {
            let ratio: i128 = if width <= 480_000_000 {
                2160
            } else if width <= 900_000_000 {
                1330
            } else if width <= 1_279_000_000 {
                750
            } else {
                625
            };
            proof {
                lemma_height_fits(width as int);
            }
            let v: i128 = width as i128 * ratio;
            if v < 640_000_000_000 {
                assert(nearest_ten(v as int) <= 640_000_000);
                640_000_000
            } else {
                ((v + 5_000_000_000) / 10_000_000_000 * 10_000_000) as i64
            }
        },
        _ => if fixed < 320_000_000 {
            320_000_000
        } else {
            fixed
        },
    }
}

/// No panel comes out comically short, and the width decides nothing when the
/// height is fixed.
pub proof fn no_panel_is_too_short(width: int, other: int, strategy: HeightStrategy, fixed: int)
    ensures
        height_of(width, strategy, fixed) >= 320_000_000,
        strategy == HeightStrategy::DeviceRatio ==> height_of(width, strategy, fixed)
            >= 640_000_000,
        strategy != HeightStrategy::DeviceRatio ==> height_of(width, strategy, fixed)
            == height_of(other, strategy, fixed),
{
}

pub fn reference_device(width: i64) -> (r: &'static str)
    ensures
        r@ == device_of(width as int),
{
    if width <= 480_000_000 {
        "iPhone 15 Pro, 393 x 852"
    } else if width <= 900_000_000 {
        "iPad portrait, 768 x 1024"
    } else if width <= 1_279_000_000 {
        "iPad landscape, 1024 x 768"
    } else {
        "MacBook Air, 1440 x 900"
    }
}

pub fn band_name(width: i64) -> (r: &'static str)
    ensures
        r@ == band_of(width as int),
{
    if width <= 480_000_000 {
        "Mobile"
    } else if width <= 767_000_000 {
        "Large Mobile"
    } else if width <= 1_023_000_000 {
        "Tablet"
    } else if width <= 1_279_000_000 {
        "Laptop"
    } else if width <= 1_535_000_000 {
        "Desktop"
    } else {
        "Wide"
    }
}

/// One option in the scan sheet: a viewport plus why it is being offered.
#[derive(Debug)]
pub struct Candidate {
    pub viewport: Viewport,
    pub checked: bool,
    pub file_count: usize,
    /// The right-hand column: a framework key, or how many files use it.
    pub detail: String,
    pub source_file: String,
    pub line: Option<usize>,
    /// In hundredths.
    pub confidence: u32,
}

/// A [`Candidate`], with its texts as characters.
#[verifier::ext_equal]
pub struct Offer {
    pub viewport: Panelled,
    pub checked: bool,
    pub file_count: usize,
    pub detail: Seq<char>,
    pub source_file: Seq<char>,
    pub line: Option<usize>,
    pub confidence: u32,
}

impl View for Candidate {
    type V = Offer;

    open spec fn view(&self) -> Offer {
        Offer {
            viewport: self.viewport@,
            checked: self.checked,
            file_count: self.file_count,
            detail: self.detail@,
            source_file: self.source_file@,
            line: self.line,
            confidence: self.confidence,
        }
    }
}

pub open spec fn offers(v: Seq<Candidate>) -> Seq<Offer> {
    v.map_values(|c: Candidate| c@)
}

#[derive(Debug)]
pub struct Recommendation {
    /// Checked by default. Framework-configured breakpoints, always.
    pub recommended: Vec<Candidate>,
    /// Unchecked and available, ranked by how many files use them.
    pub also_found: Vec<Candidate>,
    /// True when nothing was found and these are the generic device sizes.
    pub fallback: bool,
    pub dev_url: Option<String>,
}

/// A [`Recommendation`], with its texts as characters.
#[verifier::ext_equal]
pub struct Advice {
    pub recommended: Seq<Offer>,
    pub also_found: Seq<Offer>,
    pub fallback: bool,
    pub dev_url: Option<Seq<char>>,
}

impl View for Recommendation {
    type V = Advice;

    open spec fn view(&self) -> Advice {
        Advice {
            recommended: offers(self.recommended@),
            also_found: offers(self.also_found@),
            fallback: self.fallback,
            dev_url: opt_view(self.dev_url),
        }
    }
}

/// What a character is in upper case, which can be several characters.
pub uninterp spec fn uppercase_of(c: char) -> Seq<char>;

/// [`char::to_uppercase`], all of its characters: a function of the character,
/// and for a small letter of ASCII its capital.
#[verifier::external_body]
fn upper(c: char) -> (r: String)
    ensures
        r@ == uppercase_of(c),
        'a' <= c <= 'z' ==> r@ == seq![(c as u32 - 32) as char],
{
    c.to_uppercase().to_string()
}

/// A label with its first character in upper case.
pub open spec fn titled(s: Seq<char>) -> Seq<char> {
    if s.len() == 0 {
        s
    } else {
        uppercase_of(s[0]) + s.skip(1)
    }
}

pub fn title_case(input: &str) -> (r: String)
    ensures
        r@ == titled(input@),
{
    let chars = chars_of(input);
    if chars.len() == 0 {
        input.to_owned()
    } else {
        let mut out = upper(chars[0]);
        let rest = slice_string(chars.as_slice(), 1, chars.len());
        assert(rest@ =~= input@.skip(1));
        out.append(rest.as_str());
        out
    }
}

/// Drupal writes real labels in its breakpoints files, and those are better
/// than anything a band lookup produces, so they are used as-is.
pub open spec fn base_name(f: Found) -> Seq<char> {
    match f.name {
        Some(label) => if begins(f.source, "Drupal breakpoint"@) {
            titled(label)
        } else {
            band_of(f.width as int)
        },
        None => band_of(f.width as int),
    }
}

pub fn name_for(discovery: &BreakpointDiscovery) -> (r: String)
    ensures
        r@ == base_name(discovery@),
{
    if is_drupal_source(discovery.source.as_str()) {
        if let Some(label) = &discovery.name {
            return title_case(label.as_str());
        }
    }
    band_name(discovery.width).to_owned()
}

/// Whether another of the breakpoints has the same name.
pub open spec fn collides(found: Seq<Found>, i: int) -> bool {
    exists|j: int|
        0 <= j < found.len() && j != i && base_name(#[trigger] found[j]) == base_name(found[i])
}

/// Two breakpoints in the same band become "Tablet (md)" and "Tablet (lg)",
/// never "Tablet" and "Tablet 2".
pub open spec fn panel_name(found: Seq<Found>, i: int) -> Seq<char> {
    let f = found[i];
    let base = base_name(f);
    if collides(found, i) {
        match f.name {
            Some(key) => if key != base {
                base + " ("@ + key + ")"@
            } else {
                base + " ("@ + whole_text(f.width as int) + ")"@
            },
            None => base + " ("@ + whole_text(f.width as int) + ")"@,
        }
    } else {
        base
    }
}

pub open spec fn key_of(f: Found) -> Seq<char> {
    match f.name {
        Some(n) => n,
        None => if f.kind == Kind::Css {
            "css"@
        } else {
            "custom"@
        },
    }
}

pub open spec fn detail_of(f: Found) -> Seq<char> {
    if f.kind == Kind::Css {
        "used in "@ + decimal(f.file_count as nat) + " file"@ + plural_of(f.file_count as nat)
    } else {
        key_of(f)
    }
}

/// How panels are to be made.
#[derive(Debug, Clone, Copy, PartialEq, Eq, Structural)]
pub struct Making {
    pub strategy: HeightStrategy,
    pub fixed: i64,
    pub edge_testing: bool,
    pub checked: bool,
}

pub open spec fn offer_at(
    f: Found,
    name: Seq<char>,
    width: i64,
    detail: Seq<char>,
    how: Making,
) -> Offer {
    Offer {
        viewport: fresh_viewport(
            name,
            width,
            height_of(width as int, how.strategy, how.fixed as int) as i64,
            key_of(f),
        ),
        checked: how.checked,
        file_count: f.file_count,
        detail,
        source_file: f.source_file,
        line: f.line,
        confidence: f.confidence,
    }
}

/// Edge testing shows both sides of the transition: the last pixel of the old
/// layout and the first pixel of the new one.
///
/// A max-width discovery gets its lower side whether edge testing is on or
/// not. `@media (max-width: 767px)` applies at 767 and stops at 768, and 768
/// is the width recorded, so a desktop-first project whose queries are all
/// max-width had not one panel at a width where its own rules actually apply.
/// The pixel below is not an extra there: it is the point.
pub open spec fn shows_below(f: Found, how: Making) -> bool {
    (how.edge_testing || f.edge == Edge::Max) && f.width > 1_000_000
}

/// The panels that one breakpoint comes to.
pub open spec fn panels_for(found: Seq<Found>, i: int, how: Making) -> Seq<Offer> {
    let f = found[i];
    let name = panel_name(found, i);
    let detail = detail_of(f);
    let first = offer_at(f, name, f.width, detail, how);
    if shows_below(f, how) {
        let below = (f.width - 1_000_000) as i64;
        seq![
            first,
            if f.edge == Edge::Max {
                offer_at(
                    f,
                    name + " under"@,
                    below,
                    detail + ", where the max-width rule applies"@,
                    how,
                )
            } else {
                offer_at(f, name + " edge"@, below, detail + ", edge"@, how)
            },
        ]
    } else {
        seq![first]
    }
}

pub open spec fn panels_up_to(found: Seq<Found>, n: int, how: Making) -> Seq<Offer>
    decreases n,
{
    if n <= 0 {
        Seq::empty()
    } else {
        panels_up_to(found, n - 1, how) + panels_for(found, n - 1, how)
    }
}

pub open spec fn narrower(a: Offer, b: Offer) -> bool {
    a.viewport.width < b.viewport.width
}

pub open spec fn by_panel_width(s: Seq<Offer>) -> Seq<Offer> {
    sorted(s, |a: Offer, b: Offer| narrower(a, b))
}

/// The panels of a list of breakpoints, narrowest first.
pub open spec fn built(found: Seq<Found>, how: Making) -> Seq<Offer> {
    by_panel_width(panels_up_to(found, found.len() as int, how))
}

fn candidate_less(a: &Candidate, b: &Candidate) -> (r: bool)
    ensures
        r == narrower(a@, b@),
{
    a.viewport.width < b.viewport.width
}

fn sort_candidates(v: Vec<Candidate>) -> (r: Vec<Candidate>)
    ensures
        offers(r@) == by_panel_width(offers(v@)),
{
    let ghost lt = |a: Candidate, b: Candidate| narrower(a@, b@);
    let ghost before = v@;
    let r = stable_sort(v, candidate_less, Ghost(lt));
    proof {
        crate::order::lemma_sorted_view(
            before,
            lt,
            |c: Candidate| c@,
            |a: Offer, b: Offer| narrower(a, b),
        );
    }
    r
}

fn make_offer(
    f: &BreakpointDiscovery,
    name: &str,
    width: i64,
    source: &str,
    detail: String,
    how: Making,
) -> (r: Candidate)
    requires
        source@ == key_of(f@),
    ensures
        r@ == offer_at(f@, name@, width, detail@, how),
{
    Candidate {
        viewport: Viewport::new(name, width, height_for(width, how.strategy, how.fixed), source),
        checked: how.checked,
        file_count: f.file_count,
        detail,
        source_file: f.source_file.as_str().to_owned(),
        line: f.line,
        confidence: f.confidence,
    }
}

fn name_collides(found: &Vec<BreakpointDiscovery>, index: usize, base: &str) -> (r: bool)
    requires
        index < found@.len(),
        base@ == base_name(found@[index as int]@),
    ensures
        r == collides(founds(found@), index as int),
{
    let ghost all = founds(found@);
    let mut other: usize = 0;
    while other < found.len()
        invariant
            other <= found@.len(),
            index < found@.len(),
            all == founds(found@),
            base@ == base_name(all[index as int]),
            forall|j: int|
                0 <= j < other && j != index ==> base_name(#[trigger] all[j]) != base@,
        decreases found@.len() - other,
    {
        if other != index {
            let name = name_for(&found[other]);
            assert(all[other as int] == found@[other as int]@);
            if same(name.as_str(), base) {
                return true;
            }
        }
        other += 1;
    }
    false
}

fn name_panel(found: &Vec<BreakpointDiscovery>, index: usize) -> (r: String)
    requires
        index < found@.len(),
    ensures
        r@ == panel_name(founds(found@), index as int),
{
    let base = name_for(&found[index]);
    if name_collides(found, index, base.as_str()) {
        let mut out = base.as_str().to_owned();
        out.append(" (");
        match &found[index].name {
            Some(key) => {
                if !same(key.as_str(), base.as_str()) {
                    out.append(key.as_str());
                } else {
                    out.append(whole_string(found[index].width).as_str());
                }
            },
            None => {
                out.append(whole_string(found[index].width).as_str());
            },
        }
        out.append(")");
        out
    } else {
        base
    }
}

fn key_for(f: &BreakpointDiscovery) -> (r: String)
    ensures
        r@ == key_of(f@),
{
    match &f.name {
        Some(n) => n.as_str().to_owned(),
        None => if f.kind == Kind::Css {
            "css".to_owned()
        } else {
            "custom".to_owned()
        },
    }
}

fn detail_for(f: &BreakpointDiscovery) -> (r: String)
    ensures
        r@ == detail_of(f@),
{
    if f.kind == Kind::Css {
        let mut out = "used in ".to_owned();
        out.append(number_string(f.file_count).as_str());
        out.append(" file");
        out.append(plural(f.file_count));
        out
    } else {
        key_for(f)
    }
}

fn push_panels(
    out: &mut Vec<Candidate>,
    found: &Vec<BreakpointDiscovery>,
    index: usize,
    how: Making,
)
    requires
        index < found@.len(),
    ensures
        offers(final(out)@) == offers(old(out)@) + panels_for(founds(found@), index as int, how),
{
    let ghost before = offers(out@);
    let f = &found[index];
    assert(founds(found@)[index as int] == f@);
    let name = name_panel(found, index);
    let source = key_for(f);
    let first = make_offer(
        f,
        name.as_str(),
        f.width,
        source.as_str(),
        detail_for(f),
        how,
    );
    out.push(first);
    assert(offers(out@) =~= before.push(first@));
    let always_show_below = f.edge == Edge::Max;
    if (how.edge_testing || always_show_below) && f.width > PX {
        let below: i64 = f.width - PX;
        let mut below_name = name.as_str().to_owned();
        let mut below_detail = detail_for(f);
        if always_show_below {
            // Not an edge case here, it is where the rule applies.
            below_name.append(" under");
            below_detail.append(", where the max-width rule applies");
        } else {
            below_name.append(" edge");
            below_detail.append(", edge");
        }
        let second = make_offer(
            f,
            below_name.as_str(),
            below,
            source.as_str(),
            below_detail,
            how,
        );
        out.push(second);
        assert(offers(out@) =~= before.push(first@).push(second@));
    }
    assert(offers(out@) =~= before + panels_for(founds(found@), index as int, how));
}

fn panels_of(found: &Vec<BreakpointDiscovery>, how: Making) -> (r: Vec<Candidate>)
    ensures
        offers(r@) == panels_up_to(founds(found@), found@.len() as int, how),
{
    let ghost all = founds(found@);
    let mut out: Vec<Candidate> = Vec::new();
    let mut i: usize = 0;
    assert(offers(out@) =~= panels_up_to(all, 0, how));
    while i < found.len()
        invariant
            i <= found@.len(),
            all == founds(found@),
            offers(out@) == panels_up_to(all, i as int, how),
        decreases found@.len() - i,
    {
        push_panels(&mut out, found, i, how);
        i += 1;
    }
    out
}

/// The panels of a list of breakpoints, narrowest first.
pub fn build(found: &Vec<BreakpointDiscovery>, how: Making) -> (r: Vec<Candidate>)
    ensures
        offers(r@) == built(founds(found@), how),
{
    assert(founds(found@).len() == found@.len());
    sort_candidates(panels_of(found, how))
}

/// A breakpoint that somebody wrote down as one.
pub open spec fn is_firm(f: Found) -> bool {
    f.kind == Kind::Configured || f.kind == Kind::Framework
}

/// The breakpoints that are firm, or those that are not, in the order found.
pub open spec fn firm_ones(s: Seq<Found>, firm: bool) -> Seq<Found>
    decreases s.len(),
{
    if s.len() == 0 {
        s
    } else {
        let d = firm_ones(s.drop_last(), firm);
        if is_firm(s.last()) == firm {
            d.push(s.last())
        } else {
            d
        }
    }
}

fn pick(breakpoints: &Vec<BreakpointDiscovery>, firm: bool) -> (r: Vec<BreakpointDiscovery>)
    ensures
        founds(r@) == firm_ones(founds(breakpoints@), firm),
{
    let ghost all = founds(breakpoints@);
    let mut out: Vec<BreakpointDiscovery> = Vec::new();
    let mut i: usize = 0;
    assert(all.take(0) =~= Seq::<Found>::empty());
    assert(founds(out@) =~= Seq::<Found>::empty());
    while i < breakpoints.len()
        invariant
            i <= breakpoints@.len(),
            all == founds(breakpoints@),
            founds(out@) == firm_ones(all.take(i as int), firm),
        decreases breakpoints@.len() - i,
    {
        proof {
            assert(all.take(i + 1).drop_last() =~= all.take(i as int));
            assert(all.take(i + 1).last() == breakpoints@[i as int]@);
        }
        let b = &breakpoints[i];
        let is = b.kind == Kind::Configured || b.kind == Kind::Framework;
        if is == firm {
            let ghost before = founds(out@);
            let x = b.clone();
            out.push(x);
            assert(founds(out@) =~= before.push(x@));
        }
        i += 1;
    }
    assert(all.take(all.len() as int) =~= all);
    out
}

/// Widely used first, because that is the ranking that makes the list scannable
/// in five seconds.
pub open spec fn more_used(a: Found, b: Found) -> bool {
    if a.file_count != b.file_count {
        a.file_count > b.file_count
    } else {
        a.width < b.width
    }
}

fn used_more(a: &BreakpointDiscovery, b: &BreakpointDiscovery) -> (r: bool)
    ensures
        r == more_used(a@, b@),
{
    if a.file_count != b.file_count {
        a.file_count > b.file_count
    } else {
        a.width < b.width
    }
}

pub open spec fn by_use(s: Seq<Found>) -> Seq<Found> {
    sorted(s, |a: Found, b: Found| more_used(a, b))
}

/// The soft breakpoints worth showing: the most used of them.
pub open spec fn extras(s: Seq<Found>) -> Seq<Found> {
    let all = by_use(firm_ones(s, false));
    if all.len() > MAX_REPORTED {
        all.take(MAX_REPORTED as int)
    } else {
        all
    }
}

/// How many soft breakpoints are checked. With no framework at all, the CSS
/// widths are the only real answer, so the most-used few get checked rather
/// than merely offered.
pub open spec fn checked_extras(s: Seq<Found>) -> int {
    let n = extras(s).len() as int;
    if firm_ones(s, true).len() > 0 {
        0
    } else if n < 3 {
        n
    } else {
        3
    }
}

pub open spec fn device_offer(v: Panelled) -> Offer {
    Offer {
        viewport: v,
        checked: true,
        file_count: 0,
        detail: "standard size"@,
        source_file: ""@,
        line: None,
        confidence: 20,
    }
}

/// What a scan recommends: what to check, and what merely to offer.
pub open spec fn advice(
    s: Seq<Found>,
    strategy: HeightStrategy,
    fixed: i64,
    edge_testing: bool,
) -> Advice {
    if s.len() == 0 {
        Advice {
            recommended: standard_devices().map_values(|v: Panelled| device_offer(v)),
            also_found: Seq::empty(),
            fallback: true,
            dev_url: None,
        }
    } else {
        let how = Making { strategy, fixed, edge_testing, checked: true };
        let quiet = Making { strategy, fixed, edge_testing: false, checked: false };
        let firm = built(by_width(firm_ones(s, true)), how);
        let extra = extras(s);
        let n = checked_extras(s);
        Advice {
            recommended: if n > 0 {
                by_panel_width(firm + built(extra.take(n), how))
            } else {
                firm
            },
            also_found: panels_up_to(extra.skip(n), extra.len() - n, quiet),
            fallback: false,
            dev_url: None,
        }
    }
}

fn standard_offers() -> (r: Vec<Candidate>)
    ensures
        offers(r@) == standard_devices().map_values(|v: Panelled| device_offer(v)),
{
    let all = fallback_viewports();
    let ghost want = standard_devices().map_values(|v: Panelled| device_offer(v));
    let mut out: Vec<Candidate> = Vec::new();
    let mut i: usize = 0;
    assert(offers(out@) =~= want.take(0));
    while i < all.len()
        invariant
            i <= all@.len(),
            viewports(all@) == standard_devices(),
            want == standard_devices().map_values(|v: Panelled| device_offer(v)),
            offers(out@) == want.take(i as int),
        decreases all@.len() - i,
    {
        let ghost before = offers(out@);
        assert(viewports(all@)[i as int] == all@[i as int]@);
        let c = Candidate {
            viewport: all[i].clone(),
            checked: true,
            file_count: 0,
            detail: "standard size".to_owned(),
            source_file: "".to_owned(),
            line: None,
            confidence: 20,
        };
        out.push(c);
        assert(offers(out@) =~= before.push(c@));
        assert(c@ == want[i as int]);
        assert(want.take(i + 1) =~= want.take(i as int).push(want[i as int]));
        i += 1;
    }
    assert(viewports(all@).len() == all@.len());
    assert(want.take(want.len() as int) =~= want);
    out
}

fn cut(v: &Vec<BreakpointDiscovery>, from: usize, to: usize) -> (r: Vec<BreakpointDiscovery>)
    requires
        from <= to <= v@.len(),
    ensures
        founds(r@) == founds(v@).subrange(from as int, to as int),
{
    let ghost want = founds(v@).subrange(from as int, to as int);
    let mut out: Vec<BreakpointDiscovery> = Vec::new();
    let mut i: usize = from;
    assert(founds(out@) =~= want.take(0));
    while i < to
        invariant
            from <= i <= to <= v@.len(),
            want == founds(v@).subrange(from as int, to as int),
            founds(out@) == want.take(i - from),
        decreases to - i,
    {
        let ghost before = founds(out@);
        let x = v[i].clone();
        out.push(x);
        assert(founds(out@) =~= before.push(x@));
        assert(want.take(i - from + 1) =~= want.take(i - from).push(want[i - from]));
        i += 1;
    }
    assert(want.take(want.len() as int) =~= want);
    out
}

fn rank_extras(breakpoints: &Vec<BreakpointDiscovery>) -> (r: Vec<BreakpointDiscovery>)
    ensures
        founds(r@) == extras(founds(breakpoints@)),
{
    let ghost lt = |a: BreakpointDiscovery, b: BreakpointDiscovery| more_used(a@, b@);
    let soft = pick(breakpoints, false);
    let ghost before = soft@;
    let all = stable_sort(soft, used_more, Ghost(lt));
    proof {
        crate::order::lemma_sorted_view(
            before,
            lt,
            |f: BreakpointDiscovery| f@,
            |a: Found, b: Found| more_used(a, b),
        );
    }
    assert(founds(all@).len() == all@.len());
    if all.len() > MAX_REPORTED {
        let r = cut(&all, 0, MAX_REPORTED);
        assert(founds(r@) =~= founds(all@).take(MAX_REPORTED as int));
        r
    } else {
        all
    }
}

/// Split what the scan found into what to check and what to merely offer.
pub fn recommend(
    breakpoints: &Vec<BreakpointDiscovery>,
    strategy: HeightStrategy,
    fixed: i64,
    edge_testing: bool,
) -> (r: Recommendation)
    ensures
        r@ == advice(founds(breakpoints@), strategy, fixed, edge_testing),
{
    let ghost s = founds(breakpoints@);
    assert(s.len() == breakpoints@.len());
    if breakpoints.len() == 0 {
        let r = Recommendation {
            recommended: standard_offers(),
            also_found: Vec::new(),
            fallback: true,
            dev_url: None,
        };
        assert(r@.also_found =~= Seq::<Offer>::empty());
        return r;
    }
    let how = Making { strategy, fixed, edge_testing, checked: true };
    let quiet = Making { strategy, fixed, edge_testing: false, checked: false };
    let firm = pick(breakpoints, true);
    assert(founds(firm@).len() == firm@.len());
    let has_framework = firm.len() > 0;
    let configured = sort_by_width(firm);
    let extra = rank_extras(breakpoints);
    assert(founds(extra@).len() == extra@.len());
    let auto_check: usize = if has_framework {
        0
    } else if extra.len() < 3 {
        extra.len()
    } else {
        3
    };
    assert(auto_check == checked_extras(s));
    let mut recommended = build(&configured, how);
    if auto_check > 0 {
        let auto = cut(&extra, 0, auto_check);
        assert(founds(auto@) =~= extras(s).take(auto_check as int));
        let ghost first = offers(recommended@);
        let mut more = build(&auto, how);
        let ghost second = offers(more@);
        recommended.append(&mut more);
        assert(offers(recommended@) =~= first + second);
        recommended = sort_candidates(recommended);
    }
    let offered = cut(&extra, auto_check, extra.len());
    assert(founds(offered@) =~= extras(s).skip(auto_check as int));
    Recommendation { recommended, also_found: panels_of(&offered, quiet), fallback: false, dev_url: None }
}

/// Of two edges at one width, the min-width one comes first.
pub open spec fn edge_below(a: Found, b: Found) -> bool {
    if a.width != b.width {
        a.width < b.width
    } else {
        a.edge == Edge::Min && b.edge != Edge::Min
    }
}

pub open spec fn same_width(a: Found, b: Found) -> bool {
    a.width == b.width
}

pub open spec fn collapsed(s: Seq<Found>) -> Seq<Found> {
    deduped(
        sorted(s, |a: Found, b: Found| edge_below(a, b)),
        |a: Found, b: Found| same_width(a, b),
    )
}

fn edge_less(a: &BreakpointDiscovery, b: &BreakpointDiscovery) -> (r: bool)
    ensures
        r == edge_below(a@, b@),
{
    if a.width != b.width {
        a.width < b.width
    } else {
        a.edge == Edge::Min && b.edge != Edge::Min
    }
}

fn width_alike(a: &BreakpointDiscovery, b: &BreakpointDiscovery) -> (r: bool)
    ensures
        r == same_width(a@, b@),
{
    a.width == b.width
}

/// Both edges of a `min` / `max` pair describe one boundary, so they collapse
/// into one panel rather than two.
pub fn collapse_edges(breakpoints: &mut Vec<BreakpointDiscovery>)
    ensures
        founds(final(breakpoints)@) == collapsed(founds(old(breakpoints)@)),
{
    let ghost lt = |a: BreakpointDiscovery, b: BreakpointDiscovery| edge_below(a@, b@);
    let ghost eq = |a: BreakpointDiscovery, b: BreakpointDiscovery| same_width(a@, b@);
    let mut held: Vec<BreakpointDiscovery> = Vec::new();
    held.append(breakpoints);
    let ghost raw = held@;
    assert(raw =~= old(breakpoints)@);
    let ordered = stable_sort(held, edge_less, Ghost(lt));
    let ghost ord = ordered@;
    let mut kept = dedup(ordered, width_alike, Ghost(eq));
    proof {
        crate::order::lemma_sorted_view(
            raw,
            lt,
            |f: BreakpointDiscovery| f@,
            |a: Found, b: Found| edge_below(a, b),
        );
        crate::order::lemma_deduped_view(
            ord,
            eq,
            |f: BreakpointDiscovery| f@,
            |a: Found, b: Found| same_width(a, b),
        );
    }
    let ghost k = kept@;
    breakpoints.append(&mut kept);
    assert(breakpoints@ =~= k);
}

proof fn lemma_narrower_ranks()
    ensures
        ranks(|a: Offer, b: Offer| narrower(a, b)),
        ranks(|a: Found, b: Found| narrower_found(a, b)),
        ranks(|a: Found, b: Found| edge_below(a, b)),
{
}

proof fn lemma_panels_hold(found: Seq<Found>, n: int, how: Making, i: int)
    requires
        0 <= i < n <= found.len(),
    ensures
        panels_up_to(found, n, how).contains(panels_for(found, i, how)[0]),
    decreases n,
{
    let all = panels_up_to(found, n, how);
    let before = panels_up_to(found, n - 1, how);
    let x = panels_for(found, i, how)[0];
    if i == n - 1 {
        assert(all[before.len() as int] == x);
    } else {
        lemma_panels_hold(found, n - 1, how, i);
        let k = before.index_of(x);
        assert(all[k] == x);
    }
}

/// Panels render at exactly the breakpoint width: each breakpoint has a panel
/// of its own width, and the panels stand narrowest first.
pub proof fn panels_render_at_the_breakpoint_width(found: Seq<Found>, how: Making, i: int)
    requires
        0 <= i < found.len(),
    ensures
        exists|j: int|
            0 <= j < built(found, how).len() && (#[trigger] built(found, how)[j]).viewport.width
                == found[i].width && built(found, how)[j].checked == how.checked,
        forall|j: int, k: int|
            0 <= j < k < built(found, how).len() ==> (#[trigger] built(
                found,
                how,
            )[j]).viewport.width <= (#[trigger] built(found, how)[k]).viewport.width,
{
    let lt = |a: Offer, b: Offer| narrower(a, b);
    let all = panels_up_to(found, found.len() as int, how);
    let x = panels_for(found, i, how)[0];
    lemma_narrower_ranks();
    lemma_panels_hold(found, found.len() as int, how, i);
    crate::order::lemma_sorted_keeps(all, lt, x);
    let b = built(found, how);
    assert(b.contains(x));
    let j = b.index_of(x);
    assert(b[j].viewport.width == found[i].width);
    crate::order::sorting_is_ordered_and_complete(all, lt);
    assert forall|j: int, k: int| 0 <= j < k < b.len() implies (#[trigger] b[j]).viewport.width
        <= (#[trigger] b[k]).viewport.width by {
        assert(!lt(b[k], b[j]));
    }
}

proof fn lemma_firm_ones_hold(s: Seq<Found>, firm: bool, i: int)
    requires
        0 <= i < s.len(),
        is_firm(s[i]) == firm,
    ensures
        firm_ones(s, firm).contains(s[i]),
    decreases s.len(),
{
    let d = firm_ones(s.drop_last(), firm);
    if i == s.len() - 1 {
        assert(firm_ones(s, firm).last() == s[i]);
    } else {
        assert(s.drop_last()[i] == s[i]);
        lemma_firm_ones_hold(s.drop_last(), firm, i);
        let k = d.index_of(s[i]);
        assert(firm_ones(s, firm)[k] == s[i]);
    }
}

/// A breakpoint that somebody configured is always recommended, and checked.
pub proof fn what_was_configured_is_checked(
    s: Seq<Found>,
    strategy: HeightStrategy,
    fixed: i64,
    edge_testing: bool,
    i: int,
)
    requires
        0 <= i < s.len(),
        is_firm(s[i]),
    ensures
        ({
            let r = advice(s, strategy, fixed, edge_testing).recommended;
            exists|j: int|
                0 <= j < r.len() && (#[trigger] r[j]).viewport.width == s[i].width && r[j].checked
        }),
{
    let how = Making { strategy, fixed, edge_testing, checked: true };
    let lt = |a: Found, b: Found| narrower_found(a, b);
    lemma_narrower_ranks();
    lemma_firm_ones_hold(s, true, i);
    let firm = firm_ones(s, true);
    crate::order::lemma_sorted_keeps(firm, lt, s[i]);
    let sorted_firm = by_width(firm);
    assert(sorted_firm.contains(s[i]));
    let k = sorted_firm.index_of(s[i]);
    panels_render_at_the_breakpoint_width(sorted_firm, how, k);
    assert(firm.len() > 0);
    assert(checked_extras(s) == 0);
    let r = advice(s, strategy, fixed, edge_testing).recommended;
    assert(r == built(sorted_firm, how));
    let j = choose|j: int|
        0 <= j < r.len() && (#[trigger] r[j]).viewport.width == sorted_firm[k].width && r[j].checked;
    assert(r[j].viewport.width == s[i].width);
}

proof fn lemma_panels_checked(found: Seq<Found>, n: int, how: Making)
    requires
        0 <= n <= found.len(),
    ensures
        forall|j: int|
            0 <= j < panels_up_to(found, n, how).len() ==> (#[trigger] panels_up_to(
                found,
                n,
                how,
            )[j]).checked == how.checked,
    decreases n,
{
    if n > 0 {
        lemma_panels_checked(found, n - 1, how);
        let before = panels_up_to(found, n - 1, how);
        let more = panels_for(found, n - 1, how);
        let all = panels_up_to(found, n, how);
        assert forall|j: int| 0 <= j < all.len() implies (#[trigger] all[j]).checked
            == how.checked by {
            if j < before.len() {
                assert(all[j] == before[j]);
            } else {
                assert(all[j] == more[j - before.len()]);
            }
        }
    }
}

/// What is merely offered is never checked.
pub proof fn what_is_offered_is_not_checked(
    s: Seq<Found>,
    strategy: HeightStrategy,
    fixed: i64,
    edge_testing: bool,
    j: int,
)
    requires
        0 <= j < advice(s, strategy, fixed, edge_testing).also_found.len(),
    ensures
        !advice(s, strategy, fixed, edge_testing).also_found[j].checked,
{
    let quiet = Making { strategy, fixed, edge_testing: false, checked: false };
    let offered = extras(s).skip(checked_extras(s));
    lemma_panels_checked(offered, offered.len() as int, quiet);
}

proof fn lemma_panels_ranked(found: Seq<Found>, n: int, how: Making)
    requires
        0 <= n <= found.len(),
        forall|i: int, j: int|
            0 <= i < j < found.len() ==> (#[trigger] found[i]).file_count >= (
            #[trigger] found[j]).file_count,
    ensures
        ({
            let all = panels_up_to(found, n, how);
            &&& forall|j: int|
                0 <= j < all.len() ==> n > 0 && (#[trigger] all[j]).file_count >= found[n
                    - 1].file_count
            &&& forall|i: int, j: int|
                0 <= i < j < all.len() ==> (#[trigger] all[i]).file_count >= (
                #[trigger] all[j]).file_count
        }),
    decreases n,
{
    if n > 0 {
        lemma_panels_ranked(found, n - 1, how);
        let before = panels_up_to(found, n - 1, how);
        let more = panels_for(found, n - 1, how);
        let all = panels_up_to(found, n, how);
        assert forall|j: int| 0 <= j < all.len() implies (#[trigger] all[j]).file_count >= found[n
            - 1].file_count by {
            if j < before.len() {
                assert(all[j] == before[j]);
                assert(found[n - 2].file_count >= found[n - 1].file_count);
            } else {
                assert(all[j] == more[j - before.len()]);
            }
        }
        assert forall|i: int, j: int| 0 <= i < j < all.len() implies (#[trigger] all[i]).file_count
            >= (#[trigger] all[j]).file_count by {
            if j < before.len() {
                assert(all[i] == before[i] && all[j] == before[j]);
            } else {
                assert(all[j] == more[j - before.len()]);
            }
        }
    }
}

/// What is merely offered is ranked: no width comes before one that more files
/// use.
pub proof fn what_is_offered_is_ranked(
    s: Seq<Found>,
    strategy: HeightStrategy,
    fixed: i64,
    edge_testing: bool,
    i: int,
    j: int,
)
    requires
        0 <= i < j < advice(s, strategy, fixed, edge_testing).also_found.len(),
    ensures
        ({
            let r = advice(s, strategy, fixed, edge_testing).also_found;
            r[i].file_count >= r[j].file_count
        }),
{
    let quiet = Making { strategy, fixed, edge_testing: false, checked: false };
    let lt = |a: Found, b: Found| more_used(a, b);
    let soft = firm_ones(s, false);
    let all = by_use(soft);
    assert(crate::order::ranks(lt));
    crate::order::sorting_is_ordered_and_complete(soft, lt);
    let offered = extras(s).skip(checked_extras(s));
    assert forall|a: int, b: int| 0 <= a < b < offered.len() implies (
    #[trigger] offered[a]).file_count >= (#[trigger] offered[b]).file_count by {
        let n = checked_extras(s);
        assert(offered[a] == all[a + n] && offered[b] == all[b + n]);
        assert(!lt(all[b + n], all[a + n]));
    }
    lemma_panels_ranked(offered, offered.len() as int, quiet);
}

/// Each width is past the one before it.
pub open spec fn rises(s: Seq<Found>) -> bool {
    forall|i: int, j: int|
        0 <= i < j < s.len() ==> (#[trigger] s[i]).width < (#[trigger] s[j]).width
}

pub open spec fn has_width(s: Seq<Found>, w: i64) -> bool {
    exists|j: int| 0 <= j < s.len() && (#[trigger] s[j]).width == w
}

proof fn lemma_dedup_rises(s: Seq<Found>)
    requires
        forall|i: int, j: int|
            0 <= i < j < s.len() ==> (#[trigger] s[i]).width <= (#[trigger] s[j]).width,
    ensures
        rises(deduped(s, |a: Found, b: Found| same_width(a, b))),
        s.len() > 0 ==> {
            let d = deduped(s, |a: Found, b: Found| same_width(a, b));
            d.len() > 0 && d.last().width == s.last().width
        },
    decreases s.len(),
{
    let eq = |a: Found, b: Found| same_width(a, b);
    if s.len() > 0 {
        let p = s.drop_last();
        assert forall|i: int, j: int| 0 <= i < j < p.len() implies (#[trigger] p[i]).width <= (
        #[trigger] p[j]).width by {
            assert(s[i].width <= s[j].width);
        }
        lemma_dedup_rises(p);
        let dp = deduped(p, eq);
        let d = deduped(s, eq);
        if p.len() > 0 {
            assert(s[s.len() - 2].width <= s[s.len() - 1].width);
            if dp.last().width != s.last().width {
                assert forall|i: int, j: int| 0 <= i < j < d.len() implies (
                #[trigger] d[i]).width < (#[trigger] d[j]).width by {
                    if j == dp.len() && i < dp.len() - 1 {
                        assert(dp[i].width < dp[dp.len() - 1].width);
                    }
                }
            }
        }
    }
}

proof fn lemma_dedup_keeps(s: Seq<Found>, i: int)
    requires
        0 <= i < s.len(),
    ensures
        has_width(deduped(s, |a: Found, b: Found| same_width(a, b)), s[i].width),
    decreases s.len(),
{
    let eq = |a: Found, b: Found| same_width(a, b);
    let p = s.drop_last();
    let dp = deduped(p, eq);
    let d = deduped(s, eq);
    if i == s.len() - 1 {
        assert(d[d.len() - 1].width == s[i].width);
    } else {
        assert(p[i] == s[i]);
        lemma_dedup_keeps(p, i);
        let j = choose|j: int| 0 <= j < dp.len() && (#[trigger] dp[j]).width == p[i].width;
        assert(d[j] == dp[j]);
    }
}

/// Collapsing leaves one breakpoint for each width there was, narrowest first.
pub proof fn a_boundary_is_one_panel(s: Seq<Found>)
    ensures
        rises(collapsed(s)),
        forall|i: int| 0 <= i < s.len() ==> has_width(collapsed(s), (#[trigger] s[i]).width),
{
    let lt = |a: Found, b: Found| edge_below(a, b);
    lemma_narrower_ranks();
    crate::order::sorting_is_ordered_and_complete(s, lt);
    let o = sorted(s, lt);
    assert forall|i: int, j: int| 0 <= i < j < o.len() implies (#[trigger] o[i]).width <= (
    #[trigger] o[j]).width by {
        assert(!lt(o[j], o[i]));
    }
    lemma_dedup_rises(o);
    assert forall|i: int| 0 <= i < s.len() implies has_width(
        collapsed(s),
        (#[trigger] s[i]).width,
    ) by {
        crate::order::lemma_sorted_keeps(s, lt, s[i]);
        assert(s.contains(s[i]));
        lemma_dedup_keeps(o, o.index_of(s[i]));
    }
}

/// Whether a breakpoint asks for a panel of width `w`: its own width, or the
/// pixel below it where that side of it is to be shown.
proof fn lemma_panel_widths(found: Seq<Found>, n: int, how: Making, w: i64)
    requires
        0 <= n <= found.len(),
    ensures
        (exists|j: int|
            0 <= j < panels_up_to(found, n, how).len() && (#[trigger] panels_up_to(
                found,
                n,
                how,
            )[j]).viewport.width == w) <==> exists|k: int|
            0 <= k < n && {
                ||| (#[trigger] found[k]).width == w
                ||| found[k].width == w + 1_000_000 && w > 0 && (how.edge_testing || found[k].edge
                    == Edge::Max)
            },
    decreases n,
{
    if n > 0 {
        lemma_panel_widths(found, n - 1, how, w);
        let before = panels_up_to(found, n - 1, how);
        let more = panels_for(found, n - 1, how);
        let all = panels_up_to(found, n, how);
        let f = found[n - 1];
        assert(more[0].viewport.width == f.width);
        if shows_below(f, how) {
            assert(more[1].viewport.width == f.width - 1_000_000);
        }
        assert forall|j: int| 0 <= j < before.len() implies #[trigger] all[j] == before[j] by {}
        assert forall|j: int| 0 <= j < more.len() implies all[before.len() + j]
            == #[trigger] more[j] by {}
        if exists|j: int| 0 <= j < all.len() && (#[trigger] all[j]).viewport.width == w {
            let j = choose|j: int| 0 <= j < all.len() && (#[trigger] all[j]).viewport.width == w;
            if j < before.len() {
                assert(before[j].viewport.width == w);
            } else {
                assert(more[j - before.len()].viewport.width == w);
            }
        }
        if exists|j: int| 0 <= j < before.len() && (#[trigger] before[j]).viewport.width == w {
            let j = choose|j: int|
                0 <= j < before.len() && (#[trigger] before[j]).viewport.width == w;
            assert(all[j].viewport.width == w);
        }
        if f.width == w {
            assert(all[before.len() as int].viewport.width == w);
        }
        if f.width == w + 1_000_000 && w > 0 && (how.edge_testing || f.edge == Edge::Max) {
            assert(all[before.len() as int + 1].viewport.width == w);
        }
    }
}

/// The panels built are one at each breakpoint's own width, and one a pixel
/// below each whose edge is a max-width, or with edge testing below every one.
/// No panel stands at any other width.
pub proof fn panels_stand_where_the_rules_change(found: Seq<Found>, how: Making, w: i64)
    ensures
        (exists|j: int|
            0 <= j < built(found, how).len() && (#[trigger] built(found, how)[j]).viewport.width
                == w) <==> exists|k: int|
            0 <= k < found.len() && {
                ||| (#[trigger] found[k]).width == w
                ||| found[k].width == w + 1_000_000 && w > 0 && (how.edge_testing || found[k].edge
                    == Edge::Max)
            },
{
    let lt = |a: Offer, b: Offer| narrower(a, b);
    let all = panels_up_to(found, found.len() as int, how);
    let b = built(found, how);
    lemma_narrower_ranks();
    lemma_panel_widths(found, found.len() as int, how, w);
    if exists|j: int| 0 <= j < b.len() && (#[trigger] b[j]).viewport.width == w {
        let j = choose|j: int| 0 <= j < b.len() && (#[trigger] b[j]).viewport.width == w;
        crate::order::lemma_sorted_keeps(all, lt, b[j]);
        assert(b.contains(b[j]));
        assert(all[all.index_of(b[j])].viewport.width == w);
    }
    if exists|j: int| 0 <= j < all.len() && (#[trigger] all[j]).viewport.width == w {
        let j = choose|j: int| 0 <= j < all.len() && (#[trigger] all[j]).viewport.width == w;
        crate::order::lemma_sorted_keeps(all, lt, all[j]);
        assert(all.contains(all[j]));
        assert(b[b.index_of(all[j])].viewport.width == w);
    }
}

/// A max-width rule stops applying at the width recorded for it, so there is
/// always a panel one pixel below, where it applies. A min-width rule has one
/// there only with edge testing, or where another breakpoint asks for it.
pub proof fn a_max_width_rule_has_a_panel_where_it_applies(found: Seq<Found>, how: Making, i: int)
    requires
        0 <= i < found.len(),
        found[i].width > 1_000_000,
    ensures
        found[i].edge == Edge::Max ==> exists|j: int|
            0 <= j < built(found, how).len() && (#[trigger] built(found, how)[j]).viewport.width
                == found[i].width - 1_000_000,
        found[i].edge == Edge::Min ==> ((exists|j: int|
            0 <= j < built(found, how).len() && (#[trigger] built(found, how)[j]).viewport.width
                == found[i].width - 1_000_000) <==> how.edge_testing || exists|k: int|
            0 <= k < found.len() && {
                ||| (#[trigger] found[k]).width == found[i].width - 1_000_000
                ||| found[k].width == found[i].width && found[k].edge == Edge::Max
            }),
{
    let w = (found[i].width - 1_000_000) as i64;
    panels_stand_where_the_rules_change(found, how, w);
    let b = built(found, how);
    let asked = |k: int|
        {
            ||| found[k].width == w
            ||| found[k].width == w + 1_000_000 && w > 0 && (how.edge_testing || found[k].edge
                == Edge::Max)
        };
    if found[i].edge == Edge::Max || how.edge_testing {
        assert(found[i].width == w + 1_000_000);
    }
}

proof fn lemma_firm_ones_are(s: Seq<Found>, firm: bool)
    ensures
        firm_ones(s, firm) == s.filter(
            |f: Found| (f.kind == Kind::Configured || f.kind == Kind::Framework) == firm,
        ),
    decreases s.len(),
{
    reveal(Seq::filter);
    if s.len() > 0 {
        lemma_firm_ones_are(s.drop_last(), firm);
    }
}

proof fn lemma_widths_kept(s: Seq<Found>, t: Seq<Found>, how: Making, w: i64)
    requires
        forall|f: Found| #[trigger] t.contains(f) <==> s.contains(f),
    ensures
        (exists|j: int|
            0 <= j < built(t, how).len() && (#[trigger] built(t, how)[j]).viewport.width == w)
            <==> exists|k: int|
            0 <= k < s.len() && {
                ||| (#[trigger] s[k]).width == w
                ||| s[k].width == w + 1_000_000 && w > 0 && (how.edge_testing || s[k].edge
                    == Edge::Max)
            },
{
    panels_stand_where_the_rules_change(t, how, w);
    if exists|k: int|
        0 <= k < t.len() && {
            ||| (#[trigger] t[k]).width == w
            ||| t[k].width == w + 1_000_000 && w > 0 && (how.edge_testing || t[k].edge
                == Edge::Max)
        } {
        let k = choose|k: int|
            0 <= k < t.len() && {
                ||| (#[trigger] t[k]).width == w
                ||| t[k].width == w + 1_000_000 && w > 0 && (how.edge_testing || t[k].edge
                    == Edge::Max)
            };
        assert(t.contains(t[k]));
        assert(s[s.index_of(t[k])] == t[k]);
    }
    if exists|k: int|
        0 <= k < s.len() && {
            ||| (#[trigger] s[k]).width == w
            ||| s[k].width == w + 1_000_000 && w > 0 && (how.edge_testing || s[k].edge
                == Edge::Max)
        } {
        let k = choose|k: int|
            0 <= k < s.len() && {
                ||| (#[trigger] s[k]).width == w
                ||| s[k].width == w + 1_000_000 && w > 0 && (how.edge_testing || s[k].edge
                    == Edge::Max)
            };
        assert(s.contains(s[k]));
        assert(t.contains(s[k]));
        assert(t[t.index_of(s[k])] == s[k]);
    }
}

/// Where a project configured its breakpoints, what is recommended is those and
/// no others: a panel at the width of each, and one a pixel below each
/// max-width, or with edge testing below all.
pub proof fn a_configured_project_gets_its_own_breakpoints(
    s: Seq<Found>,
    strategy: HeightStrategy,
    fixed: i64,
    edge_testing: bool,
    w: i64,
)
    requires
        exists|k: int|
            0 <= k < s.len() && ((#[trigger] s[k]).kind == Kind::Configured || s[k].kind
                == Kind::Framework),
    ensures
        ({
            let r = advice(s, strategy, fixed, edge_testing).recommended;
            (exists|j: int| 0 <= j < r.len() && (#[trigger] r[j]).viewport.width == w)
                <==> exists|k: int|
                0 <= k < s.len() && ((#[trigger] s[k]).kind == Kind::Configured || s[k].kind
                    == Kind::Framework) && {
                    ||| s[k].width == w
                    ||| s[k].width == w + 1_000_000 && w > 0 && (edge_testing || s[k].edge
                        == Edge::Max)
                }
        }),
        !advice(s, strategy, fixed, edge_testing).fallback,
{
    let how = Making { strategy, fixed, edge_testing, checked: true };
    let is = |f: Found| (f.kind == Kind::Configured || f.kind == Kind::Framework) == true;
    let lt = |a: Found, b: Found| narrower_found(a, b);
    lemma_firm_ones_are(s, true);
    lemma_narrower_ranks();
    let firm = firm_ones(s, true);
    assert(firm == s.filter(is));
    let t = by_width(firm);
    let k0 = choose|k: int|
        0 <= k < s.len() && ((#[trigger] s[k]).kind == Kind::Configured || s[k].kind
            == Kind::Framework);
    s.lemma_filter_contains(is, k0);
    assert(firm.len() > 0);
    assert forall|f: Found| #[trigger] t.contains(f) <==> firm.contains(f) by {
        crate::order::lemma_sorted_keeps(firm, lt, f);
    }
    lemma_widths_kept(firm, t, how, w);
    assert(advice(s, strategy, fixed, edge_testing).recommended == built(t, how));
    if exists|k: int|
        0 <= k < firm.len() && {
            ||| (#[trigger] firm[k]).width == w
            ||| firm[k].width == w + 1_000_000 && w > 0 && (how.edge_testing || firm[k].edge
                == Edge::Max)
        } {
        let k = choose|k: int|
            0 <= k < firm.len() && {
                ||| (#[trigger] firm[k]).width == w
                ||| firm[k].width == w + 1_000_000 && w > 0 && (how.edge_testing || firm[k].edge
                    == Edge::Max)
            };
        s.lemma_filter_pred(is, k);
        assert(firm.contains(firm[k]));
        s.lemma_filter_contains_rev(is, firm[k]);
        assert(s[s.index_of(firm[k])] == firm[k]);
    }
    if exists|k: int|
        0 <= k < s.len() && ((#[trigger] s[k]).kind == Kind::Configured || s[k].kind
            == Kind::Framework) && {
            ||| s[k].width == w
            ||| s[k].width == w + 1_000_000 && w > 0 && (edge_testing || s[k].edge == Edge::Max)
        } {
        let k = choose|k: int|
            0 <= k < s.len() && ((#[trigger] s[k]).kind == Kind::Configured || s[k].kind
                == Kind::Framework) && {
                ||| s[k].width == w
                ||| s[k].width == w + 1_000_000 && w > 0 && (edge_testing || s[k].edge
                    == Edge::Max)
            };
        s.lemma_filter_contains(is, k);
        assert(firm[firm.index_of(s[k])] == s[k]);
    }
}

proof fn lemma_soft_ones(s: Seq<Found>)
    ensures
        by_use(firm_ones(s, false)).len() == s.filter(|f: Found| (f.kind == Kind::Css || f.kind == Kind::Inferred)).len(),
        forall|f: Found| #[trigger]
            by_use(firm_ones(s, false)).contains(f) <==> s.contains(f) && (f.kind == Kind::Css || f.kind == Kind::Inferred),
        forall|i: int, j: int|
            0 <= i < j < by_use(firm_ones(s, false)).len() ==> (#[trigger] by_use(
                firm_ones(s, false),
            )[i]).file_count >= (#[trigger] by_use(firm_ones(s, false))[j]).file_count,
{
    let lt = |a: Found, b: Found| more_used(a, b);
    let is = |f: Found| (f.kind == Kind::Configured || f.kind == Kind::Framework) == false;
    let css = |f: Found| (f.kind == Kind::Css || f.kind == Kind::Inferred);
    let soft = firm_ones(s, false);
    lemma_firm_ones_are(s, false);
    assert(is =~= css);
    assert(ranks(lt));
    crate::order::sorting_is_ordered_and_complete(soft, lt);
    let all = by_use(soft);
    assert forall|f: Found| #[trigger] all.contains(f) <==> s.contains(f) && (f.kind == Kind::Css || f.kind == Kind::Inferred) by {
        crate::order::lemma_sorted_keeps(soft, lt, f);
        if soft.contains(f) {
            s.lemma_filter_contains_rev(css, f);
            s.lemma_filter_pred(css, soft.index_of(f));
        }
        if s.contains(f) && (f.kind == Kind::Css || f.kind == Kind::Inferred) {
            s.lemma_filter_contains(css, s.index_of(f));
        }
    }
    assert forall|i: int, j: int| 0 <= i < j < all.len() implies (
    #[trigger] all[i]).file_count >= (#[trigger] all[j]).file_count by {
        assert(!lt(all[j], all[i]));
    }
}

proof fn lemma_panel_counts(found: Seq<Found>, n: int, how: Making)
    requires
        0 <= n <= found.len(),
    ensures
        forall|j: int|
            0 <= j < panels_up_to(found, n, how).len() ==> exists|k: int|
                0 <= k < n && (#[trigger] panels_up_to(found, n, how)[j]).file_count == (
                #[trigger] found[k]).file_count,
        !how.edge_testing && (forall|k: int| 0 <= k < n ==> (#[trigger] found[k]).edge == Edge::Min)
            ==> panels_up_to(found, n, how).len() == n,
    decreases n,
{
    if n > 0 {
        lemma_panel_counts(found, n - 1, how);
        let before = panels_up_to(found, n - 1, how);
        let more = panels_for(found, n - 1, how);
        let all = panels_up_to(found, n, how);
        assert forall|j: int| 0 <= j < all.len() implies exists|k: int|
            0 <= k < n && (#[trigger] all[j]).file_count == (#[trigger] found[k]).file_count by {
            if j < before.len() {
                assert(all[j] == before[j]);
                let k = choose|k: int|
                    0 <= k < n - 1 && before[j].file_count == (#[trigger] found[k]).file_count;
                assert(found[k].file_count == all[j].file_count);
            } else {
                assert(all[j] == more[j - before.len()]);
                assert(found[n - 1].file_count == all[j].file_count);
            }
        }
    }
}

/// A project that configures no breakpoints has the three widths that most of
/// its files use checked, and up to seven more offered: nothing merely offered
/// is used in more files than anything checked, and of ten widths or fewer none
/// is left out.
pub proof fn an_unconfigured_project_gets_its_most_used_widths(
    s: Seq<Found>,
    strategy: HeightStrategy,
    fixed: i64,
    edge_testing: bool,
)
    requires
        s.len() > 0,
        forall|k: int| 0 <= k < s.len() ==> (#[trigger] s[k]).kind == Kind::Css || s[k].kind
            == Kind::Inferred,
    ensures
        ({
            let a = advice(s, strategy, fixed, edge_testing);
            &&& !a.fallback
            &&& forall|i: int, j: int|
                0 <= i < a.recommended.len() && 0 <= j < a.also_found.len() ==> (
                #[trigger] a.recommended[i]).file_count >= (#[trigger] a.also_found[j]).file_count
            &&& s.len() <= 3 ==> forall|k: int|
                0 <= k < s.len() ==> exists|i: int|
                    0 <= i < a.recommended.len() && (#[trigger] a.recommended[i]).viewport.width
                        == (#[trigger] s[k]).width
            &&& s.len() <= 10 ==> forall|k: int|
                0 <= k < s.len() ==> (exists|i: int|
                    0 <= i < a.recommended.len() && (#[trigger] a.recommended[i]).viewport.width
                        == (#[trigger] s[k]).width) || exists|i: int|
                    0 <= i < a.also_found.len() && (#[trigger] a.also_found[i]).viewport.width
                        == s[k].width
            &&& !edge_testing && (forall|k: int|
                0 <= k < s.len() ==> (#[trigger] s[k]).edge == Edge::Min) ==> {
                &&& a.recommended.len() == if s.len() < 3 {
                    s.len()
                } else {
                    3
                }
                &&& a.recommended.len() + a.also_found.len() == if s.len() < 10 {
                    s.len()
                } else {
                    10
                }
            }
        }),
{
    let how = Making { strategy, fixed, edge_testing, checked: true };
    let quiet = Making { strategy, fixed, edge_testing: false, checked: false };
    let ofw = |a: Offer, b: Offer| narrower(a, b);
    lemma_soft_ones(s);
    lemma_narrower_ranks();
    let css = |f: Found| (f.kind == Kind::Css || f.kind == Kind::Inferred);
    assert(s.filter(css) =~= s) by {
        lemma_filter_whole(s, css);
    }
    let is = |f: Found| (f.kind == Kind::Configured || f.kind == Kind::Framework) == true;
    assert(firm_ones(s, true).len() == 0) by {
        lemma_firm_ones_are(s, true);
        if s.filter(is).len() > 0 {
            s.lemma_filter_pred(is, 0);
            assert(s.filter(is).contains(s.filter(is)[0]));
            s.lemma_filter_contains_rev(is, s.filter(is)[0]);
            assert(is(s[s.index_of(s.filter(is)[0])]) == false);
        }
    }
    let all = by_use(firm_ones(s, false));
    let extra = extras(s);
    let n = checked_extras(s);
    let top = extra.take(n);
    let rest = extra.skip(n);
    let a = advice(s, strategy, fixed, edge_testing);
    let b1 = built(by_width(firm_ones(s, true)), how);
    assert(b1 =~= Seq::<Offer>::empty());
    let b2 = built(top, how);
    assert(b1 + b2 =~= b2);
    let up = panels_up_to(top, n, how);
    crate::order::sorting_is_ordered_and_complete(up, ofw);
    crate::order::sorting_is_ordered_and_complete(b2, ofw);
    crate::order::sorting_keeps_what_is_in_order(b2, ofw);
    assert(a.recommended == b2);
    lemma_panel_counts(top, n, how);
    lemma_panel_counts(rest, rest.len() as int, quiet);
    assert forall|k: int| 0 <= k < all.len() implies s.contains(#[trigger] all[k]) by {
        assert(all.contains(all[k]));
    }
    assert forall|i: int, j: int|
        0 <= i < a.recommended.len() && 0 <= j < a.also_found.len() implies (
    #[trigger] a.recommended[i]).file_count >= (#[trigger] a.also_found[j]).file_count by {
        crate::order::lemma_sorted_keeps(up, ofw, b2[i]);
        assert(b2.contains(b2[i]));
        let x = up.index_of(b2[i]);
        let k = choose|k: int|
            0 <= k < n && up[x].file_count == (#[trigger] top[k]).file_count;
        let m = choose|m: int|
            0 <= m < rest.len() && a.also_found[j].file_count == (#[trigger] rest[m]).file_count;
        assert(top[k] == all[k] && rest[m] == all[n + m]);
    }
    assert forall|k: int| 0 <= k < s.len() && s.len() <= 10 implies (exists|i: int|
        0 <= i < a.recommended.len() && (#[trigger] a.recommended[i]).viewport.width == (
        #[trigger] s[k]).width) || (s.len() > 3 && exists|i: int|
        0 <= i < a.also_found.len() && (#[trigger] a.also_found[i]).viewport.width
            == s[k].width) by {
        assert(s.contains(s[k]));
        assert(all.contains(s[k]));
        let x = all.index_of(s[k]);
        if x < n {
            assert(top[x] == s[k]);
            panels_stand_where_the_rules_change(top, how, s[k].width);
        } else {
            assert(rest[x - n] == s[k]);
            lemma_panel_widths(rest, rest.len() as int, quiet, s[k].width);
        }
    }
    if !edge_testing && (forall|k: int| 0 <= k < s.len() ==> (#[trigger] s[k]).edge == Edge::Min) {
        assert forall|k: int| 0 <= k < all.len() implies (#[trigger] all[k]).edge
            == Edge::Min by {
            assert(s[s.index_of(all[k])].edge == Edge::Min);
        }
        assert forall|k: int| 0 <= k < top.len() implies (#[trigger] top[k]).edge == Edge::Min by {
            assert(top[k] == all[k]);
        }
        assert forall|k: int| 0 <= k < rest.len() implies (#[trigger] rest[k]).edge
            == Edge::Min by {
            assert(rest[k] == all[n + k]);
        }
    }
}

proof fn lemma_filter_whole(s: Seq<Found>, p: spec_fn(Found) -> bool)
    requires
        forall|k: int| 0 <= k < s.len() ==> p(#[trigger] s[k]),
    ensures
        s.filter(p) == s,
    decreases s.len(),
{
    reveal(Seq::filter);
    if s.len() > 0 {
        assert forall|k: int| 0 <= k < s.drop_last().len() implies p(
            #[trigger] s.drop_last()[k],
        ) by {
            assert(s.drop_last()[k] == s[k]);
        }
        lemma_filter_whole(s.drop_last(), p);
        assert(s.last() == s[s.len() - 1]);
        assert(s.drop_last().push(s.last()) =~= s);
    }
}

/// With no breakpoints at all, five common device sizes are recommended, all
/// checked, and the answer says that it fell back.
pub proof fn an_empty_scan_falls_back_to_devices(
    strategy: HeightStrategy,
    fixed: i64,
    edge_testing: bool,
)
    ensures
        ({
            let a = advice(Seq::empty(), strategy, fixed, edge_testing);
            &&& a.fallback
            &&& a.also_found.len() == 0
            &&& a.recommended.map_values(|o: Offer| o.viewport.width) == seq![
                375_000_000i64,
                430_000_000,
                768_000_000,
                1_440_000_000,
                1_920_000_000,
            ]
            &&& a.recommended.map_values(|o: Offer| o.viewport.height) == seq![
                667_000_000i64,
                932_000_000,
                1_024_000_000,
                900_000_000,
                1_080_000_000,
            ]
            &&& forall|i: int| 0 <= i < 5 ==> (#[trigger] a.recommended[i]).checked
        }),
{
    let a = advice(Seq::empty(), strategy, fixed, edge_testing);
    assert(a.recommended.map_values(|o: Offer| o.viewport.width) =~= seq![
        375_000_000i64,
        430_000_000,
        768_000_000,
        1_440_000_000,
        1_920_000_000,
    ]);
    assert(a.recommended.map_values(|o: Offer| o.viewport.height) =~= seq![
        667_000_000i64,
        932_000_000,
        1_024_000_000,
        900_000_000,
        1_080_000_000,
    ]);
}

/// A panel has the shape of a device of its size, to the nearest ten pixels: of
/// a phone up to 480 wide, of a tablet upright up to 900 and on its side up to
/// 1279, and of a laptop beyond; and it is 640 tall where that would be less. A
/// fixed height is taken as it is, down to 320.
pub proof fn a_panel_has_the_shape_of_its_device(
    width: int,
    strategy: HeightStrategy,
    fixed: int,
)
    ensures
        strategy == HeightStrategy::DeviceRatio ==> {
            let h = height_of(width, strategy, fixed);
            let want = width * (if width <= 480_000_000 {
                2160
            } else if width <= 900_000_000 {
                1330
            } else if width <= 1_279_000_000 {
                750
            } else {
                625int
            });
            &&& h % 10_000_000 == 0
            &&& want >= 640_000_000_000 ==> -5_000_000_000 <= 1000 * h - want <= 5_000_000_000
            &&& want < 640_000_000_000 ==> h == 640_000_000
        },
        strategy != HeightStrategy::DeviceRatio && fixed >= 320_000_000 ==> height_of(
            width,
            strategy,
            fixed,
        ) == fixed,
        strategy != HeightStrategy::DeviceRatio && fixed < 320_000_000 ==> height_of(
            width,
            strategy,
            fixed,
        ) == 320_000_000,
{
}

/// Panels that share a name are told apart: each of them adds its own key or
/// its width to it, and one whose name is its own has that name and no more.
pub proof fn a_shared_name_is_told_apart(found: Seq<Found>, i: int, j: int)
    requires
        0 <= i < found.len(),
        0 <= j < found.len(),
        i != j,
    ensures
        base_name(found[i]) == base_name(found[j]) ==> panel_name(found, i) == base_name(found[i])
            + " ("@ + (match found[i].name {
            Some(key) => if key == base_name(found[i]) {
                whole_text(found[i].width as int)
            } else {
                key
            },
            None => whole_text(found[i].width as int),
        }) + ")"@,
        (forall|k: int|
            0 <= k < found.len() && k != i ==> base_name(#[trigger] found[k]) != base_name(
                found[i],
            )) ==> panel_name(found, i) == base_name(found[i]),
{
    if base_name(found[i]) == base_name(found[j]) {
        assert(collides(found, i));
    }
}

/// A panel is named for the devices of its size, and keeps the label that a
/// Drupal breakpoint file gives it, with a capital.
pub proof fn a_panel_is_named_for_its_size(f: Found)
    ensures
        f.name is None || !begins(f.source, "Drupal breakpoint"@) ==> {
            &&& f.width <= 480_000_000 ==> base_name(f) == "Mobile"@
            &&& 480_000_000 < f.width <= 767_000_000 ==> base_name(f) == "Large Mobile"@
            &&& 767_000_000 < f.width <= 1_023_000_000 ==> base_name(f) == "Tablet"@
            &&& 1_023_000_000 < f.width <= 1_279_000_000 ==> base_name(f) == "Laptop"@
            &&& 1_279_000_000 < f.width <= 1_535_000_000 ==> base_name(f) == "Desktop"@
            &&& 1_535_000_000 < f.width ==> base_name(f) == "Wide"@
        },
        f.name matches Some(label) ==> begins(f.source, "Drupal breakpoint"@) && label.len() > 0
            ==> base_name(f) == uppercase_of(label[0]) + label.skip(1),
{
}

/// Where a min-width and a max-width meet at one width, the min-width one is
/// kept.
pub proof fn a_shared_boundary_keeps_its_lower_edge(s: Seq<Found>, i: int)
    requires
        0 <= i < s.len(),
        s[i].edge == Edge::Min,
    ensures
        exists|j: int|
            0 <= j < collapsed(s).len() && (#[trigger] collapsed(s)[j]).width == s[i].width
                && collapsed(s)[j].edge == Edge::Min,
{
    let lt = |a: Found, b: Found| edge_below(a, b);
    lemma_narrower_ranks();
    crate::order::sorting_is_ordered_and_complete(s, lt);
    let o = sorted(s, lt);
    crate::order::lemma_sorted_keeps(s, lt, s[i]);
    assert(s.contains(s[i]));
    assert(o.contains(s[i]));
    let k = o.index_of(s[i]);
    assert forall|a: int, b: int| 0 <= a < b < o.len() implies !edge_below(
        #[trigger] o[b],
        #[trigger] o[a],
    ) by {
        assert(!lt(o[b], o[a]));
    }
    lemma_dedup_lower(o, k);
    let d = deduped(o, |a: Found, b: Found| same_width(a, b));
    let j = choose|j: int|
        0 <= j < d.len() && (#[trigger] d[j]).width == o[k].width && d[j].edge == Edge::Min;
    assert(collapsed(s)[j].width == s[i].width);
}

proof fn lemma_dedup_lower(s: Seq<Found>, i: int)
    requires
        0 <= i < s.len(),
        s[i].edge == Edge::Min,
        forall|a: int, b: int|
            0 <= a < b < s.len() ==> !edge_below(#[trigger] s[b], #[trigger] s[a]),
    ensures
        ({
            let d = deduped(s, |a: Found, b: Found| same_width(a, b));
            &&& exists|j: int|
                0 <= j < d.len() && (#[trigger] d[j]).width == s[i].width && d[j].edge == Edge::Min
            &&& d.len() > 0 && s.contains(d.last())
        }),
    decreases s.len(),
{
    let eq = |a: Found, b: Found| same_width(a, b);
    let p = s.drop_last();
    let dp = deduped(p, eq);
    let d = deduped(s, eq);
    assert forall|a: int, b: int| 0 <= a < b < p.len() implies !edge_below(
        #[trigger] p[b],
        #[trigger] p[a],
    ) by {
        assert(p[a] == s[a] && p[b] == s[b]);
    }
    lemma_dedup_last(p);
    if i < s.len() - 1 {
        assert(p[i] == s[i]);
        lemma_dedup_lower(p, i);
        let j = choose|j: int|
            0 <= j < dp.len() && (#[trigger] dp[j]).width == p[i].width && dp[j].edge
                == Edge::Min;
        assert(d[j] == dp[j]);
    } else if dp.len() > 0 && same_width(dp.last(), s.last()) {
        let m = p.index_of(dp.last());
        assert(p[m] == s[m]);
        assert(!edge_below(s[i], s[m]));
        assert(d[d.len() - 1].edge == Edge::Min);
    } else {
        assert(d[d.len() - 1] == s[i]);
    }
    lemma_dedup_last(s);
}

proof fn lemma_dedup_last(s: Seq<Found>)
    ensures
        ({
            let d = deduped(s, |a: Found, b: Found| same_width(a, b));
            &&& d.len() > 0 <==> s.len() > 0
            &&& s.len() > 0 ==> s.contains(d.last())
        }),
    decreases s.len(),
{
    let eq = |a: Found, b: Found| same_width(a, b);
    if s.len() > 0 {
        let p = s.drop_last();
        lemma_dedup_last(p);
        let d = deduped(s, eq);
        let dp = deduped(p, eq);
        if d.last() == s.last() {
            assert(s[s.len() - 1] == d.last());
        } else {
            let m = p.index_of(dp.last());
            assert(s[m] == dp.last());
        }
    }
}

/// The device that a panel's shape is said to be of is the one its size class
/// goes by.
pub proof fn a_panel_says_whose_shape_it_has(width: int)
    ensures
        width <= 480_000_000 ==> device_of(width) == "iPhone 15 Pro, 393 x 852"@,
        480_000_000 < width <= 900_000_000 ==> device_of(width) == "iPad portrait, 768 x 1024"@,
        900_000_000 < width <= 1_279_000_000 ==> device_of(width)
            == "iPad landscape, 1024 x 768"@,
        width > 1_279_000_000 ==> device_of(width) == "MacBook Air, 1440 x 900"@,
{
}

} // verus!
