//! Before and after, across every width at once.
//!
//! Take a picture of every width, make a change, take them again, and say which
//! widths moved. A change that fixes 1024 and breaks 375 is the failure this
//! app exists to catch.
//!
//! The comparison is deliberately blunt: how many pixels differ, as a
//! proportion. It answers "did anything move here" rather than "what moved",
//! which is the question you want first when you have six widths and no idea
//! which one to look at. The difference image says where.

use vstd::prelude::*;
use vstd::string::StringExecFns;
use crate::canvas::row::{PanelInfo, PanelShown};
use crate::picture::{
    changed_in, changed_tenths, difference_image, marked, tenths_of, Picture,
};
use crate::state::{pixels_string, pixels_text};
use crate::text::{
    chars_of, clone_opt, decimal, decimal_string, find_from, first_match, join, joined,
    lemma_first_match, number_string, opt_view, same, slice_string, texts,
};
use crate::util::{slug_of, slugify};

verus! {

/// What was captured for one panel, and where it was put.
#[derive(Debug)]
pub struct Shot {
    pub panel: String,
    pub panel_name: String,
    pub width: i64,
    pub path: String,
}

#[derive(Debug)]
pub struct Taken {
    pub shots: Vec<Shot>,
    pub failed: Vec<String>,
    pub summary: String,
}

/// One width, before and after.
#[derive(Debug)]
pub struct Comparison {
    pub panel: String,
    pub panel_name: String,
    pub width: i64,
    /// In tenths of a percent.
    pub changed_tenths: u64,
    pub moved: bool,
    /// Where the difference image was written, when anything differed.
    pub difference_image: Option<String>,
    pub error: Option<String>,
}

/// A [`Comparison`], with its texts as characters.
#[verifier::ext_equal]
pub struct Measured {
    pub panel: Seq<char>,
    pub panel_name: Seq<char>,
    pub width: i64,
    pub changed_tenths: u64,
    pub moved: bool,
    pub difference_image: Option<Seq<char>>,
    pub error: Option<Seq<char>>,
}

impl View for Comparison {
    type V = Measured;

    open spec fn view(&self) -> Measured {
        Measured {
            panel: self.panel@,
            panel_name: self.panel_name@,
            width: self.width,
            changed_tenths: self.changed_tenths,
            moved: self.moved,
            difference_image: opt_view(self.difference_image),
            error: opt_view(self.error),
        }
    }
}

pub open spec fn measurements(v: Seq<Comparison>) -> Seq<Measured> {
    v.map_values(|c: Comparison| c@)
}

#[derive(Debug)]
pub struct Compared {
    pub widths: Vec<Comparison>,
    pub moved: Vec<i64>,
    pub unchanged: Vec<i64>,
    pub summary: String,
}

/// Anything at or below this is compression noise and antialiasing, not a
/// change. In tenths of a percent.
pub const NOISE_FLOOR: u64 = 1;

/// The file a panel's baseline is kept in.
pub fn baseline_name(panel: &str) -> (r: String)
    ensures
        r@ == slug_of(panel@) + ".png"@,
{
    let mut out = slugify(panel);
    out.append(".png");
    out
}

/// The file a difference image is written to.
pub fn changed_name(panel: &str, now_ms: u64) -> (r: String)
    ensures
        r@ == "changed-"@ + slug_of(panel@) + "-"@ + decimal(now_ms as nat) + ".png"@,
{
    let mut out = "changed-".to_owned();
    out.append(slugify(panel).as_str());
    out.append("-");
    out.append(decimal_string(now_ms).as_str());
    out.append(".png");
    out
}

/// Why a panel could not be captured, without the panel's name in front.
pub open spec fn reason_in(line: Seq<char>) -> Seq<char> {
    match first_match(line, ": "@, 0) {
        Some(k) => line.skip(k + 2),
        None => line,
    }
}

fn reason_of(line: &str) -> (r: String)
    ensures
        r@ == reason_in(line@),
{
    let chars = chars_of(line);
    let sep = chars_of(": ");
    proof {
        reveal_strlit(": ");
        lemma_first_match(line@, ": "@, 0);
    }
    match find_from(chars.as_slice(), sep.as_slice(), 0) {
        Some(k) => {
            let length: usize = chars.len();
            assert(crate::text::matches_at(chars@, sep@, k as int));
            let r = slice_string(chars.as_slice(), k + 2, length);
            assert(r@ =~= line@.skip(k + 2));
            r
        },
        None => line.to_owned(),
    }
}

/// Whether every panel failed for the same reason.
pub open spec fn one_reason(failed: Seq<Seq<char>>) -> bool {
    forall|i: int|
        0 <= i < failed.len() ==> reason_in(#[trigger] failed[i]) == reason_in(failed[0])
}

/// What taking a baseline came to. One reason, said once: every panel fails for
/// the same reason nearly every time, and seven copies of a paragraph is not a
/// report.
pub open spec fn taken_summary(captured: nat, failed: Seq<Seq<char>>) -> Seq<char> {
    if failed.len() == 0 {
        decimal(captured) + " widths captured"@
    } else if one_reason(failed) {
        decimal(captured) + " widths captured, "@ + decimal(failed.len())
            + " could not be, all for the same reason: "@ + reason_in(failed[0])
    } else {
        decimal(captured) + " widths captured, "@ + decimal(failed.len()) + " could not be: "@
            + joined(failed, "; "@)
    }
}

fn all_one_reason(failed: &Vec<String>) -> (r: bool)
    requires
        failed@.len() > 0,
    ensures
        r == one_reason(texts(failed@)),
{
    let ghost all = texts(failed@);
    let first = reason_of(failed[0].as_str());
    assert(all[0] == failed@[0]@);
    let mut i: usize = 0;
    while i < failed.len()
        invariant
            i <= failed@.len(),
            all == texts(failed@),
            first@ == reason_in(all[0]),
            forall|k: int| 0 <= k < i ==> reason_in(#[trigger] all[k]) == reason_in(all[0]),
        decreases failed@.len() - i,
    {
        assert(all[i as int] == failed@[i as int]@);
        if !same(reason_of(failed[i].as_str()).as_str(), first.as_str()) {
            return false;
        }
        i += 1;
    }
    true
}

/// Put together what taking a baseline came to.
pub fn taken(shots: Vec<Shot>, failed: Vec<String>) -> (r: Taken)
    ensures
        r.shots == shots,
        r.failed == failed,
        r.summary@ == taken_summary(shots@.len(), texts(failed@)),
{
    assert(texts(failed@).len() == failed@.len());
    let mut summary = number_string(shots.len());
    summary.append(" widths captured");
    if failed.len() > 0 {
        summary.append(", ");
        summary.append(number_string(failed.len()).as_str());
        if all_one_reason(&failed) {
            summary.append(" could not be, all for the same reason: ");
            assert(texts(failed@)[0] == failed@[0]@);
            summary.append(reason_of(failed[0].as_str()).as_str());
        } else {
            summary.append(" could not be: ");
            summary.append(join(&failed, "; ").as_str());
        }
        proof {
            reveal_strlit(" widths captured");
            reveal_strlit(", ");
            reveal_strlit(" widths captured, ");
            assert(" widths captured, "@ =~= " widths captured"@ + ", "@);
            assert(summary@ =~= taken_summary(shots@.len(), texts(failed@)));
        }
    }
    Taken { shots, failed, summary }
}

/// What comparing two pictures of one panel came to.
#[derive(Debug)]
pub enum Difference {
    /// A resize would compare two different things, so a size change is
    /// reported as a change rather than smoothed away.
    Resized,
    /// Nothing worth a picture, in tenths of a percent.
    Quiet(u64),
    /// So many tenths of a percent, and a picture of where.
    Changed(u64, Picture),
}

/// How much two pictures of the same panel differ, and where.
pub fn difference(before: &Picture, after: &Picture) -> (r: Difference)
    requires
        before.is_whole(),
        after.is_whole(),
        before.width * before.height > 0,
    ensures
        if before.width != after.width || before.height != after.height {
            r is Resized
        } else {
            let tenths = tenths_of(
                changed_in(*before, *after, before.height as int) as int,
                before.width * before.height,
            );
            match r {
                Difference::Resized => false,
                Difference::Quiet(t) => t == tenths && t <= NOISE_FLOOR,
                Difference::Changed(t, p) => {
                    &&& t == tenths
                    &&& t > NOISE_FLOOR
                    &&& p.is_whole()
                    &&& p.width == before.width
                    &&& p.height == before.height
                    &&& forall|x: int, y: int|
                        before.has(x, y) ==> #[trigger] p.at(x, y) == marked(
                            before.at(x, y),
                            after.at(x, y),
                        )
                },
            }
        },
{
    if before.width != after.width || before.height != after.height {
        return Difference::Resized;
    }
    let (picture, changed) = difference_image(before, after);
    assert(before.width * before.height <= 0xffff_ffff * 0xffff_ffff) by (nonlinear_arith)
        requires
            before.width <= 0xffff_ffff,
            before.height <= 0xffff_ffff,
    ;
    let total: u64 = before.width as u64 * before.height as u64;
    let tenths: u64 = changed_tenths(changed, total);
    if tenths <= NOISE_FLOOR {
        Difference::Quiet(tenths)
    } else {
        Difference::Changed(tenths, picture)
    }
}

/// What became of one panel's comparison.
#[derive(Debug)]
pub enum Outcome {
    NoBaseline,
    Failed(String),
    /// How much changed, in tenths of a percent, and where a picture of it is.
    Found(u64, String),
}

/// A panel's part of a comparison.
pub open spec fn measured(p: PanelShown, o: Outcome) -> Measured {
    let still = Measured {
        panel: p.id,
        panel_name: p.name,
        width: p.width,
        changed_tenths: 0,
        moved: false,
        difference_image: None,
        error: None,
    };
    match o {
        Outcome::NoBaseline => Measured {
            error: Some("no baseline for this width; take one first"@),
            ..still
        },
        Outcome::Failed(e) => Measured { error: Some(e@), ..still },
        Outcome::Found(t, path) => Measured {
            changed_tenths: t,
            moved: t > NOISE_FLOOR,
            difference_image: if t > NOISE_FLOOR {
                Some(path@)
            } else {
                None
            },
            ..still
        },
    }
}

pub fn measure(p: &PanelInfo, o: Outcome) -> (r: Comparison)
    ensures
        r@ == measured(p@, o),
{
    let (tenths, moved, image, error): (u64, bool, Option<String>, Option<String>) = match o {
        Outcome::NoBaseline => (
            0,
            false,
            None,
            Some("no baseline for this width; take one first".to_owned()),
        ),
        Outcome::Failed(e) => (0, false, None, Some(e)),
        Outcome::Found(t, path) => (
            t,
            t > NOISE_FLOOR,
            if t > NOISE_FLOOR {
                Some(path)
            } else {
                None
            },
            None,
        ),
    };
    Comparison {
        panel: p.id.as_str().to_owned(),
        panel_name: p.name.as_str().to_owned(),
        width: p.width,
        changed_tenths: tenths,
        moved,
        difference_image: image,
        error,
    }
}

/// The widths that moved, or those that were compared and did not.
pub open spec fn widths_that(s: Seq<Measured>, moved: bool) -> Seq<i64>
    decreases s.len(),
{
    if s.len() == 0 {
        Seq::empty()
    } else {
        let d = widths_that(s.drop_last(), moved);
        let m = s.last();
        if m.moved == moved && (moved || m.error is None) {
            d.push(m.width)
        } else {
            d
        }
    }
}

/// The first thing that went wrong.
pub open spec fn first_error(s: Seq<Measured>, i: int) -> Option<Seq<char>>
    decreases s.len() - i,
{
    if i >= s.len() {
        None
    } else if s[i].error is Some {
        s[i].error
    } else {
        first_error(s, i + 1)
    }
}

pub open spec fn px_list(widths: Seq<i64>) -> Seq<Seq<char>> {
    widths.map_values(|w: i64| pixels_text(w as int) + "px"@)
}

/// What a comparison came to.
pub open spec fn compared_summary(s: Seq<Measured>) -> Seq<char> {
    let moved = widths_that(s, true);
    let unchanged = widths_that(s, false);
    if moved.len() == 0 && unchanged.len() == 0 {
        "nothing could be compared: "@ + match first_error(s, 0) {
            Some(e) => e,
            None => "no widths could be compared"@,
        }
    } else if moved.len() == 0 {
        "nothing moved at any of the "@ + decimal(unchanged.len()) + " widths compared"@
    } else {
        decimal(moved.len()) + " of "@ + decimal((moved.len() + unchanged.len()) as nat)
            + " widths moved: "@ + joined(px_list(moved), ", "@)
    }
}

fn pick_widths(ws: &Vec<Comparison>, moved: bool) -> (r: Vec<i64>)
    ensures
        r@ == widths_that(measurements(ws@), moved),
        r@.len() <= ws@.len(),
{
    let ghost all = measurements(ws@);
    let mut out: Vec<i64> = Vec::new();
    let mut i: usize = 0;
    assert(all.take(0) =~= Seq::empty());
    while i < ws.len()
        invariant
            i <= ws@.len(),
            out@.len() <= i,
            all == measurements(ws@),
            out@ == widths_that(all.take(i as int), moved),
        decreases ws@.len() - i,
    {
        proof {
            assert(all.take(i + 1).drop_last() =~= all.take(i as int));
            assert(all.take(i + 1).last() == ws@[i as int]@);
        }
        if ws[i].moved == moved && (moved || ws[i].error.is_none()) {
            out.push(ws[i].width);
        }
        i += 1;
    }
    assert(all.take(all.len() as int) =~= all);
    out
}

fn find_error(ws: &Vec<Comparison>) -> (r: Option<String>)
    ensures
        opt_view(r) == first_error(measurements(ws@), 0),
{
    let ghost all = measurements(ws@);
    let mut i: usize = 0;
    while i < ws.len()
        invariant
            i <= ws@.len(),
            all == measurements(ws@),
            first_error(all, 0) == first_error(all, i as int),
        decreases ws@.len() - i,
    {
        assert(all[i as int] == ws@[i as int]@);
        if ws[i].error.is_some() {
            return clone_opt(&ws[i].error);
        }
        i += 1;
    }
    None
}

pub fn px_texts(widths: &Vec<i64>) -> (r: Vec<String>)
    ensures
        texts(r@) == px_list(widths@),
{
    let ghost want = px_list(widths@);
    let mut out: Vec<String> = Vec::new();
    let mut i: usize = 0;
    assert(texts(out@) =~= want.take(0));
    while i < widths.len()
        invariant
            i <= widths@.len(),
            want == px_list(widths@),
            texts(out@) == want.take(i as int),
        decreases widths@.len() - i,
    {
        let ghost before = texts(out@);
        let mut t = pixels_string(widths[i]);
        t.append("px");
        out.push(t);
        assert(texts(out@) =~= before.push(t@));
        assert(want.take(i + 1) =~= want.take(i as int).push(want[i as int]));
        i += 1;
    }
    assert(want.take(want.len() as int) =~= want);
    out
}

proof fn lemma_widths_apart(s: Seq<Measured>)
    ensures
        widths_that(s, true).len() + widths_that(s, false).len() <= s.len(),
    decreases s.len(),
{
    if s.len() > 0 {
        lemma_widths_apart(s.drop_last());
    }
}

/// Say which widths moved.
pub fn compared(widths: Vec<Comparison>) -> (r: Compared)
    ensures
        r.widths == widths,
        r.moved@ == widths_that(measurements(widths@), true),
        r.unchanged@ == widths_that(measurements(widths@), false),
        r.summary@ == compared_summary(measurements(widths@)),
{
    let moved = pick_widths(&widths, true);
    let unchanged = pick_widths(&widths, false);
    let count: usize = widths.len();
    proof {
        lemma_widths_apart(measurements(widths@));
        assert(measurements(widths@).len() == count);
    }
    let summary = if moved.len() == 0 && unchanged.len() == 0 {
        let mut s = "nothing could be compared: ".to_owned();
        match find_error(&widths) {
            Some(e) => {
                s.append(e.as_str());
            },
            None => {
                s.append("no widths could be compared");
            },
        }
        s
    } else if moved.len() == 0 {
        let mut s = "nothing moved at any of the ".to_owned();
        s.append(number_string(unchanged.len()).as_str());
        s.append(" widths compared");
        s
    } else {
        let mut s = number_string(moved.len());
        s.append(" of ");
        s.append(number_string(moved.len() + unchanged.len()).as_str());
        s.append(" widths moved: ");
        s.append(join(&px_texts(&moved), ", ").as_str());
        s
    };
    Compared { widths, moved, unchanged, summary }
}

/// A width is either said to have moved, or to be unchanged, or could not be
/// compared; and one that moved is one that changed by more than noise.
pub proof fn a_width_moved_or_did_not(p: PanelShown, o: Outcome)
    ensures
        measured(p, o).moved ==> measured(p, o).error is None,
        measured(p, o).moved == (o matches Outcome::Found(t, _) && t > NOISE_FLOOR),
        measured(p, o).width == p.width,
{
}

proof fn lemma_widths_told(s: Seq<Measured>)
    ensures
        widths_that(s, true) == s.filter(|m: Measured| m.moved).map_values(|m: Measured| m.width),
        widths_that(s, false) == s.filter(
            |m: Measured| !m.moved && m.error is None,
        ).map_values(|m: Measured| m.width),
    decreases s.len(),
{
    reveal(Seq::filter);
    let w = |m: Measured| m.width;
    let yes = |m: Measured| m.moved;
    let no = |m: Measured| !m.moved && m.error is None;
    if s.len() == 0 {
        assert(s.filter(yes).map_values(w) =~= Seq::<i64>::empty());
        assert(s.filter(no).map_values(w) =~= Seq::<i64>::empty());
    } else {
        let d = s.drop_last();
        lemma_widths_told(d);
        assert(d.filter(yes).push(s.last()).map_values(w) =~= d.filter(yes).map_values(w).push(
            s.last().width,
        ));
        assert(d.filter(no).push(s.last()).map_values(w) =~= d.filter(no).map_values(w).push(
            s.last().width,
        ));
    }
}

proof fn lemma_widths_counted(s: Seq<Measured>)
    requires
        forall|k: int| 0 <= k < s.len() && (#[trigger] s[k]).moved ==> s[k].error is None,
    ensures
        widths_that(s, true).len() + widths_that(s, false).len() == s.filter(
            |m: Measured| m.error is None,
        ).len(),
    decreases s.len(),
{
    reveal(Seq::filter);
    if s.len() > 0 {
        let d = s.drop_last();
        assert forall|k: int| 0 <= k < d.len() && (#[trigger] d[k]).moved implies d[k].error
            is None by {
            assert(d[k] == s[k]);
        }
        lemma_widths_counted(d);
        assert(s.last() == s[s.len() - 1]);
    }
}

/// Every width that was compared without an error is told once: among those
/// that moved if it moved, and among the unchanged if it did not. One that could
/// not be compared is in neither list.
pub proof fn a_compared_width_is_told_once(s: Seq<Measured>)
    requires
        forall|k: int| 0 <= k < s.len() && (#[trigger] s[k]).moved ==> s[k].error is None,
    ensures
        forall|k: int|
            0 <= k < s.len() && (#[trigger] s[k]).error is None && s[k].moved ==> widths_that(
                s,
                true,
            ).contains(s[k].width),
        forall|k: int|
            0 <= k < s.len() && (#[trigger] s[k]).error is None && !s[k].moved ==> widths_that(
                s,
                false,
            ).contains(s[k].width),
        forall|w: i64| #[trigger]
            widths_that(s, true).contains(w) ==> exists|k: int|
                0 <= k < s.len() && (#[trigger] s[k]).width == w && s[k].moved && s[k].error
                    is None,
        forall|w: i64| #[trigger]
            widths_that(s, false).contains(w) ==> exists|k: int|
                0 <= k < s.len() && (#[trigger] s[k]).width == w && !s[k].moved && s[k].error
                    is None,
        widths_that(s, true).len() == s.filter(|m: Measured| m.moved).len(),
        widths_that(s, true).len() + widths_that(s, false).len() == s.filter(
            |m: Measured| m.error is None,
        ).len(),
{
    lemma_widths_told(s);
    lemma_widths_counted(s);
    let w = |m: Measured| m.width;
    let yes = |m: Measured| m.moved;
    let no = |m: Measured| !m.moved && m.error is None;
    let a = s.filter(yes);
    let b = s.filter(no);
    assert forall|k: int| 0 <= k < s.len() && (#[trigger] s[k]).error is None
        && s[k].moved implies widths_that(s, true).contains(s[k].width) by {
        assert(yes(s[k]));
        s.lemma_filter_contains(yes, k);
        let j = a.index_of(s[k]);
        assert(a.map_values(w)[j] == s[k].width);
    }
    assert forall|k: int| 0 <= k < s.len() && (#[trigger] s[k]).error is None
        && !s[k].moved implies widths_that(s, false).contains(s[k].width) by {
        assert(no(s[k]));
        s.lemma_filter_contains(no, k);
        let j = b.index_of(s[k]);
        assert(b.map_values(w)[j] == s[k].width);
    }
    assert forall|x: i64| #[trigger] widths_that(s, true).contains(x) implies exists|k: int|
        0 <= k < s.len() && (#[trigger] s[k]).width == x && s[k].moved && s[k].error is None by {
        let j = widths_that(s, true).index_of(x);
        s.lemma_filter_pred(yes, j);
        assert(a[j].width == x && yes(a[j]));
        assert(a.contains(a[j]));
        s.lemma_filter_contains_rev(yes, a[j]);
        let k = s.index_of(a[j]);
        assert(s[k].width == x);
    }
    assert forall|x: i64| #[trigger] widths_that(s, false).contains(x) implies exists|k: int|
        0 <= k < s.len() && (#[trigger] s[k]).width == x && !s[k].moved && s[k].error is None by {
        let j = widths_that(s, false).index_of(x);
        s.lemma_filter_pred(no, j);
        assert(b[j].width == x && no(b[j]));
        assert(b.contains(b[j]));
        s.lemma_filter_contains_rev(no, b[j]);
        let k = s.index_of(b[j]);
        assert(s[k].width == x);
    }
}

/// A panel that was compared moved if more than a tenth of a percent of it
/// changed, and only then is there a picture of the difference. A panel without
/// a baseline, or whose comparison failed, says why and did not move.
pub proof fn what_a_comparison_says(p: PanelShown, o: Outcome)
    ensures
        o matches Outcome::Found(t, path) ==> {
            &&& measured(p, o).error is None
            &&& measured(p, o).changed_tenths == t
            &&& measured(p, o).moved == (t >= 2)
            &&& measured(p, o).difference_image == if t >= 2 {
                Some(path@)
            } else {
                None
            }
        },
        o matches Outcome::Failed(e) ==> measured(p, o).error == Some(e@) && !measured(p, o).moved
            && measured(p, o).difference_image is None,
        o is NoBaseline ==> measured(p, o).error == Some(
            "no baseline for this width; take one first"@,
        ) && !measured(p, o).moved,
        measured(p, o).panel == p.id && measured(p, o).panel_name == p.name && measured(p, o).width
            == p.width,
{
}

proof fn lemma_first_error(s: Seq<Measured>, i: int, k: int)
    requires
        0 <= i <= k < s.len(),
        s[k].error is Some,
        forall|j: int| i <= j < k ==> (#[trigger] s[j]).error is None,
    ensures
        first_error(s, i) == s[k].error,
    decreases k - i,
{
    if i < k {
        lemma_first_error(s, i + 1, k);
    }
}

/// The summary says how many of the widths compared moved, that none did, or,
/// when none could be compared, the first reason why.
pub proof fn the_summary_counts_what_was_compared(s: Seq<Measured>, k: int)
    requires
        forall|k: int| 0 <= k < s.len() && (#[trigger] s[k]).moved ==> s[k].error is None,
        0 <= k < s.len(),
    ensures
        ({
            let compared = s.filter(|m: Measured| m.error is None).len();
            let moved = s.filter(|m: Measured| m.moved).len();
            &&& moved == 0 && compared > 0 ==> compared_summary(s)
                == "nothing moved at any of the "@ + decimal(compared) + " widths compared"@
            &&& moved > 0 ==> crate::text::begins(
                compared_summary(s),
                decimal(moved) + " of "@ + decimal(compared) + " widths moved: "@,
            )
            &&& compared == 0 && s[k].error is Some && (forall|j: int|
                0 <= j < k ==> (#[trigger] s[j]).error is None) ==> compared_summary(s)
                == "nothing could be compared: "@ + s[k].error->0
        }),
{
    a_compared_width_is_told_once(s);
    if s[k].error is Some && (forall|j: int| 0 <= j < k ==> (#[trigger] s[j]).error is None) {
        lemma_first_error(s, 0, k);
    }
    let compared = s.filter(|m: Measured| m.error is None).len();
    let moved = s.filter(|m: Measured| m.moved).len();
    if moved > 0 {
        let front = decimal(moved) + " of "@ + decimal(compared) + " widths moved: "@;
        let all = compared_summary(s);
        assert(all.take(front.len() as int) =~= front);
    }
}

/// The reason of a failure is what follows the first colon and space, and the
/// whole line where there is none.
pub proof fn a_reason_follows_the_colon(panel: Seq<char>, reason: Seq<char>)
    requires
        !panel.contains(':'),
    ensures
        reason_in(panel + ": "@ + reason) == reason,
        reason_in(panel) == panel,
{
    reveal_strlit(": ");
    let sep = ": "@;
    let line = panel + sep + reason;
    crate::text::lemma_first_match(line, sep, 0);
    crate::text::lemma_first_match(panel, sep, 0);
    assert(line.subrange(panel.len() as int, (panel.len() + 2) as int) =~= sep);
    assert(crate::text::matches_at(line, sep, panel.len() as int));
    if first_match(line, sep, 0) is Some {
        let k = first_match(line, sep, 0)->0;
        assert(line.subrange(k, k + 2)[0] == ':');
        assert(line[k] == ':');
        if k < panel.len() {
            assert(panel[k] == ':');
            assert(panel.contains(':'));
        }
        assert(k == panel.len());
        assert(line.skip(k + 2) =~= reason);
    }
    if first_match(panel, sep, 0) is Some {
        let k = first_match(panel, sep, 0)->0;
        assert(panel.subrange(k, k + 2)[0] == ':');
        assert(panel[k] == ':');
        assert(panel.contains(':'));
    }
}

/// What taking a baseline says: how many widths there are, how many could not be,
/// and one reason once, or every failure where they differ.
pub proof fn taking_says_what_failed(captured: nat, failed: Seq<Seq<char>>, i: int)
    requires
        0 <= i < failed.len(),
    ensures
        taken_summary(captured, Seq::empty()) == decimal(captured) + " widths captured"@,
        reason_in(failed[i]) != reason_in(failed[0]) ==> taken_summary(captured, failed)
            == decimal(captured) + " widths captured, "@ + decimal(failed.len())
            + " could not be: "@ + joined(failed, "; "@),
        (forall|j: int|
            0 <= j < failed.len() ==> reason_in(#[trigger] failed[j]) == reason_in(failed[i]))
            ==> taken_summary(captured, failed) == decimal(captured) + " widths captured, "@
            + decimal(failed.len()) + " could not be, all for the same reason: "@ + reason_in(
            failed[i],
        ),
{
    if forall|j: int|
        0 <= j < failed.len() ==> reason_in(#[trigger] failed[j]) == reason_in(failed[i]) {
        assert(reason_in(failed[0]) == reason_in(failed[i]));
        assert(one_reason(failed));
    }
}

} // verus!
