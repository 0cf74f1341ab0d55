//! One list of widths out of every detector's, and where two sources disagree.

use vstd::prelude::*;
use vstd::string::StringExecFns;
use crate::table::{keyed, put, put_in};
use crate::text::{clone_opt, lower_str, lowered, opt_view, same};
use super::log::{Event, ScanLog};
use super::tailwind::{by_width, sort_by_width};
use super::types::{
    conflict_views, founds, frameworks, kind_rank, BreakpointDiscovery, Conflict, ConflictFound,
    ConflictSide, Found, FrameworkDetection, Kind, SideFound,
};
use super::units::{px_string, px_text};

verus! {

/// Same width twice from two detectors is one breakpoint.
pub const CROSS_TOLERANCE: i64 = 2_000_000;

/// A near miss is worth a question; a different decision is not. Five percent
/// of a large width is a lot of pixels, so a deliberate 1470 would be taken for
/// a configured 1536. The absolute cap keeps the case this is for, a 992 laid
/// out against a configured 1024, and loses the ones that were never in doubt.
pub const NEAR_MISS_CAP: i64 = 32_000_000;

pub open spec fn gap(a: int, b: int) -> int {
    if a < b {
        b - a
    } else {
        a - b
    }
}

fn gap_between(a: i64, b: i64) -> (r: i128)
    ensures
        r == gap(a as int, b as int),
{
    if a < b {
        b as i128 - a as i128
    } else {
        a as i128 - b as i128
    }
}

/// Neighbours gathered with the first of their group, each within the
/// tolerance of it.
pub open spec fn grouped(s: Seq<Found>) -> Seq<Seq<Found>>
    decreases s.len(),
{
    if s.len() == 0 {
        Seq::empty()
    } else {
        let before = grouped(s.drop_last());
        let e = s.last();
        if before.len() > 0 && gap(e.width as int, before.last()[0].width as int)
            <= CROSS_TOLERANCE {
            before.drop_last().push(before.last().push(e))
        } else {
            before.push(seq![e])
        }
    }
}

/// Whether `a` is at least as good a source as `b`: more deliberate, or as
/// deliberate and at least as sure.
pub open spec fn wins(a: Found, b: Found) -> bool {
    kind_rank(a.kind) > kind_rank(b.kind) || (a.kind == b.kind && a.confidence >= b.confidence)
}

/// The best source in a group, the last of several as good.
pub open spec fn winner(g: Seq<Found>) -> Found
    decreases g.len(),
{
    if g.len() <= 1 {
        g[0]
    } else if wins(g.last(), winner(g.drop_last())) {
        g.last()
    } else {
        winner(g.drop_last())
    }
}

pub open spec fn most_files(g: Seq<Found>) -> usize
    decreases g.len(),
{
    if g.len() == 0 {
        0
    } else if g.last().file_count >= most_files(g.drop_last()) {
        g.last().file_count
    } else {
        most_files(g.drop_last())
    }
}

pub open spec fn first_name(g: Seq<Found>) -> Option<Seq<char>>
    decreases g.len(),
{
    if g.len() == 0 {
        None
    } else if first_name(g.drop_last()) is Some {
        first_name(g.drop_last())
    } else {
        g.last().name
    }
}

/// What a group comes to. Frequency is a CSS fact, and it is useful even when a
/// framework name won the entry, because it says how much the codebase leans on
/// it.
pub open spec fn merged_group(g: Seq<Found>) -> Found {
    let best = winner(g);
    Found {
        file_count: most_files(g),
        name: if best.name is Some {
            best.name
        } else {
            first_name(g)
        },
        ..best
    }
}

/// The widths of every detector as one list, narrowest first.
pub open spec fn merged_widths(found: Seq<Found>) -> Seq<Found> {
    grouped(by_width(found)).map_values(|g: Seq<Found>| merged_group(g))
}

proof fn lemma_winner(g: Seq<Found>)
    requires
        g.len() > 0,
    ensures
        g.contains(winner(g)),
        forall|i: int| 0 <= i < g.len() ==> wins(winner(g), #[trigger] g[i]),
    decreases g.len(),
{
    if g.len() == 1 {
        assert(g[0] == winner(g));
    } else {
        let d = g.drop_last();
        lemma_winner(d);
        let k = choose|k: int| 0 <= k < d.len() && d[k] == winner(d);
        assert(g[k] == winner(d));
        assert(g[g.len() - 1] == g.last());
        assert forall|i: int| 0 <= i < g.len() implies wins(winner(g), #[trigger] g[i]) by {
            if i < d.len() {
                assert(d[i] == g[i]);
                assert(wins(winner(d), d[i]));
            }
        }
    }
}

/// A width that was merged is never taken from a less deliberate source, or
/// from a less sure one of the same kind, than another in its group: what the
/// user configured is not silently replaced.
pub proof fn a_better_source_is_never_replaced(g: Seq<Found>, i: int)
    requires
        0 <= i < g.len(),
    ensures
        kind_rank(merged_group(g).kind) >= kind_rank(g[i].kind),
        merged_group(g).kind == g[i].kind ==> merged_group(g).confidence >= g[i].confidence,
        merged_group(g).file_count >= g[i].file_count,
{
    lemma_winner(g);
    lemma_most_files(g, i);
}

proof fn lemma_most_files(g: Seq<Found>, i: int)
    requires
        0 <= i < g.len(),
    ensures
        most_files(g) >= g[i].file_count,
    decreases g.len(),
{
    if i < g.len() - 1 {
        assert(g.drop_last()[i] == g[i]);
        lemma_most_files(g.drop_last(), i);
    } else {
        assert(g.last() == g[i]);
    }
}

pub open spec fn found_groups(v: Seq<Vec<BreakpointDiscovery>>) -> Seq<Seq<Found>> {
    v.map_values(|g: Vec<BreakpointDiscovery>| founds(g@))
}

fn group(found: Vec<BreakpointDiscovery>) -> (r: Vec<Vec<BreakpointDiscovery>>)
    ensures
        found_groups(r@) == grouped(founds(found@)),
        forall|i: int| 0 <= i < r@.len() ==> (#[trigger] r@[i])@.len() > 0,
{
    let mut rest = found;
    let mut out: Vec<Vec<BreakpointDiscovery>> = Vec::new();
    let ghost all = founds(found@);
    let ghost mut done: int = 0;
    assert(found_groups(out@) =~= grouped(all.take(0)));
    assert(found@.skip(0) =~= found@);
    while rest.len() > 0
        invariant
            0 <= done <= found@.len(),
            rest@ == found@.skip(done),
            all == founds(found@),
            found_groups(out@) == grouped(all.take(done)),
            forall|i: int| 0 <= i < out@.len() ==> (#[trigger] out@[i])@.len() > 0,
        decreases rest@.len(),
    {
        let e = rest.remove(0);
        proof {
            assert(found@[done] == e);
            assert(all.take(done + 1).drop_last() =~= all.take(done));
            assert(all.take(done + 1).last() == e@);
            assert(rest@ =~= found@.skip(done + 1));
        }
        let ghost before = found_groups(out@);
        let n: usize = out.len();
        let joins = n > 0 && {
            assert(out@[n - 1]@.len() > 0);
            assert(before[n - 1] == founds(out@[n - 1]@));
            assert(before[n - 1][0].width == out@[n - 1]@[0].width);
            gap_between(e.width, out[n - 1][0].width) <= CROSS_TOLERANCE as i128
        };
        if joins {
            let mut last = out.pop().unwrap();
            let ghost l0 = last@;
            last.push(e);
            assert(founds(last@) =~= founds(l0).push(e@));
            out.push(last);
            assert(found_groups(out@) =~= before.drop_last().push(before.last().push(e@)));
        } else {
            let mut one: Vec<BreakpointDiscovery> = Vec::new();
            one.push(e);
            assert(founds(one@) =~= seq![e@]);
            out.push(one);
            assert(found_groups(out@) =~= before.push(seq![e@]));
        }
        proof {
            done = done + 1;
        }
    }
    assert(all.take(all.len() as int) =~= all);
    out
}

fn at_least_as_good(a: &BreakpointDiscovery, b: &BreakpointDiscovery) -> (r: bool)
    ensures
        r == wins(a@, b@),
{
    a.kind.rank() > b.kind.rank() || (a.kind == b.kind && a.confidence >= b.confidence)
}

fn merge_group(g: &Vec<BreakpointDiscovery>) -> (r: BreakpointDiscovery)
    requires
        g@.len() > 0,
    ensures
        r@ == merged_group(founds(g@)),
{
    let ghost v = founds(g@);
    let mut best: usize = 0;
    let mut files: usize = g[0].file_count;
    let mut name = clone_opt(&g[0].name);
    let mut i: usize = 1;
    proof {
        let t = v.take(1);
        assert(t[0] == v[0]);
        assert(t.last() == v[0]);
        assert(t.drop_last() =~= Seq::<Found>::empty());
        assert(first_name(Seq::<Found>::empty()) is None);
        assert(most_files(Seq::<Found>::empty()) == 0);
    }
    while i < g.len()
        invariant
            1 <= i <= g@.len(),
            best < i,
            v == founds(g@),
            v[best as int] == winner(v.take(i as int)),
            files == most_files(v.take(i as int)),
            opt_view(name) == first_name(v.take(i as int)),
        decreases g@.len() - i,
    {
        proof {
            assert(v.take(i + 1).drop_last() =~= v.take(i as int));
            assert(v.take(i + 1).last() == v[i as int]);
        }
        if at_least_as_good(&g[i], &g[best]) {
            best = i;
        }
        if g[i].file_count >= files {
            files = g[i].file_count;
        }
        if name.is_none() {
            name = clone_opt(&g[i].name);
        }
        i += 1;
    }
    assert(v.take(v.len() as int) =~= v);
    let mut r = g[best].clone();
    r.file_count = files;
    if r.name.is_none() {
        r.name = name;
    }
    r
}

/// The names that breakpoints have, in lower case, each once and in order.
pub open spec fn names_used(merged: Seq<Found>) -> Seq<(Seq<char>, bool)>
    decreases merged.len(),
{
    if merged.len() == 0 {
        Seq::empty()
    } else {
        let before = names_used(merged.drop_last());
        match merged.last().name {
            Some(n) => put(before, lowered(n), true, false),
            None => before,
        }
    }
}

/// The breakpoints that go by `name`, in the order they are in.
pub open spec fn called(merged: Seq<Found>, name: Seq<char>) -> Seq<Found>
    decreases merged.len(),
{
    if merged.len() == 0 {
        Seq::empty()
    } else {
        let before = called(merged.drop_last(), name);
        if merged.last().name matches Some(n) && lowered(n) == name {
            before.push(merged.last())
        } else {
            before
        }
    }
}

/// How one side of a disagreement is shown.
pub open spec fn side_of(e: Found) -> SideFound {
    SideFound {
        label: if e.kind == Kind::Configured || e.kind == Kind::Framework {
            match e.name {
                Some(n) => n,
                None => e.source,
            }
        } else {
            "CSS"@
        },
        width: e.width,
        source_file: e.source_file,
        detail: e.source,
    }
}

/// Whether two breakpoints of one name disagree.
///
/// One declaration with two edges is not two sources disagreeing. Drupal's
/// documented form, `(min-width: 560px) and (max-width: 850px)`, is a single
/// named breakpoint with a lower and an upper bound. Two entries from the same
/// declaration that sit on opposite edges are that case; two on the same edge
/// are a real disagreement and still count.
pub open spec fn disagree(a: Found, b: Found) -> bool {
    &&& gap(a.width as int, b.width as int) > CROSS_TOLERANCE
    &&& !(a.source_file == b.source_file && a.source == b.source && a.edge != b.edge)
}

/// The disagreements between neighbours among the first `n` of `es`.
pub open spec fn neighbour_conflicts(name: Seq<char>, es: Seq<Found>, n: int) -> Seq<ConflictFound>
    decreases n,
{
    if n <= 1 {
        Seq::empty()
    } else {
        let before = neighbour_conflicts(name, es, n - 1);
        if disagree(es[n - 2], es[n - 1]) {
            before.push(
                ConflictFound { name, left: side_of(es[n - 2]), right: side_of(es[n - 1]) },
            )
        } else {
            before
        }
    }
}

/// The disagreements under each of the first `n` names.
pub open spec fn name_conflicts(
    merged: Seq<Found>,
    names: Seq<(Seq<char>, bool)>,
    n: int,
) -> Seq<ConflictFound>
    decreases n,
{
    if n <= 0 {
        Seq::empty()
    } else {
        let es = called(merged, names[n - 1].0);
        name_conflicts(merged, names, n - 1) + neighbour_conflicts(
            names[n - 1].0,
            es,
            es.len() as int,
        )
    }
}

/// Whether a stylesheet lays out at a width close to but not the same as the
/// one the framework declares, in enough files to ask about it.
pub open spec fn near_miss(configured: Found, css: Found) -> bool {
    let g = gap(configured.width as int, css.width as int);
    &&& configured.kind == Kind::Configured
    &&& css.kind == Kind::Css
    &&& g > CROSS_TOLERANCE
    &&& 20 * g <= configured.width
    &&& g <= NEAR_MISS_CAP
    &&& css.file_count >= 2
}

/// The near misses found so far: what to ask, the stylesheet widths already
/// asked about, and what is logged.
#[verifier::ext_equal]
pub struct NearMisses {
    pub conflicts: Seq<ConflictFound>,
    pub flagged: Seq<i64>,
    pub events: Seq<Event>,
}

/// One stylesheet width could sit near two configured ones and produce a card
/// for each, all saying the same thing, so each is asked about once.
pub open spec fn miss_step(st: NearMisses, configured: Found, css: Found) -> NearMisses {
    if near_miss(configured, css) && !st.flagged.contains(css.width) {
        NearMisses {
            conflicts: st.conflicts.push(
                ConflictFound {
                    name: match configured.name {
                        Some(n) => n,
                        None => px_text(configured.width as int) + "px"@,
                    },
                    left: side_of(configured),
                    right: side_of(css),
                },
            ),
            flagged: st.flagged.push(css.width),
            events: st.events.push(
                Event::Note {
                    message: "css lays out at "@ + px_text(css.width as int)
                        + "px where the config says "@ + px_text(configured.width as int) + "px"@,
                },
            ),
        }
    } else {
        st
    }
}

/// The near misses of `configured` among the first `n` of `merged`.
pub open spec fn misses_of(st: NearMisses, configured: Found, merged: Seq<Found>, n: int) -> NearMisses
    decreases n,
{
    if n <= 0 {
        st
    } else {
        miss_step(misses_of(st, configured, merged, n - 1), configured, merged[n - 1])
    }
}

/// The near misses of the first `n` of `merged`.
pub open spec fn misses_in(merged: Seq<Found>, n: int) -> NearMisses
    decreases n,
{
    if n <= 0 {
        NearMisses { conflicts: Seq::empty(), flagged: Seq::empty(), events: Seq::empty() }
    } else {
        misses_of(misses_in(merged, n - 1), merged[n - 1], merged, merged.len() as int)
    }
}

/// Every disagreement among the merged widths.
pub open spec fn conflicts_in(merged: Seq<Found>) -> Seq<ConflictFound> {
    let names = names_used(merged);
    name_conflicts(merged, names, names.len() as int) + misses_in(
        merged,
        merged.len() as int,
    ).conflicts
}

proof fn lemma_misses_of_distinct(st: NearMisses, configured: Found, merged: Seq<Found>, n: int)
    requires
        st.flagged.no_duplicates(),
    ensures
        misses_of(st, configured, merged, n).flagged.no_duplicates(),
    decreases n,
{
    if n > 0 {
        lemma_misses_of_distinct(st, configured, merged, n - 1);
    }
}

/// A stylesheet width is asked about once, however many configured widths it
/// sits near.
pub proof fn a_width_is_asked_about_once(merged: Seq<Found>, n: int)
    ensures
        misses_in(merged, n).flagged.no_duplicates(),
    decreases n,
{
    if n > 0 {
        a_width_is_asked_about_once(merged, n - 1);
        lemma_misses_of_distinct(
            misses_in(merged, n - 1),
            merged[n - 1],
            merged,
            merged.len() as int,
        );
    }
}

/// A file never disagrees with itself over the two edges of one declaration.
pub proof fn two_edges_of_one_declaration_agree(a: Found, b: Found)
    requires
        a.source_file == b.source_file,
        a.source == b.source,
        a.edge != b.edge,
    ensures
        !disagree(a, b),
{
}

/// How one side of a disagreement is shown.
pub fn side(e: &BreakpointDiscovery) -> (r: ConflictSide)
    ensures
        r@ == side_of(e@),
{
    let label = match e.kind {
        Kind::Configured | Kind::Framework => match &e.name {
            Some(n) => n.as_str().to_owned(),
            None => e.source.as_str().to_owned(),
        },
        _ => "CSS".to_owned(),
    };
    ConflictSide {
        label,
        width: e.width,
        source_file: e.source_file.as_str().to_owned(),
        detail: e.source.as_str().to_owned(),
    }
}

fn list_names(merged: &Vec<BreakpointDiscovery>) -> (r: Vec<(String, bool)>)
    ensures
        keyed(r@) == names_used(founds(merged@)),
{
    let ghost all = founds(merged@);
    let mut out: Vec<(String, bool)> = Vec::new();
    let mut i: usize = 0;
    assert(all.take(0) =~= Seq::<Found>::empty());
    assert(keyed(out@) =~= Seq::<(Seq<char>, bool)>::empty());
    while i < merged.len()
        invariant
            i <= merged@.len(),
            all == founds(merged@),
            keyed(out@) == names_used(all.take(i as int)),
        decreases merged@.len() - i,
    {
        proof {
            assert(all.take(i + 1).drop_last() =~= all.take(i as int));
            assert(all.take(i + 1).last() == merged@[i as int]@);
        }
        if let Some(n) = &merged[i].name {
            put_in(&mut out, lower_str(n.as_str()), true, false);
        }
        i += 1;
    }
    assert(all.take(all.len() as int) =~= all);
    out
}

/// Where the breakpoints that go by `name` stand.
fn find_called(merged: &Vec<BreakpointDiscovery>, name: &str) -> (r: Vec<usize>)
    ensures
        forall|k: int| 0 <= k < r@.len() ==> (#[trigger] r@[k]) < merged@.len(),
        r@.map_values(|i: usize| founds(merged@)[i as int]) == called(founds(merged@), name@),
{
    let ghost all = founds(merged@);
    let ghost pick = |i: usize| all[i as int];
    let mut out: Vec<usize> = Vec::new();
    let mut i: usize = 0;
    assert(all.take(0) =~= Seq::<Found>::empty());
    assert(out@.map_values(pick) =~= called(all.take(0), name@));
    while i < merged.len()
        invariant
            i <= merged@.len(),
            all == founds(merged@),
            pick == (|i: usize| all[i as int]),
            forall|k: int| 0 <= k < out@.len() ==> (#[trigger] out@[k]) < merged@.len(),
            out@.map_values(pick) == called(all.take(i as int), name@),
        decreases merged@.len() - i,
    {
        let ghost before = out@.map_values(pick);
        proof {
            assert(all.take(i + 1).drop_last() =~= all.take(i as int));
            assert(all.take(i + 1).last() == merged@[i as int]@);
        }
        if let Some(n) = &merged[i].name {
            if same(lower_str(n.as_str()).as_str(), name) {
                out.push(i);
                assert(out@.map_values(pick) =~= before.push(all[i as int]));
            }
        }
        i += 1;
    }
    assert(all.take(all.len() as int) =~= all);
    assert(out@.map_values(|i: usize| founds(merged@)[i as int]) =~= out@.map_values(pick));
    out
}

fn differ(a: &BreakpointDiscovery, b: &BreakpointDiscovery) -> (r: bool)
    ensures
        r == disagree(a@, b@),
{
    if gap_between(a.width, b.width) <= CROSS_TOLERANCE as i128 {
        return false;
    }
    let same_declaration = same(a.source_file.as_str(), b.source_file.as_str()) && same(
        a.source.as_str(),
        b.source.as_str(),
    );
    !(same_declaration && a.edge != b.edge)
}

fn push_conflict(
    out: &mut Vec<Conflict>,
    name: String,
    a: &BreakpointDiscovery,
    b: &BreakpointDiscovery,
)
    ensures
        conflict_views(final(out)@) == conflict_views(old(out)@).push(
            ConflictFound { name: name@, left: side_of(a@), right: side_of(b@) },
        ),
{
    let ghost before = conflict_views(out@);
    let c = Conflict { name, left: side(a), right: side(b) };
    out.push(c);
    assert(conflict_views(out@) =~= before.push(c@));
}

fn add_name_conflicts(out: &mut Vec<Conflict>, merged: &Vec<BreakpointDiscovery>, name: &str)
    ensures
        ({
            let es = called(founds(merged@), name@);
            conflict_views(final(out)@) == conflict_views(old(out)@) + neighbour_conflicts(
                name@,
                es,
                es.len() as int,
            )
        }),
{
    let at = find_called(merged, name);
    let ghost es = called(founds(merged@), name@);
    let ghost had = conflict_views(out@);
    assert(es.len() == at@.len());
    let mut n: usize = 1;
    assert(had + neighbour_conflicts(name@, es, 1) =~= had);
    assert(had + neighbour_conflicts(name@, es, 0) =~= had);
    while n < at.len()
        invariant
            1 <= n,
            n <= at@.len() || (at@.len() == 0 && n == 1),
            es.len() == at@.len(),
            es == at@.map_values(|i: usize| founds(merged@)[i as int]),
            forall|k: int| 0 <= k < at@.len() ==> (#[trigger] at@[k]) < merged@.len(),
            conflict_views(out@) == had + neighbour_conflicts(name@, es, n as int),
        decreases at@.len() - n,
    {
        let ghost before = neighbour_conflicts(name@, es, n as int);
        let i: usize = at[n - 1];
        let j: usize = at[n];
        proof {
            assert(at@[n - 1] < merged@.len());
            assert(at@[n as int] < merged@.len());
            assert(es[n - 1] == merged@[i as int]@);
            assert(es[n as int] == merged@[j as int]@);
        }
        if differ(&merged[i], &merged[j]) {
            push_conflict(out, name.to_owned(), &merged[i], &merged[j]);
            proof {
                let c = ConflictFound {
                    name: name@,
                    left: side_of(es[n - 1]),
                    right: side_of(es[n as int]),
                };
                assert((had + before).push(c) =~= had + before.push(c));
            }
        }
        n += 1;
    }
    if at.len() == 0 {
        assert(neighbour_conflicts(name@, es, n as int) == neighbour_conflicts(name@, es, 0)) by {
            assert(n == 1);
        }
    }
}

fn misses(configured: &BreakpointDiscovery, css: &BreakpointDiscovery) -> (r: bool)
    ensures
        r == near_miss(configured@, css@),
{
    let g: i128 = gap_between(configured.width, css.width);
    configured.kind == Kind::Configured && css.kind == Kind::Css && g > CROSS_TOLERANCE as i128
        && 20 * g <= configured.width as i128 && g <= NEAR_MISS_CAP as i128 && css.file_count >= 2
}

fn flagged_already(flagged: &Vec<i64>, w: i64) -> (r: bool)
    ensures
        r == flagged@.contains(w),
{
    let mut i: usize = 0;
    while i < flagged.len()
        invariant
            i <= flagged@.len(),
            forall|k: int| 0 <= k < i ==> flagged@[k] != w,
        decreases flagged@.len() - i,
    {
        if flagged[i] == w {
            return true;
        }
        i += 1;
    }
    false
}

fn add_misses(
    out: &mut Vec<Conflict>,
    flagged: &mut Vec<i64>,
    configured: &BreakpointDiscovery,
    merged: &Vec<BreakpointDiscovery>,
    log: &mut ScanLog,
    Ghost(had): Ghost<Seq<ConflictFound>>,
    Ghost(st): Ghost<NearMisses>,
    Ghost(start): Ghost<super::log::Logged>,
)
    requires
        conflict_views(old(out)@) == had + st.conflicts,
        old(flagged)@ == st.flagged,
        old(log)@ == start.with(st.events),
    ensures
        ({
            let r = misses_of(st, configured@, founds(merged@), merged@.len() as int);
            &&& conflict_views(final(out)@) == had + r.conflicts
            &&& final(flagged)@ == r.flagged
            &&& final(log)@ == start.with(r.events)
        }),
{
    let ghost all = founds(merged@);
    let mut i: usize = 0;
    while i < merged.len()
        invariant
            i <= merged@.len(),
            all == founds(merged@),
            conflict_views(out@) == had + misses_of(st, configured@, all, i as int).conflicts,
            flagged@ == misses_of(st, configured@, all, i as int).flagged,
            log@ == start.with(misses_of(st, configured@, all, i as int).events),
        decreases merged@.len() - i,
    {
        let css = &merged[i];
        let ghost before = misses_of(st, configured@, all, i as int);
        assert(all[i as int] == css@);
        if !flagged_already(flagged, css.width) && misses(configured, css) {
            flagged.push(css.width);
            let mut message = "css lays out at ".to_owned();
            message.append(px_string(css.width).as_str());
            message.append("px where the config says ");
            message.append(px_string(configured.width).as_str());
            message.append("px");
            log.note(message.as_str());
            let name = match &configured.name {
                Some(n) => n.as_str().to_owned(),
                None => {
                    let mut n = px_string(configured.width);
                    n.append("px");
                    n
                },
            };
            push_conflict(out, name, configured, css);
            proof {
                let e = Event::Note { message: message@ };
                super::log::lemma_with_with(start, before.events, seq![e]);
                assert(before.events + seq![e] =~= before.events.push(e));
                let c = ConflictFound {
                    name: name@,
                    left: side_of(configured@),
                    right: side_of(css@),
                };
                assert((had + before.conflicts).push(c) =~= had + before.conflicts.push(c));
            }
        }
        i += 1;
    }
}

/// A conflict is two sources disagreeing about the same named breakpoint, or a
/// stylesheet that lays out at a width close to but not the same as the one the
/// framework declares. Both are worth a question, neither is worth a guess.
pub fn find_conflicts(merged: &Vec<BreakpointDiscovery>, log: &mut ScanLog) -> (r: Vec<Conflict>)
    ensures
        conflict_views(r@) == conflicts_in(founds(merged@)),
        final(log)@ == old(log)@.with(
            misses_in(founds(merged@), merged@.len() as int).events,
        ),
{
    let ghost all = founds(merged@);
    let names = list_names(merged);
    let ghost ns = names_used(all);
    assert(ns.len() == names@.len());
    let mut out: Vec<Conflict> = Vec::new();
    let mut i: usize = 0;
    assert(conflict_views(out@) =~= name_conflicts(all, ns, 0));
    while i < names.len()
        invariant
            i <= names@.len(),
            all == founds(merged@),
            ns == keyed(names@),
            conflict_views(out@) == name_conflicts(all, ns, i as int),
        decreases names@.len() - i,
    {
        assert(ns[i as int].0 == names@[i as int].0@);
        add_name_conflicts(&mut out, merged, names[i].0.as_str());
        i += 1;
    }
    let ghost had = conflict_views(out@);
    let ghost start = log@;
    let mut flagged: Vec<i64> = Vec::new();
    i = 0;
    proof {
        assert(had + misses_in(all, 0).conflicts =~= had);
        assert(start.with(Seq::empty()) =~= start);
    }
    while i < merged.len()
        invariant
            i <= merged@.len(),
            all == founds(merged@),
            conflict_views(out@) == had + misses_in(all, i as int).conflicts,
            flagged@ == misses_in(all, i as int).flagged,
            log@ == start.with(misses_in(all, i as int).events),
        decreases merged@.len() - i,
    {
        assert(all[i as int] == merged@[i as int]@);
        add_misses(
            &mut out,
            &mut flagged,
            &merged[i],
            merged,
            log,
            Ghost(had),
            Ghost(misses_in(all, i as int)),
            Ghost(start),
        );
        i += 1;
    }
    out
}

/// Collapse the same width found by several detectors down to one entry, best
/// source winning, and record where two sources disagree.
pub fn merge(found: Vec<BreakpointDiscovery>, log: &mut ScanLog) -> (r: (
    Vec<BreakpointDiscovery>,
    Vec<Conflict>,
))
    ensures
        founds(r.0@) == merged_widths(founds(found@)),
        conflict_views(r.1@) == conflicts_in(merged_widths(founds(found@))),
        final(log)@ == old(log)@.with(
            misses_in(
                merged_widths(founds(found@)),
                merged_widths(founds(found@)).len() as int,
            ).events,
        ),
{
    let ghost raw = founds(found@);
    let groups = group(sort_by_width(found));
    let ghost gs = found_groups(groups@);
    let mut merged: Vec<BreakpointDiscovery> = Vec::new();
    let mut i: usize = 0;
    let ghost all = gs.map_values(|g: Seq<Found>| merged_group(g));
    assert(founds(merged@) =~= all.take(0));
    while i < groups.len()
        invariant
            i <= groups@.len(),
            gs == found_groups(groups@),
            all == gs.map_values(|g: Seq<Found>| merged_group(g)),
            forall|k: int| 0 <= k < groups@.len() ==> (#[trigger] groups@[k])@.len() > 0,
            founds(merged@) == all.take(i as int),
        decreases groups@.len() - i,
    {
        let ghost before = founds(merged@);
        let b = merge_group(&groups[i]);
        assert(gs[i as int] == founds(groups@[i as int]@));
        merged.push(b);
        assert(founds(merged@) =~= before.push(b@));
        assert(founds(merged@) =~= all.take(i + 1));
        i += 1;
    }
    assert(all.take(all.len() as int) =~= all);
    assert(founds(merged@).len() == merged@.len());
    let conflicts = find_conflicts(&merged, log);
    (merged, conflicts)
}

/// How many of these widths came from `file`.
pub open spec fn count_from(merged: Seq<Found>, file: Seq<char>) -> nat
    decreases merged.len(),
{
    if merged.len() == 0 {
        0
    } else {
        count_from(merged.drop_last(), file) + if merged.last().source_file == file {
            1nat
        } else {
            0nat
        }
    }
}

fn count_file(merged: &Vec<BreakpointDiscovery>, file: &str) -> (r: usize)
    ensures
        r == count_from(founds(merged@), file@),
{
    let ghost all = founds(merged@);
    let mut n: usize = 0;
    let mut i: usize = 0;
    assert(all.take(0) =~= Seq::<Found>::empty());
    while i < merged.len()
        invariant
            n <= i <= merged@.len(),
            all == founds(merged@),
            n == count_from(all.take(i as int), file@),
        decreases merged@.len() - i,
    {
        proof {
            assert(all.take(i + 1).drop_last() =~= all.take(i as int));
            assert(all.take(i + 1).last() == merged@[i as int]@);
        }
        if same(merged[i].source_file.as_str(), file) {
            n += 1;
        }
        i += 1;
    }
    assert(all.take(all.len() as int) =~= all);
    n
}

/// Whether `file` is the one to name: it gave some of the widths, and no other
/// file gave more of them, or as many under a name that comes first.
pub open spec fn names_the_source(merged: Seq<Found>, file: Seq<char>) -> bool {
    &&& file.len() > 0
    &&& exists|i: int| 0 <= i < merged.len() && (#[trigger] merged[i]).source_file == file
    &&& forall|i: int|
        0 <= i < merged.len() && (#[trigger] merged[i]).source_file.len() > 0 ==> {
            ||| count_from(merged, merged[i].source_file) < count_from(merged, file)
            ||| count_from(merged, merged[i].source_file) == count_from(merged, file)
                && !crate::order::text_below(merged[i].source_file, file)
        }
}

pub open spec fn no_files_named(merged: Seq<Found>) -> bool {
    forall|i: int| 0 <= i < merged.len() ==> (#[trigger] merged[i]).source_file.len() == 0
}

/// There is at most one file to name, so the answer does not move between runs
/// of the same scan.
pub proof fn the_source_named_is_one(merged: Seq<Found>, a: Seq<char>, b: Seq<char>)
    requires
        names_the_source(merged, a),
        names_the_source(merged, b),
    ensures
        a == b,
{
    let i = choose|i: int| 0 <= i < merged.len() && (#[trigger] merged[i]).source_file == a;
    let j = choose|j: int| 0 <= j < merged.len() && (#[trigger] merged[j]).source_file == b;
    assert(merged[i].source_file == a && merged[j].source_file == b);
    crate::order::lemma_text_below(a, b, a);
}

/// Which file to name when talking about where the breakpoints came from.
///
/// The file that produced the most of them wins. A tie breaks on the name, so
/// the answer does not move between runs of the same scan.
pub fn breakpoint_source_file(
    merged: &Vec<BreakpointDiscovery>,
    found: &Vec<FrameworkDetection>,
) -> (r: String)
    ensures
        if no_files_named(founds(merged@)) {
            r@ == if found@.len() > 0 {
                frameworks(found@)[0].source_file
            } else {
                "css media queries"@
            }
        } else {
            names_the_source(founds(merged@), r@)
        },
{
    let ghost all = founds(merged@);
    let mut best: Option<usize> = None;
    let mut i: usize = 0;
    while i < merged.len()
        invariant
            i <= merged@.len(),
            all == founds(merged@),
            match best {
                None => forall|k: int|
                    0 <= k < i ==> (#[trigger] all[k]).source_file.len() == 0,
                Some(b) => b < i && all[b as int].source_file.len() > 0 && forall|k: int|
                    0 <= k < i && (#[trigger] all[k]).source_file.len() > 0 ==> {
                        ||| count_from(all, all[k].source_file) < count_from(
                            all,
                            all[b as int].source_file,
                        )
                        ||| count_from(all, all[k].source_file) == count_from(
                            all,
                            all[b as int].source_file,
                        ) && !crate::order::text_below(
                            all[k].source_file,
                            all[b as int].source_file,
                        )
                    },
            },
        decreases merged@.len() - i,
    {
        let file = merged[i].source_file.as_str();
        assert(all[i as int].source_file == file@);
        if !file.is_empty() {
            match best {
                None => {
                    best = Some(i);
                    proof {
                        crate::order::lemma_text_below(file@, file@, file@);
                    }
                },
                Some(b) => {
                    let old_file = merged[b].source_file.as_str();
                    assert(all[b as int].source_file == old_file@);
                    let n: usize = count_file(merged, file);
                    let m: usize = count_file(merged, old_file);
                    proof {
                        crate::order::lemma_text_below(file@, file@, file@);
                        crate::order::lemma_text_below(file@, old_file@, file@);
                    }
                    if n > m || (n == m && crate::order::text_less(file, old_file)) {
                        proof {
                            assert forall|k: int|
                                0 <= k < i + 1 && (#[trigger] all[k]).source_file.len()
                                    > 0 implies {
                                ||| count_from(all, all[k].source_file) < count_from(all, file@)
                                ||| count_from(all, all[k].source_file) == count_from(all, file@)
                                    && !crate::order::text_below(all[k].source_file, file@)
                            } by {
                                crate::order::lemma_text_below(
                                    all[k].source_file,
                                    old_file@,
                                    file@,
                                );
                                crate::order::lemma_text_below(
                                    file@,
                                    all[k].source_file,
                                    old_file@,
                                );
                                crate::order::lemma_text_below(
                                    old_file@,
                                    file@,
                                    all[k].source_file,
                                );
                            }
                        }
                        best = Some(i);
                    }
                },
            }
        }
        i += 1;
    }
    match best {
        Some(b) => {
            assert(all[b as int].source_file == merged@[b as int].source_file@);
            merged[b].source_file.as_str().to_owned()
        },
        None => {
            if found.len() > 0 {
                assert(frameworks(found@)[0] == found@[0]@);
                found[0].source_file.as_str().to_owned()
            } else {
                "css media queries".to_owned()
            }
        },
    }
}

/// What the groups of a rising list are: none is empty, each holds widths
/// within two pixels of its first, and between them they hold the list.
#[verifier::opaque]
spec fn well_grouped(s: Seq<Found>, g: Seq<Seq<Found>>) -> bool {
    &&& forall|a: int| 0 <= a < g.len() ==> (#[trigger] g[a]).len() > 0
    &&& forall|a: int, b: int|
        0 <= a < g.len() && 0 <= b < g[a].len() ==> s.contains(#[trigger] g[a][b]) && 0
            <= g[a][b].width - g[a][0].width <= 2_000_000
    &&& forall|x: Found| #[trigger]
        s.contains(x) ==> exists|a: int| 0 <= a < g.len() && (#[trigger] g[a]).contains(x)
}

proof fn lemma_grouped_join(s: Seq<Found>, before: Seq<Seq<Found>>)
    requires
        s.len() > 0,
        before.len() > 0,
        well_grouped(s.drop_last(), before),
        forall|k: int| 0 <= k < s.len() ==> (#[trigger] s[k]).width <= s.last().width,
        s.last().width - before.last()[0].width <= 2_000_000,
    ensures
        well_grouped(s, before.drop_last().push(before.last().push(s.last()))),
{
    reveal(well_grouped);
    let d = s.drop_last();
    let o = s.last();
    let last = before.last();
    let n = before.len() - 1;
    let g = before.drop_last().push(last.push(o));
    assert(last == before[n]);
    assert(g[n] == last.push(o));
    assert(s[s.len() - 1] == o);
    assert forall|a: int| 0 <= a < n implies #[trigger] g[a] == before[a] by {}
    assert forall|a: int, b: int| 0 <= a < g.len() && 0 <= b < g[a].len() implies s.contains(
        #[trigger] g[a][b],
    ) && 0 <= g[a][b].width - g[a][0].width <= 2_000_000 by {
        if a < n || b < last.len() {
            assert(g[a][b] == before[a][b] && g[a][0] == before[a][0]);
            assert(d.contains(before[a][b]));
            assert(s[d.index_of(before[a][b])] == g[a][b]);
        } else {
            assert(g[a][b] == o && g[a][0] == before[n][0]);
            assert(d.contains(before[n][0]));
            assert(s[d.index_of(before[n][0])].width <= o.width);
        }
    }
    assert forall|x: Found| #[trigger] s.contains(x) implies exists|a: int|
        0 <= a < g.len() && (#[trigger] g[a]).contains(x) by {
        let i = s.index_of(x);
        if i == s.len() - 1 {
            assert(g[n][last.len() as int] == x);
            assert(g[n].contains(x));
        } else {
            assert(d[i] == x);
            assert(d.contains(x));
            let a = choose|a: int| 0 <= a < before.len() && (#[trigger] before[a]).contains(x);
            assert(g[a][before[a].index_of(x)] == x);
            assert(g[a].contains(x));
        }
    }
}

proof fn lemma_grouped_new(s: Seq<Found>, before: Seq<Seq<Found>>)
    requires
        s.len() > 0,
        well_grouped(s.drop_last(), before),
    ensures
        well_grouped(s, before.push(seq![s.last()])),
{
    reveal(well_grouped);
    let d = s.drop_last();
    let o = s.last();
    let n = before.len() as int;
    let g = before.push(seq![o]);
    assert(g[n] == seq![o]);
    assert(s[s.len() - 1] == o);
    assert forall|a: int| 0 <= a < n implies #[trigger] g[a] == before[a] by {}
    assert forall|a: int, b: int| 0 <= a < g.len() && 0 <= b < g[a].len() implies s.contains(
        #[trigger] g[a][b],
    ) && 0 <= g[a][b].width - g[a][0].width <= 2_000_000 by {
        if a < n {
            assert(g[a][b] == before[a][b] && g[a][0] == before[a][0]);
            assert(d.contains(before[a][b]));
            assert(s[d.index_of(before[a][b])] == g[a][b]);
        }
    }
    assert forall|x: Found| #[trigger] s.contains(x) implies exists|a: int|
        0 <= a < g.len() && (#[trigger] g[a]).contains(x) by {
        let i = s.index_of(x);
        if i == s.len() - 1 {
            assert(g[n][0] == x);
            assert(g[n].contains(x));
        } else {
            assert(d[i] == x);
            assert(d.contains(x));
            let a = choose|a: int| 0 <= a < before.len() && (#[trigger] before[a]).contains(x);
            assert(g[a].contains(x));
        }
    }
}

proof fn lemma_grouped(s: Seq<Found>)
    requires
        forall|i: int, j: int|
            0 <= i < j < s.len() ==> (#[trigger] s[i]).width <= (#[trigger] s[j]).width,
    ensures
        well_grouped(s, grouped(s)),
    decreases s.len(),
{
    reveal(well_grouped);
    if s.len() > 0 {
        let d = s.drop_last();
        assert forall|i: int, j: int| 0 <= i < j < d.len() implies (#[trigger] d[i]).width <= (
        #[trigger] d[j]).width by {
            assert(d[i] == s[i] && d[j] == s[j]);
        }
        lemma_grouped(d);
        let before = grouped(d);
        if before.len() > 0 {
            let n = before.len() - 1;
            assert(d.contains(before[n][0]));
            assert(s[d.index_of(before[n][0])] == before[n][0]);
        }
        if before.len() > 0 && gap(s.last().width as int, before.last()[0].width as int)
            <= CROSS_TOLERANCE {
            lemma_grouped_join(s, before);
        } else {
            lemma_grouped_new(s, before);
        }
    }
}

/// Merging loses no width: every one found is in the merged list, itself or by
/// one within two pixels of it from a source at least as deliberate, so what a
/// project configured stays configured.
pub proof fn every_width_found_is_merged(found: Seq<Found>)
    ensures
        forall|k: int|
            0 <= k < found.len() ==> exists|j: int|
                0 <= j < merged_widths(found).len() && -2_000_000 <= (
                #[trigger] merged_widths(found)[j]).width - (#[trigger] found[k]).width
                    <= 2_000_000 && merged_widths(found)[j].file_count >= found[k].file_count && (
                found[k].kind == Kind::Configured ==> merged_widths(found)[j].kind
                    == Kind::Configured) && (found[k].kind == Kind::Framework ==> merged_widths(
                    found,
                )[j].kind == Kind::Configured || merged_widths(found)[j].kind == Kind::Framework)
                    && (found[k].kind == Kind::Css ==> merged_widths(found)[j].kind
                    != Kind::Inferred),
        merged_widths(found).len() > 0 <==> found.len() > 0,
{
    lemma_merged(found);
    let s = by_width(found);
    let g = grouped(s);
    let m = merged_widths(found);
    assert forall|k: int| 0 <= k < found.len() implies exists|j: int|
        0 <= j < m.len() && -2_000_000 <= (#[trigger] m[j]).width - (#[trigger] found[k]).width
            <= 2_000_000 && m[j].file_count >= found[k].file_count && (found[k].kind
            == Kind::Configured ==> m[j].kind == Kind::Configured) && (found[k].kind
            == Kind::Framework ==> m[j].kind == Kind::Configured || m[j].kind == Kind::Framework)
            && (found[k].kind == Kind::Css ==> m[j].kind != Kind::Inferred) by {
        let x = found[k];
        assert(found.contains(x));
        assert(s.contains(x));
        let (a, b) = lemma_some_group(s, g, x);
        lemma_one_group(s, g, a, b);
        assert(m[a] == merged_group(g[a]));
    }
    if found.len() > 0 {
        assert(found[0] == found[0]);
    } else {
        assert(s =~= Seq::<Found>::empty());
    }
}

/// Every width in the merged list was found, in a file that the list names, and
/// the list rises, so no width is in it twice.
pub proof fn no_width_is_made_up(found: Seq<Found>)
    ensures
        forall|j: int|
            0 <= j < merged_widths(found).len() ==> exists|k: int|
                0 <= k < found.len() && (#[trigger] found[k]).width == (
                #[trigger] merged_widths(found)[j]).width && found[k].kind == merged_widths(
                    found,
                )[j].kind && found[k].source_file == merged_widths(found)[j].source_file,
        forall|i: int, j: int|
            0 <= i < j < merged_widths(found).len() ==> (#[trigger] merged_widths(found)[i]).width
                < (#[trigger] merged_widths(found)[j]).width,
{
    lemma_merged(found);
    let s = by_width(found);
    let g = grouped(s);
    let m = merged_widths(found);
    assert forall|j: int| 0 <= j < m.len() implies exists|k: int|
        0 <= k < found.len() && (#[trigger] found[k]).width == (#[trigger] m[j]).width
            && found[k].kind == m[j].kind && found[k].source_file == m[j].source_file by {
        assert(m[j] == merged_group(g[j]));
        lemma_groups_rise(s, j, j);
        lemma_one_group(s, g, j, 0);
        let x = winner(g[j]);
        assert(s.contains(x));
        let k = found.index_of(x);
        assert(found[k].width == m[j].width);
    }
    assert forall|i: int, j: int| 0 <= i < j < m.len() implies (#[trigger] m[i]).width < (
    #[trigger] m[j]).width by {
        assert(m[i] == merged_group(g[i]) && m[j] == merged_group(g[j]));
        lemma_groups_rise(s, i, j);
        lemma_one_group(s, g, i, 0);
        lemma_one_group(s, g, j, 0);
    }
}

proof fn lemma_merged(found: Seq<Found>)
    ensures
        well_grouped(by_width(found), grouped(by_width(found))),
        forall|x: Found| #[trigger] by_width(found).contains(x) <==> found.contains(x),
        forall|i: int, j: int|
            0 <= i < j < by_width(found).len() ==> (#[trigger] by_width(found)[i]).width <= (
            #[trigger] by_width(found)[j]).width,
{
    let lt = |a: Found, b: Found| super::tailwind::narrower_found(a, b);
    assert(crate::order::ranks(lt));
    crate::order::sorting_is_ordered_and_complete(found, lt);
    let s = by_width(found);
    assert forall|i: int, j: int| 0 <= i < j < s.len() implies (#[trigger] s[i]).width <= (
    #[trigger] s[j]).width by {
        assert(!lt(s[j], s[i]));
    }
    lemma_grouped(s);
    assert forall|x: Found| #[trigger] s.contains(x) <==> found.contains(x) by {
        crate::order::lemma_sorted_keeps(found, lt, x);
    }
}

proof fn lemma_some_group(s: Seq<Found>, g: Seq<Seq<Found>>, x: Found) -> (at: (int, int))
    requires
        well_grouped(s, g),
        s.contains(x),
    ensures
        0 <= at.0 < g.len(),
        0 <= at.1 < g[at.0].len(),
        g[at.0][at.1] == x,
{
    reveal(well_grouped);
    let a = choose|a: int| 0 <= a < g.len() && (#[trigger] g[a]).contains(x);
    (a, g[a].index_of(x))
}

/// The first of a group is past the first of every group before it by more
/// than two pixels.
proof fn lemma_groups_rise(s: Seq<Found>, i: int, j: int)
    requires
        forall|i: int, j: int|
            0 <= i < j < s.len() ==> (#[trigger] s[i]).width <= (#[trigger] s[j]).width,
        0 <= i <= j < grouped(s).len(),
    ensures
        grouped(s)[i].len() > 0,
        grouped(s)[j].len() > 0,
        i < j ==> grouped(s)[j][0].width - grouped(s)[i][0].width > 2_000_000,
    decreases s.len(),
{
    let d = s.drop_last();
    let before = grouped(d);
    let g = grouped(s);
    let n = before.len() as int;
    assert forall|i: int, j: int| 0 <= i < j < d.len() implies (#[trigger] d[i]).width <= (
    #[trigger] d[j]).width by {
        assert(d[i] == s[i] && d[j] == s[j]);
    }
    if n > 0 {
        lemma_grouped(d);
        lemma_groups_rise(d, n - 1, n - 1);
        lemma_one_group(d, before, n - 1, 0);
        assert(before[n - 1] == before.last());
        lemma_some_width(d, before, n - 1);
        if j < n {
            lemma_groups_rise(d, i, j);
        } else if i < n {
            lemma_groups_rise(d, i, n - 1);
        }
    }
}

proof fn lemma_some_width(s: Seq<Found>, g: Seq<Seq<Found>>, a: int)
    requires
        well_grouped(s, g),
        0 <= a < g.len(),
    ensures
        exists|k: int| 0 <= k < s.len() && #[trigger] s[k] == g[a][0],
{
    reveal(well_grouped);
    assert(s.contains(g[a][0]));
    assert(s[s.index_of(g[a][0])] == g[a][0]);
}

proof fn lemma_one_group(s: Seq<Found>, g: Seq<Seq<Found>>, a: int, b: int)
    requires
        well_grouped(s, g),
        0 <= a < g.len(),
        0 <= b < g[a].len(),
    ensures
        ({
            let m = merged_group(g[a]);
            let x = g[a][b];
            &&& s.contains(winner(g[a]))
            &&& m.width == winner(g[a]).width && m.kind == winner(g[a]).kind && m.source_file
                == winner(g[a]).source_file
            &&& 0 <= m.width - g[a][0].width <= 2_000_000
            &&& -2_000_000 <= m.width - x.width <= 2_000_000
            &&& m.file_count >= x.file_count
            &&& kind_rank(m.kind) >= kind_rank(x.kind)
        }),
{
    reveal(well_grouped);
    lemma_winner(g[a]);
    let c = g[a].index_of(winner(g[a]));
    assert(g[a][c] == winner(g[a]));
    assert(s.contains(g[a][c]));
    assert(s.contains(g[a][b]));
    assert(wins(winner(g[a]), g[a][b]));
    lemma_most_files(g[a], b);
}

/// When a stylesheet's width is asked about: it is used in two files or more,
/// and is over two pixels but no more than thirty-two, and no more than a
/// twentieth of the configured width, away from one that was configured.
pub proof fn a_near_miss_is_near_and_a_miss(configured: Found, css: Found)
    ensures
        ({
            let apart = if configured.width > css.width {
                configured.width - css.width
            } else {
                css.width - configured.width
            };
            near_miss(configured, css) <==> configured.kind == Kind::Configured && css.kind
                == Kind::Css && css.file_count >= 2 && 2_000_000 < apart <= 32_000_000 && 20
                * apart <= configured.width
        }),
{
}

/// Every stylesheet width that nearly misses a configured one is asked about,
/// and nothing else is.
pub proof fn every_near_miss_is_asked_about(merged: Seq<Found>, w: i64)
    ensures
        misses_in(merged, merged.len() as int).flagged.contains(w) <==> exists|i: int, j: int|
            0 <= i < merged.len() && 0 <= j < merged.len() && near_miss(
                #[trigger] merged[i],
                #[trigger] merged[j],
            ) && merged[j].width == w,
        misses_in(merged, merged.len() as int).conflicts.len() == misses_in(
            merged,
            merged.len() as int,
        ).flagged.len(),
        forall|k: int|
            0 <= k < misses_in(merged, merged.len() as int).conflicts.len() ==> (
            #[trigger] misses_in(merged, merged.len() as int).conflicts[k]).right.width
                == misses_in(merged, merged.len() as int).flagged[k],
{
    lemma_all_misses(merged, merged.len() as int, w);
}

proof fn lemma_misses_of(st: NearMisses, configured: Found, merged: Seq<Found>, n: int, w: i64)
    requires
        0 <= n <= merged.len(),
        st.conflicts.len() == st.flagged.len(),
        forall|k: int|
            0 <= k < st.conflicts.len() ==> (#[trigger] st.conflicts[k]).right.width
                == st.flagged[k],
    ensures
        ({
            let r = misses_of(st, configured, merged, n);
            &&& r.conflicts.len() == r.flagged.len()
            &&& forall|k: int|
                0 <= k < r.conflicts.len() ==> (#[trigger] r.conflicts[k]).right.width
                    == r.flagged[k]
            &&& r.flagged.contains(w) <==> st.flagged.contains(w) || exists|j: int|
                0 <= j < n && near_miss(configured, #[trigger] merged[j]) && merged[j].width == w
        }),
    decreases n,
{
    if n > 0 {
        lemma_misses_of(st, configured, merged, n - 1, w);
        let before = misses_of(st, configured, merged, n - 1);
        let r = misses_of(st, configured, merged, n);
        let css = merged[n - 1];
        if near_miss(configured, css) && !before.flagged.contains(css.width) {
            assert(r.flagged == before.flagged.push(css.width));
            assert(r.flagged[before.flagged.len() as int] == css.width);
            if before.flagged.contains(w) {
                assert(r.flagged[before.flagged.index_of(w)] == w);
            }
            if r.flagged.contains(w) && w != css.width {
                assert(before.flagged[r.flagged.index_of(w)] == w);
            }
            assert forall|k: int| 0 <= k < r.conflicts.len() implies (
            #[trigger] r.conflicts[k]).right.width == r.flagged[k] by {
                if k < before.conflicts.len() {
                    assert(r.conflicts[k] == before.conflicts[k]);
                }
            }
        } else {
            assert(r == before);
        }
    }
}

proof fn lemma_all_misses(merged: Seq<Found>, n: int, w: i64)
    requires
        0 <= n <= merged.len(),
    ensures
        ({
            let r = misses_in(merged, n);
            &&& r.conflicts.len() == r.flagged.len()
            &&& forall|k: int|
                0 <= k < r.conflicts.len() ==> (#[trigger] r.conflicts[k]).right.width
                    == r.flagged[k]
            &&& r.flagged.contains(w) <==> exists|i: int, j: int|
                0 <= i < n && 0 <= j < merged.len() && near_miss(
                    #[trigger] merged[i],
                    #[trigger] merged[j],
                ) && merged[j].width == w
        }),
    decreases n,
{
    if n > 0 {
        lemma_all_misses(merged, n - 1, w);
        lemma_misses_of(
            misses_in(merged, n - 1),
            merged[n - 1],
            merged,
            merged.len() as int,
            w,
        );
    }
}

proof fn lemma_called(merged: Seq<Found>, name: Seq<char>)
    ensures
        called(merged, name) == merged.filter(
            |f: Found| f.name matches Some(n) && lowered(n) == name,
        ),
    decreases merged.len(),
{
    reveal(Seq::filter);
    if merged.len() > 0 {
        lemma_called(merged.drop_last(), name);
    }
}

proof fn lemma_name_used(merged: Seq<Found>, i: int)
    requires
        0 <= i < merged.len(),
        merged[i].name is Some,
    ensures
        exists|k: int|
            0 <= k < names_used(merged).len() && (#[trigger] names_used(merged)[k]).0 == lowered(
                merged[i].name->0,
            ),
    decreases merged.len(),
{
    let d = merged.drop_last();
    let name = lowered(merged[i].name->0);
    let before = names_used(d);
    if i < d.len() {
        assert(d[i] == merged[i]);
        lemma_name_used(d, i);
        if let Some(n) = merged.last().name {
            let k = choose|k: int| 0 <= k < before.len() && (#[trigger] before[k]).0 == name;
            crate::table::lemma_put_keys(before, lowered(n), true, false, name);
            assert(before[k].0 == name);
            let r = put(before, lowered(n), true, false);
            let j = choose|j: int| 0 <= j < r.len() && (#[trigger] r[j]).0 == name;
            assert(names_used(merged)[j].0 == name);
        } else {
            assert(names_used(merged) == before);
        }
    } else {
        assert(merged.last() == merged[i]);
        crate::table::lemma_put_keys(before, name, true, false, name);
        let r = put(before, name, true, false);
        assert(names_used(merged) == r);
        let j = choose|j: int| 0 <= j < r.len() && (#[trigger] r[j]).0 == name;
        assert(names_used(merged)[j].0 == name);
    }
}

proof fn lemma_neighbours(name: Seq<char>, es: Seq<Found>, n: int, k: int)
    requires
        0 <= k,
        k + 1 < n <= es.len(),
        disagree(es[k], es[k + 1]),
    ensures
        neighbour_conflicts(name, es, n).contains(
            (ConflictFound { name, left: side_of(es[k]), right: side_of(es[k + 1]) }),
        ),
    decreases n,
{
    let c = ConflictFound { name, left: side_of(es[k]), right: side_of(es[k + 1]) };
    let r = neighbour_conflicts(name, es, n);
    if k + 2 < n {
        lemma_neighbours(name, es, n - 1, k);
        let before = neighbour_conflicts(name, es, n - 1);
        assert(r[before.index_of(c)] == c);
    } else {
        assert(r.last() == c);
    }
}

proof fn lemma_name_conflicts(
    merged: Seq<Found>,
    names: Seq<(Seq<char>, bool)>,
    n: int,
    k: int,
    c: ConflictFound,
)
    requires
        0 <= k < n <= names.len(),
        ({
            let es = called(merged, names[k].0);
            neighbour_conflicts(names[k].0, es, es.len() as int).contains(c)
        }),
    ensures
        name_conflicts(merged, names, n).contains(c),
    decreases n,
{
    let r = name_conflicts(merged, names, n);
    let before = name_conflicts(merged, names, n - 1);
    let es = called(merged, names[n - 1].0);
    let more = neighbour_conflicts(names[n - 1].0, es, es.len() as int);
    if k == n - 1 {
        assert(r[before.len() + more.index_of(c)] == c);
    } else {
        lemma_name_conflicts(merged, names, n - 1, k, c);
        assert(r[before.index_of(c)] == c);
    }
}

/// Two neighbours among the breakpoints of one name, in whatever case it is
/// written, are a conflict when they are more than two pixels apart and are not
/// the two edges of one declaration.
pub proof fn one_name_at_two_widths_is_a_conflict(merged: Seq<Found>, i: int, k: int)
    requires
        0 <= i < merged.len(),
        merged[i].name is Some,
        ({
            let es = merged.filter(
                |f: Found| f.name matches Some(n) && lowered(n) == lowered(merged[i].name->0),
            );
            &&& 0 <= k
            &&& k + 1 < es.len()
            &&& es[k].width - es[k + 1].width > 2_000_000 || es[k + 1].width - es[k].width
                > 2_000_000
            &&& es[k].source_file != es[k + 1].source_file || es[k].source != es[k + 1].source
                || es[k].edge == es[k + 1].edge
        }),
    ensures
        ({
            let es = merged.filter(
                |f: Found| f.name matches Some(n) && lowered(n) == lowered(merged[i].name->0),
            );
            exists|c: ConflictFound| #[trigger]
                conflicts_in(merged).contains(c) && c.name == lowered(merged[i].name->0)
                    && c.left.width == es[k].width && c.left.source_file == es[k].source_file
                    && c.right.width == es[k + 1].width && c.right.source_file == es[k
                    + 1].source_file
        }),
{
    let name = lowered(merged[i].name->0);
    lemma_called(merged, name);
    let es = called(merged, name);
    let is = |f: Found| f.name matches Some(n) && lowered(n) == lowered(merged[i].name->0);
    assert(es == merged.filter(is));
    lemma_name_used(merged, i);
    let names = names_used(merged);
    let m = choose|m: int| 0 <= m < names.len() && (#[trigger] names[m]).0 == name;
    lemma_neighbours(name, es, es.len() as int, k);
    let c = ConflictFound { name, left: side_of(es[k]), right: side_of(es[k + 1]) };
    lemma_name_conflicts(merged, names, names.len() as int, m, c);
    let first = name_conflicts(merged, names, names.len() as int);
    assert(conflicts_in(merged)[first.index_of(c)] == c);
    assert(conflicts_in(merged).contains(c));
}

/// The file named as the source of the breakpoints gave more of them than any
/// other, or as many.
pub proof fn the_source_named_gave_the_most(merged: Seq<Found>, file: Seq<char>, other: Seq<char>)
    requires
        names_the_source(merged, file),
        other.len() > 0,
    ensures
        merged.filter(|f: Found| f.source_file == other).len() <= merged.filter(
            |f: Found| f.source_file == file,
        ).len(),
        merged.filter(|f: Found| f.source_file == file).len() > 0,
{
    lemma_count_from(merged, file);
    lemma_count_from(merged, other);
    let from = |f: Found| f.source_file == other;
    let mine = |f: Found| f.source_file == file;
    let i = choose|i: int| 0 <= i < merged.len() && (#[trigger] merged[i]).source_file == file;
    merged.lemma_filter_contains(mine, i);
    if merged.filter(from).len() > 0 {
        let x = merged.filter(from)[0];
        merged.lemma_filter_pred(from, 0);
        assert(merged.filter(from).contains(x));
        merged.lemma_filter_contains_rev(from, x);
        let k = merged.index_of(x);
        assert(merged[k].source_file == other);
    }
}

proof fn lemma_count_from(merged: Seq<Found>, file: Seq<char>)
    ensures
        count_from(merged, file) == merged.filter(|f: Found| f.source_file == file).len(),
    decreases merged.len(),
{
    reveal(Seq::filter);
    if merged.len() > 0 {
        lemma_count_from(merged.drop_last(), file);
    }
}

} // verus!
