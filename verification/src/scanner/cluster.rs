//! Widths as stylesheets use them: seen in this many files, this many times,
//! and near neighbours taken for the one width their author meant.

use vstd::prelude::*;
use vstd::string::StringExecFns;
use crate::order::{ranks, sorted, stable_sort};
use crate::text::{clone_opt, decimal, listed, number_string, opt_view, plural, plural_of, texts};
use super::log::{Event, ScanLog};
use super::types::{founds, BreakpointDiscovery, Edge, Found, Kind, PX};
use super::units::{px_string, px_text};

verus! {

/// Two widths this close are the same decision written twice.
pub const CLUSTER_TOLERANCE: i64 = 2_000_000;

/// One width, and where it was seen.
#[derive(Debug)]
pub struct Occurrence {
    pub width: i64,
    pub edge: Edge,
    /// The files it was seen in, each once.
    pub files: Vec<String>,
    pub first_file: String,
    pub first_line: usize,
    pub occurrences: usize,
    /// The name the project gave this width, when it gave it one.
    pub name: Option<String>,
    /// True when the width came from a declared map of breakpoints rather than
    /// from counting media queries.
    pub declared: bool,
}

/// An [`Occurrence`], with its texts as characters.
#[verifier::ext_equal]
pub struct Seen {
    pub width: i64,
    pub edge: Edge,
    pub files: Seq<Seq<char>>,
    pub first_file: Seq<char>,
    pub first_line: usize,
    pub occurrences: usize,
    pub name: Option<Seq<char>>,
    pub declared: bool,
}

impl View for Occurrence {
    type V = Seen;

    open spec fn view(&self) -> Seen {
        Seen {
            width: self.width,
            edge: self.edge,
            files: texts(self.files@),
            first_file: self.first_file@,
            first_line: self.first_line,
            occurrences: self.occurrences,
            name: opt_view(self.name),
            declared: self.declared,
        }
    }
}

pub open spec fn seens(v: Seq<Occurrence>) -> Seq<Seen> {
    v.map_values(|o: Occurrence| o@)
}

/// How a width came to be seen.
pub enum Sighting {
    /// In a media query, on this side of it.
    Query(Edge),
    /// Under a name in a map of breakpoints.
    Named(String),
}

pub enum Sight {
    Query(Edge),
    Named(Seq<char>),
}

impl View for Sighting {
    type V = Sight;

    open spec fn view(&self) -> Sight {
        match *self {
            Sighting::Query(e) => Sight::Query(e),
            Sighting::Named(n) => Sight::Named(n@),
        }
    }
}

/// A list with `x` in it once.
pub open spec fn with_once(s: Seq<Seq<char>>, x: Seq<char>) -> Seq<Seq<char>> {
    if s.contains(x) {
        s
    } else {
        s.push(x)
    }
}

pub fn push_once(v: &mut Vec<String>, x: &str)
    ensures
        texts(final(v)@) == with_once(texts(old(v)@), x@),
{
    if !listed(v, x) {
        let ghost before = texts(v@);
        v.push(x.to_owned());
        assert(texts(v@) =~= before.push(x@));
    }
}

/// The sum of two counts, as far as a `usize` goes.
pub open spec fn total(a: usize, b: usize) -> usize {
    if a + b > usize::MAX {
        usize::MAX
    } else {
        (a + b) as usize
    }
}

fn add_counts(a: usize, b: usize) -> (r: usize)
    ensures
        r == total(a, b),
{
    if a > usize::MAX - b {
        usize::MAX
    } else {
        a + b
    }
}

/// A width after one more sighting of it in `file`.
///
/// A width that appears in a breakpoint map was chosen, not observed, and keeps
/// the first name it was given.
pub open spec fn seen_again(o: Seen, file: Seq<char>, how: Sight) -> Seen {
    let o1 = Seen {
        files: with_once(o.files, file),
        occurrences: total(o.occurrences, 1),
        ..o
    };
    match how {
        Sight::Query(Edge::Min) => Seen { edge: Edge::Min, ..o1 },
        Sight::Query(Edge::Max) => o1,
        Sight::Named(n) => Seen {
            name: if o.name is None && n.len() > 0 {
                Some(n)
            } else {
                o.name
            },
            declared: true,
            ..o1
        },
    }
}

/// The widths seen so far, narrowest first, after one more sighting. A width
/// not seen before starts as `fresh`.
pub open spec fn sighted(s: Seq<Seen>, fresh: Seen, file: Seq<char>, how: Sight) -> Seq<Seen>
    decreases s.len(),
{
    if s.len() == 0 {
        seq![seen_again(fresh, file, how)]
    } else if s.last().width == fresh.width {
        s.drop_last().push(seen_again(s.last(), file, how))
    } else if fresh.width < s.last().width {
        sighted(s.drop_last(), fresh, file, how).push(s.last())
    } else {
        s.push(seen_again(fresh, file, how))
    }
}

/// The widths are all different, and narrowest first.
pub open spec fn ascending(s: Seq<Seen>) -> bool {
    forall|i: int, j: int| 0 <= i < j < s.len() ==> #[trigger] s[i].width < #[trigger] s[j].width
}

pub open spec fn all_at_most(s: Seq<Seen>, w: int) -> bool {
    forall|i: int| 0 <= i < s.len() ==> (#[trigger] s[i]).width <= w
}

proof fn lemma_sighted_bound(s: Seq<Seen>, fresh: Seen, file: Seq<char>, how: Sight, w: int)
    requires
        all_at_most(s, w),
        fresh.width <= w,
    ensures
        all_at_most(sighted(s, fresh, file, how), w),
    decreases s.len(),
{
    if s.len() > 0 {
        let d = s.drop_last();
        assert(s.last() == s[s.len() - 1]);
        assert(all_at_most(d, w)) by {
            assert forall|i: int| 0 <= i < d.len() implies (#[trigger] d[i]).width <= w by {
                assert(d[i] == s[i]);
            }
        }
        lemma_sighted_bound(d, fresh, file, how, w);
    }
}

/// Widths a stylesheet can name.
pub open spec fn all_in_reach(s: Seq<Seen>) -> bool {
    forall|i: int| 0 <= i < s.len() ==> 0 <= (#[trigger] s[i]).width <= 10_001 * PX
}

pub proof fn lemma_sighted_in_reach(s: Seq<Seen>, fresh: Seen, file: Seq<char>, how: Sight)
    requires
        all_in_reach(s),
        0 <= fresh.width <= 10_001 * PX,
    ensures
        all_in_reach(sighted(s, fresh, file, how)),
    decreases s.len(),
{
    if s.len() > 0 {
        let d = s.drop_last();
        assert(s.last() == s[s.len() - 1]);
        assert(all_in_reach(d)) by {
            assert forall|i: int| 0 <= i < d.len() implies 0 <= (#[trigger] d[i]).width <= 10_001
                * PX by {
                assert(d[i] == s[i]);
            }
        }
        lemma_sighted_in_reach(d, fresh, file, how);
    }
}

/// However many sightings there are, one width is one entry.
pub proof fn sightings_keep_widths_apart(s: Seq<Seen>, fresh: Seen, file: Seq<char>, how: Sight)
    requires
        ascending(s),
    ensures
        ascending(sighted(s, fresh, file, how)),
    decreases s.len(),
{
    if s.len() == 0 {
    } else {
        let d = s.drop_last();
        assert(ascending(d)) by {
            assert forall|i: int, j: int| 0 <= i < j < d.len() implies #[trigger] d[i].width
                < #[trigger] d[j].width by {
                assert(d[i] == s[i] && d[j] == s[j]);
            }
        }
        assert(s.last() == s[s.len() - 1]);
        if s.last().width == fresh.width {
            let r = d.push(seen_again(s.last(), file, how));
            assert forall|i: int, j: int| 0 <= i < j < r.len() implies #[trigger] r[i].width
                < #[trigger] r[j].width by {
                assert(r[i].width == s[i].width && r[j].width == s[j].width);
            }
        } else if fresh.width < s.last().width {
            sightings_keep_widths_apart(d, fresh, file, how);
            let inner = sighted(d, fresh, file, how);
            let w = s.last().width - 1;
            assert(all_at_most(d, w)) by {
                assert forall|i: int| 0 <= i < d.len() implies (#[trigger] d[i]).width <= w by {
                    assert(d[i] == s[i]);
                }
            }
            lemma_sighted_bound(d, fresh, file, how, w);
            let r = inner.push(s.last());
            assert forall|i: int, j: int| 0 <= i < j < r.len() implies #[trigger] r[i].width
                < #[trigger] r[j].width by {
                if j == inner.len() {
                    assert(inner[i].width <= w);
                }
            }
        } else {
            let r = s.push(seen_again(fresh, file, how));
            assert forall|i: int, j: int| 0 <= i < j < r.len() implies #[trigger] r[i].width
                < #[trigger] r[j].width by {
                if j == s.len() && i < s.len() - 1 {
                    assert(s[i].width < s[s.len() - 1].width);
                }
            }
        }
    }
}

impl Occurrence {
    /// A width that appears in a breakpoint map was chosen, not observed.
    pub fn named(&mut self, name: &str)
        ensures
            final(self)@ == (Seen {
                name: if old(self)@.name is None && name@.len() > 0 {
                    Some(name@)
                } else {
                    old(self)@.name
                },
                declared: true,
                ..old(self)@
            }),
    {
        if self.name.is_none() && !name.is_empty() {
            self.name = Some(name.to_owned());
        }
        self.declared = true;
    }

    fn see_again(&mut self, file: &str, how: &Sighting)
        ensures
            final(self)@ == seen_again(old(self)@, file@, how@),
    {
        push_once(&mut self.files, file);
        self.occurrences = add_counts(self.occurrences, 1);
        match how {
            Sighting::Query(Edge::Min) => {
                self.edge = Edge::Min;
            },
            Sighting::Query(Edge::Max) => {},
            Sighting::Named(n) => {
                self.named(n.as_str());
            },
        }
    }
}

/// Record one sighting of a width.
pub fn sight(s: &mut Vec<Occurrence>, fresh: Occurrence, file: &str, how: &Sighting)
    ensures
        seens(final(s)@) == sighted(seens(old(s)@), fresh@, file@, how@),
{
    let ghost v = seens(s@);
    let ghost f = fresh@;
    let mut j: usize = s.len();
    assert(v.take(j as int) =~= v);
    assert(sighted(v, f, file@, how@) =~= sighted(v.take(j as int), f, file@, how@) + v.skip(
        j as int,
    ));
    while j > 0 && fresh.width < s[j - 1].width
        invariant
            j <= s@.len(),
            s@ == old(s)@,
            v == seens(s@),
            f == fresh@,
            sighted(v, f, file@, how@) == sighted(v.take(j as int), f, file@, how@) + v.skip(
                j as int,
            ),
        decreases j,
    {
        proof {
            let p = v.take(j as int);
            assert(p.last() == v[j - 1]);
            assert(p.drop_last() =~= v.take(j - 1));
            assert(sighted(p, f, file@, how@) + v.skip(j as int) =~= sighted(
                v.take(j - 1),
                f,
                file@,
                how@,
            ) + v.skip(j - 1));
        }
        j -= 1;
    }
    proof {
        let p = v.take(j as int);
        if j > 0 {
            assert(p.last() == v[j - 1]);
            assert(p.drop_last() =~= v.take(j - 1));
        }
    }
    if j > 0 && s[j - 1].width == fresh.width {
        let mut o = s.remove(j - 1);
        o.see_again(file, how);
        s.insert(j - 1, o);
        assert(seens(s@) =~= sighted(v.take(j as int), f, file@, how@) + v.skip(j as int));
    } else {
        let mut fresh = fresh;
        fresh.see_again(file, how);
        s.insert(j, fresh);
        assert(seens(s@) =~= v.take(j as int).push(seen_again(f, file@, how@)) + v.skip(
            j as int,
        ));
        assert(seens(s@) =~= sighted(v.take(j as int), f, file@, how@) + v.skip(j as int));
    }
}

/// Neighbours gathered with the first of their group, each within the
/// tolerance of it.
pub open spec fn gathered(s: Seq<Seen>) -> Seq<Seq<Seen>>
    decreases s.len(),
{
    if s.len() == 0 {
        Seq::empty()
    } else {
        let before = gathered(s.drop_last());
        let o = s.last();
        if before.len() > 0 && o.width - before.last()[0].width <= CLUSTER_TOLERANCE {
            before.drop_last().push(before.last().push(o))
        } else {
            before.push(seq![o])
        }
    }
}

/// How round a number of pixels is.
pub open spec fn roundness(w: int) -> int {
    if w % 100_000_000 == 0 {
        3
    } else if w % 10_000_000 == 0 {
        2
    } else if w % 1_000_000 == 0 {
        1
    } else {
        0
    }
}

fn round_rank(w: i64) -> (r: u8)
    ensures
        r == roundness(w as int),
{
    let w: i128 = w as i128;
    if rem(w, 100_000_000) == 0 {
        3
    } else if rem(w, 10_000_000) == 0 {
        2
    } else if rem(w, 1_000_000) == 0 {
        1
    } else {
        0
    }
}

fn rem(w: i128, m: i128) -> (r: i128)
    requires
        0 < m <= 100_000_000,
        -9_223_372_036_854_775_808 <= w <= 9_223_372_036_854_775_807,
    ensures
        r == w % m,
{
    if w >= 0 {
        w % m
    } else {
        let k: i128 = (-w) % m;
        proof {
            vstd::arithmetic::div_mod::lemma_fundamental_div_mod((-w) as int, m as int);
            let q = (-w) as int / m as int;
            if k == 0 {
                assert(w == m * (-q)) by (nonlinear_arith)
                    requires
                        -w == m * q,
                ;
                vstd::arithmetic::div_mod::lemma_fundamental_div_mod_converse(
                    w as int,
                    m as int,
                    -q,
                    0,
                );
            } else {
                assert(w == m * (-q - 1) + (m - k)) by (nonlinear_arith)
                    requires
                        -w == m * q + k,
                ;
                vstd::arithmetic::div_mod::lemma_fundamental_div_mod_converse(
                    w as int,
                    m as int,
                    -q - 1,
                    m - k,
                );
            }
        }
        if k == 0 {
            0
        } else {
            m - k
        }
    }
}

/// Whether `a` speaks for its group at least as well as `b`: it is in more
/// files, or in as many and at least as round.
pub open spec fn speaks_for(a: Seen, b: Seen) -> bool {
    a.files.len() > b.files.len() || (a.files.len() == b.files.len() && roundness(a.width as int)
        >= roundness(b.width as int))
}

/// The width a group is known by: the one in the most files, then the round
/// number, which is what the author meant, over the `.98` neighbour a framework
/// generated from it. The last of several as good.
pub open spec fn representative(g: Seq<Seen>) -> i64 {
    best_of(g).width
}

pub open spec fn best_of(g: Seq<Seen>) -> Seen
    decreases g.len(),
{
    if g.len() <= 1 {
        g[0]
    } else {
        let best = best_of(g.drop_last());
        if speaks_for(g.last(), best) {
            g.last()
        } else {
            best
        }
    }
}

/// Every file of a group, once.
pub open spec fn group_files(g: Seq<Seen>) -> Seq<Seq<char>>
    decreases g.len(),
{
    if g.len() == 0 {
        Seq::empty()
    } else {
        all_once(group_files(g.drop_last()), g.last().files)
    }
}

/// `s` with each of `more` in it once.
pub open spec fn all_once(s: Seq<Seq<char>>, more: Seq<Seq<char>>) -> Seq<Seq<char>>
    decreases more.len(),
{
    if more.len() == 0 {
        s
    } else {
        with_once(all_once(s, more.drop_last()), more.last())
    }
}

pub open spec fn group_total(g: Seq<Seen>) -> usize
    decreases g.len(),
{
    if g.len() == 0 {
        0
    } else {
        total(group_total(g.drop_last()), g.last().occurrences)
    }
}

/// The first name in a group.
pub open spec fn group_name(g: Seq<Seen>) -> Option<Seq<char>>
    decreases g.len(),
{
    if g.len() == 0 {
        None
    } else if group_name(g.drop_last()) is Some {
        group_name(g.drop_last())
    } else {
        g.last().name
    }
}

pub open spec fn group_declared(g: Seq<Seen>) -> bool {
    exists|i: int| 0 <= i < g.len() && (#[trigger] g[i]).declared
}

/// What is logged of the widths of a group that it is not known by.
pub open spec fn absorbed(g: Seq<Seen>, rep: i64) -> Seq<Event>
    decreases g.len(),
{
    if g.len() == 0 {
        Seq::empty()
    } else {
        let before = absorbed(g.drop_last(), rep);
        if g.last().width != rep {
            before.push(
                Event::Discarded {
                    file: g.last().first_file,
                    value: px_text(g.last().width as int) + "px"@,
                    reason: "within 2px of "@ + px_text(rep as int)
                        + "px, so it is the same breakpoint"@,
                },
            )
        } else {
            before
        }
    }
}

/// How sure a number of files makes a width: one used across many is a real
/// breakpoint, and one used once is probably a tweak.
pub open spec fn file_confidence(n: nat) -> u32 {
    if 30 + 10 * n >= 85 {
        85
    } else {
        (30 + 10 * n) as u32
    }
}

/// What a group of neighbours amounts to.
///
/// A width somebody wrote down on purpose in a map of breakpoints was chosen,
/// not observed, and how many files use it says nothing about how sure it is.
pub open spec fn found_in(g: Seq<Seen>) -> Found {
    let files = group_files(g);
    let name = group_name(g);
    let declared = group_declared(g);
    let n = group_total(g);
    Found {
        width: representative(g),
        name,
        source: if declared {
            match name {
                Some(s) => "breakpoint map entry "@ + s,
                None => "breakpoint map entry"@,
            }
        } else {
            decimal(n as nat) + " media "@ + (if n == 1 {
                "query"@
            } else {
                "queries"@
            }) + " in "@ + decimal(files.len()) + " file"@ + plural_of(files.len())
        },
        source_file: g[0].first_file,
        line: Some(g[0].first_line),
        confidence: if declared {
            90
        } else {
            file_confidence(files.len())
        },
        kind: if declared {
            Kind::Configured
        } else {
            Kind::Css
        },
        edge: g[0].edge,
        file_count: files.len() as usize,
    }
}

pub open spec fn found_in_all(groups: Seq<Seq<Seen>>) -> Seq<Found> {
    groups.map_values(|g: Seq<Seen>| found_in(g))
}

pub open spec fn absorbed_in_all(groups: Seq<Seq<Seen>>) -> Seq<Event>
    decreases groups.len(),
{
    if groups.len() == 0 {
        Seq::empty()
    } else {
        absorbed_in_all(groups.drop_last()) + absorbed(
            groups.last(),
            representative(groups.last()),
        )
    }
}

/// More widely used first, then narrower first so the list reads left to right.
pub open spec fn more_used(a: Found, b: Found) -> bool {
    a.file_count > b.file_count || (a.file_count == b.file_count && a.width < b.width)
}

pub open spec fn narrower(a: Seen, b: Seen) -> bool {
    a.width < b.width
}

/// The groups that widths fall into.
pub open spec fn groups_of(s: Seq<Seen>) -> Seq<Seq<Seen>> {
    gathered(sorted(s, |a: Seen, b: Seen| narrower(a, b)))
}

/// The widths worth reporting, ranked by how many files use them.
pub open spec fn clustered(s: Seq<Seen>) -> Seq<Found> {
    sorted(found_in_all(groups_of(s)), |a: Found, b: Found| more_used(a, b))
}

/// The report is ranked: no width comes before one that more files use.
pub proof fn clusters_are_ranked(s: Seq<Seen>, i: int, j: int)
    requires
        0 <= i < j < clustered(s).len(),
    ensures
        clustered(s)[i].file_count >= clustered(s)[j].file_count,
        clustered(s)[i].file_count == clustered(s)[j].file_count ==> clustered(s)[i].width
            <= clustered(s)[j].width,
{
    let lt = |a: Found, b: Found| more_used(a, b);
    assert(ranks(lt));
    crate::order::sorting_is_ordered_and_complete(found_in_all(groups_of(s)), lt);
    assert(!lt(clustered(s)[j], clustered(s)[i]));
}

fn occurrence_less(a: &Occurrence, b: &Occurrence) -> (r: bool)
    ensures
        r == narrower(a@, b@),
{
    a.width < b.width
}

fn found_less(a: &BreakpointDiscovery, b: &BreakpointDiscovery) -> (r: bool)
    ensures
        r == more_used(a@, b@),
{
    a.file_count > b.file_count || (a.file_count == b.file_count && a.width < b.width)
}

pub open spec fn group_views(v: Seq<Vec<Occurrence>>) -> Seq<Seq<Seen>> {
    v.map_values(|g: Vec<Occurrence>| seens(g@))
}

fn gather(found: Vec<Occurrence>) -> (r: Vec<Vec<Occurrence>>)
    ensures
        group_views(r@) == gathered(seens(found@)),
        forall|i: int| 0 <= i < r@.len() ==> (#[trigger] r@[i])@.len() > 0,
{
    let mut rest = found;
    let mut out: Vec<Vec<Occurrence>> = Vec::new();
    let ghost all = seens(found@);
    let ghost mut done: int = 0;
    assert(group_views(out@) =~= gathered(all.take(0)));
    assert(found@.skip(0) =~= found@);
    while rest.len() > 0
        invariant
            0 <= done <= found@.len(),
            rest@ == found@.skip(done),
            all == seens(found@),
            group_views(out@) == gathered(all.take(done)),
            forall|i: int| 0 <= i < out@.len() ==> (#[trigger] out@[i])@.len() > 0,
        decreases rest@.len(),
    {
        let o = rest.remove(0);
        proof {
            assert(found@[done] == o);
            assert(all.take(done + 1).drop_last() =~= all.take(done));
            assert(all.take(done + 1).last() == o@);
            assert(rest@ =~= found@.skip(done + 1));
        }
        let ghost before = group_views(out@);
        let n: usize = out.len();
        let joins = n > 0 && {
            assert(out@[n - 1]@.len() > 0);
            assert(before[n - 1] == seens(out@[n - 1]@));
            o.width as i128 - out[n - 1][0].width as i128 <= CLUSTER_TOLERANCE as i128
        };
        if joins {
            let mut last = out.pop().unwrap();
            let ghost l0 = last@;
            last.push(o);
            assert(seens(last@) =~= seens(l0).push(o@));
            out.push(last);
            assert(group_views(out@) =~= before.drop_last().push(before.last().push(o@)));
        } else {
            let mut one: Vec<Occurrence> = Vec::new();
            one.push(o);
            assert(seens(one@) =~= seq![o@]);
            out.push(one);
            assert(group_views(out@) =~= before.push(seq![o@]));
        }
        proof {
            done = done + 1;
        }
    }
    assert(all.take(all.len() as int) =~= all);
    out
}

fn best_in(g: &Vec<Occurrence>) -> (r: usize)
    requires
        g@.len() > 0,
    ensures
        r < g@.len(),
        seens(g@)[r as int] == best_of(seens(g@)),
{
    let ghost v = seens(g@);
    let mut best: usize = 0;
    let mut i: usize = 1;
    assert(v.take(1)[0] == v[0]);
    while i < g.len()
        invariant
            1 <= i <= g@.len(),
            best < i,
            v == seens(g@),
            v[best as int] == best_of(v.take(i as int)),
        decreases g@.len() - i,
    {
        proof {
            assert(v.take(i + 1).drop_last() =~= v.take(i as int));
            assert(v.take(i + 1).last() == v[i as int]);
            assert(v[i as int].files.len() == g@[i as int].files@.len());
            assert(v[best as int].files.len() == g@[best as int].files@.len());
        }
        let a: usize = g[i].files.len();
        let b: usize = g[best].files.len();
        if a > b || (a == b && round_rank(g[i].width) >= round_rank(g[best].width)) {
            best = i;
        }
        i += 1;
    }
    assert(v.take(v.len() as int) =~= v);
    best
}

fn add_all(files: &mut Vec<String>, more: &Vec<String>)
    ensures
        texts(final(files)@) == all_once(texts(old(files)@), texts(more@)),
{
    let ghost start = texts(files@);
    let mut i: usize = 0;
    assert(texts(more@).take(0) =~= Seq::<Seq<char>>::empty());
    while i < more.len()
        invariant
            i <= more@.len(),
            texts(files@) == all_once(start, texts(more@).take(i as int)),
        decreases more@.len() - i,
    {
        proof {
            let t = texts(more@).take(i + 1);
            assert(t.drop_last() =~= texts(more@).take(i as int));
            assert(t.last() == more@[i as int]@);
        }
        push_once(files, more[i].as_str());
        i += 1;
    }
    assert(texts(more@).take(more@.len() as int) =~= texts(more@));
}

fn describe(g: &Vec<Occurrence>, log: &mut ScanLog) -> (r: BreakpointDiscovery)
    requires
        g@.len() > 0,
    ensures
        r@ == found_in(seens(g@)),
        final(log)@ == old(log)@.with(absorbed(seens(g@), representative(seens(g@)))),
{
    let ghost v = seens(g@);
    let best: usize = best_in(g);
    let rep: i64 = g[best].width;
    assert(rep == representative(v)) by {
        assert(v[best as int].width == rep);
    }
    let mut files: Vec<String> = Vec::new();
    let mut count: usize = 0;
    let mut name: Option<String> = None;
    let mut declared = false;
    let mut i: usize = 0;
    let ghost start = log@;
    proof {
        assert(v.take(0) =~= Seq::<Seen>::empty());
        assert(texts(files@) =~= group_files(v.take(0)));
        assert(start.with(absorbed(v.take(0), rep)) =~= start);
    }
    while i < g.len()
        invariant
            i <= g@.len(),
            v == seens(g@),
            texts(files@) == group_files(v.take(i as int)),
            count == group_total(v.take(i as int)),
            opt_view(name) == group_name(v.take(i as int)),
            declared == (exists|k: int| 0 <= k < i && (#[trigger] v[k]).declared),
            log@ == start.with(absorbed(v.take(i as int), rep)),
        decreases g@.len() - i,
    {
        let o = &g[i];
        proof {
            assert(v.take(i + 1).drop_last() =~= v.take(i as int));
            assert(v.take(i + 1).last() == o@);
            assert(v[i as int] == o@);
        }
        add_all(&mut files, &o.files);
        count = add_counts(count, o.occurrences);
        if name.is_none() {
            name = clone_opt(&o.name);
        }
        if o.declared {
            declared = true;
        }
        if o.width != rep {
            let mut value = px_string(o.width);
            value.append("px");
            let mut reason = "within 2px of ".to_owned();
            reason.append(px_string(rep).as_str());
            reason.append("px, so it is the same breakpoint");
            log.discarded(o.first_file.as_str(), value.as_str(), reason.as_str());
            proof {
                let e = Event::Discarded {
                    file: o.first_file@,
                    value: value@,
                    reason: reason@,
                };
                super::log::lemma_with_with(start, absorbed(v.take(i as int), rep), seq![e]);
                assert(absorbed(v.take(i as int), rep) + seq![e] =~= absorbed(
                    v.take(i + 1),
                    rep,
                ));
            }
        }
        i += 1;
    }
    assert(v.take(v.len() as int) =~= v);
    let n: usize = files.len();
    assert(group_files(v).len() == n);
    let source = if declared {
        match &name {
            Some(s) => {
                let mut out = "breakpoint map entry ".to_owned();
                out.append(s.as_str());
                out
            },
            None => "breakpoint map entry".to_owned(),
        }
    } else {
        let mut out = number_string(count);
        out.append(" media ");
        out.append(
            if count == 1 {
                "query"
            } else {
                "queries"
            },
        );
        out.append(" in ");
        out.append(number_string(n).as_str());
        out.append(" file");
        out.append(plural(n));
        out
    };
    assert(declared == group_declared(v));
    assert(v[0] == g@[0]@);
    BreakpointDiscovery {
        width: rep,
        name,
        source,
        source_file: g[0].first_file.as_str().to_owned(),
        line: Some(g[0].first_line),
        confidence: if declared {
            90
        } else if n >= 6 {
            85
        } else {
            30 + 10 * (n as u32)
        },
        kind: if declared {
            Kind::Configured
        } else {
            Kind::Css
        },
        edge: g[0].edge,
        file_count: n,
    }
}

/// Collapse near neighbours and rank what survives by how many files use it.
pub fn cluster(found: Vec<Occurrence>, log: &mut ScanLog) -> (r: Vec<BreakpointDiscovery>)
    ensures
        founds(r@) == clustered(seens(found@)),
        final(log)@ == old(log)@.with(absorbed_in_all(groups_of(seens(found@)))),
{
    let ghost lt = |a: Occurrence, b: Occurrence| narrower(a@, b@);
    let ghost unsorted = found@;
    let ordered = stable_sort(found, occurrence_less, Ghost(lt));
    proof {
        crate::order::lemma_sorted_view(
            unsorted,
            lt,
            |o: Occurrence| o@,
            |a: Seen, b: Seen| narrower(a, b),
        );
    }
    let groups = gather(ordered);
    let ghost gs = group_views(groups@);
    let mut out: Vec<BreakpointDiscovery> = Vec::new();
    let mut i: usize = 0;
    let ghost start = log@;
    proof {
        assert(gs == groups_of(seens(unsorted)));
        assert(gs.take(0) =~= Seq::<Seq<Seen>>::empty());
        assert(founds(out@) =~= found_in_all(gs.take(0)));
        assert(start.with(absorbed_in_all(gs.take(0))) =~= start);
    }
    while i < groups.len()
        invariant
            i <= groups@.len(),
            gs == group_views(groups@),
            forall|k: int| 0 <= k < groups@.len() ==> (#[trigger] groups@[k])@.len() > 0,
            founds(out@) == found_in_all(gs.take(i as int)),
            log@ == start.with(absorbed_in_all(gs.take(i as int))),
        decreases groups@.len() - i,
    {
        let ghost before = founds(out@);
        let ghost said = absorbed_in_all(gs.take(i as int));
        proof {
            assert(gs.take(i + 1).drop_last() =~= gs.take(i as int));
            assert(gs.take(i + 1).last() == seens(groups@[i as int]@));
        }
        let b = describe(&groups[i], log);
        proof {
            super::log::lemma_with_with(
                start,
                said,
                absorbed(gs[i as int], representative(gs[i as int])),
            );
        }
        out.push(b);
        assert(founds(out@) =~= before.push(found_in(gs[i as int])));
        assert(founds(out@) =~= found_in_all(gs.take(i + 1)));
        i += 1;
    }
    assert(gs.take(gs.len() as int) =~= gs);
    let ghost flt = |a: BreakpointDiscovery, b: BreakpointDiscovery| more_used(a@, b@);
    let ghost unranked = out@;
    let r = stable_sort(out, found_less, Ghost(flt));
    proof {
        crate::order::lemma_sorted_view(
            unranked,
            flt,
            |b: BreakpointDiscovery| b@,
            |a: Found, b: Found| more_used(a, b),
        );
    }
    r
}

/// Seeing a width once more: it is among the widths, in one more use, with the
/// file counted once; and every other width is as it was.
pub proof fn a_width_seen_is_kept(s: Seq<Seen>, fresh: Seen, file: Seq<char>, how: Sight)
    requires
        ascending(s),
        fresh.files.len() == 0,
    ensures
        ({
            let r = sighted(s, fresh, file, how);
            &&& exists|j: int|
                0 <= j < r.len() && (#[trigger] r[j]).width == fresh.width && r[j].files.contains(
                    file,
                ) && r[j].occurrences > 0
            &&& forall|i: int|
                0 <= i < s.len() && (#[trigger] s[i]).width != fresh.width ==> r.contains(s[i])
            &&& forall|i: int|
                0 <= i < s.len() && (#[trigger] s[i]).width == fresh.width ==> r.len() == s.len()
                    && r[i].width == s[i].width && r[i].files.contains(file) && (
                s[i].files.contains(file) ==> r[i].files == s[i].files) && (
                !s[i].files.contains(file) ==> r[i].files == s[i].files.push(file)) && (
                s[i].occurrences < usize::MAX ==> r[i].occurrences == s[i].occurrences + 1)
            &&& forall|j: int|
                0 <= j < r.len() && (#[trigger] r[j]).width != fresh.width ==> s.contains(r[j])
        }),
    decreases s.len(),
{
    let r = sighted(s, fresh, file, how);
    let once = seen_again(fresh, file, how);
    assert(once.files =~= seq![file]);
    assert(once.files[0] == file);
    if s.len() == 0 {
        assert(r[0] == once);
    } else {
        let d = s.drop_last();
        let last = s.last();
        assert(last == s[s.len() - 1]);
        assert forall|i: int, j: int| 0 <= i < j < d.len() implies #[trigger] d[i].width
            < #[trigger] d[j].width by {
            assert(d[i] == s[i] && d[j] == s[j]);
        }
        if last.width == fresh.width {
            let again = seen_again(last, file, how);
            assert(r[s.len() - 1] == again);
            assert(again.files.contains(file)) by {
                if !last.files.contains(file) {
                    assert(again.files[last.files.len() as int] == file);
                }
            }
            assert forall|i: int| 0 <= i < s.len() && (#[trigger] s[i]).width
                != fresh.width implies r.contains(s[i]) by {
                assert(r[i] == s[i]);
            }
            assert forall|i: int| 0 <= i < s.len() && (#[trigger] s[i]).width
                == fresh.width implies i == s.len() - 1 by {}
            assert forall|j: int| 0 <= j < r.len() && (#[trigger] r[j]).width
                != fresh.width implies s.contains(r[j]) by {
                assert(r[j] == s[j]);
            }
        } else if fresh.width < last.width {
            a_width_seen_is_kept(d, fresh, file, how);
            let inner = sighted(d, fresh, file, how);
            let j = choose|j: int|
                0 <= j < inner.len() && (#[trigger] inner[j]).width == fresh.width
                    && inner[j].files.contains(file) && inner[j].occurrences > 0;
            assert(r[j] == inner[j]);
            assert forall|i: int| 0 <= i < s.len() && (#[trigger] s[i]).width
                != fresh.width implies r.contains(s[i]) by {
                if i < d.len() {
                    assert(d[i] == s[i]);
                    let k = inner.index_of(s[i]);
                    assert(r[k] == s[i]);
                } else {
                    assert(r[inner.len() as int] == last);
                }
            }
            assert forall|i: int| 0 <= i < s.len() && (#[trigger] s[i]).width
                == fresh.width implies r.len() == s.len() && r[i].width == s[i].width
                && r[i].files.contains(file) && (s[i].files.contains(file) ==> r[i].files
                == s[i].files) && (!s[i].files.contains(file) ==> r[i].files == s[i].files.push(
                file,
            )) && (s[i].occurrences < usize::MAX ==> r[i].occurrences == s[i].occurrences + 1) by {
                assert(d[i] == s[i]);
                assert(r[i] == inner[i]);
            }
            assert forall|j: int| 0 <= j < r.len() && (#[trigger] r[j]).width
                != fresh.width implies s.contains(r[j]) by {
                if j < inner.len() {
                    assert(r[j] == inner[j]);
                    let k = d.index_of(inner[j]);
                    assert(s[k] == inner[j]);
                } else {
                    assert(s[s.len() - 1] == r[j]);
                }
            }
        } else {
            assert(r[s.len() as int] == once);
            assert forall|i: int| 0 <= i < s.len() && (#[trigger] s[i]).width
                != fresh.width implies r.contains(s[i]) by {
                assert(r[i] == s[i]);
            }
            assert forall|j: int| 0 <= j < r.len() && (#[trigger] r[j]).width
                != fresh.width implies s.contains(r[j]) by {
                assert(r[j] == s[j]);
            }
        }
    }
}

/// What the groups of a rising list of widths are: none is empty, each holds
/// widths within two pixels of its first, and between them they hold the list.
spec fn well_gathered(s: Seq<Seen>, g: Seq<Seq<Seen>>) -> bool {
    &&& forall|a: int| 0 <= a < g.len() ==> (#[trigger] g[a]).len() > 0
    &&& forall|a: int, b: int|
        0 <= a < g.len() && 0 <= b < g[a].len() ==> s.contains(#[trigger] g[a][b]) && 0
            <= g[a][b].width - g[a][0].width <= 2_000_000
    &&& forall|x: Seen| #[trigger]
        s.contains(x) ==> exists|a: int| 0 <= a < g.len() && (#[trigger] g[a]).contains(x)
    &&& s.len() > 0 ==> g.len() > 0
}

proof fn lemma_gathered_join(s: Seq<Seen>, before: Seq<Seq<Seen>>)
    requires
        s.len() > 0,
        before.len() > 0,
        well_gathered(s.drop_last(), before),
        forall|k: int| 0 <= k < s.len() ==> (#[trigger] s[k]).width <= s.last().width,
        s.last().width - before.last()[0].width <= 2_000_000,
    ensures
        well_gathered(s, before.drop_last().push(before.last().push(s.last()))),
{
    let d = s.drop_last();
    let o = s.last();
    let last = before.last();
    let n = before.len() - 1;
    let g = before.drop_last().push(last.push(o));
    assert(last == before[n]);
    assert(g[n] == last.push(o));
    assert(s[s.len() - 1] == o);
    assert forall|a: int| 0 <= a < n implies #[trigger] g[a] == before[a] by {}
    assert forall|a: int, b: int| 0 <= a < g.len() && 0 <= b < g[a].len() implies s.contains(
        #[trigger] g[a][b],
    ) && 0 <= g[a][b].width - g[a][0].width <= 2_000_000 by {
        if a < n || b < last.len() {
            assert(g[a][b] == before[a][b] && g[a][0] == before[a][0]);
            assert(d.contains(before[a][b]));
            assert(s[d.index_of(before[a][b])] == g[a][b]);
        } else {
            assert(g[a][b] == o && g[a][0] == before[n][0]);
            assert(d.contains(before[n][0]));
            assert(s[d.index_of(before[n][0])].width <= o.width);
        }
    }
    assert forall|x: Seen| #[trigger] s.contains(x) implies exists|a: int|
        0 <= a < g.len() && (#[trigger] g[a]).contains(x) by {
        let i = s.index_of(x);
        if i == s.len() - 1 {
            assert(g[n][last.len() as int] == x);
            assert(g[n].contains(x));
        } else {
            assert(d[i] == x);
            assert(d.contains(x));
            let a = choose|a: int| 0 <= a < before.len() && (#[trigger] before[a]).contains(x);
            assert(g[a][before[a].index_of(x)] == x);
            assert(g[a].contains(x));
        }
    }
}

proof fn lemma_gathered_new(s: Seq<Seen>, before: Seq<Seq<Seen>>)
    requires
        s.len() > 0,
        well_gathered(s.drop_last(), before),
    ensures
        well_gathered(s, before.push(seq![s.last()])),
{
    let d = s.drop_last();
    let o = s.last();
    let n = before.len() as int;
    let g = before.push(seq![o]);
    assert(g[n] == seq![o]);
    assert(s[s.len() - 1] == o);
    assert forall|a: int| 0 <= a < n implies #[trigger] g[a] == before[a] by {}
    assert forall|a: int, b: int| 0 <= a < g.len() && 0 <= b < g[a].len() implies s.contains(
        #[trigger] g[a][b],
    ) && 0 <= g[a][b].width - g[a][0].width <= 2_000_000 by {
        if a < n {
            assert(g[a][b] == before[a][b] && g[a][0] == before[a][0]);
            assert(d.contains(before[a][b]));
            assert(s[d.index_of(before[a][b])] == g[a][b]);
        }
    }
    assert forall|x: Seen| #[trigger] s.contains(x) implies exists|a: int|
        0 <= a < g.len() && (#[trigger] g[a]).contains(x) by {
        let i = s.index_of(x);
        if i == s.len() - 1 {
            assert(g[n][0] == x);
            assert(g[n].contains(x));
        } else {
            assert(d[i] == x);
            assert(d.contains(x));
            let a = choose|a: int| 0 <= a < before.len() && (#[trigger] before[a]).contains(x);
            assert(g[a].contains(x));
        }
    }
}

proof fn lemma_gathered(s: Seq<Seen>)
    requires
        forall|i: int, j: int|
            0 <= i < j < s.len() ==> #[trigger] s[i].width <= #[trigger] s[j].width,
    ensures
        well_gathered(s, gathered(s)),
    decreases s.len(),
{
    if s.len() > 0 {
        let d = s.drop_last();
        assert forall|i: int, j: int| 0 <= i < j < d.len() implies #[trigger] d[i].width
            <= #[trigger] d[j].width by {
            assert(d[i] == s[i] && d[j] == s[j]);
        }
        lemma_gathered(d);
        let before = gathered(d);
        if before.len() > 0 && s.last().width - before.last()[0].width <= CLUSTER_TOLERANCE {
            lemma_gathered_join(s, before);
        } else {
            lemma_gathered_new(s, before);
        }
    }
}

proof fn lemma_best_is_one(g: Seq<Seen>)
    requires
        g.len() > 0,
    ensures
        g.contains(best_of(g)),
        forall|i: int| 0 <= i < g.len() ==> best_of(g).files.len() >= (#[trigger] g[i]).files.len(),
        forall|i: int|
            0 <= i < g.len() && best_of(g).files.len() == (#[trigger] g[i]).files.len()
                ==> roundness(best_of(g).width as int) >= roundness(g[i].width as int),
    decreases g.len(),
{
    if g.len() > 1 {
        let d = g.drop_last();
        lemma_best_is_one(d);
        assert forall|i: int| 0 <= i < g.len() implies best_of(g).files.len() >= (
        #[trigger] g[i]).files.len() && (best_of(g).files.len() == g[i].files.len() ==> roundness(
            best_of(g).width as int,
        ) >= roundness(g[i].width as int)) by {
            if i < d.len() {
                assert(d[i] == g[i]);
            }
        }
        if best_of(g) == g.last() {
            assert(g[g.len() - 1] == best_of(g));
        } else {
            assert(g[d.index_of(best_of(d))] == best_of(g));
        }
    } else {
        assert(g[0] == best_of(g));
    }
}

proof fn lemma_groups(s: Seq<Seen>)
    ensures
        well_gathered(sorted(s, |a: Seen, b: Seen| narrower(a, b)), groups_of(s)),
        ({
            let o = sorted(s, |a: Seen, b: Seen| narrower(a, b));
            forall|x: Seen| #[trigger] o.contains(x) <==> s.contains(x)
        }),
{
    let lt = |a: Seen, b: Seen| narrower(a, b);
    assert(ranks(lt));
    crate::order::sorting_is_ordered_and_complete(s, lt);
    let o = sorted(s, lt);
    assert forall|i: int, j: int| 0 <= i < j < o.len() implies #[trigger] o[i].width
        <= #[trigger] o[j].width by {
        assert(!lt(o[j], o[i]));
    }
    lemma_gathered(o);
    assert forall|x: Seen| #[trigger] o.contains(x) <==> s.contains(x) by {
        crate::order::lemma_sorted_keeps(s, lt, x);
    }
}

/// Every width seen is reported, itself or by one within two pixels of it that
/// at least as many files use; and every width reported is one that was seen.
pub proof fn every_width_seen_is_reported(s: Seq<Seen>)
    ensures
        forall|k: int|
            0 <= k < s.len() ==> exists|j: int|
                0 <= j < clustered(s).len() && -2_000_000 <= (#[trigger] clustered(s)[j]).width - (
                #[trigger] s[k]).width <= 2_000_000,
        forall|j: int|
            0 <= j < clustered(s).len() ==> exists|k: int|
                0 <= k < s.len() && (#[trigger] s[k]).width == (#[trigger] clustered(s)[j]).width,
{
    let mu = |a: Found, b: Found| more_used(a, b);
    assert(ranks(mu));
    lemma_groups(s);
    let o = sorted(s, |a: Seen, b: Seen| narrower(a, b));
    let g = groups_of(s);
    let f = found_in_all(g);
    let c = clustered(s);
    assert forall|k: int| 0 <= k < s.len() implies exists|j: int|
        0 <= j < c.len() && -2_000_000 <= (#[trigger] c[j]).width - (#[trigger] s[k]).width
            <= 2_000_000 by {
        assert(s.contains(s[k]));
        assert(o.contains(s[k]));
        let a = choose|a: int| 0 <= a < g.len() && (#[trigger] g[a]).contains(s[k]);
        let b = g[a].index_of(s[k]);
        lemma_best_is_one(g[a]);
        let m = g[a].index_of(best_of(g[a]));
        assert(g[a][b] == s[k] && g[a][m] == best_of(g[a]));
        assert(f[a] == found_in(g[a]));
        crate::order::lemma_sorted_keeps(f, mu, f[a]);
        assert(f.contains(f[a]));
        let j = c.index_of(f[a]);
        assert(c[j].width == best_of(g[a]).width);
    }
    assert forall|j: int| 0 <= j < c.len() implies exists|k: int|
        0 <= k < s.len() && (#[trigger] s[k]).width == (#[trigger] c[j]).width by {
        crate::order::lemma_sorted_keeps(f, mu, c[j]);
        assert(c.contains(c[j]));
        let a = f.index_of(c[j]);
        assert(f[a] == found_in(g[a]));
        lemma_best_is_one(g[a]);
        let m = g[a].index_of(best_of(g[a]));
        assert(o.contains(g[a][m]));
        let k = s.index_of(g[a][m]);
        assert(s[k].width == c[j].width);
    }
}

/// Every other width is more than two pixels away.
spec fn stands_alone(s: Seq<Seen>, x: Seen) -> bool {
    forall|i: int|
        0 <= i < s.len() && #[trigger] s[i] != x ==> s[i].width - x.width > 2_000_000 || x.width
            - s[i].width > 2_000_000
}

proof fn lemma_alone(s: Seq<Seen>, k: int)
    requires
        forall|i: int, j: int| 0 <= i < j < s.len() ==> #[trigger] s[i].width < #[trigger] s[j].width,
        0 <= k < s.len(),
        stands_alone(s, s[k]),
    ensures
        gathered(s).contains(seq![s[k]]),
    decreases s.len(),
{
    let d = s.drop_last();
    let o = s.last();
    assert(o == s[s.len() - 1]);
    assert forall|i: int, j: int| 0 <= i < j < d.len() implies #[trigger] d[i].width
        < #[trigger] d[j].width by {
        assert(d[i] == s[i] && d[j] == s[j]);
    }
    lemma_gathered(d);
    let before = gathered(d);
    let g = gathered(s);
    if before.len() > 0 {
        let n = before.len() - 1;
        assert(before.last() == before[n]);
        assert(d.contains(before[n][0]));
        let m = d.index_of(before[n][0]);
        assert(s[m] == before[n][0]);
        if k == s.len() - 1 {
            assert(s[m] != s[k]);
            assert(s[m].width < s[k].width);
            assert(g[n + 1] == seq![o]);
        } else {
            assert(d[k] == s[k]);
            assert forall|i: int| 0 <= i < d.len() && #[trigger] d[i] != d[k] implies d[i].width
                - d[k].width > 2_000_000 || d[k].width - d[i].width > 2_000_000 by {
                assert(d[i] == s[i]);
            }
            lemma_alone(d, k);
            let a = before.index_of(seq![s[k]]);
            if o.width - before.last()[0].width <= CLUSTER_TOLERANCE {
                if a == n {
                    assert(before[n][0] == s[k]);
                    assert(s[s.len() - 1] != s[k]);
                    assert(s[k].width < o.width);
                    assert(false);
                }
                assert(g[a] == before[a]);
            } else {
                assert(g[a] == before[a]);
            }
        }
    } else {
        if d.len() > 0 {
            assert(d.contains(d[0]));
        }
        assert(g[0] == seq![o]);
    }
}

/// A width with no other within two pixels of it is reported as it was seen:
/// its own width and edge, where it was first seen, and in how many files. One
/// from a map of breakpoints is configured, and one only seen in queries is as
/// sure as its files make it: forty hundredths for one, ten more for each other,
/// and no more than eighty-five.
pub proof fn a_width_on_its_own_is_reported_as_seen(s: Seq<Seen>, k: int)
    requires
        ascending(s),
        0 <= k < s.len(),
        forall|i: int|
            0 <= i < s.len() && i != k ==> (#[trigger] s[i]).width - s[k].width > 2_000_000
                || s[k].width - s[i].width > 2_000_000,
        s[k].files.len() < usize::MAX,
        forall|a: int, b: int|
            0 <= a < b < s[k].files.len() ==> #[trigger] s[k].files[a] != #[trigger] s[k].files[b],
    ensures
        exists|j: int|
            0 <= j < clustered(s).len() && {
                let r = #[trigger] clustered(s)[j];
                &&& r.width == s[k].width && r.edge == s[k].edge && r.name == s[k].name
                &&& r.source_file == s[k].first_file && r.line == Some(s[k].first_line)
                &&& r.file_count == s[k].files.len()
                &&& s[k].declared ==> r.kind == Kind::Configured && r.confidence == 90
                &&& !s[k].declared ==> r.kind == Kind::Css && r.confidence == if s[k].files.len()
                    < 6 {
                    30 + 10 * s[k].files.len()
                } else {
                    85
                }
            },
{
    let lt = |a: Seen, b: Seen| narrower(a, b);
    let mu = |a: Found, b: Found| more_used(a, b);
    assert(ranks(mu));
    assert forall|i: int, j: int| 0 <= i < j < s.len() implies !lt(
        #[trigger] s[j],
        #[trigger] s[i],
    ) by {}
    crate::order::sorting_keeps_what_is_in_order(s, lt);
    assert forall|i: int| 0 <= i < s.len() && #[trigger] s[i] != s[k] implies s[i].width
        - s[k].width > 2_000_000 || s[k].width - s[i].width > 2_000_000 by {}
    lemma_alone(s, k);
    let g = groups_of(s);
    let one = seq![s[k]];
    let a = g.index_of(one);
    let f = found_in_all(g);
    assert(f[a] == found_in(one));
    let c = clustered(s);
    crate::order::lemma_sorted_keeps(f, mu, f[a]);
    assert(f.contains(f[a]));
    let j = c.index_of(f[a]);
    reveal_with_fuel(group_files, 2);
    reveal_with_fuel(group_name, 2);
    reveal_with_fuel(group_total, 2);
    assert(one.drop_last() =~= Seq::<Seen>::empty());
    assert(one.last() == s[k]);
    assert(group_files(one.drop_last()) =~= Seq::<Seq<char>>::empty());
    lemma_all_once(s[k].files);
    assert(group_files(one) == s[k].files);
    assert(group_name(one) == s[k].name);
    assert(group_declared(one) == s[k].declared) by {
        if s[k].declared {
            assert(one[0].declared);
        }
    }
    assert(c[j] == found_in(one));
}

proof fn lemma_all_once(more: Seq<Seq<char>>)
    requires
        forall|a: int, b: int| 0 <= a < b < more.len() ==> #[trigger] more[a] != #[trigger] more[b],
    ensures
        all_once(Seq::empty(), more) == more,
    decreases more.len(),
{
    if more.len() > 0 {
        let d = more.drop_last();
        assert forall|a: int, b: int| 0 <= a < b < d.len() implies #[trigger] d[a]
            != #[trigger] d[b] by {
            assert(d[a] == more[a] && d[b] == more[b]);
        }
        lemma_all_once(d);
        if d.contains(more.last()) {
            let a = d.index_of(more.last());
            assert(more[a] == more[more.len() - 1]);
        }
        assert(d.push(more.last()) =~= more);
    }
}

/// Of the widths in a group, it is known by the one in most files, and of those
/// by a rounder one: whole hundreds before whole tens before whole pixels before
/// fractions.
pub proof fn a_group_is_known_by_its_most_used_width(g: Seq<Seen>, i: int)
    requires
        0 <= i < g.len(),
    ensures
        exists|m: int|
            0 <= m < g.len() && (#[trigger] g[m]).width == representative(g) && {
                &&& g[m].files.len() >= g[i].files.len()
                &&& g[m].files.len() == g[i].files.len() ==> {
                    &&& g[i].width as int % 100_000_000 == 0 ==> g[m].width as int % 100_000_000
                        == 0
                    &&& g[i].width as int % 10_000_000 == 0 ==> g[m].width as int % 10_000_000 == 0
                    &&& g[i].width as int % 1_000_000 == 0 ==> g[m].width as int % 1_000_000 == 0
                }
            },
{
    lemma_best_is_one(g);
    let m = g.index_of(best_of(g));
    assert(g[m].width == representative(g));
}

/// A sighting adds the width sighted to the widths there are, and no other.
pub proof fn a_sighting_adds_its_width(
    s: Seq<Seen>,
    fresh: Seen,
    file: Seq<char>,
    how: Sight,
    w: i64,
)
    ensures
        (exists|j: int|
            0 <= j < sighted(s, fresh, file, how).len() && (#[trigger] sighted(
                s,
                fresh,
                file,
                how,
            )[j]).width == w) <==> w == fresh.width || exists|i: int|
            0 <= i < s.len() && (#[trigger] s[i]).width == w,
    decreases s.len(),
{
    let r = sighted(s, fresh, file, how);
    if s.len() == 0 {
        assert(r[0].width == fresh.width);
    } else {
        let d = s.drop_last();
        let n = s.len() - 1;
        assert(s[n] == s.last());
        if s.last().width == fresh.width {
            assert(r[n].width == fresh.width);
            assert forall|i: int| 0 <= i < n implies #[trigger] r[i] == s[i] by {}
        } else if fresh.width < s.last().width {
            a_sighting_adds_its_width(d, fresh, file, how, w);
            let inner = sighted(d, fresh, file, how);
            assert(r[inner.len() as int] == s[n]);
            assert forall|i: int| 0 <= i < inner.len() implies #[trigger] r[i] == inner[i] by {}
            assert forall|i: int| 0 <= i < n implies #[trigger] d[i] == s[i] by {}
            if exists|j: int| 0 <= j < inner.len() && (#[trigger] inner[j]).width == w {
                let j = choose|j: int| 0 <= j < inner.len() && (#[trigger] inner[j]).width == w;
                assert(r[j].width == w);
            }
            if exists|i: int| 0 <= i < d.len() && (#[trigger] d[i]).width == w {
                let i = choose|i: int| 0 <= i < d.len() && (#[trigger] d[i]).width == w;
                assert(s[i].width == w);
            }
            if exists|j: int| 0 <= j < r.len() && (#[trigger] r[j]).width == w {
                let j = choose|j: int| 0 <= j < r.len() && (#[trigger] r[j]).width == w;
                if j < inner.len() {
                    assert(inner[j].width == w);
                }
            }
            if exists|i: int| 0 <= i < s.len() && (#[trigger] s[i]).width == w {
                let i = choose|i: int| 0 <= i < s.len() && (#[trigger] s[i]).width == w;
                if i < n {
                    assert(d[i].width == w);
                } else {
                    assert(r[inner.len() as int].width == w);
                }
            }
        } else {
            assert(r[s.len() as int].width == fresh.width);
            assert forall|i: int| 0 <= i < s.len() implies #[trigger] r[i] == s[i] by {}
        }
    }
}

} // verus!
