//! Putting things in order.
//!
//! Several answers are lists whose order is part of the answer, and ties keep
//! the order they were found in. The sort here is stable, and its result is
//! named exactly by [`sorted`].

use vstd::multiset::Multiset;
use vstd::prelude::*;

verus! {

/// `s`, which is in order, with `x` put in after everything it is not below.
pub open spec fn insert_in<T>(s: Seq<T>, x: T, lt: spec_fn(T, T) -> bool) -> Seq<T>
    decreases s.len(),
{
    if s.len() == 0 || !lt(x, s.last()) {
        s.push(x)
    } else {
        insert_in(s.drop_last(), x, lt).push(s.last())
    }
}

/// `s` in the order of `lt`, with ties left in the order they came in.
pub open spec fn sorted<T>(s: Seq<T>, lt: spec_fn(T, T) -> bool) -> Seq<T>
    decreases s.len(),
{
    if s.len() == 0 {
        s
    } else {
        insert_in(sorted(s.drop_last(), lt), s.last(), lt)
    }
}

/// `lt` orders its arguments by some rank: it is irreflexive, and not being
/// below is transitive.
pub open spec fn ranks<T>(lt: spec_fn(T, T) -> bool) -> bool {
    &&& forall|a: T| !#[trigger] lt(a, a)
    &&& forall|a: T, b: T| #[trigger] lt(a, b) ==> !lt(b, a)
    &&& forall|a: T, b: T, c: T|
        !(#[trigger] lt(a, b)) && !(#[trigger] lt(b, c)) ==> !lt(a, c)
}

/// Nothing stands before something that is below it.
pub open spec fn in_order<T>(s: Seq<T>, lt: spec_fn(T, T) -> bool) -> bool {
    forall|i: int, j: int| 0 <= i < j < s.len() ==> !lt(#[trigger] s[j], #[trigger] s[i])
}

proof fn lemma_insert<T>(s: Seq<T>, x: T, lt: spec_fn(T, T) -> bool)
    requires
        ranks(lt),
        in_order(s, lt),
    ensures
        in_order(insert_in(s, x, lt), lt),
        insert_in(s, x, lt).to_multiset() == s.to_multiset().insert(x),
        insert_in(s, x, lt).len() == s.len() + 1,
    decreases s.len(),
{
    broadcast use vstd::seq_lib::to_multiset_build;

    s.to_multiset_ensures();
    if s.len() == 0 || !lt(x, s.last()) {
        let r = s.push(x);
        assert forall|i: int, j: int| 0 <= i < j < r.len() implies !lt(
            #[trigger] r[j],
            #[trigger] r[i],
        ) by {
            if j == s.len() && i < s.len() - 1 {
                assert(!lt(x, s.last()));
                assert(!lt(s[s.len() - 1], s[i]));
            }
        }
    } else {
        let d = s.drop_last();
        lemma_insert(d, x, lt);
        let inner = insert_in(d, x, lt);
        let r = inner.push(s.last());
        assert(s =~= d.push(s.last()));
        assert(r.to_multiset() =~= s.to_multiset().insert(x));
        assert forall|i: int, j: int| 0 <= i < j < r.len() implies !lt(
            #[trigger] r[j],
            #[trigger] r[i],
        ) by {
            if j == inner.len() {
                inner.to_multiset_ensures();
                d.to_multiset_ensures();
                assert(inner.to_multiset().count(inner[i]) > 0) by {
                    assert(inner.contains(inner[i]));
                }
                if inner[i] != x {
                    assert(d.to_multiset().count(inner[i]) > 0);
                    assert(d.contains(inner[i]));
                    let k = d.index_of(inner[i]);
                    assert(d[k] == s[k]);
                    assert(!lt(s[s.len() - 1], s[k]));
                }
            }
        }
    }
}

/// Sorting loses nothing, adds nothing, and leaves the list in order.
pub proof fn sorting_is_ordered_and_complete<T>(s: Seq<T>, lt: spec_fn(T, T) -> bool)
    requires
        ranks(lt),
    ensures
        in_order(sorted(s, lt), lt),
        sorted(s, lt).to_multiset() == s.to_multiset(),
        sorted(s, lt).len() == s.len(),
    decreases s.len(),
{
    broadcast use vstd::seq_lib::to_multiset_build;

    if s.len() > 0 {
        sorting_is_ordered_and_complete(s.drop_last(), lt);
        lemma_insert(sorted(s.drop_last(), lt), s.last(), lt);
        assert(s =~= s.drop_last().push(s.last()));
    }
}

/// Sorting keeps everything that is in a list.
pub proof fn lemma_sorted_keeps<T>(s: Seq<T>, lt: spec_fn(T, T) -> bool, x: T)
    requires
        ranks(lt),
    ensures
        sorted(s, lt).contains(x) == s.contains(x),
{
    sorting_is_ordered_and_complete(s, lt);
    s.to_multiset_ensures();
    sorted(s, lt).to_multiset_ensures();
    assert(s.contains(x) <==> s.to_multiset().count(x) > 0);
    assert(sorted(s, lt).contains(x) <==> sorted(s, lt).to_multiset().count(x) > 0);
}

/// A list that is already in order is left as it is.
pub proof fn sorting_keeps_what_is_in_order<T>(s: Seq<T>, lt: spec_fn(T, T) -> bool)
    requires
        in_order(s, lt),
    ensures
        sorted(s, lt) == s,
    decreases s.len(),
{
    if s.len() > 0 {
        let d = s.drop_last();
        assert forall|i: int, j: int| 0 <= i < j < d.len() implies !lt(
            #[trigger] d[j],
            #[trigger] d[i],
        ) by {
            assert(!lt(s[j], s[i]));
        }
        sorting_keeps_what_is_in_order(d, lt);
        if d.len() > 0 {
            assert(!lt(s[s.len() - 1], s[s.len() - 2]));
        }
        assert(d.push(s.last()) =~= s);
    }
}

pub proof fn lemma_insert_len<T>(s: Seq<T>, x: T, lt: spec_fn(T, T) -> bool)
    ensures
        insert_in(s, x, lt).len() == s.len() + 1,
    decreases s.len(),
{
    if s.len() == 0 || !lt(x, s.last()) {
    } else {
        lemma_insert_len(s.drop_last(), x, lt);
    }
}

pub proof fn lemma_sorted_len<T>(s: Seq<T>, lt: spec_fn(T, T) -> bool)
    ensures
        sorted(s, lt).len() == s.len(),
    decreases s.len(),
{
    if s.len() > 0 {
        lemma_sorted_len(s.drop_last(), lt);
        lemma_insert_len(sorted(s.drop_last(), lt), s.last(), lt);
    }
}

/// Everything in an inserted list was in the list or is the new item.
proof fn lemma_insert_all<T>(
    s: Seq<T>,
    x: T,
    lt: spec_fn(T, T) -> bool,
    p: spec_fn(T) -> bool,
)
    requires
        p(x),
        forall|i: int| 0 <= i < s.len() ==> p(#[trigger] s[i]),
    ensures
        forall|i: int|
            0 <= i < insert_in(s, x, lt).len() ==> p(#[trigger] insert_in(s, x, lt)[i]),
    decreases s.len(),
{
    if s.len() == 0 || !lt(x, s.last()) {
    } else {
        let d = s.drop_last();
        assert forall|i: int| 0 <= i < d.len() implies p(#[trigger] d[i]) by {
            assert(d[i] == s[i]);
        }
        lemma_insert_all(d, x, lt, p);
        let inner = insert_in(d, x, lt);
        assert forall|i: int| 0 <= i < inner.push(s.last()).len() implies p(
            #[trigger] inner.push(s.last())[i],
        ) by {
            if i == inner.len() {
                assert(s.last() == s[s.len() - 1]);
            }
        }
    }
}

/// What holds of everything in a list holds of everything in it sorted.
pub proof fn lemma_sorted_all<T>(s: Seq<T>, lt: spec_fn(T, T) -> bool, p: spec_fn(T) -> bool)
    requires
        forall|i: int| 0 <= i < s.len() ==> p(#[trigger] s[i]),
    ensures
        forall|i: int| 0 <= i < sorted(s, lt).len() ==> p(#[trigger] sorted(s, lt)[i]),
    decreases s.len(),
{
    if s.len() > 0 {
        let d = s.drop_last();
        assert forall|i: int| 0 <= i < d.len() implies p(#[trigger] d[i]) by {
            assert(d[i] == s[i]);
        }
        lemma_sorted_all(d, lt, p);
        assert(s.last() == s[s.len() - 1]);
        lemma_insert_all(sorted(d, lt), s.last(), lt, p);
    }
}

proof fn lemma_insert_view<T, V>(
    s: Seq<T>,
    x: T,
    lt: spec_fn(T, T) -> bool,
    view: spec_fn(T) -> V,
    ltv: spec_fn(V, V) -> bool,
)
    requires
        forall|a: T, b: T| #[trigger] lt(a, b) == ltv(view(a), view(b)),
    ensures
        insert_in(s, x, lt).map_values(view) == insert_in(s.map_values(view), view(x), ltv),
    decreases s.len(),
{
    if s.len() == 0 || !lt(x, s.last()) {
        assert(s.push(x).map_values(view) =~= s.map_values(view).push(view(x)));
    } else {
        lemma_insert_view(s.drop_last(), x, lt, view, ltv);
        assert(s.drop_last().map_values(view) =~= s.map_values(view).drop_last());
        let inner = insert_in(s.drop_last(), x, lt);
        assert(inner.push(s.last()).map_values(view) =~= inner.map_values(view).push(
            view(s.last()),
        ));
    }
}

/// Sorting by what a view shows, and viewing what was sorted, are the same.
pub proof fn lemma_sorted_view<T, V>(
    s: Seq<T>,
    lt: spec_fn(T, T) -> bool,
    view: spec_fn(T) -> V,
    ltv: spec_fn(V, V) -> bool,
)
    requires
        forall|a: T, b: T| #[trigger] lt(a, b) == ltv(view(a), view(b)),
    ensures
        sorted(s, lt).map_values(view) == sorted(s.map_values(view), ltv),
    decreases s.len(),
{
    if s.len() > 0 {
        lemma_sorted_view(s.drop_last(), lt, view, ltv);
        lemma_insert_view(sorted(s.drop_last(), lt), s.last(), lt, view, ltv);
        assert(s.drop_last().map_values(view) =~= s.map_values(view).drop_last());
    } else {
        assert(s.map_values(view) =~= Seq::<V>::empty());
    }
}

fn insert_one<T, F: Fn(&T, &T) -> bool>(out: &mut Vec<T>, x: T, less: &F, Ghost(lt): Ghost<
    spec_fn(T, T) -> bool,
>)
    requires
        forall|a: &T, b: &T| #[trigger] less.requires((a, b)),
        forall|a: &T, b: &T, r: bool| #[trigger] less.ensures((a, b), r) ==> r == lt(*a, *b),
    ensures
        final(out)@ == insert_in(old(out)@, x, lt),
{
    let mut j: usize = out.len();
    let ghost s = out@;
    assert(s.take(s.len() as int) =~= s);
    assert(insert_in(s, x, lt) =~= insert_in(s.take(j as int), x, lt) + s.skip(j as int));
    while j > 0 && less(&x, &out[j - 1])
        invariant
            0 <= j <= out.len(),
            out@ == s,
            forall|a: &T, b: &T| #[trigger] less.requires((a, b)),
            forall|a: &T, b: &T, r: bool| #[trigger] less.ensures((a, b), r) ==> r == lt(*a, *b),
            insert_in(s, x, lt) == insert_in(s.take(j as int), x, lt) + s.skip(j as int),
        decreases j,
    {
        proof {
            let t = s.take(j as int);
            assert(t.last() == s[j - 1]);
            assert(t.drop_last() =~= s.take(j - 1));
            assert(insert_in(t, x, lt) + s.skip(j as int) =~= insert_in(s.take(j - 1), x, lt)
                + s.skip(j - 1));
        }
        j -= 1;
    }
    proof {
        let t = s.take(j as int);
        if j > 0 {
            assert(t.last() == s[j - 1]);
        }
        assert(insert_in(t, x, lt) == t.push(x));
        assert(s.insert(j as int, x) =~= t.push(x) + s.skip(j as int));
    }
    out.insert(j, x);
}

/// Sort by `less`, leaving ties as they came.
pub fn stable_sort<T, F: Fn(&T, &T) -> bool>(v: Vec<T>, less: F, Ghost(lt): Ghost<
    spec_fn(T, T) -> bool,
>) -> (r: Vec<T>)
    requires
        forall|a: &T, b: &T| #[trigger] less.requires((a, b)),
        forall|a: &T, b: &T, r: bool| #[trigger] less.ensures((a, b), r) ==> r == lt(*a, *b),
    ensures
        r@ == sorted(v@, lt),
{
    let mut rest: Vec<T> = v;
    let mut out: Vec<T> = Vec::new();
    let ghost mut done: int = 0;
    assert(v@.take(0) =~= Seq::<T>::empty());
    assert(v@.skip(0) =~= v@);
    while rest.len() > 0
        invariant
            0 <= done <= v@.len(),
            done + rest@.len() == v@.len(),
            out@.len() == done,
            rest@ == v@.skip(done),
            out@ == sorted(v@.take(done), lt),
            forall|a: &T, b: &T| #[trigger] less.requires((a, b)),
            forall|a: &T, b: &T, r: bool| #[trigger] less.ensures((a, b), r) ==> r == lt(*a, *b),
        decreases rest@.len(),
    {
        let x = rest.remove(0);
        proof {
            assert(v@.take(done + 1).drop_last() =~= v@.take(done));
            assert(v@.take(done + 1).last() == x);
            assert(rest@ =~= v@.skip(done + 1));
            lemma_insert_len(out@, x, lt);
        }
        insert_one(&mut out, x, &less, Ghost(lt));
        proof {
            done = done + 1;
        }
    }
    assert(v@.take(v@.len() as int) =~= v@);
    out
}

/// Each run of neighbours that are the same, by `eq`, kept as its first.
pub open spec fn deduped<T>(s: Seq<T>, eq: spec_fn(T, T) -> bool) -> Seq<T>
    decreases s.len(),
{
    if s.len() == 0 {
        s
    } else {
        let d = deduped(s.drop_last(), eq);
        if d.len() > 0 && eq(s.last(), d.last()) {
            d
        } else {
            d.push(s.last())
        }
    }
}

pub proof fn lemma_deduped_view<T, V>(
    s: Seq<T>,
    eq: spec_fn(T, T) -> bool,
    view: spec_fn(T) -> V,
    eqv: spec_fn(V, V) -> bool,
)
    requires
        forall|a: T, b: T| #[trigger] eq(a, b) == eqv(view(a), view(b)),
    ensures
        deduped(s, eq).map_values(view) == deduped(s.map_values(view), eqv),
    decreases s.len(),
{
    if s.len() > 0 {
        lemma_deduped_view(s.drop_last(), eq, view, eqv);
        assert(s.drop_last().map_values(view) =~= s.map_values(view).drop_last());
        let d = deduped(s.drop_last(), eq);
        assert(d.push(s.last()).map_values(view) =~= d.map_values(view).push(view(s.last())));
    } else {
        assert(s.map_values(view) =~= Seq::<V>::empty());
    }
}

/// Drop each item that is the same as the one kept before it.
pub fn dedup<T, F: Fn(&T, &T) -> bool>(v: Vec<T>, alike: F, Ghost(eq): Ghost<
    spec_fn(T, T) -> bool,
>) -> (r: Vec<T>)
    requires
        forall|a: &T, b: &T| #[trigger] alike.requires((a, b)),
        forall|a: &T, b: &T, r: bool| #[trigger] alike.ensures((a, b), r) ==> r == eq(*a, *b),
    ensures
        r@ == deduped(v@, eq),
{
    let mut rest: Vec<T> = v;
    let mut out: Vec<T> = Vec::new();
    let ghost mut done: int = 0;
    assert(v@.take(0) =~= Seq::<T>::empty());
    assert(v@.skip(0) =~= v@);
    while rest.len() > 0
        invariant
            0 <= done <= v@.len(),
            done + rest@.len() == v@.len(),
            out@.len() <= done,
            rest@ == v@.skip(done),
            out@ == deduped(v@.take(done), eq),
            forall|a: &T, b: &T| #[trigger] alike.requires((a, b)),
            forall|a: &T, b: &T, r: bool| #[trigger] alike.ensures((a, b), r) ==> r == eq(*a, *b),
        decreases rest@.len(),
    {
        let x = rest.remove(0);
        proof {
            assert(v@.take(done + 1).drop_last() =~= v@.take(done));
            assert(v@.take(done + 1).last() == x);
            assert(rest@ =~= v@.skip(done + 1));
            done = done + 1;
        }
        if out.len() == 0 || !alike(&x, &out[out.len() - 1]) {
            out.push(x);
        }
    }
    assert(v@.take(v@.len() as int) =~= v@);
    out
}

/// One text before another, character by character.
pub open spec fn text_below(a: Seq<char>, b: Seq<char>) -> bool
    decreases a.len(),
{
    if b.len() == 0 {
        false
    } else if a.len() == 0 {
        true
    } else if a[0] != b[0] {
        a[0] < b[0]
    } else {
        text_below(a.drop_first(), b.drop_first())
    }
}

proof fn lemma_text_not_below_itself(a: Seq<char>)
    ensures
        !text_below(a, a),
    decreases a.len(),
{
    if a.len() > 0 {
        lemma_text_not_below_itself(a.drop_first());
    }
}

pub proof fn lemma_text_below(a: Seq<char>, b: Seq<char>, c: Seq<char>)
    ensures
        !text_below(a, a),
        text_below(a, b) ==> !text_below(b, a),
        !text_below(a, b) && !text_below(b, c) ==> !text_below(a, c),
        text_below(a, b) || text_below(b, a) || a == b,
    decreases a.len() + b.len() + c.len(),
{
    lemma_text_not_below_itself(a);
    if a.len() > 0 && b.len() > 0 {
        lemma_text_below(a.drop_first(), b.drop_first(), c);
        if c.len() > 0 {
            lemma_text_below(a.drop_first(), b.drop_first(), c.drop_first());
        }
        if a[0] == b[0] && a.drop_first() == b.drop_first() {
            assert(a =~= seq![a[0]] + a.drop_first());
            assert(b =~= seq![b[0]] + b.drop_first());
        }
    } else if a.len() == 0 && b.len() == 0 {
        assert(a =~= b);
    }
}

pub fn text_less(a: &str, b: &str) -> (r: bool)
    ensures
        r == text_below(a@, b@),
{
    let x = crate::text::chars_of(a);
    let y = crate::text::chars_of(b);
    let mut i: usize = 0;
    assert(x@.skip(0) =~= a@);
    assert(y@.skip(0) =~= b@);
    while i < x.len() && i < y.len()
        invariant
            x@ == a@,
            y@ == b@,
            i <= x.len(),
            i <= y.len(),
            text_below(a@, b@) == text_below(x@.skip(i as int), y@.skip(i as int)),
        decreases x.len() - i,
    {
        if x[i] != y[i] {
            return x[i] < y[i];
        }
        assert(x@.skip(i as int).drop_first() =~= x@.skip(i + 1));
        assert(y@.skip(i as int).drop_first() =~= y@.skip(i + 1));
        i += 1;
    }
    i < y.len()
}

pub fn string_less(a: &String, b: &String) -> (r: bool)
    ensures
        r == text_below(a@, b@),
{
    text_less(a.as_str(), b.as_str())
}

/// Two texts are ordered by the first character in which they differ, and one
/// that the other begins with comes first.
pub proof fn the_first_difference_decides(a: Seq<char>, b: Seq<char>, k: int)
    requires
        0 <= k <= a.len(),
        k < b.len(),
        forall|i: int| 0 <= i < k ==> #[trigger] a[i] == b[i],
    ensures
        k == a.len() ==> text_below(a, b) && !text_below(b, a),
        k < a.len() && a[k] < b[k] ==> text_below(a, b) && !text_below(b, a),
    decreases k,
{
    if k > 0 {
        let c = a.drop_first();
        let d = b.drop_first();
        assert(a[0] == b[0]);
        assert forall|i: int| 0 <= i < k - 1 implies #[trigger] c[i] == d[i] by {
            assert(c[i] == a[i + 1] && d[i] == b[i + 1]);
        }
        the_first_difference_decides(c, d, k - 1);
    }
}

/// Of a run of items that are the same, the first stays: no two neighbours are
/// the same afterwards, nothing new is there, and the first is still first.
pub proof fn no_two_neighbours_are_the_same<T>(s: Seq<T>, eq: spec_fn(T, T) -> bool)
    ensures
        forall|i: int|
            1 <= i < deduped(s, eq).len() ==> !eq(
                #[trigger] deduped(s, eq)[i],
                deduped(s, eq)[i - 1],
            ),
        forall|i: int| 0 <= i < deduped(s, eq).len() ==> s.contains(#[trigger] deduped(s, eq)[i]),
        s.len() > 0 ==> deduped(s, eq).len() > 0 && deduped(s, eq)[0] == s[0],
        (forall|i: int| 1 <= i < s.len() ==> !eq(#[trigger] s[i], s[i - 1])) ==> deduped(s, eq)
            == s,
    decreases s.len(),
{
    if s.len() > 0 {
        let p = s.drop_last();
        no_two_neighbours_are_the_same(p, eq);
        let d = deduped(p, eq);
        let r = deduped(s, eq);
        assert forall|i: int| 0 <= i < r.len() implies s.contains(#[trigger] r[i]) by {
            if i < d.len() {
                assert(r[i] == d[i]);
                assert(p.contains(d[i]));
                let j = p.index_of(d[i]);
                assert(s[j] == d[i]);
            } else {
                assert(s[s.len() - 1] == r[i]);
            }
        }
        if p.len() > 0 {
            assert(p[0] == s[0]);
            assert(r[0] == d[0]);
        }
        if forall|i: int| 1 <= i < s.len() ==> !eq(#[trigger] s[i], s[i - 1]) {
            assert forall|i: int| 1 <= i < p.len() implies !eq(#[trigger] p[i], p[i - 1]) by {
                assert(p[i] == s[i] && p[i - 1] == s[i - 1]);
            }
            if p.len() > 0 {
                assert(d == p);
                assert(!eq(s[s.len() - 1], s[s.len() - 2]));
                assert(d.last() == s[s.len() - 2]);
            }
            assert(p.push(s.last()) =~= s);
        }
    }
}

} // verus!
