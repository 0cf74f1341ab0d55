//! Small tables from a name to a value, kept in the order of the names.

use vstd::prelude::*;
use crate::order::{text_below, text_less};
use crate::text::same;

verus! {

/// A table's names as characters.
pub open spec fn keyed<V>(t: Seq<(String, V)>) -> Seq<(Seq<char>, V)> {
    t.map_values(|e: (String, V)| (e.0@, e.1))
}

/// The table `t` with `k` set to `v`. A name that is already there keeps its
/// value unless `over` says to replace it.
pub open spec fn put<V>(t: Seq<(Seq<char>, V)>, k: Seq<char>, v: V, over: bool) -> Seq<
    (Seq<char>, V),
>
    decreases t.len(),
{
    if t.len() == 0 {
        seq![(k, v)]
    } else if t.last().0 == k {
        if over {
            t.drop_last().push((k, v))
        } else {
            t
        }
    } else if text_below(k, t.last().0) {
        put(t.drop_last(), k, v, over).push(t.last())
    } else {
        t.push((k, v))
    }
}

/// What `t` says of `k`.
pub open spec fn lookup<V>(t: Seq<(Seq<char>, V)>, k: Seq<char>) -> Option<V>
    decreases t.len(),
{
    if t.len() == 0 {
        None
    } else if t.last().0 == k {
        Some(t.last().1)
    } else {
        lookup(t.drop_last(), k)
    }
}

/// What was put under a name is what the table says of it, if the name was free
/// or the value was to be replaced; every other name is untouched.
pub proof fn lookup_gives_what_was_put<V>(
    t: Seq<(Seq<char>, V)>,
    k: Seq<char>,
    v: V,
    over: bool,
    other: Seq<char>,
)
    ensures
        over ==> lookup(put(t, k, v, over), k) == Some(v),
        lookup(t, k) is None ==> lookup(put(t, k, v, over), k) == Some(v),
        other != k ==> lookup(put(t, k, v, over), other) == lookup(t, other),
    decreases t.len(),
{
    if t.len() == 0 {
        assert(seq![(k, v)].drop_last() =~= t);
    } else if t.last().0 == k {
        assert(t.drop_last().push((k, v)).drop_last() =~= t.drop_last());
    } else if text_below(k, t.last().0) {
        crate::order::lemma_text_below(k, k, k);
        lookup_gives_what_was_put(t.drop_last(), k, v, over, other);
        let p = put(t.drop_last(), k, v, over);
        assert(p.push(t.last()).drop_last() =~= p);
    } else {
        assert(t.push((k, v)).drop_last() =~= t);
    }
}

/// A table with its names as characters and its values as `view` sees them.
pub open spec fn seen_as<V, W>(t: Seq<(String, V)>, view: spec_fn(V) -> W) -> Seq<(Seq<char>, W)> {
    keyed(t).map_values(|e: (Seq<char>, V)| (e.0, view(e.1)))
}

pub proof fn lemma_lookup_view<V, W>(t: Seq<(String, V)>, k: Seq<char>, view: spec_fn(V) -> W)
    ensures
        lookup(seen_as(t, view), k) == match lookup(keyed(t), k) {
            Some(v) => Some(view(v)),
            None => None,
        },
    decreases t.len(),
{
    if t.len() > 0 {
        let d = t.drop_last();
        lemma_lookup_view(d, k, view);
        assert(keyed(t).drop_last() =~= keyed(d));
        assert(seen_as(t, view).drop_last() =~= seen_as(d, view));
        assert(keyed(t).last() == (t.last().0@, t.last().1));
        assert(seen_as(t, view).last() == (t.last().0@, view(t.last().1)));
    }
}

pub proof fn lemma_put_view<V, W>(
    t: Seq<(Seq<char>, V)>,
    k: Seq<char>,
    v: V,
    over: bool,
    view: spec_fn(V) -> W,
)
    ensures
        put(t, k, v, over).map_values(|e: (Seq<char>, V)| (e.0, view(e.1))) == put(
            t.map_values(|e: (Seq<char>, V)| (e.0, view(e.1))),
            k,
            view(v),
            over,
        ),
    decreases t.len(),
{
    let f = |e: (Seq<char>, V)| (e.0, view(e.1));
    if t.len() == 0 {
        assert(put(t, k, v, over).map_values(f) =~= put(t.map_values(f), k, view(v), over));
    } else {
        lemma_put_view(t.drop_last(), k, v, over, view);
        assert(t.drop_last().map_values(f) =~= t.map_values(f).drop_last());
        assert(put(t, k, v, over).map_values(f) =~= put(t.map_values(f), k, view(v), over));
    }
}

/// What holds of every value of a table, and of a new one, holds of every
/// value once it is put in.
pub proof fn lemma_put_values<V>(
    t: Seq<(Seq<char>, V)>,
    k: Seq<char>,
    v: V,
    over: bool,
    p: spec_fn(V) -> bool,
)
    requires
        p(v),
        forall|i: int| 0 <= i < t.len() ==> p((#[trigger] t[i]).1),
    ensures
        forall|i: int|
            0 <= i < put(t, k, v, over).len() ==> p((#[trigger] put(t, k, v, over)[i]).1),
    decreases t.len(),
{
    if t.len() > 0 {
        let d = t.drop_last();
        assert(t.last() == t[t.len() - 1]);
        assert forall|i: int| 0 <= i < d.len() implies p((#[trigger] d[i]).1) by {
            assert(d[i] == t[i]);
        }
        lemma_put_values(d, k, v, over, p);
        let r = put(t, k, v, over);
        assert forall|i: int| 0 <= i < r.len() implies p((#[trigger] r[i]).1) by {
            if t.last().0 != k && text_below(k, t.last().0) {
                let inner = put(d, k, v, over);
                if i < inner.len() {
                    assert(r[i] == inner[i]);
                }
            }
        }
    }
}

pub fn put_in<V>(t: &mut Vec<(String, V)>, k: String, v: V, over: bool)
    ensures
        keyed(final(t)@) == put(keyed(old(t)@), k@, v, over),
{
    let ghost s = keyed(t@);
    let mut j: usize = t.len();
    assert(s.take(j as int) =~= s);
    assert(put(s, k@, v, over) =~= put(s.take(j as int), k@, v, over) + s.skip(j as int));
    while j > 0 && !same(t[j - 1].0.as_str(), k.as_str()) && text_less(
        k.as_str(),
        t[j - 1].0.as_str(),
    )
        invariant
            j <= t@.len(),
            s == keyed(t@),
            t@ == old(t)@,
            put(s, k@, v, over) == put(s.take(j as int), k@, v, over) + s.skip(j as int),
        decreases j,
    {
        proof {
            let p = s.take(j as int);
            assert(p.last() == s[j - 1]);
            assert(p.drop_last() =~= s.take(j - 1));
            assert(put(p, k@, v, over) + s.skip(j as int) =~= put(s.take(j - 1), k@, v, over)
                + s.skip(j - 1));
        }
        j -= 1;
    }
    proof {
        let p = s.take(j as int);
        if j > 0 {
            assert(p.last() == s[j - 1]);
            assert(p.drop_last() =~= s.take(j - 1));
        }
    }
    if j > 0 && same(t[j - 1].0.as_str(), k.as_str()) {
        if over {
            t.set(j - 1, (k, v));
            assert(keyed(t@) =~= put(s.take(j as int), k@, v, over) + s.skip(j as int));
        } else {
            assert(keyed(t@) =~= put(s.take(j as int), k@, v, over) + s.skip(j as int));
        }
    } else {
        t.insert(j, (k, v));
        assert(keyed(t@) =~= s.take(j as int).push((k@, v)) + s.skip(j as int));
        assert(keyed(t@) =~= put(s.take(j as int), k@, v, over) + s.skip(j as int));
    }
}

/// Where a name stands in a table.
pub fn find_in<V>(t: &Vec<(String, V)>, k: &str) -> (r: Option<usize>)
    ensures
        match r {
            Some(i) => i < t@.len() && lookup(keyed(t@), k@) == Some(t@[i as int].1),
            None => lookup(keyed(t@), k@) is None,
        },
{
    let ghost s = keyed(t@);
    let mut j: usize = t.len();
    assert(s.take(j as int) =~= s);
    while j > 0
        invariant
            j <= t@.len(),
            s == keyed(t@),
            lookup(s, k@) == lookup(s.take(j as int), k@),
        decreases j,
    {
        proof {
            let p = s.take(j as int);
            assert(p.last() == s[j - 1]);
            assert(p.drop_last() =~= s.take(j - 1));
        }
        if same(t[j - 1].0.as_str(), k) {
            return Some(j - 1);
        }
        j -= 1;
    }
    None
}

/// A table without one name.
pub open spec fn without<V>(t: Seq<(Seq<char>, V)>, k: Seq<char>) -> Seq<(Seq<char>, V)>
    decreases t.len(),
{
    if t.len() == 0 {
        t
    } else {
        let d = without(t.drop_last(), k);
        if t.last().0 == k {
            d
        } else {
            d.push(t.last())
        }
    }
}

pub fn remove_from<V>(t: &mut Vec<(String, V)>, k: &str)
    ensures
        keyed(final(t)@) == without(keyed(old(t)@), k@),
{
    let ghost all = keyed(t@);
    let mut rest: Vec<(String, V)> = Vec::new();
    rest.append(t);
    let ghost whole = rest@;
    assert(keyed(whole) =~= all);
    let ghost mut done: int = 0;
    assert(all.take(0) =~= Seq::empty());
    assert(keyed(t@) =~= Seq::empty());
    while rest.len() > 0
        invariant
            0 <= done <= all.len(),
            done + rest@.len() == all.len(),
            all == keyed(whole),
            forall|i: int| 0 <= i < rest@.len() ==> #[trigger] rest@[i] == whole[done + i],
            keyed(t@) == without(all.take(done), k@),
        decreases rest@.len(),
    {
        let ghost queue = rest@;
        let e = rest.remove(0);
        proof {
            assert(e == queue[0]);
            assert forall|i: int| 0 <= i < rest@.len() implies #[trigger] rest@[i] == whole[done + 1
                + i] by {
                assert(rest@[i] == queue[i + 1]);
            }
            assert(all.take(done + 1).drop_last() =~= all.take(done));
            assert(all.take(done + 1).last() == (e.0@, e.1));
        }
        if !same(e.0.as_str(), k) {
            let ghost before = keyed(t@);
            t.push(e);
            assert(keyed(t@) =~= before.push((e.0@, e.1)));
        }
        proof {
            done = done + 1;
        }
    }
    assert(all.take(all.len() as int) =~= all);
}

/// A name that was removed is not there, and every other one is untouched.
pub proof fn what_is_removed_is_gone<V>(t: Seq<(Seq<char>, V)>, k: Seq<char>, other: Seq<char>)
    ensures
        lookup(without(t, k), k) is None,
        other != k ==> lookup(without(t, k), other) == lookup(t, other),
    decreases t.len(),
{
    if t.len() > 0 {
        what_is_removed_is_gone(t.drop_last(), k, other);
        let d = without(t.drop_last(), k);
        assert(d.push(t.last()).drop_last() =~= d);
    }
}

pub proof fn lemma_without_view<V, W>(
    t: Seq<(Seq<char>, V)>,
    k: Seq<char>,
    view: spec_fn(V) -> W,
)
    ensures
        without(t, k).map_values(|e: (Seq<char>, V)| (e.0, view(e.1))) == without(
            t.map_values(|e: (Seq<char>, V)| (e.0, view(e.1))),
            k,
        ),
    decreases t.len(),
{
    let f = |e: (Seq<char>, V)| (e.0, view(e.1));
    if t.len() > 0 {
        lemma_without_view(t.drop_last(), k, view);
        assert(t.drop_last().map_values(f) =~= t.map_values(f).drop_last());
        assert(t.map_values(f).last() == f(t.last()));
        let d = without(t.drop_last(), k);
        assert(d.push(t.last()).map_values(f) =~= d.map_values(f).push(f(t.last())));
    } else {
        assert(t.map_values(f) =~= Seq::empty());
        assert(without(t, k).map_values(f) =~= Seq::empty());
    }
}

/// What is put is a key, and so is every key there was.
pub proof fn lemma_put_keys<V>(
    t: Seq<(Seq<char>, V)>,
    k: Seq<char>,
    v: V,
    over: bool,
    key: Seq<char>,
)
    ensures
        (exists|i: int|
            0 <= i < put(t, k, v, over).len() && (#[trigger] put(t, k, v, over)[i]).0 == key)
            <==> key == k || exists|i: int| 0 <= i < t.len() && (#[trigger] t[i]).0 == key,
    decreases t.len(),
{
    let r = put(t, k, v, over);
    if t.len() == 0 {
        assert(r[0].0 == k);
    } else {
        let n = t.len() - 1;
        let d = t.drop_last();
        assert(t[n] == t.last());
        if t.last().0 == k {
            assert(r[n].0 == k);
            assert forall|i: int| 0 <= i < n implies #[trigger] r[i] == t[i] by {}
            if exists|i: int| 0 <= i < r.len() && (#[trigger] r[i]).0 == key {
                let i = choose|i: int| 0 <= i < r.len() && (#[trigger] r[i]).0 == key;
                assert(t[i].0 == key);
            }
            if exists|i: int| 0 <= i < t.len() && (#[trigger] t[i]).0 == key {
                let i = choose|i: int| 0 <= i < t.len() && (#[trigger] t[i]).0 == key;
                assert(r[i].0 == key);
            }
        } else if text_below(k, t.last().0) {
            lemma_put_keys(d, k, v, over, key);
            let inner = put(d, k, v, over);
            assert(r[inner.len() as int] == t[n]);
            assert forall|i: int| 0 <= i < inner.len() implies #[trigger] r[i] == inner[i] by {}
            assert forall|i: int| 0 <= i < n implies #[trigger] d[i] == t[i] by {}
            if exists|i: int| 0 <= i < inner.len() && (#[trigger] inner[i]).0 == key {
                let i = choose|i: int| 0 <= i < inner.len() && (#[trigger] inner[i]).0 == key;
                assert(r[i].0 == key);
            }
            if exists|i: int| 0 <= i < d.len() && (#[trigger] d[i]).0 == key {
                let i = choose|i: int| 0 <= i < d.len() && (#[trigger] d[i]).0 == key;
                assert(t[i].0 == key);
            }
            if exists|i: int| 0 <= i < r.len() && (#[trigger] r[i]).0 == key {
                let i = choose|i: int| 0 <= i < r.len() && (#[trigger] r[i]).0 == key;
                if i < inner.len() {
                    assert(inner[i].0 == key);
                }
            }
            if exists|i: int| 0 <= i < t.len() && (#[trigger] t[i]).0 == key {
                let i = choose|i: int| 0 <= i < t.len() && (#[trigger] t[i]).0 == key;
                if i < n {
                    assert(d[i].0 == key);
                } else {
                    assert(r[inner.len() as int].0 == key);
                }
            }
        } else {
            assert(r[t.len() as int].0 == k);
            assert forall|i: int| 0 <= i < t.len() implies #[trigger] r[i] == t[i] by {}
            if exists|i: int| 0 <= i < r.len() && (#[trigger] r[i]).0 == key {
                let i = choose|i: int| 0 <= i < r.len() && (#[trigger] r[i]).0 == key;
                if i < t.len() {
                    assert(t[i].0 == key);
                }
            }
            if exists|i: int| 0 <= i < t.len() && (#[trigger] t[i]).0 == key {
                let i = choose|i: int| 0 <= i < t.len() && (#[trigger] t[i]).0 == key;
                assert(r[i].0 == key);
            }
        }
    }
}

} // verus!
