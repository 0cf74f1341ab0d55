//! Which panel does a name mean?

use vstd::prelude::*;
use crate::model::{viewports, Panelled, Viewport};
use crate::scanner::units::{all_digits, digits_value};
use crate::text::{
    begins, begins_with, chars_of, decimal, digit, is_digit, lower_str, lowered, same, trim_str, trimmed,
};

verus! {

/// The number a text spells, as `usize` is read: digits, with a plus in front
/// of them or not.
pub open spec fn index_of(s: Seq<char>) -> Option<usize> {
    let d = if s.len() > 0 && s[0] == '+' {
        s.skip(1)
    } else {
        s
    };
    if d.len() > 0 && all_digits(d) && digits_value(d) <= usize::MAX {
        Some(digits_value(d) as usize)
    } else {
        None
    }
}

fn parse_index(text: &str) -> (r: Option<usize>)
    ensures
        r == index_of(text@),
{
    let s = chars_of(text);
    let start: usize = if s.len() > 0 && s[0] == '+' {
        1
    } else {
        0
    };
    let ghost d = s@.skip(start as int);
    assert(start == 0 ==> d =~= s@);
    if s.len() == start {
        return None;
    }
    let mut v: u128 = 0;
    let mut i: usize = start;
    assert(d.take(0) =~= Seq::<char>::empty());
    let mut over = false;
    while i < s.len()
        invariant
            start <= i <= s@.len(),
            s@ == text@,
            d == s@.skip(start as int),
            d == (if s@.len() > 0 && s@[0] == '+' {
                s@.skip(1)
            } else {
                s@
            }),
            forall|k: int| 0 <= k < i - start ==> is_digit(#[trigger] d[k]),
            over == (digits_value(d.take(i - start)) > usize::MAX),
            !over ==> v == digits_value(d.take(i - start)),
        decreases s@.len() - i,
    {
        let c = s[i];
        assert(d[i - start] == c);
        if !digit(c) {
            assert(!all_digits(d));
            return None;
        }
        proof {
            assert(d.take(i - start + 1).drop_last() =~= d.take(i - start));
            assert(d.take(i - start + 1).last() == c);
        }
        if !over {
            v = v * 10 + (c as u32 - 48) as u128;
            if v > usize::MAX as u128 {
                over = true;
            }
        }
        i += 1;
    }
    assert(d.take(d.len() as int) =~= d);
    if over {
        None
    } else {
        Some(v as usize)
    }
}

/// Whole pixels of a width; nothing is narrower than none.
pub open spec fn whole_px(w: i64) -> int {
    if w < 0 {
        0
    } else {
        w as int / 1_000_000
    }
}

/// The first viewport, from `i` on, that is `n` whole pixels wide.
pub open spec fn first_wide(vps: Seq<Panelled>, n: int, i: int) -> Option<int>
    decreases vps.len() - i,
{
    if i >= vps.len() {
        None
    } else if whole_px(vps[i].width) == n {
        Some(i)
    } else {
        first_wide(vps, n, i + 1)
    }
}

/// A viewport's id, name or framework key, whatever the case.
pub open spec fn is_called(v: Panelled, lower: Seq<char>) -> bool {
    lowered(v.id) == lower || lowered(v.name) == lower || lowered(v.source) == lower
}

pub open spec fn first_called(vps: Seq<Panelled>, lower: Seq<char>, i: int) -> Option<int>
    decreases vps.len() - i,
{
    if i >= vps.len() {
        None
    } else if is_called(vps[i], lower) {
        Some(i)
    } else {
        first_called(vps, lower, i + 1)
    }
}

pub open spec fn is_called_for_short(v: Panelled, lower: Seq<char>) -> bool {
    begins(lowered(v.name), lower) || begins(lowered(v.id), lower)
}

pub open spec fn first_for_short(vps: Seq<Panelled>, lower: Seq<char>, i: int) -> Option<int>
    decreases vps.len() - i,
{
    if i >= vps.len() {
        None
    } else if is_called_for_short(vps[i], lower) {
        Some(i)
    } else {
        first_for_short(vps, lower, i + 1)
    }
}

/// The viewport a name means.
///
/// Nothing is not a panel: a caller that forgot the argument must not get a
/// confident answer about a panel it had not asked for. A number is an index,
/// and failing that a width, because in an app whose entire vocabulary is
/// widths "1024" is the obvious way to name the 1024 panel. Anything else is
/// matched against ids, names and framework keys, whole first and by prefix
/// second.
pub open spec fn meant(vps: Seq<Panelled>, needle: Seq<char>) -> Option<int> {
    let n = trimmed(needle);
    if n.len() == 0 {
        None
    } else {
        match index_of(n) {
            Some(k) => if k < vps.len() {
                Some(k as int)
            } else {
                first_wide(vps, k as int, 0)
            },
            None => match first_called(vps, lowered(n), 0) {
                Some(i) => Some(i),
                None => first_for_short(vps, lowered(n), 0),
            },
        }
    }
}

pub open spec fn as_int(i: Option<usize>) -> Option<int> {
    match i {
        Some(k) => Some(k as int),
        None => None,
    }
}

fn find_wide(vps: &Vec<Viewport>, n: usize) -> (r: Option<usize>)
    ensures
        as_int(r) == first_wide(viewports(vps@), n as int, 0),
        r matches Some(i) ==> i < vps@.len(),
{
    let ghost all = viewports(vps@);
    let mut i: usize = 0;
    while i < vps.len()
        invariant
            i <= vps@.len(),
            all == viewports(vps@),
            first_wide(all, n as int, 0) == first_wide(all, n as int, i as int),
        decreases vps@.len() - i,
    {
        assert(all[i as int] == vps@[i as int]@);
        let w: i64 = vps[i].width;
        let whole: i64 = if w < 0 {
            0
        } else {
            w / 1_000_000
        };
        if whole as u128 == n as u128 {
            return Some(i);
        }
        i += 1;
    }
    None
}

fn find_called(vps: &Vec<Viewport>, lower: &str) -> (r: Option<usize>)
    ensures
        as_int(r) == first_called(viewports(vps@), lower@, 0),
        r matches Some(i) ==> i < vps@.len(),
{
    let ghost all = viewports(vps@);
    let mut i: usize = 0;
    while i < vps.len()
        invariant
            i <= vps@.len(),
            all == viewports(vps@),
            first_called(all, lower@, 0) == first_called(all, lower@, i as int),
        decreases vps@.len() - i,
    {
        assert(all[i as int] == vps@[i as int]@);
        let v = &vps[i];
        if same(lower_str(v.id.as_str()).as_str(), lower) || same(
            lower_str(v.name.as_str()).as_str(),
            lower,
        ) || same(lower_str(v.source.as_str()).as_str(), lower) {
            return Some(i);
        }
        i += 1;
    }
    None
}

fn find_for_short(vps: &Vec<Viewport>, lower: &str) -> (r: Option<usize>)
    ensures
        as_int(r) == first_for_short(viewports(vps@), lower@, 0),
        r matches Some(i) ==> i < vps@.len(),
{
    let ghost all = viewports(vps@);
    let mut i: usize = 0;
    while i < vps.len()
        invariant
            i <= vps@.len(),
            all == viewports(vps@),
            first_for_short(all, lower@, 0) == first_for_short(all, lower@, i as int),
        decreases vps@.len() - i,
    {
        assert(all[i as int] == vps@[i as int]@);
        let v = &vps[i];
        if begins_with(lower_str(v.name.as_str()).as_str(), lower) || begins_with(
            lower_str(v.id.as_str()).as_str(),
            lower,
        ) {
            return Some(i);
        }
        i += 1;
    }
    None
}

/// Which viewport does this name mean?
pub fn match_viewport(vps: &Vec<Viewport>, needle: &str) -> (r: Option<usize>)
    ensures
        as_int(r) == meant(viewports(vps@), needle@),
        r matches Some(i) ==> i < vps@.len(),
{
    let needle_text = trim_str(needle);
    if needle_text.as_str().is_empty() {
        return None;
    }
    assert(viewports(vps@).len() == vps@.len());
    if let Some(number) = parse_index(needle_text.as_str()) {
        if number < vps.len() {
            return Some(number);
        }
        return find_wide(vps, number);
    }
    let lower = lower_str(needle_text.as_str());
    match find_called(vps, lower.as_str()) {
        Some(i) => Some(i),
        None => find_for_short(vps, lower.as_str()),
    }
}

proof fn lemma_first_called(vps: Seq<Panelled>, lower: Seq<char>, i: int, k: int)
    requires
        0 <= i <= k < vps.len(),
        is_called(vps[k], lower),
    ensures
        first_called(vps, lower, i) matches Some(j) && i <= j <= k && is_called(vps[j], lower),
    decreases vps.len() - i,
{
    if !is_called(vps[i], lower) {
        lemma_first_called(vps, lower, i + 1, k);
    }
}

/// A panel's own id always finds a panel of that id, unless it reads as a
/// number.
pub proof fn a_panel_is_found_by_its_id(vps: Seq<Panelled>, k: int)
    requires
        0 <= k < vps.len(),
        trimmed(vps[k].id) == vps[k].id,
        vps[k].id.len() > 0,
        index_of(vps[k].id) is None,
    ensures
        meant(vps, vps[k].id) matches Some(j) && 0 <= j <= k && is_called(
            vps[j],
            lowered(vps[k].id),
        ),
{
    lemma_first_called(vps, lowered(vps[k].id), 0, k);
}

/// A number names the panel in that place, counted from nothing; past the last
/// place it names the first panel as many whole pixels wide.
pub proof fn a_number_names_a_place_or_a_width(vps: Seq<Panelled>, k: nat)
    requires
        k <= usize::MAX,
    ensures
        k < vps.len() ==> meant(vps, decimal(k)) == Some(k as int),
        k >= vps.len() ==> (meant(vps, decimal(k)) matches Some(j) ==> 0 <= j < vps.len()
            && vps[j].width >= 0 && vps[j].width as int / 1_000_000 == k),
        k >= vps.len() && meant(vps, decimal(k)) is None ==> forall|j: int|
            0 <= j < vps.len() && (#[trigger] vps[j]).width >= 0 ==> vps[j].width as int
                / 1_000_000 != k,
{
    crate::project_file::laws::lemma_decimal_digits(k);
    let d = decimal(k);
    assert(is_digit(d[0]));
    assert(is_digit(d[d.len() - 1]));
    crate::text::lemma_trimmed_plain(d);
    if k >= vps.len() {
        lemma_first_wide(vps, k as int, 0);
    }
}

proof fn lemma_first_wide(vps: Seq<Panelled>, n: int, i: int)
    requires
        0 <= i <= vps.len(),
        n >= 0,
    ensures
        first_wide(vps, n, i) matches Some(j) ==> i <= j < vps.len() && whole_px(vps[j].width) == n,
        first_wide(vps, n, i) is None ==> forall|j: int|
            i <= j < vps.len() ==> whole_px((#[trigger] vps[j]).width) != n,
    decreases vps.len() - i,
{
    if i < vps.len() && whole_px(vps[i].width) != n {
        lemma_first_wide(vps, n, i + 1);
    }
}

/// A panel is named by its id, its name or its source in whatever case, before
/// any that is only named for short by how its name or id begins.
pub proof fn a_whole_name_goes_before_a_short_one(vps: Seq<Panelled>, needle: Seq<char>)
    requires
        trimmed(needle) == needle,
        needle.len() > 0,
        index_of(needle) is None,
    ensures
        ({
            let low = lowered(needle);
            let whole = |v: Panelled|
                lowered(v.id) == low || lowered(v.name) == low || lowered(v.source) == low;
            let short = |v: Panelled| begins(lowered(v.name), low) || begins(lowered(v.id), low);
            &&& (exists|k: int| 0 <= k < vps.len() && whole(#[trigger] vps[k])) ==> (meant(
                vps,
                needle,
            ) matches Some(j) && 0 <= j < vps.len() && whole(vps[j]))
            &&& (forall|k: int| 0 <= k < vps.len() ==> !whole(#[trigger] vps[k])) && (exists|k: int|
                0 <= k < vps.len() && short(#[trigger] vps[k])) ==> (meant(vps, needle) matches Some(
                j,
            ) && 0 <= j < vps.len() && short(vps[j]))
            &&& (forall|k: int|
                0 <= k < vps.len() ==> !whole(#[trigger] vps[k]) && !short(vps[k])) ==> meant(
                vps,
                needle,
            ) is None
        }),
{
    lemma_called_or_not(vps, lowered(needle), 0);
    lemma_short_or_not(vps, lowered(needle), 0);
}

proof fn lemma_called_or_not(vps: Seq<Panelled>, lower: Seq<char>, i: int)
    requires
        0 <= i <= vps.len(),
    ensures
        first_called(vps, lower, i) matches Some(j) ==> i <= j < vps.len() && is_called(
            vps[j],
            lower,
        ),
        first_called(vps, lower, i) is None ==> forall|j: int|
            i <= j < vps.len() ==> !is_called(#[trigger] vps[j], lower),
    decreases vps.len() - i,
{
    if i < vps.len() && !is_called(vps[i], lower) {
        lemma_called_or_not(vps, lower, i + 1);
    }
}

proof fn lemma_short_or_not(vps: Seq<Panelled>, lower: Seq<char>, i: int)
    requires
        0 <= i <= vps.len(),
    ensures
        first_for_short(vps, lower, i) matches Some(j) ==> i <= j < vps.len()
            && is_called_for_short(vps[j], lower),
        first_for_short(vps, lower, i) is None ==> forall|j: int|
            i <= j < vps.len() ==> !is_called_for_short(#[trigger] vps[j], lower),
    decreases vps.len() - i,
{
    if i < vps.len() && !is_called_for_short(vps[i], lower) {
        lemma_short_or_not(vps, lower, i + 1);
    }
}

} // verus!
