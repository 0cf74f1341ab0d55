//! Turning what stylesheets say into pixels.
//!
//! Everything assumes a 16px root. If a project overrides `html { font-size }`
//! the rem-based lengths elsewhere will be off, which is why the CSS detector
//! looks for that and says so in the log.
//!
//! Lengths are kept in millionths of a pixel. A number's decimal digits past
//! the sixth are dropped, once they have been held against the widest length.

use vstd::prelude::*;
use vstd::slice::slice_subrange;
use vstd::string::StringExecFns;
use crate::order::{dedup, deduped, sorted, stable_sort};
use crate::text::{
    ascii_letter, chars_of, digit, is_ascii_letter, is_digit, lower_str, lowered, same, string_of,
    trim, trim_of, trimmed, trimmed_of,
};
use super::patterns::{find_all, group_of, group_or_empty, group_views, matches_of, Groups};
use super::types::{Edge, PX};

verus! {

pub const ROOT_FONT_SIZE: i64 = 16;

/// One width condition, resolved.
///
/// `boundary` is the first pixel of the range on the far side of the condition,
/// which is the width a panel should render at. A `max-width: 767.98px` and a
/// `min-width: 768px` are the same decision written twice, and both come out of
/// here as a boundary of 768, which is what lets the pair collapse into one
/// panel instead of showing both.
#[derive(Debug, Clone, Copy, PartialEq, Eq, Structural)]
pub struct WidthHit {
    pub boundary: i64,
    pub edge: Edge,
    /// The number as it was written, for the log.
    pub raw: i64,
}

/// The number a run of digits spells.
pub open spec fn digits_value(s: Seq<char>) -> nat
    decreases s.len(),
{
    if s.len() == 0 {
        0
    } else {
        digits_value(s.drop_last()) * 10 + (s.last() as int - 48) as nat
    }
}

pub open spec fn all_digits(s: Seq<char>) -> bool {
    forall|i: int| 0 <= i < s.len() ==> is_digit(#[trigger] s[i])
}

/// The number that the first `n` of some digits spell. Missing ones are zeros.
pub open spec fn leading(ds: Seq<char>, n: int) -> nat
    decreases n,
{
    if n <= 0 {
        0
    } else if n <= ds.len() {
        leading(ds, n - 1) * 10 + (ds[n - 1] as int - 48) as nat
    } else {
        leading(ds, n - 1) * 10
    }
}

/// Where the decimal point stands, or the end.
pub open spec fn point_at(s: Seq<char>) -> int {
    super::jsobj::run_until(s, 0, s.len() as int, '.')
}

/// Where the exponent is announced, or the end.
pub open spec fn exponent_at(s: Seq<char>, i: int) -> int
    decreases s.len() - i,
{
    if i >= s.len() || s[i] == 'e' || s[i] == 'E' {
        i
    } else {
        exponent_at(s, i + 1)
    }
}

/// A whole number with a sign or without.
pub open spec fn exponent_of(s: Seq<char>) -> Option<int> {
    let signed = s.len() > 0 && (s[0] == '+' || s[0] == '-');
    let ds = if signed {
        s.skip(1)
    } else {
        s
    };
    if ds.len() > 0 && all_digits(ds) {
        Some(
            if s[0] == '-' {
                -(digits_value(ds) as int)
            } else {
                digits_value(ds) as int
            },
        )
    } else {
        None
    }
}

/// A number without an exponent and without a sign, its point moved by `shift`
/// places, in millionths.
pub open spec fn plain_number(s: Seq<char>, shift: int) -> Option<int> {
    let p = point_at(s);
    let whole = s.take(p);
    let part = if p < s.len() {
        s.skip(p + 1)
    } else {
        Seq::empty()
    };
    if all_digits(whole) && all_digits(part) && whole.len() + part.len() > 0 {
        Some(leading(whole + part, whole.len() + 6 + shift) as int)
    } else {
        None
    }
}

/// A number without a sign, in millionths. What is past them is dropped.
pub open spec fn unsigned_number(s: Seq<char>) -> Option<int> {
    let k = exponent_at(s, 0);
    if k >= s.len() {
        plain_number(s, 0)
    } else {
        match exponent_of(s.skip(k + 1)) {
            Some(x) => plain_number(s.take(k), x),
            None => None,
        }
    }
}

/// A number as a stylesheet writes one, in millionths.
pub open spec fn number(s: Seq<char>) -> Option<int> {
    if s.len() > 0 && s[0] == '+' {
        unsigned_number(s.skip(1))
    } else if s.len() > 0 && s[0] == '-' {
        match unsigned_number(s.skip(1)) {
            Some(v) => Some(-v),
            None => None,
        }
    } else {
        unsigned_number(s)
    }
}

/// Whether a digit that is dropped, from `i` on, is not a zero.
pub open spec fn nonzero_from(s: Seq<char>, i: int) -> bool {
    exists|k: int| i <= k < s.len() && 0 <= k && #[trigger] s[k] != '0'
}

/// Whether a number is more than its millionths say.
pub open spec fn spills(s: Seq<char>) -> bool {
    nonzero_from(s, point_at(s) + 7)
}

/// Where the unit starts: at the first letter or percent sign.
pub open spec fn unit_at(s: Seq<char>, i: int) -> int
    decreases s.len() - i,
{
    if i >= s.len() || is_ascii_letter(s[i]) || s[i] == '%' {
        i
    } else {
        unit_at(s, i + 1)
    }
}

/// What is left of a written length once the quotes round it are gone.
pub open spec fn unquoted(s: Seq<char>) -> Seq<char> {
    trimmed(trimmed_of(trimmed_of(trimmed(s), seq!['"']), seq!['\'']))
}

/// A number of some unit in pixels, when the unit is one a width can have.
pub open spec fn in_pixels(v: int, unit: Seq<char>) -> Option<int> {
    if unit == ""@ || unit == "px"@ {
        Some(v)
    } else if unit == "rem"@ || unit == "em"@ {
        Some(v * 16)
    } else {
        None
    }
}

/// The length somebody wrote, in millionths of a pixel, when it is a width a
/// screen could have: from one pixel to ten thousand.
pub open spec fn length_of(input: Seq<char>) -> Option<int> {
    let s = unquoted(input);
    let u = unit_at(s, 0);
    let n = trimmed(s.take(u));
    match number(n) {
        Some(v) => match in_pixels(v, s.skip(u)) {
            Some(px) => if PX <= px < 10_000 * PX || (px == 10_000 * PX && !spills(n)) {
                Some(px)
            } else {
                None
            },
            None => None,
        },
        None => None,
    }
}

proof fn lemma_unit_at(s: Seq<char>, i: int)
    requires
        0 <= i <= s.len(),
    ensures
        i <= unit_at(s, i) <= s.len(),
    decreases s.len() - i,
{
    if i >= s.len() || is_ascii_letter(s[i]) || s[i] == '%' {
    } else {
        lemma_unit_at(s, i + 1);
    }
}

/// Split a length into its number and its unit.
pub fn split_unit<'a>(s: &'a [char]) -> (r: (&'a [char], &'a [char]))
    ensures
        r.0@ == s@.take(unit_at(s@, 0)),
        r.1@ == s@.skip(unit_at(s@, 0)),
{
    let mut i: usize = 0;
    while i < s.len() && !(ascii_letter(s[i]) || s[i] == '%')
        invariant
            i <= s@.len(),
            unit_at(s@, 0) == unit_at(s@, i as int),
        decreases s.len() - i,
    {
        i += 1;
    }
    assert(s@.skip(i as int) =~= s@.subrange(i as int, s@.len() as int));
    (slice_subrange(s, 0, i), slice_subrange(s, i, s.len()))
}

proof fn lemma_leading_rises(ds: Seq<char>, a: int, b: int)
    requires
        all_digits(ds),
        a <= b,
    ensures
        leading(ds, a) <= leading(ds, b),
        ds.len() <= a && leading(ds, a) == 0 ==> leading(ds, b) == 0,
        ds.len() <= a && leading(ds, a) >= 1 ==> leading(ds, b) >= b - a,
    decreases b - a,
{
    if a < b {
        lemma_leading_rises(ds, a, b - 1);
        if 0 < b <= ds.len() {
            assert(is_digit(ds[b - 1]));
        }
        if 0 <= a && ds.len() <= a && leading(ds, a) >= 1 {
            assert(leading(ds, b - 1) >= 1);
        }
    }
}

/// All the digits of a run spell its value.
pub proof fn lemma_leading_all(ds: Seq<char>, n: int)
    requires
        0 <= n <= ds.len(),
    ensures
        leading(ds, n) == digits_value(ds.take(n)),
    decreases n,
{
    if n > 0 {
        lemma_leading_all(ds, n - 1);
        assert(ds.take(n).drop_last() =~= ds.take(n - 1));
    }
}

proof fn lemma_all_digits_take(s: Seq<char>, n: int)
    requires
        0 <= n < s.len(),
        all_digits(s.take(n)),
        is_digit(s[n]),
    ensures
        all_digits(s.take(n + 1)),
{
    assert forall|k: int| 0 <= k < s.take(n + 1).len() implies is_digit(
        #[trigger] s.take(n + 1)[k],
    ) by {
        if k < n {
            assert(s.take(n)[k] == s[k]);
        }
    }
}

fn only_digits(s: &[char]) -> (r: bool)
    ensures
        r == all_digits(s@),
{
    let mut i: usize = 0;
    while i < s.len()
        invariant
            i <= s@.len(),
            all_digits(s@.take(i as int)),
        decreases s.len() - i,
    {
        if !digit(s[i]) {
            assert(!is_digit(s@[i as int]));
            return false;
        }
        proof {
            lemma_all_digits_take(s@, i as int);
        }
        i += 1;
    }
    assert(s@.take(s@.len() as int) =~= s@);
    true
}

/// Past this an exponent leaves nothing of a number, or more than is measured.
const FAR: i128 = 1_000_000_000_000_000_000_000_000_000_000;

/// An exponent, or one just past [`FAR`] where it is further.
fn read_exponent(s: &[char]) -> (r: Option<i128>)
    ensures
        match r {
            Some(x) => exponent_of(s@) is Some && x == if exponent_of(s@)->0 > FAR {
                FAR + 1
            } else if exponent_of(s@)->0 < -FAR {
                -FAR - 1
            } else {
                exponent_of(s@)->0
            },
            None => exponent_of(s@) is None,
        },
{
    let signed = s.len() > 0 && (s[0] == '+' || s[0] == '-');
    let ds = if signed {
        slice_subrange(s, 1, s.len())
    } else {
        s
    };
    assert(signed ==> ds@ =~= s@.skip(1));
    if ds.len() == 0 || !only_digits(ds) {
        return None;
    }
    let mut v: i128 = 0;
    let mut i: usize = 0;
    while i < ds.len()
        invariant
            i <= ds@.len(),
            all_digits(ds@),
            0 <= v <= FAR + 1,
            v == if digits_value(ds@.take(i as int)) > FAR {
                FAR + 1
            } else {
                digits_value(ds@.take(i as int)) as int
            },
        decreases ds.len() - i,
    {
        assert(ds@.take(i + 1).drop_last() =~= ds@.take(i as int));
        assert(is_digit(ds@[i as int]));
        let d: i128 = (ds[i] as u32 - 48) as i128;
        if v <= FAR {
            v = v * 10 + d;
            if v > FAR {
                v = FAR + 1;
            }
        }
        i += 1;
    }
    assert(ds@.take(ds@.len() as int) =~= ds@);
    if s[0] == '-' {
        Some(-v)
    } else {
        Some(v)
    }
}

/// The number that the first `n` of some digits spell, or `cap` where it is more.
fn read_leading(ds: &[char], n: i128, cap: u64) -> (r: u64)
    requires
        all_digits(ds@),
    ensures
        r == if leading(ds@, n as int) > cap {
            cap as int
        } else {
            leading(ds@, n as int) as int
        },
{
    let most: u128 = cap as u128;
    let count: usize = ds.len();
    let mut v: u128 = 0;
    let mut i: usize = 0;
    while i < count && (i as i128) < n
        invariant
            count == ds@.len(),
            i <= count,
            n >= 0 ==> i <= n,
            n < 0 ==> i == 0,
            all_digits(ds@),
            most == cap,
            v <= most,
            v == if leading(ds@, i as int) > most {
                most as int
            } else {
                leading(ds@, i as int) as int
            },
        decreases count - i,
    {
        assert(is_digit(ds@[i as int]));
        let d: u128 = (ds[i] as u32 - 48) as u128;
        v = v * 10 + d;
        if v > most {
            v = most;
        }
        i += 1;
    }
    if n <= 0 {
        return 0;
    }
    let mut at: i128 = i as i128;
    while at < n && v > 0 && v < most
        invariant
            0 <= at <= n,
            at < n ==> at >= ds@.len(),
            all_digits(ds@),
            most == cap,
            v <= most,
            v == if leading(ds@, at as int) > most {
                most as int
            } else {
                leading(ds@, at as int) as int
            },
        decreases n - at,
    {
        v = v * 10;
        if v > most {
            v = most;
        }
        at = at + 1;
    }
    proof {
        lemma_leading_rises(ds@, at as int, n as int);
    }
    v as u64
}

/// Read a number without an exponent, its point moved by `shift` places.
fn read_plain(s: &[char], shift: i128, cap: u64) -> (r: Option<u64>)
    requires
        -FAR - 1 <= shift <= FAR + 1,
    ensures
        match r {
            Some(v) => plain_number(s@, shift as int) is Some && v == if plain_number(
                s@,
                shift as int,
            )->0 > cap {
                cap as int
            } else {
                plain_number(s@, shift as int)->0
            },
            None => plain_number(s@, shift as int) is None,
        },
{
    let mut p: usize = 0;
    while p < s.len() && s[p] != '.'
        invariant
            p <= s@.len(),
            point_at(s@) == super::jsobj::run_until(s@, p as int, s@.len() as int, '.'),
        decreases s.len() - p,
    {
        p += 1;
    }
    let whole = slice_subrange(s, 0, p);
    let part = if p < s.len() {
        slice_subrange(s, p + 1, s.len())
    } else {
        slice_subrange(s, p, p)
    };
    assert(whole@ =~= s@.take(point_at(s@)));
    assert(part@ =~= if p < s@.len() {
        s@.skip(p + 1)
    } else {
        Seq::empty()
    });
    if whole.len() == 0 && part.len() == 0 {
        return None;
    }
    if !only_digits(whole) || !only_digits(part) {
        return None;
    }
    let mut ds: Vec<char> = Vec::new();
    ds.extend_from_slice(whole);
    ds.extend_from_slice(part);
    assert(ds@ =~= whole@ + part@);
    assert forall|k: int| 0 <= k < ds@.len() implies is_digit(#[trigger] ds@[k]) by {
        if k < whole@.len() {
            assert(is_digit(whole@[k]));
        } else {
            assert(is_digit(part@[k - whole@.len()]));
        }
    }
    Some(read_leading(ds.as_slice(), whole.len() as i128 + 6 + shift, cap))
}

/// Moving the point further than [`FAR`] is moving it out of sight.
proof fn lemma_out_of_sight(s: Seq<char>, x: int, y: int)
    requires
        s.len() <= usize::MAX,
        x > FAR && y > FAR || x < -FAR && y < -FAR,
    ensures
        plain_number(s, x) is Some == plain_number(s, y) is Some,
        plain_number(s, x) is Some ==> {
            let a = plain_number(s, x)->0;
            let b = plain_number(s, y)->0;
            a == b || (a > u64::MAX && b > u64::MAX)
        },
{
    let p = point_at(s);
    if plain_number(s, x) is Some {
        let whole = s.take(p);
        let part = if p < s.len() {
            s.skip(p + 1)
        } else {
            Seq::empty()
        };
        let ds = whole + part;
        super::jsobj::lemma_run_until(s, 0, s.len() as int, '.');
        let n = ds.len() as int;
        assert forall|k: int| 0 <= k < n implies is_digit(#[trigger] ds[k]) by {
            if k < whole.len() {
                assert(is_digit(whole[k]));
            } else {
                assert(is_digit(part[k - whole.len()]));
            }
        }
        if x > FAR {
            lemma_leading_rises(ds, n, whole.len() + 6 + x);
            lemma_leading_rises(ds, n, whole.len() + 6 + y);
        }
    }
}

/// Read a number without a sign, or `cap` where it is more.
fn read_unsigned(s: &[char], cap: u64) -> (r: Option<u64>)
    ensures
        match r {
            Some(v) => unsigned_number(s@) is Some && v == if unsigned_number(s@)->0 > cap {
                cap as int
            } else {
                unsigned_number(s@)->0
            },
            None => unsigned_number(s@) is None,
        },
{
    let mut k: usize = 0;
    while k < s.len() && s[k] != 'e' && s[k] != 'E'
        invariant
            k <= s@.len(),
            exponent_at(s@, 0) == exponent_at(s@, k as int),
        decreases s.len() - k,
    {
        k += 1;
    }
    if k >= s.len() {
        return read_plain(s, 0, cap);
    }
    let m = slice_subrange(s, 0, k);
    let x = slice_subrange(s, k + 1, s.len());
    assert(m@ =~= s@.take(k as int));
    assert(x@ =~= s@.skip(k + 1));
    match read_exponent(x) {
        None => None,
        Some(shift) => {
            proof {
                let true_shift = exponent_of(x@)->0;
                assert(m@.len() <= usize::MAX);
                if true_shift != shift {
                    lemma_out_of_sight(m@, true_shift, shift as int);
                }
            }
            read_plain(m, shift, cap)
        },
    }
}

/// A number as far as a measurement goes: nothing is larger than the largest.
pub open spec fn in_measure(v: int) -> i64 {
    if v > i64::MAX {
        i64::MAX
    } else if v < -i64::MAX {
        (-i64::MAX) as i64
    } else {
        v as i64
    }
}

/// Read a number, in millionths.
pub fn read_number(s: &[char]) -> (r: Option<i64>)
    ensures
        r == match number(s@) {
            Some(v) => Some(in_measure(v)),
            None => None,
        },
{
    let signed = s.len() > 0 && (s[0] == '+' || s[0] == '-');
    let negative = s.len() > 0 && s[0] == '-';
    let rest = if signed {
        slice_subrange(s, 1, s.len())
    } else {
        s
    };
    assert(signed ==> rest@ =~= s@.skip(1));
    match read_unsigned(rest, 9_223_372_036_854_775_807) {
        Some(v) => {
            let m: i64 = v as i64;
            Some(
                if negative {
                    -m
                } else {
                    m
                },
            )
        },
        None => None,
    }
}

/// Whether a number is more than its millionths say.
fn has_more(s: &[char]) -> (r: bool)
    ensures
        r == spills(s@),
{
    let mut p: usize = 0;
    while p < s.len() && s[p] != '.'
        invariant
            p <= s@.len(),
            point_at(s@) == super::jsobj::run_until(s@, p as int, s@.len() as int, '.'),
        decreases s.len() - p,
    {
        p += 1;
    }
    if s.len() - p <= 7 {
        return false;
    }
    let mut k: usize = p + 7;
    while k < s.len()
        invariant
            point_at(s@) == p,
            p + 7 <= k <= s@.len(),
            forall|j: int| p + 7 <= j < k ==> (#[trigger] s@[j]) == '0',
        decreases s.len() - k,
    {
        if s[k] != '0' {
            assert(s@[k as int] != '0');
            return true;
        }
        k += 1;
    }
    false
}

/// `"768px"`, `"48rem"`, `"768"`. Returns None for anything that is not a
/// length, which is how `raw` queries and keyword values get filtered out.
pub fn parse_length(input: &str) -> (r: Option<i64>)
    ensures
        match r {
            Some(v) => length_of(input@) == Some(v as int) && PX <= v <= 10_000 * PX,
            None => length_of(input@) is None,
        },
{
    let chars = chars_of(input);
    let double: [char; 1] = ['"'];
    let single: [char; 1] = ['\''];
    let s = trim(trim_of(trim_of(trim(chars.as_slice()), &double), &single));
    assert(double@ =~= seq!['"']);
    assert(single@ =~= seq!['\'']);
    assert(s@ == unquoted(input@));
    let (num, unit) = split_unit(s);
    let num = trim(num);
    let unit = string_of(unit);
    proof {
        lemma_unit_at(s@, 0);
    }
    if num.len() > 0 && num[0] == '-' {
        return None;
    }
    let value = if num.len() > 0 && num[0] == '+' {
        assert(num@.skip(1) =~= num@.subrange(1, num@.len() as int));
        read_unsigned(slice_subrange(num, 1, num.len()), 1_000_000_000_000)
    } else {
        read_unsigned(num, 1_000_000_000_000)
    };
    let value: u64 = match value {
        Some(v) => v,
        None => {
            return None;
        },
    };
    let px: u64 = if same(unit.as_str(), "") || same(unit.as_str(), "px") {
        value
    } else if same(unit.as_str(), "rem") || same(unit.as_str(), "em") {
        value * 16
    } else {
        return None;
    };
    if px < 1_000_000 || px > 10_000_000_000 {
        return None;
    }
    if px == 10_000_000_000 && has_more(num) {
        return None;
    }
    Some(px as i64)
}

/// The whole pixel nearest to a width, a half going up.
pub open spec fn nearest(px: int) -> int {
    (px + 500_000) / 1_000_000 * 1_000_000
}

/// A range that ends at `px` inclusive starts again at the next pixel up.
/// Bootstrap writes that next pixel as `.98` of the one below.
pub open spec fn next_pixel(px: int) -> int {
    px / 1_000_000 * 1_000_000 + 1_000_000
}

/// The whole pixel nearest to a width, a half going up.
pub fn round_px(px: i64) -> (r: i64)
    requires
        0 <= px <= 10_000 * PX,
    ensures
        r == nearest(px as int),
        0 <= r <= 10_000 * PX,
{
    (px + 500_000) / 1_000_000 * 1_000_000
}

fn above(px: i64) -> (r: i64)
    requires
        0 <= px <= 10_000 * PX,
    ensures
        r == next_pixel(px as int),
        0 < r <= 10_001 * PX,
{
    px / 1_000_000 * 1_000_000 + 1_000_000
}

/// The boundary worth rendering at for `width <op> px`.
///
/// `width < 768px` ends just below 768, so 768 is where the next range starts,
/// which is the pixel worth rendering.
pub open spec fn hit_of(op: Seq<char>, px: int) -> WidthHit {
    if op == ">="@ {
        WidthHit { boundary: nearest(px) as i64, edge: Edge::Min, raw: px as i64 }
    } else if op == ">"@ {
        WidthHit { boundary: next_pixel(px) as i64, edge: Edge::Min, raw: px as i64 }
    } else if op == "<="@ {
        WidthHit { boundary: next_pixel(px) as i64, edge: Edge::Max, raw: px as i64 }
    } else {
        WidthHit { boundary: nearest(px) as i64, edge: Edge::Max, raw: px as i64 }
    }
}

/// Turn `width <op> length` into the boundary worth rendering at.
///
/// Shared by the single-sided and double-ended forms so the two cannot drift.
pub fn hit_for(op: &str, px: i64) -> (r: WidthHit)
    requires
        0 <= px <= 10_000 * PX,
    ensures
        r == hit_of(op@, px as int),
        0 <= r.boundary <= 10_001 * PX,
{
    if same(op, ">=") {
        WidthHit { boundary: round_px(px), edge: Edge::Min, raw: px }
    } else if same(op, ">") {
        WidthHit { boundary: above(px), edge: Edge::Min, raw: px }
    } else if same(op, "<=") {
        WidthHit { boundary: above(px), edge: Edge::Max, raw: px }
    } else {
        WidthHit { boundary: round_px(px), edge: Edge::Max, raw: px }
    }
}

/// `a <op> b` read from the other side: `48rem <= width` is `width >= 48rem`.
pub open spec fn flipped(op: Seq<char>) -> Seq<char> {
    if op == ">="@ {
        "<="@
    } else if op == ">"@ {
        "<"@
    } else if op == "<="@ {
        ">="@
    } else {
        ">"@
    }
}

pub fn flip(op: &str) -> (r: &'static str)
    ensures
        r@ == flipped(op@),
{
    if same(op, ">=") {
        "<="
    } else if same(op, ">") {
        "<"
    } else if same(op, "<=") {
        ">="
    } else {
        ">"
    }
}

/// `(min-width: 768px)` and `(max-width: 48rem)`.
pub const WIDTH_PATTERN: &'static str =
    r"(?i)\(\s*(min|max)-width\s*:\s*([0-9.]+)\s*(px|rem|em)?\s*\)";

/// Media Queries Level 4: `(width >= 768px)` and `(768px <= width)`.
pub const RANGE_PATTERN: &'static str =
    r"(?i)\(\s*(?:width\s*(>=|<=|>|<)\s*([0-9.]+)\s*(px|rem|em)?|([0-9.]+)\s*(px|rem|em)?\s*(>=|<=|>|<)\s*width)\s*\)";

/// The double-ended range: `(48rem <= width < 64rem)`.
///
/// This is the form the range syntax exists for and what PostCSS Preset Env
/// emits, and it matches neither single-sided pattern, because both of those
/// require the closing bracket straight after the operand.
pub const BOTH_PATTERN: &'static str =
    r"(?i)\(\s*([0-9.]+)\s*(px|rem|em)?\s*(<=|<|>=|>)\s*width\s*(<=|<|>=|>)\s*([0-9.]+)\s*(px|rem|em)?\s*\)";

/// The length whose number is group `n` and whose unit, if any, is group `u`.
pub open spec fn group_length(
    q: Seq<char>,
    m: Seq<Option<(usize, usize)>>,
    n: int,
    u: int,
) -> Option<int> {
    length_of(group_or_empty(q, m, n) + group_or_empty(q, m, u))
}

fn read_group_length(q: &[char], m: &Groups, n: usize, u: usize) -> (r: Option<i64>)
    ensures
        match r {
            Some(v) => group_length(q@, m@, n as int, u as int) == Some(v as int) && PX <= v
                <= 10_000 * PX,
            None => group_length(q@, m@, n as int, u as int) is None,
        },
{
    let mut raw = m.text_or_empty(q, n);
    raw.append(m.text_or_empty(q, u).as_str());
    parse_length(raw.as_str())
}

/// What one match of [`WIDTH_PATTERN`] in the query `q` says.
pub open spec fn width_hit(q: Seq<char>, m: Seq<Option<(usize, usize)>>) -> Seq<WidthHit> {
    match group_length(q, m, 2, 3) {
        None => Seq::empty(),
        Some(px) => if lowered(group_or_empty(q, m, 1)) == lowered("min"@) {
            seq![hit_of(">="@, px)]
        } else {
            seq![hit_of("<="@, px)]
        },
    }
}

/// What one match of [`RANGE_PATTERN`] in the query `q` says.
pub open spec fn range_hit(q: Seq<char>, m: Seq<Option<(usize, usize)>>) -> Seq<WidthHit> {
    if group_of(q, m, 1) is Some {
        match group_length(q, m, 2, 3) {
            None => Seq::empty(),
            Some(px) => seq![hit_of(group_or_empty(q, m, 1), px)],
        }
    } else {
        // `768px <= width` is `width >= 768px` with the operands swapped.
        match group_length(q, m, 4, 5) {
            None => Seq::empty(),
            Some(px) => seq![hit_of(flipped(group_or_empty(q, m, 6)), px)],
        }
    }
}

/// What one match of [`BOTH_PATTERN`] in the query `q` says.
///
/// The first comparison is read from the other side and the second as it
/// stands, whichever direction the range is written in, so each operator stays
/// with the bound it was written against.
pub open spec fn both_hits(q: Seq<char>, m: Seq<Option<(usize, usize)>>) -> Seq<WidthHit> {
    match (group_length(q, m, 1, 2), group_length(q, m, 5, 6)) {
        (Some(first), Some(second)) => seq![
            hit_of(flipped(group_or_empty(q, m, 3)), first),
            hit_of(group_or_empty(q, m, 4), second),
        ],
        _ => Seq::empty(),
    }
}

/// What every match of one pattern says, one after another.
pub open spec fn collected(
    ms: Seq<Seq<Option<(usize, usize)>>>,
    f: spec_fn(Seq<Option<(usize, usize)>>) -> Seq<WidthHit>,
) -> Seq<WidthHit>
    decreases ms.len(),
{
    if ms.len() == 0 {
        Seq::empty()
    } else {
        collected(ms.drop_last(), f) + f(ms.last())
    }
}

pub open spec fn hit_below(a: WidthHit, b: WidthHit) -> bool {
    a.boundary < b.boundary
}

pub open spec fn same_hit(a: WidthHit, b: WidthHit) -> bool {
    a.boundary == b.boundary && a.edge == b.edge
}

fn hit_less(a: &WidthHit, b: &WidthHit) -> (r: bool)
    ensures
        r == hit_below(*a, *b),
{
    a.boundary < b.boundary
}

fn hit_alike(a: &WidthHit, b: &WidthHit) -> (r: bool)
    ensures
        r == same_hit(*a, *b),
{
    a.boundary == b.boundary && a.edge == b.edge
}

/// Every width condition that these matches of the three patterns in `q` say,
/// narrowest first, with a condition said twice kept once.
pub open spec fn hits_from(
    q: Seq<char>,
    widths: Seq<Seq<Option<(usize, usize)>>>,
    ranges: Seq<Seq<Option<(usize, usize)>>>,
    both: Seq<Seq<Option<(usize, usize)>>>,
) -> Seq<WidthHit> {
    let all = collected(widths, |m: Seq<Option<(usize, usize)>>| width_hit(q, m)) + collected(
        ranges,
        |m: Seq<Option<(usize, usize)>>| range_hit(q, m),
    ) + collected(both, |m: Seq<Option<(usize, usize)>>| both_hits(q, m));
    deduped(
        sorted(all, |a: WidthHit, b: WidthHit| hit_below(a, b)),
        |a: WidthHit, b: WidthHit| same_hit(a, b),
    )
}

/// Every width condition in one media query.
pub open spec fn hits_in(q: Seq<char>) -> Seq<WidthHit> {
    hits_from(
        q,
        matches_of(WIDTH_PATTERN@, q),
        matches_of(RANGE_PATTERN@, q),
        matches_of(BOTH_PATTERN@, q),
    )
}

/// A boundary a query can have.
pub open spec fn in_reach(h: WidthHit) -> bool {
    0 <= h.boundary <= 10_001 * PX
}

proof fn lemma_deduped_all(
    s: Seq<WidthHit>,
    eq: spec_fn(WidthHit, WidthHit) -> bool,
    p: spec_fn(WidthHit) -> bool,
)
    requires
        forall|i: int| 0 <= i < s.len() ==> p(#[trigger] s[i]),
    ensures
        forall|i: int| 0 <= i < deduped(s, eq).len() ==> p(#[trigger] deduped(s, eq)[i]),
    decreases s.len(),
{
    if s.len() > 0 {
        assert forall|i: int| 0 <= i < s.drop_last().len() implies p(
            #[trigger] s.drop_last()[i],
        ) by {
            assert(s[i] == s.drop_last()[i]);
        }
        lemma_deduped_all(s.drop_last(), eq, p);
        let d = deduped(s.drop_last(), eq);
        assert(p(s[s.len() - 1]));
        assert forall|i: int| 0 <= i < d.push(s.last()).len() implies p(
            #[trigger] d.push(s.last())[i],
        ) by {
            if i < d.len() {
                assert(d.push(s.last())[i] == d[i]);
            }
        }
    }
}

/// The width conditions that matches of the three patterns in a query say.
pub fn widths_from(
    query: &str,
    widths: &Vec<Groups>,
    ranges: &Vec<Groups>,
    both: &Vec<Groups>,
) -> (r: Vec<WidthHit>)
    ensures
        r@ == hits_from(
            query@,
            group_views(widths@),
            group_views(ranges@),
            group_views(both@),
        ),
        forall|i: int| 0 <= i < r@.len() ==> in_reach(#[trigger] r@[i]),
{
    let q = chars_of(query);
    let qs = q.as_slice();
    let mut out: Vec<WidthHit> = Vec::new();
    let ghost p = |h: WidthHit| in_reach(h);

    let ghost fw = |m: Seq<Option<(usize, usize)>>| width_hit(query@, m);
    let ghost ws = group_views(widths@);
    let mut i: usize = 0;
    assert(collected(ws.take(0), fw) =~= Seq::<WidthHit>::empty());
    while i < widths.len()
        invariant
            i <= widths@.len(),
            qs@ == query@,
            ws == group_views(widths@),
            fw == (|m: Seq<Option<(usize, usize)>>| width_hit(query@, m)),
            out@ == collected(ws.take(i as int), fw),
            forall|k: int| 0 <= k < out@.len() ==> in_reach(#[trigger] out@[k]),
        decreases widths@.len() - i,
    {
        let m = &widths[i];
        proof {
            assert(ws.take(i + 1).drop_last() =~= ws.take(i as int));
            assert(ws.take(i + 1).last() == m@);
        }
        let ghost before = out@;
        if let Some(px) = read_group_length(qs, m, 2, 3) {
            if same(lower_str(m.text_or_empty(qs, 1).as_str()).as_str(), lower_str("min").as_str()) {
                out.push(hit_for(">=", px));
            } else {
                out.push(hit_for("<=", px));
            }
        }
        assert(out@ =~= before + fw(m@));
        i += 1;
    }
    assert(ws.take(ws.len() as int) =~= ws);
    let ghost first = out@;

    let ghost fr = |m: Seq<Option<(usize, usize)>>| range_hit(query@, m);
    let ghost rs = group_views(ranges@);
    i = 0;
    assert(out@ =~= first + collected(rs.take(0), fr));
    while i < ranges.len()
        invariant
            i <= ranges@.len(),
            qs@ == query@,
            rs == group_views(ranges@),
            fr == (|m: Seq<Option<(usize, usize)>>| range_hit(query@, m)),
            out@ == first + collected(rs.take(i as int), fr),
            forall|k: int| 0 <= k < out@.len() ==> in_reach(#[trigger] out@[k]),
        decreases ranges@.len() - i,
    {
        let m = &ranges[i];
        proof {
            assert(rs.take(i + 1).drop_last() =~= rs.take(i as int));
            assert(rs.take(i + 1).last() == m@);
        }
        let ghost before = out@;
        match m.text(qs, 1) {
            Some(op) => {
                if let Some(px) = read_group_length(qs, m, 2, 3) {
                    out.push(hit_for(op.as_str(), px));
                }
            },
            None => {
                if let Some(px) = read_group_length(qs, m, 4, 5) {
                    let op = m.text_or_empty(qs, 6);
                    out.push(hit_for(flip(op.as_str()), px));
                }
            },
        }
        assert(out@ =~= before + fr(m@));
        assert(first + (collected(rs.take(i as int), fr) + fr(m@)) =~= before + fr(m@));
        i += 1;
    }
    assert(rs.take(rs.len() as int) =~= rs);
    let ghost second = out@;

    let ghost fb = |m: Seq<Option<(usize, usize)>>| both_hits(query@, m);
    let ghost bs = group_views(both@);
    i = 0;
    assert(out@ =~= second + collected(bs.take(0), fb));
    while i < both.len()
        invariant
            i <= both@.len(),
            qs@ == query@,
            bs == group_views(both@),
            fb == (|m: Seq<Option<(usize, usize)>>| both_hits(query@, m)),
            out@ == second + collected(bs.take(i as int), fb),
            forall|k: int| 0 <= k < out@.len() ==> in_reach(#[trigger] out@[k]),
        decreases both@.len() - i,
    {
        let m = &both[i];
        proof {
            assert(bs.take(i + 1).drop_last() =~= bs.take(i as int));
            assert(bs.take(i + 1).last() == m@);
        }
        let ghost before = out@;
        let low = read_group_length(qs, m, 1, 2);
        let high = read_group_length(qs, m, 5, 6);
        if let (Some(one), Some(two)) = (low, high) {
            let op1 = m.text_or_empty(qs, 3);
            let op2 = m.text_or_empty(qs, 4);
            out.push(hit_for(flip(op1.as_str()), one));
            out.push(hit_for(op2.as_str(), two));
        }
        assert(out@ =~= before + fb(m@));
        assert(second + (collected(bs.take(i as int), fb) + fb(m@)) =~= before + fb(m@));
        i += 1;
    }
    assert(bs.take(bs.len() as int) =~= bs);

    let ghost all = out@;
    let ghost lt = |a: WidthHit, b: WidthHit| hit_below(a, b);
    let ghost eq = |a: WidthHit, b: WidthHit| same_hit(a, b);
    let ordered = stable_sort(out, hit_less, Ghost(lt));
    let r = dedup(ordered, hit_alike, Ghost(eq));
    proof {
        crate::order::lemma_sorted_all(all, lt, p);
        lemma_deduped_all(ordered@, eq, p);
        assert forall|k: int| 0 <= k < r@.len() implies in_reach(#[trigger] r@[k]) by {
            assert(p(r@[k]));
        }
    }
    r
}

/// Every width condition in one media query. A query with no width component
/// returns nothing, which is how print, `prefers-reduced-motion` and retina
/// queries get dropped before they can become panels.
pub fn widths_in_query(query: &str) -> (r: Vec<WidthHit>)
    ensures
        r@ == hits_in(query@),
        forall|i: int| 0 <= i < r@.len() ==> in_reach(#[trigger] r@[i]),
{
    let widths = find_all(WIDTH_PATTERN, query);
    let ranges = find_all(RANGE_PATTERN, query);
    let both = find_all(BOTH_PATTERN, query);
    widths_from(query, &widths, &ranges, &both)
}

proof fn lemma_collected_all(
    ms: Seq<Seq<Option<(usize, usize)>>>,
    f: spec_fn(Seq<Option<(usize, usize)>>) -> Seq<WidthHit>,
)
    requires
        forall|m: Seq<Option<(usize, usize)>>, i: int|
            0 <= i < f(m).len() ==> in_reach(#[trigger] f(m)[i]),
    ensures
        forall|i: int| 0 <= i < collected(ms, f).len() ==> in_reach(#[trigger] collected(ms, f)[i]),
    decreases ms.len(),
{
    if ms.len() > 0 {
        lemma_collected_all(ms.drop_last(), f);
        let a = collected(ms.drop_last(), f);
        let b = f(ms.last());
        assert forall|i: int| 0 <= i < (a + b).len() implies in_reach(#[trigger] (a + b)[i]) by {
            if i < a.len() {
                assert((a + b)[i] == a[i]);
            } else {
                assert((a + b)[i] == b[i - a.len()]);
            }
        }
    }
}

/// Every width a query can speak of is one a screen could have.
pub proof fn lemma_hits_in_reach(q: Seq<char>)
    ensures
        forall|i: int| 0 <= i < hits_in(q).len() ==> in_reach(#[trigger] hits_in(q)[i]),
{
    let fw = |m: Seq<Option<(usize, usize)>>| width_hit(q, m);
    let fr = |m: Seq<Option<(usize, usize)>>| range_hit(q, m);
    let fb = |m: Seq<Option<(usize, usize)>>| both_hits(q, m);
    let ws = collected(matches_of(WIDTH_PATTERN@, q), fw);
    let rs = collected(matches_of(RANGE_PATTERN@, q), fr);
    let bs = collected(matches_of(BOTH_PATTERN@, q), fb);
    lemma_collected_all(matches_of(WIDTH_PATTERN@, q), fw);
    lemma_collected_all(matches_of(RANGE_PATTERN@, q), fr);
    lemma_collected_all(matches_of(BOTH_PATTERN@, q), fb);
    let all = ws + rs + bs;
    let p = |h: WidthHit| in_reach(h);
    assert forall|i: int| 0 <= i < all.len() implies p(#[trigger] all[i]) by {
        if i < ws.len() {
            assert(all[i] == ws[i]);
        } else if i < ws.len() + rs.len() {
            assert(all[i] == rs[i - ws.len()]);
        } else {
            assert(all[i] == bs[i - ws.len() - rs.len()]);
        }
    }
    let lt = |a: WidthHit, b: WidthHit| hit_below(a, b);
    let eq = |a: WidthHit, b: WidthHit| same_hit(a, b);
    crate::order::lemma_sorted_all(all, lt, p);
    lemma_deduped_all(sorted(all, lt), eq, p);
    assert(hits_in(q) == deduped(sorted(all, lt), eq));
    assert forall|i: int| 0 <= i < hits_in(q).len() implies in_reach(#[trigger] hits_in(q)[i]) by {
        assert(p(hits_in(q)[i]));
    }
}

/// A query that ends just under a whole pixel, or a whole pixel below it, and
/// a query that starts at that pixel are the same decision: both have their
/// boundary there.
pub proof fn a_pair_lands_on_one_boundary(n: int, short: int)
    requires
        1 <= n <= 10_000,
        0 < short <= 1_000_000,
    ensures
        hit_of("<="@, n * 1_000_000 - short).boundary == n * 1_000_000,
        hit_of(">="@, n * 1_000_000).boundary == n * 1_000_000,
        hit_of("<"@, n * 1_000_000).boundary == n * 1_000_000,
{
    reveal_strlit("<=");
    reveal_strlit(">=");
    reveal_strlit("<");
    reveal_strlit(">");
    assert("<="@.len() == 2 && ">="@.len() == 2 && "<"@.len() == 1 && ">"@.len() == 1);
    assert("<="@[0] == '<' && ">="@[0] == '>' && "<"@[0] == '<' && ">"@[0] == '>');
}

proof fn lemma_unit_at_is(s: Seq<char>, i: int, u: int)
    requires
        0 <= i <= u <= s.len(),
        forall|k: int| i <= k < u ==> !is_ascii_letter(#[trigger] s[k]) && s[k] != '%',
        u < s.len() ==> is_ascii_letter(s[u]),
    ensures
        unit_at(s, i) == u,
    decreases u - i,
{
    if i < u {
        assert(!is_ascii_letter(s[i]));
        lemma_unit_at_is(s, i + 1, u);
    }
}

/// A plain number of pixels is the length it spells.
proof fn lemma_plain_pixels(num: Seq<char>, v: int)
    requires
        num.len() > 0,
        forall|k: int| 0 <= k < num.len() ==> is_digit(#[trigger] num[k]) || num[k] == '.',
        number(num) == Some(v),
        PX <= v < 10_000 * PX || (v == 10_000 * PX && !spills(num)),
    ensures
        length_of(num + "px"@) == Some(v),
{
    reveal_strlit("px");
    reveal_strlit("");
    let s = num + "px"@;
    let n = num.len() as int;
    assert(is_digit(num[0]) || num[0] == '.');
    assert(is_digit(num[n - 1]) || num[n - 1] == '.');
    assert(s[0] == num[0] && s.last() == 'x');
    assert(trimmed(s) == s);
    assert(trimmed_of(s, seq!['"']) == s);
    assert(trimmed_of(s, seq!['\'']) == s);
    assert(unquoted(s) == s);
    assert forall|k: int| 0 <= k < n implies !is_ascii_letter(#[trigger] s[k]) && s[k] != '%' by {
        assert(s[k] == num[k]);
    }
    assert(s[n] == 'p');
    lemma_unit_at_is(s, 0, n);
    assert(s.take(n) =~= num);
    assert(s.skip(n) =~= "px"@);
    assert(trimmed(num) == num);
    assert("px"@.len() != ""@.len());
}

pub proof fn lemma_no_exponent(s: Seq<char>, i: int)
    requires
        0 <= i <= s.len(),
        forall|k: int| 0 <= k < s.len() ==> is_digit(#[trigger] s[k]) || s[k] == '.',
    ensures
        exponent_at(s, i) == s.len(),
    decreases s.len() - i,
{
    if i < s.len() {
        assert(is_digit(s[i]) || s[i] == '.');
        lemma_no_exponent(s, i + 1);
    }
}

/// A whole number of pixels.
proof fn lemma_whole_pixels(n: nat)
    requires
        1 <= n <= 10_000,
    ensures
        length_of(crate::text::decimal(n) + "px"@) == Some(n * PX),
{
    let s = crate::text::decimal(n);
    crate::project_file::laws::lemma_whole_number(n);
    crate::project_file::laws::lemma_decimal_digits(n);
    crate::project_file::laws::lemma_no_point(s, 0);
    lemma_plain_pixels(s, n * PX);
}

/// A number of pixels that ends in `.98`.
proof fn lemma_short_pixels(n: nat)
    requires
        1 <= n < 10_000,
    ensures
        length_of(crate::text::decimal(n) + ".98"@ + "px"@) == Some(n * PX + 980_000),
{
    reveal_strlit(".98");
    let d = crate::text::decimal(n);
    let s = d + ".98"@;
    let p = d.len() as int;
    crate::project_file::laws::lemma_decimal_digits(n);
    lemma_point_at(s, 0, p);
    assert forall|k: int| 0 <= k < s.len() implies is_digit(#[trigger] s[k]) || s[k] == '.' by {
        if k < p {
            assert(s[k] == d[k]);
        }
    }
    let part = seq!['9', '8'];
    assert(s.take(p) =~= d);
    assert(s.skip(p + 1) =~= part);
    let ds = d + part;
    lemma_leading_all(ds, p);
    assert(ds.take(p) =~= d);
    assert(ds[p] == '9' && ds[p + 1] == '8');
    assert(leading(ds, p + 1) == n * 10 + 9);
    assert(leading(ds, p + 2) == n * 100 + 98);
    assert(leading(ds, p + 3) == n * 1000 + 980);
    assert(leading(ds, p + 4) == n * 10_000 + 9_800);
    assert(leading(ds, p + 5) == n * 100_000 + 98_000);
    assert(leading(ds, p + 6) == n * 1_000_000 + 980_000);
    lemma_no_exponent(s, 0);
    assert(is_digit(d[0]));
    assert(s[0] == d[0]);
    assert(number(s) == Some(n * PX + 980_000));
    lemma_plain_pixels(s, n * PX + 980_000);
}

proof fn lemma_point_at(s: Seq<char>, i: int, p: int)
    requires
        0 <= i <= p < s.len(),
        s[p] == '.',
        forall|k: int| i <= k < p ==> is_digit(#[trigger] s[k]),
    ensures
        super::jsobj::run_until(s, i, s.len() as int, '.') == p,
    decreases p - i,
{
    if i < p {
        assert(is_digit(s[i]));
        lemma_point_at(s, i + 1, p);
    }
}

/// Whether a match of [`WIDTH_PATTERN`] is `(edge-width: number px)`.
pub open spec fn writes_width(
    q: Seq<char>,
    m: Seq<Option<(usize, usize)>>,
    edge: Seq<char>,
    number: Seq<char>,
) -> bool {
    &&& group_of(q, m, 1) == Some(edge)
    &&& group_of(q, m, 2) == Some(number)
    &&& group_of(q, m, 3) == Some("px"@)
}

/// Whether a match of [`RANGE_PATTERN`] is `(width op number px)`.
pub open spec fn writes_range(
    q: Seq<char>,
    m: Seq<Option<(usize, usize)>>,
    op: Seq<char>,
    number: Seq<char>,
) -> bool {
    &&& group_of(q, m, 1) == Some(op)
    &&& group_of(q, m, 2) == Some(number)
    &&& group_of(q, m, 3) == Some("px"@)
}

/// Whether the one boundary of a query is at the whole pixel `n`.
pub open spec fn changes_at(hits: Seq<WidthHit>, n: nat) -> bool {
    hits.len() == 1 && hits[0].boundary == n * PX
}

proof fn lemma_one_hit(h: WidthHit)
    ensures
        deduped(
            sorted(seq![h], |a: WidthHit, b: WidthHit| hit_below(a, b)),
            |a: WidthHit, b: WidthHit| same_hit(a, b),
        ) == seq![h],
{
    let lt = |a: WidthHit, b: WidthHit| hit_below(a, b);
    let eq = |a: WidthHit, b: WidthHit| same_hit(a, b);
    let none = Seq::<WidthHit>::empty();
    let one = seq![h];
    assert(one.drop_last() =~= none);
    assert(sorted(none, lt) == none);
    assert(sorted(one, lt) =~= one);
    assert(deduped(none, eq) == none);
    assert(deduped(one, eq) =~= one);
}

/// Five ways to write one boundary, and a query whose one match is any of them
/// changes at the same pixel: `min-width` at it, `max-width` a pixel below it or
/// just under it, and `width` compared with it from either side.
pub proof fn five_spellings_are_one_boundary(
    q: Seq<char>,
    m: Seq<Option<(usize, usize)>>,
    n: nat,
)
    requires
        2 <= n <= 10_000,
    ensures
        ({
            let none = Seq::<Seq<Option<(usize, usize)>>>::empty();
            let at = crate::text::decimal(n);
            let below = crate::text::decimal((n - 1) as nat);
            let width = hits_from(q, seq![m], none, none);
            let range = hits_from(q, none, seq![m], none);
            &&& writes_width(q, m, "min"@, at) ==> changes_at(width, n)
            &&& writes_width(q, m, "max"@, below) ==> changes_at(width, n)
            &&& writes_width(q, m, "max"@, below + ".98"@) ==> changes_at(width, n)
            &&& writes_range(q, m, ">="@, at) ==> changes_at(range, n)
            &&& writes_range(q, m, "<"@, at) ==> changes_at(range, n)
        }),
{
    reveal_strlit("min");
    reveal_strlit("max");
    let none = Seq::<Seq<Option<(usize, usize)>>>::empty();
    let fw = |m: Seq<Option<(usize, usize)>>| width_hit(q, m);
    let fr = |m: Seq<Option<(usize, usize)>>| range_hit(q, m);
    let fb = |m: Seq<Option<(usize, usize)>>| both_hits(q, m);
    let ms = seq![m];
    assert(ms.drop_last() =~= none);
    assert(collected(none, fw) =~= Seq::<WidthHit>::empty());
    assert(collected(none, fr) =~= Seq::<WidthHit>::empty());
    assert(collected(none, fb) =~= Seq::<WidthHit>::empty());
    assert(collected(ms, fw) =~= width_hit(q, m));
    assert(collected(ms, fr) =~= range_hit(q, m));
    let w = collected(ms, fw) + collected(none, fr) + collected(none, fb);
    let r = collected(none, fw) + collected(ms, fr) + collected(none, fb);
    assert(w =~= width_hit(q, m));
    assert(r =~= range_hit(q, m));
    lemma_whole_pixels(n);
    lemma_whole_pixels((n - 1) as nat);
    lemma_short_pixels((n - 1) as nat);
    a_pair_lands_on_one_boundary(n as int, 1_000_000);
    a_pair_lands_on_one_boundary(n as int, 20_000);
    assert(lowered("min"@)[1] == 'i');
    assert(lowered("max"@)[1] == 'a');
    if width_hit(q, m).len() == 1 {
        assert(width_hit(q, m) =~= seq![width_hit(q, m)[0]]);
        lemma_one_hit(width_hit(q, m)[0]);
    }
    if range_hit(q, m).len() == 1 {
        assert(range_hit(q, m) =~= seq![range_hit(q, m)[0]]);
        lemma_one_hit(range_hit(q, m)[0]);
    }
}

/// Reading a comparison from the other side twice gives it back.
pub proof fn flipping_twice_changes_nothing(op: Seq<char>)
    requires
        op == ">="@ || op == ">"@ || op == "<="@ || op == "<"@,
    ensures
        flipped(flipped(op)) == op,
{
    reveal_strlit("<=");
    reveal_strlit(">=");
    reveal_strlit("<");
    reveal_strlit(">");
    assert("<="@.len() == 2 && ">="@.len() == 2 && "<"@.len() == 1 && ">"@.len() == 1);
    assert("<="@[0] == '<' && ">="@[0] == '>' && "<"@[0] == '<' && ">"@[0] == '>');
}

/// A font size set on the root element.
pub const ROOT_SIZE_PATTERN: &'static str =
    r"(?is):root\s*\{[^}]*?font-size\s*:\s*([^;}]+)|html\s*\{[^}]*?font-size\s*:\s*([^;}]+)";

/// The root font size that the first of these matches sets, unless it is the
/// one browsers start with.
pub open spec fn root_size_from(css: Seq<char>, ms: Seq<Seq<Option<(usize, usize)>>>) -> Option<
    Seq<char>,
> {
    if ms.len() == 0 {
        None
    } else {
        let raw = match group_of(css, ms[0], 1) {
            Some(t) => Some(t),
            None => group_of(css, ms[0], 2),
        };
        match raw {
            None => None,
            Some(t) => {
                let value = trimmed(
                    crate::text::strip_back(trimmed(t), |c: char| seq![';'].contains(c)),
                );
                if value == "100%"@ || value == "16px"@ || value == "1rem"@ {
                    None
                } else {
                    Some(value)
                }
            },
        }
    }
}

/// The root font size that the first of these matches sets.
pub fn root_size(css: &str, ms: &Vec<Groups>) -> (r: Option<String>)
    ensures
        crate::text::opt_view(r) == root_size_from(css@, group_views(ms@)),
{
    if ms.len() == 0 {
        return None;
    }
    let chars = chars_of(css);
    let m = &ms[0];
    assert(group_views(ms@)[0] == m@);
    let raw = match m.text(chars.as_slice(), 1) {
        Some(t) => Some(t),
        None => m.text(chars.as_slice(), 2),
    };
    match raw {
        None => None,
        Some(t) => {
            let t = chars_of(t.as_str());
            let semicolon: [char; 1] = [';'];
            assert(semicolon@ =~= seq![';']);
            let kept = crate::text::trim_end_of(trim(t.as_slice()), &semicolon);
            let value = string_of(trim(kept));
            if same(value.as_str(), "100%") || same(value.as_str(), "16px") || same(
                value.as_str(),
                "1rem",
            ) {
                None
            } else {
                Some(value)
            }
        },
    }
}

/// The root font size a stylesheet sets, when it moves it.
pub fn overrides_root_font_size(css: &str) -> (r: Option<String>)
    ensures
        crate::text::opt_view(r) == root_size_from(css@, matches_of(ROOT_SIZE_PATTERN@, css@)),
{
    root_size(css, &find_all(ROOT_SIZE_PATTERN, css))
}

/// The decimals of a width, as far as the last that is not zero.
pub open spec fn decimals(f: nat, unit: nat) -> Seq<char>
    decreases unit,
{
    if f == 0 || unit == 0 {
        Seq::empty()
    } else {
        seq![crate::text::digit_char((f / unit) as int)] + decimals(f % unit, unit / 10)
    }
}

/// A width written as a number of pixels.
pub open spec fn px_text(w: int) -> Seq<char> {
    let m = if w < 0 {
        -w
    } else {
        w
    };
    (if w < 0 {
        "-"@
    } else {
        ""@
    }) + crate::text::decimal((m / 1_000_000) as nat) + if m % 1_000_000 == 0 {
        ""@
    } else {
        "."@ + decimals((m % 1_000_000) as nat, 100_000)
    }
}

pub fn px_string(w: i64) -> (r: String)
    ensures
        r@ == px_text(w as int),
{
    let mut out = String::new();
    let m: u64 = if w < 0 {
        out.append("-");
        (-(w as i128)) as u64
    } else {
        out.append("");
        w as u64
    };
    out.append(crate::text::decimal_string(m / 1_000_000).as_str());
    let mut f: u64 = m % 1_000_000;
    if f == 0 {
        out.append("");
    } else {
        out.append(".");
        let ghost before = out@;
        let ghost whole = decimals(f as nat, 100_000);
        let mut unit: u64 = 100_000;
        assert(out@ + decimals(f as nat, unit as nat) =~= before + whole);
        while f > 0 && unit > 0
            invariant
                unit == 100_000 || unit == 10_000 || unit == 1_000 || unit == 100 || unit == 10
                    || unit == 1 || unit == 0,
                unit > 0 ==> f < 10 * unit,
                out@ + decimals(f as nat, unit as nat) == before + whole,
            decreases unit,
        {
            let ghost here = out@;
            let ghost all = decimals(f as nat, unit as nat);
            let d: u64 = f / unit;
            assert(d < 10) by (nonlinear_arith)
                requires
                    d == f / unit,
                    f < 10 * unit,
                    unit > 0,
            ;
            crate::text::push_digit(&mut out, d);
            let rest: u64 = f % unit;
            assert(rest < unit) by (nonlinear_arith)
                requires
                    rest == f % unit,
                    unit > 0,
            ;
            let smaller: u64 = unit / 10;
            assert(out@ + decimals(rest as nat, smaller as nat) =~= here + all);
            f = rest;
            unit = smaller;
        }
        assert(out@ =~= before + whole);
    }
    out
}

/// Where a comparison turns: a whole number of pixels is at least or more than
/// the length exactly from the boundary on, and is at most it or less exactly
/// below it. For `>=` and `<` that is so of a whole length, and any other is
/// taken to the nearest.
pub proof fn a_boundary_is_where_the_query_turns(px: int, w: int)
    requires
        0 <= px <= 10_000_000_000,
    ensures
        hit_of(">="@, px).edge == Edge::Min,
        hit_of(">"@, px).edge == Edge::Min,
        hit_of("<="@, px).edge == Edge::Max,
        hit_of("<"@, px).edge == Edge::Max,
        w * 1_000_000 > px <==> w * 1_000_000 >= hit_of(">"@, px).boundary,
        w * 1_000_000 <= px <==> w * 1_000_000 < hit_of("<="@, px).boundary,
        px % 1_000_000 == 0 ==> hit_of(">="@, px).boundary == px && hit_of("<"@, px).boundary == px,
        -500_000 <= hit_of(">="@, px).boundary - px <= 500_000,
        -500_000 <= hit_of("<"@, px).boundary - px <= 500_000,
        hit_of(">="@, px).raw == px,
        hit_of("<="@, px).raw == px,
{
    reveal_strlit("<=");
    reveal_strlit(">=");
    reveal_strlit("<");
    reveal_strlit(">");
    assert("<="@.len() == 2 && ">="@.len() == 2 && "<"@.len() == 1 && ">"@.len() == 1);
    assert("<="@[0] == '<' && ">="@[0] == '>' && "<"@[0] == '<' && ">"@[0] == '>');
}

/// Read from the other side, at least is at most and more is less.
pub proof fn a_comparison_is_flipped()
    ensures
        flipped(">="@) == "<="@,
        flipped("<="@) == ">="@,
        flipped(">"@) == "<"@,
        flipped("<"@) == ">"@,
{
    reveal_strlit("<=");
    reveal_strlit(">=");
    reveal_strlit("<");
    reveal_strlit(">");
    assert("<="@.len() == 2 && ">="@.len() == 2 && "<"@.len() == 1 && ">"@.len() == 1);
    assert("<="@[0] == '<' && ">="@[0] == '>' && "<"@[0] == '<' && ">"@[0] == '>');
}

/// A `rem` and an `em` are sixteen pixels, whatever a stylesheet sets the root
/// to; a bare number is pixels, and no other unit is a width.
pub proof fn a_rem_is_sixteen_pixels(v: int, unit: Seq<char>)
    ensures
        in_pixels(v, "px"@) == Some(v),
        in_pixels(v, ""@) == Some(v),
        in_pixels(v, "rem"@) == Some(16 * v),
        in_pixels(v, "em"@) == Some(16 * v),
        unit != "px"@ && unit != ""@ && unit != "rem"@ && unit != "em"@ ==> in_pixels(v, unit)
            is None,
{
    reveal_strlit("px");
    reveal_strlit("");
    reveal_strlit("rem");
    reveal_strlit("em");
    assert("px"@.len() == 2 && ""@.len() == 0 && "rem"@.len() == 3 && "em"@.len() == 2);
    assert("px"@[0] == 'p' && "em"@[0] == 'e');
}

/// A length is one only from a pixel to ten thousand.
pub proof fn a_length_is_one_a_screen_could_have(input: Seq<char>)
    ensures
        length_of(input) matches Some(px) ==> 1_000_000 <= px <= 10_000_000_000,
{
}

proof fn lemma_collected(
    ms: Seq<Seq<Option<(usize, usize)>>>,
    f: spec_fn(Seq<Option<(usize, usize)>>) -> Seq<WidthHit>,
    k: int,
    h: WidthHit,
)
    requires
        0 <= k < ms.len(),
        f(ms[k]).contains(h),
    ensures
        collected(ms, f).contains(h),
    decreases ms.len(),
{
    let d = ms.drop_last();
    let before = collected(d, f);
    let r = collected(ms, f);
    if k < d.len() {
        assert(d[k] == ms[k]);
        lemma_collected(d, f, k, h);
        assert(r[before.index_of(h)] == h);
    } else {
        assert(r[before.len() + f(ms.last()).index_of(h)] == h);
    }
}

proof fn lemma_dedup_hit(s: Seq<WidthHit>, i: int)
    requires
        0 <= i < s.len(),
    ensures
        ({
            let d = deduped(s, |a: WidthHit, b: WidthHit| same_hit(a, b));
            exists|j: int|
                0 <= j < d.len() && (#[trigger] d[j]).boundary == s[i].boundary && d[j].edge
                    == s[i].edge
        }),
    decreases s.len(),
{
    let eq = |a: WidthHit, b: WidthHit| same_hit(a, b);
    let p = s.drop_last();
    let dp = deduped(p, eq);
    let d = deduped(s, eq);
    if i == s.len() - 1 {
        assert(d[d.len() - 1].boundary == s[i].boundary && d[d.len() - 1].edge == s[i].edge);
    } else {
        assert(p[i] == s[i]);
        lemma_dedup_hit(p, i);
        let j = choose|j: int|
            0 <= j < dp.len() && (#[trigger] dp[j]).boundary == p[i].boundary && dp[j].edge
                == p[i].edge;
        assert(d[j] == dp[j]);
    }
}

/// Every condition of a query counts: the boundary and side of each one that
/// matched are among the query's, whichever way it was written.
pub proof fn every_condition_of_a_query_counts(
    q: Seq<char>,
    widths: Seq<Seq<Option<(usize, usize)>>>,
    ranges: Seq<Seq<Option<(usize, usize)>>>,
    both: Seq<Seq<Option<(usize, usize)>>>,
    k: int,
    h: WidthHit,
)
    requires
        (0 <= k < widths.len() && width_hit(q, widths[k]).contains(h)) || (0 <= k < ranges.len()
            && range_hit(q, ranges[k]).contains(h)) || (0 <= k < both.len() && both_hits(
            q,
            both[k],
        ).contains(h)),
    ensures
        ({
            let r = hits_from(q, widths, ranges, both);
            exists|j: int|
                0 <= j < r.len() && (#[trigger] r[j]).boundary == h.boundary && r[j].edge == h.edge
        }),
{
    let fw = |m: Seq<Option<(usize, usize)>>| width_hit(q, m);
    let fr = |m: Seq<Option<(usize, usize)>>| range_hit(q, m);
    let fb = |m: Seq<Option<(usize, usize)>>| both_hits(q, m);
    let lt = |a: WidthHit, b: WidthHit| hit_below(a, b);
    let a = collected(widths, fw);
    let b = collected(ranges, fr);
    let c = collected(both, fb);
    let all = a + b + c;
    if 0 <= k < widths.len() && width_hit(q, widths[k]).contains(h) {
        lemma_collected(widths, fw, k, h);
        assert(all[a.index_of(h)] == h);
    } else if 0 <= k < ranges.len() && range_hit(q, ranges[k]).contains(h) {
        lemma_collected(ranges, fr, k, h);
        assert(all[a.len() + b.index_of(h)] == h);
    } else {
        lemma_collected(both, fb, k, h);
        assert(all[a.len() + b.len() + c.index_of(h)] == h);
    }
    assert(crate::order::ranks(lt));
    crate::order::lemma_sorted_keeps(all, lt, h);
    let o = sorted(all, lt);
    let i = o.index_of(h);
    lemma_dedup_hit(o, i);
    let r = hits_from(q, widths, ranges, both);
    let j = choose|j: int|
        0 <= j < r.len() && (#[trigger] r[j]).boundary == o[i].boundary && r[j].edge == o[i].edge;
    assert(r[j].boundary == h.boundary);
}

/// What each way of writing a condition says: `min-width` is from the length
/// on, `max-width` up to it, and a range is as it compares, on each side of
/// `width` that it does.
pub proof fn a_condition_says_what_it_compares(q: Seq<char>, m: Seq<Option<(usize, usize)>>)
    ensures
        group_length(q, m, 2, 3) matches Some(px) ==> {
            &&& group_or_empty(q, m, 1) == "min"@ ==> width_hit(q, m) == seq![hit_of(">="@, px)]
            &&& group_or_empty(q, m, 1) == "max"@ ==> width_hit(q, m) == seq![hit_of("<="@, px)]
            &&& group_of(q, m, 1) is Some ==> range_hit(q, m) == seq![
                hit_of(group_or_empty(q, m, 1), px),
            ]
        },
        group_of(q, m, 1) is None ==> (group_length(q, m, 4, 5) matches Some(px) ==> range_hit(q, m)
            == seq![hit_of(flipped(group_or_empty(q, m, 6)), px)]),
        group_length(q, m, 1, 2) is Some && group_length(q, m, 5, 6) is Some ==> both_hits(q, m)
            == seq![
            hit_of(flipped(group_or_empty(q, m, 3)), group_length(q, m, 1, 2)->0),
            hit_of(group_or_empty(q, m, 4), group_length(q, m, 5, 6)->0),
        ],
        group_length(q, m, 2, 3) is None ==> width_hit(q, m).len() == 0,
{
    reveal_strlit("min");
    reveal_strlit("max");
    assert(lowered("min"@)[1] == 'i');
    assert(lowered("max"@)[1] == 'a');
}

} // verus!
