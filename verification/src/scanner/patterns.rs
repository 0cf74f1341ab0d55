//! Searching text for a pattern.

use vstd::prelude::*;
use crate::text::{byte_at, char_width, chars_of, slice_string};

verus! {

/// One match of a pattern: for each of its groups, the characters it took
/// part with, from the first up to the one past the last. The first group is
/// the whole match.
#[derive(Debug)]
pub struct Groups {
    pub spans: Vec<Option<(usize, usize)>>,
}

impl View for Groups {
    type V = Seq<Option<(usize, usize)>>;

    open spec fn view(&self) -> Seq<Option<(usize, usize)>> {
        self.spans@
    }
}

pub open spec fn group_views(v: Seq<Groups>) -> Seq<Seq<Option<(usize, usize)>>> {
    v.map_values(|g: Groups| g@)
}

/// Every match the regex crate finds of `pattern` in `text`, left to right
/// and without overlap, or nothing when `pattern` does not compile. Places are
/// counted in bytes.
pub uninterp spec fn captures_of(pattern: Seq<char>, text: Seq<char>) -> Option<
    Seq<Seq<Option<(usize, usize)>>>,
>;

/// Where a span starts.
pub open spec fn lo(span: Option<(usize, usize)>) -> usize {
    match span {
        Some((a, _b)) => a,
        None => 0,
    }
}

/// Where a span ends.
pub open spec fn hi(span: Option<(usize, usize)>) -> usize {
    match span {
        Some((_a, b)) => b,
        None => 0,
    }
}

/// A span that lies in a text that is `n` long.
pub open spec fn lies_in(span: Option<(usize, usize)>, n: nat) -> bool {
    lo(span) <= hi(span) <= n
}

/// Matches as they come out of a text that is `n` long: the whole match is
/// always there, every group lies in it, and no match starts before the one
/// before it has ended.
pub open spec fn well_placed(all: Seq<Seq<Option<(usize, usize)>>>, n: nat) -> bool {
    &&& forall|i: int, k: int|
        0 <= i < all.len() && 0 <= k < all[i].len() ==> {
            &&& lies_in(#[trigger] all[i][k], n)
            &&& all[i][k] is Some ==> lo(all[i][0]) <= lo(all[i][k]) && hi(all[i][k]) <= hi(all[i][0])
        }
    &&& forall|i: int|
        #![trigger all[i]]
        0 <= i < all.len() ==> all[i].len() > 0 && all[i][0] is Some
    &&& forall|i: int, j: int|
        #![trigger all[i], all[j]]
        0 <= i < j < all.len() ==> hi(all[i][0]) <= lo(all[j][0])
}

/// `Regex::new` and `Regex::captures_iter` of the regex crate. What they find
/// depends on the pattern and the text alone. `captures_iter` yields
/// successive matches that do not overlap, each with its whole match as group
/// zero and every group that took part inside it, by its byte offsets.
#[verifier::external_body]
fn captures(pattern: &str, text: &str) -> (r: Option<Vec<Groups>>)
    ensures
        match r {
            Some(all) => captures_of(pattern@, text@) == Some(group_views(all@)) && well_placed(
                group_views(all@),
                vstd::utf8::encode_utf8(text@).len(),
            ),
            None => captures_of(pattern@, text@) is None,
        },
{
    let re = regex::Regex::new(pattern).ok()?;
    let all = re.captures_iter(text).map(|caps| Groups {
        spans: caps.iter().map(|g| g.map(|m| (m.start(), m.end()))).collect(),
    });
    Some(all.collect())
}

/// The first character, from `i` on, that starts at byte `b` or later.
pub open spec fn char_from(s: Seq<char>, i: int, b: usize) -> int
    decreases s.len() - i,
{
    if i >= s.len() || byte_at(s, i) >= b {
        i
    } else {
        char_from(s, i + 1, b)
    }
}

/// A span in characters, from one in bytes.
pub open spec fn in_chars(s: Seq<char>, span: Option<(usize, usize)>) -> Option<(usize, usize)> {
    match span {
        Some((a, b)) => Some((char_from(s, 0, a) as usize, char_from(s, 0, b) as usize)),
        None => None,
    }
}

pub open spec fn match_in_chars(s: Seq<char>, m: Seq<Option<(usize, usize)>>) -> Seq<
    Option<(usize, usize)>,
> {
    m.map_values(|span: Option<(usize, usize)>| in_chars(s, span))
}

proof fn lemma_char_from(s: Seq<char>, i: int, b: usize)
    requires
        0 <= i <= s.len(),
    ensures
        i <= char_from(s, i, b) <= s.len(),
        forall|k: int| i <= k < char_from(s, i, b) ==> #[trigger] byte_at(s, k) < b,
        char_from(s, i, b) < s.len() ==> byte_at(s, char_from(s, i, b)) >= b,
    decreases s.len() - i,
{
    if i < s.len() && byte_at(s, i) < b {
        lemma_char_from(s, i + 1, b);
    }
}

proof fn lemma_char_from_rises(s: Seq<char>, a: usize, b: usize)
    requires
        a <= b,
    ensures
        0 <= char_from(s, 0, a) <= char_from(s, 0, b) <= s.len(),
{
    lemma_char_from(s, 0, a);
    lemma_char_from(s, 0, b);
    let x = char_from(s, 0, a);
    let y = char_from(s, 0, b);
    if y < x {
        assert(byte_at(s, y) < a);
    }
}

proof fn lemma_bytes_rise(s: Seq<char>, i: int, j: int)
    requires
        0 <= i <= j,
    ensures
        byte_at(s, i) + (j - i) <= byte_at(s, j) <= byte_at(s, i) + 4 * (j - i),
    decreases j,
{
    if i < j {
        lemma_bytes_rise(s, i, j - 1);
    }
}

/// A place between two characters is found again from the byte it is at.
pub proof fn a_place_is_found_by_its_byte(s: Seq<char>, k: int)
    requires
        0 <= k <= s.len(),
        byte_at(s, k) <= usize::MAX,
    ensures
        char_from(s, 0, byte_at(s, k) as usize) == k,
{
    let b = byte_at(s, k) as usize;
    let r = char_from(s, 0, b);
    lemma_char_from(s, 0, b);
    if r < k {
        lemma_bytes_rise(s, r, k);
    } else if r > k {
        assert(byte_at(s, k) < b);
    }
}

/// Matches stay well placed when they are counted in characters.
proof fn lemma_still_well_placed(
    s: Seq<char>,
    all: Seq<Seq<Option<(usize, usize)>>>,
    n: nat,
    r: Seq<Seq<Option<(usize, usize)>>>,
)
    requires
        well_placed(all, n),
        s.len() <= usize::MAX,
        r.len() == all.len(),
        forall|i: int| 0 <= i < r.len() ==> #[trigger] r[i] == match_in_chars(s, all[i]),
    ensures
        well_placed(r, s.len()),
{
    assert forall|i: int, k: int| 0 <= i < r.len() && 0 <= k < r[i].len() implies {
        &&& lies_in(#[trigger] r[i][k], s.len())
        &&& r[i][k] is Some ==> lo(r[i][0]) <= lo(r[i][k]) && hi(r[i][k]) <= hi(r[i][0])
    } by {
        assert(lies_in(all[i][k], n));
        assert(all[i].len() > 0 && all[i][0] is Some);
        assert(lies_in(all[i][0], n));
        assert(r[i][k] == in_chars(s, all[i][k]));
        assert(r[i][0] == in_chars(s, all[i][0]));
        if all[i][k] is Some {
            lemma_char_from_rises(s, lo(all[i][k]), hi(all[i][k]));
            lemma_char_from_rises(s, lo(all[i][0]), lo(all[i][k]));
            lemma_char_from_rises(s, hi(all[i][k]), hi(all[i][0]));
        }
    }
    assert forall|i: int|
        #![trigger r[i]]
        0 <= i < r.len() implies r[i].len() > 0 && r[i][0] is Some by {
        assert(all[i].len() > 0 && all[i][0] is Some);
        assert(r[i][0] == in_chars(s, all[i][0]));
    }
    assert forall|i: int, j: int|
        #![trigger r[i], r[j]]
        0 <= i < j < r.len() implies hi(r[i][0]) <= lo(r[j][0]) by {
        assert(hi(all[i][0]) <= lo(all[j][0]));
        assert(all[i].len() > 0 && all[i][0] is Some);
        assert(all[j].len() > 0 && all[j][0] is Some);
        assert(r[i][0] == in_chars(s, all[i][0]));
        assert(r[j][0] == in_chars(s, all[j][0]));
        lemma_char_from_rises(s, hi(all[i][0]), lo(all[j][0]));
        lemma_char_from_rises(s, lo(all[j][0]), lo(all[j][0]));
    }
}

/// The byte that each character of a text starts at.
fn starts_of(s: &[char]) -> (r: Vec<u128>)
    ensures
        r@.len() == s@.len(),
        forall|i: int| 0 <= i < s@.len() ==> #[trigger] r@[i] == byte_at(s@, i),
{
    let mut out: Vec<u128> = Vec::new();
    let mut at: u128 = 0;
    let mut i: usize = 0;
    while i < s.len()
        invariant
            i <= s@.len(),
            out@.len() == i,
            at == byte_at(s@, i as int),
            at <= 4 * i,
            forall|k: int| 0 <= k < i ==> #[trigger] out@[k] == byte_at(s@, k),
        decreases s@.len() - i,
    {
        out.push(at);
        at = at + char_width(s[i]) as u128;
        i += 1;
    }
    out
}

/// The first character that starts at byte `b` or later.
fn find_char_at(s: &[char], starts: &Vec<u128>, b: usize) -> (r: usize)
    requires
        starts@.len() == s@.len(),
        forall|i: int| 0 <= i < s@.len() ==> #[trigger] starts@[i] == byte_at(s@, i),
    ensures
        r == char_from(s@, 0, b),
{
    let mut low: usize = 0;
    let mut high: usize = starts.len();
    while low < high
        invariant
            low <= high <= s@.len(),
            starts@.len() == s@.len(),
            forall|i: int| 0 <= i < s@.len() ==> #[trigger] starts@[i] == byte_at(s@, i),
            low > 0 ==> byte_at(s@, low - 1) < b,
            high < s@.len() ==> byte_at(s@, high as int) >= b,
        decreases high - low,
    {
        let mid: usize = low + (high - low) / 2;
        assert(starts@[mid as int] == byte_at(s@, mid as int));
        if starts[mid] < b as u128 {
            low = mid + 1;
        } else {
            high = mid;
        }
    }
    proof {
        let r = char_from(s@, 0, b);
        lemma_char_from(s@, 0, b);
        if r < low {
            lemma_bytes_rise(s@, r, low - 1);
        } else if r > low {
            assert(byte_at(s@, low as int) < b);
        }
    }
    low
}

fn spans_in_chars(s: &[char], starts: &Vec<u128>, m: &Groups) -> (r: Groups)
    requires
        starts@.len() == s@.len(),
        forall|i: int| 0 <= i < s@.len() ==> #[trigger] starts@[i] == byte_at(s@, i),
    ensures
        r@ == match_in_chars(s@, m@),
{
    let mut spans: Vec<Option<(usize, usize)>> = Vec::new();
    let mut k: usize = 0;
    while k < m.spans.len()
        invariant
            k <= m@.len(),
            starts@.len() == s@.len(),
            forall|i: int| 0 <= i < s@.len() ==> #[trigger] starts@[i] == byte_at(s@, i),
            spans@ =~= match_in_chars(s@, m@).take(k as int),
        decreases m@.len() - k,
    {
        let span = match m.spans[k] {
            Some((a, b)) => Some((find_char_at(s, starts, a), find_char_at(s, starts, b))),
            None => None,
        };
        spans.push(span);
        k += 1;
    }
    Groups { spans }
}

/// Every match of `pattern` in `text`, counted in characters. A pattern that does
/// not compile matches nothing.
pub open spec fn matches_of(pattern: Seq<char>, text: Seq<char>) -> Seq<
    Seq<Option<(usize, usize)>>,
> {
    match captures_of(pattern, text) {
        Some(all) => all.map_values(
            |m: Seq<Option<(usize, usize)>>| match_in_chars(text, m),
        ),
        None => Seq::empty(),
    }
}

pub fn find_all(pattern: &str, text: &str) -> (r: Vec<Groups>)
    ensures
        group_views(r@) == matches_of(pattern@, text@),
        well_placed(group_views(r@), text@.len()),
{
    match captures(pattern, text) {
        Some(all) => {
            let chars = chars_of(text);
            let s = chars.as_slice();
            let count: usize = chars.len();
            let starts = starts_of(s);
            let ghost want = matches_of(pattern@, text@);
            let mut out: Vec<Groups> = Vec::new();
            let mut i: usize = 0;
            assert(group_views(out@) =~= want.take(0));
            while i < all.len()
                invariant
                    i <= all@.len(),
                    s@ == text@,
                    starts@.len() == s@.len(),
                    forall|k: int| 0 <= k < s@.len() ==> #[trigger] starts@[k] == byte_at(s@, k),
                    want == group_views(all@).map_values(
                        |m: Seq<Option<(usize, usize)>>| match_in_chars(text@, m),
                    ),
                    group_views(out@) == want.take(i as int),
                decreases all@.len() - i,
            {
                let ghost before = group_views(out@);
                let m = spans_in_chars(s, &starts, &all[i]);
                let ghost mv = m@;
                out.push(m);
                assert(group_views(out@) =~= before.push(mv));
                assert(want[i as int] == mv);
                assert(want.take(i + 1) =~= want.take(i as int).push(mv));
                i += 1;
            }
            proof {
                assert(want.take(want.len() as int) =~= want);
                assert(text@.len() == count);
                lemma_still_well_placed(
                    text@,
                    group_views(all@),
                    vstd::utf8::encode_utf8(text@).len(),
                    want,
                );
            }
            out
        },
        None => {
            let none: Vec<Groups> = Vec::new();
            assert(group_views(none@) =~= Seq::<Seq<Option<(usize, usize)>>>::empty());
            none
        },
    }
}

/// What group `k` of the match `m` matched in `s`.
pub open spec fn group_of(s: Seq<char>, m: Seq<Option<(usize, usize)>>, k: int) -> Option<
    Seq<char>,
> {
    if 0 <= k < m.len() && m[k] is Some && lies_in(m[k], s.len()) {
        Some(s.subrange(lo(m[k]) as int, hi(m[k]) as int))
    } else {
        None
    }
}

/// What group `k` matched, or nothing when it took no part.
pub open spec fn group_or_empty(s: Seq<char>, m: Seq<Option<(usize, usize)>>, k: int) -> Seq<
    char,
> {
    match group_of(s, m, k) {
        Some(t) => t,
        None => Seq::empty(),
    }
}

/// Where group `k` of the match `m` starts, or zero when it took no part.
pub open spec fn group_start(m: Seq<Option<(usize, usize)>>, k: int) -> usize {
    if 0 <= k < m.len() {
        lo(m[k])
    } else {
        0
    }
}

impl Groups {
    pub fn span(&self, k: usize) -> (r: Option<(usize, usize)>)
        ensures
            r == if k < self@.len() {
                self@[k as int]
            } else {
                None
            },
    {
        if k < self.spans.len() {
            self.spans[k]
        } else {
            None
        }
    }

    pub fn start(&self, k: usize) -> (r: usize)
        ensures
            r == group_start(self@, k as int),
    {
        match self.span(k) {
            Some((lo, _hi)) => lo,
            None => 0,
        }
    }

    pub fn text(&self, s: &[char], k: usize) -> (r: Option<String>)
        ensures
            crate::text::opt_view(r) == group_of(s@, self@, k as int),
    {
        match self.span(k) {
            Some((lo, hi)) => if lo <= hi && hi <= s.len() {
                Some(slice_string(s, lo, hi))
            } else {
                None
            },
            None => None,
        }
    }

    pub fn text_or_empty(&self, s: &[char], k: usize) -> (r: String)
        ensures
            r@ == group_or_empty(s@, self@, k as int),
    {
        match self.text(s, k) {
            Some(t) => t,
            None => String::new(),
        }
    }
}

} // verus!
