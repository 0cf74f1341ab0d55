//! Text, as sequences of characters.
//!
//! Everything the detectors read is text somebody typed, so nearly every rule
//! in the library is a rule about characters. The functions here are the small
//! vocabulary those rules are written in, each with its meaning stated over
//! `Seq<char>`.

use vstd::prelude::*;
use vstd::slice::slice_subrange;
use vstd::string::StringExecFns;

verus! {

/// `str` equality compares the characters.
pub assume_specification[ <str as PartialEq>::eq ](a: &str, b: &str) -> (r: bool)
    ensures
        r == (a@ == b@),
;

/// `String::push` appends one character.
pub assume_specification[ String::push ](s: &mut String, c: char)
    ensures
        final(s)@ == old(s)@.push(c),
;

/// What `char::is_alphanumeric` says of a character.
pub uninterp spec fn alphanumeric(c: char) -> bool;

/// `char::is_alphanumeric` is a table lookup on the character alone. Within
/// ASCII it is the letters and the digits and nothing else.
pub assume_specification[ char::is_alphanumeric ](c: char) -> (r: bool)
    ensures
        r == alphanumeric(c),
        (c as u32) < 128 ==> r == is_ascii_word(c),
;

/// An ASCII letter or digit.
pub open spec fn is_ascii_word(c: char) -> bool {
    ||| '0' <= c <= '9'
    ||| 'a' <= c <= 'z'
    ||| 'A' <= c <= 'Z'
}

/// An ASCII letter.
pub open spec fn is_ascii_letter(c: char) -> bool {
    ||| 'a' <= c <= 'z'
    ||| 'A' <= c <= 'Z'
}

/// An ASCII digit.
pub open spec fn is_digit(c: char) -> bool {
    '0' <= c <= '9'
}

/// A character with Unicode's `White_Space` property.
pub open spec fn is_space(c: char) -> bool {
    ||| '\u{9}' <= c <= '\u{d}'
    ||| c == ' '
    ||| c == '\u{85}'
    ||| c == '\u{a0}'
    ||| c == '\u{1680}'
    ||| '\u{2000}' <= c <= '\u{200a}'
    ||| c == '\u{2028}'
    ||| c == '\u{2029}'
    ||| c == '\u{202f}'
    ||| c == '\u{205f}'
    ||| c == '\u{3000}'
}

/// The lower case of an ASCII letter; every other character as it is.
pub open spec fn ascii_lower(c: char) -> char {
    if 'A' <= c <= 'Z' {
        ((c as u32) + 32) as char
    } else {
        c
    }
}

/// A text with its ASCII letters in lower case.
pub open spec fn lowered(s: Seq<char>) -> Seq<char> {
    s.map_values(|c: char| ascii_lower(c))
}

pub fn space(c: char) -> (r: bool)
    ensures
        r == is_space(c),
{
    ('\u{9}' <= c && c <= '\u{d}') || c == ' ' || c == '\u{85}' || c == '\u{a0}' || c == '\u{1680}'
        || ('\u{2000}' <= c && c <= '\u{200a}') || c == '\u{2028}' || c == '\u{2029}' || c
        == '\u{202f}' || c == '\u{205f}' || c == '\u{3000}'
}

pub fn ascii_word(c: char) -> (r: bool)
    ensures
        r == is_ascii_word(c),
{
    ('0' <= c && c <= '9') || ('a' <= c && c <= 'z') || ('A' <= c && c <= 'Z')
}

pub fn ascii_letter(c: char) -> (r: bool)
    ensures
        r == is_ascii_letter(c),
{
    ('a' <= c && c <= 'z') || ('A' <= c && c <= 'Z')
}

pub fn digit(c: char) -> (r: bool)
    ensures
        r == is_digit(c),
{
    '0' <= c && c <= '9'
}

pub fn lower(c: char) -> (r: char)
    ensures
        r == ascii_lower(c),
{
    if 'A' <= c && c <= 'Z' {
        let low: u8 = (c as u8) + 32;
        low as char
    } else {
        c
    }
}

/// The characters of a text.
pub fn chars_of(s: &str) -> (r: Vec<char>)
    ensures
        r@ == s@,
{
    let mut out: Vec<char> = Vec::new();
    for c in it: s.chars()
        invariant
            it.seq() == s@,
            out@ == s@.take(it.index() as int),
    {
        out.push(c);
    }
    assert(s@.take(s@.len() as int) =~= s@);
    out
}

/// How many bytes a character takes up in UTF-8.
pub open spec fn width_of(c: char) -> nat {
    if (c as int) < 0x80 {
        1
    } else if (c as int) < 0x800 {
        2
    } else if (c as int) < 0x1_0000 {
        3
    } else {
        4
    }
}

/// The byte that character `i` of a text starts at.
pub open spec fn byte_at(s: Seq<char>, i: int) -> nat
    decreases i,
{
    if i <= 0 {
        0
    } else {
        byte_at(s, i - 1) + width_of(s[i - 1])
    }
}

pub fn char_width(c: char) -> (r: usize)
    ensures
        r == width_of(c),
{
    let n: u32 = c as u32;
    if n < 0x80 {
        1
    } else if n < 0x800 {
        2
    } else if n < 0x1_0000 {
        3
    } else {
        4
    }
}

pub proof fn lemma_width(c: char)
    ensures
        vstd::utf8::encode_scalar(c as u32).len() == width_of(c),
{
    vstd::utf8::char_is_scalar(c);
}

/// The bytes of two texts written one after the other.
pub proof fn lemma_encode_two(a: Seq<char>, b: Seq<char>)
    ensures
        vstd::utf8::encode_utf8(a + b) == vstd::utf8::encode_utf8(a) + vstd::utf8::encode_utf8(b),
    decreases a.len(),
{
    if a.len() == 0 {
        assert(a + b =~= b);
        assert(vstd::utf8::encode_utf8(a) + vstd::utf8::encode_utf8(b) =~= vstd::utf8::encode_utf8(
            b,
        ));
    } else {
        assert((a + b).drop_first() =~= a.drop_first() + b);
        lemma_encode_two(a.drop_first(), b);
        assert(vstd::utf8::encode_utf8(a + b) =~= vstd::utf8::encode_utf8(a)
            + vstd::utf8::encode_utf8(b));
    }
}

pub proof fn lemma_encode_one(c: char)
    ensures
        vstd::utf8::encode_utf8(seq![c]) == vstd::utf8::encode_scalar(c as u32),
{
    assert(seq![c].drop_first() =~= Seq::empty());
    assert(vstd::utf8::encode_utf8(Seq::empty()) =~= Seq::empty());
    assert(vstd::utf8::encode_utf8(seq![c]) =~= vstd::utf8::encode_scalar(c as u32));
}

/// Where the bytes of a text stand.
pub proof fn lemma_bytes_of(s: Seq<char>, n: int)
    requires
        0 <= n <= s.len(),
    ensures
        vstd::utf8::encode_utf8(s.take(n)).len() == byte_at(s, n),
    decreases n,
{
    if n > 0 {
        lemma_bytes_of(s, n - 1);
        lemma_encode_two(s.take(n - 1), seq![s[n - 1]]);
        lemma_encode_one(s[n - 1]);
        lemma_width(s[n - 1]);
        assert(s.take(n) =~= s.take(n - 1) + seq![s[n - 1]]);
    } else {
        assert(s.take(0) =~= Seq::empty());
    }
}

/// The bytes of one character, among those of its text.
pub proof fn lemma_bytes_at(s: Seq<char>, k: int)
    requires
        0 <= k < s.len(),
    ensures
        ({
            let at = byte_at(s, k) as int;
            let b = vstd::utf8::encode_utf8(s);
            &&& at + width_of(s[k]) <= b.len()
            &&& b.subrange(at, at + width_of(s[k])) == vstd::utf8::encode_scalar(s[k] as u32)
        }),
{
    let rest = s.skip(k + 1);
    lemma_bytes_of(s, k);
    lemma_width(s[k]);
    lemma_encode_one(s[k]);
    lemma_encode_two(s.take(k), seq![s[k]]);
    lemma_encode_two(s.take(k) + seq![s[k]], rest);
    assert(s =~= s.take(k) + seq![s[k]] + rest);
    let at = byte_at(s, k) as int;
    assert(vstd::utf8::encode_utf8(s).subrange(at, at + width_of(s[k]))
        =~= vstd::utf8::encode_scalar(s[k] as u32));
}

/// The text made of these characters.
pub fn string_of(s: &[char]) -> (r: String)
    ensures
        r@ == s@,
{
    let mut out = String::new();
    let mut i: usize = 0;
    while i < s.len()
        invariant
            i <= s.len(),
            out@ == s@.take(i as int),
        decreases s.len() - i,
    {
        out.push(s[i]);
        i += 1;
        assert(s@.take(i as int) =~= s@.take(i - 1).push(s@[i - 1]));
    }
    assert(s@.take(s@.len() as int) =~= s@);
    out
}

/// The text made of the characters from `from` up to `to`.
pub fn slice_string(s: &[char], from: usize, to: usize) -> (r: String)
    requires
        from <= to <= s@.len(),
    ensures
        r@ == s@.subrange(from as int, to as int),
{
    string_of(slice_subrange(s, from, to))
}

pub fn same(a: &str, b: &str) -> (r: bool)
    ensures
        r == (a@ == b@),
{
    *a == *b
}

pub open spec fn opt_view(s: Option<String>) -> Option<Seq<char>> {
    match s {
        Some(t) => Some(t@),
        None => None,
    }
}

pub fn same_opt(a: &Option<String>, b: &Option<String>) -> (r: bool)
    ensures
        r == (opt_view(*a) == opt_view(*b)),
{
    match (a, b) {
        (Some(x), Some(y)) => same(x.as_str(), y.as_str()),
        (None, None) => true,
        _ => false,
    }
}

pub fn clone_opt(a: &Option<String>) -> (r: Option<String>)
    ensures
        opt_view(r) == opt_view(*a),
{
    match a {
        Some(s) => Some(s.as_str().to_owned()),
        None => None,
    }
}

/// The views of a list of texts.
pub open spec fn texts(v: Seq<String>) -> Seq<Seq<char>> {
    v.map_values(|s: String| s@)
}

/// Whether one of these texts is `s`.
pub fn listed(v: &Vec<String>, s: &str) -> (r: bool)
    ensures
        r == texts(v@).contains(s@),
{
    let mut i: usize = 0;
    while i < v.len()
        invariant
            i <= v.len(),
            forall|k: int| 0 <= k < i ==> texts(v@)[k] != s@,
        decreases v.len() - i,
    {
        if same(v[i].as_str(), s) {
            assert(texts(v@)[i as int] == s@);
            return true;
        }
        i += 1;
    }
    false
}

/// A copy of a list of texts.
pub fn clone_texts(v: &Vec<String>) -> (r: Vec<String>)
    ensures
        texts(r@) == texts(v@),
{
    let mut out: Vec<String> = Vec::new();
    let mut i: usize = 0;
    while i < v.len()
        invariant
            i <= v.len(),
            texts(out@) =~= texts(v@).take(i as int),
        decreases v.len() - i,
    {
        let ghost before = texts(out@);
        out.push(v[i].as_str().to_owned());
        assert(texts(out@) =~= before.push(v@[i as int]@));
        i += 1;
    }
    out
}

/// Whether `pat` stands in `s` at index `i`.
pub open spec fn matches_at(s: Seq<char>, pat: Seq<char>, i: int) -> bool {
    0 <= i && i + pat.len() <= s.len() && s.subrange(i, i + pat.len()) == pat
}

/// Whether `pat` stands anywhere in `s`.
pub open spec fn has(s: Seq<char>, pat: Seq<char>) -> bool {
    exists|i: int| matches_at(s, pat, i)
}

pub open spec fn begins(s: Seq<char>, pat: Seq<char>) -> bool {
    matches_at(s, pat, 0)
}

pub open spec fn finishes(s: Seq<char>, pat: Seq<char>) -> bool {
    matches_at(s, pat, s.len() - pat.len())
}

/// The first place at or after `from` where `pat` stands in `s`.
pub open spec fn first_match(s: Seq<char>, pat: Seq<char>, from: int) -> Option<int>
    decreases s.len() + 1 - from,
{
    if from + pat.len() > s.len() {
        None
    } else if matches_at(s, pat, from) {
        Some(from)
    } else {
        first_match(s, pat, from + 1)
    }
}

/// The first index at or after `from` that holds `c`.
pub open spec fn first_char(s: Seq<char>, c: char, from: int) -> Option<int>
    decreases s.len() - from,
{
    if from >= s.len() {
        None
    } else if s[from] == c {
        Some(from)
    } else {
        first_char(s, c, from + 1)
    }
}

pub proof fn lemma_first_match(s: Seq<char>, pat: Seq<char>, from: int)
    requires
        0 <= from,
    ensures
        match first_match(s, pat, from) {
            Some(k) => {
                &&& from <= k
                &&& matches_at(s, pat, k)
                &&& forall|j: int| from <= j < k ==> !matches_at(s, pat, j)
            },
            None => forall|j: int| from <= j ==> !matches_at(s, pat, j),
        },
    decreases s.len() + 1 - from,
{
    if from + pat.len() > s.len() {
    } else if matches_at(s, pat, from) {
    } else {
        lemma_first_match(s, pat, from + 1);
    }
}

pub proof fn lemma_first_char(s: Seq<char>, c: char, from: int)
    requires
        0 <= from,
    ensures
        match first_char(s, c, from) {
            Some(k) => {
                &&& from <= k < s.len()
                &&& s[k] == c
                &&& forall|j: int| from <= j < k ==> s[j] != c
            },
            None => forall|j: int| from <= j < s.len() ==> s[j] != c,
        },
    decreases s.len() - from,
{
    if from >= s.len() {
    } else if s[from] == c {
    } else {
        lemma_first_char(s, c, from + 1);
    }
}

pub fn check_at(s: &[char], pat: &[char], i: usize) -> (r: bool)
    ensures
        r == matches_at(s@, pat@, i as int),
{
    if i > s.len() || pat.len() > s.len() - i {
        return false;
    }
    let mut k: usize = 0;
    while k < pat.len()
        invariant
            i + pat.len() <= s.len(),
            k <= pat.len(),
            forall|j: int| 0 <= j < k ==> s@[i + j] == pat@[j],
        decreases pat.len() - k,
    {
        if s[i + k] != pat[k] {
            assert(s@.subrange(i as int, i + pat.len())[k as int] != pat@[k as int]);
            return false;
        }
        k += 1;
    }
    assert(s@.subrange(i as int, i + pat@.len()) =~= pat@);
    true
}

pub fn find_from(s: &[char], pat: &[char], from: usize) -> (r: Option<usize>)
    ensures
        match r {
            Some(k) => first_match(s@, pat@, from as int) == Some(k as int),
            None => first_match(s@, pat@, from as int) is None,
        },
{
    let mut i: usize = from;
    while i <= s.len() && pat.len() <= s.len() - i
        invariant
            from <= i,
            i <= s.len() || i == from,
            first_match(s@, pat@, from as int) == first_match(s@, pat@, i as int),
        decreases s.len() + 1 - i,
    {
        if check_at(s, pat, i) {
            return Some(i);
        }
        if i == s.len() {
            assert(s@.subrange(i as int, i + pat@.len()) =~= pat@);
            return None;
        }
        i += 1;
    }
    None
}

pub fn find_char(s: &[char], c: char, from: usize) -> (r: Option<usize>)
    ensures
        match r {
            Some(k) => first_char(s@, c, from as int) == Some(k as int) && from <= k < s@.len(),
            None => first_char(s@, c, from as int) is None,
        },
{
    let mut i: usize = from;
    while i < s.len()
        invariant
            from <= i,
            first_char(s@, c, from as int) == first_char(s@, c, i as int),
        decreases s.len() - i,
    {
        if s[i] == c {
            return Some(i);
        }
        i += 1;
    }
    None
}

pub fn contains(s: &[char], pat: &[char]) -> (r: bool)
    ensures
        r == has(s@, pat@),
{
    proof {
        lemma_first_match(s@, pat@, 0);
    }
    match find_from(s, pat, 0) {
        Some(k) => {
            assert(matches_at(s@, pat@, k as int));
            true
        },
        None => false,
    }
}

pub fn contains_str(s: &str, pat: &str) -> (r: bool)
    ensures
        r == has(s@, pat@),
{
    let a = chars_of(s);
    let b = chars_of(pat);
    contains(a.as_slice(), b.as_slice())
}

pub fn begins_with(s: &str, pat: &str) -> (r: bool)
    ensures
        r == begins(s@, pat@),
{
    let a = chars_of(s);
    let b = chars_of(pat);
    check_at(a.as_slice(), b.as_slice(), 0)
}

pub fn finishes_with(s: &str, pat: &str) -> (r: bool)
    ensures
        r == finishes(s@, pat@),
{
    let a = chars_of(s);
    let b = chars_of(pat);
    if b.len() > a.len() {
        return false;
    }
    check_at(a.as_slice(), b.as_slice(), a.len() - b.len())
}

/// `s` without the leading characters for which `f` holds.
pub open spec fn strip_front(s: Seq<char>, f: spec_fn(char) -> bool) -> Seq<char>
    decreases s.len(),
{
    if s.len() > 0 && f(s[0]) {
        strip_front(s.drop_first(), f)
    } else {
        s
    }
}

/// `s` without the trailing characters for which `f` holds.
pub open spec fn strip_back(s: Seq<char>, f: spec_fn(char) -> bool) -> Seq<char>
    decreases s.len(),
{
    if s.len() > 0 && f(s.last()) {
        strip_back(s.drop_last(), f)
    } else {
        s
    }
}

/// `s` without the whitespace at either end.
pub open spec fn trimmed(s: Seq<char>) -> Seq<char> {
    strip_back(strip_front(s, |c: char| is_space(c)), |c: char| is_space(c))
}

/// `s` without the characters of `set` at either end.
pub open spec fn trimmed_of(s: Seq<char>, set: Seq<char>) -> Seq<char> {
    strip_back(strip_front(s, |c: char| set.contains(c)), |c: char| set.contains(c))
}

pub fn in_set(set: &[char], c: char) -> (r: bool)
    ensures
        r == set@.contains(c),
{
    let mut i: usize = 0;
    while i < set.len()
        invariant
            i <= set.len(),
            forall|k: int| 0 <= k < i ==> set@[k] != c,
        decreases set.len() - i,
    {
        if set[i] == c {
            return true;
        }
        i += 1;
    }
    false
}

pub fn trim<'a>(s: &'a [char]) -> (r: &'a [char])
    ensures
        r@ == trimmed(s@),
        r@.len() <= s@.len(),
{
    let mut i: usize = 0;
    let ghost f = |c: char| is_space(c);
    assert(s@.skip(0) =~= s@);
    while i < s.len() && space(s[i])
        invariant
            i <= s.len(),
            f == (|c: char| is_space(c)),
            strip_front(s@, f) == strip_front(s@.skip(i as int), f),
        decreases s.len() - i,
    {
        assert(s@.skip(i as int).drop_first() =~= s@.skip(i + 1));
        i += 1;
    }
    assert(strip_front(s@, f) == s@.skip(i as int));
    let mut j: usize = s.len();
    assert(s@.skip(i as int) =~= s@.subrange(i as int, j as int));
    while j > i && space(s[j - 1])
        invariant
            i <= j <= s.len(),
            f == (|c: char| is_space(c)),
            strip_back(s@.skip(i as int), f) == strip_back(s@.subrange(i as int, j as int), f),
        decreases j,
    {
        assert(s@.subrange(i as int, j as int).drop_last() =~= s@.subrange(i as int, j - 1));
        j -= 1;
    }
    slice_subrange(s, i, j)
}

pub fn trim_of<'a>(s: &'a [char], set: &[char]) -> (r: &'a [char])
    ensures
        r@ == trimmed_of(s@, set@),
        r@.len() <= s@.len(),
{
    let mut i: usize = 0;
    let ghost f = |c: char| set@.contains(c);
    assert(s@.skip(0) =~= s@);
    while i < s.len() && in_set(set, s[i])
        invariant
            i <= s.len(),
            f == (|c: char| set@.contains(c)),
            strip_front(s@, f) == strip_front(s@.skip(i as int), f),
        decreases s.len() - i,
    {
        assert(s@.skip(i as int).drop_first() =~= s@.skip(i + 1));
        i += 1;
    }
    assert(strip_front(s@, f) == s@.skip(i as int));
    let mut j: usize = s.len();
    assert(s@.skip(i as int) =~= s@.subrange(i as int, j as int));
    while j > i && in_set(set, s[j - 1])
        invariant
            i <= j <= s.len(),
            f == (|c: char| set@.contains(c)),
            strip_back(s@.skip(i as int), f) == strip_back(s@.subrange(i as int, j as int), f),
        decreases j,
    {
        assert(s@.subrange(i as int, j as int).drop_last() =~= s@.subrange(i as int, j - 1));
        j -= 1;
    }
    slice_subrange(s, i, j)
}

pub fn trim_end_of<'a>(s: &'a [char], set: &[char]) -> (r: &'a [char])
    ensures
        r@ == strip_back(s@, |c: char| set@.contains(c)),
        r@.len() <= s@.len(),
{
    let ghost f = |c: char| set@.contains(c);
    let mut j: usize = s.len();
    assert(s@.take(j as int) =~= s@);
    while j > 0 && in_set(set, s[j - 1])
        invariant
            j <= s.len(),
            f == (|c: char| set@.contains(c)),
            strip_back(s@, f) == strip_back(s@.take(j as int), f),
        decreases j,
    {
        assert(s@.take(j as int).drop_last() =~= s@.take(j - 1));
        j -= 1;
    }
    slice_subrange(s, 0, j)
}

pub fn trim_str(s: &str) -> (r: String)
    ensures
        r@ == trimmed(s@),
{
    let a = chars_of(s);
    string_of(trim(a.as_slice()))
}

/// `s` with every `pat` from `from` on replaced, left to right, by `with`.
pub open spec fn replaced_from(s: Seq<char>, pat: Seq<char>, with: Seq<char>, from: int) -> Seq<
    char,
>
    decreases s.len() - from,
    when pat.len() > 0 && 0 <= from <= s.len()
    via replaced_from_decreases
{
    match first_match(s, pat, from) {
        None => s.skip(from),
        Some(k) => s.subrange(from, k) + with + replaced_from(s, pat, with, k + pat.len()),
    }
}

#[via_fn]
proof fn replaced_from_decreases(s: Seq<char>, pat: Seq<char>, with: Seq<char>, from: int) {
    lemma_first_match(s, pat, from);
}

/// `s` with every `pat` replaced by `with`.
pub open spec fn replaced(s: Seq<char>, pat: Seq<char>, with: Seq<char>) -> Seq<char> {
    replaced_from(s, pat, with, 0)
}

pub fn push_slice(out: &mut Vec<char>, s: &[char], from: usize, to: usize)
    requires
        from <= to <= s@.len(),
    ensures
        final(out)@ == old(out)@ + s@.subrange(from as int, to as int),
{
    let mut i: usize = from;
    let ghost start = out@;
    assert(out@ =~= start + s@.subrange(from as int, from as int));
    while i < to
        invariant
            from <= i <= to <= s@.len(),
            out@ == start + s@.subrange(from as int, i as int),
        decreases to - i,
    {
        out.push(s[i]);
        assert(out@ =~= start + s@.subrange(from as int, i + 1));
        i += 1;
    }
}

pub fn replace_all(s: &[char], pat: &[char], with: &[char]) -> (r: Vec<char>)
    requires
        pat@.len() > 0,
    ensures
        r@ == replaced(s@, pat@, with@),
{
    let mut out: Vec<char> = Vec::new();
    let mut at: usize = 0;
    while at <= s.len()
        invariant
            at <= s.len(),
            pat@.len() > 0,
            replaced(s@, pat@, with@) == out@ + replaced_from(s@, pat@, with@, at as int),
        decreases s.len() - at,
    {
        proof {
            lemma_first_match(s@, pat@, at as int);
        }
        match find_from(s, pat, at) {
            None => {
                push_slice(&mut out, s, at, s.len());
                assert(s@.skip(at as int) =~= s@.subrange(at as int, s@.len() as int));
                return out;
            },
            Some(k) => {
                let ghost before = out@;
                push_slice(&mut out, s, at, k);
                push_slice(&mut out, with, 0, with.len());
                proof {
                    assert(with@.subrange(0, with@.len() as int) =~= with@);
                    let rest = replaced_from(s@, pat@, with@, k + pat@.len());
                    assert(before + (s@.subrange(at as int, k as int) + with@ + rest) =~= out@
                        + rest);
                }
                at = k + pat.len();
            },
        }
    }
    out
}

/// How many times `pat` stands in `s`, counted left to right without overlap.
pub open spec fn occurrences_from(s: Seq<char>, pat: Seq<char>, from: int) -> nat
    decreases s.len() - from,
    when pat.len() > 0 && 0 <= from
    via occurrences_from_decreases
{
    match first_match(s, pat, from) {
        None => 0,
        Some(k) => 1 + occurrences_from(s, pat, k + pat.len()),
    }
}

#[via_fn]
proof fn occurrences_from_decreases(s: Seq<char>, pat: Seq<char>, from: int) {
    lemma_first_match(s, pat, from);
}

pub fn count_matches(s: &[char], pat: &[char]) -> (r: usize)
    requires
        pat@.len() > 0,
    ensures
        r == occurrences_from(s@, pat@, 0),
{
    let mut n: usize = 0;
    let mut at: usize = 0;
    while at <= s.len()
        invariant
            n <= at <= s.len(),
            pat@.len() > 0,
            occurrences_from(s@, pat@, 0) == n + occurrences_from(s@, pat@, at as int),
        decreases s.len() - at,
    {
        proof {
            lemma_first_match(s@, pat@, at as int);
        }
        match find_from(s, pat, at) {
            None => {
                return n;
            },
            Some(k) => {
                n += 1;
                at = k + pat.len();
            },
        }
    }
    n
}

/// The pieces of `s` from `from` on that stand between the `c`s.
pub open spec fn split_from(s: Seq<char>, c: char, from: int) -> Seq<Seq<char>>
    decreases s.len() - from,
    when 0 <= from <= s.len()
    via split_from_decreases
{
    match first_char(s, c, from) {
        None => seq![s.skip(from)],
        Some(k) => seq![s.subrange(from, k)] + split_from(s, c, k + 1),
    }
}

#[via_fn]
proof fn split_from_decreases(s: Seq<char>, c: char, from: int) {
    lemma_first_char(s, c, from);
}

/// The pieces of `s` that stand between the `c`s.
pub open spec fn split(s: Seq<char>, c: char) -> Seq<Seq<char>> {
    split_from(s, c, 0)
}

pub proof fn lemma_split_shift(s: Seq<char>, c: char, n: int, from: int)
    requires
        0 <= n,
        0 <= from,
        n + from <= s.len(),
    ensures
        split_from(s, c, n + from) == split_from(s.skip(n), c, from),
    decreases s.len() - from,
{
    let t = s.skip(n);
    lemma_first_char(s, c, n + from);
    lemma_first_char(t, c, from);
    match first_char(s, c, n + from) {
        Some(k) => {
            assert forall|j: int| from <= j < k - n implies t[j] != c by {
                assert(t[j] == s[j + n]);
            }
            assert(t[k - n] == s[k]);
            assert(first_char(t, c, from) == Some(k - n));
            lemma_split_shift(s, c, n, k + 1 - n);
            assert(s.subrange(n + from, k) =~= t.subrange(from, k - n));
        },
        None => {
            assert forall|j: int| from <= j < t.len() implies t[j] != c by {
                assert(t[j] == s[j + n]);
            }
            assert(first_char(t, c, from) is None);
            assert(s.skip(n + from) =~= t.skip(from));
        },
    }
}

/// Two texts with a `c` between them, split at it.
pub proof fn lemma_split_two(a: Seq<char>, b: Seq<char>, c: char, from: int)
    requires
        0 <= from <= a.len(),
    ensures
        split_from(a + seq![c] + b, c, from) == split_from(a, c, from) + split(b, c),
    decreases a.len() - from,
{
    let s = a + seq![c] + b;
    let n = a.len() as int;
    lemma_first_char(a, c, from);
    lemma_first_char(s, c, from);
    match first_char(a, c, from) {
        Some(k) => {
            assert forall|j: int| from <= j < k implies s[j] != c by {
                assert(s[j] == a[j]);
            }
            assert(s[k] == a[k]);
            assert(first_char(s, c, from) == Some(k));
            lemma_split_two(a, b, c, k + 1);
            assert(s.subrange(from, k) =~= a.subrange(from, k));
            assert(split_from(s, c, from) =~= split_from(a, c, from) + split(b, c));
        },
        None => {
            assert forall|j: int| from <= j < n implies s[j] != c by {
                assert(s[j] == a[j]);
            }
            assert(s[n] == c);
            assert(first_char(s, c, from) == Some(n));
            lemma_split_shift(s, c, n + 1, 0);
            assert(s.skip(n + 1) =~= b);
            assert(s.subrange(from, n) =~= a.skip(from));
        },
    }
}

pub fn split_char(s: &[char], c: char) -> (r: Vec<String>)
    ensures
        texts(r@) == split(s@, c),
        r@.len() > 0,
{
    let mut out: Vec<String> = Vec::new();
    let mut at: usize = 0;
    assert(texts(out@) + split_from(s@, c, 0) =~= split(s@, c));
    loop
        invariant
            at <= s.len(),
            texts(out@) + split_from(s@, c, at as int) == split(s@, c),
        decreases s.len() - at,
    {
        proof {
            lemma_first_char(s@, c, at as int);
        }
        let ghost before = texts(out@);
        match find_char(s, c, at) {
            None => {
                out.push(slice_string(s, at, s.len()));
                assert(s@.skip(at as int) =~= s@.subrange(at as int, s@.len() as int));
                assert(texts(out@) =~= before + split_from(s@, c, at as int));
                return out;
            },
            Some(k) => {
                out.push(slice_string(s, at, k));
                assert(texts(out@) =~= before + seq![s@.subrange(at as int, k as int)]);
                assert(texts(out@) + split_from(s@, c, k + 1) =~= before + split_from(
                    s@,
                    c,
                    at as int,
                ));
                at = k + 1;
            },
        }
    }
}

/// A line without the carriage return that a Windows newline leaves on it.
pub open spec fn without_cr(line: Seq<char>) -> Seq<char> {
    if line.len() > 0 && line.last() == '\r' {
        line.drop_last()
    } else {
        line
    }
}

/// The lines of `s` from `from` on. A newline ends a line, and what follows
/// the last newline is a line only when there is something in it.
pub open spec fn lines_from(s: Seq<char>, from: int) -> Seq<Seq<char>>
    decreases s.len() - from,
    when 0 <= from <= s.len()
    via lines_from_decreases
{
    match first_char(s, '\n', from) {
        None => if from == s.len() {
            Seq::empty()
        } else {
            seq![s.skip(from)]
        },
        Some(k) => seq![without_cr(s.subrange(from, k))] + lines_from(s, k + 1),
    }
}

#[via_fn]
proof fn lines_from_decreases(s: Seq<char>, from: int) {
    lemma_first_char(s, '\n', from);
}

/// The lines of a text.
pub open spec fn lines(s: Seq<char>) -> Seq<Seq<char>> {
    lines_from(s, 0)
}

pub fn lines_of(s: &[char]) -> (r: Vec<String>)
    ensures
        texts(r@) == lines(s@),
        r@.len() <= s@.len(),
{
    let mut out: Vec<String> = Vec::new();
    let mut at: usize = 0;
    assert(texts(out@) + lines_from(s@, 0) =~= lines(s@));
    loop
        invariant
            out@.len() <= at <= s.len(),
            texts(out@) + lines_from(s@, at as int) == lines(s@),
        decreases s.len() - at,
    {
        proof {
            lemma_first_char(s@, '\n', at as int);
        }
        let ghost before = texts(out@);
        match find_char(s, '\n', at) {
            None => {
                if at < s.len() {
                    out.push(slice_string(s, at, s.len()));
                }
                assert(s@.skip(at as int) =~= s@.subrange(at as int, s@.len() as int));
                assert(texts(out@) =~= before + lines_from(s@, at as int));
                return out;
            },
            Some(k) => {
                let end: usize = if k > at && s[k - 1] == '\r' {
                    k - 1
                } else {
                    k
                };
                out.push(slice_string(s, at, end));
                assert(s@.subrange(at as int, end as int) =~= without_cr(
                    s@.subrange(at as int, k as int),
                ));
                assert(texts(out@) + lines_from(s@, k + 1) =~= before + lines_from(s@, at as int));
                at = k + 1;
            },
        }
    }
}

/// Texts set one after another with `sep` between them.
pub open spec fn joined(parts: Seq<Seq<char>>, sep: Seq<char>) -> Seq<char>
    decreases parts.len(),
{
    if parts.len() == 0 {
        Seq::empty()
    } else if parts.len() == 1 {
        parts[0]
    } else {
        joined(parts.drop_last(), sep) + sep + parts.last()
    }
}

pub fn join(parts: &Vec<String>, sep: &str) -> (r: String)
    ensures
        r@ == joined(texts(parts@), sep@),
{
    let mut out = String::new();
    let mut i: usize = 0;
    assert(texts(parts@).take(0) =~= Seq::<Seq<char>>::empty());
    while i < parts.len()
        invariant
            i <= parts.len(),
            out@ == joined(texts(parts@).take(i as int), sep@),
        decreases parts.len() - i,
    {
        let ghost next = texts(parts@).take(i + 1);
        assert(next.drop_last() =~= texts(parts@).take(i as int));
        assert(next.last() == parts@[i as int]@);
        if i > 0 {
            out.append(sep);
        }
        out.append(parts[i].as_str());
        assert(out@ =~= joined(next, sep@));
        i += 1;
    }
    assert(texts(parts@).take(parts@.len() as int) =~= texts(parts@));
    out
}

/// The digit character of a number below ten.
pub open spec fn digit_char(d: int) -> char {
    (d + 48) as char
}

/// A number written in decimal, without leading zeros.
pub open spec fn decimal(n: nat) -> Seq<char>
    decreases n,
{
    if n < 10 {
        seq![digit_char(n as int)]
    } else {
        decimal(n / 10).push(digit_char((n % 10) as int))
    }
}

pub fn push_digit(out: &mut String, d: u64)
    requires
        d < 10,
    ensures
        final(out)@ == old(out)@.push(digit_char(d as int)),
{
    let c: u8 = (d as u8) + 48;
    out.push(c as char);
}

pub fn decimal_string(n: u64) -> (r: String)
    ensures
        r@ == decimal(n as nat),
    decreases n,
{
    if n < 10 {
        let mut out = String::new();
        push_digit(&mut out, n);
        assert(out@ =~= seq![digit_char(n as int)]);
        out
    } else {
        let mut out = decimal_string(n / 10);
        push_digit(&mut out, n % 10);
        out
    }
}

pub fn number_string(n: usize) -> (r: String)
    ensures
        r@ == decimal(n as nat),
{
    decimal_string(n as u64)
}

/// `plural(1)` is empty and every other count takes an `s`.
pub open spec fn plural_of(n: nat) -> Seq<char> {
    if n == 1 {
        ""@
    } else {
        "s"@
    }
}

pub fn plural(n: usize) -> (r: &'static str)
    ensures
        r@ == plural_of(n as nat),
{
    if n == 1 {
        ""
    } else {
        "s"
    }
}

pub fn lower_chars(s: &[char]) -> (r: Vec<char>)
    ensures
        r@ == lowered(s@),
{
    let mut out: Vec<char> = Vec::new();
    let mut i: usize = 0;
    while i < s.len()
        invariant
            i <= s.len(),
            out@ =~= lowered(s@.take(i as int)),
        decreases s.len() - i,
    {
        out.push(lower(s[i]));
        i += 1;
    }
    assert(s@.take(s@.len() as int) =~= s@);
    out
}

pub fn lower_str(s: &str) -> (r: String)
    ensures
        r@ == lowered(s@),
{
    let a = chars_of(s);
    let b = lower_chars(a.as_slice());
    string_of(b.as_slice())
}

/// How many newlines there are in `s`.
pub open spec fn newlines(s: Seq<char>) -> nat
    decreases s.len(),
{
    if s.len() == 0 {
        0
    } else {
        newlines(s.drop_last()) + if s.last() == '\n' {
            1nat
        } else {
            0nat
        }
    }
}

/// A text with no space at either end is trimmed already.
pub proof fn lemma_trimmed_plain(s: Seq<char>)
    requires
        s.len() > 0,
        !is_space(s[0]),
        !is_space(s[s.len() - 1]),
    ensures
        trimmed(s) == s,
{
}

proof fn lemma_strip(s: Seq<char>, f: spec_fn(char) -> bool)
    ensures
        exists|i: int|
            0 <= i <= s.len() && #[trigger] s.skip(i) == strip_front(s, f) && (i < s.len() ==> !f(
                s[i],
            )) && forall|k: int| 0 <= k < i ==> f(#[trigger] s[k]),
        exists|j: int|
            0 <= j <= s.len() && #[trigger] s.take(j) == strip_back(s, f) && (j > 0 ==> !f(
                s[j - 1],
            )) && forall|k: int| j <= k < s.len() ==> f(#[trigger] s[k]),
    decreases s.len(),
{
    if s.len() == 0 {
        assert(s.skip(0) =~= s);
        assert(s.take(0) =~= s);
    } else {
        let d = s.drop_first();
        let e = s.drop_last();
        lemma_strip(d, f);
        lemma_strip(e, f);
        if f(s[0]) {
            let i = choose|i: int|
                0 <= i <= d.len() && #[trigger] d.skip(i) == strip_front(d, f) && (i < d.len()
                    ==> !f(d[i])) && forall|k: int| 0 <= k < i ==> f(#[trigger] d[k]);
            assert(s.skip(i + 1) =~= d.skip(i));
            assert forall|k: int| 0 <= k < i + 1 implies f(#[trigger] s[k]) by {
                if k > 0 {
                    assert(d[k - 1] == s[k]);
                }
            }
        } else {
            assert(s.skip(0) =~= s);
        }
        if f(s.last()) {
            let j = choose|j: int|
                0 <= j <= e.len() && #[trigger] e.take(j) == strip_back(e, f) && (j > 0 ==> !f(
                    e[j - 1],
                )) && forall|k: int| j <= k < e.len() ==> f(#[trigger] e[k]);
            assert(s.take(j) =~= e.take(j));
            assert forall|k: int| j <= k < s.len() implies f(#[trigger] s[k]) by {
                if k < e.len() {
                    assert(e[k] == s[k]);
                }
            }
        } else {
            assert(s.take(s.len() as int) =~= s);
        }
    }
}

/// Trimming takes the spaces at either end, all of them and nothing else.
pub proof fn trimming_takes_the_spaces_at_the_ends(s: Seq<char>)
    ensures
        exists|i: int, j: int|
            0 <= i <= j <= s.len() && #[trigger] s.subrange(i, j) == trimmed(s) && (i < j
                ==> !is_space(s[i]) && !is_space(s[j - 1])) && (forall|k: int|
                0 <= k < i ==> is_space(#[trigger] s[k])) && (forall|k: int|
                j <= k < s.len() ==> is_space(#[trigger] s[k])),
{
    let f = |c: char| is_space(c);
    lemma_strip(s, f);
    let a = strip_front(s, f);
    let i = choose|i: int|
        0 <= i <= s.len() && #[trigger] s.skip(i) == strip_front(s, f) && (i < s.len() ==> !f(
            s[i],
        )) && forall|k: int| 0 <= k < i ==> f(#[trigger] s[k]);
    lemma_strip(a, f);
    let j = choose|j: int|
        0 <= j <= a.len() && #[trigger] a.take(j) == strip_back(a, f) && (j > 0 ==> !f(a[j - 1]))
            && forall|k: int| j <= k < a.len() ==> f(#[trigger] a[k]);
    assert(s.subrange(i, i + j) =~= trimmed(s));
    assert forall|k: int| 0 <= k < i implies is_space(#[trigger] s[k]) by {
        assert(f(s[k]));
    }
    assert forall|k: int| i + j <= k < s.len() implies is_space(#[trigger] s[k]) by {
        assert(a[k - i] == s[k]);
        assert(f(a[k - i]));
    }
    if j > 0 {
        assert(a[j - 1] == s[i + j - 1]);
        assert(!f(a[j - 1]));
        assert(!f(s[i]));
    }
}

/// A capital becomes its small letter, and everything else stays.
pub proof fn a_capital_becomes_its_small_letter(c: char)
    ensures
        'A' <= c <= 'Z' ==> ascii_lower(c) as int - 'a' as int == c as int - 'A' as int,
        !('A' <= c <= 'Z') ==> ascii_lower(c) == c,
{
}

proof fn lemma_joined_front(a: Seq<char>, rest: Seq<Seq<char>>, sep: Seq<char>)
    requires
        rest.len() > 0,
    ensures
        joined(seq![a] + rest, sep) == a + sep + joined(rest, sep),
    decreases rest.len(),
{
    let all = seq![a] + rest;
    assert(all.last() == rest.last());
    if rest.len() == 1 {
        assert(all.drop_last() =~= seq![a]);
        assert(joined(seq![a], sep) == a);
        assert(joined(rest, sep) == rest[0]);
    } else {
        assert(all.drop_last() =~= seq![a] + rest.drop_last());
        lemma_joined_front(a, rest.drop_last(), sep);
        assert(joined(all, sep) =~= a + sep + joined(rest, sep));
    }
}

proof fn lemma_split_whole(s: Seq<char>, c: char, from: int)
    requires
        0 <= from <= s.len(),
    ensures
        split_from(s, c, from).len() > 0,
        joined(split_from(s, c, from), seq![c]) == s.skip(from),
        forall|i: int|
            0 <= i < split_from(s, c, from).len() ==> !(#[trigger] split_from(s, c, from)[i]).contains(c),
    decreases s.len() - from,
{
    lemma_first_char(s, c, from);
    let parts = split_from(s, c, from);
    match first_char(s, c, from) {
        None => {
            let p = s.skip(from);
            assert forall|k: int| 0 <= k < p.len() implies #[trigger] p[k] != c by {
                assert(p[k] == s[from + k]);
            }
            assert(parts[0] == p);
        },
        Some(k) => {
            lemma_split_whole(s, c, k + 1);
            let p = s.subrange(from, k);
            let rest = split_from(s, c, k + 1);
            assert forall|m: int| 0 <= m < p.len() implies #[trigger] p[m] != c by {
                assert(p[m] == s[from + m]);
            }
            lemma_joined_front(p, rest, seq![c]);
            assert(p + seq![c] + s.skip(k + 1) =~= s.skip(from));
            assert forall|i: int| 0 <= i < parts.len() implies !(#[trigger] parts[i]).contains(
                c,
            ) by {
                if i > 0 {
                    assert(parts[i] == rest[i - 1]);
                }
            }
        },
    }
}

/// Splitting loses nothing: the parts put together again are the text, and none
/// of them holds what they were split at.
pub proof fn the_parts_make_the_text(s: Seq<char>, c: char)
    ensures
        joined(split(s, c), seq![c]) == s,
        forall|i: int| 0 <= i < split(s, c).len() ==> !(#[trigger] split(s, c)[i]).contains(c),
        split(s, c).len() > 0,
{
    lemma_split_whole(s, c, 0);
    assert(s.skip(0) =~= s);
}

proof fn lemma_lines_whole(s: Seq<char>, from: int)
    requires
        0 <= from < s.len(),
        !s.contains('\r'),
        s.last() != '\n',
    ensures
        lines_from(s, from).len() > 0,
        joined(lines_from(s, from), seq!['\n']) == s.skip(from),
    decreases s.len() - from,
{
    lemma_first_char(s, '\n', from);
    match first_char(s, '\n', from) {
        None => {
            assert(lines_from(s, from) =~= seq![s.skip(from)]);
        },
        Some(k) => {
            assert(k + 1 < s.len());
            lemma_lines_whole(s, k + 1);
            let p = s.subrange(from, k);
            if p.len() > 0 {
                assert(p.last() == s[k - 1]);
                assert(s.contains(s[k - 1]));
            }
            assert(without_cr(p) == p);
            lemma_joined_front(p, lines_from(s, k + 1), seq!['\n']);
            assert(p + seq!['\n'] + s.skip(k + 1) =~= s.skip(from));
        },
    }
}

/// The lines of a text with line breaks between them are the text.
pub proof fn the_lines_make_the_text(s: Seq<char>)
    requires
        s.len() > 0,
        !s.contains('\r'),
        s.last() != '\n',
    ensures
        joined(lines(s), seq!['\n']) == s,
{
    lemma_lines_whole(s, 0);
    assert(s.skip(0) =~= s);
}

/// A number is written digit by digit, the highest first.
pub proof fn a_number_is_written_in_digits(n: nat, d: nat)
    requires
        d < 10,
    ensures
        decimal(d).len() == 1 && decimal(d)[0] as int == '0' as int + d,
        n > 0 ==> decimal(10 * n + d) == decimal(n) + decimal(d),
        plural_of(1) == ""@,
        n != 1 ==> plural_of(n) == "s"@,
{
    if n > 0 {
        assert((10 * n + d) / 10 == n && (10 * n + d) % 10 == d);
        assert(decimal(10 * n + d) =~= decimal(n) + decimal(d));
    }
}

} // verus!
