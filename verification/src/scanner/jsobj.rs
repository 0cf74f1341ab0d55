//! Just enough JavaScript to read an object literal, and no more.
//!
//! A Tailwind config is JavaScript, so it can import, spread and compute. We
//! parse it statically and never execute it: a responsive tester must not be a
//! way to run arbitrary code from a repo you just opened. The cost is that some
//! configs will not resolve, and the answer to that is to say exactly why (see
//! `ScanLog::parse_failure`) rather than to start evaluating.

use vstd::prelude::*;
use vstd::slice::slice_subrange;
use vstd::utf8::encode_utf8;
use crate::text::{
    alphanumeric, byte_at, chars_of, check_at, is_space, matches_at, newlines, slice_string, space,
    string_of, trim, trimmed, width_of,
};
use super::comments::{blank_text, blanked, commented, is_quote, Dialect};

verus! {

/// Replace every comment with spaces, keeping byte offsets and line numbers
/// intact so a failure can still be reported at the right line.
pub fn blank_comments(src: &str) -> (r: String)
    ensures
        r@ == blanked(src@, Dialect::Script),
        newlines(r@) == newlines(src@),
        encode_utf8(r@).len() == encode_utf8(src@).len(),
        forall|k: int|
            0 <= k < src@.len() && !#[trigger] commented(src@, Dialect::Script, k) ==> {
                let at = byte_at(src@, k) as int;
                let end = at + width_of(src@[k]);
                end <= encode_utf8(src@).len() && encode_utf8(r@).subrange(at, end) == encode_utf8(
                    src@,
                ).subrange(at, end)
            },
{
    proof {
        super::comments::blanking_keeps_the_lines(src@, Dialect::Script);
        super::comments::blanking_a_script_keeps_byte_offsets(src@);
    }
    blank_text(src, Dialect::Script)
}

/// The first index from `i` up to `close` where `stop` holds, or `close`.
pub open spec fn run_end(s: Seq<char>, i: int, close: int, stop: spec_fn(char) -> bool) -> int
    decreases close - i,
{
    if i >= close || stop(s[i]) {
        i
    } else {
        run_end(s, i + 1, close, stop)
    }
}

pub proof fn lemma_run_end(s: Seq<char>, i: int, close: int, stop: spec_fn(char) -> bool)
    ensures
        i <= run_end(s, i, close, stop),
        i <= close ==> run_end(s, i, close, stop) <= close,
        i >= close ==> run_end(s, i, close, stop) == i,
        run_end(s, i, close, stop) < close ==> stop(s[run_end(s, i, close, stop)]),
        forall|j: int| i <= j < run_end(s, i, close, stop) ==> !stop(#[trigger] s[j]),
    decreases close - i,
{
    if i >= close || stop(s[i]) {
    } else {
        lemma_run_end(s, i + 1, close, stop);
    }
}

/// The first index from `i` up to `close` that holds `c`, or `close`.
pub open spec fn run_until(s: Seq<char>, i: int, close: int, c: char) -> int
    decreases close - i,
{
    if i >= close || s[i] == c {
        i
    } else {
        run_until(s, i + 1, close, c)
    }
}

pub open spec fn past_spaces(s: Seq<char>, i: int, close: int) -> int {
    run_end(s, i, close, |c: char| !is_space(c))
}

fn skip_spaces(s: &[char], from: usize, close: usize) -> (r: usize)
    requires
        close <= s@.len(),
    ensures
        r == past_spaces(s@, from as int, close as int),
        from <= r,
        from <= close ==> r <= close,
        from > close ==> r == from,
        r < close ==> !is_space(s@[r as int]),
{
    let mut i: usize = from;
    let ghost stop = |c: char| !is_space(c);
    while i < close && space(s[i])
        invariant
            close <= s@.len(),
            from <= i,
            from <= close ==> i <= close,
            from > close ==> i == from,
            stop == (|c: char| !is_space(c)),
            run_end(s@, from as int, close as int, stop) == run_end(
                s@,
                i as int,
                close as int,
                stop,
            ),
        decreases close - i,
    {
        i += 1;
    }
    i
}

pub proof fn lemma_run_until(s: Seq<char>, i: int, close: int, c: char)
    ensures
        i <= run_until(s, i, close, c),
        i <= close ==> run_until(s, i, close, c) <= close,
        i >= close ==> run_until(s, i, close, c) == i,
    decreases close - i,
{
    if i < close && s[i] != c {
        lemma_run_until(s, i + 1, close, c);
    }
}

/// The `{` of the object written after the `:` at `colon`.
pub open spec fn object_at(s: Seq<char>, colon: int) -> Option<int> {
    let i = past_spaces(s, colon + 1, s.len() as int);
    if i < s.len() && s[i] == '{' {
        Some(i)
    } else {
        None
    }
}

/// The index just past the `{` that opens an object, given the index of a `:`.
/// Returns None when the value is not an object literal, which is the normal
/// way a spread or an identifier gets rejected.
pub fn object_after_colon(src: &[char], colon: usize) -> (r: Option<usize>)
    requires
        colon < usize::MAX,
    ensures
        match r {
            Some(i) => object_at(src@, colon as int) == Some(i - 1) && src@[i - 1] == '{' && colon
                + 1 < i <= src@.len(),
            None => object_at(src@, colon as int) is None,
        },
{
    let i: usize = skip_spaces(src, colon + 1, src.len());
    if i < src.len() && src[i] == '{' {
        Some(i + 1)
    } else {
        None
    }
}

/// Where a walk over braces ends up.
pub enum Closing {
    /// The brace that closes the one the walk began with.
    At(int),
    /// The text ends first.
    Missing,
    /// A closing brace comes before any opening one.
    Overclosed,
}

/// The walk over braces from `i` on, `depth` objects deep, with the quote `q`
/// open. Braces inside a string do not count.
pub open spec fn closing_from(s: Seq<char>, i: int, depth: int, q: Option<char>) -> Closing
    decreases s.len() + 1 - i,
{
    if i >= s.len() {
        Closing::Missing
    } else if q is Some {
        if s[i] == '\\' {
            closing_from(s, i + 2, depth, q)
        } else if s[i] == q->0 {
            closing_from(s, i + 1, depth, None)
        } else {
            closing_from(s, i + 1, depth, q)
        }
    } else if is_quote(Dialect::Script, s[i]) {
        closing_from(s, i + 1, depth, Some(s[i]))
    } else if s[i] == '{' {
        closing_from(s, i + 1, depth + 1, None)
    } else if s[i] == '}' {
        if depth <= 0 {
            Closing::Overclosed
        } else if depth == 1 {
            Closing::At(i)
        } else {
            closing_from(s, i + 1, depth - 1, None)
        }
    } else {
        closing_from(s, i + 1, depth, None)
    }
}

/// The walk over braces that starts at `open`.
pub open spec fn closing(s: Seq<char>, open: int) -> Closing {
    closing_from(s, open, 0, None)
}

/// Once inside an object the walk cannot be overclosed, and what it finds lies
/// ahead of it and is a brace.
pub proof fn lemma_closing_inside(s: Seq<char>, i: int, depth: int, q: Option<char>)
    requires
        depth >= 1,
        0 <= i,
    ensures
        match closing_from(s, i, depth, q) {
            Closing::At(k) => i <= k < s.len() && s[k] == '}',
            Closing::Missing => true,
            Closing::Overclosed => false,
        },
    decreases s.len() + 1 - i,
{
    if i >= s.len() {
    } else if q is Some {
        if s[i] == '\\' {
            lemma_closing_inside(s, i + 2, depth, q);
        } else if s[i] == q->0 {
            lemma_closing_inside(s, i + 1, depth, None);
        } else {
            lemma_closing_inside(s, i + 1, depth, q);
        }
    } else if is_quote(Dialect::Script, s[i]) {
        lemma_closing_inside(s, i + 1, depth, Some(s[i]));
    } else if s[i] == '{' {
        lemma_closing_inside(s, i + 1, depth + 1, None);
    } else if s[i] == '}' {
        if depth > 1 {
            lemma_closing_inside(s, i + 1, depth - 1, None);
        }
    } else {
        lemma_closing_inside(s, i + 1, depth, None);
    }
}

/// A walk that starts on an opening brace is never overclosed.
pub proof fn an_open_brace_is_never_overclosed(s: Seq<char>, open: int)
    requires
        0 <= open < s.len(),
        s[open] == '{',
    ensures
        match closing(s, open) {
            Closing::At(k) => open < k < s.len() && s[k] == '}',
            Closing::Missing => true,
            Closing::Overclosed => false,
        },
{
    lemma_closing_inside(s, open + 1, 1, None);
}

/// Index of the `}` that closes the `{` at `open`.
pub fn match_braces(src: &[char], open: usize) -> (r: Option<usize>)
    requires
        !(closing(src@, open as int) is Overclosed),
    ensures
        match r {
            Some(k) => closing(src@, open as int) == Closing::At(k as int) && open <= k
                < src@.len(),
            None => closing(src@, open as int) is Missing,
        },
{
    let mut depth: usize = 0;
    let mut i: usize = open;
    let mut quote: Option<char> = None;
    while i < src.len()
        invariant
            open <= i,
            i <= src@.len() || i == open,
            depth <= i - open,
            closing(src@, open as int) == closing_from(src@, i as int, depth as int, quote),
            !(closing(src@, open as int) is Overclosed),
        decreases src.len() - i,
    {
        let c = src[i];
        if let Some(q) = quote {
            if c == '\\' {
                if i + 1 < src.len() {
                    i += 2;
                } else {
                    assert(closing_from(src@, i + 2, depth as int, quote) is Missing);
                    return None;
                }
                continue;
            }
            if c == q {
                quote = None;
            }
            i += 1;
            continue;
        }
        if c == '"' || c == '\'' || c == '`' {
            quote = Some(c);
        } else if c == '{' {
            depth += 1;
        } else if c == '}' {
            depth -= 1;
            if depth == 0 {
                return Some(i);
            }
        }
        i += 1;
    }
    None
}

/// Whether a character cannot stand right before a key, because it would make
/// the key part of a longer name.
pub open spec fn joins_a_name(c: char) -> bool {
    alphanumeric(c) || c == '_' || c == '$' || c == '.'
}

/// The `:` of the key `key` written at `i`, bare or in quotes.
pub open spec fn key_at(s: Seq<char>, key: Seq<char>, i: int) -> Option<int> {
    let after = i + key.len();
    let past_quote = if after < s.len() && (s[after] == '"' || s[after] == '\'') {
        after + 1
    } else {
        after
    };
    let j = past_spaces(s, past_quote, s.len() as int);
    if matches_at(s, key, i) && (i == 0 || !joins_a_name(s[i - 1])) && j < s.len() && s[j] == ':' {
        Some(j)
    } else {
        None
    }
}

/// The `:` of the first key named `key` written at `from` or later.
pub open spec fn key_from(s: Seq<char>, key: Seq<char>, from: int) -> Option<int>
    decreases s.len() - from,
{
    if from + key.len() >= s.len() {
        None
    } else if key_at(s, key, from) is Some {
        key_at(s, key, from)
    } else {
        key_from(s, key, from + 1)
    }
}

pub proof fn lemma_key_from(s: Seq<char>, key: Seq<char>, from: int)
    requires
        0 <= from,
    ensures
        match key_from(s, key, from) {
            Some(j) => from <= j < s.len() && s[j] == ':',
            None => true,
        },
    decreases s.len() - from,
{
    if from + key.len() >= s.len() {
    } else if key_at(s, key, from) is Some {
        let after = from + key.len();
        lemma_run_end(s, after, s.len() as int, |c: char| !is_space(c));
        lemma_run_end(s, after + 1, s.len() as int, |c: char| !is_space(c));
    } else {
        lemma_key_from(s, key, from + 1);
    }
}

/// Index of the `:` following a key with this name, searching from `from`.
/// Matches `screens:`, `"screens":` and `'screens':`.
pub fn find_key(src: &[char], key: &str, from: usize) -> (r: Option<usize>)
    ensures
        match r {
            Some(j) => key_from(src@, key@, from as int) == Some(j as int) && from <= j
                < src@.len() && src@[j as int] == ':',
            None => key_from(src@, key@, from as int) is None,
        },
{
    let name = chars_of(key);
    let n: usize = name.len();
    proof {
        lemma_key_from(src@, key@, from as int);
    }
    if n > src.len() {
        return None;
    }
    let mut i: usize = from;
    while i < src.len() - n
        invariant
            n == name@.len(),
            name@ == key@,
            n <= src@.len(),
            from <= i,
            key_from(src@, key@, from as int) == key_from(src@, key@, i as int),
            match key_from(src@, key@, from as int) {
                Some(j) => from <= j < src@.len() && src@[j] == ':',
                None => true,
            },
        decreases src.len() - i,
    {
        if check_at(src, name.as_slice(), i) {
            let before_ok = if i == 0 {
                true
            } else {
                let b = src[i - 1];
                !b.is_alphanumeric() && b != '_' && b != '$' && b != '.'
            };
            if before_ok {
                let mut j: usize = i + n;
                if j < src.len() && (src[j] == '"' || src[j] == '\'') {
                    j += 1;
                }
                j = skip_spaces(src, j, src.len());
                if j < src.len() && src[j] == ':' {
                    return Some(j);
                }
            }
        }
        i += 1;
    }
    None
}

/// How many objects deep `pos` is in a walk that stands at `i`, `depth` deep,
/// with the quote `q` open.
pub open spec fn depth_from(s: Seq<char>, i: int, pos: int, depth: nat, q: Option<char>) -> nat
    decreases pos + 1 - i,
{
    if i >= pos || i >= s.len() {
        depth
    } else if q is Some {
        if s[i] == '\\' {
            depth_from(s, i + 2, pos, depth, q)
        } else if s[i] == q->0 {
            depth_from(s, i + 1, pos, depth, None)
        } else {
            depth_from(s, i + 1, pos, depth, q)
        }
    } else if is_quote(Dialect::Script, s[i]) {
        depth_from(s, i + 1, pos, depth, Some(s[i]))
    } else if s[i] == '{' {
        depth_from(s, i + 1, pos, depth + 1, None)
    } else if s[i] == '}' {
        depth_from(
            s,
            i + 1,
            pos,
            if depth == 0 {
                0
            } else {
                (depth - 1) as nat
            },
            None,
        )
    } else {
        depth_from(s, i + 1, pos, depth, None)
    }
}

/// How many objects deep `pos` is, counting from the `{` at `open`.
pub fn depth_between(src: &[char], open: usize, pos: usize) -> (r: usize)
    ensures
        r == depth_from(src@, open as int, pos as int, 0, None),
{
    let mut depth: usize = 0;
    let mut quote: Option<char> = None;
    let mut i: usize = open;
    while i < pos && i < src.len()
        invariant
            open <= i,
            depth <= i - open,
            depth_from(src@, open as int, pos as int, 0, None) == depth_from(
                src@,
                i as int,
                pos as int,
                depth as nat,
                quote,
            ),
        decreases src.len() - i,
    {
        let c = src[i];
        if let Some(q) = quote {
            if c == '\\' {
                if i + 1 < src.len() {
                    i += 2;
                } else {
                    assert(depth_from(src@, i + 2, pos as int, depth as nat, quote) == depth);
                    return depth;
                }
                continue;
            }
            if c == q {
                quote = None;
            }
            i += 1;
            continue;
        }
        if c == '"' || c == '\'' || c == '`' {
            quote = Some(c);
        } else if c == '{' {
            depth += 1;
        } else if c == '}' {
            if depth > 0 {
                depth -= 1;
            }
        }
        i += 1;
    }
    depth
}

/// The `:` of the first key named `key`, at `from` or later and before
/// `close`, that sits directly in the object opened at `open`.
pub open spec fn child_from(
    s: Seq<char>,
    open: int,
    close: int,
    key: Seq<char>,
    from: int,
) -> Option<int>
    decreases s.len() - from,
    when 0 <= from
    via child_from_decreases
{
    match key_from(s, key, from) {
        None => None,
        Some(colon) => if colon >= close {
            None
        } else if depth_from(s, open, colon, 0, None) == 1 {
            Some(colon)
        } else {
            child_from(s, open, close, key, colon + 1)
        },
    }
}

#[via_fn]
proof fn child_from_decreases(s: Seq<char>, open: int, close: int, key: Seq<char>, from: int) {
    lemma_key_from(s, key, from);
}

/// The `:` of the direct member `key` of the object opened at `open`.
pub open spec fn child_of(s: Seq<char>, open: int, key: Seq<char>) -> Option<int> {
    match closing(s, open) {
        Closing::At(close) => child_from(s, open, close, key, open + 1),
        _ => None,
    }
}

/// The `:` after a key that is a *direct* member of the object opened at
/// `open`, rather than one buried in a nested object.
///
/// "The first `screens` in the file" is the wrong question to ask.
/// `theme.container.screens` is the container plugin's max-widths and has
/// nothing to do with breakpoints, but it is spelled the same and in a real
/// config it usually comes first.
pub fn child_key(src: &[char], open: usize, key: &str) -> (r: Option<usize>)
    requires
        !(closing(src@, open as int) is Overclosed),
    ensures
        match r {
            Some(j) => child_of(src@, open as int, key@) == Some(j as int) && open < j
                < src@.len() && src@[j as int] == ':',
            None => child_of(src@, open as int, key@) is None,
        },
{
    let close: usize = match match_braces(src, open) {
        Some(k) => k,
        None => {
            return None;
        },
    };
    assert(open < src.len());
    let mut from: usize = open + 1;
    loop
        invariant
            open < from <= src@.len(),
            close < src@.len(),
            closing(src@, open as int) == Closing::At(close as int),
            child_of(src@, open as int, key@) == child_from(
                src@,
                open as int,
                close as int,
                key@,
                from as int,
            ),
        decreases src.len() - from,
    {
        match find_key(src, key, from) {
            None => {
                return None;
            },
            Some(colon) => {
                if colon >= close {
                    return None;
                }
                if depth_between(src, open, colon) == 1 {
                    return Some(colon);
                }
                from = colon + 1;
            },
        }
    }
}

/// One entry of an object literal.
#[derive(Debug, Clone, PartialEq)]
pub struct Entry {
    pub key: String,
    /// The value exactly as written, so an unresolvable one can be logged.
    pub value: String,
    pub offset: usize,
}

/// An [`Entry`], with its texts as characters.
pub struct Member {
    pub key: Seq<char>,
    pub value: Seq<char>,
    pub offset: int,
}

impl View for Entry {
    type V = Member;

    open spec fn view(&self) -> Member {
        Member { key: self.key@, value: self.value@, offset: self.offset as int }
    }
}

pub open spec fn members(v: Seq<Entry>) -> Seq<Member> {
    v.map_values(|e: Entry| e@)
}

/// Where the value that starts at `i` ends: at the next comma outside every
/// bracket and string, or at `close`. An escape may step past `close`.
pub open spec fn value_end(s: Seq<char>, i: int, close: int, depth: nat, q: Option<char>) -> int
    decreases close + 1 - i,
{
    if i >= close {
        i
    } else if q is Some {
        if s[i] == '\\' {
            value_end(s, i + 2, close, depth, q)
        } else if s[i] == q->0 {
            value_end(s, i + 1, close, depth, None)
        } else {
            value_end(s, i + 1, close, depth, q)
        }
    } else if is_quote(Dialect::Script, s[i]) {
        value_end(s, i + 1, close, depth, Some(s[i]))
    } else if s[i] == '{' || s[i] == '[' || s[i] == '(' {
        value_end(s, i + 1, close, depth + 1, None)
    } else if s[i] == '}' || s[i] == ']' || s[i] == ')' {
        value_end(
            s,
            i + 1,
            close,
            if depth == 0 {
                0
            } else {
                (depth - 1) as nat
            },
            None,
        )
    } else if s[i] == ',' && depth == 0 {
        i
    } else {
        value_end(s, i + 1, close, depth, None)
    }
}

proof fn lemma_value_end(s: Seq<char>, i: int, close: int, depth: nat, q: Option<char>)
    ensures
        i <= value_end(s, i, close, depth, q),
        i <= close ==> value_end(s, i, close, depth, q) <= close + 1,
    decreases close + 1 - i,
{
    if i >= close {
    } else if q is Some {
        if s[i] == '\\' {
            lemma_value_end(s, i + 2, close, depth, q);
        } else if s[i] == q->0 {
            lemma_value_end(s, i + 1, close, depth, None);
        } else {
            lemma_value_end(s, i + 1, close, depth, q);
        }
    } else if is_quote(Dialect::Script, s[i]) {
        lemma_value_end(s, i + 1, close, depth, Some(s[i]));
    } else if s[i] == '{' || s[i] == '[' || s[i] == '(' {
        lemma_value_end(s, i + 1, close, depth + 1, None);
    } else if s[i] == '}' || s[i] == ']' || s[i] == ')' {
        lemma_value_end(
            s,
            i + 1,
            close,
            if depth == 0 {
                0
            } else {
                (depth - 1) as nat
            },
            None,
        );
    } else if s[i] == ',' && depth == 0 {
    } else {
        lemma_value_end(s, i + 1, close, depth, None);
    }
}

/// Where the next entry starts: past the spaces and commas.
pub open spec fn entry_start(s: Seq<char>, i: int, close: int) -> int {
    run_end(s, i, close, |c: char| !(is_space(c) || c == ','))
}

/// The key written at `a`, and the index just past it.
pub open spec fn key_written(s: Seq<char>, a: int, close: int) -> (Seq<char>, int) {
    if s[a] == '"' || s[a] == '\'' {
        let e = run_until(s, a + 1, close, s[a]);
        (s.subrange(a + 1, e), e + 1)
    } else {
        let e = run_end(s, a, close, |c: char| is_space(c) || c == ':' || c == ',');
        (s.subrange(a, e), e)
    }
}

pub open spec fn int_min(a: int, b: int) -> int {
    if a <= b {
        a
    } else {
        b
    }
}

/// The entries written between `i` and `close`. What is not `key: value`, a
/// spread or a method, is recorded under an empty key.
pub open spec fn entries_from(s: Seq<char>, i: int, close: int) -> Seq<Member>
    decreases close + 1 - i,
    when close <= s.len()
    via entries_from_decreases
{
    let a = entry_start(s, i, close);
    if a >= close {
        Seq::empty()
    } else {
        let key = key_written(s, a, close);
        let c = past_spaces(s, key.1, close);
        if c >= close || s[c] != ':' {
            let raw = trimmed(s.subrange(a, int_min(c, close)));
            let rest = entries_from(s, run_until(s, c, close, ','), close);
            if raw.len() > 0 {
                seq![Member { key: Seq::empty(), value: raw, offset: a }] + rest
            } else {
                rest
            }
        } else {
            let v = past_spaces(s, c + 1, close);
            let e = value_end(s, v, close, 0, None);
            seq![
                Member {
                    key: key.0,
                    value: trimmed(s.subrange(v, int_min(e, close))),
                    offset: v,
                },
            ] + entries_from(s, e, close)
        }
    }
}

proof fn lemma_entry_steps(s: Seq<char>, i: int, close: int)
    requires
        close <= s.len(),
    ensures
        ({
            let a = entry_start(s, i, close);
            let key = key_written(s, a, close);
            let c = past_spaces(s, key.1, close);
            let v = past_spaces(s, c + 1, close);
            let e = value_end(s, v, close, 0, None);
            let d = run_until(s, c, close, ',');
            a < close ==> {
                &&& i <= a
                &&& a <= key.1 <= close + 1
                &&& key.1 <= c
                &&& c <= close + 1
                &&& (c >= close || s[c] != ':') ==> a < d <= close + 1
                &&& (c < close && s[c] == ':') ==> a < v <= close && v <= e <= close + 1
            }
        }),
{
    let a = entry_start(s, i, close);
    lemma_run_end(s, i, close, |c: char| !(is_space(c) || c == ','));
    if a < close {
        let key = key_written(s, a, close);
        lemma_run_until(s, a + 1, close, s[a]);
        let stop = |c: char| is_space(c) || c == ':' || c == ',';
        lemma_run_end(s, a, close, stop);
        let c = past_spaces(s, key.1, close);
        lemma_run_end(s, key.1, close, |c: char| !is_space(c));
        let v = past_spaces(s, c + 1, close);
        lemma_run_end(s, c + 1, close, |c: char| !is_space(c));
        lemma_value_end(s, v, close, 0, None);
        lemma_run_until(s, c, close, ',');
        if !(s[a] == '"' || s[a] == '\'') {
            if !(c < close && s[c] == ':') {
                assert(s[a] != ':' ==> !stop(s[a]));
                assert(s[a] == ':' ==> key.1 == a && c == a);
            }
        }
    }
}

#[via_fn]
proof fn entries_from_decreases(s: Seq<char>, i: int, close: int) {
    lemma_entry_steps(s, i, close);
}

/// The entries of the object opened at `open`.
pub open spec fn entries_of(s: Seq<char>, open: int) -> Seq<Member> {
    match closing(s, open) {
        Closing::At(close) => entries_from(s, open + 1, close),
        _ => Seq::empty(),
    }
}

fn skip_to_entry(src: &[char], from: usize, close: usize) -> (r: usize)
    requires
        close <= src@.len(),
        from <= close + 1,
    ensures
        r == entry_start(src@, from as int, close as int),
        r <= close + 1,
{
    let mut i: usize = from;
    let ghost stop = |c: char| !(is_space(c) || c == ',');
    while i < close && (space(src[i]) || src[i] == ',')
        invariant
            close <= src@.len(),
            from <= i,
            i <= close + 1,
            stop == (|c: char| !(is_space(c) || c == ',')),
            run_end(src@, from as int, close as int, stop) == run_end(
                src@,
                i as int,
                close as int,
                stop,
            ),
        decreases close - i,
    {
        i += 1;
    }
    i
}

fn skip_to_char(src: &[char], from: usize, close: usize, c: char) -> (r: usize)
    requires
        close <= src@.len(),
    ensures
        r == run_until(src@, from as int, close as int, c),
{
    let mut i: usize = from;
    while i < close && src[i] != c
        invariant
            close <= src@.len(),
            from <= i,
            run_until(src@, from as int, close as int, c) == run_until(
                src@,
                i as int,
                close as int,
                c,
            ),
        decreases close - i,
    {
        i += 1;
    }
    i
}

fn skip_bare_key(src: &[char], from: usize, close: usize) -> (r: usize)
    requires
        close <= src@.len(),
    ensures
        r == run_end(
            src@,
            from as int,
            close as int,
            |c: char| is_space(c) || c == ':' || c == ',',
        ),
{
    let mut i: usize = from;
    let ghost stop = |c: char| is_space(c) || c == ':' || c == ',';
    while i < close && !space(src[i]) && src[i] != ':' && src[i] != ','
        invariant
            close <= src@.len(),
            from <= i,
            stop == (|c: char| is_space(c) || c == ':' || c == ','),
            run_end(src@, from as int, close as int, stop) == run_end(
                src@,
                i as int,
                close as int,
                stop,
            ),
        decreases close - i,
    {
        i += 1;
    }
    i
}

fn find_value_end(src: &[char], from: usize, close: usize) -> (r: usize)
    requires
        from <= close < src@.len(),
    ensures
        r == value_end(src@, from as int, close as int, 0, None),
        r <= close + 1,
{
    let mut i: usize = from;
    let mut depth: usize = 0;
    let mut quote: Option<char> = None;
    proof {
        lemma_value_end(src@, from as int, close as int, 0, None);
    }
    while i < close
        invariant
            from <= i,
            close < src@.len(),
            i <= close + 1,
            depth <= i - from,
            value_end(src@, from as int, close as int, 0, None) <= close + 1,
            value_end(src@, from as int, close as int, 0, None) == value_end(
                src@,
                i as int,
                close as int,
                depth as nat,
                quote,
            ),
        decreases close + 1 - i,
    {
        let c = src[i];
        if let Some(q) = quote {
            if c == '\\' {
                i += 2;
                continue;
            }
            if c == q {
                quote = None;
            }
            i += 1;
            continue;
        }
        if c == '"' || c == '\'' || c == '`' {
            quote = Some(c);
        } else if c == '{' || c == '[' || c == '(' {
            depth += 1;
        } else if c == '}' || c == ']' || c == ')' {
            if depth > 0 {
                depth -= 1;
            }
        } else if c == ',' && depth == 0 {
            return i;
        }
        i += 1;
    }
    i
}

fn least(a: usize, b: usize) -> (r: usize)
    ensures
        r == int_min(a as int, b as int),
{
    if a <= b {
        a
    } else {
        b
    }
}

/// Read the top-level entries of the object opened at `open`.
pub fn entries(src: &[char], open: usize) -> (r: Vec<Entry>)
    requires
        !(closing(src@, open as int) is Overclosed),
    ensures
        members(r@) == entries_of(src@, open as int),
{
    let close: usize = match match_braces(src, open) {
        Some(k) => k,
        None => {
            let none: Vec<Entry> = Vec::new();
            assert(members(none@) =~= Seq::<Member>::empty());
            return none;
        },
    };
    let mut out: Vec<Entry> = Vec::new();
    assert(open < src.len());
    let mut i: usize = open + 1;
    assert(members(out@) + entries_from(src@, i as int, close as int) =~= entries_from(
        src@,
        i as int,
        close as int,
    ));
    loop
        invariant
            i <= close + 1,
            close < src@.len(),
            closing(src@, open as int) == Closing::At(close as int),
            members(out@) + entries_from(src@, i as int, close as int) == entries_of(
                src@,
                open as int,
            ),
        decreases close + 1 - i,
    {
        proof {
            lemma_entry_steps(src@, i as int, close as int);
        }
        let ghost before = members(out@);
        let ghost here = entries_from(src@, i as int, close as int);
        let a: usize = skip_to_entry(src, i, close);
        if a >= close {
            assert(members(out@) =~= before + here);
            return out;
        }
        assert(close < src.len());
        let key: String;
        let past: usize;
        if src[a] == '"' || src[a] == '\'' {
            let e: usize = skip_to_char(src, a + 1, close, src[a]);
            proof {
                lemma_run_until(src@, a + 1, close as int, src@[a as int]);
            }
            key = slice_string(src, a + 1, e);
            past = e + 1;
        } else {
            let e: usize = skip_bare_key(src, a, close);
            proof {
                lemma_run_end(
                    src@,
                    a as int,
                    close as int,
                    |c: char| is_space(c) || c == ':' || c == ',',
                );
            }
            key = slice_string(src, a, e);
            past = e;
        }
        assert((key@, past as int) == key_written(src@, a as int, close as int));
        let c: usize = skip_spaces(src, past, close);
        if c >= close || src[c] != ':' {
            let raw = slice_subrange(src, a, least(c, close));
            let raw = trim(raw);
            if raw.len() > 0 {
                out.push(Entry { key: String::new(), value: string_of(raw), offset: a });
                assert(members(out@) =~= before.push(
                    Member { key: Seq::empty(), value: raw@, offset: a as int },
                ));
            }
            let next: usize = skip_to_char(src, c, close, ',');
            assert(before + here =~= members(out@) + entries_from(
                src@,
                next as int,
                close as int,
            ));
            i = next;
        } else {
            let v: usize = skip_spaces(src, c + 1, close);
            let e: usize = find_value_end(src, v, close);
            let value = string_of(trim(slice_subrange(src, v, least(e, close))));
            let ghost m = Member { key: key@, value: value@, offset: v as int };
            out.push(Entry { key, value, offset: v });
            assert(members(out@) =~= before.push(m));
            assert(before + here =~= members(out@) + entries_from(src@, e as int, close as int));
            i = e;
        }
    }
}

/// The line, counted from one, that `offset` stands on.
pub open spec fn line_at(s: Seq<char>, offset: int) -> usize {
    let n = newlines(s.take(int_min(offset, s.len() as int))) + 1;
    if n > usize::MAX {
        usize::MAX
    } else {
        n as usize
    }
}

pub fn line_of(src: &[char], offset: usize) -> (r: usize)
    ensures
        r == line_at(src@, offset as int),
{
    let end: usize = least(offset, src.len());
    let mut n: usize = 0;
    let mut i: usize = 0;
    while i < end
        invariant
            n <= i <= end <= src@.len(),
            n == newlines(src@.take(i as int)),
        decreases end - i,
    {
        assert(src@.take(i + 1).drop_last() =~= src@.take(i as int));
        if src[i] == '\n' {
            n += 1;
        }
        i += 1;
    }
    if n == usize::MAX {
        n
    } else {
        n + 1
    }
}

/// What stands between the braces of an object without any other, and without a
/// string, is closed by the brace after it.
pub proof fn a_plain_object_closes_at_its_brace(s: Seq<char>, open: int, close: int)
    requires
        0 <= open < close < s.len(),
        s[open] == '{',
        s[close] == '}',
        forall|i: int|
            open < i < close ==> (#[trigger] s[i]) != '{' && s[i] != '}' && !is_quote(
                Dialect::Script,
                s[i],
            ),
    ensures
        closing(s, open) == Closing::At(close),
{
    reveal_with_fuel(closing_from, 2);
    lemma_walk_to_brace(s, open + 1, close, 1);
}

proof fn lemma_walk_to_brace(s: Seq<char>, i: int, close: int, depth: int)
    requires
        0 <= i <= close < s.len(),
        s[close] == '}',
        depth == 1,
        forall|k: int|
            i <= k < close ==> (#[trigger] s[k]) != '{' && s[k] != '}' && !is_quote(
                Dialect::Script,
                s[k],
            ),
    ensures
        closing_from(s, i, depth, None) == Closing::At(close),
    decreases close - i,
{
    if i < close {
        lemma_walk_to_brace(s, i + 1, close, depth);
    }
}

/// A string is passed over whole: no brace in it opens or closes anything.
pub proof fn a_brace_in_a_string_is_text(s: Seq<char>, i: int, end: int, depth: int)
    requires
        0 <= i < end < s.len(),
        is_quote(Dialect::Script, s[i]),
        s[end] == s[i],
        forall|k: int| i < k < end ==> (#[trigger] s[k]) != s[i] && s[k] != '\\',
        s[i] != '\\',
    ensures
        closing_from(s, i, depth, None) == closing_from(s, end + 1, depth, None),
{
    lemma_through_string(s, i + 1, end, depth, s[i]);
}

proof fn lemma_through_string(s: Seq<char>, i: int, end: int, depth: int, q: char)
    requires
        0 <= i <= end < s.len(),
        s[end] == q,
        q != '\\',
        forall|k: int| i <= k < end ==> (#[trigger] s[k]) != q && s[k] != '\\',
    ensures
        closing_from(s, i, depth, Some(q)) == closing_from(s, end + 1, depth, None),
    decreases end - i,
{
    if i < end {
        lemma_through_string(s, i + 1, end, depth, q);
    }
}

/// An entry written plainly is read as it stands: the name up to the colon, the
/// value up to the comma after it or to the end, and then the rest.
pub proof fn a_plain_entry_is_read(s: Seq<char>, i: int, colon: int, end: int, close: int)
    requires
        0 <= i < colon,
        colon + 1 < end <= close <= s.len(),
        s[colon] == ':',
        end < close ==> s[end] == ',',
        forall|k: int|
            i <= k < colon ==> !is_space(#[trigger] s[k]) && s[k] != ':' && s[k] != ',' && s[k]
                != '"' && s[k] != '\'',
        forall|k: int|
            colon < k < end ==> !is_space(#[trigger] s[k]) && s[k] != ',' && !is_quote(
                Dialect::Script,
                s[k],
            ) && s[k] != '{' && s[k] != '[' && s[k] != '(' && s[k] != '}' && s[k] != ']' && s[k]
                != ')',
    ensures
        entries_from(s, i, close) == seq![
            Member {
                key: s.subrange(i, colon),
                value: s.subrange(colon + 1, end),
                offset: colon + 1,
            },
        ] + entries_from(s, end, close),
{
    let start = |c: char| !(is_space(c) || c == ',');
    let name = |c: char| is_space(c) || c == ':' || c == ',';
    let solid = |c: char| !is_space(c);
    assert(start(s[i]));
    assert(entry_start(s, i, close) == i);
    lemma_run_stops(s, i, colon, close, name);
    assert(key_written(s, i, close) == (s.subrange(i, colon), colon));
    assert(!is_space(':'));
    assert(solid(s[colon]));
    assert(past_spaces(s, colon, close) == colon);
    assert(solid(s[colon + 1]));
    assert(past_spaces(s, colon + 1, close) == colon + 1);
    lemma_plain_value(s, colon + 1, end, close);
    let v = s.subrange(colon + 1, end);
    assert(v[0] == s[colon + 1] && v[v.len() - 1] == s[end - 1]);
    crate::text::lemma_trimmed_plain(v);
}

proof fn lemma_run_stops(s: Seq<char>, i: int, end: int, close: int, stop: spec_fn(char) -> bool)
    requires
        0 <= i <= end < close <= s.len(),
        stop(s[end]),
        forall|k: int| i <= k < end ==> !stop(#[trigger] s[k]),
    ensures
        run_end(s, i, close, stop) == end,
    decreases end - i,
{
    if i < end {
        lemma_run_stops(s, i + 1, end, close, stop);
    }
}

proof fn lemma_plain_value(s: Seq<char>, i: int, end: int, close: int)
    requires
        0 <= i <= end <= close <= s.len(),
        end < close ==> s[end] == ',',
        !is_quote(Dialect::Script, ','),
        forall|k: int|
            i <= k < end ==> (#[trigger] s[k]) != ',' && !is_quote(Dialect::Script, s[k]) && s[k]
                != '{' && s[k] != '[' && s[k] != '(' && s[k] != '}' && s[k] != ']' && s[k] != ')',
    ensures
        value_end(s, i, close, 0, None) == end,
    decreases end - i,
{
    if i < end {
        lemma_plain_value(s, i + 1, end, close);
    }
}

/// The first line is one, and every line break before a place is a line more.
pub proof fn a_line_is_counted_by_its_breaks(s: Seq<char>, offset: int)
    requires
        0 <= offset < s.len(),
        s.len() < usize::MAX,
    ensures
        line_at(s, 0) == 1,
        line_at(s, offset + 1) == line_at(s, offset) + if s[offset] == '\n' {
            1int
        } else {
            0
        },
{
    lemma_breaks_bounded(s.take(offset + 1));
    lemma_breaks_bounded(s.take(offset));
    assert(s.take(0) =~= Seq::empty());
    assert(s.take(offset + 1).drop_last() =~= s.take(offset));
    assert(s.take(offset + 1).last() == s[offset]);
}

proof fn lemma_breaks_bounded(s: Seq<char>)
    ensures
        newlines(s) <= s.len(),
    decreases s.len(),
{
    if s.len() > 0 {
        lemma_breaks_bounded(s.drop_last());
    }
}

/// A key is found at the first place where it stands as one, the very beginning
/// too.
pub proof fn the_first_place_of_a_key_counts(s: Seq<char>, key: Seq<char>, from: int, k: int)
    requires
        0 <= from <= k,
        k + key.len() < s.len(),
        key_at(s, key, k) is Some,
        forall|j: int| from <= j < k ==> (#[trigger] key_at(s, key, j)) is None,
    ensures
        key_from(s, key, from) == key_at(s, key, k),
    decreases k - from,
{
    if from < k {
        assert(key_at(s, key, from) is None);
        the_first_place_of_a_key_counts(s, key, from + 1, k);
    }
}

} // verus!
