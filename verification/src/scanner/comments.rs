//! Blanking comments out of source text, without moving anything.
//!
//! JavaScript and the stylesheet languages share one shape of comment. They
//! differ in what quotes a string and in when two slashes start a comment.

use vstd::prelude::*;
use vstd::utf8::{encode_scalar, encode_utf8};
use crate::text::{
    byte_at, char_width, chars_of, find_char, first_char, lemma_bytes_at, lemma_bytes_of,
    lemma_encode_one, lemma_encode_two, lemma_first_char, lemma_width, newlines, string_of,
    width_of,
};

verus! {

/// Which language's comments these are.
#[derive(Debug, Clone, Copy, PartialEq, Eq, Structural)]
pub enum Dialect {
    /// A backtick quotes too, and `//` is always a comment.
    Script,
    /// `//` after a colon is the middle of an address, not a comment.
    Style,
}

pub open spec fn is_quote(d: Dialect, c: char) -> bool {
    c == '"' || c == '\'' || (d == Dialect::Script && c == '`')
}

/// Whether a comment that runs to the end of the line starts at `i`.
pub open spec fn line_comment_at(s: Seq<char>, d: Dialect, i: int) -> bool {
    &&& i + 1 < s.len()
    &&& s[i] == '/'
    &&& s[i + 1] == '/'
    &&& d == Dialect::Script || i == 0 || s[i - 1] != ':'
}

/// Whether a comment with an end of its own starts at `i`.
pub open spec fn block_comment_at(s: Seq<char>, i: int) -> bool {
    i + 1 < s.len() && s[i] == '/' && s[i + 1] == '*'
}

/// Just past the first `*/` whose slash stands at `j` or later, or the end.
pub open spec fn block_end(s: Seq<char>, j: int) -> int
    decreases s.len() - j,
{
    if j >= s.len() {
        s.len() as int
    } else if j > 0 && s[j - 1] == '*' && s[j] == '/' {
        j + 1
    } else {
        block_end(s, j + 1)
    }
}

/// Where the block comment that starts at `i` ends. The star that opens it does
/// not close it too.
pub open spec fn block_comment_end(s: Seq<char>, i: int) -> int {
    block_end(s, i + 3)
}

/// Where the line comment that starts at `i` ends: at the newline, if any.
pub open spec fn line_comment_end(s: Seq<char>, i: int) -> int {
    match first_char(s, '\n', i) {
        Some(k) => k,
        None => s.len() as int,
    }
}

/// A newline stays a newline and everything else becomes a space.
pub open spec fn blank_char(c: char) -> char {
    if c == '\n' {
        '\n'
    } else {
        ' '
    }
}

pub fn blank_but_newlines(c: char) -> (r: char)
    ensures
        r == blank_char(c),
{
    if c == '\n' {
        '\n'
    } else {
        ' '
    }
}

pub open spec fn blanked_range(s: Seq<char>, from: int, to: int) -> Seq<char> {
    s.subrange(from, to).map_values(|c: char| blank_char(c))
}

proof fn lemma_block_end(s: Seq<char>, j: int)
    requires
        0 <= j,
    ensures
        block_end(s, j) <= s.len(),
        j < s.len() ==> j < block_end(s, j),
        j >= s.len() ==> block_end(s, j) == s.len(),
    decreases s.len() - j,
{
    if j < s.len() && !(j > 0 && s[j - 1] == '*' && s[j] == '/') {
        lemma_block_end(s, j + 1);
    }
}

proof fn lemma_ends(s: Seq<char>, d: Dialect, i: int)
    requires
        0 <= i < s.len(),
    ensures
        line_comment_at(s, d, i) ==> i < line_comment_end(s, i) <= s.len(),
        block_comment_at(s, i) ==> i < block_comment_end(s, i) <= s.len(),
{
    lemma_first_char(s, '\n', i);
    lemma_block_end(s, i + 3);
}

/// One step of reading, from `i` with the quote `q` open, if one is: where the
/// next one starts, which quote is open there, and whether what is stepped over
/// is a comment.
pub open spec fn step(s: Seq<char>, d: Dialect, i: int, q: Option<char>) -> (
    int,
    Option<char>,
    bool,
) {
    if q is Some {
        if s[i] == '\\' && i + 1 < s.len() {
            (i + 2, q, false)
        } else if s[i] == q->0 {
            (i + 1, None, false)
        } else {
            (i + 1, q, false)
        }
    } else if is_quote(d, s[i]) {
        (i + 1, Some(s[i]), false)
    } else if line_comment_at(s, d, i) {
        (line_comment_end(s, i), None, true)
    } else if block_comment_at(s, i) {
        (block_comment_end(s, i), None, true)
    } else {
        (i + 1, None, false)
    }
}

proof fn lemma_step(s: Seq<char>, d: Dialect, i: int, q: Option<char>)
    requires
        0 <= i < s.len(),
    ensures
        i < step(s, d, i, q).0 <= s.len(),
{
    lemma_ends(s, d, i);
}

/// Whether character `k` is in a comment, reading on from `i` with the quote `q`
/// open.
pub open spec fn commented_from(
    s: Seq<char>,
    d: Dialect,
    i: int,
    q: Option<char>,
    k: int,
) -> bool
    decreases s.len() - i,
    when 0 <= i
    via commented_from_decreases
{
    if i >= s.len() || k < i {
        false
    } else {
        let n = step(s, d, i, q);
        if k < n.0 {
            n.2
        } else {
            commented_from(s, d, n.0, n.1, k)
        }
    }
}

#[via_fn]
proof fn commented_from_decreases(
    s: Seq<char>,
    d: Dialect,
    i: int,
    q: Option<char>,
    k: int,
) {
    if i < s.len() {
        lemma_step(s, d, i, q);
    }
}

/// Whether character `k` of a text is in a comment.
pub open spec fn commented(s: Seq<char>, d: Dialect, k: int) -> bool {
    commented_from(s, d, 0, None, k)
}

/// How many spaces stand for a character: one, or in a script as many as it has
/// bytes, so that what comes after it stays at its byte.
pub open spec fn room_of(c: char, d: Dialect) -> nat {
    if d == Dialect::Script {
        width_of(c)
    } else {
        1
    }
}

/// What stands for a character in a comment.
pub open spec fn blank_of(c: char, d: Dialect) -> Seq<char> {
    if c == '\n' {
        seq!['\n']
    } else {
        Seq::new(room_of(c, d), |i: int| ' ')
    }
}

pub open spec fn piece(s: Seq<char>, d: Dialect, k: int) -> Seq<char> {
    if commented(s, d, k) {
        blank_of(s[k], d)
    } else {
        seq![s[k]]
    }
}

/// The first `n` characters of `s` with those in a comment blanked.
pub open spec fn blanked_upto(s: Seq<char>, d: Dialect, n: int) -> Seq<char>
    decreases n,
{
    if n <= 0 {
        Seq::empty()
    } else {
        blanked_upto(s, d, n - 1) + piece(s, d, n - 1)
    }
}

/// `s` with its comments blanked.
pub open spec fn blanked(s: Seq<char>, d: Dialect) -> Seq<char> {
    blanked_upto(s, d, s.len() as int)
}

proof fn lemma_newlines_two(a: Seq<char>, b: Seq<char>)
    ensures
        newlines(a + b) == newlines(a) + newlines(b),
    decreases b.len(),
{
    if b.len() == 0 {
        assert(a + b =~= a);
    } else {
        assert((a + b).drop_last() =~= a + b.drop_last());
        lemma_newlines_two(a, b.drop_last());
    }
}

proof fn lemma_no_newlines(s: Seq<char>)
    requires
        forall|i: int| 0 <= i < s.len() ==> s[i] != '\n',
    ensures
        newlines(s) == 0,
    decreases s.len(),
{
    if s.len() > 0 {
        lemma_no_newlines(s.drop_last());
    }
}

proof fn lemma_newlines_upto(s: Seq<char>, d: Dialect, n: int)
    requires
        0 <= n <= s.len(),
    ensures
        newlines(blanked_upto(s, d, n)) == newlines(s.take(n)),
    decreases n,
{
    if n > 0 {
        let c = s[n - 1];
        lemma_newlines_upto(s, d, n - 1);
        lemma_newlines_two(blanked_upto(s, d, n - 1), piece(s, d, n - 1));
        lemma_newlines_two(s.take(n - 1), seq![c]);
        assert(s.take(n) =~= s.take(n - 1) + seq![c]);
        if c != '\n' {
            lemma_no_newlines(piece(s, d, n - 1));
            lemma_no_newlines(seq![c]);
        }
    } else {
        assert(s.take(0) =~= Seq::empty());
    }
}

/// Blanking keeps every line where it is: no newline comes or goes.
pub proof fn blanking_keeps_the_lines(s: Seq<char>, d: Dialect)
    ensures
        newlines(blanked(s, d)) == newlines(s),
{
    lemma_newlines_upto(s, d, s.len() as int);
    assert(s.take(s.len() as int) =~= s);
}

proof fn lemma_style_upto(s: Seq<char>, n: int)
    requires
        0 <= n <= s.len(),
    ensures
        ({
            let r = blanked_upto(s, Dialect::Style, n);
            &&& r.len() == n
            &&& forall|k: int|
                0 <= k < n ==> #[trigger] r[k] == if commented(s, Dialect::Style, k) {
                    blank_char(s[k])
                } else {
                    s[k]
                }
        }),
    decreases n,
{
    if n > 0 {
        lemma_style_upto(s, n - 1);
        let before = blanked_upto(s, Dialect::Style, n - 1);
        let r = blanked_upto(s, Dialect::Style, n);
        assert forall|k: int| 0 <= k < n implies #[trigger] r[k] == if commented(
            s,
            Dialect::Style,
            k,
        ) {
            blank_char(s[k])
        } else {
            s[k]
        } by {
            if k < n - 1 {
                assert(r[k] == before[k]);
            }
        }
    }
}

/// Blanking a stylesheet moves nothing: every character stays where it was,
/// unless it was in a comment and is now a space.
pub proof fn blanking_a_stylesheet_moves_nothing(s: Seq<char>)
    ensures
        blanked(s, Dialect::Style).len() == s.len(),
        forall|k: int|
            0 <= k < s.len() ==> #[trigger] blanked(s, Dialect::Style)[k] == if commented(
                s,
                Dialect::Style,
                k,
            ) {
                blank_char(s[k])
            } else {
                s[k]
            },
{
    lemma_style_upto(s, s.len() as int);
}

pub open spec fn space_bytes(n: nat) -> Seq<u8> {
    Seq::new(n, |i: int| 0x20u8)
}

/// The bytes that stand for a character of a script.
pub open spec fn piece_bytes(s: Seq<char>, k: int) -> Seq<u8> {
    if commented(s, Dialect::Script, k) && s[k] != '\n' {
        space_bytes(width_of(s[k]))
    } else {
        encode_scalar(s[k] as u32)
    }
}

/// Whether the bytes for character `k` of a script stand in `b` at the byte where
/// the character stood.
pub open spec fn stays_at_its_byte(s: Seq<char>, b: Seq<u8>, k: int) -> bool {
    let at = byte_at(s, k) as int;
    let end = at + width_of(s[k]);
    end <= b.len() && b.subrange(at, end) == piece_bytes(s, k)
}

proof fn lemma_spaces_bytes(n: nat)
    ensures
        encode_utf8(Seq::new(n, |i: int| ' ')) == space_bytes(n),
    decreases n,
{
    let s = Seq::new(n, |i: int| ' ');
    if n > 0 {
        let m = (n - 1) as nat;
        lemma_spaces_bytes(m);
        assert(s.drop_first() =~= Seq::new(m, |i: int| ' '));
        assert(encode_scalar(' ' as u32) =~= seq![0x20u8]) by {
            assert(' ' as u32 == 0x20u32);
            assert((0x20u32 & 0x7F) as u8 == 0x20u8) by (bit_vector);
        }
    }
    assert(encode_utf8(s) =~= space_bytes(n));
}

proof fn lemma_piece_bytes(s: Seq<char>, k: int)
    ensures
        encode_utf8(piece(s, Dialect::Script, k)) == piece_bytes(s, k),
        piece_bytes(s, k).len() == width_of(s[k]),
{
    lemma_encode_one(s[k]);
    lemma_width(s[k]);
    lemma_spaces_bytes(width_of(s[k]));
    if commented(s, Dialect::Script, k) {
        if s[k] == '\n' {
            assert(piece(s, Dialect::Script, k) =~= seq![s[k]]);
        } else {
            assert(piece(s, Dialect::Script, k) =~= Seq::new(width_of(s[k]), |i: int| ' '));
        }
    }
}

proof fn lemma_script_upto(s: Seq<char>, n: int)
    requires
        0 <= n <= s.len(),
    ensures
        encode_utf8(blanked_upto(s, Dialect::Script, n)).len() == byte_at(s, n),
        forall|k: int|
            0 <= k < n ==> #[trigger] stays_at_its_byte(
                s,
                encode_utf8(blanked_upto(s, Dialect::Script, n)),
                k,
            ),
    decreases n,
{
    if n > 0 {
        lemma_script_upto(s, n - 1);
        let a = blanked_upto(s, Dialect::Script, n - 1);
        let p = piece(s, Dialect::Script, n - 1);
        assert(blanked_upto(s, Dialect::Script, n) == a + p);
        lemma_encode_two(a, p);
        lemma_piece_bytes(s, n - 1);
        let ab = encode_utf8(a);
        let b = encode_utf8(a + p);
        assert forall|k: int| 0 <= k < n implies #[trigger] stays_at_its_byte(s, b, k) by {
            let at = byte_at(s, k) as int;
            let end = at + width_of(s[k]);
            if k < n - 1 {
                assert(stays_at_its_byte(s, ab, k));
                assert(b.subrange(at, end) =~= ab.subrange(at, end));
            } else {
                assert(b.subrange(at, end) =~= piece_bytes(s, k));
            }
        }
    }
}

/// Blanking a script keeps every byte offset: the text has as many bytes as
/// before, what is outside comments stands at the byte where it stood, and what
/// is in one is spaces but for its newlines.
pub proof fn blanking_a_script_keeps_byte_offsets(s: Seq<char>)
    ensures
        encode_utf8(blanked(s, Dialect::Script)).len() == encode_utf8(s).len(),
        forall|k: int|
            0 <= k < s.len() ==> #[trigger] stays_at_its_byte(
                s,
                encode_utf8(blanked(s, Dialect::Script)),
                k,
            ),
        forall|k: int|
            0 <= k < s.len() && !#[trigger] commented(s, Dialect::Script, k) ==> {
                let at = byte_at(s, k) as int;
                let end = at + width_of(s[k]);
                end <= encode_utf8(s).len() && encode_utf8(blanked(s, Dialect::Script)).subrange(
                    at,
                    end,
                ) == encode_utf8(s).subrange(at, end)
            },
{
    let n = s.len() as int;
    lemma_script_upto(s, n);
    lemma_bytes_of(s, n);
    assert(s.take(n) =~= s);
    let b = encode_utf8(blanked(s, Dialect::Script));
    assert forall|k: int| 0 <= k < n && !#[trigger] commented(s, Dialect::Script, k) implies {
        let at = byte_at(s, k) as int;
        let end = at + width_of(s[k]);
        end <= encode_utf8(s).len() && b.subrange(at, end) == encode_utf8(s).subrange(at, end)
    } by {
        lemma_bytes_at(s, k);
        assert(stays_at_its_byte(s, b, k));
    }
}

fn find_block_end(s: &[char], from: usize) -> (r: usize)
    requires
        from <= s@.len(),
    ensures
        r == block_end(s@, from as int),
{
    let mut j: usize = from;
    while j < s.len()
        invariant
            from <= j <= s@.len(),
            block_end(s@, from as int) == block_end(s@, j as int),
        decreases s.len() - j,
    {
        if j > 0 && s[j - 1] == '*' && s[j] == '/' {
            return j + 1;
        }
        j += 1;
    }
    j
}

/// Blank the characters of `s` from `from` up to `to`, all of them in a comment.
fn push_blanked(out: &mut Vec<char>, s: &[char], d: Dialect, from: usize, to: usize)
    requires
        from <= to <= s@.len(),
        old(out)@ == blanked_upto(s@, d, from as int),
        forall|k: int| from <= k < to ==> #[trigger] commented(s@, d, k),
    ensures
        final(out)@ == blanked_upto(s@, d, to as int),
{
    let mut i: usize = from;
    while i < to
        invariant
            from <= i <= to <= s@.len(),
            forall|k: int| from <= k < to ==> #[trigger] commented(s@, d, k),
            out@ == blanked_upto(s@, d, i as int),
        decreases to - i,
    {
        assert(commented(s@, d, i as int));
        let ghost before = out@;
        let c = s[i];
        if c == '\n' {
            out.push('\n');
        } else {
            let room: usize = if d == Dialect::Script {
                char_width(c)
            } else {
                1
            };
            let mut n: usize = 0;
            assert(out@ =~= before + Seq::new(0, |i: int| ' '));
            while n < room
                invariant
                    n <= room,
                    out@ =~= before + Seq::new(n as nat, |i: int| ' '),
                decreases room - n,
            {
                out.push(' ');
                n += 1;
            }
        }
        assert(out@ =~= before + piece(s@, d, i as int));
        i += 1;
    }
}

/// Blank the comments of `s`, keeping everything else in place.
pub fn blank_chars(s: &[char], d: Dialect) -> (out: Vec<char>)
    ensures
        out@ == blanked(s@, d),
{
    let mut out: Vec<char> = Vec::new();
    let mut i: usize = 0;
    let mut quote: Option<char> = None;
    assert(out@ =~= blanked_upto(s@, d, 0));
    while i < s.len()
        invariant
            i <= s@.len(),
            out@ == blanked_upto(s@, d, i as int),
            forall|k: int|
                i <= k < s@.len() ==> #[trigger] commented(s@, d, k) == commented_from(
                    s@,
                    d,
                    i as int,
                    quote,
                    k,
                ),
        decreases s.len() - i,
    {
        let c = s[i];
        let ghost n = step(s@, d, i as int, quote);
        let ghost was = i as int;
        proof {
            lemma_ends(s@, d, i as int);
            lemma_step(s@, d, i as int, quote);
            assert forall|k: int| was <= k < n.0 implies #[trigger] commented(s@, d, k)
                == n.2 by {
                assert(commented_from(s@, d, was, quote, k) == n.2);
            }
            assert forall|k: int| n.0 <= k < s@.len() implies #[trigger] commented(s@, d, k)
                == commented_from(s@, d, n.0, n.1, k) by {
                assert(commented_from(s@, d, was, quote, k) == commented_from(
                    s@,
                    d,
                    n.0,
                    n.1,
                    k,
                ));
            }
        }
        let ghost before = out@;
        if let Some(q) = quote {
            out.push(c);
            assert(!commented(s@, d, was));
            assert(out@ =~= before + piece(s@, d, was));
            if c == '\\' && i + 1 < s.len() {
                out.push(s[i + 1]);
                assert(!commented(s@, d, was + 1));
                assert(out@ =~= blanked_upto(s@, d, was + 1) + piece(s@, d, was + 1));
                i += 2;
            } else {
                if c == q {
                    quote = None;
                }
                i += 1;
            }
        } else if c == '"' || c == '\'' || (d == Dialect::Script && c == '`') {
            quote = Some(c);
            out.push(c);
            assert(!commented(s@, d, was));
            assert(out@ =~= before + piece(s@, d, was));
            i += 1;
        } else if c == '/' && i + 1 < s.len() && s[i + 1] == '/' && (d == Dialect::Script || i == 0
            || s[i - 1] != ':') {
            let end: usize = match find_char(s, '\n', i) {
                Some(k) => k,
                None => s.len(),
            };
            push_blanked(&mut out, s, d, i, end);
            i = end;
        } else if c == '/' && i + 1 < s.len() && s[i + 1] == '*' {
            let end: usize = if s.len() - i > 3 {
                find_block_end(s, i + 3)
            } else {
                s.len()
            };
            push_blanked(&mut out, s, d, i, end);
            i = end;
        } else {
            out.push(c);
            assert(!commented(s@, d, was));
            assert(out@ =~= before + piece(s@, d, was));
            i += 1;
        }
        assert(i == n.0 && quote == n.1);
    }
    out
}

/// The text of `src` with its comments blanked.
pub fn blank_text(src: &str, d: Dialect) -> (r: String)
    ensures
        r@ == blanked(src@, d),
{
    let chars = chars_of(src);
    let out = blank_chars(chars.as_slice(), d);
    string_of(out.as_slice())
}

/// Text without a slash has no comment in it.
pub proof fn text_without_a_slash_has_no_comment(s: Seq<char>, d: Dialect, k: int)
    requires
        !s.contains('/'),
    ensures
        !commented(s, d, k),
{
    lemma_no_comment_from(s, d, 0, None, k);
}

proof fn lemma_no_comment_from(s: Seq<char>, d: Dialect, i: int, q: Option<char>, k: int)
    requires
        0 <= i,
        !s.contains('/'),
    ensures
        !commented_from(s, d, i, q, k),
    decreases s.len() - i,
{
    if i < s.len() && k >= i {
        assert(s.contains(s[i]));
        let n = step(s, d, i, q);
        if k >= n.0 {
            lemma_no_comment_from(s, d, n.0, n.1, k);
        }
    }
}

proof fn lemma_plain_walk(s: Seq<char>, d: Dialect, j: int, i: int, k: int)
    requires
        0 <= j <= i <= s.len(),
        forall|m: int| j <= m < i ==> (#[trigger] s[m]) != '/' && !is_quote(d, s[m]),
    ensures
        j <= k < i ==> !commented_from(s, d, j, None, k),
        k >= i ==> commented_from(s, d, j, None, k) == commented_from(s, d, i, None, k),
    decreases i - j,
{
    if j < i {
        assert(s[j] != '/');
        lemma_plain_walk(s, d, j + 1, i, k);
    }
}

/// A comment to the end of its line is blanked up to the line break, and what
/// stands before it is not.
pub proof fn a_line_comment_is_blanked(s: Seq<char>, d: Dialect, i: int, end: int, k: int)
    requires
        0 <= i,
        i + 1 < end <= s.len(),
        forall|m: int| 0 <= m < i ==> (#[trigger] s[m]) != '/' && !is_quote(d, s[m]),
        s[i] == '/' && s[i + 1] == '/',
        d == Dialect::Style && i > 0 ==> s[i - 1] != ':',
        end < s.len() ==> s[end] == '\n',
        forall|m: int| i <= m < end ==> (#[trigger] s[m]) != '\n',
    ensures
        0 <= k < i ==> !commented(s, d, k),
        i <= k < end ==> commented(s, d, k),
        k == end && end < s.len() ==> !commented(s, d, k),
{
    lemma_plain_walk(s, d, 0, i, k);
    crate::text::lemma_first_char(s, '\n', i);
    assert(line_comment_end(s, i) == end);
    assert(line_comment_at(s, d, i));
    assert(!is_quote(d, '/'));
    if k == end && end < s.len() {
        lemma_plain_walk(s, d, end, end + 1, k);
    }
}

/// A comment with an end of its own is blanked up to that end, line breaks or
/// not.
pub proof fn a_block_comment_is_blanked(s: Seq<char>, d: Dialect, i: int, end: int, k: int)
    requires
        0 <= i,
        i + 3 <= end < s.len(),
        forall|m: int| 0 <= m < i ==> (#[trigger] s[m]) != '/' && !is_quote(d, s[m]),
        s[i] == '/' && s[i + 1] == '*',
        s[end - 1] == '*' && s[end] == '/',
        forall|m: int| i + 3 <= m < end ==> !(s[m - 1] == '*' && (#[trigger] s[m]) == '/'),
    ensures
        0 <= k < i ==> !commented(s, d, k),
        i <= k <= end ==> commented(s, d, k),
{
    lemma_plain_walk(s, d, 0, i, k);
    lemma_block_ends(s, i + 3, end);
    assert(!is_quote(d, '/'));
    assert(block_comment_at(s, i) && !line_comment_at(s, d, i));
    assert(block_comment_end(s, i) == end + 1);
}

proof fn lemma_block_ends(s: Seq<char>, j: int, end: int)
    requires
        0 < j <= end < s.len(),
        s[end - 1] == '*' && s[end] == '/',
        forall|m: int| j <= m < end ==> !(s[m - 1] == '*' && (#[trigger] s[m]) == '/'),
    ensures
        block_end(s, j) == end + 1,
    decreases end - j,
{
    if j < end {
        assert(!(s[j - 1] == '*' && s[j] == '/'));
        lemma_block_ends(s, j + 1, end);
    }
}

/// Nothing in a string is a comment, whatever stands in it.
pub proof fn a_string_holds_no_comment(s: Seq<char>, d: Dialect, i: int, end: int, k: int)
    requires
        0 <= i < end < s.len(),
        forall|m: int| 0 <= m < i ==> (#[trigger] s[m]) != '/' && !is_quote(d, s[m]),
        is_quote(d, s[i]),
        s[end] == s[i],
        forall|m: int| i < m < end ==> (#[trigger] s[m]) != s[i] && s[m] != '\\',
        0 <= k <= end,
    ensures
        !commented(s, d, k),
{
    lemma_plain_walk(s, d, 0, i, k);
    if k > i {
        lemma_in_string(s, d, i + 1, end, s[i], k);
    }
}

proof fn lemma_in_string(s: Seq<char>, d: Dialect, j: int, end: int, q: char, k: int)
    requires
        0 <= j <= end < s.len(),
        s[end] == q,
        q != '\\',
        forall|m: int| j <= m < end ==> (#[trigger] s[m]) != q && s[m] != '\\',
        j <= k <= end,
    ensures
        !commented_from(s, d, j, Some(q), k),
    decreases end - j,
{
    if j < end && k > j {
        lemma_in_string(s, d, j + 1, end, q, k);
    }
}

} // verus!
