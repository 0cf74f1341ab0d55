//! What holds of reading and writing a project file.

use vstd::prelude::*;
use super::{
    any_reference, bars_end, block_end, block_from, block_range, block_text, cells_in, cells_text,
    closes_block, empty_file, flat, is_barred, is_header, is_separator, left_trimmed, newline,
    opens_block, or_today, or_true, parsed, rendered, rewritten, row_cells_of, row_of, rows_of,
    setting, setting_lines, size_in, table_at, table_from, table_head, table_lines, table_range,
    table_text, table_viewports, with_block, with_setting, with_settings, with_table, without_px,
    yes_no, FileFound, BEGIN, END,
};
use crate::model::{fresh_viewport, whole_text, Panelled};
use crate::scanner::units::{all_digits, digits_value, leading, number, unsigned_number};
use crate::text::{
    decimal, digit_char, finishes, first_char, is_digit, is_space, joined, lemma_first_char, lines,
    lines_from, lowered, split, split_from, strip_back, strip_front, trimmed, trimmed_of,
    without_cr,
};

verus! {

proof fn lemma_block_from(ls: Seq<Seq<char>>, i: int)
    requires
        0 <= i,
    ensures
        match block_from(ls, i) {
            Some(s) => i <= s < ls.len() && opens_block(ls[s]) && forall|k: int|
                i <= k < s ==> !opens_block(#[trigger] ls[k]),
            None => forall|k: int| i <= k < ls.len() ==> !opens_block(#[trigger] ls[k]),
        },
    decreases ls.len() - i,
{
    if i < ls.len() && !opens_block(ls[i]) {
        lemma_block_from(ls, i + 1);
    }
}

proof fn lemma_block_end(ls: Seq<Seq<char>>, i: int)
    requires
        0 <= i,
    ensures
        match block_end(ls, i) {
            Some(e) => i <= e < ls.len() && closes_block(ls[e]) && forall|k: int|
                i <= k < e ==> !closes_block(#[trigger] ls[k]),
            None => forall|k: int| i <= k < ls.len() ==> !closes_block(#[trigger] ls[k]),
        },
    decreases ls.len() - i,
{
    if i < ls.len() && !closes_block(ls[i]) {
        lemma_block_end(ls, i + 1);
    }
}

/// A line that opens the block does not close it.
proof fn lemma_opens_is_not_closes(line: Seq<char>)
    requires
        opens_block(line),
    ensures
        !closes_block(line),
{
    let l = super::left_trimmed(line);
    reveal_strlit("<!-- breakpoints:config");
    reveal_strlit("-->");
    assert(l.subrange(0, BEGIN@.len() as int) == BEGIN@);
    assert(l[0] == l.subrange(0, BEGIN@.len() as int)[0]);
    assert(l[0] == '<');
    lemma_strip_back_first(l);
    assert(crate::text::trimmed(line)[0] == '<');
}

proof fn lemma_strip_back_first(s: Seq<char>)
    requires
        s.len() > 0,
        !crate::text::is_space(s[0]),
    ensures
        crate::text::strip_back(s, |c: char| crate::text::is_space(c)).len() > 0,
        crate::text::strip_back(s, |c: char| crate::text::is_space(c))[0] == s[0],
    decreases s.len(),
{
    let f = |c: char| crate::text::is_space(c);
    if f(s.last()) {
        assert(s.len() > 1);
        lemma_strip_back_first(s.drop_last());
    }
}

/// The block's last line comes after its first.
pub proof fn lemma_block_range(ls: Seq<Seq<char>>)
    ensures
        block_range(ls) matches Some((s, e)) ==> 0 <= s < e < ls.len() && opens_block(ls[s])
            && closes_block(ls[e]) && (forall|k: int| 0 <= k < s ==> !opens_block(#[trigger] ls[k]))
            && (forall|k: int| s <= k < e ==> !closes_block(#[trigger] ls[k])),
{
    lemma_block_from(ls, 0);
    if let Some(s) = block_from(ls, 0) {
        lemma_block_end(ls, s);
        lemma_opens_is_not_closes(ls[s]);
    }
}

// Lines.
/// A line that a text can hold as one: no newline in it, and no carriage return
/// at its end, which would be taken for part of the newline.
pub open spec fn is_line(l: Seq<char>) -> bool {
    !l.contains('\n') && !(l.len() > 0 && l.last() == '\r')
}

pub open spec fn are_lines(ls: Seq<Seq<char>>) -> bool {
    forall|i: int| 0 <= i < ls.len() ==> is_line(#[trigger] ls[i])
}

proof fn lemma_first_char_is(s: Seq<char>, c: char, from: int, k: int)
    requires
        0 <= from <= k < s.len(),
        s[k] == c,
        forall|j: int| from <= j < k ==> s[j] != c,
    ensures
        first_char(s, c, from) == Some(k),
{
    lemma_first_char(s, c, from);
}

proof fn lemma_first_char_none(s: Seq<char>, c: char, from: int)
    requires
        0 <= from <= s.len(),
        forall|j: int| from <= j < s.len() ==> s[j] != c,
    ensures
        first_char(s, c, from) is None,
{
    lemma_first_char(s, c, from);
}

proof fn lemma_lines_shift(s: Seq<char>, n: int, from: int)
    requires
        0 <= n,
        0 <= from,
        n + from <= s.len(),
    ensures
        lines_from(s, n + from) == lines_from(s.skip(n), from),
    decreases s.len() - from,
{
    let t = s.skip(n);
    lemma_first_char(s, '\n', n + from);
    match first_char(s, '\n', n + from) {
        Some(k) => {
            assert forall|j: int| from <= j < k - n implies t[j] != '\n' by {
                assert(t[j] == s[j + n]);
            }
            assert(t[k - n] == s[k]);
            lemma_first_char_is(t, '\n', from, k - n);
            lemma_lines_shift(s, n, k + 1 - n);
            assert(s.subrange(n + from, k) =~= t.subrange(from, k - n));
        },
        None => {
            assert forall|j: int| from <= j < t.len() implies t[j] != '\n' by {
                assert(t[j] == s[j + n]);
            }
            lemma_first_char_none(t, '\n', from);
            assert(s.skip(n + from) =~= t.skip(from));
        },
    }
}

proof fn lemma_lines_cons(l: Seq<char>, rest: Seq<char>)
    requires
        is_line(l),
    ensures
        lines(l + newline() + rest) == seq![l] + lines(rest),
{
    let s = l + newline() + rest;
    let n = l.len() as int;
    assert forall|j: int| 0 <= j < n implies s[j] != '\n' by {
        assert(s[j] == l[j]);
        assert(l.contains(l[j]));
    }
    lemma_first_char_is(s, '\n', 0, n);
    assert(s.subrange(0, n) =~= l);
    assert(without_cr(l) == l);
    lemma_lines_shift(s, n + 1, 0);
    assert(s.skip(n + 1) =~= rest);
}

proof fn lemma_lines_flat(ls: Seq<Seq<char>>, rest: Seq<char>)
    requires
        are_lines(ls),
    ensures
        lines(flat(ls) + rest) == ls + lines(rest),
    decreases ls.len(),
{
    if ls.len() == 0 {
        assert(flat(ls) + rest =~= rest);
        assert(ls + lines(rest) =~= lines(rest));
    } else {
        let d = ls.drop_last();
        let l = ls.last();
        assert forall|i: int| 0 <= i < d.len() implies is_line(#[trigger] d[i]) by {
            assert(d[i] == ls[i]);
        }
        assert(is_line(ls[ls.len() - 1]));
        assert(flat(ls) + rest =~= flat(d) + (l + newline() + rest));
        lemma_lines_flat(d, l + newline() + rest);
        lemma_lines_cons(l, rest);
        assert(d + (seq![l] + lines(rest)) =~= ls + lines(rest));
    }
}

proof fn lemma_lines_one(l: Seq<char>)
    requires
        is_line(l),
    ensures
        lines(l) == if l.len() == 0 {
            Seq::<Seq<char>>::empty()
        } else {
            seq![l]
        },
{
    assert forall|j: int| 0 <= j < l.len() implies l[j] != '\n' by {
        assert(l.contains(l[j]));
    }
    lemma_first_char_none(l, '\n', 0);
    assert(l.skip(0) =~= l);
}

proof fn lemma_joined(ls: Seq<Seq<char>>)
    requires
        ls.len() > 0,
    ensures
        joined(ls, newline()) == flat(ls.drop_last()) + ls.last(),
        joined(ls, newline()) + newline() == flat(ls),
    decreases ls.len(),
{
    let d = ls.drop_last();
    if ls.len() == 1 {
        assert(flat(d) =~= Seq::empty());
        assert(joined(ls, newline()) =~= flat(d) + ls.last());
    } else {
        lemma_joined(d);
        assert(joined(ls, newline()) =~= flat(d) + ls.last());
    }
    assert(joined(ls, newline()) + newline() =~= flat(ls));
}

/// Lines without the blank one at their end, if there is one.
pub open spec fn less_a_blank(ls: Seq<Seq<char>>) -> Seq<Seq<char>> {
    if ls.len() > 0 && ls.last().len() == 0 {
        ls.drop_last()
    } else {
        ls
    }
}

proof fn lemma_lines_joined(ls: Seq<Seq<char>>)
    requires
        are_lines(ls),
        ls.len() > 0,
    ensures
        lines(joined(ls, newline())) == less_a_blank(ls),
        lines(joined(ls, newline()) + newline()) == ls,
{
    let d = ls.drop_last();
    lemma_joined(ls);
    assert forall|i: int| 0 <= i < d.len() implies is_line(#[trigger] d[i]) by {
        assert(d[i] == ls[i]);
    }
    assert(is_line(ls[ls.len() - 1]));
    lemma_lines_flat(d, ls.last());
    lemma_lines_one(ls.last());
    if ls.last().len() == 0 {
        assert(d + Seq::<Seq<char>>::empty() =~= d);
    } else {
        assert(d + seq![ls.last()] =~= ls);
    }
    lemma_lines_flat(ls, Seq::empty());
    assert(flat(ls) + Seq::<char>::empty() =~= flat(ls));
    lemma_lines_one(Seq::empty());
    assert(ls + Seq::<Seq<char>>::empty() =~= ls);
}

// Cells.
/// A text with no whitespace at either end.
pub open spec fn is_tidy(s: Seq<char>) -> bool {
    s.len() > 0 ==> !is_space(s[0]) && !is_space(s.last())
}

proof fn lemma_tidy(s: Seq<char>)
    requires
        is_tidy(s),
    ensures
        trimmed(s) == s,
        left_trimmed(s) == s,
{
}

proof fn lemma_spaced(c: Seq<char>)
    requires
        is_tidy(c),
    ensures
        trimmed(seq![' '] + c + seq![' ']) == c,
{
    let f = |x: char| is_space(x);
    let s = seq![' '] + c + seq![' '];
    let t = c + seq![' '];
    assert(s.drop_first() =~= t);
    assert(strip_front(s, f) == strip_front(t, f));
    if c.len() == 0 {
        assert(t[0] == ' ' && f(t[0]));
        assert(t.drop_first() =~= Seq::empty());
        assert(strip_front(t, f) == strip_front(t.drop_first(), f));
        assert(strip_front(t, f) =~= c);
    } else {
        assert(t[0] == c[0]);
        assert(t.drop_last() =~= c);
        assert(strip_back(t, f) == strip_back(c, f));
    }
    lemma_tidy(c);
}

/// Pieces, each with a bar behind it.
spec fn barred(ps: Seq<Seq<char>>) -> Seq<char>
    decreases ps.len(),
{
    if ps.len() == 0 {
        Seq::empty()
    } else {
        barred(ps.drop_last()) + ps.last() + seq!['|']
    }
}

spec fn no_bar(p: Seq<char>) -> bool {
    !p.contains('|')
}

proof fn lemma_split_cons(p: Seq<char>, rest: Seq<char>)
    requires
        no_bar(p),
    ensures
        split(p + seq!['|'] + rest, '|') == seq![p] + split(rest, '|'),
{
    let s = p + seq!['|'] + rest;
    let n = p.len() as int;
    assert forall|j: int| 0 <= j < n implies s[j] != '|' by {
        assert(s[j] == p[j]);
        assert(p.contains(p[j]));
    }
    lemma_first_char_is(s, '|', 0, n);
    assert(s.subrange(0, n) =~= p);
    crate::text::lemma_split_shift(s, '|', n + 1, 0);
    assert(s.skip(n + 1) =~= rest);
}

proof fn lemma_split_barred(ps: Seq<Seq<char>>, rest: Seq<char>)
    requires
        forall|i: int| 0 <= i < ps.len() ==> no_bar(#[trigger] ps[i]),
    ensures
        split(barred(ps) + rest, '|') == ps + split(rest, '|'),
    decreases ps.len(),
{
    if ps.len() == 0 {
        assert(barred(ps) + rest =~= rest);
        assert(ps + split(rest, '|') =~= split(rest, '|'));
    } else {
        let d = ps.drop_last();
        let p = ps.last();
        assert forall|i: int| 0 <= i < d.len() implies no_bar(#[trigger] d[i]) by {
            assert(d[i] == ps[i]);
        }
        assert(no_bar(ps[ps.len() - 1]));
        assert(barred(ps) + rest =~= barred(d) + (p + seq!['|'] + rest));
        lemma_split_barred(d, p + seq!['|'] + rest);
        lemma_split_cons(p, rest);
        assert(d + (seq![p] + split(rest, '|')) =~= ps + split(rest, '|'));
    }
}

proof fn lemma_split_one(p: Seq<char>)
    requires
        no_bar(p),
    ensures
        split(p, '|') == seq![p],
{
    assert forall|j: int| 0 <= j < p.len() implies p[j] != '|' by {
        assert(p.contains(p[j]));
    }
    lemma_first_char_none(p, '|', 0);
    assert(p.skip(0) =~= p);
}

spec fn spaced(cs: Seq<Seq<char>>) -> Seq<Seq<char>> {
    cs.map_values(|c: Seq<char>| seq![' '] + c + seq![' '])
}

proof fn lemma_cells_text(cs: Seq<Seq<char>>)
    ensures
        cells_text(cs) == seq!['|'] + barred(spaced(cs)),
    decreases cs.len(),
{
    reveal_strlit(" ");
    reveal_strlit(" |");
    if cs.len() == 0 {
        assert(seq!['|'] + barred(spaced(cs)) =~= seq!['|']);
    } else {
        let d = cs.drop_last();
        lemma_cells_text(d);
        assert(spaced(cs).drop_last() =~= spaced(d));
        assert(spaced(cs).last() == seq![' '] + cs.last() + seq![' ']);
        assert(cells_text(cs) =~= seq!['|'] + barred(spaced(cs)));
    }
}

/// A text that a cell of the table can hold: no bar in it, and no whitespace at
/// either end.
pub open spec fn is_cell(c: Seq<char>) -> bool {
    is_tidy(c) && !c.contains('|')
}

/// What is written into a row's cells is what is read out of them.
pub proof fn cells_come_back(cs: Seq<Seq<char>>)
    requires
        cs.len() > 0,
        forall|i: int| 0 <= i < cs.len() ==> is_cell(#[trigger] cs[i]),
    ensures
        cells_in(cells_text(cs)) == cs,
{
    let s = cells_text(cs);
    let sp = spaced(cs);
    lemma_cells_text(cs);
    let d = sp.drop_last();
    let last = sp.last();
    let g = |c: char| seq!['|'].contains(c);
    assert(g('|')) by {
        assert(seq!['|'][0] == '|');
    }
    assert(!g(' '));
    // The line is tidy, and only its first and last bar are stripped.
    assert(s =~= seq!['|'] + barred(d) + last + seq!['|']);
    assert(is_tidy(s));
    lemma_tidy(s);
    let inner = barred(d) + last;
    let a = s.drop_first();
    assert(a =~= inner + seq!['|']);
    assert(strip_front(s, g) == strip_front(a, g));
    assert(a[0] == ' ') by {
        lemma_barred_first(cs);
    }
    assert(strip_front(a, g) == a);
    assert(a.drop_last() =~= inner);
    assert(strip_back(a, g) == strip_back(inner, g));
    assert(inner.last() == ' ');
    assert(strip_back(inner, g) == inner);
    assert(trimmed_of(s, seq!['|']) == inner);
    assert forall|i: int| 0 <= i < sp.len() implies no_bar(#[trigger] sp[i]) by {
        let c = cs[i];
        assert(is_cell(c));
        if sp[i].contains('|') {
            let k = sp[i].index_of('|');
            if 0 < k < sp[i].len() - 1 {
                assert(c[k - 1] == '|');
            }
            assert(false);
        }
    }
    assert forall|i: int| 0 <= i < d.len() implies no_bar(#[trigger] d[i]) by {
        assert(d[i] == sp[i]);
    }
    assert(no_bar(sp[sp.len() - 1]));
    lemma_split_barred(d, last);
    lemma_split_one(last);
    assert(d + seq![last] =~= sp);
    assert forall|i: int| 0 <= i < cs.len() implies cells_in(s)[i] == cs[i] by {
        assert(is_cell(cs[i]));
        lemma_spaced(cs[i]);
    }
    assert(cells_in(s) =~= cs);
}

proof fn lemma_barred_first(cs: Seq<Seq<char>>)
    requires
        cs.len() > 0,
    ensures
        barred(spaced(cs)).len() > 0,
        barred(spaced(cs))[0] == ' ',
    decreases cs.len(),
{
    let sp = spaced(cs);
    let d = cs.drop_last();
    assert(sp.drop_last() =~= spaced(d));
    if d.len() == 0 {
        assert(barred(sp.drop_last()) =~= Seq::empty());
        assert(barred(sp) =~= sp.last() + seq!['|']);
    } else {
        lemma_barred_first(d);
    }
}

// Numbers.
pub proof fn lemma_decimal_digits(n: nat)
    ensures
        all_digits(decimal(n)),
        decimal(n).len() > 0,
        digits_value(decimal(n)) == n,
    decreases n,
{
    let d = decimal(n);
    let c = digit_char((n % 10) as int);
    assert(c as int == n % 10 + 48);
    if n < 10 {
        assert(d =~= seq![c]);
        assert(d.drop_last() =~= Seq::empty());
        assert(digits_value(Seq::empty()) == 0);
        assert(digits_value(d) == digits_value(d.drop_last()) * 10 + (d.last() as int - 48));
    } else {
        lemma_decimal_digits(n / 10);
        let p = decimal(n / 10);
        assert(d =~= p.push(c));
        assert(d.drop_last() =~= p);
        assert forall|i: int| 0 <= i < d.len() implies is_digit(#[trigger] d[i]) by {
            if i < p.len() {
                assert(d[i] == p[i]);
            }
        }
    }
}

pub proof fn lemma_no_point(s: Seq<char>, i: int)
    requires
        0 <= i <= s.len(),
        all_digits(s),
    ensures
        crate::scanner::jsobj::run_until(s, i, s.len() as int, '.') == s.len(),
    decreases s.len() - i,
{
    if i < s.len() {
        assert(is_digit(s[i]));
        lemma_no_point(s, i + 1);
    }
}

pub proof fn lemma_whole_number(n: nat)
    ensures
        unsigned_number(decimal(n)) == Some((n * 1_000_000) as int),
        number(decimal(n)) == Some((n * 1_000_000) as int),
{
    let s = decimal(n);
    lemma_decimal_digits(n);
    lemma_no_point(s, 0);
    assert(s.take(s.len() as int) =~= s);
    let k = s.len() as int;
    crate::scanner::units::lemma_leading_all(s, k);
    assert(leading(s, k + 1) == n * 10);
    assert(leading(s, k + 2) == n * 100);
    assert(leading(s, k + 3) == n * 1000);
    assert(leading(s, k + 4) == n * 10_000);
    assert(leading(s, k + 5) == n * 100_000);
    assert(leading(s, k + 6) == n * 1_000_000);
    assert(s + Seq::<char>::empty() =~= s);
    crate::scanner::units::lemma_no_exponent(s, 0);
    assert(is_digit(s[0]));
}

proof fn lemma_plain_digits(s: Seq<char>)
    requires
        s.len() > 0,
        all_digits(s),
    ensures
        is_cell(s),
        is_cell(seq!['-'] + s),
        without_px(s) == s,
        without_px(seq!['-'] + s) == seq!['-'] + s,
        !s.contains('\n'),
        !(seq!['-'] + s).contains('\n'),
{
    assert(is_digit(s[0]));
    assert(is_digit(s[s.len() - 1]));
    let m = seq!['-'] + s;
    assert(m.last() == s.last());
    if s.contains('|') {
        assert(is_digit(s[s.index_of('|')]));
    }
    if s.contains('\n') {
        assert(is_digit(s[s.index_of('\n')]));
    }
    if m.contains('|') {
        let k = m.index_of('|');
        if k > 0 {
            assert(is_digit(s[k - 1]));
        }
    }
    if m.contains('\n') {
        let k = m.index_of('\n');
        if k > 0 {
            assert(is_digit(s[k - 1]));
        }
    }
}

proof fn lemma_size_on_a_line(w: int)
    ensures
        !whole_text(w).contains('\n'),
{
    reveal_strlit("-");
    let n = (if w <= -1_000_000 {
        -w / 1_000_000
    } else if w < 0 {
        0
    } else {
        w / 1_000_000
    }) as nat;
    lemma_decimal_digits(n);
    lemma_plain_digits(decimal(n));
    assert("-"@ =~= seq!['-']);
}

/// A size in whole pixels comes back from its cell.
proof fn lemma_size_comes_back(w: i64)
    requires
        w as int % 1_000_000 == 0,
    ensures
        size_in(whole_text(w as int)) == Some(w),
        is_cell(whole_text(w as int)),
{
    reveal_strlit("-");
    let s = whole_text(w as int);
    if w < 0 {
        assert(w <= -1_000_000);
        let n = (-(w as int) / 1_000_000) as nat;
        assert(n * 1_000_000 == -(w as int));
        lemma_whole_number(n);
        lemma_decimal_digits(n);
        lemma_plain_digits(decimal(n));
        assert("-"@ =~= seq!['-']);
        assert(s == seq!['-'] + decimal(n));
        lemma_tidy(s);
        assert(s.skip(1) =~= decimal(n));
        assert(number(s) == Some(-((n * 1_000_000) as int)));
    } else {
        let n = (w as int / 1_000_000) as nat;
        assert(n * 1_000_000 == w as int);
        lemma_whole_number(n);
        lemma_decimal_digits(n);
        lemma_plain_digits(decimal(n));
        lemma_tidy(s);
    }
}

// Rows.
/// A viewport that a row can hold: it is as one is made, its size is in whole
/// pixels, and its texts fit in cells.
pub open spec fn fits_a_row(v: Panelled) -> bool {
    &&& v == (Panelled {
        reference: v.reference,
        ..fresh_viewport(v.name, v.width, v.height, v.source)
    })
    &&& v.width as int % 1_000_000 == 0
    &&& v.height as int % 1_000_000 == 0
    &&& is_cell(v.name) && !v.name.contains('\n')
    &&& is_cell(v.source) && !v.source.contains('\n')
    &&& v.reference matches Some(r) ==> is_cell(r) && !r.contains('\n') && r.len() > 0 && r
        != "-"@
}

/// A viewport whose texts hold no newline.
pub open spec fn is_on_a_line(v: Panelled) -> bool {
    &&& !v.name.contains('\n')
    &&& !v.source.contains('\n')
    &&& v.reference matches Some(r) ==> !r.contains('\n')
}

proof fn lemma_row_on_a_line(v: Panelled, w: bool)
    requires
        is_on_a_line(v),
    ensures
        forall|i: int|
            0 <= i < row_cells_of(v, w).len() ==> !(#[trigger] row_cells_of(v, w)[i]).contains(
                '\n',
            ),
{
    reveal_strlit("-");
    lemma_size_on_a_line(v.width as int);
    lemma_size_on_a_line(v.height as int);
    let cs = row_cells_of(v, w);
    assert forall|i: int| 0 <= i < cs.len() implies !(#[trigger] cs[i]).contains('\n') by {
        assert(i == 0 || i == 1 || i == 2 || i == 3 || i == 4);
    }
}

proof fn lemma_row_cells(v: Panelled, w: bool)
    requires
        fits_a_row(v),
    ensures
        forall|i: int|
            0 <= i < row_cells_of(v, w).len() ==> is_cell(#[trigger] row_cells_of(v, w)[i]),
{
    reveal_strlit("-");
    lemma_size_comes_back(v.width);
    lemma_size_comes_back(v.height);
    let cs = row_cells_of(v, w);
    assert forall|i: int| 0 <= i < cs.len() implies is_cell(#[trigger] cs[i]) by {
        assert(i == 0 || i == 1 || i == 2 || i == 3 || i == 4);
    }
}

/// The row of a viewport is read as that viewport.
proof fn lemma_row_comes_back(v: Panelled, w: bool)
    requires
        fits_a_row(v),
        v.reference is Some ==> w,
    ensures
        row_of(cells_text(row_cells_of(v, w))) == Some(v),
{
    let cs = row_cells_of(v, w);
    lemma_row_cells(v, w);
    cells_come_back(cs);
    lemma_size_comes_back(v.width);
    lemma_size_comes_back(v.height);
    assert(row_of(cells_text(cs))->Some_0 =~= v);
}

proof fn lemma_cells_line(cs: Seq<Seq<char>>)
    requires
        cs.len() > 0,
        forall|i: int| 0 <= i < cs.len() ==> !(#[trigger] cs[i]).contains('\n'),
    ensures
        is_line(cells_text(cs)),
        is_barred(cells_text(cs)),
        cells_text(cs).len() > 0,
        cells_text(cs).last() == '|',
        cells_text(cs)[0] == '|',
{
    lemma_cells_newline(cs);
    lemma_cells_text(cs);
    let s = cells_text(cs);
    let sp = spaced(cs);
    assert(s =~= seq!['|'] + barred(sp.drop_last()) + sp.last() + seq!['|']);
    lemma_tidy(s);
    assert(s.subrange(0, 1) =~= seq!['|']);
}

proof fn lemma_cells_newline(cs: Seq<Seq<char>>)
    requires
        forall|i: int| 0 <= i < cs.len() ==> !(#[trigger] cs[i]).contains('\n'),
    ensures
        !cells_text(cs).contains('\n'),
    decreases cs.len(),
{
    reveal_strlit(" ");
    reveal_strlit(" |");
    if cs.len() > 0 {
        let d = cs.drop_last();
        assert forall|i: int| 0 <= i < d.len() implies !(#[trigger] d[i]).contains('\n') by {
            assert(d[i] == cs[i]);
        }
        lemma_cells_newline(d);
        let s = cells_text(cs);
        let a = cells_text(d);
        let c = cs.last();
        assert(!cs[cs.len() - 1].contains('\n'));
        if s.contains('\n') {
            let k = s.index_of('\n');
            if k < a.len() {
                assert(a[k] == '\n');
            } else if k > a.len() && k <= a.len() + c.len() {
                assert(c[k - a.len() - 1] == '\n');
            }
            assert(false);
        }
    } else {
        let s = cells_text(cs);
        if s.contains('\n') {
            let k = s.index_of('\n');
            assert(s[k] == '|');
        }
    }
}

// The head of the table.
proof fn lemma_head(w: bool)
    ensures
        is_header(table_head(w)[0]),
        is_separator(table_head(w)[1]),
        is_line(table_head(w)[0]),
        is_line(table_head(w)[1]),
        !table_head(w)[0].contains('-'),
        !is_separator(table_head(w)[0]),
        table_head(w)[0].len() > 0,
        table_head(w)[1].len() > 0,
        table_head(w).len() == 2,
{
    reveal_strlit("| Name | Width | Height | Source | Reference |");
    reveal_strlit("|------|------:|-------:|--------|-----------|");
    reveal_strlit("| Name | Width | Height | Source |");
    reveal_strlit("|------|------:|-------:|--------|");
    reveal_strlit("Name");
    reveal_strlit("Width");
    reveal_strlit("Height");
    reveal_strlit("Source");
    reveal_strlit("Reference");
    reveal_strlit("name");
    reveal_strlit("width");
    reveal_strlit("height");
    reveal_strlit(" ");
    reveal_strlit(" |");
    let four = seq!["Name"@, "Width"@, "Height"@, "Source"@];
    let five = four.push("Reference"@);
    let cs = if w {
        five
    } else {
        four
    };
    let head = table_head(w)[0];
    reveal_with_fuel(cells_text, 6);
    assert(four.drop_last() =~= seq!["Name"@, "Width"@, "Height"@]);
    assert(four.drop_last().drop_last() =~= seq!["Name"@, "Width"@]);
    assert(four.drop_last().drop_last().drop_last() =~= seq!["Name"@]);
    assert(four.drop_last().drop_last().drop_last().drop_last() =~= Seq::empty());
    assert(five.drop_last() =~= four);
    assert(cells_text(four) =~= "| Name | Width | Height | Source |"@);
    assert(cells_text(five) =~= "| Name | Width | Height | Source | Reference |"@);
    assert(head == cells_text(cs));
    assert forall|i: int| 0 <= i < cs.len() implies is_cell(#[trigger] cs[i]) && !cs[i].contains(
        '\n',
    ) by {
        assert(i == 0 || i == 1 || i == 2 || i == 3 || i == 4);
    }
    cells_come_back(cs);
    lemma_cells_line(cs);
    assert(lowered(cs[0]) =~= "name"@);
    assert(lowered(cs[1]) =~= "width"@);
    assert(lowered(cs[2]) =~= "height"@);
    let sep = table_head(w)[1];
    lemma_tidy(sep);
    assert(sep.subrange(0, 1) =~= seq!['|']);
    assert(sep[1] == '-');
    assert(sep.contains('-'));
}

// What a line is not.
proof fn lemma_left_first(line: Seq<char>)
    requires
        left_trimmed(line).len() > 0,
    ensures
        trimmed(line).len() > 0,
        trimmed(line)[0] == left_trimmed(line)[0],
{
    lemma_left_not_space(line);
    lemma_strip_back_first(left_trimmed(line));
}

proof fn lemma_left_not_space(line: Seq<char>)
    ensures
        left_trimmed(line).len() > 0 ==> !is_space(left_trimmed(line)[0]),
    decreases line.len(),
{
    if line.len() > 0 && is_space(line[0]) {
        lemma_left_not_space(line.drop_first());
    }
}

proof fn lemma_barred_is_no_block(line: Seq<char>)
    requires
        is_barred(line),
    ensures
        !opens_block(line),
        !closes_block(line),
{
    reveal_strlit("<!-- breakpoints:config");
    reveal_strlit("-->");
    let l = left_trimmed(line);
    assert(l.subrange(0, 1)[0] == '|');
    assert(l[0] == '|');
    lemma_left_first(line);
    if opens_block(line) {
        assert(l.subrange(0, BEGIN@.len() as int)[0] == l[0]);
    }
}

/// A line that starts with something that starts no bar, no block and no end
/// of one.
proof fn lemma_plain_line(line: Seq<char>)
    requires
        line.len() > 0,
        !is_space(line[0]),
        line[0] != '|',
        line[0] != '<',
        line[0] != '-',
    ensures
        !is_barred(line),
        !opens_block(line),
        !closes_block(line),
{
    reveal_strlit("<!-- breakpoints:config");
    reveal_strlit("-->");
    let l = left_trimmed(line);
    assert(l == line);
    lemma_left_first(line);
    if is_barred(line) {
        assert(l.subrange(0, 1)[0] == l[0]);
    }
    if opens_block(line) {
        assert(l.subrange(0, BEGIN@.len() as int)[0] == l[0]);
    }
}

proof fn lemma_block_ends()
    ensures
        opens_block(BEGIN@),
        !is_barred(BEGIN@),
        !closes_block(BEGIN@),
        is_line(BEGIN@),
        BEGIN@.len() > 0,
        closes_block(END@),
        !opens_block(END@),
        !is_barred(END@),
        is_line(END@),
        END@.len() > 0,
{
    reveal_strlit("<!-- breakpoints:config");
    reveal_strlit("-->");
    lemma_tidy(BEGIN@);
    lemma_tidy(END@);
    assert(BEGIN@.subrange(0, BEGIN@.len() as int) =~= BEGIN@);
    if is_barred(BEGIN@) {
        assert(BEGIN@.subrange(0, 1)[0] == BEGIN@[0]);
    }
    if is_barred(END@) {
        assert(END@.subrange(0, 1)[0] == END@[0]);
    }
    lemma_opens_is_not_closes(BEGIN@);
}

proof fn lemma_blank()
    ensures
        !is_barred(Seq::empty()),
        !opens_block(Seq::empty()),
        !closes_block(Seq::empty()),
        is_line(Seq::empty()),
{
    reveal_strlit("<!-- breakpoints:config");
    reveal_strlit("-->");
    lemma_tidy(Seq::empty());
}

// The config block.
pub open spec fn fits(s: Option<Seq<char>>) -> bool {
    s matches Some(v) ==> is_line(v)
}

/// A file none of whose texts goes over more than one line.
pub open spec fn stands_on_lines(f: FileFound, today: Seq<char>) -> bool {
    &&& forall|i: int| 0 <= i < f.viewports.len() ==> is_on_a_line(#[trigger] f.viewports[i])
    &&& fits(f.url)
    &&& fits(f.source)
    &&& fits(f.source_hash)
    &&& is_line(or_today(f.generated, today))
}

/// A file that can be written and read: it has viewports, they fit in rows, and
/// its settings fit on lines.
pub open spec fn can_be_written(f: FileFound, today: Seq<char>) -> bool {
    &&& f.viewports.len() > 0
    &&& forall|i: int| 0 <= i < f.viewports.len() ==> fits_a_row(#[trigger] f.viewports[i])
    &&& stands_on_lines(f, today)
}

pub open spec fn opt_trimmed(s: Option<Seq<char>>) -> Option<Seq<char>> {
    match s {
        Some(v) => Some(trimmed(v)),
        None => None,
    }
}

/// What a file says once it has been written and read: what it leaves open is
/// settled, and a setting has no whitespace at either end.
pub open spec fn settled(f: FileFound, today: Seq<char>) -> FileFound {
    FileFound {
        viewports: f.viewports,
        url: opt_trimmed(f.url),
        zoom_to_fit: Some(or_true(f.zoom_to_fit)),
        scroll_sync: Some(or_true(f.scroll_sync)),
        source: opt_trimmed(f.source),
        source_hash: opt_trimmed(f.source_hash),
        generated: Some(trimmed(or_today(f.generated, today))),
    }
}

/// The lines of a config block.
pub open spec fn block_lines(f: FileFound, today: Seq<char>) -> Seq<Seq<char>> {
    seq![BEGIN@] + setting_lines(f, today) + seq![END@]
}

proof fn lemma_setting_line(key: Seq<char>, v: Seq<char>)
    requires
        key.len() > 0,
        !is_space(key[0]),
        key[0] != '|',
        key[0] != '<',
        key[0] != '-',
        key.last() != '\r',
        !key.contains('\n'),
        is_line(v),
    ensures
        is_line(key + v),
        !is_barred(key + v),
        !opens_block(key + v),
        !closes_block(key + v),
        (key + v).len() > 0,
{
    let s = key + v;
    assert(s[0] == key[0]);
    lemma_plain_line(s);
    if s.contains('\n') {
        let k = s.index_of('\n');
        if k < key.len() {
            assert(key[k] == '\n');
        } else {
            assert(v[k - key.len()] == '\n');
        }
        assert(false);
    }
    if v.len() > 0 {
        assert(s.last() == v.last());
    } else {
        assert(s =~= key);
    }
}

/// A line that belongs to no table and neither opens nor closes a block.
spec fn is_setting(l: Seq<char>) -> bool {
    is_line(l) && !is_barred(l) && !opens_block(l) && !closes_block(l) && l.len() > 0
}

spec fn are_settings(ls: Seq<Seq<char>>) -> bool {
    forall|i: int| 0 <= i < ls.len() ==> is_setting(#[trigger] ls[i])
}

proof fn lemma_settings_join(a: Seq<Seq<char>>, b: Seq<Seq<char>>)
    requires
        are_settings(a),
        are_settings(b),
    ensures
        are_settings(a + b),
{
    assert forall|i: int| 0 <= i < (a + b).len() implies is_setting(#[trigger] (a + b)[i]) by {
        if i < a.len() {
            assert((a + b)[i] == a[i]);
        } else {
            assert((a + b)[i] == b[i - a.len()]);
        }
    }
}

proof fn lemma_values()
    ensures
        is_line("true"@),
        is_line("false"@),
        trimmed("true"@) == "true"@,
        trimmed("false"@) == "false"@,
        "true"@ != "false"@,
{
    reveal_strlit("true");
    reveal_strlit("false");
    assert("true"@.len() != "false"@.len());
    lemma_tidy("true"@);
    lemma_tidy("false"@);
}

proof fn lemma_setting_lines(f: FileFound, today: Seq<char>)
    requires
        stands_on_lines(f, today),
    ensures
        are_settings(setting_lines(f, today)),
        setting_lines(f, today).len() >= 3,
{
    reveal_strlit("url: ");
    reveal_strlit("zoomToFit: ");
    reveal_strlit("scrollSync: ");
    reveal_strlit("source: ");
    reveal_strlit("sourceHash: ");
    reveal_strlit("generated: ");
    lemma_values();
    let zoom = yes_no(or_true(f.zoom_to_fit));
    let sync = yes_no(or_true(f.scroll_sync));
    let gen = or_today(f.generated, today);
    lemma_setting_line("zoomToFit: "@, zoom);
    lemma_setting_line("scrollSync: "@, sync);
    lemma_setting_line("generated: "@, gen);
    let a = setting("url: "@, f.url);
    let b = seq!["zoomToFit: "@ + zoom];
    let c = seq!["scrollSync: "@ + sync];
    let d = setting("source: "@, f.source);
    let e = setting("sourceHash: "@, f.source_hash);
    let g = seq!["generated: "@ + gen];
    if f.url is Some {
        lemma_setting_line("url: "@, f.url->Some_0);
    }
    if f.source is Some {
        lemma_setting_line("source: "@, f.source->Some_0);
    }
    if f.source_hash is Some {
        lemma_setting_line("sourceHash: "@, f.source_hash->Some_0);
    }
    assert(are_settings(a));
    assert(are_settings(b));
    assert(are_settings(c));
    assert(are_settings(d));
    assert(are_settings(e));
    assert(are_settings(g));
    lemma_settings_join(a, b);
    lemma_settings_join(a + b, c);
    lemma_settings_join(a + b + c, d);
    lemma_settings_join(a + b + c + d, e);
    lemma_settings_join(a + b + c + d + e, g);
}

proof fn lemma_block_lines(f: FileFound, today: Seq<char>)
    requires
        stands_on_lines(f, today),
    ensures
        ({
            let k = block_lines(f, today);
            let m = k.len() as int;
            &&& m >= 5
            &&& lines(block_text(f, today)) == k
            &&& are_lines(k)
            &&& opens_block(k[0])
            &&& forall|i: int| 0 < i < m ==> !opens_block(#[trigger] k[i])
            &&& closes_block(k[m - 1])
            &&& k[m - 1].len() > 0
            &&& forall|i: int| 0 <= i < m - 1 ==> !closes_block(#[trigger] k[i])
            &&& forall|i: int| 0 <= i < m ==> !is_barred(#[trigger] k[i])
        }),
{
    let st = setting_lines(f, today);
    let k = block_lines(f, today);
    let m = k.len() as int;
    lemma_setting_lines(f, today);
    lemma_block_ends();
    let front = seq![BEGIN@] + st;
    assert(k =~= front + seq![END@]);
    assert forall|i: int| 0 < i < m - 1 implies #[trigger] k[i] == st[i - 1] && is_setting(
        k[i],
    ) by {
        assert(is_setting(st[i - 1]));
    }
    assert(k[0] == BEGIN@);
    assert(k[m - 1] == END@);
    assert forall|i: int| 0 <= i < m implies is_line(#[trigger] k[i]) by {
        if 0 < i < m - 1 {
            assert(is_setting(k[i]));
        }
    }
    assert forall|i: int| 0 <= i < front.len() implies is_line(#[trigger] front[i]) by {
        assert(front[i] == k[i]);
    }
    assert forall|i: int| 0 < i < m implies !opens_block(#[trigger] k[i]) by {
        if i < m - 1 {
            assert(is_setting(k[i]));
        }
    }
    assert forall|i: int| 0 <= i < m - 1 implies !closes_block(#[trigger] k[i]) by {
        if 0 < i {
            assert(is_setting(k[i]));
        }
    }
    assert forall|i: int| 0 <= i < m implies !is_barred(#[trigger] k[i]) by {
        if 0 < i < m - 1 {
            assert(is_setting(k[i]));
        }
    }
    lemma_lines_flat(front, END@);
    lemma_lines_one(END@);
}

// The table.
proof fn lemma_rows(vps: Seq<Panelled>, w: bool)
    requires
        forall|i: int| 0 <= i < vps.len() ==> fits_a_row(#[trigger] vps[i]),
        any_reference(vps) ==> w,
    ensures
        rows_of(vps.map_values(|v: Panelled| cells_text(row_cells_of(v, w)))) == vps,
    decreases vps.len(),
{
    let rows = vps.map_values(|v: Panelled| cells_text(row_cells_of(v, w)));
    if vps.len() > 0 {
        let d = vps.drop_last();
        let v = vps.last();
        assert forall|i: int| 0 <= i < d.len() implies fits_a_row(#[trigger] d[i]) by {
            assert(d[i] == vps[i]);
        }
        if any_reference(d) {
            let i = choose|i: int| 0 <= i < d.len() && (#[trigger] d[i]).reference is Some;
            assert(vps[i].reference is Some);
        }
        lemma_rows(d, w);
        assert(rows.drop_last() =~= d.map_values(
            |v: Panelled| cells_text(row_cells_of(v, w)),
        ));
        assert(fits_a_row(vps[vps.len() - 1]));
        if v.reference is Some {
            assert(vps[vps.len() - 1].reference is Some);
        }
        lemma_row_comes_back(v, w);
        assert(rows.last() == cells_text(row_cells_of(v, w)));
        assert(d.push(v) =~= vps);
    } else {
        assert(rows =~= Seq::empty());
        assert(vps =~= Seq::empty());
    }
}

proof fn lemma_table_lines(vps: Seq<Panelled>)
    requires
        forall|i: int| 0 <= i < vps.len() ==> is_on_a_line(#[trigger] vps[i]),
    ensures
        ({
            let t = table_lines(vps);
            &&& t.len() == vps.len() + 2
            &&& lines(table_text(vps)) == t
            &&& are_lines(t)
            &&& is_header(t[0])
            &&& !is_separator(t[0])
            &&& is_separator(t[1])
            &&& forall|i: int| 0 <= i < t.len() ==> is_barred(#[trigger] t[i]) && t[i].len() > 0
        }),
{
    let w = any_reference(vps);
    let t = table_lines(vps);
    lemma_head(w);
    assert(t[0] == table_head(w)[0]);
    assert(t[1] == table_head(w)[1]);
    assert forall|i: int| 0 <= i < t.len() implies is_barred(#[trigger] t[i]) && is_line(t[i])
        && t[i].len() > 0 by {
        if i >= 2 {
            let v = vps[i - 2];
            assert(is_on_a_line(v));
            assert(t[i] == cells_text(row_cells_of(v, w)));
            lemma_row_on_a_line(v, w);
            lemma_cells_line(row_cells_of(v, w));
        }
    }
    assert(are_lines(t)) by {
        assert forall|i: int| 0 <= i < t.len() implies is_line(#[trigger] t[i]) by {
            assert(is_barred(t[i]));
        }
    }
    lemma_lines_flat(t, Seq::empty());
    lemma_lines_one(Seq::empty());
    assert(flat(t) + Seq::<char>::empty() =~= flat(t));
    assert(t + Seq::<Seq<char>>::empty() =~= t);
}

/// What is read of the lines of a table.
proof fn lemma_table_read(vps: Seq<Panelled>)
    requires
        forall|i: int| 0 <= i < vps.len() ==> fits_a_row(#[trigger] vps[i]),
    ensures
        rows_of(table_lines(vps).subrange(2, table_lines(vps).len() as int)) == vps,
{
    let w = any_reference(vps);
    let t = table_lines(vps);
    let rows = vps.map_values(|v: Panelled| cells_text(row_cells_of(v, w)));
    lemma_head(w);
    assert(t.subrange(2, t.len() as int) =~= rows);
    lemma_rows(vps, w);
}

proof fn lemma_table_from(ls: Seq<Seq<char>>, i: int)
    requires
        0 <= i,
    ensures
        match table_from(ls, i) {
            Some(s) => i <= s && table_at(ls, s) && forall|k: int|
                i <= k < s ==> !#[trigger] table_at(ls, k),
            None => forall|k: int| i <= k < ls.len() ==> !#[trigger] table_at(ls, k),
        },
    decreases ls.len() - i,
{
    if i < ls.len() && !table_at(ls, i) {
        lemma_table_from(ls, i + 1);
    }
}

proof fn lemma_table_from_is(ls: Seq<Seq<char>>, i: int, t: int)
    requires
        0 <= i <= t,
        table_at(ls, t),
        forall|k: int| i <= k < t ==> !#[trigger] table_at(ls, k),
    ensures
        table_from(ls, i) == Some(t),
    decreases t - i,
{
    if i < t {
        lemma_table_from_is(ls, i + 1, t);
    }
}

proof fn lemma_bars(ls: Seq<Seq<char>>, i: int)
    requires
        0 <= i < ls.len(),
    ensures
        ({
            let e = bars_end(ls, i);
            &&& i <= e < ls.len()
            &&& forall|k: int| i < k <= e ==> is_barred(#[trigger] ls[k])
            &&& e + 1 < ls.len() ==> !is_barred(ls[e + 1])
        }),
    decreases ls.len() - i,
{
    if i + 1 < ls.len() && is_barred(ls[i + 1]) {
        lemma_bars(ls, i + 1);
    }
}

proof fn lemma_bars_is(ls: Seq<Seq<char>>, i: int, e: int)
    requires
        0 <= i <= e < ls.len(),
        forall|k: int| i < k <= e ==> is_barred(#[trigger] ls[k]),
        e + 1 < ls.len() ==> !is_barred(ls[e + 1]),
    ensures
        bars_end(ls, i) == e,
    decreases e - i,
{
    if i < e {
        assert(is_barred(ls[i + 1]));
        lemma_bars_is(ls, i + 1, e);
    }
}

/// What a table's range says of the lines.
proof fn lemma_table_range(ls: Seq<Seq<char>>)
    ensures
        match table_range(ls) {
            Some((s, e)) => {
                &&& 0 <= s < e < ls.len()
                &&& table_at(ls, s)
                &&& forall|k: int| 0 <= k < s ==> !#[trigger] table_at(ls, k)
                &&& forall|k: int| s <= k <= e ==> is_barred(#[trigger] ls[k])
                &&& e + 1 < ls.len() ==> !is_barred(ls[e + 1])
            },
            None => forall|k: int| 0 <= k < ls.len() ==> !#[trigger] table_at(ls, k),
        },
{
    lemma_table_from(ls, 0);
    if let Some(s) = table_from(ls, 0) {
        lemma_bars(ls, s + 1);
    }
}

proof fn lemma_block_from_is(ls: Seq<Seq<char>>, i: int, b: int)
    requires
        0 <= i <= b < ls.len(),
        opens_block(ls[b]),
        forall|k: int| i <= k < b ==> !opens_block(#[trigger] ls[k]),
    ensures
        block_from(ls, i) == Some(b),
    decreases b - i,
{
    if i < b {
        assert(!opens_block(ls[i]));
        lemma_block_from_is(ls, i + 1, b);
    }
}

proof fn lemma_block_end_is(ls: Seq<Seq<char>>, i: int, e: int)
    requires
        0 <= i <= e < ls.len(),
        closes_block(ls[e]),
        forall|k: int| i <= k < e ==> !closes_block(#[trigger] ls[k]),
    ensures
        block_end(ls, i) == Some(e),
    decreases e - i,
{
    if i < e {
        assert(!closes_block(ls[i]));
        lemma_block_end_is(ls, i + 1, e);
    }
}

/// Whether lines hold a table at `t` and a config block at `b`, each where it
/// is looked for.
pub open spec fn hold(
    ls: Seq<Seq<char>>,
    t: int,
    table: Seq<Seq<char>>,
    b: int,
    block: Seq<Seq<char>>,
) -> bool {
    &&& 0 <= t && t + table.len() <= ls.len()
    &&& 0 <= b && b + block.len() <= ls.len()
    &&& table_range(ls) == Some((t, t + table.len() - 1))
    &&& ls.subrange(t, t + table.len()) == table
    &&& block_range(ls) == Some((b, b + block.len() - 1))
    &&& ls.subrange(b, b + block.len()) == block
}

// Reading.
proof fn lemma_settings_append(f: FileFound, a: Seq<Seq<char>>, b: Seq<Seq<char>>)
    ensures
        with_settings(f, a + b) == with_settings(with_settings(f, a), b),
    decreases b.len(),
{
    if b.len() == 0 {
        assert(a + b =~= a);
    } else {
        assert((a + b).drop_last() =~= a + b.drop_last());
        assert((a + b).last() == b.last());
        lemma_settings_append(f, a, b.drop_last());
    }
}

proof fn lemma_one_setting(f: FileFound, line: Seq<char>)
    ensures
        with_settings(f, seq![line]) == with_setting(f, line),
{
    assert(seq![line].drop_last() =~= Seq::empty());
    assert(with_settings(f, Seq::empty()) == f);
}

/// A setting's line, read: its name and its value.
proof fn lemma_setting_read(name: Seq<char>, key: Seq<char>, v: Seq<char>)
    requires
        key == name + seq![':', ' '],
        is_tidy(name),
        !name.contains(':'),
    ensures
        first_char(key + v, ':', 0) == Some(name.len() as int),
        trimmed((key + v).take(name.len() as int)) == name,
        trimmed((key + v).skip(name.len() as int + 1)) == trimmed(v),
{
    let s = key + v;
    let n = name.len() as int;
    assert forall|j: int| 0 <= j < n implies s[j] != ':' by {
        assert(s[j] == name[j]);
        assert(name.contains(name[j]));
    }
    lemma_first_char_is(s, ':', 0, n);
    assert(s.take(n) =~= name);
    let u = seq![' '] + v;
    assert(s.skip(n + 1) =~= u);
    lemma_tidy(name);
    let blank = |x: char| is_space(x);
    assert(u.drop_first() =~= v);
    assert(strip_front(u, blank) == strip_front(v, blank));
}

proof fn lemma_settings_read(f: FileFound, today: Seq<char>)
    requires
        can_be_written(f, today),
    ensures
        with_settings(
            FileFound { viewports: f.viewports, ..empty_file() },
            setting_lines(f, today),
        ) == settled(f, today),
{
    reveal_strlit("url: ");
    reveal_strlit("zoomToFit: ");
    reveal_strlit("scrollSync: ");
    reveal_strlit("source: ");
    reveal_strlit("sourceHash: ");
    reveal_strlit("generated: ");
    reveal_strlit("url");
    reveal_strlit("zoomToFit");
    reveal_strlit("scrollSync");
    reveal_strlit("source");
    reveal_strlit("sourceHash");
    reveal_strlit("generated");
    lemma_values();
    let colon = seq![':', ' '];
    assert("url: "@ =~= "url"@ + colon);
    assert("zoomToFit: "@ =~= "zoomToFit"@ + colon);
    assert("scrollSync: "@ =~= "scrollSync"@ + colon);
    assert("source: "@ =~= "source"@ + colon);
    assert("sourceHash: "@ =~= "sourceHash"@ + colon);
    assert("generated: "@ =~= "generated"@ + colon);
    assert("url"@.len() == 3 && "zoomToFit"@.len() == 9 && "scrollSync"@.len() == 10
        && "source"@.len() == 6 && "sourceHash"@.len() == 10 && "generated"@.len() == 9);
    assert("scrollSync"@[1] != "sourceHash"@[1]);
    assert("zoomToFit"@[0] != "generated"@[0]);
    let zoom = yes_no(or_true(f.zoom_to_fit));
    let sync = yes_no(or_true(f.scroll_sync));
    let gen = or_today(f.generated, today);
    let a = setting("url: "@, f.url);
    let b = seq!["zoomToFit: "@ + zoom];
    let c = seq!["scrollSync: "@ + sync];
    let d = setting("source: "@, f.source);
    let e = setting("sourceHash: "@, f.source_hash);
    let g = seq!["generated: "@ + gen];
    let f0 = FileFound { viewports: f.viewports, ..empty_file() };
    lemma_settings_append(f0, a + b + c + d + e, g);
    lemma_settings_append(f0, a + b + c + d, e);
    lemma_settings_append(f0, a + b + c, d);
    lemma_settings_append(f0, a + b, c);
    lemma_settings_append(f0, a, b);
    let f1 = with_settings(f0, a);
    if f.url is Some {
        let v = f.url->Some_0;
        lemma_one_setting(f0, "url: "@ + v);
        lemma_setting_read("url"@, "url: "@, v);
    }
    assert(f1 =~= FileFound { url: opt_trimmed(f.url), ..f0 });
    lemma_one_setting(f1, "zoomToFit: "@ + zoom);
    lemma_setting_read("zoomToFit"@, "zoomToFit: "@, zoom);
    let f2 = with_settings(f1, b);
    assert(f2 =~= FileFound { zoom_to_fit: Some(or_true(f.zoom_to_fit)), ..f1 });
    lemma_one_setting(f2, "scrollSync: "@ + sync);
    lemma_setting_read("scrollSync"@, "scrollSync: "@, sync);
    let f3 = with_settings(f2, c);
    assert(f3 =~= FileFound { scroll_sync: Some(or_true(f.scroll_sync)), ..f2 });
    let f4 = with_settings(f3, d);
    if f.source is Some {
        let v = f.source->Some_0;
        lemma_one_setting(f3, "source: "@ + v);
        lemma_setting_read("source"@, "source: "@, v);
    }
    assert(f4 =~= FileFound { source: opt_trimmed(f.source), ..f3 });
    let f5 = with_settings(f4, e);
    if f.source_hash is Some {
        let v = f.source_hash->Some_0;
        lemma_one_setting(f4, "sourceHash: "@ + v);
        lemma_setting_read("sourceHash"@, "sourceHash: "@, v);
    }
    assert(f5 =~= FileFound { source_hash: opt_trimmed(f.source_hash), ..f4 });
    lemma_one_setting(f5, "generated: "@ + gen);
    lemma_setting_read("generated"@, "generated: "@, gen);
    let f6 = with_settings(f5, g);
    assert(f6 =~= FileFound { generated: Some(trimmed(gen)), ..f5 });
    assert(f6 =~= settled(f, today));
}

proof fn lemma_parsed(ls: Seq<Seq<char>>, t: int, b: int, f: FileFound, today: Seq<char>)
    requires
        can_be_written(f, today),
        hold(ls, t, table_lines(f.viewports), b, block_lines(f, today)),
    ensures
        parsed(ls) == Some(settled(f, today)),
{
    let table = table_lines(f.viewports);
    let block = block_lines(f, today);
    lemma_table_lines(f.viewports);
    lemma_table_read(f.viewports);
    lemma_block_lines(f, today);
    let whole = ls.subrange(t, t + table.len());
    assert(ls.subrange(t + 2, t + table.len()) =~= whole.subrange(2, table.len() as int));
    assert(table_viewports(ls) == f.viewports);
    let k = ls.subrange(b, b + block.len());
    assert(ls.subrange(b + 1, b + block.len() - 1) =~= k.subrange(1, block.len() - 1));
    assert(block.subrange(1, block.len() - 1) =~= setting_lines(f, today));
    lemma_settings_read(f, today);
}

// Writing.
/// What is known of the lines of a table.
spec fn is_table(table: Seq<Seq<char>>) -> bool {
    &&& table.len() >= 2
    &&& are_lines(table)
    &&& is_header(table[0])
    &&& !is_separator(table[0])
    &&& is_separator(table[1])
    &&& forall|i: int|
        0 <= i < table.len() ==> is_barred(#[trigger] table[i]) && table[i].len() > 0
}

/// What is known of the lines of a config block.
spec fn is_block(block: Seq<Seq<char>>) -> bool {
    &&& block.len() >= 2
    &&& are_lines(block)
    &&& opens_block(block[0])
    &&& forall|i: int| 0 < i < block.len() ==> !opens_block(#[trigger] block[i])
    &&& closes_block(block[block.len() - 1])
    &&& block[block.len() - 1].len() > 0
    &&& forall|i: int| 0 <= i < block.len() - 1 ==> !closes_block(#[trigger] block[i])
    &&& forall|i: int| 0 <= i < block.len() ==> !is_barred(#[trigger] block[i])
}

proof fn lemma_hold(
    ls: Seq<Seq<char>>,
    t: int,
    table: Seq<Seq<char>>,
    b: int,
    block: Seq<Seq<char>>,
)
    requires
        is_table(table),
        is_block(block),
        0 <= t,
        t + table.len() <= ls.len(),
        0 <= b,
        b + block.len() <= ls.len(),
        ls.subrange(t, t + table.len()) == table,
        ls.subrange(b, b + block.len()) == block,
        forall|k: int| 0 <= k < t ==> !#[trigger] table_at(ls, k),
        t + table.len() < ls.len() ==> !is_barred(ls[t + table.len()]),
        forall|k: int| 0 <= k < b ==> !opens_block(#[trigger] ls[k]),
    ensures
        hold(ls, t, table, b, block),
{
    let n = table.len() as int;
    let m = block.len() as int;
    assert forall|k: int| 0 <= k < n implies #[trigger] ls[t + k] == table[k] by {
        assert(ls.subrange(t, t + n)[k] == ls[t + k]);
    }
    assert forall|k: int| 0 <= k < m implies #[trigger] ls[b + k] == block[k] by {
        assert(ls.subrange(b, b + m)[k] == ls[b + k]);
    }
    assert(ls[t + 0] == table[0] && ls[t + 1] == table[1]);
    assert(table_at(ls, t));
    lemma_table_from_is(ls, 0, t);
    assert forall|k: int| t + 1 < k <= t + n - 1 implies is_barred(#[trigger] ls[k]) by {
        assert(ls[t + (k - t)] == table[k - t]);
    }
    lemma_bars_is(ls, t + 1, t + n - 1);
    assert(ls[b + 0] == block[0]);
    lemma_block_from_is(ls, 0, b);
    assert(ls[b + (m - 1)] == block[m - 1]);
    assert forall|k: int| b <= k < b + m - 1 implies !closes_block(#[trigger] ls[k]) by {
        assert(ls[b + (k - b)] == block[k - b]);
    }
    lemma_block_end_is(ls, b, b + m - 1);
}

/// Where the config block goes.
pub open spec fn block_place(ls: Seq<Seq<char>>) -> int {
    match block_range(ls) {
        Some((s, _)) => s,
        None => ls.len() as int + 1,
    }
}

/// Lines that can be rewritten: each stands on a line of its own, and a config
/// block that is opened is closed.
pub open spec fn can_be_rewritten(ls: Seq<Seq<char>>) -> bool {
    are_lines(ls) && (block_from(ls, 0) is Some ==> block_range(ls) is Some)
}

proof fn lemma_with_block(ls: Seq<Seq<char>>, block: Seq<Seq<char>>)
    requires
        can_be_rewritten(ls),
        is_block(block),
    ensures
        ({
            let r = with_block(ls, block);
            let b = block_place(ls);
            &&& 0 <= b
            &&& b + block.len() <= r.len()
            &&& are_lines(r)
            &&& r.subrange(b, b + block.len()) == block
            &&& forall|k: int| 0 <= k < b ==> !opens_block(#[trigger] r[k])
        }),
{
    let r = with_block(ls, block);
    let b = block_place(ls);
    lemma_block_range(ls);
    lemma_block_from(ls, 0);
    lemma_blank();
    match block_range(ls) {
        Some((s, e)) => {
            assert(r.subrange(b, b + block.len()) =~= block);
            assert forall|k: int| 0 <= k < b implies !opens_block(#[trigger] r[k]) by {
                assert(r[k] == ls[k]);
            }
            assert forall|k: int| 0 <= k < r.len() implies is_line(#[trigger] r[k]) by {
                if k < s {
                    assert(r[k] == ls[k]);
                } else if k < s + block.len() {
                    assert(r[k] == block[k - s]);
                } else {
                    assert(r[k] == ls[k - s - block.len() + e + 1]);
                }
            }
        },
        None => {
            assert(r.subrange(b, b + block.len()) =~= block);
            assert forall|k: int| 0 <= k < b implies !opens_block(#[trigger] r[k]) by {
                if k < ls.len() {
                    assert(r[k] == ls[k]);
                } else {
                    assert(r[k] =~= Seq::empty());
                }
            }
            assert forall|k: int| 0 <= k < r.len() implies is_line(#[trigger] r[k]) by {
                if k < ls.len() {
                    assert(r[k] == ls[k]);
                } else if k == ls.len() {
                    assert(r[k] =~= Seq::empty());
                } else {
                    assert(r[k] == block[k - ls.len() - 1]);
                }
            }
        },
    }
}

/// Dropping a blank last line leaves a block where it is.
proof fn lemma_block_less_a_blank(ls: Seq<Seq<char>>, b: int, block: Seq<Seq<char>>)
    requires
        is_block(block),
        are_lines(ls),
        0 <= b,
        b + block.len() <= ls.len(),
        ls.subrange(b, b + block.len()) == block,
        forall|k: int| 0 <= k < b ==> !opens_block(#[trigger] ls[k]),
    ensures
        ({
            let r = less_a_blank(ls);
            &&& b + block.len() <= r.len()
            &&& are_lines(r)
            &&& r.subrange(b, b + block.len()) == block
            &&& forall|k: int| 0 <= k < b ==> !opens_block(#[trigger] r[k])
        }),
{
    let r = less_a_blank(ls);
    let m = block.len() as int;
    assert(ls.subrange(b, b + m)[m - 1] == ls[b + m - 1]);
    assert(b + m <= r.len());
    assert(r.subrange(b, b + m) =~= ls.subrange(b, b + m));
    assert forall|k: int| 0 <= k < r.len() implies is_line(#[trigger] r[k]) by {
        assert(r[k] == ls[k]);
    }
    assert forall|k: int| 0 <= k < b implies !opens_block(#[trigger] r[k]) by {
        assert(r[k] == ls[k]);
    }
}

/// Where the table goes, and where the block is then.
pub open spec fn table_place(ls: Seq<Seq<char>>, b: int) -> int {
    match table_range(ls) {
        Some((s, _)) => s,
        None => b,
    }
}

pub open spec fn block_moved(ls: Seq<Seq<char>>, table: Seq<Seq<char>>, b: int) -> int {
    match table_range(ls) {
        Some((s, e)) => if e < b {
            b - (e + 1 - s) + table.len()
        } else {
            b
        },
        None => b + table.len() + 1,
    }
}

#[verifier::rlimit(30)]
proof fn lemma_with_table(
    ls: Seq<Seq<char>>,
    table: Seq<Seq<char>>,
    b: int,
    block: Seq<Seq<char>>,
)
    requires
        is_table(table),
        is_block(block),
        are_lines(ls),
        0 <= b,
        b + block.len() <= ls.len(),
        ls.subrange(b, b + block.len()) == block,
        forall|k: int| 0 <= k < b ==> !opens_block(#[trigger] ls[k]),
    ensures
        are_lines(with_table(ls, table)),
        hold(
            with_table(ls, table),
            table_place(ls, b),
            table,
            block_moved(ls, table, b),
            block,
        ),
{
    let r = with_table(ls, table);
    let t = table_place(ls, b);
    let b2 = block_moved(ls, table, b);
    let n = table.len() as int;
    let m = block.len() as int;
    lemma_table_range(ls);
    lemma_blank();
    assert forall|k: int| 0 <= k < m implies #[trigger] ls[b + k] == block[k] by {
        assert(ls.subrange(b, b + m)[k] == ls[b + k]);
    }
    assert forall|k: int| 0 <= k < n implies !opens_block(#[trigger] table[k]) by {
        assert(is_barred(table[k]));
        lemma_barred_is_no_block(table[k]);
    }
    match table_range(ls) {
        Some((s, e)) => {
            // The table and the block share no line.
            if s < b + m && b <= e {
                let k = if s < b {
                    b
                } else {
                    s
                };
                assert(s <= k <= e && b <= k < b + m);
                assert(is_barred(ls[k]));
                assert(ls[b + (k - b)] == block[k - b]);
                assert(!is_barred(block[k - b]));
                assert(false);
            }
            assert(r.subrange(t, t + n) =~= table);
            assert forall|k: int| 0 <= k < t implies !#[trigger] table_at(r, k) by {
                assert(!table_at(ls, k));
                assert(r[k] == ls[k]);
                if k + 1 < t {
                    assert(r[k + 1] == ls[k + 1]);
                } else {
                    assert(r[k + 1] == table[0]);
                }
            }
            if t + n < r.len() {
                assert(r[t + n] == ls[e + 1]);
            }
            if e < b {
                assert forall|k: int| 0 <= k < b2 implies !opens_block(#[trigger] r[k]) by {
                    if k < s {
                        assert(r[k] == ls[k]);
                    } else if k < s + n {
                        assert(r[k] == table[k - s]);
                    } else {
                        assert(r[k] == ls[k - n + (e + 1 - s)]);
                    }
                }
                assert(r.subrange(b2, b2 + m) =~= ls.subrange(b, b + m));
            } else {
                assert forall|k: int| 0 <= k < b2 implies !opens_block(#[trigger] r[k]) by {
                    assert(r[k] == ls[k]);
                }
                assert(r.subrange(b2, b2 + m) =~= ls.subrange(b, b + m));
            }
            assert forall|k: int| 0 <= k < r.len() implies is_line(#[trigger] r[k]) by {
                if k < s {
                    assert(r[k] == ls[k]);
                } else if k < s + n {
                    assert(r[k] == table[k - s]);
                } else {
                    assert(r[k] == ls[k - n + (e + 1 - s)]);
                }
            }
        },
        None => {
            assert(ls[b + 0] == block[0]);
            lemma_block_from_is(ls, 0, b);
            assert(r.subrange(t, t + n) =~= table);
            assert(r[t + n] =~= Seq::empty());
            assert forall|k: int| 0 <= k < t implies !#[trigger] table_at(r, k) by {
                assert(!table_at(ls, k));
                assert(r[k] == ls[k]);
                if k + 1 < t {
                    assert(r[k + 1] == ls[k + 1]);
                } else {
                    assert(r[k + 1] == table[0]);
                }
            }
            assert forall|k: int| 0 <= k < b2 implies !opens_block(#[trigger] r[k]) by {
                if k < b {
                    assert(r[k] == ls[k]);
                } else if k < b + n {
                    assert(r[k] == table[k - b]);
                } else {
                    assert(r[k] =~= Seq::empty());
                }
            }
            assert(r.subrange(b2, b2 + m) =~= ls.subrange(b, b + m));
            assert forall|k: int| 0 <= k < r.len() implies is_line(#[trigger] r[k]) by {
                if k < b {
                    assert(r[k] == ls[k]);
                } else if k < b + n {
                    assert(r[k] == table[k - b]);
                } else if k == b + n {
                    assert(r[k] =~= Seq::empty());
                } else {
                    assert(r[k] == ls[k - n - 1]);
                }
            }
        },
    }
    lemma_hold(r, t, table, b2, block);
}

/// Dropping a blank last line leaves table and block where they are.
proof fn lemma_hold_less_a_blank(
    ls: Seq<Seq<char>>,
    t: int,
    table: Seq<Seq<char>>,
    b: int,
    block: Seq<Seq<char>>,
)
    requires
        is_table(table),
        is_block(block),
        are_lines(ls),
        hold(ls, t, table, b, block),
    ensures
        are_lines(less_a_blank(ls)),
        hold(less_a_blank(ls), t, table, b, block),
{
    let r = less_a_blank(ls);
    let n = table.len() as int;
    lemma_table_range(ls);
    lemma_block_range(ls);
    lemma_block_less_a_blank(ls, b, block);
    assert(ls.subrange(t, t + n)[n - 1] == ls[t + n - 1]);
    assert(is_barred(table[n - 1]));
    assert(t + n <= r.len());
    assert(r.subrange(t, t + n) =~= ls.subrange(t, t + n));
    assert forall|k: int| 0 <= k < t implies !#[trigger] table_at(r, k) by {
        assert(!table_at(ls, k));
    }
    if t + n < r.len() {
        assert(r[t + n] == ls[t + n]);
    }
    lemma_hold(r, t, table, b, block);
}

proof fn lemma_parts(f: FileFound, today: Seq<char>)
    requires
        stands_on_lines(f, today),
    ensures
        is_table(table_lines(f.viewports)),
        is_block(block_lines(f, today)),
        lines(table_text(f.viewports)) == table_lines(f.viewports),
        lines(block_text(f, today)) == block_lines(f, today),
{
    lemma_table_lines(f.viewports);
    lemma_block_lines(f, today);
}

/// The lines of a file that has its block rewritten, as they are read again.
pub open spec fn reblocked(existing: Seq<char>, f: FileFound, today: Seq<char>) -> Seq<Seq<char>> {
    lines(joined(with_block(lines(existing), lines(block_text(f, today))), newline()))
}

/// Where table and block are once a file is rewritten.
pub open spec fn places_of(existing: Seq<char>, f: FileFound, today: Seq<char>) -> (int, int) {
    let ls = reblocked(existing, f, today);
    let b = block_place(lines(existing));
    (table_place(ls, b), block_moved(ls, table_lines(f.viewports), b))
}

#[verifier::rlimit(30)]
proof fn lemma_rewritten(existing: Seq<char>, f: FileFound, today: Seq<char>)
    requires
        stands_on_lines(f, today),
        can_be_rewritten(lines(existing)),
    ensures
        ({
            let at = places_of(existing, f, today);
            let r = rewritten(existing, f, today);
            let table = table_lines(f.viewports);
            let block = block_lines(f, today);
            &&& are_lines(r)
            &&& r.len() > 1
            &&& hold(r, at.0, table, at.1, block)
            &&& hold(less_a_blank(r), at.0, table, at.1, block)
            &&& are_lines(less_a_blank(r))
            &&& lines(rendered(Some(existing), f, today)) == less_a_blank(r)
            &&& rendered(Some(existing), f, today) == joined(less_a_blank(r), newline())
                + newline()
        }),
{
    let ls = lines(existing);
    let table = table_lines(f.viewports);
    let block = block_lines(f, today);
    lemma_parts(f, today);
    lemma_with_block(ls, block);
    let blocked = with_block(ls, block);
    let b = block_place(ls);
    lemma_lines_joined(blocked);
    let again = less_a_blank(blocked);
    assert(reblocked(existing, f, today) == again);
    lemma_block_less_a_blank(blocked, b, block);
    lemma_with_table(again, table, b, block);
    let r = rewritten(existing, f, today);
    let at = places_of(existing, f, today);
    assert(r == with_table(again, table));
    lemma_hold_less_a_blank(r, at.0, table, at.1, block);
    lemma_lines_joined(r);
    lemma_joined(r);
    let out = joined(r, newline());
    let cut = less_a_blank(r);
    if r.last().len() == 0 {
        // The text ends in the newline of the line before.
        let d = r.drop_last();
        assert(d.len() > 0);
        lemma_joined(d);
        assert(out =~= flat(d));
        assert(out =~= joined(d, newline()) + newline());
        assert(out.subrange(out.len() - 1, out.len() as int) =~= newline());
        assert(finishes(out, newline()));
    } else {
        assert(out.last() == r.last().last());
        assert(is_line(r[r.len() - 1]));
        assert(r.last().contains(r.last().last()));
        if finishes(out, newline()) {
            assert(out.subrange(out.len() - 1, out.len() as int)[0] == out.last());
            assert(false);
        }
    }
}

/// A file that is written and read again says what it said: what the table and
/// the config block hold comes back from a fresh file.
pub proof fn a_fresh_file_comes_back(f: FileFound, today: Seq<char>)
    requires
        can_be_written(f, today),
    ensures
        parsed(lines(rendered(None, f, today))) == Some(settled(f, today)),
{
    let (ls, t, b) = lemma_fresh(f, today);
    lemma_parsed(ls, t, b, f, today);
}

#[verifier::rlimit(30)]
proof fn lemma_fresh(f: FileFound, today: Seq<char>) -> (r: (Seq<Seq<char>>, int, int))
    requires
        stands_on_lines(f, today),
    ensures
        r.0 == lines(rendered(None, f, today)),
        rendered(None, f, today) == flat(r.0),
        are_lines(r.0),
        r.0.len() > 0,
        r.0.last().len() > 0,
        hold(r.0, r.1, table_lines(f.viewports), r.2, block_lines(f, today)),
        has_one_block(r.0),
{
    let table = table_lines(f.viewports);
    let block = block_lines(f, today);
    lemma_parts(f, today);
    lemma_blank();
    reveal_strlit("# Breakpoints\n\n");
    let title = seq![
        '#',
        ' ',
        'B',
        'r',
        'e',
        'a',
        'k',
        'p',
        'o',
        'i',
        'n',
        't',
        's',
    ];
    let blank = Seq::<char>::empty();
    let ls = seq![title, blank] + table + seq![blank] + block;
    let n = table.len() as int;
    let m = block.len() as int;
    lemma_plain_line(title);
    assert(is_line(title));
    assert forall|k: int| 0 <= k < ls.len() implies is_line(#[trigger] ls[k]) by {
        if k == 0 {
        } else if k == 1 {
        } else if k < 2 + n {
            assert(ls[k] == table[k - 2]);
        } else if k == 2 + n {
        } else {
            assert(ls[k] == block[k - 3 - n]);
        }
    }
    // The text is those lines, each with its newline.
    let text = rendered(None, f, today);
    let front = seq![BEGIN@] + setting_lines(f, today);
    assert(block =~= front + seq![END@]);
    assert(flat(block) =~= block_text(f, today) + newline()) by {
        assert(block.drop_last() =~= front);
    }
    lemma_flat_append(seq![title, blank], table);
    lemma_flat_append(seq![title, blank] + table, seq![blank]);
    lemma_flat_append(seq![title, blank] + table + seq![blank], block);
    assert(flat(seq![title, blank]) =~= "# Breakpoints\n\n"@) by {
        assert(seq![title, blank].drop_last() =~= seq![title]);
        assert(seq![title].drop_last() =~= Seq::empty());
        reveal_with_fuel(flat, 3);
    }
    assert(flat(seq![blank]) =~= newline()) by {
        assert(seq![blank].drop_last() =~= Seq::empty());
        reveal_with_fuel(flat, 2);
    }
    assert(text =~= flat(ls));
    lemma_lines_flat(ls, Seq::empty());
    lemma_lines_one(Seq::empty());
    assert(flat(ls) + Seq::<char>::empty() =~= flat(ls));
    assert(ls + Seq::<Seq<char>>::empty() =~= ls);
    assert(ls.subrange(2, 2 + n) =~= table);
    assert(ls.subrange(3 + n, 3 + n + m) =~= block);
    assert(!is_header(title));
    assert forall|k: int| 0 <= k < 2 implies !#[trigger] table_at(ls, k) by {
        if k == 1 {
            assert(ls[1] =~= blank);
        }
    }
    assert(ls[2 + n] =~= blank);
    assert forall|k: int| 0 <= k < 3 + n implies !opens_block(#[trigger] ls[k]) by {
        if k == 1 {
        } else if 2 <= k < 2 + n {
            assert(ls[k] == table[k - 2]);
            assert(is_barred(table[k - 2]));
            lemma_barred_is_no_block(table[k - 2]);
        }
    }
    lemma_hold(ls, 2, table, 3 + n, block);
    assert forall|k: int| 0 <= k < ls.len() && opens_block(#[trigger] ls[k]) implies k == 3
        + n by {
        if k > 3 + n {
            assert(ls[k] == block[k - 3 - n]);
        }
    }
    assert(ls.last() == block[m - 1]);
    (ls, 2, 3 + n)
}

proof fn lemma_flat_append(a: Seq<Seq<char>>, b: Seq<Seq<char>>)
    ensures
        flat(a + b) == flat(a) + flat(b),
    decreases b.len(),
{
    if b.len() == 0 {
        assert(a + b =~= a);
        assert(flat(a) + flat(b) =~= flat(a));
    } else {
        assert((a + b).drop_last() =~= a + b.drop_last());
        lemma_flat_append(a, b.drop_last());
        assert(flat(a + b) =~= flat(a) + flat(b));
    }
}

/// A file that is rewritten and read again says what was written, whatever
/// prose is round it.
pub proof fn a_rewritten_file_comes_back(existing: Seq<char>, f: FileFound, today: Seq<char>)
    requires
        can_be_written(f, today),
        can_be_rewritten(lines(existing)),
    ensures
        parsed(lines(rendered(Some(existing), f, today))) == Some(settled(f, today)),
{
    lemma_rewritten(existing, f, today);
    let at = places_of(existing, f, today);
    lemma_parsed(less_a_blank(rewritten(existing, f, today)), at.0, at.1, f, today);
}

proof fn lemma_put_back(ls: Seq<Seq<char>>, at: int, part: Seq<Seq<char>>)
    requires
        0 <= at,
        at + part.len() <= ls.len(),
        ls.subrange(at, at + part.len()) == part,
    ensures
        ls.take(at) + part + ls.skip(at + part.len()) == ls,
{
    assert(ls.take(at) + ls.subrange(at, at + part.len()) + ls.skip(at + part.len()) =~= ls);
}

/// Lines with something in the last of them end their text without a newline.
proof fn lemma_no_newline_yet(ls: Seq<Seq<char>>)
    requires
        are_lines(ls),
        ls.len() > 0,
        ls.last().len() > 0,
    ensures
        !finishes(joined(ls, newline()), newline()),
{
    let out = joined(ls, newline());
    lemma_joined(ls);
    assert(out.last() == ls.last().last());
    assert(is_line(ls[ls.len() - 1]));
    assert(ls.last().contains(ls.last().last()));
    if finishes(out, newline()) {
        assert(out.subrange(out.len() - 1, out.len() as int)[0] == out.last());
        assert(false);
    }
}

/// Lines that already hold a file are left as they are by writing it.
#[verifier::spinoff_prover]
#[verifier::rlimit(30)]
proof fn lemma_rewriting_again(
    ls: Seq<Seq<char>>,
    t: int,
    b: int,
    f: FileFound,
    today: Seq<char>,
)
    requires
        stands_on_lines(f, today),
        are_lines(ls),
        ls.len() > 0,
        ls.last().len() > 0,
        hold(ls, t, table_lines(f.viewports), b, block_lines(f, today)),
    ensures
        rendered(Some(joined(ls, newline()) + newline()), f, today) == joined(ls, newline())
            + newline(),
{
    let table = table_lines(f.viewports);
    let block = block_lines(f, today);
    lemma_parts(f, today);
    let text = joined(ls, newline()) + newline();
    lemma_lines_joined(ls);
    assert(lines(text) == ls);
    assert(with_block(ls, block) == ls) by {
        lemma_put_back(ls, b, block);
    }
    assert(with_table(ls, table) == ls) by {
        lemma_put_back(ls, t, table);
    }
    assert(rewritten(text, f, today) == ls);
    lemma_no_newline_yet(ls);
}

/// Writing the same thing twice changes nothing the second time, unless the
/// first left a blank line at the end of the file, which the second takes off.
/// There is exactly one config block then, if there was no more than one before.
pub proof fn a_second_rewrite_changes_nothing(
    existing: Seq<char>,
    f: FileFound,
    today: Seq<char>,
)
    requires
        stands_on_lines(f, today),
        can_be_rewritten(lines(existing)),
        !finishes(rendered(Some(existing), f, today), newline() + newline()),
    ensures
        rendered(Some(rendered(Some(existing), f, today)), f, today) == rendered(
            Some(existing),
            f,
            today,
        ),
        opens_at_most_one(lines(existing)) ==> has_one_block(
            lines(rendered(Some(existing), f, today)),
        ),
{
    if opens_at_most_one(lines(existing)) {
        a_rewritten_file_has_one_block(existing, f, today);
    }
    lemma_rewritten(existing, f, today);
    let at = places_of(existing, f, today);
    let ls = less_a_blank(rewritten(existing, f, today));
    let once = rendered(Some(existing), f, today);
    if ls.last().len() == 0 {
        lemma_joined(ls);
        let d = ls.drop_last();
        assert(d.len() > 0);
        lemma_joined(d);
        assert(once =~= joined(d, newline()) + newline() + newline());
        assert(once.subrange(once.len() - 2, once.len() as int) =~= newline() + newline());
        assert(false);
    }
    lemma_rewriting_again(ls, at.0, at.1, f, today);
}

/// Whether lines hold a config block and no other line opens one.
pub open spec fn has_one_block(ls: Seq<Seq<char>>) -> bool {
    block_range(ls) matches Some((b, _)) && forall|k: int|
        0 <= k < ls.len() && opens_block(#[trigger] ls[k]) ==> k == b
}

/// Whether no two lines open a config block.
pub open spec fn opens_at_most_one(ls: Seq<Seq<char>>) -> bool {
    forall|i: int, j: int|
        0 <= i < j < ls.len() && opens_block(#[trigger] ls[i]) ==> !opens_block(#[trigger] ls[j])
}

/// Whether the only line that opens a config block is `b`.
spec fn opens_only_at(ls: Seq<Seq<char>>, b: int) -> bool {
    forall|k: int| 0 <= k < ls.len() && opens_block(#[trigger] ls[k]) ==> k == b
}

#[verifier::rlimit(30)]
proof fn lemma_one_opening_blocked(ls: Seq<Seq<char>>, block: Seq<Seq<char>>)
    requires
        is_block(block),
        can_be_rewritten(ls),
        opens_at_most_one(ls),
    ensures
        opens_only_at(with_block(ls, block), block_place(ls)),
{
    lemma_blank();
    lemma_block_range(ls);
    lemma_block_from(ls, 0);
    let blocked = with_block(ls, block);
    assert forall|k: int| 0 <= k < blocked.len() && opens_block(#[trigger] blocked[k]) implies k
        == block_place(ls) by {
        match block_range(ls) {
            Some((s, e)) => {
                if k < s {
                    assert(blocked[k] == ls[k]);
                } else if k < s + block.len() {
                    assert(blocked[k] == block[k - s]);
                } else {
                    assert(opens_block(ls[s]));
                    assert(blocked[k] == ls[k - s - block.len() + e + 1]);
                }
            },
            None => {
                if k < ls.len() {
                    assert(blocked[k] == ls[k]);
                } else if k == ls.len() {
                    assert(blocked[k] =~= Seq::empty());
                } else {
                    assert(blocked[k] == block[k - ls.len() - 1]);
                }
            },
        }
    }
}

#[verifier::rlimit(30)]
proof fn lemma_one_opening_tabled(ls: Seq<Seq<char>>, table: Seq<Seq<char>>, b: int)
    requires
        is_table(table),
        opens_only_at(ls, b),
        block_from(ls, 0) == Some(b),
    ensures
        opens_only_at(with_table(ls, table), block_moved(ls, table, b)),
{
    lemma_blank();
    lemma_table_range(ls);
    lemma_block_from(ls, 0);
    let r = with_table(ls, table);
    let n = table.len() as int;
    assert forall|k: int| 0 <= k < n implies !opens_block(#[trigger] table[k]) by {
        assert(is_barred(table[k]));
        lemma_barred_is_no_block(table[k]);
    }
    assert forall|k: int| 0 <= k < r.len() && opens_block(#[trigger] r[k]) implies k
        == block_moved(ls, table, b) by {
        match table_range(ls) {
            Some((s, e)) => {
                if s <= b <= e {
                    assert(is_barred(ls[b]));
                    lemma_barred_is_no_block(ls[b]);
                }
                if k < s {
                    assert(r[k] == ls[k]);
                } else if k < s + n {
                    assert(r[k] == table[k - s]);
                } else {
                    assert(r[k] == ls[k - n + (e + 1 - s)]);
                }
            },
            None => {
                if k < b {
                    assert(r[k] == ls[k]);
                } else if k < b + n {
                    assert(r[k] == table[k - b]);
                } else if k == b + n {
                    assert(r[k] =~= Seq::empty());
                } else {
                    assert(r[k] == ls[k - n - 1]);
                }
            },
        }
    }
}

proof fn lemma_one_opening_less_a_blank(ls: Seq<Seq<char>>, b: int)
    requires
        opens_only_at(ls, b),
    ensures
        opens_only_at(less_a_blank(ls), b),
{
    let r = less_a_blank(ls);
    assert forall|k: int| 0 <= k < r.len() && opens_block(#[trigger] r[k]) implies k == b by {
        assert(r[k] == ls[k]);
    }
}

/// A file that is rewritten has exactly one config block, if it had no more than
/// one before.
#[verifier::rlimit(30)]
pub proof fn a_rewritten_file_has_one_block(existing: Seq<char>, f: FileFound, today: Seq<char>)
    requires
        stands_on_lines(f, today),
        can_be_rewritten(lines(existing)),
        opens_at_most_one(lines(existing)),
    ensures
        has_one_block(lines(rendered(Some(existing), f, today))),
{
    let ls = lines(existing);
    let table = table_lines(f.viewports);
    let block = block_lines(f, today);
    let b = block_place(ls);
    let again = reblocked(existing, f, today);
    let at = places_of(existing, f, today).1;
    assert(opens_only_at(again, b)) by {
        lemma_parts(f, today);
        lemma_reblocked(existing, f, today);
        lemma_one_opening_blocked(ls, block);
        lemma_one_opening_less_a_blank(with_block(ls, block), b);
    }
    assert(opens_only_at(less_a_blank(with_table(again, table)), at)) by {
        lemma_parts(f, today);
        lemma_reblocked(existing, f, today);
        lemma_one_opening_tabled(again, table, b);
        lemma_one_opening_less_a_blank(with_table(again, table), at);
    }
    lemma_lines_of_rewritten(existing, f, today);
    lemma_rewritten(existing, f, today);
}

/// Rewriting a file that was just made leaves it as it is, with its one config
/// block.
pub proof fn rewriting_a_fresh_file_changes_nothing(f: FileFound, today: Seq<char>)
    requires
        stands_on_lines(f, today),
    ensures
        rendered(Some(rendered(None, f, today)), f, today) == rendered(None, f, today),
        has_one_block(lines(rendered(None, f, today))),
{
    let (ls, t, b) = lemma_fresh(f, today);
    lemma_joined(ls);
    lemma_rewriting_again(ls, t, b, f, today);
}

/// Where a line of a file is once the config block is put in.
pub open spec fn after_block(ls: Seq<Seq<char>>, block: Seq<Seq<char>>, i: int) -> int {
    match block_range(ls) {
        Some((s, e)) => if i < s {
            i
        } else {
            i - (e + 1 - s) + block.len()
        },
        None => i,
    }
}

/// Where a line of a file is once the table is put in.
pub open spec fn after_table(ls: Seq<Seq<char>>, table: Seq<Seq<char>>, b: int, i: int) -> int {
    match table_range(ls) {
        Some((s, e)) => if i < s {
            i
        } else {
            i - (e + 1 - s) + table.len()
        },
        None => if i < b {
            i
        } else {
            i + table.len() + 1
        },
    }
}

/// A line of a file that is prose: not blank, and in neither the config block
/// nor the table.
pub open spec fn is_prose(existing: Seq<char>, f: FileFound, today: Seq<char>, i: int) -> bool {
    let ls = lines(existing);
    let k = after_block(ls, block_lines(f, today), i);
    &&& 0 <= i < ls.len()
    &&& ls[i].len() > 0
    &&& block_range(ls) matches Some((s, e)) ==> i < s || e < i
    &&& table_range(reblocked(existing, f, today)) matches Some((s, e)) ==> k < s || e < k
}

/// Where a line of prose is once a file is rewritten.
pub open spec fn kept_at(existing: Seq<char>, f: FileFound, today: Seq<char>, i: int) -> int {
    let ls = lines(existing);
    after_table(
        reblocked(existing, f, today),
        table_lines(f.viewports),
        block_place(ls),
        after_block(ls, block_lines(f, today), i),
    )
}

/// Prose is kept in the order it was in.
pub proof fn prose_keeps_its_order(
    existing: Seq<char>,
    f: FileFound,
    today: Seq<char>,
    i: int,
    j: int,
)
    requires
        stands_on_lines(f, today),
        can_be_rewritten(lines(existing)),
        is_prose(existing, f, today, i),
        is_prose(existing, f, today, j),
        i < j,
    ensures
        kept_at(existing, f, today, i) < kept_at(existing, f, today, j),
{
    let ls = lines(existing);
    let block = block_lines(f, today);
    let again = reblocked(existing, f, today);
    lemma_block_range(ls);
    lemma_table_range(again);
    let a = after_block(ls, block, i);
    let b = after_block(ls, block, j);
    assert(a < b);
}

proof fn lemma_kept_by_block(ls: Seq<Seq<char>>, block: Seq<Seq<char>>, i: int)
    requires
        0 <= i < ls.len(),
        block_range(ls) matches Some((s, e)) ==> i < s || e < i,
    ensures
        0 <= after_block(ls, block, i) < with_block(ls, block).len(),
        with_block(ls, block)[after_block(ls, block, i)] == ls[i],
{
    lemma_block_range(ls);
}

proof fn lemma_kept_by_table(ls: Seq<Seq<char>>, table: Seq<Seq<char>>, b: int, k: int)
    requires
        0 <= k < ls.len(),
        block_from(ls, 0) == Some(b),
        table_range(ls) matches Some((s, e)) ==> k < s || e < k,
    ensures
        0 <= after_table(ls, table, b, k) < with_table(ls, table).len(),
        with_table(ls, table)[after_table(ls, table, b, k)] == ls[k],
{
    lemma_table_range(ls);
    lemma_block_from(ls, 0);
}

/// A file with its block rewritten, read again: where its block is.
proof fn lemma_reblocked(existing: Seq<char>, f: FileFound, today: Seq<char>)
    requires
        stands_on_lines(f, today),
        can_be_rewritten(lines(existing)),
    ensures
        reblocked(existing, f, today) == less_a_blank(
            with_block(lines(existing), block_lines(f, today)),
        ),
        block_from(reblocked(existing, f, today), 0) == Some(block_place(lines(existing))),
{
    let ls = lines(existing);
    let block = block_lines(f, today);
    lemma_parts(f, today);
    lemma_with_block(ls, block);
    let blocked = with_block(ls, block);
    let b = block_place(ls);
    lemma_lines_joined(blocked);
    lemma_block_less_a_blank(blocked, b, block);
    let again = less_a_blank(blocked);
    assert(again.subrange(b, b + block.len())[0] == again[b]);
    lemma_block_from_is(again, 0, b);
}

/// The lines of a file that is rewritten.
proof fn lemma_lines_of_rewritten(existing: Seq<char>, f: FileFound, today: Seq<char>)
    requires
        stands_on_lines(f, today),
        can_be_rewritten(lines(existing)),
    ensures
        lines(rendered(Some(existing), f, today)) == less_a_blank(
            with_table(reblocked(existing, f, today), table_lines(f.viewports)),
        ),
{
    lemma_parts(f, today);
    lemma_rewritten(existing, f, today);
}

/// Prose is preserved: every line of it stands in the file that is written, as
/// it was.
pub proof fn prose_is_preserved(existing: Seq<char>, f: FileFound, today: Seq<char>, i: int)
    requires
        stands_on_lines(f, today),
        can_be_rewritten(lines(existing)),
        is_prose(existing, f, today, i),
    ensures
        ({
            let out = lines(rendered(Some(existing), f, today));
            let at = kept_at(existing, f, today, i);
            &&& 0 <= at < out.len()
            &&& out[at] == lines(existing)[i]
        }),
{
    let ls = lines(existing);
    let table = table_lines(f.viewports);
    let block = block_lines(f, today);
    let again = reblocked(existing, f, today);
    let b = block_place(ls);
    lemma_reblocked(existing, f, today);
    lemma_lines_of_rewritten(existing, f, today);
    lemma_kept_by_block(ls, block, i);
    let k = after_block(ls, block, i);
    assert(0 <= k < again.len() && again[k] == ls[i]);
    lemma_kept_by_table(again, table, b, k);
    let r = with_table(again, table);
    let at = kept_at(existing, f, today, i);
    assert(r[at] == ls[i]);
    assert(at < less_a_blank(r).len());
}

} // verus!
